use std::io::Write;

use mashrl::extras::{get_request_for_url, serve_file_head};
use mashrl::http::message::BodyError;
use mashrl::http::chunked::ChunkError;
use mashrl::http::{Body, Headers, Method, Request, ResponseBody, ResponseCode};
use mashrl::request::{connection_target, get_request, write_method_path_and_headers};
use mashrl::response::{parse_status_line, response_head, HeadReader};

fn gzip(data: &[u8]) -> Vec<u8> {
    let mut encoder = flate2::write::GzEncoder::new(Vec::new(), flate2::Compression::default());
    encoder.write_all(data).unwrap();
    encoder.finish().unwrap()
}

#[test]
fn methods() {
    assert_eq!(Method::get().0, "GET");
    assert_eq!(Method::head().0, "HEAD");
    assert_eq!(Method::post().0, "POST");
    assert_eq!(Method::put().0, "PUT");
    assert_eq!(Method::patch().0, "PATCH");
    assert_eq!(Method::connect().0, "CONNECT");
    assert_eq!(Method::trace().0, "TRACE");
    assert_eq!(Method::get(), Method("GET".to_string()));
    assert_ne!(Method::get(), Method::post());
}

#[test]
fn request_head() {
    let headers = Headers::from_pairs(&[("Host", "example.com"), ("Accept", "*/*")]);
    let request = Request::new_get("index.html", headers);
    let mut out = String::from(">");
    write_method_path_and_headers(&request, &mut out);
    assert_eq!(
        out,
        ">GET /index.html HTTP/1.1\r\nHost: example.com\r\nAccept: */*\r\n\r\n"
    );
}

#[test]
fn request_head_without_headers() {
    let request = Request::new_get("", Headers::empty());
    let mut out = String::new();
    write_method_path_and_headers(&request, &mut out);
    assert_eq!(out, "GET / HTTP/1.1\r\n\r\n\r\n");
}

#[test]
fn connection_targets() {
    let with_port = Request::new_get("", Headers::from_pairs(&[("Host", "example.com:8443")]));
    assert_eq!(
        connection_target(&with_port),
        Some(("example.com".to_string(), "example.com:8443".to_string()))
    );
    let without = Request::new_get("", Headers::from_pairs(&[("host", "example.com")]));
    assert_eq!(
        connection_target(&without),
        Some(("example.com".to_string(), "example.com:443".to_string()))
    );
    let none = Request::new_get("", Headers::empty());
    assert_eq!(connection_target(&none), None);
}

#[test]
fn get_requests() {
    let r = get_request("https://example.com", "a/b", Headers::from_pairs(&[("X", "1")]));
    assert_eq!(r.method.0, "GET");
    assert_eq!(r.path, "a/b");
    assert_eq!(r.headers.0, "X: 1\r\nHost: example.com\r\n");
    assert!(r.body.is_empty());
    let r = get_request("example.org", "", Headers::empty());
    assert_eq!(r.headers.0, "Host: example.org\r\n");
}

#[test]
fn requests_for_urls() {
    let r = get_request_for_url("https://example.com/a/b?c=d").unwrap();
    assert_eq!(r.method.0, "GET");
    assert_eq!(r.path, "/a/b?c=d");
    assert_eq!(r.headers.0, "Host: example.com\r\nUser-Agent: mashrl\r\n");
    let r = get_request_for_url("example.com/").unwrap();
    assert_eq!(r.path, "/");
    assert_eq!(r.headers.get("host"), Some("example.com"));
    assert!(get_request_for_url("https://example.com").is_none());
}

#[test]
fn file_heads() {
    let (code, headers) = serve_file_head(Some("text/html"), Some(1234), false);
    assert_eq!(code, ResponseCode(200));
    assert_eq!(headers.0, "Content-Type: text/html\r\nConnection: close\r\nContent-Length: 1234\r\n");
    let (code, headers) = serve_file_head(None, None, true);
    assert_eq!(code, ResponseCode(404));
    assert_eq!(headers.0, "Connection: close\r\nAccess-Control-Allow-Origin: *\r\n");
    let (_, headers) = serve_file_head(None, Some(0), true);
    assert_eq!(
        headers.0,
        "Connection: close\r\nAccess-Control-Allow-Origin: *\r\nContent-Length: 0\r\n"
    );
}

#[test]
fn response_heads() {
    let headers = Headers::from_pairs(&[("Content-Length", "5")]);
    let head = response_head(ResponseCode(404), &headers);
    assert_eq!(head, "HTTP/1.1 404 Not Found\r\nContent-Length: 5\r\n\r\n");
}

#[test]
fn head_reader_content_length() {
    let mut reader = HeadReader::new();
    assert!(!reader.push_line("Content-Type: text/plain\r\n"));
    assert!(!reader.push_line("content-length:  42 \r\n"));
    assert!(reader.push_line("\r\n"));
    let (headers, length) = reader.finish();
    assert_eq!(length, 42);
    assert_eq!(headers.0, "Content-Type: text/plain\r\ncontent-length:  42 \r\n");
    assert!(headers.is_valid());
    assert_eq!(headers.get("Content-Length"), Some("42"));
}

#[test]
fn head_reader_chunked() {
    let mut reader = HeadReader::new();
    assert!(!reader.push_line("Transfer-Encoding: gzip, chunked\r\n"));
    assert!(reader.push_line("\r\n"));
    let (_, length) = reader.finish();
    assert_eq!(length, u64::MAX);
}

#[test]
fn head_reader_ignores_bad_length() {
    let mut reader = HeadReader::new();
    assert!(!reader.push_line("Content-Length: 12\r\n"));
    assert!(!reader.push_line("Content-Length: lots\r\n"));
    assert!(reader.push_line("\r\n"));
    let (_, length) = reader.finish();
    assert_eq!(length, 12);
}

#[test]
fn head_reader_empty_headers() {
    let mut reader = HeadReader::new();
    assert!(reader.push_line("\r\n"));
    let (headers, length) = reader.finish();
    assert_eq!(length, 0);
    assert!(headers.is_empty());
}

#[test]
fn reader_plain_body() {
    let body = Body::new(b"plain".to_vec());
    let reader = body.get_reader(&Headers::empty());
    assert!(matches!(reader, ResponseBody::Base(_)));
    assert_eq!(reader.decode(), Ok(b"plain".to_vec()));
}

#[test]
fn reader_chunked_body() {
    let headers = Headers::from_pairs(&[("Transfer-Encoding", "chunked")]);
    let body = Body::new(b"5\r\nhello\r\n6\r\n world\r\n0\r\n\r\n".to_vec());
    let reader = body.get_reader(&headers);
    assert!(matches!(&reader, ResponseBody::Chunked(_)));
    assert_eq!(reader.decode(), Ok(b"hello world".to_vec()));
}

#[test]
fn reader_chunked_error() {
    let headers = Headers::from_pairs(&[("Transfer-Encoding", "chunked")]);
    let reader = Body::new(b"zz\r\n".to_vec()).get_reader(&headers);
    assert_eq!(reader.decode(), Err(BodyError::Chunked(ChunkError::InvalidData)));
}

#[test]
fn reader_gzip_body() {
    let headers = Headers::from_pairs(&[("Content-Encoding", "gzip")]);
    let reader = Body::new(gzip(b"hello gzip world")).get_reader(&headers);
    assert!(matches!(&reader, ResponseBody::Gzipped(_)));
    assert_eq!(reader.decode(), Ok(b"hello gzip world".to_vec()));
}

#[test]
fn reader_gzip_error() {
    let headers = Headers::from_pairs(&[("Content-Encoding", "gzip")]);
    let reader = Body::new(b"not gzip".to_vec()).get_reader(&headers);
    assert_eq!(reader.decode(), Err(BodyError::Gzip));
}

#[test]
fn reader_chunked_then_gzip() {
    let compressed = gzip(b"layered");
    let mut body = format!("{:x}\r\n", compressed.len()).into_bytes();
    body.extend_from_slice(&compressed);
    body.extend_from_slice(b"\r\n0\r\n\r\n");
    let headers = Headers::from_pairs(&[("Transfer-Encoding", "chunked"), ("Content-Encoding", "gzip")]);
    let reader = Body::new(body).get_reader(&headers);
    assert_eq!(reader.decode(), Ok(b"layered".to_vec()));
}

#[test]
fn reader_transfer_list_in_order() {
    let compressed = gzip(b"both");
    let mut body = format!("{:x}\r\n", compressed.len()).into_bytes();
    body.extend_from_slice(&compressed);
    body.extend_from_slice(b"\r\n0\r\n\r\n");
    let headers = Headers::from_pairs(&[("Transfer-Encoding", "chunked , gzip, br")]);
    let reader = Body::new(body).get_reader(&headers);
    assert!(matches!(&reader, ResponseBody::Gzipped(_)));
    let inner = reader.into_inner();
    assert!(matches!(&inner, ResponseBody::Chunked(_)));
    let base = inner.into_inner();
    assert!(matches!(&base, ResponseBody::Base(_)));
    assert!(matches!(base.into_inner(), ResponseBody::Base(_)));
}

#[test]
fn reader_chunked_content_coding_is_ignored() {
    let headers = Headers::from_pairs(&[("Content-Encoding", "chunked")]);
    let reader = Body::new(b"5\r\nhello\r\n0\r\n\r\n".to_vec()).get_reader(&headers);
    assert!(matches!(reader, ResponseBody::Base(_)));
}

#[test]
fn body_raw() {
    let body = Body::new(vec![1u8, 2, 3]);
    assert_eq!(body.raw(), vec![1, 2, 3]);
}

#[test]
fn response_head_status_line_reads_back() {
    for code in [101u16, 200, 204, 302, 404, 418, 500, 511] {
        let head = response_head(ResponseCode(code), &Headers::from_pairs(&[("A", "b")]));
        let line_end = head.find('\n').unwrap() + 1;
        assert_eq!(parse_status_line(&head[..line_end]), Some(ResponseCode(code)));
    }
}

#[test]
fn reader_input_complete() {
    let chunked = Headers::from_pairs(&[("Transfer-Encoding", "chunked")]);
    assert!(!Body::new(b"5\r\nhel".to_vec()).get_reader(&chunked).input_complete());
    assert!(Body::new(b"5\r\nhello\r\n0\r\n".to_vec()).get_reader(&chunked).input_complete());
    assert!(!Body::new(b"anything".to_vec()).get_reader(&Headers::empty()).input_complete());
    let both = Headers::from_pairs(&[("Transfer-Encoding", "chunked"), ("Content-Encoding", "gzip")]);
    assert!(Body::new(b"0\r\n".to_vec()).get_reader(&both).input_complete());
}

#[test]
fn head_reader_accepts_lines() {
    let mut reader = HeadReader::new();
    assert!(reader.accepts_line("A: 1\r\n"));
    assert!(!reader.push_line("A: 1\r\n"));
    assert!(reader.accepts_line("\r\n"));
    assert!(reader.accepts_line("B: 2\r\n"));
    let mut wide = HeadReader::new();
    assert!(!wide.push_line("A: \u{20ac}"));
    assert!(!wide.accepts_line(""));
    assert!(!HeadReader::new().accepts_line(""));
    assert!(reader.push_line("\r\n"));
    assert!(!reader.accepts_line("C: 3\r\n"));
}
