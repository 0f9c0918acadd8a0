use mashrl::http::chunked::{is_chunked_body_complete, ChunkError, ChunkedIterator, ChunkedReader};

#[test]
fn decode() {
    let source = "5\r\nhello\r\n6\r\n world\r\n0\r\n\r\n";
    let mut reader = ChunkedReader::new(source.as_bytes().to_vec());
    let mut out = String::new();
    let result = reader.read_to_string(&mut out).unwrap();
    assert_eq!(result, 11);
    assert_eq!(out, "hello world");
}

#[test]
fn decode_leaves_final_line_ending_unread() {
    let source = "5\r\nhello\r\n0\r\n\r\n";
    let mut reader = ChunkedReader::new(source.as_bytes().to_vec());
    let mut out = Vec::new();
    assert_eq!(reader.read_to_end(&mut out), Ok(5));
    assert_eq!(out, b"hello".to_vec());
    assert_eq!(reader.into_inner(), b"\r\n".to_vec());
}

#[test]
fn decode_hex_sizes() {
    let mut source = Vec::new();
    source.extend_from_slice(b"1A\r\n");
    source.extend_from_slice(&[b'x'; 26]);
    source.extend_from_slice(b"\r\nb\r\n");
    source.extend_from_slice(&[b'y'; 11]);
    source.extend_from_slice(b"\r\n0\r\n\r\n");
    let mut reader = ChunkedReader::new(source);
    let mut out = Vec::new();
    assert_eq!(reader.read_to_end(&mut out), Ok(37));
    assert_eq!(&out[..26], &[b'x'; 26][..]);
    assert_eq!(&out[26..], &[b'y'; 11][..]);
}

#[test]
fn decode_in_small_reads() {
    let source = "5\r\nhello\r\n6\r\n world\r\n0\r\n\r\n";
    let mut reader = ChunkedReader::new(source.as_bytes().to_vec());
    let mut collected = Vec::new();
    loop {
        let mut buf = vec![0u8; 3];
        let n = reader.read(&mut buf).unwrap();
        if n == 0 {
            break;
        }
        collected.extend_from_slice(&buf[..n]);
    }
    assert_eq!(collected, b"hello world".to_vec());
}

#[test]
fn decode_invalid_size() {
    let mut reader = ChunkedReader::new(b"zz\r\nhello\r\n0\r\n\r\n".to_vec());
    let mut out = Vec::new();
    assert_eq!(reader.read_to_end(&mut out), Err(ChunkError::InvalidData));
    assert!(out.is_empty());
}

#[test]
fn decode_missing_line_ending_after_chunk() {
    let mut reader = ChunkedReader::new(b"5\r\nhelloXY0\r\n\r\n".to_vec());
    let mut buf = vec![0u8; 16];
    assert_eq!(reader.read(&mut buf), Err(ChunkError::InvalidData));
}

#[test]
fn decode_stops_where_input_ends_inside_a_chunk() {
    let mut reader = ChunkedReader::new(b"a\r\nhello".to_vec());
    let mut out = Vec::new();
    assert_eq!(reader.read_to_end(&mut out), Ok(5));
    assert_eq!(out, b"hello".to_vec());
}

#[test]
fn decode_missing_chunk_end() {
    let mut reader = ChunkedReader::new(b"5\r\nhello".to_vec());
    let mut out = Vec::new();
    assert_eq!(reader.read_to_end(&mut out), Err(ChunkError::UnexpectedEof));
}

#[test]
fn decode_empty_input() {
    let mut reader = ChunkedReader::new(Vec::new());
    let mut out = Vec::new();
    assert_eq!(reader.read_to_end(&mut out), Err(ChunkError::InvalidData));
}

#[test]
fn decode_to_string_rejects_invalid_utf8() {
    let mut reader = ChunkedReader::new(b"2\r\n\xff\xfe\r\n0\r\n\r\n".to_vec());
    let mut out = String::from("kept");
    assert_eq!(reader.read_to_string(&mut out), Err(ChunkError::InvalidData));
    assert_eq!(out, "kept");
}

fn read_all(iter: &mut ChunkedIterator, size: usize) -> Vec<u8> {
    let mut all = Vec::new();
    loop {
        let mut buf = vec![0u8; size];
        let n = iter.read(&mut buf);
        if n == 0 {
            break;
        }
        all.extend_from_slice(&buf[..n]);
    }
    all
}

#[test]
fn encode_chunks() {
    let mut iter = ChunkedIterator::new(vec![b"hello".to_vec(), b" world".to_vec()]);
    let all = read_all(&mut iter, 64);
    assert_eq!(all, b"5\r\nhello\r\n6\r\n world\r\n0\r\n\r\n".to_vec());
}

#[test]
fn encode_chunks_into_small_buffers() {
    let mut iter = ChunkedIterator::new(vec![vec![7u8; 20], vec![9u8; 3]]);
    let all = read_all(&mut iter, 4);
    let mut expected = b"14\r\n".to_vec();
    expected.extend_from_slice(&[7u8; 20]);
    expected.extend_from_slice(b"\r\n3\r\n");
    expected.extend_from_slice(&[9u8; 3]);
    expected.extend_from_slice(b"\r\n0\r\n\r\n");
    assert_eq!(all, expected);
}

#[test]
fn encode_needs_more_than_two_bytes_of_room() {
    let mut iter = ChunkedIterator::new(vec![b"abc".to_vec()]);
    let mut buf = vec![0u8; 2];
    assert_eq!(iter.read(&mut buf), 0);
    let mut buf = vec![0u8; 3];
    assert_eq!(iter.read(&mut buf), 3);
    assert_eq!(buf, b"3\r\n".to_vec());
}

#[test]
fn encode_then_decode() {
    let items = vec![b"first".to_vec(), vec![0u8; 300], b"last".to_vec()];
    let mut iter = ChunkedIterator::new(items.clone());
    let encoded = read_all(&mut iter, 7);
    let mut reader = ChunkedReader::new(encoded);
    let mut out = Vec::new();
    assert_eq!(reader.read_to_end(&mut out), Ok(309));
    assert_eq!(out, items.concat());
}

#[test]
fn complete_chunked_bodies() {
    use_complete(b"5\r\nhello\r\n0\r\n", true);
    use_complete(b"5\r\nhello\r\n0\r\n\r\n", true);
    use_complete(b"5\r\nhello\r\n0", false);
    use_complete(b"5\r\nhel", false);
    use_complete(b"5\r\nhello\r", false);
    use_complete(b"", false);
    use_complete(b"zz\r\n", true);
    use_complete(b"5\r\nhelloXY", true);
}

fn use_complete(bytes: &[u8], expected: bool) {
    assert_eq!(is_chunked_body_complete(&bytes.to_vec()), expected, "{bytes:?}");
}

#[test]
fn bytes_after_a_complete_body_change_nothing() {
    let body = b"5\r\nhello\r\n0\r\n".to_vec();
    assert!(is_chunked_body_complete(&body));
    let mut longer = body.clone();
    longer.extend_from_slice(b"\r\nHTTP/1.1 200 OK\r\n");
    let mut a = Vec::new();
    let mut b = Vec::new();
    assert_eq!(ChunkedReader::new(body).read_to_end(&mut a), Ok(5));
    assert_eq!(ChunkedReader::new(longer).read_to_end(&mut b), Ok(5));
    assert_eq!(a, b);
}

#[test]
fn encode_one_chunk_per_read() {
    let mut iter = ChunkedIterator::new(vec![b"hello".to_vec(), b" world".to_vec()]);
    let mut lengths = Vec::new();
    let mut all = Vec::new();
    loop {
        let mut buf = vec![0u8; 64];
        let n = iter.read(&mut buf);
        lengths.push(n);
        all.extend_from_slice(&buf[..n]);
        if n == 0 {
            break;
        }
    }
    assert_eq!(lengths, vec![10, 11, 5, 0]);
    assert_eq!(all, b"5\r\nhello\r\n6\r\n world\r\n0\r\n\r\n".to_vec());
    let mut buf = vec![0u8; 64];
    assert_eq!(iter.read(&mut buf), 0);
}
