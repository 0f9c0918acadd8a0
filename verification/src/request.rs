use vstd::prelude::*;

use crate::http::headers::{header_line, lookup, Headers};
use crate::http::message::Request;
use crate::text;

verus! {

broadcast use vstd::string::group_string_axioms;

/// The request line and headers that start a request: `METHOD /path
/// HTTP/1.1`, the headers without trailing white space, and a blank line.
pub open spec fn request_head_text(method: Seq<char>, path: Seq<char>, headers: Seq<char>) -> Seq<
    char,
> {
    method + " /"@ + path + " HTTP/1.1\r\n"@ + text::trim_end(headers) + "\r\n"@ + "\r\n"@
}

/// Writes the request line and headers of `request` (not its body).
pub fn write_method_path_and_headers<B>(request: &Request<B>, stream: &mut String)
    ensures
        final(stream)@ == old(stream)@ + request_head_text(
            request.method.0@,
            request.path@,
            request.headers@,
        ),
{
    stream.append(request.method.0.as_str());
    stream.append(" /");
    stream.append(request.path.as_str());
    stream.append(" HTTP/1.1\r\n");
    let chars = text::chars_of(request.headers.0.as_str());
    let n = chars.len();
    let e = text::trim_end_at(&chars, 0, n);
    assert(chars@.subrange(0, n as int) =~= request.headers@);
    text::push_chars(stream, &chars, 0, e);
    stream.append("\r\n");
    stream.append("\r\n");
    assert(stream@ =~= old(stream)@ + request_head_text(
        request.method.0@,
        request.path@,
        request.headers@,
    ));
}

/// Where to connect for a request with host `host`: the name (what precedes
/// the last colon) and `host:port`, port 443 when none is given.
pub open spec fn target_of(host: Seq<char>) -> (Seq<char>, Seq<char>) {
    let k = text::last_index_of(host, ':');
    if k >= 0 {
        (host.take(k), host)
    } else {
        (host, host + ":443"@)
    }
}

/// The server name and address of a request, from its `Host` header;
/// `None` when it has none.
pub fn connection_target<B>(request: &Request<B>) -> (r: Option<(String, String)>)
    ensures
        r is Some <==> lookup(request.headers@, "host"@) is Some,
        r matches Some((root, url)) ==> (root@, url@) == target_of(
            lookup(request.headers@, "host"@)->0,
        ),
{
    match request.headers.get("host") {
        None => None,
        Some(host) => {
            let chars = text::chars_of(host);
            match text::rfind_char(&chars, ':') {
                Some(k) => {
                    let root = text::string_of(&chars, 0, k);
                    Some((root, host.to_owned()))
                },
                None => {
                    let mut url = host.to_owned();
                    url.append(":443");
                    Some((host.to_owned(), url))
                },
            }
        },
    }
}

/// `root` without a leading `https://`.
pub open spec fn host_of(root: Seq<char>) -> Seq<char> {
    if root.len() >= 8 && root.take(8) == "https://"@ {
        root.skip(8)
    } else {
        root
    }
}

/// A `GET` request for `path` on `root` (with or without `https://`): the
/// given headers with a `Host` header appended, and an empty body.
pub fn get_request(root: &str, path: &str, headers: Headers) -> (r: Request<Vec<u8>>)
    ensures
        r.method.0@ == "GET"@,
        r.path@ == path@,
        r.headers@ == headers@ + header_line("Host"@, host_of(root@)),
        r.body@ == Seq::<u8>::empty(),
{
    proof {
        reveal_strlit("https://");
    }
    let chars = text::chars_of(root);
    let n = chars.len();
    let host = if text::starts_with_text(&chars, "https://") {
        let h = root.substring_char(8, n);
        assert(h@ =~= root@.skip(8));
        h
    } else {
        root
    };
    let mut headers = headers;
    headers.append("Host", host);
    Request::new_get(path, headers)
}

} // verus!
