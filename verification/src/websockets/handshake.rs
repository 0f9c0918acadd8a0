use vstd::prelude::*;

use crate::http::headers::lookup;
use crate::http::status::ResponseCode;
use crate::http::Headers;
use crate::text;
use crate::websockets::digest::{sha1, sha1_digest};
use crate::websockets::encoding::{base64, base64_encode};

verus! {

broadcast use vstd::string::group_string_axioms;

/// The GUID that RFC 6455 appends to a key before hashing it.
pub open spec fn websocket_guid() -> Seq<char> {
    "258EAFA5-E914-47DA-95CA-C5AB0DC85B11"@
}

/// The `Sec-WebSocket-Accept` value for a `Sec-WebSocket-Key`: the base64 of
/// the SHA-1 of the key followed by the GUID.
pub open spec fn accept_for(key: Seq<char>) -> Seq<char> {
    base64_encode(sha1_digest(vstd::utf8::encode_utf8(key + websocket_guid())))
}

/// The `Sec-WebSocket-Accept` value that answers `key`.
pub fn get_accept(key: &str) -> (accept: String)
    requires
        vstd::utf8::encode_utf8(key@ + websocket_guid()).len() * 8 <= u64::MAX,
        vstd::utf8::encode_utf8(key@ + websocket_guid()).len() + 128 <= usize::MAX,
    ensures
        accept@ == accept_for(key@),
{
    let mut concat = key.to_owned();
    concat.append("258EAFA5-E914-47DA-95CA-C5AB0DC85B11");
    let hash = sha1(concat.as_str().as_bytes());
    base64(&hash)
}

/// The opening request of the client's handshake.
pub open spec fn handshake_request_text(host: Seq<char>, path: Seq<char>, key: Seq<char>) -> Seq<char> {
    "GET /"@ + path + " HTTP/1.1\r\n"@ + "Host: "@ + host + "\r\n"@ + "Upgrade: websocket\r\n"@
        + "Connection: upgrade\r\n"@ + "Sec-WebSocket-Key: "@ + key + "\r\n"@
        + "Sec-WebSocket-Version: 13\r\n"@ + "\r\n"@
}

/// The client's opening handshake for `path` on `host` with the base64 key.
pub fn handshake_request(host: &str, path: &str, key: &str) -> (request: String)
    ensures
        request@ == handshake_request_text(host@, path@, key@),
{
    let mut s = String::new();
    s.append("GET /");
    s.append(path);
    s.append(" HTTP/1.1\r\n");
    s.append("Host: ");
    s.append(host);
    s.append("\r\n");
    s.append("Upgrade: websocket\r\n");
    s.append("Connection: upgrade\r\n");
    s.append("Sec-WebSocket-Key: ");
    s.append(key);
    s.append("\r\n");
    s.append("Sec-WebSocket-Version: 13\r\n");
    s.append("\r\n");
    assert(s@ =~= handshake_request_text(host@, path@, key@));
    s
}

/// The server's answer to a handshake whose key is `key`.
pub open spec fn handshake_response_text(key: Seq<char>) -> Seq<char> {
    "HTTP/1.1 101 Switching Protocols\r\n"@ + "Upgrade: websocket\r\n"@
        + "Connection: Upgrade\r\n"@ + "Sec-WebSocket-Accept: "@ + accept_for(key) + "\r\n"@
        + "\r\n"@
}

/// The server's answer to a handshake whose key is `key`.
pub fn handshake_response(key: &str) -> (response: String)
    requires
        vstd::utf8::encode_utf8(key@ + websocket_guid()).len() * 8 <= u64::MAX,
        vstd::utf8::encode_utf8(key@ + websocket_guid()).len() + 128 <= usize::MAX,
    ensures
        response@ == handshake_response_text(key@),
{
    let mut s = String::new();
    s.append("HTTP/1.1 101 Switching Protocols\r\n");
    s.append("Upgrade: websocket\r\n");
    s.append("Connection: Upgrade\r\n");
    let accept = get_accept(key);
    s.append("Sec-WebSocket-Accept: ");
    s.append(accept.as_str());
    s.append("\r\n");
    s.append("\r\n");
    assert(s@ =~= handshake_response_text(key@));
    s
}

/// Whether the server's answer completes the handshake: status 101 and an
/// accept header that matches the key.
pub fn upgrade_accepted(code: ResponseCode, headers: &Headers, key: &str) -> (ok: bool)
    requires
        vstd::utf8::encode_utf8(key@ + websocket_guid()).len() * 8 <= u64::MAX,
        vstd::utf8::encode_utf8(key@ + websocket_guid()).len() + 128 <= usize::MAX,
    ensures
        ok == (code.0 == 101 && lookup(headers@, "Sec-WebSocket-Accept"@) == Some(accept_for(key@))),
{
    if code.0 != 101 {
        return false;
    }
    let accept = get_accept(key);
    match headers.get("Sec-WebSocket-Accept") {
        None => false,
        Some(value) => {
            let a = text::chars_of(accept.as_str());
            let n = a.len();
            let r = text::is_text_at(&a, 0, n, value);
            assert(a@.subrange(0, n as int) =~= a@);
            r
        },
    }
}

/// Whether a request asks to become a WebSocket: its `Upgrade` header is
/// exactly `websocket`.
pub open spec fn asks_upgrade(headers: Seq<char>) -> bool {
    lookup(headers, "Upgrade"@) == Some("websocket"@)
}

/// For a request that asks to become a WebSocket, its `Sec-WebSocket-Key`
/// (`None` inside when it has none); `None` for any other request.
pub fn websocket_upgrade_key<'b>(headers: &'b Headers) -> (r: Option<Option<&'b str>>)
    ensures
        r is Some <==> asks_upgrade(headers@),
        r matches Some(k) ==> (k is Some <==> lookup(headers@, "Sec-WebSocket-Key"@) is Some),
        r matches Some(Some(k)) ==> k@ == lookup(headers@, "Sec-WebSocket-Key"@)->0,
{
    let upgrade = match headers.get("Upgrade") {
        None => {
            return None;
        },
        Some(u) => u,
    };
    let u = text::chars_of(upgrade);
    assert(u@.subrange(0, u@.len() as int) =~= u@);
    if !text::is_text_at(&u, 0, u.len(), "websocket") {
        return None;
    }
    Some(headers.get("Sec-WebSocket-Key"))
}

/// Where a `ws://` URL points: the host (with any port) and the path after
/// the first slash; `None` when the URL does not start with `ws://`.
pub open spec fn ws_target(url: Seq<char>) -> Option<(Seq<char>, Seq<char>)> {
    if url.len() >= 5 && url.take(5) == "ws://"@ {
        let after = url.skip(5);
        let k = text::index_of(after, '/');
        if k < after.len() {
            Some((after.take(k), after.skip(k + 1)))
        } else {
            Some((after, Seq::empty()))
        }
    } else {
        None
    }
}

/// Splits a `ws://host/path` URL into its host and path.
pub fn parse_ws_url(url: &str) -> (r: Option<(&str, &str)>)
    ensures
        r is Some <==> ws_target(url@) is Some,
        r matches Some((h, p)) ==> ws_target(url@) == Some((h@, p@)),
{
    proof {
        reveal_strlit("ws://");
    }
    let chars = text::chars_of(url);
    if !text::starts_with_text(&chars, "ws://") {
        return None;
    }
    let n = chars.len();
    let k = text::find_char(&chars, 5, n, '/');
    let ghost after = url@.skip(5);
    assert(chars@.subrange(5, n as int) =~= after);
    if 5 + k < n {
        assert(after.take(k as int) =~= chars@.subrange(5, 5 + k));
        assert(after.skip(k + 1) =~= chars@.subrange(5 + k + 1, n as int));
        Some((url.substring_char(5, 5 + k), url.substring_char(5 + k + 1, n)))
    } else {
        assert(chars@.subrange(n as int, n as int) =~= Seq::<char>::empty());
        let empty = url.substring_char(n, n);
        Some((url.substring_char(5, n), empty))
    }
}

} // verus!
