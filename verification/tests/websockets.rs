use mashrl::http::{Headers, ResponseCode};
use mashrl::websockets::frame::{read_message, write_message, ReadError};
use mashrl::websockets::handshake::{
    handshake_request, handshake_response, parse_ws_url, upgrade_accepted, websocket_upgrade_key,
};
use mashrl::websockets::{base64, get_accept, sha1, Client, Message};

fn hex(bytes: &[u8]) -> String {
    let mut s = String::new();
    for b in bytes {
        s.push_str(&format!("{b:02x}"));
    }
    s
}

#[test]
fn base64_examples() {
    assert_eq!(base64(b"Many hands make light work."), "TWFueSBoYW5kcyBtYWtlIGxpZ2h0IHdvcmsu");
    assert_eq!(base64(b""), "");
    assert_eq!(base64(b"M"), "TQ==");
    assert_eq!(base64(b"Ma"), "TWE=");
    assert_eq!(base64(b"Man"), "TWFu");
    assert_eq!(base64(b"Many"), "TWFueQ==");
}

#[test]
fn base64_high_bits() {
    assert_eq!(base64(&[0xff, 0xfe, 0xfd]), "//79");
    assert_eq!(base64(&[0x00]), "AA==");
}

#[test]
fn sha1_known_digests() {
    assert_eq!(hex(&sha1(b"abc")), "a9993e364706816aba3e25717850c26c9cd0d89d");
    assert_eq!(hex(&sha1(b"")), "da39a3ee5e6b4b0d3255bfef95601890afd80709");
}

#[test]
fn sha1_block_boundaries() {
    assert_eq!(hex(&sha1(&[b'a'; 55])), "c1c8bbdc22796e28c0e15163d20899b65621d65a");
    assert_eq!(hex(&sha1(&[b'a'; 56])), "c2db330f6083854c99d4b5bfb6e8f29f201be699");
    assert_eq!(hex(&sha1(&[b'a'; 62])), "67b4b3923fa178d788a9611b76446c96431071f2");
    assert_eq!(hex(&sha1(&[b'a'; 64])), "0098ba824b5c16427bd7a1122a5a442a25ec644d");
    assert_eq!(hex(&sha1(&[b'a'; 119])), "ee971065aaa017e0632a8ca6c77bb3bf8b1dfc56");
    assert_eq!(hex(&sha1(&[b'a'; 120])), "f34c1488385346a55709ba056ddd08280dd4c6d6");
}

#[test]
fn sha1_sixty_three_bytes_leaves_out_length_block() {
    assert_eq!(hex(&sha1(&[b'a'; 63])), "c19903ca50283faff29048853518a53c57e9f759");
}

#[test]
fn accept_example() {
    let (key, accept) = ("dGhlIHNhbXBsZSBub25jZQ==", "s3pPLMBiTxaQ9kYGzzhZRbK+xOo=");
    assert_eq!(get_accept(key), accept);
}

#[test]
fn frame_text_round_trip() {
    let mut bytes = Vec::new();
    write_message(&mut bytes, Message::Text("hi".to_string()));
    assert_eq!(bytes, vec![0x81, 2, b'h', b'i']);
    let (m, used) = read_message(&bytes).unwrap();
    assert_eq!(used, 4);
    assert!(matches!(m, Message::Text(t) if t == "hi"));
}

#[test]
fn frame_binary_lengths() {
    for len in [0usize, 125, 126, 65535, 65536] {
        let payload: Vec<u8> = (0..len).map(|i| (i % 251) as u8).collect();
        let mut bytes = Vec::new();
        write_message(&mut bytes, Message::Binary(payload.clone()));
        let header = if len <= 125 {
            2
        } else if len <= 65535 {
            4
        } else {
            10
        };
        assert_eq!(bytes.len(), header + len);
        assert_eq!(bytes[0], 0x82);
        let (m, used) = read_message(&bytes).unwrap();
        assert_eq!(used, header + len);
        assert!(matches!(m, Message::Binary(b) if b == payload));
    }
}

#[test]
fn frame_length_fields() {
    let mut bytes = Vec::new();
    write_message(&mut bytes, Message::Binary(vec![0; 126]));
    assert_eq!(&bytes[..4], &[0x82, 126, 0, 126]);
    let mut bytes = Vec::new();
    write_message(&mut bytes, Message::Binary(vec![0; 65536]));
    assert_eq!(&bytes[..10], &[0x82, 127, 0, 0, 0, 0, 0, 1, 0, 0]);
}

#[test]
fn frame_close() {
    let mut bytes = Vec::new();
    write_message(&mut bytes, Message::Close);
    assert_eq!(bytes, vec![0x88, 0]);
    let (m, used) = read_message(&bytes).unwrap();
    assert_eq!(used, 2);
    assert!(matches!(m, Message::Close));
}

#[test]
fn frame_masked_text() {
    let mask = [1u8, 2, 3, 4];
    let text = b"Hello";
    let mut bytes = vec![0x81, 0x80 | 5];
    bytes.extend_from_slice(&mask);
    for (i, b) in text.iter().enumerate() {
        bytes.push(b ^ mask[i % 4]);
    }
    let (m, used) = read_message(&bytes).unwrap();
    assert_eq!(used, 11);
    assert!(matches!(m, Message::Text(t) if t == "Hello"));
}

#[test]
fn frame_invalid_utf8_text_is_replaced() {
    let bytes = vec![0x81, 2, 0xff, b'a'];
    let (m, _) = read_message(&bytes).unwrap();
    assert!(matches!(m, Message::Text(t) if t == "\u{FFFD}a"));
}

#[test]
fn frame_truncated() {
    assert_eq!(read_message(&vec![0x82]).err(), Some(ReadError::UnexpectedEof));
    assert_eq!(read_message(&vec![0x82, 5, 1, 2]).err(), Some(ReadError::UnexpectedEof));
    assert_eq!(read_message(&vec![0x82, 126, 0]).err(), Some(ReadError::UnexpectedEof));
}

#[test]
fn client_exchange() {
    let mut a = Client::new();
    let mut b = Client::new();
    a.write(Message::Text("ping".to_string()));
    a.write(Message::Binary(vec![1, 2, 3]));
    a.write(Message::Close);
    let bytes = a.take_outgoing();
    assert!(a.take_outgoing().is_empty());
    b.receive(&bytes[..3]);
    assert!(!b.next_opcode_unknown());
    assert_eq!(b.read().err(), Some(ReadError::UnexpectedEof));
    b.receive(&bytes[3..]);
    assert!(matches!(b.read(), Ok(Message::Text(t)) if t == "ping"));
    assert!(matches!(b.read(), Ok(Message::Binary(v)) if v == vec![1, 2, 3]));
    assert!(matches!(b.read(), Ok(Message::Close)));
    assert_eq!(b.read().err(), Some(ReadError::UnexpectedEof));
}

#[test]
fn client_sees_unknown_opcode() {
    let mut c = Client::new();
    c.receive(&[0x89, 0]);
    assert!(c.next_opcode_unknown());
}

#[test]
fn handshake_texts() {
    let request = handshake_request("localhost:8080", "chat", "dGhlIHNhbXBsZSBub25jZQ==");
    assert_eq!(
        request,
        "GET /chat HTTP/1.1\r\nHost: localhost:8080\r\nUpgrade: websocket\r\nConnection: upgrade\r\nSec-WebSocket-Key: dGhlIHNhbXBsZSBub25jZQ==\r\nSec-WebSocket-Version: 13\r\n\r\n"
    );
    let response = handshake_response("dGhlIHNhbXBsZSBub25jZQ==");
    assert_eq!(
        response,
        "HTTP/1.1 101 Switching Protocols\r\nUpgrade: websocket\r\nConnection: Upgrade\r\nSec-WebSocket-Accept: s3pPLMBiTxaQ9kYGzzhZRbK+xOo=\r\n\r\n"
    );
}

#[test]
fn handshake_acceptance() {
    let key = "dGhlIHNhbXBsZSBub25jZQ==";
    let good = Headers::from_pairs(&[("Sec-WebSocket-Accept", "s3pPLMBiTxaQ9kYGzzhZRbK+xOo=")]);
    assert!(upgrade_accepted(ResponseCode(101), &good, key));
    assert!(!upgrade_accepted(ResponseCode(200), &good, key));
    let bad = Headers::from_pairs(&[("Sec-WebSocket-Accept", "nope")]);
    assert!(!upgrade_accepted(ResponseCode(101), &bad, key));
    assert!(!upgrade_accepted(ResponseCode(101), &Headers::empty(), key));
}

#[test]
fn ws_urls() {
    assert_eq!(parse_ws_url("ws://localhost:9000/chat/room"), Some(("localhost:9000", "chat/room")));
    assert_eq!(parse_ws_url("ws://localhost:9000"), Some(("localhost:9000", "")));
    assert_eq!(parse_ws_url("http://localhost"), None);
}

#[test]
fn upgrade_requests() {
    let asks = Headers::from_pairs(&[("Upgrade", "websocket"), ("Sec-WebSocket-Key", "abc")]);
    assert_eq!(websocket_upgrade_key(&asks), Some(Some("abc")));
    let no_key = Headers::from_pairs(&[("upgrade", "websocket")]);
    assert_eq!(websocket_upgrade_key(&no_key), Some(None));
    let other = Headers::from_pairs(&[("Upgrade", "WebSocket"), ("Sec-WebSocket-Key", "abc")]);
    assert_eq!(websocket_upgrade_key(&other), None);
    assert_eq!(websocket_upgrade_key(&Headers::empty()), None);
}

#[test]
fn reason_phrases() {
    assert!(ResponseCode(200).has_reason_phrase());
    assert!(ResponseCode(511).has_reason_phrase());
    assert!(!ResponseCode(299).has_reason_phrase());
    assert!(!ResponseCode(0).has_reason_phrase());
}
