use vstd::prelude::*;

use crate::text;

verus! {

broadcast use vstd::string::group_string_axioms;

/// A WebSocket message.
#[derive(Debug)]
pub enum Message {
    Text(String),
    Binary(Vec<u8>),
    Close,
}

/// Why reading a frame failed: the bytes ended before the frame did.
#[derive(PartialEq, Eq, Clone, Copy, Debug, Structural)]
pub enum ReadError {
    UnexpectedEof,
}

/// The two big-endian bytes of a 16-bit length.
pub open spec fn be16_bytes(x: u16) -> Seq<u8> {
    seq![(x >> 8u16) as u8, x as u8]
}

/// The eight big-endian bytes of a 64-bit length.
pub open spec fn be64_bytes(x: u64) -> Seq<u8> {
    seq![
        (x >> 56u64) as u8,
        (x >> 48u64) as u8,
        (x >> 40u64) as u8,
        (x >> 32u64) as u8,
        (x >> 24u64) as u8,
        (x >> 16u64) as u8,
        (x >> 8u64) as u8,
        x as u8,
    ]
}

pub open spec fn be16_value(a: u8, b: u8) -> u16 {
    ((a as u16) << 8u16) | (b as u16)
}

pub open spec fn be64_value(s: Seq<u8>) -> u64 {
    ((s[0] as u64) << 56u64) | ((s[1] as u64) << 48u64) | ((s[2] as u64) << 40u64) | ((s[3] as u64)
        << 32u64) | ((s[4] as u64) << 24u64) | ((s[5] as u64) << 16u64) | ((s[6] as u64) << 8u64)
        | (s[7] as u64)
}

/// The length field of an unmasked frame carrying `len` bytes: seven bits,
/// or 126 and two bytes, or 127 and eight bytes.
pub open spec fn length_field(len: u64) -> Seq<u8> {
    if len <= 125 {
        seq![len as u8]
    } else if len <= 65535 {
        seq![126u8] + be16_bytes(len as u16)
    } else {
        seq![127u8] + be64_bytes(len)
    }
}

/// A final, unmasked frame with the given opcode and payload.
pub open spec fn frame_bytes(opcode: u8, payload: Seq<u8>) -> Seq<u8> {
    seq![0x80u8 | opcode] + length_field(payload.len() as u64) + payload
}

/// The bytes that `write_message` writes for a message: text as opcode 1 with
/// its UTF-8 bytes, binary as opcode 2, and close as opcode 8 with a zero
/// length.
pub open spec fn message_bytes(m: Message) -> Seq<u8> {
    match m {
        Message::Text(t) => frame_bytes(1, vstd::utf8::encode_utf8(t@)),
        Message::Binary(b) => frame_bytes(2, b@),
        Message::Close => seq![0x88u8, 0u8],
    }
}

/// The payload length of the frame at the start of `s` and where the bytes
/// after the length field start, or `None` when `s` ends first.
pub open spec fn payload_length(s: Seq<u8>) -> Option<(u64, int)> {
    if s.len() < 2 {
        None
    } else {
        let len7 = s[1] & 0x7Fu8;
        if len7 == 126 {
            if s.len() < 4 {
                None
            } else {
                Some((be16_value(s[2], s[3]) as u64, 4))
            }
        } else if len7 == 127 {
            if s.len() < 10 {
                None
            } else {
                Some((be64_value(s.subrange(2, 10)), 10))
            }
        } else {
            Some((len7 as u64, 2))
        }
    }
}

/// The header of the frame at the start of `s`: opcode, payload length, mask
/// (zeros when unmasked) and header length; `None` when `s` ends first.
pub open spec fn frame_header(s: Seq<u8>) -> Option<(u8, u64, Seq<u8>, int)> {
    match payload_length(s) {
        None => None,
        Some((len, at)) => {
            let opcode = s[0] & 0x0Fu8;
            if s[1] & 0x80u8 != 0 {
                if s.len() < at + 4 {
                    None
                } else {
                    Some((opcode, len, s.subrange(at, at + 4), at + 4))
                }
            } else {
                Some((opcode, len, seq![0u8, 0u8, 0u8, 0u8], at))
            }
        },
    }
}

/// Whether the frame at the start of `s` has a complete header whose opcode
/// is none of text, binary and close.
pub open spec fn unknown_opcode(s: Seq<u8>) -> bool {
    match frame_header(s) {
        Some((op, _, _, _)) => op != 1 && op != 2 && op != 8,
        None => false,
    }
}

/// `p` with each byte XORed with the mask byte at its position modulo four.
pub open spec fn unmask(p: Seq<u8>, mask: Seq<u8>) -> Seq<u8> {
    Seq::new(p.len(), |i: int| p[i] ^ mask[i % 4])
}

/// The frame at the start of `s`: opcode, unmasked payload (none is read for
/// close) and the number of bytes it takes; `None` when `s` ends first.
pub open spec fn parse_frame(s: Seq<u8>) -> Option<(u8, Seq<u8>, int)> {
    match frame_header(s) {
        None => None,
        Some((op, len, mask, at)) => if op == 8 {
            Some((8u8, Seq::empty(), at))
        } else if at + len <= s.len() {
            Some((op, unmask(s.subrange(at, at + len), mask), at + len))
        } else {
            None
        },
    }
}

/// Whether the frame at the front of `buffer` has a complete header with an
/// opcode that is none of text, binary and close.
pub fn frame_opcode_unknown(buffer: &Vec<u8>) -> (b: bool)
    ensures
        b == unknown_opcode(buffer@),
{
    match read_header(buffer) {
        None => false,
        Some((op, _, _, _)) => op != 1 && op != 2 && op != 8,
    }
}

fn read_header(s: &Vec<u8>) -> (r: Option<(u8, u64, [u8; 4], usize)>)
    ensures
        r is Some <==> frame_header(s@) is Some,
        r matches Some((op, len, mask, at)) ==> frame_header(s@) == Some(
            (op, len, mask@, at as int),
        ),
{
    let n = s.len();
    if n < 2 {
        return None;
    }
    let first = s[0];
    let second = s[1];
    let opcode = first & 0x0F;
    let len7 = second & 0x7F;
    let (len, at): (u64, usize) = if len7 == 126 {
        if n < 4 {
            return None;
        }
        ((((s[2] as u16) << 8) | (s[3] as u16)) as u64, 4)
    } else if len7 == 127 {
        if n < 10 {
            return None;
        }
        assert(s@.subrange(2, 10)[0] == s@[2] && s@.subrange(2, 10)[1] == s@[3] && s@.subrange(
            2,
            10,
        )[2] == s@[4] && s@.subrange(2, 10)[3] == s@[5] && s@.subrange(2, 10)[4] == s@[6]
            && s@.subrange(2, 10)[5] == s@[7] && s@.subrange(2, 10)[6] == s@[8] && s@.subrange(
            2,
            10,
        )[7] == s@[9]);
        let v: u64 = ((s[2] as u64) << 56) | ((s[3] as u64) << 48) | ((s[4] as u64) << 40) | ((
        s[5] as u64) << 32) | ((s[6] as u64) << 24) | ((s[7] as u64) << 16) | ((s[8] as u64) << 8)
            | (s[9] as u64);
        (v, 10)
    } else {
        (len7 as u64, 2)
    };
    if second & 0x80 != 0 {
        if n < at + 4 {
            return None;
        }
        let mask: [u8; 4] = [s[at], s[at + 1], s[at + 2], s[at + 3]];
        assert(mask@ =~= s@.subrange(at as int, at + 4));
        Some((opcode, len, mask, at + 4))
    } else {
        let mask: [u8; 4] = [0, 0, 0, 0];
        assert(mask@ =~= seq![0u8, 0u8, 0u8, 0u8]);
        Some((opcode, len, mask, at))
    }
}

/// Reads the frame at the front of `buffer`: the message and the number of
/// bytes it takes. Text payloads are decoded as UTF-8, invalid sequences
/// becoming U+FFFD.
pub fn read_message(buffer: &Vec<u8>) -> (r: Result<(Message, usize), ReadError>)
    requires
        !unknown_opcode(buffer@),
    ensures
        parse_frame(buffer@) is None ==> r == Err::<(Message, usize), ReadError>(
            ReadError::UnexpectedEof,
        ),
        parse_frame(buffer@) matches Some((op, p, n)) ==> {
            &&& r is Ok
            &&& r->Ok_0.1 == n
            &&& op == 1 ==> (r->Ok_0.0 matches Message::Text(t) && t@ == text::utf8_lossy(p) && (
            vstd::utf8::valid_utf8(p) ==> t@ == vstd::utf8::decode_utf8(p)))
            &&& op == 2 ==> (r->Ok_0.0 matches Message::Binary(b) && b@ == p)
            &&& op == 8 ==> r->Ok_0.0 matches Message::Close
        },
{
    let header = read_header(buffer);
    match header {
        None => Err(ReadError::UnexpectedEof),
        Some((opcode, len, mask, at)) => {
            if opcode == 8 {
                return Ok((Message::Close, at));
            }
            let avail = buffer.len() - at;
            if len > avail as u64 {
                return Err(ReadError::UnexpectedEof);
            }
            let len = len as usize;
            let n = buffer.len();
            let mut payload: Vec<u8> = Vec::new();
            let mut i: usize = 0;
            while i < len
                invariant
                    i <= len,
                    n == buffer@.len(),
                    at + len <= n,
                    mask@.len() == 4,
                    payload@.len() == i,
                    forall|j: int|
                        0 <= j < i ==> payload@[j] == (buffer@[at + j] ^ mask@[j % 4]),
                decreases len - i,
            {
                payload.push(buffer[at + i] ^ mask[i % 4]);
                i += 1;
            }
            assert(payload@ =~= unmask(buffer@.subrange(at as int, at + len), mask@));
            if opcode == 1 {
                let t = text::string_from_utf8_lossy(payload.as_slice());
                Ok((Message::Text(t), at + len))
            } else {
                Ok((Message::Binary(payload), at + len))
            }
        },
    }
}

/// Appends the length field for `len` bytes (unmasked).
fn write_length(stream: &mut Vec<u8>, len: usize)
    ensures
        final(stream)@ == old(stream)@ + length_field(len as u64),
{
    if len <= 125 {
        stream.push(len as u8);
    } else if len <= 65535 {
        let l = len as u16;
        stream.push(126);
        stream.push((l >> 8) as u8);
        stream.push(l as u8);
    } else {
        let l = len as u64;
        stream.push(127);
        stream.push((l >> 56) as u8);
        stream.push((l >> 48) as u8);
        stream.push((l >> 40) as u8);
        stream.push((l >> 32) as u8);
        stream.push((l >> 24) as u8);
        stream.push((l >> 16) as u8);
        stream.push((l >> 8) as u8);
        stream.push(l as u8);
    }
    assert(stream@ =~= old(stream)@ + length_field(len as u64));
}

fn push_all(stream: &mut Vec<u8>, bytes: &[u8])
    ensures
        final(stream)@ == old(stream)@ + bytes@,
{
    let mut i: usize = 0;
    while i < bytes.len()
        invariant
            i <= bytes@.len(),
            stream@ == old(stream)@ + bytes@.take(i as int),
        decreases bytes@.len() - i,
    {
        stream.push(bytes[i]);
        assert(bytes@.take(i + 1) =~= bytes@.take(i as int).push(bytes@[i as int]));
        i += 1;
    }
    assert(bytes@.take(bytes@.len() as int) =~= bytes@);
}

/// Appends the frame of `message` to `stream`: final and unmasked.
pub fn write_message(stream: &mut Vec<u8>, message: Message)
    ensures
        final(stream)@ == old(stream)@ + message_bytes(message),
{
    assert(0x80u8 | 1u8 == 0x81u8) by (bit_vector);
    assert(0x80u8 | 2u8 == 0x82u8) by (bit_vector);
    match message {
        Message::Text(text) => {
            stream.push(0x81);
            let bytes = text.as_str().as_bytes();
            write_length(stream, bytes.len());
            push_all(stream, bytes);
            assert(stream@ =~= old(stream)@ + message_bytes(Message::Text(text)));
        },
        Message::Binary(content) => {
            stream.push(0x82);
            write_length(stream, content.len());
            push_all(stream, content.as_slice());
            assert(stream@ =~= old(stream)@ + message_bytes(Message::Binary(content)));
        },
        Message::Close => {
            stream.push(0x88);
            stream.push(0);
            assert(stream@ =~= old(stream)@ + message_bytes(Message::Close));
        },
    }
}

} // verus!

verus! {

/// The opcode that `write_message` gives a message.
pub open spec fn message_opcode(m: Message) -> u8 {
    match m {
        Message::Text(_) => 1u8,
        Message::Binary(_) => 2u8,
        Message::Close => 8u8,
    }
}

/// The payload bytes that `write_message` writes for a message.
pub open spec fn message_payload(m: Message) -> Seq<u8> {
    match m {
        Message::Text(t) => vstd::utf8::encode_utf8(t@),
        Message::Binary(b) => b@,
        Message::Close => Seq::empty(),
    }
}

proof fn lemma_frame_parse(opcode: u8, payload: Seq<u8>, rest: Seq<u8>)
    requires
        opcode == 1 || opcode == 2,
        payload.len() <= u64::MAX,
    ensures
        parse_frame(frame_bytes(opcode, payload) + rest) == Some(
            (opcode, payload, frame_bytes(opcode, payload).len() as int),
        ),
{
    let len = payload.len() as u64;
    let f = frame_bytes(opcode, payload);
    let s = f + rest;
    let lf = length_field(len);
    assert((0x80u8 | opcode) & 0x0Fu8 == opcode) by (bit_vector)
        requires
            opcode == 1 || opcode == 2,
    ;
    if len <= 125 {
        assert((len as u8) & 0x7Fu8 == len as u8 && (len as u8) & 0x80u8 == 0) by (bit_vector)
            requires
                len <= 125,
        ;
        assert(s[1] == len as u8);
    } else if len <= 65535 {
        let x = len as u16;
        assert(126u8 & 0x7Fu8 == 126u8 && 126u8 & 0x80u8 == 0) by (bit_vector);
        assert(((((x >> 8u16) as u8) as u16) << 8u16) | ((x as u8) as u16) == x) by (bit_vector);
        assert(s[1] == 126u8 && s[2] == (x >> 8u16) as u8 && s[3] == x as u8);
    } else {
        assert(127u8 & 0x7Fu8 == 127u8 && 127u8 & 0x80u8 == 0) by (bit_vector);
        let b = be64_bytes(len);
        assert(s.subrange(2, 10) =~= b);
        assert(be64_value(b) == len) by {
            let b0 = (len >> 56u64) as u8;
            let b1 = (len >> 48u64) as u8;
            let b2 = (len >> 40u64) as u8;
            let b3 = (len >> 32u64) as u8;
            let b4 = (len >> 24u64) as u8;
            let b5 = (len >> 16u64) as u8;
            let b6 = (len >> 8u64) as u8;
            let b7 = len as u8;
            assert(((b0 as u64) << 56u64) | ((b1 as u64) << 48u64) | ((b2 as u64) << 40u64) | ((
            b3 as u64) << 32u64) | ((b4 as u64) << 24u64) | ((b5 as u64) << 16u64) | ((b6 as u64)
                << 8u64) | (b7 as u64) == len) by (bit_vector)
                requires
                    b0 == (len >> 56u64) as u8,
                    b1 == (len >> 48u64) as u8,
                    b2 == (len >> 40u64) as u8,
                    b3 == (len >> 32u64) as u8,
                    b4 == (len >> 24u64) as u8,
                    b5 == (len >> 16u64) as u8,
                    b6 == (len >> 8u64) as u8,
                    b7 == len as u8,
            ;
        }
    }
    let at = 1 + lf.len();
    assert(payload_length(s) == Some((len, at as int)));
    let p = unmask(s.subrange(at as int, at + len), seq![0u8, 0u8, 0u8, 0u8]);
    assert forall|i: int| 0 <= i < p.len() implies p[i] == payload[i] by {
        let x = s[at + i];
        assert(x ^ 0u8 == x) by (bit_vector);
        assert(seq![0u8, 0u8, 0u8, 0u8][i % 4] == 0u8);
        assert(s[at + i] == payload[i]);
    }
    assert(p =~= payload);
}

/// Reading back what `write_message` wrote gives the same message: the same
/// opcode and payload, taking exactly the bytes written, whatever follows.
pub proof fn lemma_message_round_trip(m: Message, rest: Seq<u8>)
    requires
        message_payload(m).len() <= u64::MAX,
    ensures
        !unknown_opcode(message_bytes(m) + rest),
        parse_frame(message_bytes(m) + rest) == Some(
            (message_opcode(m), message_payload(m), message_bytes(m).len() as int),
        ),
        m is Text ==> vstd::utf8::valid_utf8(message_payload(m)) && vstd::utf8::decode_utf8(
            message_payload(m),
        ) == m->Text_0@,
{
    match m {
        Message::Text(t) => {
            lemma_frame_parse(1u8, vstd::utf8::encode_utf8(t@), rest);
            vstd::utf8::encode_utf8_valid_utf8(t@);
            vstd::utf8::encode_utf8_decode_utf8(t@);
        },
        Message::Binary(b) => {
            lemma_frame_parse(2u8, b@, rest);
        },
        Message::Close => {
            let s = message_bytes(m) + rest;
            assert(0x88u8 & 0x0Fu8 == 8u8 && 0u8 & 0x7Fu8 == 0u8 && 0u8 & 0x80u8 == 0u8)
                by (bit_vector);
            assert(s[0] == 0x88u8 && s[1] == 0u8);
            assert(message_payload(m) =~= Seq::<u8>::empty());
        },
    }
}

/// A final frame as a client sends it (RFC 6455, 5.2): the opcode byte, the
/// length (seven bits, or 126 and two bytes, or 127 and eight bytes) with
/// the mask bit set, then the four mask bytes, then each payload byte XORed
/// with the mask byte at its position modulo four.
pub open spec fn masked_frame_bytes(opcode: u8, mask: Seq<u8>, payload: Seq<u8>) -> Seq<u8> {
    let lf = length_field(payload.len() as u64);
    seq![0x80u8 | opcode, 0x80u8 | lf[0]] + lf.skip(1) + mask + Seq::new(
        payload.len(),
        |i: int| payload[i] ^ mask[i % 4],
    )
}

/// Reading a masked frame gives back the payload that was masked, whatever
/// its length and whatever follows the frame: the mask is the four bytes
/// after the length field.
pub proof fn lemma_masked_frame_round_trip(
    opcode: u8,
    mask: Seq<u8>,
    payload: Seq<u8>,
    rest: Seq<u8>,
)
    requires
        opcode == 1 || opcode == 2,
        mask.len() == 4,
        payload.len() <= u64::MAX,
    ensures
        !unknown_opcode(masked_frame_bytes(opcode, mask, payload) + rest),
        parse_frame(masked_frame_bytes(opcode, mask, payload) + rest) == Some(
            (opcode, payload, masked_frame_bytes(opcode, mask, payload).len() as int),
        ),
{
    let len = payload.len() as u64;
    let f = masked_frame_bytes(opcode, mask, payload);
    let s = f + rest;
    let lf = length_field(len);
    let b1 = 0x80u8 | lf[0];
    assert((0x80u8 | opcode) & 0x0Fu8 == opcode) by (bit_vector)
        requires
            opcode == 1 || opcode == 2,
    ;
    assert(s[0] == 0x80u8 | opcode);
    assert(s[1] == b1);
    if len <= 125 {
        let l = len as u8;
        assert(lf[0] == l);
        assert((0x80u8 | l) & 0x7Fu8 == l && (0x80u8 | l) & 0x80u8 != 0) by (bit_vector)
            requires
                l <= 125,
        ;
    } else if len <= 65535 {
        let x = len as u16;
        assert(lf[0] == 126u8);
        assert((0x80u8 | 126u8) & 0x7Fu8 == 126u8 && (0x80u8 | 126u8) & 0x80u8 != 0)
            by (bit_vector);
        assert(((((x >> 8u16) as u8) as u16) << 8u16) | ((x as u8) as u16) == x) by (bit_vector);
        assert(s[2] == (x >> 8u16) as u8 && s[3] == x as u8);
    } else {
        assert(lf[0] == 127u8);
        assert((0x80u8 | 127u8) & 0x7Fu8 == 127u8 && (0x80u8 | 127u8) & 0x80u8 != 0)
            by (bit_vector);
        let b = be64_bytes(len);
        assert(s.subrange(2, 10) =~= b);
        assert(be64_value(b) == len) by {
            let b0 = (len >> 56u64) as u8;
            let b1 = (len >> 48u64) as u8;
            let b2 = (len >> 40u64) as u8;
            let b3 = (len >> 32u64) as u8;
            let b4 = (len >> 24u64) as u8;
            let b5 = (len >> 16u64) as u8;
            let b6 = (len >> 8u64) as u8;
            let b7 = len as u8;
            assert(((b0 as u64) << 56u64) | ((b1 as u64) << 48u64) | ((b2 as u64) << 40u64) | ((
            b3 as u64) << 32u64) | ((b4 as u64) << 24u64) | ((b5 as u64) << 16u64) | ((b6 as u64)
                << 8u64) | (b7 as u64) == len) by (bit_vector)
                requires
                    b0 == (len >> 56u64) as u8,
                    b1 == (len >> 48u64) as u8,
                    b2 == (len >> 40u64) as u8,
                    b3 == (len >> 32u64) as u8,
                    b4 == (len >> 24u64) as u8,
                    b5 == (len >> 16u64) as u8,
                    b6 == (len >> 8u64) as u8,
                    b7 == len as u8,
            ;
        }
    }
    let at: int = 1 + lf.len() as int;
    assert(payload_length(s) == Some((len, at)));
    assert(s.subrange(at, at + 4) =~= mask);
    let m: int = at + 4;
    let p = unmask(s.subrange(m, m + len), mask);
    assert forall|i: int| 0 <= i < p.len() implies p[i] == payload[i] by {
        let x = payload[i];
        let k = mask[i % 4];
        assert(s[m + i] == x ^ k);
        assert((x ^ k) ^ k == x) by (bit_vector);
    }
    assert(p =~= payload);
}

} // verus!
