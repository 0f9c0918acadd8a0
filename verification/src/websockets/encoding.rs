use vstd::prelude::*;

verus! {

/// The character of the base64 alphabet for a six-bit value.
pub open spec fn base64_char(v: u8) -> char {
    if v < 26 {
        (65 + v) as char
    } else if v < 52 {
        (97 + v - 26) as char
    } else if v < 62 {
        (48 + v - 52) as char
    } else if v == 62 {
        '+'
    } else {
        '/'
    }
}

/// The standard base64 encoding (RFC 4648, with `=` padding) of `s`.
pub open spec fn base64_encode(s: Seq<u8>) -> Seq<char>
    decreases s.len(),
{
    if s.len() == 0 {
        Seq::empty()
    } else if s.len() == 1 {
        seq![base64_char(s[0] >> 2u8), base64_char((s[0] & 3u8) << 4u8), '=', '=']
    } else if s.len() == 2 {
        seq![
            base64_char(s[0] >> 2u8),
            base64_char(((s[0] & 3u8) << 4u8) | (s[1] >> 4u8)),
            base64_char((s[1] & 15u8) << 2u8),
            '=',
        ]
    } else {
        seq![
            base64_char(s[0] >> 2u8),
            base64_char(((s[0] & 3u8) << 4u8) | (s[1] >> 4u8)),
            base64_char(((s[1] & 15u8) << 2u8) | (s[2] >> 6u8)),
            base64_char(s[2] & 63u8),
        ] + base64_encode(s.skip(3))
    }
}

fn alphabet(v: u8) -> (c: char)
    requires
        v < 64,
    ensures
        c == base64_char(v),
{
    if v < 26 {
        (65 + v) as char
    } else if v < 52 {
        (97 + v - 26) as char
    } else if v < 62 {
        (48 + v - 52) as char
    } else if v == 62 {
        '+'
    } else {
        '/'
    }
}

/// The base64 encoding of `input`, with `=` padding.
#[verifier::spinoff_prover]
pub fn base64(input: &[u8]) -> (encoded: String)
    ensures
        encoded@ == base64_encode(input@),
        base64_decode(encoded@) == input@,
{
    let mut buf = String::new();
    let n = input.len();
    let mut i: usize = 0;
    assert(input@.skip(0) =~= input@);
    assert(buf@ + base64_encode(input@) =~= base64_encode(input@));
    while n - i >= 3
        invariant
            i <= n == input@.len(),
            base64_encode(input@) == buf@ + base64_encode(input@.skip(i as int)),
        decreases n - i,
    {
        let a = input[i];
        let b = input[i + 1];
        let c = input[i + 2];
        assert(a >> 2u8 < 64 && ((a & 3u8) << 4u8) | (b >> 4u8) < 64 && ((b & 15u8) << 2u8) | (c
            >> 6u8) < 64 && c & 63u8 < 64) by (bit_vector);
        let ghost rest = input@.skip(i as int);
        assert(rest.skip(3) =~= input@.skip(i + 3));
        crate::text::push_char(&mut buf, alphabet(a >> 2));
        crate::text::push_char(&mut buf, alphabet(((a & 3) << 4) | (b >> 4)));
        crate::text::push_char(&mut buf, alphabet(((b & 15) << 2) | (c >> 6)));
        crate::text::push_char(&mut buf, alphabet(c & 63));
        i += 3;
    }
    let ghost rest = input@.skip(i as int);
    if n - i == 1 {
        let a = input[i];
        assert(a >> 2u8 < 64 && (a & 3u8) << 4u8 < 64) by (bit_vector);
        crate::text::push_char(&mut buf, alphabet(a >> 2));
        crate::text::push_char(&mut buf, alphabet((a & 3) << 4));
        crate::text::push_char(&mut buf, '=');
        crate::text::push_char(&mut buf, '=');
    } else if n - i == 2 {
        let a = input[i];
        let b = input[i + 1];
        assert(a >> 2u8 < 64 && ((a & 3u8) << 4u8) | (b >> 4u8) < 64 && (b & 15u8) << 2u8 < 64)
            by (bit_vector);
        crate::text::push_char(&mut buf, alphabet(a >> 2));
        crate::text::push_char(&mut buf, alphabet(((a & 3) << 4) | (b >> 4)));
        crate::text::push_char(&mut buf, alphabet((b & 15) << 2));
        crate::text::push_char(&mut buf, '=');
    } else {
        assert(rest.len() == 0);
    }
    assert(buf@ == base64_encode(input@));
    proof {
        lemma_base64_round_trip(input@);
    }
    assert(base64_decode(buf@) == input@);
    buf
}

/// The base64 alphabet of RFC 4648, in order of value.
pub open spec fn rfc4648_alphabet() -> Seq<char> {
    "ABCDEFGHIJKLMNOPQRSTUVWXYZabcdefghijklmnopqrstuvwxyz0123456789+/"@
}

/// The value of a base64 character: its position in the alphabet.
pub open spec fn sextet(c: char) -> int {
    crate::text::index_of(rfc4648_alphabet(), c)
}

/// The bytes of one group of four base64 characters; `=` in the third or
/// fourth place ends the data early.
pub open spec fn decode_group(g: Seq<char>) -> Seq<u8> {
    let a = sextet(g[0]) as u8;
    let b = sextet(g[1]) as u8;
    let c = sextet(g[2]) as u8;
    let d = sextet(g[3]) as u8;
    let x = (a << 2u8) | (b >> 4u8);
    let y = (b << 4u8) | (c >> 2u8);
    let z = (c << 6u8) | d;
    if g[2] == '=' {
        seq![x]
    } else if g[3] == '=' {
        seq![x, y]
    } else {
        seq![x, y, z]
    }
}

/// Base64 decoding (RFC 4648): each group of four characters gives the
/// bytes it encodes.
pub open spec fn base64_decode(s: Seq<char>) -> Seq<u8>
    decreases s.len(),
{
    if s.len() < 4 {
        Seq::empty()
    } else {
        decode_group(s.take(4)) + base64_decode(s.skip(4))
    }
}

/// The characters that `base64` writes for the values 0 to 63 are the RFC
/// 4648 alphabet, in order.
pub proof fn lemma_alphabet_is_rfc4648()
    ensures
        forall|v: u8| v < 64 ==> rfc4648_alphabet()[v as int] == #[trigger] base64_char(v),
        rfc4648_alphabet().len() == 64,
{
    reveal_strlit("ABCDEFGHIJKLMNOPQRSTUVWXYZabcdefghijklmnopqrstuvwxyz0123456789+/");
    let a = rfc4648_alphabet();
    assert(a[0] == base64_char(0u8));
    assert(a[1] == base64_char(1u8));
    assert(a[2] == base64_char(2u8));
    assert(a[3] == base64_char(3u8));
    assert(a[4] == base64_char(4u8));
    assert(a[5] == base64_char(5u8));
    assert(a[6] == base64_char(6u8));
    assert(a[7] == base64_char(7u8));
    assert(a[8] == base64_char(8u8));
    assert(a[9] == base64_char(9u8));
    assert(a[10] == base64_char(10u8));
    assert(a[11] == base64_char(11u8));
    assert(a[12] == base64_char(12u8));
    assert(a[13] == base64_char(13u8));
    assert(a[14] == base64_char(14u8));
    assert(a[15] == base64_char(15u8));
    assert(a[16] == base64_char(16u8));
    assert(a[17] == base64_char(17u8));
    assert(a[18] == base64_char(18u8));
    assert(a[19] == base64_char(19u8));
    assert(a[20] == base64_char(20u8));
    assert(a[21] == base64_char(21u8));
    assert(a[22] == base64_char(22u8));
    assert(a[23] == base64_char(23u8));
    assert(a[24] == base64_char(24u8));
    assert(a[25] == base64_char(25u8));
    assert(a[26] == base64_char(26u8));
    assert(a[27] == base64_char(27u8));
    assert(a[28] == base64_char(28u8));
    assert(a[29] == base64_char(29u8));
    assert(a[30] == base64_char(30u8));
    assert(a[31] == base64_char(31u8));
    assert(a[32] == base64_char(32u8));
    assert(a[33] == base64_char(33u8));
    assert(a[34] == base64_char(34u8));
    assert(a[35] == base64_char(35u8));
    assert(a[36] == base64_char(36u8));
    assert(a[37] == base64_char(37u8));
    assert(a[38] == base64_char(38u8));
    assert(a[39] == base64_char(39u8));
    assert(a[40] == base64_char(40u8));
    assert(a[41] == base64_char(41u8));
    assert(a[42] == base64_char(42u8));
    assert(a[43] == base64_char(43u8));
    assert(a[44] == base64_char(44u8));
    assert(a[45] == base64_char(45u8));
    assert(a[46] == base64_char(46u8));
    assert(a[47] == base64_char(47u8));
    assert(a[48] == base64_char(48u8));
    assert(a[49] == base64_char(49u8));
    assert(a[50] == base64_char(50u8));
    assert(a[51] == base64_char(51u8));
    assert(a[52] == base64_char(52u8));
    assert(a[53] == base64_char(53u8));
    assert(a[54] == base64_char(54u8));
    assert(a[55] == base64_char(55u8));
    assert(a[56] == base64_char(56u8));
    assert(a[57] == base64_char(57u8));
    assert(a[58] == base64_char(58u8));
    assert(a[59] == base64_char(59u8));
    assert(a[60] == base64_char(60u8));
    assert(a[61] == base64_char(61u8));
    assert(a[62] == base64_char(62u8));
    assert(a[63] == base64_char(63u8));
    assert forall|v: u8| v < 64 implies a[v as int] == #[trigger] base64_char(v) by {
        assert(a[v as int] == base64_char(v));
    }
}

/// Each value from 0 to 63 is read back from its character.
proof fn lemma_sextet(v: u8)
    requires
        v < 64,
    ensures
        sextet(base64_char(v)) == v,
        base64_char(v) != '=',
{
    lemma_alphabet_is_rfc4648();
    let a = rfc4648_alphabet();
    assert forall|j: int| 0 <= j < v implies a[j] != base64_char(v) by {
        assert(a[j] == base64_char(j as u8));
    }
    crate::text::lemma_index_of_is(a, base64_char(v), v as int);
}

/// Decoding what `base64` writes gives the bytes back: `base64` is the
/// RFC 4648 encoding.
pub proof fn lemma_base64_round_trip(x: Seq<u8>)
    ensures
        base64_decode(base64_encode(x)) == x,
    decreases x.len(),
{
    let e = base64_encode(x);
    if x.len() == 0 {
    } else if x.len() == 1 {
        let a = x[0];
        assert(a >> 2u8 < 64 && (a & 3u8) << 4u8 < 64) by (bit_vector);
        lemma_sextet(a >> 2u8);
        lemma_sextet((a & 3u8) << 4u8);
        assert(((a >> 2u8) << 2u8) | (((a & 3u8) << 4u8) >> 4u8) == a) by (bit_vector);
        assert(e.take(4) =~= e);
        assert(e.skip(4) =~= Seq::<char>::empty());
        assert(base64_decode(e.skip(4)) =~= Seq::<u8>::empty());
        assert(e[2] == '=');
        assert(sextet(e[0]) as u8 == a >> 2u8);
        assert(sextet(e[1]) as u8 == (a & 3u8) << 4u8);
        assert(decode_group(e) =~= x);
        assert(base64_decode(e) =~= x);
    } else if x.len() == 2 {
        let a = x[0];
        let b = x[1];
        let s1 = ((a & 3u8) << 4u8) | (b >> 4u8);
        let s2 = (b & 15u8) << 2u8;
        assert(a >> 2u8 < 64 && s1 < 64 && s2 < 64) by (bit_vector)
            requires
                s1 == ((a & 3u8) << 4u8) | (b >> 4u8),
                s2 == (b & 15u8) << 2u8,
        ;
        lemma_sextet(a >> 2u8);
        lemma_sextet(s1);
        lemma_sextet(s2);
        assert(((a >> 2u8) << 2u8) | (s1 >> 4u8) == a && (s1 << 4u8) | (s2 >> 2u8) == b)
            by (bit_vector)
            requires
                s1 == ((a & 3u8) << 4u8) | (b >> 4u8),
                s2 == (b & 15u8) << 2u8,
        ;
        assert(e.take(4) =~= e);
        assert(e.skip(4) =~= Seq::<char>::empty());
        assert(base64_decode(e.skip(4)) =~= Seq::<u8>::empty());
        assert(e[2] != '=' && e[3] == '=');
        assert(sextet(e[0]) as u8 == a >> 2u8);
        assert(sextet(e[1]) as u8 == s1);
        assert(sextet(e[2]) as u8 == s2);
        assert(decode_group(e) =~= x);
        assert(base64_decode(e) =~= x);
    } else {
        let a = x[0];
        let b = x[1];
        let c = x[2];
        let s1 = ((a & 3u8) << 4u8) | (b >> 4u8);
        let s2 = ((b & 15u8) << 2u8) | (c >> 6u8);
        let s3 = c & 63u8;
        assert(a >> 2u8 < 64 && s1 < 64 && s2 < 64 && s3 < 64) by (bit_vector)
            requires
                s1 == ((a & 3u8) << 4u8) | (b >> 4u8),
                s2 == ((b & 15u8) << 2u8) | (c >> 6u8),
                s3 == c & 63u8,
        ;
        lemma_sextet(a >> 2u8);
        lemma_sextet(s1);
        lemma_sextet(s2);
        lemma_sextet(s3);
        assert(((a >> 2u8) << 2u8) | (s1 >> 4u8) == a && (s1 << 4u8) | (s2 >> 2u8) == b && (s2
            << 6u8) | s3 == c) by (bit_vector)
            requires
                s1 == ((a & 3u8) << 4u8) | (b >> 4u8),
                s2 == ((b & 15u8) << 2u8) | (c >> 6u8),
                s3 == c & 63u8,
        ;
        let tail = base64_encode(x.skip(3));
        assert(e.skip(4) =~= tail);
        lemma_base64_round_trip(x.skip(3));
        assert(decode_group(e.take(4)) =~= x.take(3));
        assert(base64_decode(e) =~= x.take(3) + x.skip(3));
        assert(x.take(3) + x.skip(3) =~= x);
    }
}

} // verus!
