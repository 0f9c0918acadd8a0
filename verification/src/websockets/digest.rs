use vstd::prelude::*;

verus! {

/// The five 32-bit words of SHA-1's chaining state.
pub type Sha1State = (u32, u32, u32, u32, u32);

/// The chaining state before the first block.
pub open spec fn initial_state() -> Sha1State {
    (0x67452301u32, 0xEFCDAB89u32, 0x98BADCFEu32, 0x10325476u32, 0xC3D2E1F0u32)
}

/// Left rotation of a 32-bit word by `n` bits, `0 < n < 32`.
pub open spec fn rotl(x: u32, n: u32) -> u32 {
    (x << n) | (x >> ((32 - n) as u32))
}

/// The big-endian word made of four bytes.
pub open spec fn be_word(a: u8, b: u8, c: u8, d: u8) -> u32 {
    ((a as u32) << 24u32) | ((b as u32) << 16u32) | ((c as u32) << 8u32) | (d as u32)
}

/// The number of bytes that the blocks must cover: the input, the `0x80`
/// marker, and, when the marker leaves no room for the length in its block,
/// one block more.
pub open spec fn padded_total(len: int) -> int {
    if (len + 1) % 64 > 56 {
        len + 65
    } else {
        len + 1
    }
}

/// The number of 64-byte blocks that the digest processes.
pub open spec fn block_count(len: int) -> int {
    (padded_total(len) + 63) / 64
}

/// Whether block `k` is the one that carries the message length.
pub open spec fn is_last_block(len: int, k: int) -> bool {
    64 * k + 64 > padded_total(len)
}

/// The byte at position `p` of the padded message, before the length is
/// written: the input, then `0x80`, then zeros.
pub open spec fn padded_byte(input: Seq<u8>, p: int) -> u8 {
    if p < input.len() {
        input[p]
    } else if p == input.len() {
        0x80u8
    } else {
        0u8
    }
}

/// Word `w` (of 16) of block `k` of the padded message.
pub open spec fn message_word(input: Seq<u8>, k: int, w: int) -> u32 {
    let bits = (input.len() * 8) as u64;
    if is_last_block(input.len() as int, k) && w == 14 {
        (bits >> 32u64) as u32
    } else if is_last_block(input.len() as int, k) && w == 15 {
        bits as u32
    } else {
        let p = 64 * k + 4 * w;
        be_word(
            padded_byte(input, p),
            padded_byte(input, p + 1),
            padded_byte(input, p + 2),
            padded_byte(input, p + 3),
        )
    }
}

/// The sixteen words of block `k`.
pub open spec fn message_block(input: Seq<u8>, k: int) -> Seq<u32> {
    Seq::new(16, |w: int| message_word(input, k, w))
}

/// Word `j` of the message schedule of a block `m`.
pub open spec fn schedule(m: Seq<u32>, j: int) -> u32
    decreases j,
{
    if j < 16 {
        m[j]
    } else {
        rotl(
            schedule(m, j - 3) ^ schedule(m, j - 8) ^ schedule(m, j - 14) ^ schedule(m, j - 16),
            1,
        )
    }
}

/// The round function of round `j`.
pub open spec fn round_f(j: int, b: u32, c: u32, d: u32) -> u32 {
    if j < 20 {
        (b & c) | (!b & d)
    } else if j < 40 {
        b ^ c ^ d
    } else if j < 60 {
        (b & c) | (b & d) | (c & d)
    } else {
        b ^ c ^ d
    }
}

/// The round constant of round `j`.
pub open spec fn round_k(j: int) -> u32 {
    if j < 20 {
        0x5A827999u32
    } else if j < 40 {
        0x6ED9EBA1u32
    } else if j < 60 {
        0x8F1BBCDCu32
    } else {
        0xCA62C1D6u32
    }
}

/// The working variables after the first `j` rounds over block `m`.
pub open spec fn rounds(h: Sha1State, m: Seq<u32>, j: int) -> Sha1State
    decreases j,
{
    if j <= 0 {
        h
    } else {
        let s = rounds(h, m, j - 1);
        let t = rotl(s.0, 5).wrapping_add(round_f(j - 1, s.1, s.2, s.3)).wrapping_add(s.4)
            .wrapping_add(round_k(j - 1)).wrapping_add(schedule(m, j - 1));
        (t, s.0, rotl(s.1, 30), s.2, s.3)
    }
}

/// The chaining state after compressing block `m` into `h`.
pub open spec fn compress(h: Sha1State, m: Seq<u32>) -> Sha1State {
    let r = rounds(h, m, 80);
    (
        h.0.wrapping_add(r.0),
        h.1.wrapping_add(r.1),
        h.2.wrapping_add(r.2),
        h.3.wrapping_add(r.3),
        h.4.wrapping_add(r.4),
    )
}

/// The chaining state after the first `n` blocks of the padded input.
pub open spec fn state_after(input: Seq<u8>, n: int) -> Sha1State
    decreases n,
{
    if n <= 0 {
        initial_state()
    } else {
        compress(state_after(input, n - 1), message_block(input, n - 1))
    }
}

/// The four big-endian bytes of a word.
pub open spec fn word_bytes(x: u32) -> Seq<u8> {
    seq![(x >> 24u32) as u8, (x >> 16u32) as u8, (x >> 8u32) as u8, x as u8]
}

/// The 20-byte digest that `sha1` computes for `input`.
pub open spec fn sha1_digest(input: Seq<u8>) -> Seq<u8> {
    let h = state_after(input, block_count(input.len() as int));
    word_bytes(h.0) + word_bytes(h.1) + word_bytes(h.2) + word_bytes(h.3) + word_bytes(h.4)
}

fn rotate_left(x: u32, n: u32) -> (r: u32)
    requires
        0 < n < 32,
    ensures
        r == rotl(x, n),
{
    (x << n) | (x >> (32 - n))
}

fn padded_byte_at(input: &[u8], p: usize) -> (b: u8)
    ensures
        b == padded_byte(input@, p as int),
{
    if p < input.len() {
        input[p]
    } else if p == input.len() {
        0x80
    } else {
        0
    }
}

/// The sixteen words of the block that starts at byte `i`.
fn read_block(input: &[u8], i: usize, total_length: usize) -> (m: Vec<u32>)
    requires
        i % 64 == 0,
        i < total_length,
        total_length == padded_total(input@.len() as int),
        total_length + 63 <= usize::MAX,
        input@.len() * 8 <= u64::MAX,
    ensures
        m@ == message_block(input@, i as int / 64),
{
    let ghost k = i as int / 64;
    let last = i + 64 > total_length;
    let bits: u64 = input.len() as u64 * 8;
    let mut m: Vec<u32> = Vec::new();
    let mut w: usize = 0;
    while w < 16
        invariant
            w <= 16,
            m@.len() == w,
            i == 64 * k,
            i < total_length,
            total_length + 63 <= usize::MAX,
            total_length == padded_total(input@.len() as int),
            last == is_last_block(input@.len() as int, k),
            bits == (input@.len() * 8) as u64,
            forall|t: int| 0 <= t < w ==> m@[t] == message_word(input@, k, t),
        decreases 16 - w,
    {
        let word = if last && w == 14 {
            (bits >> 32) as u32
        } else if last && w == 15 {
            bits as u32
        } else {
            let p = i + 4 * w;
            let b0 = padded_byte_at(input, p) as u32;
            let b1 = padded_byte_at(input, p + 1) as u32;
            let b2 = padded_byte_at(input, p + 2) as u32;
            let b3 = padded_byte_at(input, p + 3) as u32;
            (b0 << 24) | (b1 << 16) | (b2 << 8) | b3
        };
        m.push(word);
        w = w + 1;
    }
    assert(m@ =~= message_block(input@, k));
    m
}

/// Compress one block into the chaining state.
fn compress_block(h: Sha1State, m: &Vec<u32>) -> (r: Sha1State)
    requires
        m@.len() == 16,
    ensures
        r == compress(h, m@),
{
    let mut chunk: Vec<u32> = Vec::new();
    let mut j: usize = 0;
    while j < 80
        invariant
            j <= 80,
            m@.len() == 16,
            chunk@.len() == j,
            forall|t: int| 0 <= t < j ==> chunk@[t] == schedule(m@, t),
        decreases 80 - j,
    {
        let word = if j < 16 {
            m[j]
        } else {
            let temp = chunk[j - 3] ^ chunk[j - 8] ^ chunk[j - 14] ^ chunk[j - 16];
            rotate_left(temp, 1)
        };
        chunk.push(word);
        j = j + 1;
    }
    let (h0, h1, h2, h3, h4) = h;
    let mut a: u32 = h0;
    let mut b: u32 = h1;
    let mut c: u32 = h2;
    let mut d: u32 = h3;
    let mut e: u32 = h4;
    let mut j: usize = 0;
    while j < 80
        invariant
            j <= 80,
            chunk@.len() == 80,
            forall|t: int| 0 <= t < 80 ==> chunk@[t] == schedule(m@, t),
            (a, b, c, d, e) == rounds(h, m@, j as int),
        decreases 80 - j,
    {
        let (f, k) = if j < 20 {
            ((b & c) | (!b & d), 0x5A827999u32)
        } else if j < 40 {
            (b ^ c ^ d, 0x6ED9EBA1u32)
        } else if j < 60 {
            ((b & c) | (b & d) | (c & d), 0x8F1BBCDCu32)
        } else {
            (b ^ c ^ d, 0xCA62C1D6u32)
        };
        let temp = rotate_left(a, 5);
        let temp = temp.wrapping_add(f);
        let temp = temp.wrapping_add(e);
        let temp = temp.wrapping_add(k);
        let temp = temp.wrapping_add(chunk[j]);
        e = d;
        d = c;
        c = rotate_left(b, 30);
        b = a;
        a = temp;
        j = j + 1;
    }
    (h0.wrapping_add(a), h1.wrapping_add(b), h2.wrapping_add(c), h3.wrapping_add(d), h4.wrapping_add(e))
}

/// The SHA-1 digest of `input`, computed over blocks padded with `0x80`,
/// zeros and the message length in bits. It is SHA-1 as FIPS 180-4 defines
/// it, except on inputs whose length is 63 more than a multiple of 64: there
/// the `0x80` marker fills the last block and no block with the length
/// follows.
pub fn sha1(input: &[u8]) -> (digest: [u8; 20])
    requires
        input@.len() * 8 <= u64::MAX,
        input@.len() + 128 <= usize::MAX,
    ensures
        digest@ == sha1_digest(input@),
        input@.len() % 64 != 63 ==> digest@ == fips_sha1(input@),
{
    let mut state: Sha1State = (0x67452301, 0xEFCDAB89, 0x98BADCFE, 0x10325476, 0xC3D2E1F0);
    let mut total_length = input.len() + 1;
    if total_length % 64 > 56 {
        total_length += 64;
    }
    let mut i: usize = 0;
    while i < total_length
        invariant
            i % 64 == 0,
            i < total_length + 64,
            total_length == padded_total(input@.len() as int),
            total_length + 63 <= usize::MAX,
            input@.len() * 8 <= u64::MAX,
            state == state_after(input@, i as int / 64),
        decreases total_length + 64 - i,
    {
        let m = read_block(input, i, total_length);
        state = compress_block(state, &m);
        assert((i + 64) as int / 64 == i as int / 64 + 1);
        i += 64;
    }
    assert(i as int / 64 == block_count(input@.len() as int));
    let (h0, h1, h2, h3, h4) = state;
    let out: [u8; 20] = [
        (h0 >> 24) as u8, (h0 >> 16) as u8, (h0 >> 8) as u8, h0 as u8,
        (h1 >> 24) as u8, (h1 >> 16) as u8, (h1 >> 8) as u8, h1 as u8,
        (h2 >> 24) as u8, (h2 >> 16) as u8, (h2 >> 8) as u8, h2 as u8,
        (h3 >> 24) as u8, (h3 >> 16) as u8, (h3 >> 8) as u8, h3 as u8,
        (h4 >> 24) as u8, (h4 >> 16) as u8, (h4 >> 8) as u8, h4 as u8,
    ];
    assert(out@ =~= sha1_digest(input@));
    proof {
        if input@.len() % 64 != 63 {
            lemma_sha1_is_fips(input@);
        }
    }
    out
}

// ---------------------------------------------------------------------------
// SHA-1 as FIPS 180-4 pads the message
// ---------------------------------------------------------------------------

/// The number of 64-byte blocks of a `len`-byte message once padded: the
/// message, `0x80`, the fewest zeros, and the bit length in eight bytes.
pub open spec fn fips_block_count(len: int) -> int {
    (len + 8) / 64 + 1
}

/// Byte `p` of the padded message.
pub open spec fn fips_byte(input: Seq<u8>, p: int) -> u8 {
    let total = 64 * fips_block_count(input.len() as int);
    let bits = (input.len() * 8) as u64;
    if p < input.len() {
        input[p]
    } else if p == input.len() {
        0x80u8
    } else if p < total - 8 {
        0u8
    } else {
        (bits >> ((8 * (total - 1 - p)) as u64)) as u8
    }
}

/// Block `k` of the padded message, as sixteen big-endian words.
pub open spec fn fips_block(input: Seq<u8>, k: int) -> Seq<u32> {
    Seq::new(
        16,
        |w: int|
            be_word(
                fips_byte(input, 64 * k + 4 * w),
                fips_byte(input, 64 * k + 4 * w + 1),
                fips_byte(input, 64 * k + 4 * w + 2),
                fips_byte(input, 64 * k + 4 * w + 3),
            ),
    )
}

/// The chaining state after the first `n` padded blocks.
pub open spec fn fips_state(input: Seq<u8>, n: int) -> Sha1State
    decreases n,
{
    if n <= 0 {
        initial_state()
    } else {
        compress(fips_state(input, n - 1), fips_block(input, n - 1))
    }
}

/// The SHA-1 digest of `input` as FIPS 180-4 defines it.
pub open spec fn fips_sha1(input: Seq<u8>) -> Seq<u8> {
    let h = fips_state(input, fips_block_count(input.len() as int));
    word_bytes(h.0) + word_bytes(h.1) + word_bytes(h.2) + word_bytes(h.3) + word_bytes(h.4)
}

/// Both paddings have the same number of blocks, and the block that
/// carries the length is the last of them, unless the length is 63 more
/// than a multiple of 64.
proof fn lemma_block_counts(len: int)
    requires
        len >= 0,
        len % 64 != 63,
    ensures
        block_count(len) == fips_block_count(len),
        forall|k: int|
            0 <= k < block_count(len) ==> (is_last_block(len, k) <==> k == block_count(len) - 1),
{
    let q = len / 64;
    let a = len % 64;
    assert(len == 64 * q + a);
    if a <= 55 {
        assert((len + 1) % 64 == a + 1);
        assert(padded_total(len) == len + 1);
        assert((len + 1 + 63) / 64 == q + 1);
        assert((len + 8) / 64 == q);
    } else {
        assert((len + 1) % 64 == a + 1);
        assert(padded_total(len) == len + 65);
        assert((len + 65 + 63) / 64 == q + 2);
        assert((len + 8) / 64 == q + 1);
    }
}

/// Word `w` of a block is the same under both paddings.
proof fn lemma_block_word(input: Seq<u8>, k: int, w: int)
    requires
        input.len() % 64 != 63,
        input.len() * 8 <= u64::MAX,
        0 <= k < block_count(input.len() as int),
        0 <= w < 16,
    ensures
        message_word(input, k, w) == fips_block(input, k)[w],
{
    let len = input.len() as int;
    lemma_block_counts(len);
    let n = fips_block_count(len);
    let total = 64 * n;
    let bits = (input.len() * 8) as u64;
    let p = 64 * k + 4 * w;
    assert(len + 9 <= total) by {
        assert((len + 8) / 64 * 64 > len + 8 - 64);
    }
    if k == n - 1 && w == 14 {
        assert(p == total - 8);
        assert(fips_byte(input, p) == (bits >> 56u64) as u8);
        assert(fips_byte(input, p + 1) == (bits >> 48u64) as u8);
        assert(fips_byte(input, p + 2) == (bits >> 40u64) as u8);
        assert(fips_byte(input, p + 3) == (bits >> 32u64) as u8);
        assert(be_word(
            (bits >> 56u64) as u8,
            (bits >> 48u64) as u8,
            (bits >> 40u64) as u8,
            (bits >> 32u64) as u8,
        ) == (bits >> 32u64) as u32) by (bit_vector);
    } else if k == n - 1 && w == 15 {
        assert(p == total - 4);
        assert(fips_byte(input, p) == (bits >> 24u64) as u8);
        assert(fips_byte(input, p + 1) == (bits >> 16u64) as u8);
        assert(fips_byte(input, p + 2) == (bits >> 8u64) as u8);
        assert(fips_byte(input, p + 3) == (bits >> 0u64) as u8);
        assert(be_word(
            (bits >> 24u64) as u8,
            (bits >> 16u64) as u8,
            (bits >> 8u64) as u8,
            (bits >> 0u64) as u8,
        ) == bits as u32) by (bit_vector);
    } else {
        assert(p + 3 < total - 8);
        assert(fips_byte(input, p) == padded_byte(input, p));
        assert(fips_byte(input, p + 1) == padded_byte(input, p + 1));
        assert(fips_byte(input, p + 2) == padded_byte(input, p + 2));
        assert(fips_byte(input, p + 3) == padded_byte(input, p + 3));
    }
}

/// The states after the first `n` blocks agree under both paddings.
proof fn lemma_states_agree(input: Seq<u8>, n: int)
    requires
        input.len() % 64 != 63,
        input.len() * 8 <= u64::MAX,
        0 <= n <= block_count(input.len() as int),
    ensures
        state_after(input, n) == fips_state(input, n),
    decreases n,
{
    if n > 0 {
        lemma_states_agree(input, n - 1);
        assert forall|w: int| 0 <= w < 16 implies #[trigger] message_block(input, n - 1)[w] == fips_block(
            input,
            n - 1,
        )[w] by {
            lemma_block_word(input, n - 1, w);
        }
        assert(message_block(input, n - 1) =~= fips_block(input, n - 1));
    }
}

/// `sha1` is SHA-1 as FIPS 180-4 defines it on every input whose length is
/// not 63 more than a multiple of 64. On those lengths the `0x80` marker
/// fills its block and the block with the bit length is left out.
pub proof fn lemma_sha1_is_fips(input: Seq<u8>)
    requires
        input.len() % 64 != 63,
        input.len() * 8 <= u64::MAX,
    ensures
        sha1_digest(input) == fips_sha1(input),
{
    lemma_block_counts(input.len() as int);
    lemma_states_agree(input, block_count(input.len() as int));
}

} // verus!
