use vstd::prelude::*;
use vstd::std_specs::iter::IteratorSpec;

verus! {

broadcast use vstd::string::group_string_axioms;

// ---------------------------------------------------------------------------
// Characters
// ---------------------------------------------------------------------------

/// Unicode's `White_Space` property, which `str::trim` and friends use.
pub open spec fn is_white_space(c: char) -> bool {
    let u = c as u32;
    ||| 0x09 <= u <= 0x0D
    ||| u == 0x20
    ||| u == 0x85
    ||| u == 0xA0
    ||| u == 0x1680
    ||| 0x2000 <= u <= 0x200A
    ||| u == 0x2028
    ||| u == 0x2029
    ||| u == 0x202F
    ||| u == 0x205F
    ||| u == 0x3000
}

pub fn white_space(c: char) -> (b: bool)
    ensures
        b == is_white_space(c),
{
    let u = c as u32;
    (0x09 <= u && u <= 0x0D) || u == 0x20 || u == 0x85 || u == 0xA0 || u == 0x1680 || (0x2000 <= u
        && u <= 0x200A) || u == 0x2028 || u == 0x2029 || u == 0x202F || u == 0x205F || u == 0x3000
}

/// ASCII lower-casing of one character; other characters are kept.
pub open spec fn ascii_lower(c: char) -> char {
    if 'A' <= c && c <= 'Z' {
        ((c as u32) + 32) as char
    } else {
        c
    }
}

pub fn to_ascii_lower(c: char) -> (r: char)
    ensures
        r == ascii_lower(c),
{
    if 'A' <= c && c <= 'Z' {
        ((c as u8) + 32) as char
    } else {
        c
    }
}

/// Equality up to ASCII case, as `str::eq_ignore_ascii_case` decides it.
pub open spec fn eq_ignore_ascii_case(a: Seq<char>, b: Seq<char>) -> bool {
    &&& a.len() == b.len()
    &&& forall|i: int| 0 <= i < a.len() ==> ascii_lower(#[trigger] a[i]) == ascii_lower(b[i])
}

// ---------------------------------------------------------------------------
// Conversions between strings and characters
// ---------------------------------------------------------------------------

/// The characters of `s`, in order.
pub fn chars_of(s: &str) -> (v: Vec<char>)
    ensures
        v@ == s@,
{
    let mut it = s.chars();
    let mut v: Vec<char> = Vec::new();
    loop
        invariant
            v@ + it.remaining() == s@,
            it.decrease() is Some,
        decreases it.decrease()->0,
    {
        match it.next() {
            Some(c) => {
                v.push(c);
            },
            None => {
                assert(v@ == s@);
                return v;
            },
        }
    }
}

/// `String::push`: appends one character.
#[verifier::external_body]
pub(crate) fn push_char(s: &mut String, c: char)
    ensures
        final(s)@ == old(s)@.push(c),
{
    s.push(c);
}

/// Appends `v[lo..hi]` to `s`.
pub fn push_chars(s: &mut String, v: &Vec<char>, lo: usize, hi: usize)
    requires
        lo <= hi <= v@.len(),
    ensures
        final(s)@ == old(s)@ + v@.subrange(lo as int, hi as int),
{
    let mut i = lo;
    while i < hi
        invariant
            lo <= i <= hi <= v@.len(),
            s@ == old(s)@ + v@.subrange(lo as int, i as int),
        decreases hi - i,
    {
        push_char(s, v[i]);
        assert(v@.subrange(lo as int, i + 1) =~= v@.subrange(lo as int, i as int).push(v@[i as int]));
        i += 1;
    }
}

/// The string made of `v[lo..hi]`.
pub fn string_of(v: &Vec<char>, lo: usize, hi: usize) -> (s: String)
    requires
        lo <= hi <= v@.len(),
    ensures
        s@ == v@.subrange(lo as int, hi as int),
{
    let mut s = String::new();
    push_chars(&mut s, v, lo, hi);
    s
}

// ---------------------------------------------------------------------------
// Searching
// ---------------------------------------------------------------------------

/// The index of the first `c` in `s`, or `s.len()` when there is none.
pub open spec fn index_of<A>(s: Seq<A>, c: A) -> int
    decreases s.len(),
{
    if s.len() == 0 {
        0
    } else if s[0] == c {
        0
    } else {
        1 + index_of(s.drop_first(), c)
    }
}

/// `index_of` is the first position of `c`, or the length when `c` is absent.
pub proof fn lemma_index_of<A>(s: Seq<A>, c: A)
    ensures
        0 <= index_of(s, c) <= s.len(),
        forall|j: int| 0 <= j < index_of(s, c) ==> s[j] != c,
        index_of(s, c) < s.len() ==> s[index_of(s, c)] == c,
    decreases s.len(),
{
    if s.len() > 0 && s[0] != c {
        lemma_index_of(s.drop_first(), c);
        assert forall|j: int| 0 <= j < index_of(s, c) implies s[j] != c by {
            if j > 0 {
                assert(s[j] == s.drop_first()[j - 1]);
            }
        }
    }
}

/// A position before which `c` is absent and at which it stands (or the
/// length) is `index_of`.
pub proof fn lemma_index_of_is<A>(s: Seq<A>, c: A, k: int)
    requires
        0 <= k <= s.len(),
        forall|j: int| 0 <= j < k ==> s[j] != c,
        k < s.len() ==> s[k] == c,
    ensures
        index_of(s, c) == k,
    decreases k,
{
    if k > 0 {
        assert forall|j: int| 0 <= j < k - 1 implies s.drop_first()[j] != c by {
            assert(s.drop_first()[j] == s[j + 1]);
        }
        lemma_index_of_is(s.drop_first(), c, k - 1);
    }
}

/// The index of the first `c` in `v[lo..hi]`, relative to `lo`, or `hi - lo`.
pub fn find_char(v: &Vec<char>, lo: usize, hi: usize, c: char) -> (k: usize)
    requires
        lo <= hi <= v@.len(),
    ensures
        lo + k <= hi,
        k == index_of(v@.subrange(lo as int, hi as int), c),
{
    let ghost sub = v@.subrange(lo as int, hi as int);
    let mut i = lo;
    while i < hi && v[i] != c
        invariant
            lo <= i <= hi <= v@.len(),
            sub == v@.subrange(lo as int, hi as int),
            forall|j: int| 0 <= j < i - lo ==> sub[j] != c,
        decreases hi - i,
    {
        i += 1;
    }
    proof {
        lemma_index_of_is(sub, c, i - lo);
    }
    i - lo
}

/// The index of the first `b` in `v[lo..hi]`, relative to `lo`, or `hi - lo`.
pub fn find_byte(v: &Vec<u8>, lo: usize, hi: usize, b: u8) -> (k: usize)
    requires
        lo <= hi <= v@.len(),
    ensures
        lo + k <= hi,
        k == index_of(v@.subrange(lo as int, hi as int), b),
{
    let ghost sub = v@.subrange(lo as int, hi as int);
    let mut i = lo;
    while i < hi && v[i] != b
        invariant
            lo <= i <= hi <= v@.len(),
            sub == v@.subrange(lo as int, hi as int),
            forall|j: int| 0 <= j < i - lo ==> sub[j] != b,
        decreases hi - i,
    {
        i += 1;
    }
    proof {
        lemma_index_of_is(sub, b, i - lo);
    }
    i - lo
}

/// Whether `pat` occurs in `s` at position `i`.
pub open spec fn occurs_at(s: Seq<char>, pat: Seq<char>, i: int) -> bool {
    0 <= i && i + pat.len() <= s.len() && s.subrange(i, i + pat.len()) == pat
}

/// Whether `pat` occurs in `s`, as `str::contains` decides it.
pub open spec fn contains_seq(s: Seq<char>, pat: Seq<char>) -> bool {
    exists|i: int| occurs_at(s, pat, i)
}

/// Whether `pat` occurs in `v[lo..hi]`.
pub fn contains_chars(v: &Vec<char>, lo: usize, hi: usize, pat: &Vec<char>) -> (b: bool)
    requires
        lo <= hi <= v@.len(),
    ensures
        b == contains_seq(v@.subrange(lo as int, hi as int), pat@),
{
    let ghost sub = v@.subrange(lo as int, hi as int);
    if pat.len() > hi - lo {
        assert forall|i: int| !occurs_at(sub, pat@, i) by {}
        return false;
    }
    let mut i: usize = 0;
    let last = hi - lo - pat.len();
    while i <= last
        invariant
            lo <= hi <= v@.len(),
            pat@.len() <= hi - lo,
            last == hi - lo - pat@.len(),
            sub == v@.subrange(lo as int, hi as int),
            i <= last + 1,
            forall|j: int| 0 <= j < i ==> !occurs_at(sub, pat@, j),
        decreases last + 1 - i,
    {
        let mut k: usize = 0;
        while k < pat.len() && v[lo + i + k] == pat[k]
            invariant
                lo <= hi <= v@.len(),
                i + pat@.len() <= hi - lo,
                k <= pat@.len(),
                sub == v@.subrange(lo as int, hi as int),
                forall|t: int| 0 <= t < k ==> sub[i + t] == pat@[t],
            decreases pat@.len() - k,
        {
            k += 1;
        }
        if k == pat.len() {
            assert(sub.subrange(i as int, i + pat@.len()) =~= pat@);
            assert(occurs_at(sub, pat@, i as int));
            return true;
        }
        assert(sub.subrange(i as int, i + pat@.len())[k as int] != pat@[k as int]);
        i += 1;
    }
    assert forall|j: int| !occurs_at(sub, pat@, j) by {
        if 0 <= j && j + pat@.len() <= sub.len() {
            assert(j < i);
        }
    }
    false
}

/// Whether `v[lo..hi]` equals `key` up to ASCII case.
pub fn eq_ignore_case(v: &Vec<char>, lo: usize, hi: usize, key: &Vec<char>) -> (b: bool)
    requires
        lo <= hi <= v@.len(),
    ensures
        b == eq_ignore_ascii_case(key@, v@.subrange(lo as int, hi as int)),
{
    let ghost sub = v@.subrange(lo as int, hi as int);
    if hi - lo != key.len() {
        return false;
    }
    let mut i: usize = 0;
    while i < key.len()
        invariant
            lo <= hi <= v@.len(),
            hi - lo == key@.len(),
            i <= key@.len(),
            sub == v@.subrange(lo as int, hi as int),
            forall|j: int| 0 <= j < i ==> ascii_lower(key@[j]) == ascii_lower(sub[j]),
        decreases key@.len() - i,
    {
        if to_ascii_lower(key[i]) != to_ascii_lower(v[lo + i]) {
            assert(ascii_lower(key@[i as int]) != ascii_lower(sub[i as int]));
            return false;
        }
        i += 1;
    }
    true
}

// ---------------------------------------------------------------------------
// Trimming
// ---------------------------------------------------------------------------

/// `s` without trailing white space.
pub open spec fn trim_end(s: Seq<char>) -> Seq<char>
    decreases s.len(),
{
    if s.len() > 0 && is_white_space(s.last()) {
        trim_end(s.drop_last())
    } else {
        s
    }
}

/// `s` without leading white space.
pub open spec fn trim_start(s: Seq<char>) -> Seq<char>
    decreases s.len(),
{
    if s.len() > 0 && is_white_space(s[0]) {
        trim_start(s.drop_first())
    } else {
        s
    }
}

/// `s` without leading and trailing white space.
pub open spec fn trim(s: Seq<char>) -> Seq<char> {
    trim_end(trim_start(s))
}

/// The end of `v[lo..hi]` once trailing white space is dropped.
pub fn trim_end_at(v: &Vec<char>, lo: usize, hi: usize) -> (e: usize)
    requires
        lo <= hi <= v@.len(),
    ensures
        lo <= e <= hi,
        v@.subrange(lo as int, e as int) == trim_end(v@.subrange(lo as int, hi as int)),
{
    let mut e = hi;
    while e > lo && white_space(v[e - 1])
        invariant
            lo <= e <= hi <= v@.len(),
            trim_end(v@.subrange(lo as int, e as int)) == trim_end(
                v@.subrange(lo as int, hi as int),
            ),
        decreases e - lo,
    {
        assert(v@.subrange(lo as int, e as int).drop_last() =~= v@.subrange(lo as int, e - 1));
        e -= 1;
    }
    e
}

/// The start of `v[lo..hi]` once leading white space is dropped.
pub fn trim_start_at(v: &Vec<char>, lo: usize, hi: usize) -> (b: usize)
    requires
        lo <= hi <= v@.len(),
    ensures
        lo <= b <= hi,
        v@.subrange(b as int, hi as int) == trim_start(v@.subrange(lo as int, hi as int)),
{
    let mut b = lo;
    while b < hi && white_space(v[b])
        invariant
            lo <= b <= hi <= v@.len(),
            trim_start(v@.subrange(b as int, hi as int)) == trim_start(
                v@.subrange(lo as int, hi as int),
            ),
        decreases hi - b,
    {
        assert(v@.subrange(b as int, hi as int).drop_first() =~= v@.subrange(b + 1, hi as int));
        b += 1;
    }
    b
}

/// The bounds of `v[lo..hi]` once white space is dropped at both ends.
pub fn trim_at(v: &Vec<char>, lo: usize, hi: usize) -> (r: (usize, usize))
    requires
        lo <= hi <= v@.len(),
    ensures
        lo <= r.0 <= r.1 <= hi,
        v@.subrange(r.0 as int, r.1 as int) == trim(v@.subrange(lo as int, hi as int)),
{
    let b = trim_start_at(v, lo, hi);
    let e = trim_end_at(v, b, hi);
    (b, e)
}

// ---------------------------------------------------------------------------
// Lines, as `str::lines` splits them
// ---------------------------------------------------------------------------

/// `t` without one trailing carriage return.
pub open spec fn strip_cr(t: Seq<char>) -> Seq<char> {
    if t.len() > 0 && t.last() == '\r' {
        t.drop_last()
    } else {
        t
    }
}

/// The first line of `s`: up to the first line feed, less a carriage return
/// just before it; all of `s` when there is no line feed.
pub open spec fn first_line(s: Seq<char>) -> Seq<char> {
    let e = index_of(s, '\n');
    if e < s.len() {
        strip_cr(s.take(e))
    } else {
        s
    }
}

/// What follows the first line feed of `s`; empty when there is none.
pub open spec fn rest_lines(s: Seq<char>) -> Seq<char> {
    let e = index_of(s, '\n');
    if e < s.len() {
        s.skip(e + 1)
    } else {
        Seq::empty()
    }
}

/// What follows the first line is shorter than a non-empty text.
pub proof fn lemma_rest_lines_shorter(s: Seq<char>)
    requires
        s.len() > 0,
    ensures
        rest_lines(s).len() < s.len(),
{
    lemma_index_of(s, '\n');
}

/// The end of the first line of `v[lo..hi]` (before `\r\n` or `\n`) and the
/// start of the rest.
pub fn next_line(v: &Vec<char>, lo: usize, hi: usize) -> (r: (usize, usize))
    requires
        lo <= hi <= v@.len(),
    ensures
        lo <= r.0 <= r.1 <= hi,
        v@.subrange(lo as int, r.0 as int) == first_line(v@.subrange(lo as int, hi as int)),
        v@.subrange(r.1 as int, hi as int) == rest_lines(v@.subrange(lo as int, hi as int)),
        r.1 < hi ==> r.1 > lo,
{
    let ghost sub = v@.subrange(lo as int, hi as int);
    let k = find_char(v, lo, hi, '\n');
    proof {
        lemma_index_of(sub, '\n');
    }
    if lo + k < hi {
        let nl = lo + k;
        assert(sub.take(k as int) =~= v@.subrange(lo as int, nl as int));
        assert(sub.skip(k + 1) =~= v@.subrange(nl + 1, hi as int));
        if k > 0 && v[nl - 1] == '\r' {
            assert(v@.subrange(lo as int, nl as int).drop_last() =~= v@.subrange(lo as int, nl - 1));
            (nl - 1, nl + 1)
        } else {
            (nl, nl + 1)
        }
    } else {
        assert(sub =~= v@.subrange(lo as int, hi as int));
        assert(v@.subrange(hi as int, hi as int) =~= Seq::<char>::empty());
        (hi, hi)
    }
}

// ---------------------------------------------------------------------------
// Numbers
// ---------------------------------------------------------------------------

/// The value of a digit in base `radix` (10 or 16), if `c` is one.
pub open spec fn digit_value(c: char, radix: u32) -> Option<int> {
    if '0' <= c && c <= '9' {
        if (c as int) - ('0' as int) < radix {
            Some((c as int) - ('0' as int))
        } else {
            None
        }
    } else if radix == 16 && 'a' <= c && c <= 'f' {
        Some((c as int) - ('a' as int) + 10)
    } else if radix == 16 && 'A' <= c && c <= 'F' {
        Some((c as int) - ('A' as int) + 10)
    } else {
        None
    }
}

/// Whether every character of `s` is a digit in base `radix`.
pub open spec fn all_digits(s: Seq<char>, radix: u32) -> bool {
    forall|i: int| 0 <= i < s.len() ==> (#[trigger] digit_value(s[i], radix)) is Some
}

/// The value of a string of digits.
pub open spec fn digits_value(s: Seq<char>, radix: u32) -> int
    decreases s.len(),
{
    if s.len() == 0 {
        0
    } else {
        digits_value(s.drop_last(), radix) * radix + digit_value(s.last(), radix)->0
    }
}

/// What `u64::from_str_radix` (and `str::parse` for radix 10) gives for `s`
/// with the bound `max`: an optional `+`, then at least one digit, and a value
/// no greater than `max`.
pub open spec fn parse_unsigned(s: Seq<char>, radix: u32, max: int) -> Option<int> {
    let d = if s.len() > 0 && s[0] == '+' {
        s.drop_first()
    } else {
        s
    };
    if d.len() > 0 && all_digits(d, radix) && digits_value(d, radix) <= max {
        Some(digits_value(d, radix))
    } else {
        None
    }
}

/// The value of a prefix of digits is no greater than the value of all.
pub proof fn lemma_digits_value_grows(s: Seq<char>, radix: u32, i: int)
    requires
        radix == 10 || radix == 16,
        all_digits(s, radix),
        0 <= i <= s.len(),
    ensures
        0 <= digits_value(s.take(i), radix) <= digits_value(s, radix),
    decreases s.len() - i,
{
    if i < s.len() {
        lemma_digits_value_grows(s, radix, i + 1);
        assert(s.take(i + 1).drop_last() =~= s.take(i));
        assert(digit_value(s.take(i + 1).last(), radix) is Some);
        lemma_digits_value_nonneg(s.take(i), radix);
        let v = digits_value(s.take(i), radix);
        assert(v * radix >= v) by (nonlinear_arith)
            requires
                v >= 0,
                radix >= 1,
        ;
    } else {
        assert(s.take(i) =~= s);
        lemma_digits_value_nonneg(s, radix);
    }
}

/// The value of digits is not negative.
pub proof fn lemma_digits_value_nonneg(s: Seq<char>, radix: u32)
    requires
        radix == 10 || radix == 16,
        all_digits(s, radix),
    ensures
        digits_value(s, radix) >= 0,
    decreases s.len(),
{
    if s.len() > 0 {
        assert(all_digits(s.drop_last(), radix)) by {
            assert forall|i: int| 0 <= i < s.drop_last().len() implies (#[trigger] digit_value(
                s.drop_last()[i],
                radix,
            )) is Some by {
                assert(s.drop_last()[i] == s[i]);
            }
        }
        assert(digit_value(s[s.len() - 1], radix) is Some);
        lemma_digits_value_nonneg(s.drop_last(), radix);
        let v = digits_value(s.drop_last(), radix);
        assert(v * radix >= 0) by (nonlinear_arith)
            requires
                v >= 0,
                radix >= 1,
        ;
    }
}

fn digit_of(c: char, radix: u32) -> (r: Option<u64>)
    requires
        radix == 10 || radix == 16,
    ensures
        r is Some == digit_value(c, radix) is Some,
        r matches Some(d) ==> d == digit_value(c, radix)->0 && d < radix,
{
    if '0' <= c && c <= '9' {
        let d = (c as u32 - '0' as u32) as u64;
        if d < radix as u64 {
            Some(d)
        } else {
            None
        }
    } else if radix == 16 && 'a' <= c && c <= 'f' {
        Some((c as u32 - 'a' as u32) as u64 + 10)
    } else if radix == 16 && 'A' <= c && c <= 'F' {
        Some((c as u32 - 'A' as u32) as u64 + 10)
    } else {
        None
    }
}

/// Parses `v[lo..hi]` as `u64::from_str_radix` does, with the bound `max`.
pub fn parse_unsigned_at(v: &Vec<char>, lo: usize, hi: usize, radix: u32, max: u64) -> (r: Option<u64>)
    requires
        lo <= hi <= v@.len(),
        radix == 10 || radix == 16,
    ensures
        r is Some == parse_unsigned(v@.subrange(lo as int, hi as int), radix, max as int) is Some,
        r matches Some(n) ==> parse_unsigned(v@.subrange(lo as int, hi as int), radix, max as int)
            == Some(n as int),
{
    let ghost s = v@.subrange(lo as int, hi as int);
    let start = if lo < hi && v[lo] == '+' {
        lo + 1
    } else {
        lo
    };
    let ghost d = v@.subrange(start as int, hi as int);
    assert(d =~= (if s.len() > 0 && s[0] == '+' {
        s.drop_first()
    } else {
        s
    }));
    if start == hi {
        return None;
    }
    let mut acc: u64 = 0;
    let mut i = start;
    while i < hi
        invariant
            lo <= start <= i <= hi <= v@.len(),
            start < hi,
            radix == 10 || radix == 16,
            d == v@.subrange(start as int, hi as int),
            s == v@.subrange(lo as int, hi as int),
            d == (if s.len() > 0 && s[0] == '+' {
                s.drop_first()
            } else {
                s
            }),
            forall|j: int| 0 <= j < i - start ==> (#[trigger] digit_value(d[j], radix)) is Some,
            acc == digits_value(d.take(i - start), radix),
            acc <= max,
        decreases hi - i,
    {
        let dg = digit_of(v[i], radix);
        match dg {
            None => {
                assert(digit_value(d[i - start], radix) is None);
                assert(!all_digits(d, radix));
                assert(parse_unsigned(s, radix, max as int) is None);
                return None;
            },
            Some(x) => {
                let ghost t = d.take(i - start + 1);
                assert(t.drop_last() =~= d.take(i - start));
                assert(t.last() == v@[i as int]);
                assert(digits_value(t, radix) == acc * radix + x);
                assert(forall|j: int| 0 <= j < i - start + 1 ==> (#[trigger] digit_value(d[j], radix)) is Some);
                let next = match acc.checked_mul(radix as u64) {
                    Some(m) => m.checked_add(x),
                    None => None,
                };
                match next {
                    Some(n) => {
                        if n > max {
                            proof {
                                self::lemma_prefix_bound(d, radix, i - start + 1, max as int);
                            }
                            return None;
                        }
                        acc = n;
                    },
                    None => {
                        assert(acc * radix + x > max) by (nonlinear_arith)
                            requires
                                acc * radix > u64::MAX || acc * radix + x > u64::MAX,
                                x >= 0,
                                max <= u64::MAX,
                        ;
                        proof {
                            self::lemma_prefix_bound(d, radix, i - start + 1, max as int);
                        }
                        assert(parse_unsigned(s, radix, max as int) is None);
                        return None;
                    },
                }
                i += 1;
            },
        }
    }
    assert(d.take(hi - start) =~= d);
    Some(acc)
}

/// A parsed number lies between zero and the bound.
pub proof fn lemma_parse_unsigned_nonneg(s: Seq<char>, radix: u32, max: int)
    requires
        radix == 10 || radix == 16,
    ensures
        parse_unsigned(s, radix, max) matches Some(v) ==> 0 <= v <= max,
{
    let d = if s.len() > 0 && s[0] == '+' {
        s.drop_first()
    } else {
        s
    };
    if all_digits(d, radix) {
        lemma_digits_value_nonneg(d, radix);
    }
}

/// When a prefix of digits exceeds `max`, so does the whole string, or the
/// string holds a non-digit.
proof fn lemma_prefix_bound(d: Seq<char>, radix: u32, i: int, max: int)
    requires
        radix == 10 || radix == 16,
        0 <= i <= d.len(),
        forall|j: int| 0 <= j < i ==> (#[trigger] digit_value(d[j], radix)) is Some,
        digits_value(d.take(i), radix) > max,
    ensures
        !(all_digits(d, radix) && digits_value(d, radix) <= max),
{
    if all_digits(d, radix) {
        lemma_digits_value_grows(d, radix, i);
    }
}

/// The decimal digits of `n`, as `to_string` writes them.
pub open spec fn decimal(n: nat) -> Seq<char>
    decreases n,
{
    if n < 10 {
        seq![(('0' as nat) + n) as char]
    } else {
        decimal(n / 10) + seq![(('0' as nat) + n % 10) as char]
    }
}

/// The lower-case hexadecimal digits of `n`, as `{:x}` writes them.
pub open spec fn hexadecimal(n: nat) -> Seq<char>
    decreases n,
{
    if n < 16 {
        seq![hex_digit(n)]
    } else {
        hexadecimal(n / 16) + seq![hex_digit(n % 16)]
    }
}

pub open spec fn hex_digit(d: nat) -> char {
    if d < 10 {
        (('0' as nat) + d) as char
    } else {
        (('a' as nat) + d - 10) as char
    }
}

/// Appends the decimal digits of `n` to `s`.
pub fn push_decimal(s: &mut String, n: u64)
    ensures
        final(s)@ == old(s)@ + decimal(n as nat),
    decreases n,
{
    if n >= 10 {
        push_decimal(s, n / 10);
    }
    let d = (n % 10) as u8;
    push_char(s, (48u8 + d) as char);
}

} // verus!

verus! {

// ---------------------------------------------------------------------------
// UTF-8
// ---------------------------------------------------------------------------

/// `std::string::FromUtf8Error`, carried as an opaque value.
#[verifier::external_type_specification]
#[verifier::external_body]
pub struct ExFromUtf8Error(std::string::FromUtf8Error);

/// `String::from_utf8`: succeeds exactly on valid UTF-8, and then holds the
/// characters that the bytes encode.
#[verifier::external_body]
pub(crate) fn string_from_utf8(bytes: Vec<u8>) -> (r: Result<String, std::string::FromUtf8Error>)
    ensures
        r is Ok <==> vstd::utf8::valid_utf8(bytes@),
        r matches Ok(s) ==> s@ == vstd::utf8::decode_utf8(bytes@),
{
    String::from_utf8(bytes)
}

/// What `String::from_utf8_lossy` makes of `bytes`.
pub uninterp spec fn utf8_lossy(bytes: Seq<u8>) -> Seq<char>;

/// `String::from_utf8_lossy`, made owned: invalid sequences become
/// U+FFFD; valid UTF-8 is decoded unchanged. The contract states the valid
/// case; what it makes of invalid input is named by `utf8_lossy` and not
/// stated.
#[verifier::external_body]
pub(crate) fn string_from_utf8_lossy(bytes: &[u8]) -> (s: String)
    ensures
        s@ == utf8_lossy(bytes@),
        vstd::utf8::valid_utf8(bytes@) ==> s@ == vstd::utf8::decode_utf8(bytes@),
{
    String::from_utf8_lossy(bytes).into_owned()
}

} // verus!

verus! {

/// Whether `v` starts with the characters of `lit`.
pub fn starts_with_text(v: &Vec<char>, lit: &str) -> (b: bool)
    ensures
        b == (lit@.len() <= v@.len() && v@.take(lit@.len() as int) == lit@),
{
    let other = chars_of(lit);
    if other.len() > v.len() {
        return false;
    }
    let mut i: usize = 0;
    while i < other.len()
        invariant
            i <= other@.len() <= v@.len(),
            other@ == lit@,
            forall|j: int| 0 <= j < i ==> v@[j] == other@[j],
        decreases other@.len() - i,
    {
        if v[i] != other[i] {
            assert(v@.take(other@.len() as int)[i as int] != other@[i as int]);
            return false;
        }
        i += 1;
    }
    assert(v@.take(other@.len() as int) =~= other@);
    true
}

/// Whether `v[lo..hi]` holds exactly the characters of `lit`.
pub fn is_text_at(v: &Vec<char>, lo: usize, hi: usize, lit: &str) -> (b: bool)
    requires
        lo <= hi <= v@.len(),
    ensures
        b == (v@.subrange(lo as int, hi as int) == lit@),
{
    let other = chars_of(lit);
    if other.len() != hi - lo {
        return false;
    }
    let mut i: usize = 0;
    while i < other.len()
        invariant
            i <= other@.len(),
            other@.len() == hi - lo,
            lo <= hi <= v@.len(),
            other@ == lit@,
            forall|j: int| 0 <= j < i ==> v@[lo + j] == other@[j],
        decreases other@.len() - i,
    {
        if v[lo + i] != other[i] {
            assert(v@.subrange(lo as int, hi as int)[i as int] != other@[i as int]);
            return false;
        }
        i += 1;
    }
    assert(v@.subrange(lo as int, hi as int) =~= other@);
    true
}

/// The index of the last `c` in `s`, or -1 when there is none.
pub open spec fn last_index_of<A>(s: Seq<A>, c: A) -> int
    decreases s.len(),
{
    if s.len() == 0 {
        -1
    } else if s.last() == c {
        s.len() - 1
    } else {
        last_index_of(s.drop_last(), c)
    }
}

/// A position after which `c` is absent and at which it stands (or -1) is
/// `last_index_of`.
pub proof fn lemma_last_index_of_is<A>(s: Seq<A>, c: A, k: int)
    requires
        -1 <= k < s.len(),
        k >= 0 ==> s[k] == c,
        forall|j: int| k < j < s.len() ==> s[j] != c,
    ensures
        last_index_of(s, c) == k,
    decreases s.len(),
{
    if s.len() > 0 && s.last() != c {
        assert forall|j: int| k < j < s.drop_last().len() implies s.drop_last()[j] != c by {
            assert(s.drop_last()[j] == s[j]);
        }
        lemma_last_index_of_is(s.drop_last(), c, k);
    }
}

/// The index of the last `c` in `v`, or `None`.
pub fn rfind_char(v: &Vec<char>, c: char) -> (r: Option<usize>)
    ensures
        r is None ==> last_index_of(v@, c) == -1,
        r matches Some(k) ==> last_index_of(v@, c) == k && k < v@.len() && v@[k as int] == c,
{
    let mut i = v.len();
    while i > 0 && v[i - 1] != c
        invariant
            i <= v@.len(),
            forall|j: int| i <= j < v@.len() ==> v@[j] != c,
        decreases i,
    {
        i -= 1;
    }
    if i == 0 {
        proof {
            lemma_last_index_of_is(v@, c, -1);
        }
        None
    } else {
        proof {
            lemma_last_index_of_is(v@, c, i - 1);
        }
        Some(i - 1)
    }
}

} // verus!
