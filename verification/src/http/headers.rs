use vstd::prelude::*;

use crate::text;

verus! {

broadcast use vstd::string::group_string_axioms;

/// Header lines, each `Key: value` ended by `\r\n`, held as one string.
#[derive(Clone)]
pub struct Headers(pub String);

impl View for Headers {
    type V = Seq<char>;

    open spec fn view(&self) -> Seq<char> {
        self.0@
    }
}

/// The position of the first colon of a line, or its length.
pub open spec fn colon_index(line: Seq<char>) -> int {
    text::index_of(line, ':')
}

pub open spec fn has_colon(line: Seq<char>) -> bool {
    colon_index(line) < line.len()
}

/// The key of a header line: what precedes its first colon.
pub open spec fn line_key(line: Seq<char>) -> Seq<char> {
    line.take(colon_index(line))
}

/// The value of a header line: what follows its first colon, trimmed.
pub open spec fn line_value(line: Seq<char>) -> Seq<char> {
    text::trim(line.skip(colon_index(line) + 1))
}

/// The line that `append` adds.
pub open spec fn header_line(key: Seq<char>, value: Seq<char>) -> Seq<char> {
    key + seq![':', ' '] + value + seq!['\r', '\n']
}

/// The value found for `key`: the lines are read in order until one has no
/// colon; the first whose key equals `key` up to ASCII case gives its value.
pub open spec fn lookup(s: Seq<char>, key: Seq<char>) -> Option<Seq<char>>
    decreases s.len(),
{
    if s.len() == 0 {
        None
    } else {
        proof {
            text::lemma_rest_lines_shorter(s);
        }
        let l = text::first_line(s);
        if !has_colon(l) {
            None
        } else if text::eq_ignore_ascii_case(key, line_key(l)) {
            Some(line_value(l))
        } else {
            lookup(text::rest_lines(s), key)
        }
    }
}

pub open spec fn shift(m: Option<(int, int)>, d: int) -> Option<(int, int)> {
    match m {
        Some((p, n)) => Some((p + d, n)),
        None => None,
    }
}

/// The start and length of the first line, among all lines, that has a colon
/// and whose key equals `key` up to ASCII case.
pub open spec fn matching_line(s: Seq<char>, key: Seq<char>) -> Option<(int, int)>
    decreases s.len(),
{
    if s.len() == 0 {
        None
    } else {
        proof {
            text::lemma_rest_lines_shorter(s);
        }
        let l = text::first_line(s);
        if has_colon(l) && text::eq_ignore_ascii_case(key, line_key(l)) {
            Some((0, l.len() as int))
        } else {
            shift(matching_line(text::rest_lines(s), key), s.len() - text::rest_lines(s).len())
        }
    }
}

/// Whether removing the line that matches `key` stays in bounds: removal
/// takes the line and the two bytes after it, which must end on a character
/// boundary inside the text.
pub open spec fn removal_in_bounds(s: Seq<char>, key: Seq<char>) -> bool {
    match matching_line(s, key) {
        None => true,
        Some((p, n)) => {
            &&& p + n + 2 <= s.len()
            &&& (s[p + n] == '\r' || (s[p + n] == '\n' && (s[p + n + 1] as u32) < 0x80))
        },
    }
}

/// The text once the line that matches `key` and the two characters after
/// it are removed.
pub open spec fn without_header(s: Seq<char>, key: Seq<char>) -> Seq<char> {
    match matching_line(s, key) {
        None => s,
        Some((p, n)) => s.take(p) + s.skip(p + n + 2),
    }
}

/// The text of header lines made from `pairs`, in order.
pub open spec fn pairs_text(pairs: Seq<(&str, &str)>) -> Seq<char>
    decreases pairs.len(),
{
    if pairs.len() == 0 {
        Seq::empty()
    } else {
        pairs_text(pairs.drop_last()) + header_line(pairs.last().0@, pairs.last().1@)
    }
}

/// Whether the text is empty or ends with `\r\n`.
pub open spec fn valid_text(s: Seq<char>) -> bool {
    s.len() == 0 || (s.len() >= 2 && s[s.len() - 2] == '\r' && s[s.len() - 1] == '\n')
}

/// The start and length of the first line of `chars` that has a colon and
/// the key `key` (up to ASCII case).
fn find_named_line(chars: &Vec<char>, key: &Vec<char>) -> (r: Option<(usize, usize)>)
    ensures
        r is Some <==> matching_line(chars@, key@) is Some,
        r matches Some((p, n)) ==> matching_line(chars@, key@) == Some((p as int, n as int))
            && p + n <= chars@.len(),
{
    let len = chars.len();
    let mut pos: usize = 0;
    assert(chars@.subrange(0, len as int) =~= chars@);
    while pos < len
        invariant
            pos <= len == chars@.len(),
            matching_line(chars@, key@) == shift(
                matching_line(chars@.subrange(pos as int, len as int), key@),
                pos as int,
            ),
        decreases len - pos,
    {
        let ghost sub = chars@.subrange(pos as int, len as int);
        let (end, next) = text::next_line(chars, pos, len);
        let ghost line = chars@.subrange(pos as int, end as int);
        let k = text::find_char(chars, pos, end, ':');
        assert(line.take(k as int) =~= chars@.subrange(pos as int, pos + k));
        if pos + k < end && text::eq_ignore_case(chars, pos, pos + k, key) {
            return Some((pos, end - pos));
        }
        pos = next;
    }
    assert(chars@.subrange(pos as int, len as int).len() == 0);
    None
}

impl Headers {
    pub fn empty() -> (h: Headers)
        ensures
            h@ == Seq::<char>::empty(),
    {
        Headers(String::new())
    }

    /// Headers from raw bytes, which must be UTF-8.
    pub fn from_raw(on: Vec<u8>) -> (r: Result<Headers, std::string::FromUtf8Error>)
        ensures
            r is Ok <==> vstd::utf8::valid_utf8(on@),
            r matches Ok(h) ==> h@ == vstd::utf8::decode_utf8(on@),
    {
        match text::string_from_utf8(on) {
            Ok(s) => Ok(Headers::from_string(s)),
            Err(e) => Err(e),
        }
    }

    pub fn from_string(on: String) -> (h: Headers)
        ensures
            h@ == on@,
    {
        Headers(on)
    }

    /// Headers made of one line per pair.
    pub fn from_pairs(pairs: &[(&str, &str)]) -> (h: Headers)
        ensures
            h@ == pairs_text(pairs@),
    {
        let mut h = Headers::empty();
        let mut i: usize = 0;
        while i < pairs.len()
            invariant
                i <= pairs@.len(),
                h@ == pairs_text(pairs@.take(i as int)),
            decreases pairs@.len() - i,
        {
            let (key, value) = pairs[i];
            h.append(key, value);
            assert(pairs@.take(i + 1).drop_last() =~= pairs@.take(i as int));
            i += 1;
        }
        assert(pairs@.take(pairs@.len() as int) =~= pairs@);
        h
    }

    pub fn iter(&self) -> (it: HeaderIter<'_>)
        ensures
            it.remaining() == self@,
    {
        let chars = text::chars_of(self.0.as_str());
        HeaderIter { text: self.0.as_str(), chars, pos: 0 }
    }

    pub fn is_empty(&self) -> (b: bool)
        ensures
            b == (self@.len() == 0),
    {
        self.0.as_str().is_empty()
    }

    /// Whether the headers are empty or end with `\r\n`.
    pub fn is_valid(&self) -> (b: bool)
        ensures
            b == valid_text(self@),
    {
        let chars = text::chars_of(self.0.as_str());
        let n = chars.len();
        n == 0 || (n >= 2 && chars[n - 2] == '\r' && chars[n - 1] == '\n')
    }

    /// The value of the first header named `key` (up to ASCII case), reading
    /// lines until one has no colon.
    pub fn get<'b>(&'b self, key: &str) -> (r: Option<&'b str>)
        ensures
            r is Some <==> lookup(self@, key@) is Some,
            r matches Some(v) ==> v@ == lookup(self@, key@)->0,
    {
        let chars = text::chars_of(self.0.as_str());
        let key_chars = text::chars_of(key);
        let len = chars.len();
        let mut pos: usize = 0;
        assert(chars@.subrange(0, len as int) =~= chars@);
        while pos < len
            invariant
                pos <= len == chars@.len(),
                chars@ == self@,
                key_chars@ == key@,
                lookup(self@, key@) == lookup(chars@.subrange(pos as int, len as int), key@),
            decreases len - pos,
        {
            let ghost sub = chars@.subrange(pos as int, len as int);
            let (end, next) = text::next_line(&chars, pos, len);
            let ghost line = chars@.subrange(pos as int, end as int);
            let k = text::find_char(&chars, pos, end, ':');
            if pos + k == end {
                return None;
            }
            assert(line.take(k as int) =~= chars@.subrange(pos as int, pos + k));
            if text::eq_ignore_case(&chars, pos, pos + k, &key_chars) {
                let (b, e) = text::trim_at(&chars, pos + k + 1, end);
                assert(line.skip(k + 1) =~= chars@.subrange(pos + k + 1, end as int));
                return Some(self.0.as_str().substring_char(b, e));
            }
            pos = next;
        }
        assert(chars@.subrange(pos as int, len as int).len() == 0);
        None
    }

    /// Removes the header named `key` (up to ASCII case), if any, then
    /// appends `key: value`.
    pub fn set(&mut self, key: &str, value: &str)
        requires
            removal_in_bounds(old(self)@, key@),
        ensures
            final(self)@ == without_header(old(self)@, key@) + header_line(key@, value@),
    {
        self.delete(key);
        self.append(key, value);
    }

    /// Appends the line `key: value\r\n`.
    pub fn append(&mut self, key: &str, value: &str)
        ensures
            final(self)@ == old(self)@ + header_line(key@, value@),
    {
        proof {
            reveal_strlit(": ");
            reveal_strlit("\r\n");
        }
        self.0.append(key);
        self.0.append(": ");
        self.0.append(value);
        self.0.append("\r\n");
        assert(self@ =~= old(self)@ + header_line(key@, value@));
    }

    /// Removes the first line, among all lines, whose key is `key` (up to
    /// ASCII case), with the two characters that follow it.
    pub fn delete(&mut self, key: &str)
        requires
            removal_in_bounds(old(self)@, key@),
        ensures
            final(self)@ == without_header(old(self)@, key@),
    {
        let chars = text::chars_of(self.0.as_str());
        let key_chars = text::chars_of(key);
        match find_named_line(&chars, &key_chars) {
            None => {},
            Some((p, n)) => {
                let len = chars.len();
                let mut rebuilt = text::string_of(&chars, 0, p);
                text::push_chars(&mut rebuilt, &chars, p + n + 2, len);
                assert(rebuilt@ =~= without_header(old(self)@, key@));
                self.0 = rebuilt;
            },
        }
    }

    /// Whether `delete` and `set` can remove the line named `key`: there is
    /// none, or the two characters after it lie inside the text and end on
    /// a character boundary.
    pub fn can_remove(&self, key: &str) -> (b: bool)
        ensures
            b == removal_in_bounds(self@, key@),
    {
        let chars = text::chars_of(self.0.as_str());
        let key_chars = text::chars_of(key);
        match find_named_line(&chars, &key_chars) {
            None => true,
            Some((p, n)) => {
                let len = chars.len();
                if len - p - n < 2 {
                    return false;
                }
                let e = p + n;
                chars[e] == '\r' || (chars[e] == '\n' && (chars[e + 1] as u32) < 0x80)
            },
        }
    }
}

/// The header lines not yet read, yielding `(key, value)` pairs.
pub struct HeaderIter<'a> {
    text: &'a str,
    chars: Vec<char>,
    pos: usize,
}

impl<'a> HeaderIter<'a> {
    #[verifier::type_invariant]
    spec fn well_formed(&self) -> bool {
        &&& self.chars@ == self.text@
        &&& self.pos <= self.chars@.len()
    }

    /// The text that has not been read yet.
    pub closed spec fn remaining(&self) -> Seq<char> {
        self.chars@.subrange(self.pos as int, self.chars@.len() as int)
    }

    /// Reads the next line: `None` at the end, or when the line has no
    /// colon; else its key and trimmed value.
    pub fn next(&mut self) -> (r: Option<(&'a str, &'a str)>)
        ensures
            old(self).remaining().len() == 0 ==> r is None && final(self).remaining() == old(
                self,
            ).remaining(),
            old(self).remaining().len() > 0 ==> {
                let line = text::first_line(old(self).remaining());
                &&& final(self).remaining() == text::rest_lines(old(self).remaining())
                &&& r is Some <==> has_colon(line)
                &&& r matches Some((k, v)) ==> k@ == line_key(line) && v@ == line_value(line)
            },
    {
        proof {
            use_type_invariant(&*self);
        }
        let len = self.chars.len();
        if self.pos == len {
            return None;
        }
        let pos = self.pos;
        let (end, next) = text::next_line(&self.chars, pos, len);
        let ghost line = self.chars@.subrange(pos as int, end as int);
        let k = text::find_char(&self.chars, pos, end, ':');
        self.pos = next;
        if pos + k == end {
            return None;
        }
        let (b, e) = text::trim_at(&self.chars, pos + k + 1, end);
        assert(line.take(k as int) =~= self.chars@.subrange(pos as int, pos + k));
        assert(line.skip(k + 1) =~= self.chars@.subrange(pos + k + 1, end as int));
        let key = self.text.substring_char(pos, pos + k);
        let value = self.text.substring_char(b, e);
        Some((key, value))
    }
}


// ---------------------------------------------------------------------------
// What reading gives back of writing
// ---------------------------------------------------------------------------

/// Whether no character of `s` is `c`.
pub open spec fn free_of(s: Seq<char>, c: char) -> bool {
    forall|i: int| 0 <= i < s.len() ==> s[i] != c
}

/// Whether the text is empty or ends with a line feed.
pub open spec fn ends_line(s: Seq<char>) -> bool {
    s.len() == 0 || s.last() == '\n'
}

/// Whether every line of the text has a colon, as the lines that `append`
/// writes do.
pub open spec fn keyed_lines(s: Seq<char>) -> bool
    decreases s.len(),
{
    if s.len() == 0 {
        true
    } else {
        proof {
            text::lemma_rest_lines_shorter(s);
        }
        has_colon(text::first_line(s)) && keyed_lines(text::rest_lines(s))
    }
}

/// A text that ends with a line feed splits into the same first line when
/// more text follows it.
proof fn lemma_lines_of_concat(s: Seq<char>, t: Seq<char>)
    requires
        s.len() > 0,
        s.last() == '\n',
    ensures
        text::first_line(s + t) == text::first_line(s),
        text::rest_lines(s + t) == text::rest_lines(s) + t,
        ends_line(text::rest_lines(s)),
        text::rest_lines(s).len() < s.len(),
{
    text::lemma_index_of(s, '\n');
    let e = text::index_of(s, '\n');
    assert(e < s.len()) by {
        if e == s.len() {
            assert(s[s.len() - 1] != '\n');
        }
    }
    assert forall|j: int| 0 <= j < e implies (s + t)[j] != '\n' by {
        assert((s + t)[j] == s[j]);
    }
    text::lemma_index_of_is(s + t, '\n', e);
    assert((s + t).take(e) =~= s.take(e));
    assert((s + t).skip(e + 1) =~= s.skip(e + 1) + t);
    let r = s.skip(e + 1);
    if r.len() > 0 {
        assert(r.last() == s.last());
    }
}

/// Looking a key up in two texts one after the other: the first text
/// answers when it has the key, else the second does.
proof fn lemma_lookup_concat(s: Seq<char>, t: Seq<char>, key: Seq<char>)
    requires
        keyed_lines(s),
        ends_line(s),
    ensures
        lookup(s + t, key) == (if lookup(s, key) is Some {
            lookup(s, key)
        } else {
            lookup(t, key)
        }),
    decreases s.len(),
{
    if s.len() == 0 {
        assert(s + t =~= t);
    } else {
        lemma_lines_of_concat(s, t);
        lemma_lookup_concat(text::rest_lines(s), t, key);
    }
}

/// Two texts of keyed lines, the first ending a line, make one.
proof fn lemma_keyed_concat(s: Seq<char>, t: Seq<char>)
    requires
        keyed_lines(s),
        ends_line(s),
        keyed_lines(t),
    ensures
        keyed_lines(s + t),
    decreases s.len(),
{
    if s.len() == 0 {
        assert(s + t =~= t);
    } else {
        lemma_lines_of_concat(s, t);
        lemma_keyed_concat(text::rest_lines(s), t);
    }
}

/// Equality up to ASCII case is reflexive.
proof fn lemma_eq_ignore_case_refl(a: Seq<char>)
    ensures
        text::eq_ignore_ascii_case(a, a),
{
}

/// `x` with leading spaces is trimmed to the same text as `x`.
proof fn lemma_trim_leading_space(x: Seq<char>)
    ensures
        text::trim(seq![' '] + x) == text::trim(x),
{
    assert((seq![' '] + x).drop_first() =~= x);
}

/// The one line that `append` writes: its key and value read back, and no
/// other key is found in it.
proof fn lemma_header_line(key: Seq<char>, value: Seq<char>, other: Seq<char>)
    requires
        free_of(key, ':'),
        free_of(key, '\n'),
        free_of(value, '\n'),
    ensures
        keyed_lines(header_line(key, value)),
        ends_line(header_line(key, value)),
        lookup(header_line(key, value), other) == (if text::eq_ignore_ascii_case(other, key) {
            Some(text::trim(value))
        } else {
            None
        }),
{
    let h = header_line(key, value);
    lemma_header_line_parts(key, value);
    lemma_eq_ignore_case_refl(key);
    assert(keyed_lines(text::rest_lines(h)));
    assert(lookup(text::rest_lines(h), other) is None);
}

/// Reading a header back after appending it: `get` answers with the first
/// line of that name, so it gives the appended value, trimmed, exactly when
/// no earlier header had the name; and the text keeps one colon-holding
/// line per header.
pub proof fn lemma_get_after_append(s: Seq<char>, key: Seq<char>, value: Seq<char>)
    requires
        keyed_lines(s),
        ends_line(s),
        free_of(key, ':'),
        free_of(key, '\n'),
        free_of(value, '\n'),
    ensures
        lookup(s + header_line(key, value), key) == (if lookup(s, key) is Some {
            lookup(s, key)
        } else {
            Some(text::trim(value))
        }),
        keyed_lines(s + header_line(key, value)),
        ends_line(s + header_line(key, value)),
{
    lemma_header_line(key, value, key);
    lemma_lookup_concat(s, header_line(key, value), key);
    lemma_keyed_concat(s, header_line(key, value));
    assert((s + header_line(key, value)).last() == header_line(key, value).last());
}

/// Appending a header leaves the value of every name that differs from its
/// key (up to ASCII case) as it was.
pub proof fn lemma_get_other_after_append(
    s: Seq<char>,
    key: Seq<char>,
    value: Seq<char>,
    other: Seq<char>,
)
    requires
        keyed_lines(s),
        ends_line(s),
        free_of(key, ':'),
        free_of(key, '\n'),
        free_of(value, '\n'),
        !text::eq_ignore_ascii_case(other, key),
    ensures
        lookup(s + header_line(key, value), other) == lookup(s, other),
{
    lemma_header_line(key, value, other);
    lemma_lookup_concat(s, header_line(key, value), other);
}

/// Whether the text is a run of header lines, each with a colon and ended
/// by `\r\n`, as `append` writes them.
pub open spec fn header_text(s: Seq<char>) -> bool
    decreases s.len(),
{
    if s.len() == 0 {
        true
    } else {
        proof {
            text::lemma_rest_lines_shorter(s);
        }
        let l = text::first_line(s);
        &&& has_colon(l)
        &&& l.len() + 2 + text::rest_lines(s).len() == s.len()
        &&& header_text(text::rest_lines(s))
    }
}

/// How many lines of the text have a colon and the key `key` (up to ASCII
/// case).
pub open spec fn count_named(s: Seq<char>, key: Seq<char>) -> nat
    decreases s.len(),
{
    if s.len() == 0 {
        0
    } else {
        proof {
            text::lemma_rest_lines_shorter(s);
        }
        let l = text::first_line(s);
        (if has_colon(l) && text::eq_ignore_ascii_case(key, line_key(l)) {
            1nat
        } else {
            0nat
        }) + count_named(text::rest_lines(s), key)
    }
}

/// A first line ended by `\r\n`, laid out.
proof fn lemma_crlf_line(s: Seq<char>)
    requires
        s.len() > 0,
        text::first_line(s).len() + 2 + text::rest_lines(s).len() == s.len(),
    ensures
        s[text::first_line(s).len() as int] == '\r',
        s[text::first_line(s).len() as int + 1] == '\n',
        s.take(text::first_line(s).len() as int) == text::first_line(s),
        s.skip(text::first_line(s).len() as int + 2) == text::rest_lines(s),
{
    text::lemma_index_of(s, '\n');
    let e = text::index_of(s, '\n');
    if e == s.len() {
        assert(false);
    }
    assert(s.take(e).len() == e);
    assert(text::first_line(s) =~= s.take(e).drop_last());
    assert(s.take(e - 1) =~= s.take(e).drop_last());
}

/// Header text is keyed and ends a line.
proof fn lemma_header_text_keyed(s: Seq<char>)
    requires
        header_text(s),
    ensures
        keyed_lines(s),
        ends_line(s),
    decreases s.len(),
{
    if s.len() > 0 {
        lemma_crlf_line(s);
        let r = text::rest_lines(s);
        lemma_header_text_keyed(r);
        let n = text::first_line(s).len() as int;
        if r.len() > 0 {
            assert(s.last() == r.last()) by {
                assert(s.skip(n + 2)[r.len() - 1] == s[s.len() - 1]);
            }
        }
    }
}

/// Two header texts one after the other make one.
proof fn lemma_header_text_concat(s: Seq<char>, t: Seq<char>)
    requires
        header_text(s),
        header_text(t),
    ensures
        header_text(s + t),
    decreases s.len(),
{
    if s.len() == 0 {
        assert(s + t =~= t);
    } else {
        lemma_header_text_keyed(s);
        lemma_lines_of_concat(s, t);
        lemma_header_text_concat(text::rest_lines(s), t);
    }
}

/// The line that `append` writes is header text.
proof fn lemma_header_line_text(key: Seq<char>, value: Seq<char>)
    requires
        free_of(key, '\n'),
        free_of(value, '\n'),
    ensures
        header_text(header_line(key, value)),
{
    let h = header_line(key, value);
    let e = h.len() - 1;
    assert forall|j: int| 0 <= j < e implies h[j] != '\n' by {
        if j < key.len() {
            assert(h[j] == key[j]);
        } else if j >= key.len() + 2 && j < key.len() + 2 + value.len() {
            assert(h[j] == value[j - key.len() - 2]);
        }
    }
    text::lemma_index_of_is(h, '\n', e);
    let l = key + seq![':', ' '] + value;
    assert(h.take(e) =~= l + seq!['\r']);
    assert(text::first_line(h) =~= l);
    assert(text::rest_lines(h) =~= Seq::<char>::empty());
    assert(l[key.len() as int] == ':');
    text::lemma_index_of(l, ':');
    assert(has_colon(l));
    assert(header_text(text::rest_lines(h)));
}

/// Equality up to ASCII case carries over from one text to another.
proof fn lemma_eq_ignore_case_trans(a: Seq<char>, b: Seq<char>, c: Seq<char>)
    requires
        text::eq_ignore_ascii_case(a, b),
        text::eq_ignore_ascii_case(c, b),
    ensures
        text::eq_ignore_ascii_case(a, c),
{
    assert forall|i: int| 0 <= i < a.len() implies text::ascii_lower(#[trigger] a[i])
        == text::ascii_lower(c[i]) by {
        assert(text::ascii_lower(a[i]) == text::ascii_lower(b[i]));
        assert(text::ascii_lower(c[i]) == text::ascii_lower(b[i]));
    }
}

/// A keyed text with no line of name `key` has no value for it.
proof fn lemma_count_zero(s: Seq<char>, key: Seq<char>)
    requires
        keyed_lines(s),
        count_named(s, key) == 0,
    ensures
        lookup(s, key) is None,
    decreases s.len(),
{
    if s.len() > 0 {
        text::lemma_rest_lines_shorter(s);
        lemma_count_zero(text::rest_lines(s), key);
    }
}

/// The first line of header text, with its `\r\n`, is header text on its
/// own, and the text is that line followed by the rest.
proof fn lemma_split_first_line(s: Seq<char>)
    requires
        header_text(s),
        s.len() > 0,
    ensures
        ({
            let top = s.take(text::first_line(s).len() as int + 2);
            &&& s == top + text::rest_lines(s)
            &&& header_text(top)
            &&& keyed_lines(top)
            &&& ends_line(top)
            &&& top.len() > 0
            &&& top.last() == '\n'
            &&& text::first_line(top) == text::first_line(s)
            &&& text::rest_lines(top) == Seq::<char>::empty()
        }),
{
    lemma_crlf_line(s);
    let n = text::first_line(s).len() as int;
    let top = s.take(n + 2);
    let r = text::rest_lines(s);
    assert(s =~= top + r);
    assert(top.last() == s[n + 1]);
    lemma_lines_of_concat(top, r);
    assert(text::rest_lines(top).len() == 0);
    assert(text::rest_lines(top) =~= Seq::<char>::empty());
    assert(header_text(text::rest_lines(top)));
    assert(header_text(top));
    lemma_header_text_keyed(top);
}

/// What `delete` does to header text: it stays in bounds, leaves header
/// text with one line fewer of that name (the text is unchanged when there
/// was none), and leaves the value of every other name as it was.
proof fn lemma_delete(s: Seq<char>, key: Seq<char>, other: Seq<char>)
    requires
        header_text(s),
    ensures
        matching_line(s, key) is None <==> count_named(s, key) == 0,
        matching_line(s, key) matches Some((p, m)) ==> 0 <= p && 0 <= m,
        removal_in_bounds(s, key),
        header_text(without_header(s, key)),
        count_named(s, key) == 0 ==> without_header(s, key) == s,
        count_named(s, key) > 0 ==> count_named(without_header(s, key), key) + 1 == count_named(
            s,
            key,
        ),
        !text::eq_ignore_ascii_case(other, key) ==> lookup(without_header(s, key), other)
            == lookup(s, other),
    decreases s.len(),
{
    if s.len() > 0 {
        lemma_crlf_line(s);
        lemma_split_first_line(s);
        let l = text::first_line(s);
        let n = l.len() as int;
        let r = text::rest_lines(s);
        let top = s.take(n + 2);
        lemma_delete(r, key, other);
        if has_colon(l) && text::eq_ignore_ascii_case(key, line_key(l)) {
            assert(s.take(0) + s.skip(n + 2) =~= r);
            if text::eq_ignore_ascii_case(other, line_key(l)) {
                lemma_eq_ignore_case_trans(other, line_key(l), key);
            }
        } else {
            let d = s.len() - r.len();
            assert(d == n + 2);
            match matching_line(r, key) {
                None => {},
                Some((p, m)) => {
                    assert(s[p + d + m] == r[p + m]);
                    assert(s[p + d + m + 1] == r[p + m + 1]);
                    let w = r.take(p) + r.skip(p + m + 2);
                    assert(s.take(p + d) + s.skip(p + d + m + 2) =~= top + w);
                    lemma_header_text_concat(top, w);
                    lemma_lines_of_concat(top, w);
                    assert(text::rest_lines(top) + w =~= w);
                    lemma_lookup_concat(top, w, other);
                    lemma_lookup_concat(top, r, other);
                },
            }
        }
    }
}

/// Deleting a name held once: `get` finds nothing for it afterwards, every
/// other name keeps its value, and the text stays header text.
pub proof fn lemma_get_after_delete(s: Seq<char>, key: Seq<char>, other: Seq<char>)
    requires
        header_text(s),
        count_named(s, key) <= 1,
    ensures
        removal_in_bounds(s, key),
        header_text(without_header(s, key)),
        lookup(without_header(s, key), key) is None,
        !text::eq_ignore_ascii_case(other, key) ==> lookup(without_header(s, key), other)
            == lookup(s, other),
{
    lemma_delete(s, key, other);
    lemma_header_text_keyed(without_header(s, key));
    lemma_count_zero(without_header(s, key), key);
}

/// Setting a name held at most once: `get` then gives the new value,
/// trimmed; every other name keeps its value; the text stays header text.
pub proof fn lemma_get_after_set(s: Seq<char>, key: Seq<char>, value: Seq<char>, other: Seq<char>)
    requires
        header_text(s),
        count_named(s, key) <= 1,
        free_of(key, ':'),
        free_of(key, '\n'),
        free_of(value, '\n'),
    ensures
        removal_in_bounds(s, key),
        header_text(without_header(s, key) + header_line(key, value)),
        lookup(without_header(s, key) + header_line(key, value), key) == Some(text::trim(value)),
        !text::eq_ignore_ascii_case(other, key) ==> lookup(
            without_header(s, key) + header_line(key, value),
            other,
        ) == lookup(s, other),
{
    let w = without_header(s, key);
    lemma_get_after_delete(s, key, other);
    lemma_header_text_keyed(w);
    lemma_get_after_append(w, key, value);
    lemma_header_line_text(key, value);
    lemma_header_text_concat(w, header_line(key, value));
    if !text::eq_ignore_ascii_case(other, key) {
        lemma_get_other_after_append(w, key, value, other);
    }
}

/// Header text is valid: empty, or ended by `\r\n`.
proof fn lemma_header_text_valid(s: Seq<char>)
    requires
        header_text(s),
    ensures
        valid_text(s),
    decreases s.len(),
{
    if s.len() > 0 {
        lemma_split_first_line(s);
        lemma_crlf_line(s);
        let r = text::rest_lines(s);
        let top = s.take(text::first_line(s).len() as int + 2);
        lemma_header_text_valid(r);
        if r.len() == 0 {
            assert(s =~= top);
        } else {
            assert(s[s.len() - 2] == r[r.len() - 2]);
            assert(s[s.len() - 1] == r[r.len() - 1]);
        }
    }
}

/// Headers made by `append` stay header text, and so stay valid: appending
/// a key and a value without line feeds to header text gives header text,
/// on which `is_valid` holds.
pub proof fn lemma_append_keeps_valid(s: Seq<char>, key: Seq<char>, value: Seq<char>)
    requires
        header_text(s),
        free_of(key, '\n'),
        free_of(value, '\n'),
    ensures
        header_text(s + header_line(key, value)),
        valid_text(s + header_line(key, value)),
{
    lemma_header_line_text(key, value);
    lemma_header_text_concat(s, header_line(key, value));
    lemma_header_text_valid(s + header_line(key, value));
}

/// On header text, `delete` and `set` stay in bounds for any key, and the
/// text left is header text.
pub proof fn lemma_delete_keeps_header_text(s: Seq<char>, key: Seq<char>)
    requires
        header_text(s),
    ensures
        removal_in_bounds(s, key),
        header_text(without_header(s, key)),
{
    lemma_delete(s, key, key);
}

/// The text left after reading `n` lines, as `n` calls of
/// `HeaderIter::next` leave it.
pub open spec fn skip_lines(s: Seq<char>, n: nat) -> Seq<char>
    decreases n,
{
    if n == 0 {
        s
    } else {
        skip_lines(text::rest_lines(s), (n - 1) as nat)
    }
}

/// The text of pairs starts with the line of the first pair.
proof fn lemma_pairs_text_front(pairs: Seq<(&str, &str)>)
    requires
        pairs.len() > 0,
    ensures
        pairs_text(pairs) == header_line(pairs[0].0@, pairs[0].1@) + pairs_text(pairs.drop_first()),
    decreases pairs.len(),
{
    if pairs.len() == 1 {
        assert(pairs.drop_last() =~= Seq::<(&str, &str)>::empty());
        assert(pairs.drop_first() =~= Seq::<(&str, &str)>::empty());
        assert(pairs_text(pairs.drop_first()) =~= Seq::<char>::empty());
        assert(pairs_text(pairs.drop_last()) =~= Seq::<char>::empty());
        assert(pairs_text(pairs) =~= header_line(pairs[0].0@, pairs[0].1@) + Seq::<char>::empty());
    } else {
        let front = pairs.drop_last();
        lemma_pairs_text_front(front);
        assert(front.drop_first() =~= pairs.drop_first().drop_last());
        assert(pairs.drop_first().last() == pairs.last());
        assert(front[0] == pairs[0]);
        let h0 = header_line(pairs[0].0@, pairs[0].1@);
        let hl = header_line(pairs.last().0@, pairs.last().1@);
        assert(pairs_text(pairs) == pairs_text(front) + hl);
        assert(pairs_text(pairs.drop_first()) == pairs_text(pairs.drop_first().drop_last()) + hl);
        assert(h0 + pairs_text(front.drop_first()) + hl =~= h0 + (pairs_text(
            front.drop_first(),
        ) + hl));
    }
}

/// The line that `append` writes, split as `str::lines` splits it.
proof fn lemma_header_line_parts(key: Seq<char>, value: Seq<char>)
    requires
        free_of(key, ':'),
        free_of(key, '\n'),
        free_of(value, '\n'),
    ensures
        has_colon(text::first_line(header_line(key, value))),
        line_key(text::first_line(header_line(key, value))) == key,
        line_value(text::first_line(header_line(key, value))) == text::trim(value),
        header_line(key, value).last() == '\n',
        text::rest_lines(header_line(key, value)) == Seq::<char>::empty(),
{
    let h = header_line(key, value);
    let e = h.len() - 1;
    assert forall|j: int| 0 <= j < e implies h[j] != '\n' by {
        if j < key.len() {
            assert(h[j] == key[j]);
        } else if j >= key.len() + 2 && j < key.len() + 2 + value.len() {
            assert(h[j] == value[j - key.len() - 2]);
        }
    }
    text::lemma_index_of_is(h, '\n', e);
    let l = key + seq![':', ' '] + value;
    assert(h.take(e) =~= l + seq!['\r']);
    assert(text::first_line(h) =~= l);
    assert(text::rest_lines(h) =~= Seq::<char>::empty());
    assert forall|j: int| 0 <= j < key.len() implies l[j] != ':' by {
        assert(l[j] == key[j]);
    }
    text::lemma_index_of_is(l, ':', key.len() as int);
    assert(line_key(l) =~= key);
    assert(l.skip(key.len() as int + 1) =~= seq![' '] + value);
    lemma_trim_leading_space(value);
}

/// Iterating headers made from pairs gives the pairs back, in order: after
/// `i` lines the next one has the key and value of pair `i`, and after all
/// of them nothing is left. Keys hold no colon or line feed, values no line
/// feed, and each value is its own trim.
pub proof fn lemma_iterate_pairs(pairs: Seq<(&str, &str)>)
    requires
        forall|i: int|
            0 <= i < pairs.len() ==> {
                &&& free_of((#[trigger] pairs[i]).0@, ':')
                &&& free_of(pairs[i].0@, '\n')
                &&& free_of(pairs[i].1@, '\n')
                &&& text::trim(pairs[i].1@) == pairs[i].1@
            },
    ensures
        forall|i: int|
            0 <= i < pairs.len() ==> {
                let r = #[trigger] skip_lines(pairs_text(pairs), i as nat);
                let l = text::first_line(r);
                &&& r.len() > 0
                &&& has_colon(l)
                &&& line_key(l) == pairs[i].0@
                &&& line_value(l) == pairs[i].1@
            },
        skip_lines(pairs_text(pairs), pairs.len()).len() == 0,
    decreases pairs.len(),
{
    if pairs.len() == 0 {
        assert(pairs_text(pairs) =~= Seq::<char>::empty());
    } else {
        let rest = pairs.drop_first();
        assert forall|i: int|
            0 <= i < rest.len() implies {
                &&& free_of((#[trigger] rest[i]).0@, ':')
                &&& free_of(rest[i].0@, '\n')
                &&& free_of(rest[i].1@, '\n')
                &&& text::trim(rest[i].1@) == rest[i].1@
            } by {
            assert(rest[i] == pairs[i + 1]);
        }
        lemma_iterate_pairs(rest);
        lemma_pairs_text_front(pairs);
        let h = header_line(pairs[0].0@, pairs[0].1@);
        let t = pairs_text(rest);
        assert(free_of(pairs[0].0@, ':'));
        lemma_header_line_parts(pairs[0].0@, pairs[0].1@);
        lemma_lines_of_concat(h, t);
        assert(text::rest_lines(h) + t =~= t);
        assert(text::rest_lines(pairs_text(pairs)) == t);
        assert forall|i: int| 0 <= i < pairs.len() implies {
            let r = #[trigger] skip_lines(pairs_text(pairs), i as nat);
            let l = text::first_line(r);
            &&& r.len() > 0
            &&& has_colon(l)
            &&& line_key(l) == pairs[i].0@
            &&& line_value(l) == pairs[i].1@
        } by {
            if i == 0 {
                assert(skip_lines(pairs_text(pairs), 0) == pairs_text(pairs));
            } else {
                assert(skip_lines(pairs_text(pairs), i as nat) == skip_lines(t, (i - 1) as nat));
                assert(rest[i - 1] == pairs[i]);
            }
        }
        assert(skip_lines(pairs_text(pairs), pairs.len()) == skip_lines(t, rest.len()));
    }
}

} // verus!
