use vstd::prelude::*;

use crate::http::headers::{valid_text, Headers};
use crate::http::status::{parse_status, status_text, ResponseCode};
use crate::text;

verus! {

broadcast use vstd::string::group_string_axioms;

/// The code of a status line such as `HTTP/1.1 200 OK`: once trailing white
/// space is dropped, what follows the first space, read by `from_line`.
pub open spec fn status_line_code(line: Seq<char>) -> Option<u16> {
    let t = text::trim_end(line);
    let k = text::index_of(t, ' ');
    if k < t.len() {
        parse_status(t.skip(k + 1))
    } else {
        None
    }
}

/// Reads the code of a response's status line.
pub fn parse_status_line(line: &str) -> (r: Option<ResponseCode>)
    ensures
        r is Some <==> status_line_code(line@) is Some,
        r matches Some(c) ==> status_line_code(line@) == Some(c.0),
{
    let chars = text::chars_of(line);
    let n = chars.len();
    let e = text::trim_end_at(&chars, 0, n);
    assert(chars@.subrange(0, n as int) =~= line@);
    let k = text::find_char(&chars, 0, e, ' ');
    if k < e {
        let item = line.substring_char(k + 1, e);
        assert(item@ =~= chars@.subrange(0, e as int).skip(k + 1));
        match ResponseCode::from_line(item) {
            Ok(code) => Some(code),
            Err(_) => None,
        }
    } else {
        None
    }
}

pub open spec fn is_one_byte(c: char) -> bool {
    (c as u32) < 0x80
}

pub open spec fn is_two_bytes(c: char) -> bool {
    0x80 <= (c as u32) < 0x800
}

/// Whether the last two bytes of the UTF-8 text `s` end on a character
/// boundary and can be dropped.
pub open spec fn can_drop_two_bytes(s: Seq<char>) -> bool {
    ||| s.len() >= 2 && is_one_byte(s.last()) && is_one_byte(s[s.len() - 2])
    ||| s.len() >= 1 && is_two_bytes(s.last())
}

/// `s` without its last two bytes.
pub open spec fn drop_two_bytes(s: Seq<char>) -> Seq<char> {
    if s.len() >= 1 && is_two_bytes(s.last()) {
        s.drop_last()
    } else {
        s.drop_last().drop_last()
    }
}

/// The body length that a header line sets, given the length before it:
/// `Content-Length` with a decimal `u64` value sets it, and
/// `Transfer-Encoding` naming `chunked` sets it to `u64::MAX`.
pub open spec fn next_content_length(line: Seq<char>, length: u64) -> u64 {
    let k = text::index_of(line, ':');
    if k < line.len() {
        let key = line.take(k);
        let value = line.skip(k + 1);
        if text::eq_ignore_ascii_case("Content-Length"@, key) {
            match text::parse_unsigned(text::trim(value), 10, u64::MAX as int) {
                Some(v) => v as u64,
                None => length,
            }
        } else if text::eq_ignore_ascii_case("Transfer-Encoding"@, key) && text::contains_seq(
            value,
            "chunked"@,
        ) {
            u64::MAX
        } else {
            length
        }
    } else {
        length
    }
}

/// Reads the header lines of a response, one line at a time, up to the
/// blank line that ends them.
pub struct HeadReader {
    buf: String,
    content_length: u64,
    done: bool,
}

impl HeadReader {
    /// The header text read so far.
    pub closed spec fn text(&self) -> Seq<char> {
        self.buf@
    }

    /// The body length that the headers read so far give.
    pub closed spec fn length(&self) -> u64 {
        self.content_length
    }

    /// Whether the blank line has been read.
    pub closed spec fn is_done(&self) -> bool {
        self.done
    }

    pub fn new() -> (r: HeadReader)
        ensures
            r.text() == Seq::<char>::empty(),
            r.length() == 0,
            !r.is_done(),
    {
        HeadReader { buf: String::new(), content_length: 0, done: false }
    }

    /// Whether `push_line` can take `line`: the blank line is not read yet,
    /// and when `line` is blank, the two bytes it drops end on a character
    /// boundary.
    pub fn accepts_line(&self, line: &str) -> (b: bool)
        ensures
            b == (!self.is_done() && (text::trim_end(line@).len() == 0 ==> can_drop_two_bytes(
                self.text() + line@,
            ))),
    {
        if self.done {
            return false;
        }
        let chars = text::chars_of(line);
        let n = chars.len();
        let e = text::trim_end_at(&chars, 0, n);
        assert(chars@.subrange(0, n as int) =~= line@);
        if e > 0 {
            return true;
        }
        let mut all = self.buf.clone();
        all.append(line);
        let v = text::chars_of(all.as_str());
        let m = v.len();
        (m >= 2 && (v[m - 1] as u32) < 0x80 && (v[m - 2] as u32) < 0x80) || (m >= 1 && 0x80 <= (
        v[m - 1] as u32) && (v[m - 1] as u32) < 0x800)
    }

    /// Takes one line as it was read, line ending included, and tells
    /// whether it was the blank line that ends the headers. The blank line
    /// is dropped from the text with the two bytes that end it.
    pub fn push_line(&mut self, line: &str) -> (finished: bool)
        requires
            !old(self).is_done(),
            text::trim_end(line@).len() == 0 ==> can_drop_two_bytes(old(self).text() + line@),
        ensures
            finished == (text::trim_end(line@).len() == 0),
            final(self).is_done() == finished,
            final(self).length() == next_content_length(text::trim_end(line@), old(self).length()),
            finished ==> final(self).text() == drop_two_bytes(old(self).text() + line@),
            !finished ==> final(self).text() == old(self).text() + line@,
    {
        self.buf.append(line);
        let chars = text::chars_of(line);
        let n = chars.len();
        let e = text::trim_end_at(&chars, 0, n);
        assert(chars@.subrange(0, n as int) =~= line@);
        let ghost t = chars@.subrange(0, e as int);
        let k = text::find_char(&chars, 0, e, ':');
        if k < e {
            assert(t.take(k as int) =~= chars@.subrange(0, k as int));
            assert(t.skip(k + 1) =~= chars@.subrange(k + 1, e as int));
            let content_length = text::chars_of("Content-Length");
            let transfer_encoding = text::chars_of("Transfer-Encoding");
            if text::eq_ignore_case(&chars, 0, k, &content_length) {
                let (lo, hi) = text::trim_at(&chars, k + 1, e);
                if let Some(v) = text::parse_unsigned_at(&chars, lo, hi, 10, u64::MAX) {
                    self.content_length = v;
                }
            } else if text::eq_ignore_case(&chars, 0, k, &transfer_encoding) {
                let chunked = text::chars_of("chunked");
                if text::contains_chars(&chars, k + 1, e, &chunked) {
                    self.content_length = u64::MAX;
                }
            }
        }
        if e == 0 {
            let all = text::chars_of(self.buf.as_str());
            let m = all.len();
            let keep = if m >= 1 && 0x80 <= (all[m - 1] as u32) && (all[m - 1] as u32) < 0x800 {
                m - 1
            } else {
                m - 2
            };
            let rebuilt = text::string_of(&all, 0, keep);
            assert(rebuilt@ =~= drop_two_bytes(old(self).text() + line@));
            self.buf = rebuilt;
            self.done = true;
            true
        } else {
            false
        }
    }

    /// The headers read and the body length they give.
    pub fn finish(self) -> (r: (Headers, u64))
        ensures
            r.0@ == self.text(),
            r.1 == self.length(),
    {
        (Headers::from_string(self.buf), self.content_length)
    }
}

/// The start of a response: status line, headers without trailing white
/// space, and the blank line.
pub open spec fn response_head_text(code: u16, headers: Seq<char>) -> Seq<char> {
    "HTTP/1.1 "@ + status_text(code)->0 + "\r\n"@ + text::trim_end(headers) + "\r\n"@ + "\r\n"@
}

/// Writes the status line and headers of a response with a standard code.
pub fn response_head(code: ResponseCode, headers: &Headers) -> (head: String)
    requires
        status_text(code.0) is Some,
    ensures
        head@ == response_head_text(code.0, headers@),
{
    let mut s = String::new();
    s.append("HTTP/1.1 ");
    s.append(code.to_str());
    s.append("\r\n");
    let chars = text::chars_of(headers.0.as_str());
    let n = chars.len();
    let e = text::trim_end_at(&chars, 0, n);
    assert(chars@.subrange(0, n as int) =~= headers@);
    text::push_chars(&mut s, &chars, 0, e);
    s.append("\r\n");
    s.append("\r\n");
    assert(s@ =~= response_head_text(code.0, headers@));
    s
}

/// The status line that `response_head` writes for a code with a standard
/// reason phrase is read back by `parse_status_line` as that code.
pub proof fn lemma_status_line_round_trip(code: u16, headers: Seq<char>)
    requires
        status_text(code) is Some,
    ensures
        ({
            let line = "HTTP/1.1 "@ + status_text(code)->0 + "\r\n"@;
            &&& response_head_text(code, headers).take(line.len() as int) == line
            &&& status_line_code(line) == Some(code)
        }),
{
    reveal_strlit("HTTP/1.1 ");
    reveal_strlit("\r\n");
    crate::http::status::lemma_status_text_round_trip(code);
    let st = status_text(code)->0;
    let x = "HTTP/1.1 "@ + st;
    let line = x + "\r\n"@;
    assert(response_head_text(code, headers).take(line.len() as int) =~= line);
    assert(line.drop_last() =~= x + seq!['\r']);
    assert((x + seq!['\r']).drop_last() =~= x);
    assert(x.last() == st.last());
    assert(text::trim_end(x) == x);
    assert(text::trim_end(x + seq!['\r']) == x);
    assert(text::trim_end(line) == x);
    text::lemma_index_of_is(x, ' ', 8);
    assert(x.skip(9) =~= st);
}

/// When the header lines read so far end with `\r\n` (or there are none),
/// a blank `\r\n` line can finish them, and the headers that `finish`
/// gives are exactly those lines, on which `is_valid` holds.
pub proof fn lemma_blank_line_keeps_lines(t: Seq<char>)
    requires
        valid_text(t),
    ensures
        can_drop_two_bytes(t + "\r\n"@),
        drop_two_bytes(t + "\r\n"@) == t,
        valid_text(drop_two_bytes(t + "\r\n"@)),
{
    reveal_strlit("\r\n");
    let u = t + "\r\n"@;
    assert(u.last() == '\n');
    assert(u[u.len() - 2] == '\r');
    assert(u.drop_last().drop_last() =~= t);
}

} // verus!
