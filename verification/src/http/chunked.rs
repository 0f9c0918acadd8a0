use vstd::prelude::*;

use crate::text;

verus! {

broadcast use vstd::string::group_string_axioms;

/// Why reading a chunked body failed.
#[derive(PartialEq, Eq, Clone, Copy, Debug, Structural)]
pub enum ChunkError {
    /// A chunk length that is not hexadecimal, or a chunk not ended by `\r\n`.
    InvalidData,
    /// The input ended where a chunk's closing `\r\n` was due.
    UnexpectedEof,
}

pub open spec fn min(a: int, b: int) -> int {
    if a <= b {
        a
    } else {
        b
    }
}

/// The length of the first line of `s`, line feed included; all of `s` when
/// it holds no line feed.
pub open spec fn line_length(s: Seq<u8>) -> int {
    let i = text::index_of(s, 10u8);
    if i < s.len() {
        i + 1
    } else {
        s.len() as int
    }
}

/// The chunk length that a size line gives: the line must be UTF-8, and,
/// once trailing white space is dropped, hexadecimal that fits a `u64`.
pub open spec fn chunk_size(line: Seq<u8>) -> Option<int> {
    if vstd::utf8::valid_utf8(line) {
        text::parse_unsigned(
            text::trim_end(vstd::utf8::decode_utf8(line)),
            16,
            u64::MAX as int,
        )
    } else {
        None
    }
}

/// One read of up to `cap` bytes of chunk data, with `t` bytes of the current
/// chunk left in `rest`: the data, the error if any, what is left of the
/// input, and how much of the chunk is left.
pub open spec fn body_step(rest: Seq<u8>, t: int, cap: int) -> (
    Seq<u8>,
    Option<ChunkError>,
    Seq<u8>,
    int,
) {
    let n = min(min(cap, t), rest.len() as int);
    let data = rest.take(n);
    let after = rest.skip(n);
    if t - n == 0 {
        if after.len() < 2 {
            (data, Some(ChunkError::UnexpectedEof), Seq::empty(), 0)
        } else if after[0] == 13u8 && after[1] == 10u8 {
            (data, None, after.skip(2), 0)
        } else {
            (data, Some(ChunkError::InvalidData), after.skip(2), 0)
        }
    } else {
        (data, None, after, t - n)
    }
}

/// One call of `ChunkedReader::read` with a buffer of `cap` bytes. With no
/// chunk under way, a size line is read first; size zero ends the body.
pub open spec fn read_step(rest: Seq<u8>, t: int, cap: int) -> (
    Seq<u8>,
    Option<ChunkError>,
    Seq<u8>,
    int,
) {
    if t == 0 {
        let l = line_length(rest);
        match chunk_size(rest.take(l)) {
            None => (Seq::empty(), Some(ChunkError::InvalidData), rest.skip(l), 0),
            Some(n) => if n == 0 {
                (Seq::empty(), None, rest.skip(l), 0)
            } else {
                body_step(rest.skip(l), min(n, usize::MAX as int), cap)
            },
        }
    } else {
        body_step(rest, t, cap)
    }
}

/// One read takes no more than the buffer holds and never grows the input
/// left; a read that gives data uses some input up.
pub proof fn lemma_read_step(rest: Seq<u8>, t: int, cap: int)
    requires
        0 <= t,
        0 <= cap,
    ensures
        ({
            let (data, e, r, t2) = read_step(rest, t, cap);
            &&& 0 <= t2
            &&& data.len() <= cap
            &&& data.len() + r.len() <= rest.len()
            &&& data.len() > 0 ==> r.len() < rest.len()
        }),
{
    text::lemma_index_of(rest, 10u8);
    if t == 0 {
        let l = line_length(rest);
        assert(0 <= l <= rest.len());
        if vstd::utf8::valid_utf8(rest.take(l)) {
            text::lemma_parse_unsigned_nonneg(
                text::trim_end(vstd::utf8::decode_utf8(rest.take(l))),
                16,
                u64::MAX as int,
            );
        }
        if let Some(n) = chunk_size(rest.take(l)) {
            if n != 0 {
                lemma_body_step(rest.skip(l), min(n, usize::MAX as int), cap);
            }
        }
    } else {
        lemma_body_step(rest, t, cap);
    }
}

/// The same bounds for a read of chunk data.
pub proof fn lemma_body_step(rest: Seq<u8>, t: int, cap: int)
    requires
        0 <= t,
        0 <= cap,
    ensures
        ({
            let (data, e, r, t2) = body_step(rest, t, cap);
            &&& 0 <= t2
            &&& data.len() <= cap
            &&& data.len() + r.len() <= rest.len()
            &&& data.len() > 0 ==> r.len() < rest.len()
        }),
{
}

/// Reading to the end with buffers larger than what is left: the data
/// appended, the error that stopped it if any, and the reader's state after.
pub open spec fn drain(rest: Seq<u8>, t: int) -> (Seq<u8>, Option<ChunkError>, Seq<u8>, int)
    decreases rest.len(),
{
    if t < 0 {
        (Seq::empty(), None, rest, t)
    } else {
        let (data, e, r, t2) = read_step(rest, t, rest.len() as int);
        if e is Some {
            (Seq::empty(), e, r, t2)
        } else if data.len() == 0 {
            (Seq::empty(), None, r, t2)
        } else {
            proof {
                lemma_read_step(rest, t, rest.len() as int);
            }
            let (o, e2, r2, t3) = drain(r, t2);
            (data + o, e2, r2, t3)
        }
    }
}

/// Decodes a body in chunked transfer encoding from the bytes it holds.
pub struct ChunkedReader {
    reader: Vec<u8>,
    pos: usize,
    to_read: usize,
}

/// Reads the size line that starts at `pos`: its length and the chunk size
/// it gives.
fn size_line_at(v: &Vec<u8>, pos: usize) -> (r: (usize, Option<u64>))
    requires
        pos <= v@.len(),
    ensures
        r.0 == line_length(v@.subrange(pos as int, v@.len() as int)),
        pos + r.0 <= v@.len(),
        r.1 is Some <==> chunk_size(v@.subrange(pos as int, v@.len() as int).take(r.0 as int)) is Some,
        r.1 matches Some(n) ==> chunk_size(
            v@.subrange(pos as int, v@.len() as int).take(r.0 as int),
        ) == Some(n as int),
{
    let ghost rest = v@.subrange(pos as int, v@.len() as int);
    let len = v.len();
    let k = text::find_byte(v, pos, len, 10u8);
    proof {
        text::lemma_index_of(rest, 10u8);
    }
    let l = if pos + k < len {
        k + 1
    } else {
        k
    };
    let mut line: Vec<u8> = Vec::new();
    let mut i = pos;
    while i < pos + l
        invariant
            pos <= i <= pos + l <= len == v@.len(),
            line@ == v@.subrange(pos as int, i as int),
        decreases pos + l - i,
    {
        line.push(v[i]);
        assert(line@ =~= v@.subrange(pos as int, i + 1));
        i += 1;
    }
    assert(line@ =~= rest.take(l as int));
    match text::string_from_utf8(line) {
        Err(_) => (l, None),
        Ok(s) => {
            let chars = text::chars_of(s.as_str());
            let e = text::trim_end_at(&chars, 0, chars.len());
            assert(chars@.subrange(0, chars@.len() as int) =~= chars@);
            let n = text::parse_unsigned_at(&chars, 0, e, 16, u64::MAX);
            (l, n)
        },
    }
}

impl ChunkedReader {
    #[verifier::type_invariant]
    spec fn well_formed(&self) -> bool {
        self.pos <= self.reader@.len()
    }

    /// The input not read yet.
    pub closed spec fn rest(&self) -> Seq<u8> {
        self.reader@.subrange(self.pos as int, self.reader@.len() as int)
    }

    /// How many bytes of the current chunk are left; zero between chunks.
    pub closed spec fn to_read(&self) -> int {
        self.to_read as int
    }

    pub fn new(reader: Vec<u8>) -> (r: ChunkedReader)
        ensures
            r.rest() == reader@,
            r.to_read() == 0,
    {
        let r = ChunkedReader { reader, pos: 0, to_read: 0 };
        assert(r.rest() =~= r.reader@);
        r
    }

    /// The input not read yet.
    pub fn into_inner(self) -> (v: Vec<u8>)
        ensures
            v@ == self.rest(),
    {
        proof {
            use_type_invariant(&self);
        }
        let mut v: Vec<u8> = Vec::new();
        let mut i = self.pos;
        while i < self.reader.len()
            invariant
                self.pos <= i <= self.reader@.len(),
                v@ == self.reader@.subrange(self.pos as int, i as int),
            decreases self.reader@.len() - i,
        {
            v.push(self.reader[i]);
            assert(v@ =~= self.reader@.subrange(self.pos as int, i + 1));
            i += 1;
        }
        v
    }

    /// Reads the size line at `pos`: its length and the chunk size it gives.
    fn read_size_line(&self) -> (r: (usize, Option<u64>))
        ensures
            r.0 == line_length(self.rest()),
            r.0 <= self.rest().len(),
            r.1 is Some <==> chunk_size(self.rest().take(r.0 as int)) is Some,
            r.1 matches Some(n) ==> chunk_size(self.rest().take(r.0 as int)) == Some(n as int),
    {
        proof {
            use_type_invariant(self);
        }
        size_line_at(&self.reader, self.pos)
    }

    /// Reads chunk data into the front of `buf` (at most `buf.len()` bytes)
    /// and gives how many bytes it wrote; reads a size line first when no
    /// chunk is under way. `Ok(0)` at the final zero-size chunk.
    pub fn read(&mut self, buf: &mut Vec<u8>) -> (res: Result<usize, ChunkError>)
        ensures
            ({
                let (data, e, r, t) = read_step(
                    old(self).rest(),
                    old(self).to_read(),
                    old(buf)@.len() as int,
                );
                &&& final(self).rest() == r
                &&& final(self).to_read() == t
                &&& final(buf)@ == data + old(buf)@.skip(data.len() as int)
                &&& e is None ==> res == Ok::<usize, ChunkError>(data.len() as usize)
                &&& e matches Some(x) ==> res == Err::<usize, ChunkError>(x)
            }),
    {
        proof {
            use_type_invariant(&*self);
            lemma_read_step(self.rest(), self.to_read as int, buf@.len() as int);
        }
        if self.to_read == 0 {
            let (l, size) = self.read_size_line();
            assert(self.reader@.len() == self.reader.len());
            assert(self.rest().len() == self.reader@.len() - self.pos);
            let ghost after = self.rest().skip(l as int);
            self.pos = self.pos + l;
            assert(self.rest() =~= after);
            match size {
                None => {
                    assert(old(buf)@.skip(0) =~= old(buf)@);
                    return Err(ChunkError::InvalidData);
                },
                Some(n) => {
                    if n == 0 {
                        assert(old(buf)@.skip(0) =~= old(buf)@);
                        return Ok(0);
                    }
                    self.to_read = if n > usize::MAX as u64 {
                        usize::MAX
                    } else {
                        n as usize
                    };
                },
            }
        }
        self.read_data(buf)
    }

    /// Reads chunks until the final zero-size chunk, the end of the input or
    /// an error, appending the data to `out`; gives how many bytes it
    /// appended. The data of a read that fails is not appended.
    pub fn read_to_end(&mut self, out: &mut Vec<u8>) -> (res: Result<usize, ChunkError>)
        ensures
            ({
                let (o, e, r, t) = drain(old(self).rest(), old(self).to_read());
                &&& final(out)@ == old(out)@ + o
                &&& final(self).rest() == r
                &&& final(self).to_read() == t
                &&& e is None ==> res == Ok::<usize, ChunkError>(o.len() as usize)
                &&& e matches Some(x) ==> res == Err::<usize, ChunkError>(x)
            }),
    {
        proof {
            use_type_invariant(&*self);
        }
        assert(self.reader@.len() == self.reader.len());
        assert(self.rest().len() == self.reader@.len() - self.pos);
        assert(self.rest() == old(self).rest());
        let ghost start = drain(self.rest(), self.to_read());
        let mut total: usize = 0;
        proof {
            use_type_invariant(&*self);
        }
        loop
            invariant
                ({
                    let (o, e, r, t) = drain(self.rest(), self.to_read());
                    &&& start.0 == out@.skip(old(out)@.len() as int) + o
                    &&& out@.take(old(out)@.len() as int) == old(out)@
                    &&& out@.len() == old(out)@.len() + total
                    &&& start.1 == e
                    &&& start.2 == r
                    &&& start.3 == t
                }),
                self.to_read() >= 0,
                total + self.rest().len() <= old(self).rest().len(),
                old(self).rest().len() <= usize::MAX,
                start == drain(old(self).rest(), old(self).to_read()),
            decreases self.rest().len(),
        {
            proof {
                use_type_invariant(&*self);
            }
            let ghost before = self.rest();
            let ghost t0 = self.to_read();
            let ghost before_out = out@;
            let cap = self.reader.len() - self.pos;
            let mut buf: Vec<u8> = vec![0u8; cap];
            assert(buf@.len() == before.len());
            let r = self.read(&mut buf);
            proof {
                lemma_read_step(before, t0, before.len() as int);
            }
            match r {
                Err(e) => {
                    assert(drain(before, t0) == (Seq::<u8>::empty(), Some(e), self.rest(), self.to_read()));
                    assert(out@ =~= old(out)@ + start.0);
                    assert(start.2 == self.rest());
                    assert(start.1 == Some(e));
                    return Err(e);
                },
                Ok(n) => {
                    if n == 0 {
                        assert(drain(before, t0) == (Seq::<u8>::empty(), None::<ChunkError>, self.rest(), self.to_read()));
                        assert(out@ =~= old(out)@ + start.0);
                        assert(start.2 == self.rest());
                        assert(start.1 is None);
                        assert(start.0.len() == total);
                        return Ok(total);
                    }
                    let mut i: usize = 0;
                    while i < n
                        invariant
                            i <= n <= buf@.len(),
                            out@ == before_out + buf@.take(i as int),
                        decreases n - i,
                    {
                        out.push(buf[i]);
                        assert(buf@.take(i + 1) =~= buf@.take(i as int).push(buf@[i as int]));
                        i += 1;
                    }
                    total = total + n;
                    assert(buf@.take(n as int) =~= read_step(before, t0, before.len() as int).0);
                    assert(out@.skip(old(out)@.len() as int) =~= before_out.skip(
                        old(out)@.len() as int,
                    ) + buf@.take(n as int));
                    assert(out@.take(old(out)@.len() as int) =~= before_out.take(
                        old(out)@.len() as int,
                    ));
                },
            }
        }
    }

    /// Copies data of the current chunk (`to_read > 0`) into the front of
    /// `buf`, then checks the chunk's closing `\r\n` once it is done.
    fn read_data(&mut self, buf: &mut Vec<u8>) -> (res: Result<usize, ChunkError>)
        requires
            old(self).to_read() > 0,
        ensures
            ({
                let (data, e, r, t) = body_step(
                    old(self).rest(),
                    old(self).to_read(),
                    old(buf)@.len() as int,
                );
                &&& final(self).rest() == r
                &&& final(self).to_read() == t
                &&& final(buf)@ == data + old(buf)@.skip(data.len() as int)
                &&& e is None ==> res == Ok::<usize, ChunkError>(data.len() as usize)
                &&& e matches Some(x) ==> res == Err::<usize, ChunkError>(x)
            }),
    {
        proof {
            use_type_invariant(&*self);
        }
        let len = self.reader.len();
        let ghost rest = self.rest();
        let ghost t = self.to_read as int;
        let avail = len - self.pos;
        let mut n = buf.len();
        if self.to_read < n {
            n = self.to_read;
        }
        if avail < n {
            n = avail;
        }
        let mut i: usize = 0;
        while i < n
            invariant
                i <= n <= buf@.len(),
                n <= avail == len - self.pos,
                len == self.reader@.len(),
                self.pos <= len,
                buf@.len() == old(buf)@.len(),
                forall|j: int| 0 <= j < i ==> buf@[j] == self.reader@[self.pos + j],
                forall|j: int| i <= j < buf@.len() ==> buf@[j] == old(buf)@[j],
            decreases n - i,
        {
            buf.set(i, self.reader[self.pos + i]);
            i += 1;
        }
        assert(buf@ =~= rest.take(n as int) + old(buf)@.skip(n as int));
        self.pos = self.pos + n;
        self.to_read = self.to_read - n;
        assert(self.rest() =~= rest.skip(n as int));
        if self.to_read == 0 {
            if len - self.pos < 2 {
                self.pos = len;
                assert(self.rest() =~= Seq::<u8>::empty());
                return Err(ChunkError::UnexpectedEof);
            }
            let a = self.reader[self.pos];
            let b = self.reader[self.pos + 1];
            let ghost after = self.rest();
            self.pos = self.pos + 2;
            assert(self.rest() =~= after.skip(2));
            if a != 13 || b != 10 {
                return Err(ChunkError::InvalidData);
            }
        }
        Ok(n)
    }

    /// Reads to the end as `read_to_end` does, then appends the data to
    /// `out` when it is UTF-8; otherwise `out` is left as it was and an error
    /// is given.
    pub fn read_to_string(&mut self, out: &mut String) -> (res: Result<usize, ChunkError>)
        ensures
            ({
                let (o, e, r, t) = drain(old(self).rest(), old(self).to_read());
                &&& final(self).rest() == r
                &&& final(self).to_read() == t
                &&& vstd::utf8::valid_utf8(o) ==> {
                    &&& final(out)@ == old(out)@ + vstd::utf8::decode_utf8(o)
                    &&& e is None ==> res == Ok::<usize, ChunkError>(o.len() as usize)
                    &&& e matches Some(x) ==> res == Err::<usize, ChunkError>(x)
                }
                &&& !vstd::utf8::valid_utf8(o) ==> {
                    &&& final(out)@ == old(out)@
                    &&& e is None ==> res == Err::<usize, ChunkError>(ChunkError::InvalidData)
                    &&& e matches Some(x) ==> res == Err::<usize, ChunkError>(x)
                }
            }),
    {
        let mut bytes: Vec<u8> = Vec::new();
        let r = self.read_to_end(&mut bytes);
        assert(bytes@ =~= Seq::<u8>::empty() + bytes@);
        match text::string_from_utf8(bytes) {
            Ok(s) => {
                out.append(s.as_str());
                r
            },
            Err(_) => match r {
                Err(e) => Err(e),
                Ok(_) => Err(ChunkError::InvalidData),
            },
        }
    }
}

} // verus!

verus! {

/// The ASCII bytes of a sequence of ASCII characters.
pub open spec fn ascii_bytes(s: Seq<char>) -> Seq<u8> {
    Seq::new(s.len(), |i: int| s[i] as u8)
}

/// One chunk of the chunked transfer encoding: the length in lower-case
/// hexadecimal, `\r\n`, the data, `\r\n`.
pub open spec fn chunk_frame(data: Seq<u8>) -> Seq<u8> {
    ascii_bytes(text::hexadecimal(data.len())) + seq![13u8, 10u8] + data + seq![13u8, 10u8]
}

/// A chunked body carrying `items` in order, ended by the zero-size chunk.
pub open spec fn encode_chunks(items: Seq<Seq<u8>>) -> Seq<u8>
    decreases items.len(),
{
    if items.len() == 0 {
        chunk_frame(Seq::empty())
    } else {
        chunk_frame(items[0]) + encode_chunks(items.drop_first())
    }
}

/// The items joined in order.
pub open spec fn concat_items(items: Seq<Seq<u8>>) -> Seq<u8>
    decreases items.len(),
{
    if items.len() == 0 {
        Seq::empty()
    } else {
        items[0] + concat_items(items.drop_first())
    }
}

/// Appends the lower-case hexadecimal digits of `n`, as bytes.
fn push_hex_bytes(v: &mut Vec<u8>, n: u64)
    ensures
        final(v)@ == old(v)@ + ascii_bytes(text::hexadecimal(n as nat)),
    decreases n,
{
    if n >= 16 {
        push_hex_bytes(v, n / 16);
    }
    let d = (n % 16) as u8;
    let c = if d < 10 {
        48u8 + d
    } else {
        97u8 + d - 10
    };
    v.push(c);
    assert(ascii_bytes(text::hexadecimal(n as nat)) =~= (if n >= 16 {
        ascii_bytes(text::hexadecimal((n / 16) as nat))
    } else {
        Seq::empty()
    }) + seq![c]);
}

/// Encodes a sequence of byte vectors as a chunked body, handing the bytes
/// out through `read` into buffers of any size.
pub struct ChunkedIterator {
    items: Vec<Vec<u8>>,
    next: usize,
    buf: Vec<u8>,
    finished: bool,
}

impl ChunkedIterator {
    #[verifier::type_invariant]
    spec fn well_formed(&self) -> bool {
        self.next <= self.items@.len()
    }

    /// The items not taken yet.
    pub closed spec fn remaining_items(&self) -> Seq<Seq<u8>> {
        self.items@.subrange(self.next as int, self.items@.len() as int).map_values(
            |v: Vec<u8>| v@,
        )
    }

    /// Whether the final zero-size chunk has been made.
    pub closed spec fn is_finished(&self) -> bool {
        self.finished
    }

    /// The bytes that reads will still hand out, in order.
    pub closed spec fn pending(&self) -> Seq<u8> {
        self.buf@ + if self.finished {
            Seq::empty()
        } else {
            encode_chunks(self.remaining_items())
        }
    }

    pub fn new(iter: Vec<Vec<u8>>) -> (it: ChunkedIterator)
        ensures
            it.pending() == encode_chunks(iter@.map_values(|v: Vec<u8>| v@)),
            it.remaining_items() == iter@.map_values(|v: Vec<u8>| v@),
            it.buffered() == Seq::<u8>::empty(),
            !it.is_finished(),
    {
        let it = ChunkedIterator { items: iter, next: 0, buf: Vec::new(), finished: false };
        assert(it.items@.subrange(0, it.items@.len() as int) =~= it.items@);
        assert(it.pending() =~= encode_chunks(it.remaining_items()));
        it
    }

    /// The bytes made but not handed out yet.
    pub closed spec fn buffered(&self) -> Seq<u8> {
        self.buf@
    }

    /// What reads will still hand out is what is buffered, then, unless the
    /// final chunk has been made, the chunks of the items not taken yet and
    /// the final chunk.
    pub proof fn lemma_pending(&self)
        ensures
            self.pending() == self.buffered() + if self.is_finished() {
                Seq::<u8>::empty()
            } else {
                encode_chunks(self.remaining_items())
            },
    {
    }

    /// Takes the next item (or, once they are used up, marks the end) and
    /// gives its chunk.
    fn next_chunk(&mut self) -> (chunk: Vec<u8>)
        requires
            !old(self).is_finished(),
        ensures
            old(self).remaining_items().len() > 0 ==> {
                &&& chunk@ == chunk_frame(old(self).remaining_items()[0])
                &&& final(self).remaining_items() == old(self).remaining_items().drop_first()
                &&& !final(self).is_finished()
            },
            old(self).remaining_items().len() == 0 ==> {
                &&& chunk@ == chunk_frame(Seq::empty())
                &&& final(self).remaining_items() == old(self).remaining_items()
                &&& final(self).is_finished()
            },
            final(self).buffered() == old(self).buffered(),
            old(self).remaining_items().len() > 0 ==> encode_chunks(old(self).remaining_items())
                == chunk@ + encode_chunks(final(self).remaining_items()),
            old(self).remaining_items().len() == 0 ==> encode_chunks(old(self).remaining_items())
                == chunk@,
    {
        proof {
            use_type_invariant(&*self);
        }
        let ghost old_items = self.remaining_items();
        let mut chunk: Vec<u8> = Vec::new();
        if self.next < self.items.len() {
            let data_len = self.items[self.next].len();
            push_hex_bytes(&mut chunk, data_len as u64);
            chunk.push(13);
            chunk.push(10);
            let mut j: usize = 0;
            while j < data_len
                invariant
                    self.next < self.items@.len(),
                    data_len == self.items@[self.next as int]@.len(),
                    j <= data_len,
                    chunk@ == ascii_bytes(text::hexadecimal(data_len as nat)) + seq![13u8, 10u8]
                        + self.items@[self.next as int]@.take(j as int),
                decreases data_len - j,
            {
                chunk.push(self.items[self.next][j]);
                assert(self.items@[self.next as int]@.take(j + 1) =~= self.items@[
                    self.next as int
                ]@.take(j as int).push(self.items@[self.next as int]@[j as int]));
                j += 1;
            }
            chunk.push(13);
            chunk.push(10);
            assert(old_items[0] == self.items@[self.next as int]@);
            assert(self.items@[self.next as int]@.take(data_len as int) =~= old_items[0]);
            assert(chunk@ =~= chunk_frame(old_items[0]));
            self.next = self.next + 1;
            assert(self.remaining_items() =~= old_items.drop_first());
        } else {
            push_hex_bytes(&mut chunk, 0);
            chunk.push(13);
            chunk.push(10);
            chunk.push(13);
            chunk.push(10);
            assert(chunk@ =~= chunk_frame(Seq::empty()));
            self.finished = true;
        }
        chunk
    }

    /// Writes into the front of `write_to` what is buffered, then, when more
    /// than two bytes of room are left and the final chunk is not yet made,
    /// the next chunk (the zero-size one once the items are used up),
    /// keeping what does not fit for later. Gives how many bytes it wrote.
    #[verifier::rlimit(60)]
    pub fn read(&mut self, write_to: &mut Vec<u8>) -> (written: usize)
        ensures
            written <= old(write_to)@.len(),
            final(write_to)@.len() == old(write_to)@.len(),
            final(write_to)@.take(written as int) + final(self).pending() == old(self).pending(),
            final(write_to)@.skip(written as int) == old(write_to)@.skip(written as int),
            ({
                let d = min(old(self).buffered().len() as int, old(write_to)@.len() as int);
                let takes = old(write_to)@.len() - d > 2 && !old(self).is_finished();
                let frame = if old(self).remaining_items().len() > 0 {
                    chunk_frame(old(self).remaining_items()[0])
                } else {
                    chunk_frame(Seq::empty())
                };
                &&& written == d + (if takes {
                    min(frame.len() as int, old(write_to)@.len() - d)
                } else {
                    0
                })
                &&& final(self).is_finished() == (old(self).is_finished() || (takes
                    && old(self).remaining_items().len() == 0))
                &&& final(self).remaining_items() == if takes && old(
                    self,
                ).remaining_items().len() > 0 {
                    old(self).remaining_items().drop_first()
                } else {
                    old(self).remaining_items()
                }
                &&& final(self).buffered() == if takes {
                    frame.skip(min(frame.len() as int, old(write_to)@.len() - d))
                } else {
                    old(self).buffered().skip(d)
                }
            }),
            old(write_to)@.len() > 2 ==> (written == 0 <==> old(self).pending().len() == 0),
    {
        proof {
            use_type_invariant(&*self);
        }
        let ghost old_pending = self.pending();
        let ghost old_items = self.remaining_items();
        let cap = write_to.len();
        let blen = self.buf.len();
        let to_remove = if blen < cap {
            blen
        } else {
            cap
        };
        copy_into(write_to, 0, &self.buf, to_remove);
        self.buf = tail(&self.buf, to_remove);
        let mut written = to_remove;
        assert(write_to@.take(written as int) + self.pending() =~= old_pending);
        let remaining = cap - written;
        if remaining > 2 && !self.finished {
            let ghost before = write_to@;
            let ghost pending_before = self.pending();
            let chunk = self.next_chunk();
            proof {
                use_type_invariant(&*self);
            }
            let clen = chunk.len();
            let take = if clen < remaining {
                clen
            } else {
                remaining
            };
            copy_into(write_to, written, &chunk, take);
            self.buf = tail(&chunk, take);
            assert(write_to@.take(written as int) =~= before.take(written as int));
            assert(write_to@.take((written + take) as int) =~= before.take(written as int)
                + chunk@.take(take as int));
            written = written + take;
            assert(write_to@.take(written as int) + self.pending() =~= old_pending);
        }
        written
    }
}

/// Copies `src[..n]` into `dst[at..at + n]`.
fn copy_into(dst: &mut Vec<u8>, at: usize, src: &Vec<u8>, n: usize)
    requires
        n <= src@.len(),
        at + n <= old(dst)@.len(),
    ensures
        final(dst)@ == old(dst)@.take(at as int) + src@.take(n as int) + old(dst)@.skip(at + n),
{
    let dlen = dst.len();
    let mut k: usize = 0;
    while k < n
        invariant
            k <= n <= src@.len(),
            at + n <= dst@.len() == dlen,
            dst@.len() == old(dst)@.len(),
            forall|j: int| 0 <= j < at ==> dst@[j] == old(dst)@[j],
            forall|j: int| 0 <= j < k ==> dst@[at + j] == src@[j],
            forall|j: int| at + k <= j < dst@.len() ==> dst@[j] == old(dst)@[j],
        decreases n - k,
    {
        dst.set(at + k, src[k]);
        k += 1;
    }
    assert(dst@ =~= old(dst)@.take(at as int) + src@.take(n as int) + old(dst)@.skip(at + n));
}

/// The bytes of `v` from `from` on.
fn tail(v: &Vec<u8>, from: usize) -> (r: Vec<u8>)
    requires
        from <= v@.len(),
    ensures
        r@ == v@.skip(from as int),
{
    let mut r: Vec<u8> = Vec::new();
    let mut i = from;
    while i < v.len()
        invariant
            from <= i <= v@.len(),
            r@ == v@.subrange(from as int, i as int),
        decreases v@.len() - i,
    {
        r.push(v[i]);
        assert(r@ =~= v@.subrange(from as int, i + 1));
        i += 1;
    }
    r
}

} // verus!

verus! {

/// Whether `c` is a digit that `{:x}` writes.
pub open spec fn is_lower_hex_digit(c: char) -> bool {
    ('0' <= c && c <= '9') || ('a' <= c && c <= 'f')
}

proof fn lemma_hexadecimal_digits(n: nat)
    ensures
        text::hexadecimal(n).len() > 0,
        forall|i: int|
            0 <= i < text::hexadecimal(n).len() ==> #[trigger] is_lower_hex_digit(
                text::hexadecimal(n)[i],
            ),
        text::all_digits(text::hexadecimal(n), 16),
        text::digits_value(text::hexadecimal(n), 16) == n,
    decreases n,
{
    let h = text::hexadecimal(n);
    let d = n % 16;
    let c = text::hex_digit(d);
    if d < 10 {
        assert(c as int == 48 + d);
    } else {
        assert(c as int == 97 + d - 10);
    }
    assert(text::digit_value(c, 16) == Some(d as int));
    assert(is_lower_hex_digit(c));
    if n < 16 {
        assert(h.drop_last() =~= Seq::<char>::empty());
        assert(h.last() == c);
        assert(text::digits_value(h.drop_last(), 16) == 0);
        assert(text::digits_value(h, 16) == text::digits_value(h.drop_last(), 16) * 16 + d);
    } else {
        lemma_hexadecimal_digits(n / 16);
        let p = text::hexadecimal(n / 16);
        assert(h.drop_last() =~= p);
        assert forall|i: int| 0 <= i < h.len() implies #[trigger] is_lower_hex_digit(h[i]) by {
            if i < p.len() {
                assert(h[i] == p[i]);
            }
        }
        assert forall|i: int| 0 <= i < h.len() implies (#[trigger] text::digit_value(h[i], 16)) is Some by {
            if i < p.len() {
                assert(h[i] == p[i]);
            }
        }
        assert(h.last() == c);
        assert((n / 16) * 16 + d == n);
        assert(text::digits_value(h, 16) == text::digits_value(p, 16) * 16 + d);
    }
}

proof fn lemma_hex_parse(n: nat)
    requires
        n <= u64::MAX,
    ensures
        text::parse_unsigned(text::hexadecimal(n), 16, u64::MAX as int) == Some(n as int),
{
    lemma_hexadecimal_digits(n);
    let h = text::hexadecimal(n);
    assert(is_lower_hex_digit(h[0]));
}

/// The size line of a chunk is read back as the chunk's length, and what
/// follows it is the data and its `\r\n`.
proof fn lemma_frame_header(data: Seq<u8>, tail: Seq<u8>)
    requires
        data.len() <= u64::MAX,
    ensures
        ({
            let s = chunk_frame(data) + tail;
            let l = line_length(s);
            &&& 0 <= l <= s.len()
            &&& chunk_size(s.take(l)) == Some(data.len() as int)
            &&& s.skip(l) == data + seq![13u8, 10u8] + tail
        }),
{
    let h = text::hexadecimal(data.len());
    lemma_hexadecimal_digits(data.len());
    let hb = ascii_bytes(h);
    let s = chunk_frame(data) + tail;
    let k: int = (h.len() + 1) as int;
    assert forall|j: int| 0 <= j < k implies s[j] != 10u8 by {
        if j < h.len() {
            assert(is_lower_hex_digit(h[j]));
            assert(s[j] == h[j] as u8);
        } else {
            assert(s[j] == 13u8);
        }
    }
    assert(s[k] == 10u8);
    text::lemma_index_of_is(s, 10u8, k);
    let l = line_length(s);
    assert(l == h.len() + 2);
    let cs = h + seq!['\r', '\n'];
    assert(vstd::utf8::is_ascii_chars(cs)) by {
        assert forall|i: int| 0 <= i < cs.len() implies '\0' <= #[trigger] cs[i] <= '\u{7f}' by {
            if i < h.len() {
                assert(is_lower_hex_digit(h[i]));
            }
        }
    }
    vstd::utf8::is_ascii_chars_encode_utf8(cs);
    assert(s.take(l) =~= vstd::utf8::encode_utf8(cs)) by {
        assert forall|i: int| 0 <= i < l implies s.take(l)[i] == vstd::utf8::encode_utf8(cs)[i] by {
            assert(cs[i] as u8 == vstd::utf8::encode_utf8(cs)[i]);
            if i < h.len() {
                assert(s[i] == h[i] as u8);
            }
        }
    }
    vstd::utf8::encode_utf8_valid_utf8(cs);
    vstd::utf8::encode_utf8_decode_utf8(cs);
    assert(cs.drop_last() =~= h + seq!['\r']);
    assert((h + seq!['\r']).drop_last() =~= h);
    assert(is_lower_hex_digit(h.last()));
    assert(text::is_white_space('\n'));
    assert(text::is_white_space('\r'));
    let hl = h.last();
    assert(is_lower_hex_digit(hl));
    assert(!text::is_white_space(hl));
    assert(text::trim_end(h) == h);
    assert(text::trim_end(h + seq!['\r']) == text::trim_end(h));
    assert(text::trim_end(cs) == text::trim_end(h + seq!['\r']));
    lemma_hex_parse(data.len());
    assert(s.skip(l) =~= data + seq![13u8, 10u8] + tail);
}

/// Decoding what the encoder hands out gives the items back, joined: the
/// body ends at the zero-size chunk with its final `\r\n` left unread.
pub proof fn lemma_chunked_round_trip(items: Seq<Seq<u8>>)
    requires
        forall|i: int| 0 <= i < items.len() ==> 0 < (#[trigger] items[i]).len() <= usize::MAX,
    ensures
        drain(encode_chunks(items), 0) == (
            concat_items(items),
            None::<ChunkError>,
            seq![13u8, 10u8],
            0int,
        ),
    decreases items.len(),
{
    let s = encode_chunks(items);
    if items.len() == 0 {
        lemma_frame_header(Seq::empty(), Seq::empty());
        let l = line_length(s);
        assert(s.skip(l) =~= seq![13u8, 10u8]);
        assert(concat_items(items) =~= Seq::<u8>::empty());
    } else {
        let x = items[0];
        let tail = encode_chunks(items.drop_first());
        assert(s == chunk_frame(x) + tail);
        lemma_frame_header(x, tail);
        let l = line_length(s);
        let after = s.skip(l);
        assert(after.take(x.len() as int) =~= x);
        assert(after.skip(x.len() as int) =~= seq![13u8, 10u8] + tail);
        assert((seq![13u8, 10u8] + tail).skip(2) =~= tail);
        assert forall|i: int| 0 <= i < items.drop_first().len() implies 0 < (
        #[trigger] items.drop_first()[i]).len() <= usize::MAX by {
            assert(items.drop_first()[i] == items[i + 1]);
        }
        lemma_chunked_round_trip(items.drop_first());
        assert(read_step(s, 0, s.len() as int) == (x, None::<ChunkError>, tail, 0int));
    }
}

/// Whether `rest`, the start of a chunked body, holds it up to the size line
/// of its zero-size chunk, or up to an error that more bytes cannot undo:
/// every size line read is ended by a line feed, and every chunk before the
/// last is there whole with the two bytes after it.
pub open spec fn chunked_complete(rest: Seq<u8>) -> bool
    decreases rest.len(),
{
    let k = text::index_of(rest, 10u8);
    if k >= rest.len() {
        false
    } else {
        proof {
            text::lemma_index_of(rest, 10u8);
        }
        let l = k + 1;
        match chunk_size(rest.take(l)) {
            None => true,
            Some(n) => if n <= 0 {
                true
            } else {
                let m = min(n, usize::MAX as int);
                let after = rest.skip(l);
                if after.len() < m + 2 {
                    false
                } else if after[m] == 13u8 && after[m + 1] == 10u8 {
                    chunked_complete(after.skip(m + 2))
                } else {
                    true
                }
            },
        }
    }
}

/// Whether `bytes`, the start of a chunked body, already hold all of it that
/// a reader takes (see `chunked_complete`).
pub fn is_chunked_body_complete(bytes: &Vec<u8>) -> (b: bool)
    ensures
        b == chunked_complete(bytes@),
{
    let n = bytes.len();
    let mut pos: usize = 0;
    assert(bytes@.subrange(0, n as int) =~= bytes@);
    loop
        invariant
            pos <= n == bytes@.len(),
            chunked_complete(bytes@) == chunked_complete(bytes@.subrange(pos as int, n as int)),
        decreases n - pos,
    {
        let ghost rest = bytes@.subrange(pos as int, n as int);
        let k = text::find_byte(bytes, pos, n, 10u8);
        if pos + k == n {
            return false;
        }
        let (l, size) = size_line_at(bytes, pos);
        proof {
            text::lemma_index_of(rest, 10u8);
        }
        assert(l == k + 1);
        match size {
            None => {
                return true;
            },
            Some(c) => {
                if c == 0 {
                    return true;
                }
                let m: usize = if c > usize::MAX as u64 {
                    usize::MAX
                } else {
                    c as usize
                };
                let after = pos + l;
                let avail = n - after;
                if avail < 2 || avail - 2 < m {
                    return false;
                }
                let ghost a = rest.skip(l as int);
                assert(a[m as int] == bytes@[after + m]);
                assert(a[m + 1] == bytes@[after + m + 1]);
                if bytes[after + m] == 13u8 && bytes[after + m + 1] == 10u8 {
                    assert(a.skip(m + 2) =~= bytes@.subrange(after + m + 2, n as int));
                    pos = after + m + 2;
                } else {
                    return true;
                }
            },
        }
    }
}

/// The line length of a text whose first line ends with a line feed stays
/// the same when more bytes follow.
proof fn lemma_line_length_concat(s: Seq<u8>, t: Seq<u8>)
    requires
        text::index_of(s, 10u8) < s.len(),
    ensures
        line_length(s + t) == line_length(s),
        (s + t).take(line_length(s)) == s.take(line_length(s)),
        (s + t).skip(line_length(s)) == s.skip(line_length(s)) + t,
{
    text::lemma_index_of(s, 10u8);
    let k = text::index_of(s, 10u8);
    assert forall|j: int| 0 <= j < k implies (s + t)[j] != 10u8 by {
        assert((s + t)[j] == s[j]);
    }
    text::lemma_index_of_is(s + t, 10u8, k);
    assert((s + t).take(k + 1) =~= s.take(k + 1));
    assert((s + t).skip(k + 1) =~= s.skip(k + 1) + t);
}

/// Bytes that follow a complete chunked body change nothing of what reading
/// it to the end gives: the same data and the same error, if any.
pub proof fn lemma_complete_body_is_stable(s: Seq<u8>, t: Seq<u8>)
    requires
        chunked_complete(s),
    ensures
        drain(s + t, 0).0 == drain(s, 0).0,
        drain(s + t, 0).1 == drain(s, 0).1,
    decreases s.len(),
{
    text::lemma_index_of(s, 10u8);
    lemma_line_length_concat(s, t);
    let l = line_length(s);
    let u = s + t;
    assert(l == text::index_of(s, 10u8) + 1);
    match chunk_size(s.take(l)) {
        None => {
            assert(read_step(s, 0, s.len() as int).1 == Some(ChunkError::InvalidData));
            assert(read_step(u, 0, u.len() as int).1 == Some(ChunkError::InvalidData));
        },
        Some(n) => {
            if n == 0 {
                assert(read_step(s, 0, s.len() as int).0.len() == 0);
                assert(read_step(u, 0, u.len() as int).0.len() == 0);
                assert(read_step(s, 0, s.len() as int).1 is None);
                assert(read_step(u, 0, u.len() as int).1 is None);
            } else {
                text::lemma_parse_unsigned_nonneg(
                    text::trim_end(vstd::utf8::decode_utf8(s.take(l))),
                    16,
                    u64::MAX as int,
                );
                let m = min(n, usize::MAX as int);
                let a = s.skip(l);
                assert(u.skip(l) == a + t);
                assert((a + t).take(m) =~= a.take(m));
                assert((a + t).skip(m)[0] == a[m]);
                assert((a + t).skip(m)[1] == a[m + 1]);
                assert(a.skip(m)[0] == a[m]);
                assert(a.skip(m)[1] == a[m + 1]);
                let rs = read_step(s, 0, s.len() as int);
                let ru = read_step(u, 0, u.len() as int);
                assert(rs.0 == a.take(m));
                assert(ru.0 == a.take(m));
                assert(rs.1 == ru.1);
                if a[m] == 13u8 && a[m + 1] == 10u8 {
                    assert((a + t).skip(m).skip(2) =~= a.skip(m + 2) + t);
                    assert(a.skip(m).skip(2) =~= a.skip(m + 2));
                    assert(rs.2 == a.skip(m + 2));
                    assert(ru.2 == a.skip(m + 2) + t);
                    assert(rs.0.len() > 0);
                    lemma_complete_body_is_stable(a.skip(m + 2), t);
                }
            }
        },
    }
}

/// The encoder and the decoder agree: when the reads of a `ChunkedIterator`
/// made from `items` have handed out `out` and nothing is left pending
/// (`ChunkedIterator::new` starts with the encoding pending, and each
/// `read` moves bytes from what is pending to its output), reading `out`
/// with a `ChunkedReader` to the end gives the items joined, stopping at the
/// final chunk with its last `\r\n` unread.
pub proof fn lemma_iterator_output_decodes(items: Seq<Seq<u8>>, out: Seq<u8>, it: ChunkedIterator)
    requires
        forall|i: int| 0 <= i < items.len() ==> 0 < (#[trigger] items[i]).len() <= usize::MAX,
        out + it.pending() == encode_chunks(items),
        it.pending().len() == 0,
    ensures
        drain(out, 0) == (concat_items(items), None::<ChunkError>, seq![13u8, 10u8], 0int),
{
    assert(out + it.pending() =~= out);
    lemma_chunked_round_trip(items);
}

} // verus!
