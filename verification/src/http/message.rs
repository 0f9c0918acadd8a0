use vstd::prelude::*;

use crate::http::chunked::{
    chunked_complete, concat_items, drain, encode_chunks, is_chunked_body_complete,
    lemma_chunked_round_trip, ChunkError, ChunkedReader,
};
use crate::http::headers::{
    free_of, header_line, lemma_get_after_append, lemma_get_other_after_append, lookup, Headers,
};
use crate::http::status::ResponseCode;
use crate::text;

verus! {

broadcast use vstd::string::group_string_axioms;

/// An HTTP method, such as `GET`.
#[derive(Debug, Clone)]
pub struct Method(pub String);

impl PartialEq for Method {
    fn eq(&self, other: &Self) -> (r: bool) {
        self.0 == other.0
    }
}

impl vstd::std_specs::cmp::PartialEqSpecImpl for Method {
    open spec fn obeys_eq_spec() -> bool {
        true
    }

    open spec fn eq_spec(&self, other: &Self) -> bool {
        self.0@ == other.0@
    }
}

impl Eq for Method {}

impl Method {
    pub fn get() -> (m: Method)
        ensures
            m.0@ == "GET"@,
    {
        Method("GET".to_owned())
    }

    pub fn head() -> (m: Method)
        ensures
            m.0@ == "HEAD"@,
    {
        Method("HEAD".to_owned())
    }

    pub fn post() -> (m: Method)
        ensures
            m.0@ == "POST"@,
    {
        Method("POST".to_owned())
    }

    pub fn put() -> (m: Method)
        ensures
            m.0@ == "PUT"@,
    {
        Method("PUT".to_owned())
    }

    pub fn patch() -> (m: Method)
        ensures
            m.0@ == "PATCH"@,
    {
        Method("PATCH".to_owned())
    }

    pub fn connect() -> (m: Method)
        ensures
            m.0@ == "CONNECT"@,
    {
        Method("CONNECT".to_owned())
    }

    pub fn trace() -> (m: Method)
        ensures
            m.0@ == "TRACE"@,
    {
        Method("TRACE".to_owned())
    }
}

/// A request: method, path (the request line writes it after a `/`),
/// headers and body.
pub struct Request<B> {
    pub method: Method,
    pub path: String,
    pub headers: Headers,
    pub body: B,
}

/// A response: status code, headers and body.
pub struct Response<B> {
    pub code: ResponseCode,
    pub headers: Headers,
    pub body: B,
}

impl Request<Vec<u8>> {
    /// A `GET` request for `path` with an empty body.
    pub fn new_get(path: &str, headers: Headers) -> (r: Self)
        ensures
            r.method.0@ == "GET"@,
            r.path@ == path@,
            r.headers@ == headers@,
            r.body@ == Seq::<u8>::empty(),
    {
        Request { method: Method::get(), headers, path: path.to_owned(), body: Vec::new() }
    }
}

/// The raw body of a response, before any transfer or content coding is
/// undone.
pub struct Body<B>(pub B);

impl<B> Body<B> {
    pub fn new(reader: B) -> (b: Self)
        ensures
            b.0 == reader,
    {
        Body(reader)
    }

    pub fn raw(self) -> (reader: B)
        ensures
            reader == self.0,
    {
        self.0
    }
}

/// A body with the codings that undo it, innermost first.
pub enum ResponseBody {
    Base(Vec<u8>),
    Chunked(Box<ResponseBody>),
    Gzipped(Box<ResponseBody>),
}

/// Why decoding a body failed.
#[derive(PartialEq, Eq, Clone, Copy, Debug, Structural)]
pub enum BodyError {
    Chunked(ChunkError),
    Gzip,
}

/// What gzip decompression (`flate2::read::GzDecoder`, read to the end)
/// makes of `data`; `None` when it fails.
pub uninterp spec fn gunzip(data: Seq<u8>) -> Option<Seq<u8>>;

/// Decompresses gzip data with `flate2::read::GzDecoder`, reading it to the
/// end; `None` when the decoder reports an error, the output read before it
/// being dropped. The contract claims only that the result is `gunzip` of
/// the input: the same bytes always decode the same way. What `gunzip` is
/// on given bytes is left unstated.
#[verifier::external_body]
fn gzip_decode(data: &[u8]) -> (r: Option<Vec<u8>>)
    ensures
        r is Some <==> gunzip(data@) is Some,
        r matches Some(v) ==> gunzip(data@) == Some(v@),
{
    let mut decoder = flate2::read::GzDecoder::new(data);
    let mut out = Vec::new();
    match std::io::Read::read_to_end(&mut decoder, &mut out) {
        Ok(_) => Some(out),
        Err(_) => None,
    }
}

/// The bytes a body gives once its codings are undone, innermost first.
pub open spec fn decode_body(b: ResponseBody) -> Result<Seq<u8>, BodyError>
    decreases b,
{
    match b {
        ResponseBody::Base(v) => Ok(v@),
        ResponseBody::Chunked(inner) => match decode_body(*inner) {
            Ok(bytes) => {
                let (o, e, r, t) = drain(bytes, 0);
                match e {
                    None => Ok(o),
                    Some(x) => Err(BodyError::Chunked(x)),
                }
            },
            Err(e) => Err(e),
        },
        ResponseBody::Gzipped(inner) => match decode_body(*inner) {
            Ok(bytes) => match gunzip(bytes) {
                Some(o) => Ok(o),
                None => Err(BodyError::Gzip),
            },
            Err(e) => Err(e),
        },
    }
}

/// Whether the raw bytes inside `b` already hold all that reading it takes:
/// only a chunked coding right around the raw bytes knows where the body
/// ends (at its zero-size chunk); any other body is read to the end of its
/// input.
pub open spec fn body_input_complete(b: ResponseBody) -> bool
    decreases b,
{
    match b {
        ResponseBody::Base(_) => false,
        ResponseBody::Chunked(inner) => match *inner {
            ResponseBody::Base(v) => chunked_complete(v@),
            other => body_input_complete(other),
        },
        ResponseBody::Gzipped(inner) => body_input_complete(*inner),
    }
}

/// One coding named in a header value, once trimmed: `chunked` and (when
/// `transfer`) or always `gzip` wrap the body; other names leave it be.
pub open spec fn apply_part(b: ResponseBody, part: Seq<char>, transfer: bool) -> ResponseBody {
    if transfer && part == "chunked"@ {
        ResponseBody::Chunked(Box::new(b))
    } else if part == "gzip"@ {
        ResponseBody::Gzipped(Box::new(b))
    } else {
        b
    }
}

/// The codings of a comma-separated header value applied in order.
pub open spec fn apply_codings(b: ResponseBody, s: Seq<char>, transfer: bool) -> ResponseBody
    decreases s.len(),
{
    let i = text::index_of(s, ',');
    if i < s.len() {
        proof {
            text::lemma_index_of(s, ',');
        }
        apply_codings(apply_part(b, text::trim(s.take(i)), transfer), s.skip(i + 1), transfer)
    } else {
        apply_part(b, text::trim(s), transfer)
    }
}

/// The reader that `get_reader` builds: the transfer codings, then the
/// content codings.
pub open spec fn reader_for(body: Vec<u8>, h: Seq<char>) -> ResponseBody {
    let b0 = ResponseBody::Base(body);
    let b1 = match lookup(h, "Transfer-Encoding"@) {
        Some(v) => apply_codings(b0, v, true),
        None => b0,
    };
    match lookup(h, "Content-Encoding"@) {
        Some(v) => apply_codings(b1, v, false),
        None => b1,
    }
}

fn apply_value(base: ResponseBody, value: &str, transfer: bool) -> (r: ResponseBody)
    ensures
        r == apply_codings(base, value@, transfer),
{
    proof {
        reveal_strlit("chunked");
        reveal_strlit("gzip");
    }
    let chars = text::chars_of(value);
    let n = chars.len();
    let ghost target = apply_codings(base, value@, transfer);
    let mut b = base;
    let mut pos: usize = 0;
    assert(chars@.subrange(0, n as int) =~= value@);
    loop
        invariant
            pos <= n == chars@.len(),
            apply_codings(b, chars@.subrange(pos as int, n as int), transfer) == target,
            target == apply_codings(base, value@, transfer),
        decreases n - pos,
    {
        let ghost sub = chars@.subrange(pos as int, n as int);
        let k = text::find_char(&chars, pos, n, ',');
        let end = pos + k;
        let (lo, hi) = text::trim_at(&chars, pos, end);
        let ghost b_prev = b;
        assert(sub.take(k as int) =~= chars@.subrange(pos as int, end as int));
        assert(end == n ==> sub =~= chars@.subrange(pos as int, end as int));
        assert(end < n ==> sub.skip(k + 1) =~= chars@.subrange(end + 1, n as int));
        if transfer && text::is_text_at(&chars, lo, hi, "chunked") {
            b = ResponseBody::Chunked(Box::new(b));
        } else if text::is_text_at(&chars, lo, hi, "gzip") {
            b = ResponseBody::Gzipped(Box::new(b));
        }
        assert(b == apply_part(b_prev, chars@.subrange(lo as int, hi as int), transfer));
        if end < n {
            pos = end + 1;
        } else {
            assert(apply_codings(b_prev, sub, transfer) == apply_part(b_prev, text::trim(sub), transfer));
            assert(text::trim(sub) == chars@.subrange(lo as int, hi as int));
            assert(b == target);
            return b;
        }
    }
}

impl Body<Vec<u8>> {
    /// The reader that undoes the body's codings: each `chunked` and `gzip`
    /// named in `Transfer-Encoding`, then each `gzip` named in
    /// `Content-Encoding`, in the order they are named; other names are
    /// ignored.
    pub fn get_reader(self, headers: &Headers) -> (r: ResponseBody)
        ensures
            r == reader_for(self.0, headers@),
    {
        let mut reader = ResponseBody::Base(self.0);
        if let Some(transfer_encoding) = headers.get("Transfer-Encoding") {
            reader = apply_value(reader, transfer_encoding, true);
        }
        if let Some(content_encoding) = headers.get("Content-Encoding") {
            reader = apply_value(reader, content_encoding, false);
        }
        reader
    }
}

impl ResponseBody {
    /// The reader inside the outermost coding; a base reader is its own.
    pub fn into_inner(self) -> (r: Self)
        ensures
            r == match self {
                ResponseBody::Base(_) => self,
                ResponseBody::Chunked(inner) => *inner,
                ResponseBody::Gzipped(inner) => *inner,
            },
    {
        match self {
            ResponseBody::Base(v) => ResponseBody::Base(v),
            ResponseBody::Chunked(inner) => *inner,
            ResponseBody::Gzipped(inner) => *inner,
        }
    }

    /// Whether the raw bytes inside already hold all that reading takes, so
    /// that no more input need be waited for (see `body_input_complete`).
    pub fn input_complete(&self) -> (b: bool)
        ensures
            b == body_input_complete(*self),
        decreases *self,
    {
        match self {
            ResponseBody::Base(_) => false,
            ResponseBody::Chunked(inner) => match &**inner {
                ResponseBody::Base(v) => is_chunked_body_complete(v),
                other => other.input_complete(),
            },
            ResponseBody::Gzipped(inner) => (&**inner).input_complete(),
        }
    }

    /// The bytes of the body once its codings are undone.
    pub fn decode(self) -> (r: Result<Vec<u8>, BodyError>)
        ensures
            r is Ok <==> decode_body(self) is Ok,
            r matches Ok(v) ==> decode_body(self) == Ok::<Seq<u8>, BodyError>(v@),
            r matches Err(e) ==> decode_body(self) == Err::<Seq<u8>, BodyError>(e),
        decreases self,
    {
        match self {
            ResponseBody::Base(v) => Ok(v),
            ResponseBody::Chunked(inner) => {
                let bytes = (*inner).decode()?;
                let mut reader = ChunkedReader::new(bytes);
                let mut out: Vec<u8> = Vec::new();
                match reader.read_to_end(&mut out) {
                    Ok(_) => {
                        assert(out@ =~= Seq::<u8>::empty() + out@);
                        Ok(out)
                    },
                    Err(e) => Err(BodyError::Chunked(e)),
                }
            },
            ResponseBody::Gzipped(inner) => {
                let bytes = (*inner).decode()?;
                match gzip_decode(bytes.as_slice()) {
                    Some(out) => Ok(out),
                    None => Err(BodyError::Gzip),
                }
            },
        }
    }
}

/// A body that the chunked encoder wrote, sent with the one header
/// `Transfer-Encoding: chunked`, reads back through `get_reader` as the
/// items joined.
pub proof fn lemma_chunked_body_round_trip(items: Seq<Seq<u8>>, body: Vec<u8>)
    requires
        forall|i: int| 0 <= i < items.len() ==> 0 < (#[trigger] items[i]).len() <= usize::MAX,
        body@ == encode_chunks(items),
    ensures
        decode_body(reader_for(body, header_line("Transfer-Encoding"@, "chunked"@)))
            == Ok::<Seq<u8>, BodyError>(concat_items(items)),
{
    reveal_strlit("Transfer-Encoding");
    reveal_strlit("Content-Encoding");
    reveal_strlit("chunked");
    let key = "Transfer-Encoding"@;
    let value = "chunked"@;
    let h = header_line(key, value);
    let empty = Seq::<char>::empty();
    assert(empty + h =~= h);
    lemma_get_after_append(empty, key, value);
    lemma_get_other_after_append(empty, key, value, "Content-Encoding"@);
    assert(text::trim_start(value) == value);
    assert(text::trim_end(value) == value);
    assert(lookup(h, key) == Some(value));
    assert(lookup(h, "Content-Encoding"@) is None);
    text::lemma_index_of_is(value, ',', 7);
    let b0 = ResponseBody::Base(body);
    assert(apply_codings(b0, value, true) == ResponseBody::Chunked(Box::new(b0)));
    assert(reader_for(body, h) == ResponseBody::Chunked(Box::new(b0)));
    assert(decode_body(b0) == Ok::<Seq<u8>, BodyError>(body@));
    lemma_chunked_round_trip(items);
}

} // verus!
