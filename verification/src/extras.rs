use vstd::prelude::*;

use crate::http::headers::{
    ends_line, free_of, header_line, keyed_lines, lemma_get_after_append,
    lemma_get_other_after_append, lookup, Headers,
};
use crate::http::message::{Method, Request};
use crate::http::status::ResponseCode;
use crate::text;

verus! {

broadcast use vstd::string::group_string_axioms;

/// The host and path of a URL (with or without `https://`): the path starts
/// at the first slash, which it keeps; `None` when there is no slash.
pub open spec fn url_parts(url: Seq<char>) -> Option<(Seq<char>, Seq<char>)> {
    let u = if url.len() >= 8 && url.take(8) == "https://"@ {
        url.skip(8)
    } else {
        url
    };
    let k = text::index_of(u, '/');
    if k < u.len() {
        Some((u.take(k), u.skip(k)))
    } else {
        None
    }
}

/// The request that fetches `url`: `GET` with `Host` and `User-Agent`
/// headers and an empty body; `None` when the URL has no path.
pub fn get_request_for_url(url: &str) -> (r: Option<Request<Vec<u8>>>)
    ensures
        r is Some <==> url_parts(url@) is Some,
        r matches Some(req) ==> {
            let (host, path) = url_parts(url@)->0;
            &&& req.method.0@ == "GET"@
            &&& req.path@ == path
            &&& req.headers@ == header_line("Host"@, host) + header_line("User-Agent"@, "mashrl"@)
            &&& req.body@ == Seq::<u8>::empty()
        },
{
    proof {
        reveal_strlit("https://");
    }
    let chars = text::chars_of(url);
    let n = chars.len();
    let start: usize = if text::starts_with_text(&chars, "https://") {
        8
    } else {
        0
    };
    let ghost u = chars@.subrange(start as int, n as int);
    assert(chars@.subrange(0, n as int) =~= url@);
    assert(u =~= (if url@.len() >= 8 && url@.take(8) == "https://"@ {
        url@.skip(8)
    } else {
        url@
    }));
    let k = text::find_char(&chars, start, n, '/');
    if start + k == n {
        return None;
    }
    let host = url.substring_char(start, start + k);
    let path = url.substring_char(start + k, n);
    assert(host@ =~= u.take(k as int));
    assert(path@ =~= u.skip(k as int));
    let mut headers = Headers::empty();
    headers.append("Host", host);
    headers.append("User-Agent", "mashrl");
    Some(Request { method: Method::get(), path: path.to_owned(), headers, body: Vec::new() })
}

/// The headers of a response that serves a file: its content type when
/// known, `Connection: close`, `Access-Control-Allow-Origin: *` when
/// `across_origin`, and its length when the file is there.
pub open spec fn file_headers_text(
    content_type: Option<Seq<char>>,
    size: Option<u64>,
    across_origin: bool,
) -> Seq<char> {
    (match content_type {
        Some(t) => header_line("Content-Type"@, t),
        None => Seq::empty(),
    }) + header_line("Connection"@, "close"@) + (if across_origin {
        header_line("Access-Control-Allow-Origin"@, "*"@)
    } else {
        Seq::empty()
    }) + (match size {
        Some(n) => header_line("Content-Length"@, text::decimal(n as nat)),
        None => Seq::empty(),
    })
}

/// The status and headers of a response that serves a file of `size` bytes
/// (`None` when it cannot be opened) with the given content type.
pub fn serve_file_head(content_type: Option<&str>, size: Option<u64>, across_origin: bool) -> (r: (
    ResponseCode,
    Headers,
))
    ensures
        r.0.0 == (if size is Some {
            200u16
        } else {
            404u16
        }),
        r.1@ == file_headers_text(
            match content_type {
                Some(t) => Some(t@),
                None => None,
            },
            size,
            across_origin,
        ),
        (content_type matches Some(t) ==> free_of(t@, '\n')) ==> {
            &&& lookup(r.1@, "Content-Type"@) == match content_type {
                Some(t) => Some(text::trim(t@)),
                None => None,
            }
            &&& lookup(r.1@, "Connection"@) == Some("close"@)
            &&& lookup(r.1@, "Access-Control-Allow-Origin"@) == if across_origin {
                Some("*"@)
            } else {
                None
            }
            &&& lookup(r.1@, "Content-Length"@) == match size {
                Some(n) => Some(text::decimal(n as nat)),
                None => None,
            }
        },
{
    let ghost ct = match content_type {
        Some(t) => Some(t@),
        None => None,
    };
    proof {
        if ct matches Some(t) ==> free_of(t, '\n') {
            lemma_file_head_headers(ct, size, across_origin);
        }
    }
    let mut headers = Headers::empty();
    if let Some(t) = content_type {
        headers.append("Content-Type", t);
    }
    headers.append("Connection", "close");
    if across_origin {
        headers.append("Access-Control-Allow-Origin", "*");
    }
    match size {
        Some(n) => {
            let mut digits = String::new();
            text::push_decimal(&mut digits, n);
            headers.append("Content-Length", digits.as_str());
            assert(headers@ =~= file_headers_text(
                match content_type {
                    Some(t) => Some(t@),
                    None => None,
                },
                size,
                across_origin,
            ));
            (ResponseCode(crate::http::status::OK), headers)
        },
        None => {
            assert(headers@ =~= file_headers_text(
                match content_type {
                    Some(t) => Some(t@),
                    None => None,
                },
                size,
                across_origin,
            ));
            (ResponseCode(crate::http::status::NOT_FOUND), headers)
        },
    }
}

/// The decimal digits of a number are one or more ASCII digits.
proof fn lemma_decimal_digits(n: nat)
    ensures
        text::decimal(n).len() > 0,
        forall|i: int| 0 <= i < text::decimal(n).len() ==> '0' <= #[trigger] text::decimal(n)[i] <= '9',
    decreases n,
{
    if n >= 10 {
        lemma_decimal_digits(n / 10);
        let p = text::decimal(n / 10);
        let d = text::decimal(n);
        assert forall|i: int| 0 <= i < d.len() implies '0' <= #[trigger] d[i] <= '9' by {
            if i < p.len() {
                assert(d[i] == p[i]);
            }
        }
    }
}

/// A text that starts and ends with no white space is its own trim.
proof fn lemma_trim_plain(s: Seq<char>)
    requires
        s.len() > 0,
        !text::is_white_space(s[0]),
        !text::is_white_space(s.last()),
    ensures
        text::trim(s) == s,
{
}

/// Appending `key: value` to keyed lines: the key reads back as the value
/// when it was missing, and the other names keep their values.
proof fn lemma_append_step(s: Seq<char>, key: Seq<char>, value: Seq<char>, others: Seq<Seq<char>>)
    requires
        keyed_lines(s),
        ends_line(s),
        free_of(key, ':'),
        free_of(key, '\n'),
        free_of(value, '\n'),
        lookup(s, key) is None,
        forall|i: int| 0 <= i < others.len() ==> (#[trigger] others[i]).len() != key.len(),
    ensures
        keyed_lines(s + header_line(key, value)),
        ends_line(s + header_line(key, value)),
        lookup(s + header_line(key, value), key) == Some(text::trim(value)),
        forall|i: int|
            0 <= i < others.len() ==> lookup(s + header_line(key, value), #[trigger] others[i])
                == lookup(s, others[i]),
{
    lemma_get_after_append(s, key, value);
    assert forall|i: int| 0 <= i < others.len() implies lookup(
        s + header_line(key, value),
        #[trigger] others[i],
    ) == lookup(s, others[i]) by {
        lemma_get_other_after_append(s, key, value, others[i]);
    }
}

/// What the head of a served file says: the content type when one is given,
/// `Connection: close`, `Access-Control-Allow-Origin: *` exactly when
/// serving across origins, and the length when the file is there.
pub proof fn lemma_file_head_headers(
    content_type: Option<Seq<char>>,
    size: Option<u64>,
    across_origin: bool,
)
    requires
        content_type matches Some(t) ==> free_of(t, '\n'),
    ensures
        ({
            let h = file_headers_text(content_type, size, across_origin);
            &&& lookup(h, "Content-Type"@) == match content_type {
                Some(t) => Some(text::trim(t)),
                None => None,
            }
            &&& lookup(h, "Connection"@) == Some("close"@)
            &&& lookup(h, "Access-Control-Allow-Origin"@) == if across_origin {
                Some("*"@)
            } else {
                None
            }
            &&& lookup(h, "Content-Length"@) == match size {
                Some(n) => Some(text::decimal(n as nat)),
                None => None,
            }
        }),
{
    reveal_strlit("Content-Type");
    reveal_strlit("Connection");
    reveal_strlit("Access-Control-Allow-Origin");
    reveal_strlit("Content-Length");
    reveal_strlit("close");
    reveal_strlit("*");
    let ct = "Content-Type"@;
    let co = "Connection"@;
    let ac = "Access-Control-Allow-Origin"@;
    let cl = "Content-Length"@;
    let empty = Seq::<char>::empty();
    assert(keyed_lines(empty));
    assert(lookup(empty, ct) is None);
    assert(lookup(empty, co) is None);
    assert(lookup(empty, ac) is None);
    assert(lookup(empty, cl) is None);
    let s0 = match content_type {
        Some(t) => header_line(ct, t),
        None => empty,
    };
    if let Some(t) = content_type {
        lemma_append_step(empty, ct, t, seq![co, ac, cl]);
        assert(empty + header_line(ct, t) =~= s0);
    }
    assert(lookup(s0, co) is None && lookup(s0, ac) is None && lookup(s0, cl) is None);
    lemma_trim_plain("close"@);
    let s1 = s0 + header_line(co, "close"@);
    lemma_append_step(s0, co, "close"@, seq![ct, ac, cl]);
    let s2 = s1 + if across_origin {
        header_line(ac, "*"@)
    } else {
        empty
    };
    if across_origin {
        lemma_append_step(s1, ac, "*"@, seq![ct, co, cl]);
        lemma_trim_plain("*"@);
    } else {
        assert(s2 =~= s1);
    }
    let h = file_headers_text(content_type, size, across_origin);
    match size {
        Some(n) => {
            lemma_decimal_digits(n as nat);
            let d = text::decimal(n as nat);
            assert(free_of(d, '\n'));
            lemma_trim_plain(d);
            lemma_append_step(s2, cl, d, seq![ct, co, ac]);
            assert(h =~= s2 + header_line(cl, d));
        },
        None => {
            assert(h =~= s2);
        },
    }
}

} // verus!
