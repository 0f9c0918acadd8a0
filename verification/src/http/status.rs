use vstd::prelude::*;

use crate::text;

verus! {

broadcast use vstd::string::group_string_axioms;

/// An HTTP response status code.
#[derive(PartialEq, Eq, Clone, Copy, Debug, Structural)]
pub struct ResponseCode(pub u16);

/// Status code 100.
pub const CONTINUE: u16 = 100;

/// Status code 101.
pub const SWITCHING_PROTOCOLS: u16 = 101;

/// Status code 102.
pub const PROCESSING: u16 = 102;

/// Status code 103.
pub const EARLY_HINTS: u16 = 103;

/// Status code 200.
pub const OK: u16 = 200;

/// Status code 201.
pub const CREATED: u16 = 201;

/// Status code 202.
pub const ACCEPTED: u16 = 202;

/// Status code 203.
pub const NON_AUTHORITATIVE_INFORMATION: u16 = 203;

/// Status code 204.
pub const NO_CONTENT: u16 = 204;

/// Status code 205.
pub const RESET_CONTENT: u16 = 205;

/// Status code 206.
pub const PARTIAL_CONTENT: u16 = 206;

/// Status code 207.
pub const MULTI_STATUS: u16 = 207;

/// Status code 208.
pub const ALREADY_REPORTED: u16 = 208;

/// Status code 226.
pub const IM_USED: u16 = 226;

/// Status code 300.
pub const MULTIPLE_CHOICES: u16 = 300;

/// Status code 301.
pub const MOVED_PERMANENTLY: u16 = 301;

/// Status code 302.
pub const FOUND: u16 = 302;

/// Status code 303.
pub const SEE_OTHER: u16 = 303;

/// Status code 304.
pub const NOT_MODIFIED: u16 = 304;

/// Status code 307.
pub const TEMPORARY_REDIRECT: u16 = 307;

/// Status code 308.
pub const PERMANENT_REDIRECT: u16 = 308;

/// Status code 400.
pub const BAD_REQUEST: u16 = 400;

/// Status code 401.
pub const UNAUTHORIZED: u16 = 401;

/// Status code 402.
pub const PAYMENT_REQUIRED: u16 = 402;

/// Status code 403.
pub const FORBIDDEN: u16 = 403;

/// Status code 404.
pub const NOT_FOUND: u16 = 404;

/// Status code 405.
pub const METHOD_NOT_ALLOWED: u16 = 405;

/// Status code 406.
pub const NOT_ACCEPTABLE: u16 = 406;

/// Status code 407.
pub const PROXY_AUTHENTICATION_REQUIRED: u16 = 407;

/// Status code 408.
pub const REQUEST_TIMEOUT: u16 = 408;

/// Status code 409.
pub const CONFLICT: u16 = 409;

/// Status code 410.
pub const GONE: u16 = 410;

/// Status code 411.
pub const LENGTH_REQUIRED: u16 = 411;

/// Status code 412.
pub const PRECONDITION_FAILED: u16 = 412;

/// Status code 413.
pub const CONTENT_TOO_LARGE: u16 = 413;

/// Status code 414.
pub const URI_TOO_LONG: u16 = 414;

/// Status code 415.
pub const UNSUPPORTED_MEDIA_TYPE: u16 = 415;

/// Status code 416.
pub const RANGE_NOT_SATISFIABLE: u16 = 416;

/// Status code 417.
pub const EXPECTATION_FAILED: u16 = 417;

/// Status code 418.
pub const IM_A_TEAPOT: u16 = 418;

/// Status code 421.
pub const MISDIRECTED_REQUEST: u16 = 421;

/// Status code 422.
pub const UNPROCESSABLE_CONTENT: u16 = 422;

/// Status code 423.
pub const LOCKED: u16 = 423;

/// Status code 424.
pub const FAILED_DEPENDENCY: u16 = 424;

/// Status code 425.
pub const TOO_EARLY: u16 = 425;

/// Status code 426.
pub const UPGRADE_REQUIRED: u16 = 426;

/// Status code 428.
pub const PRECONDITION_REQUIRED: u16 = 428;

/// Status code 429.
pub const TOO_MANY_REQUESTS: u16 = 429;

/// Status code 431.
pub const REQUEST_HEADER_FIELDS_TOO_LARGE: u16 = 431;

/// Status code 451.
pub const UNAVAILABLE_FOR_LEGAL_REASONS: u16 = 451;

/// Status code 500.
pub const INTERNAL_SERVER_ERROR: u16 = 500;

/// Status code 501.
pub const NOT_IMPLEMENTED: u16 = 501;

/// Status code 502.
pub const BAD_GATEWAY: u16 = 502;

/// Status code 503.
pub const SERVICE_UNAVAILABLE: u16 = 503;

/// Status code 504.
pub const GATEWAY_TIMEOUT: u16 = 504;

/// Status code 505.
pub const HTTP_VERSION_NOT_SUPPORTED: u16 = 505;

/// Status code 506.
pub const VARIANT_ALSO_NEGOTIATES: u16 = 506;

/// Status code 507.
pub const INSUFFICIENT_STORAGE: u16 = 507;

/// Status code 508.
pub const LOOP_DETECTED: u16 = 508;

/// Status code 510.
pub const NOT_EXTENDED: u16 = 510;

/// Status code 511.
pub const NETWORK_AUTHENTICATION_REQUIRED: u16 = 511;

/// The status line text (`code reason`) of a code that has a standard
/// reason phrase.
pub open spec fn status_text(code: u16) -> Option<Seq<char>> {
    match code {
        100 => Some("100 Continue"@),
        101 => Some("101 Switching Protocols"@),
        102 => Some("102 Processing"@),
        103 => Some("103 Early Hints"@),
        200 => Some("200 OK"@),
        201 => Some("201 Created"@),
        202 => Some("202 Accepted"@),
        203 => Some("203 Non-Authoritative Information"@),
        204 => Some("204 No Content"@),
        205 => Some("205 Reset Content"@),
        206 => Some("206 Partial Content"@),
        207 => Some("207 Multi-Status"@),
        208 => Some("208 Already Reported"@),
        226 => Some("226 IM Used"@),
        300 => Some("300 Multiple Choices"@),
        301 => Some("301 Moved Permanently"@),
        302 => Some("302 Found"@),
        303 => Some("303 See Other"@),
        304 => Some("304 Not Modified"@),
        307 => Some("307 Temporary Redirect"@),
        308 => Some("308 Permanent Redirect"@),
        400 => Some("400 Bad Request"@),
        401 => Some("401 Unauthorized"@),
        402 => Some("402 Payment Required"@),
        403 => Some("403 Forbidden"@),
        404 => Some("404 Not Found"@),
        405 => Some("405 Method Not Allowed"@),
        406 => Some("406 Not Acceptable"@),
        407 => Some("407 Proxy Authentication Required"@),
        408 => Some("408 Request Timeout"@),
        409 => Some("409 Conflict"@),
        410 => Some("410 Gone"@),
        411 => Some("411 Length Required"@),
        412 => Some("412 Precondition Failed"@),
        413 => Some("413 Content Too Large"@),
        414 => Some("414 URI Too Long"@),
        415 => Some("415 Unsupported Media Type"@),
        416 => Some("416 Range Not Satisfiable"@),
        417 => Some("417 Expectation Failed"@),
        418 => Some("418 I'm a teapot"@),
        421 => Some("421 Misdirected Request"@),
        422 => Some("422 Unprocessable Content"@),
        423 => Some("423 Locked"@),
        424 => Some("424 Failed Dependency"@),
        425 => Some("425 Too Early"@),
        426 => Some("426 Upgrade Required"@),
        428 => Some("428 Precondition Required"@),
        429 => Some("429 Too Many Requests"@),
        431 => Some("431 Request Header Fields Too Large"@),
        451 => Some("451 Unavailable For Legal Reasons"@),
        500 => Some("500 Internal Server Error"@),
        501 => Some("501 Not Implemented"@),
        502 => Some("502 Bad Gateway"@),
        503 => Some("503 Service Unavailable"@),
        504 => Some("504 Gateway Timeout"@),
        505 => Some("505 HTTP Version Not Supported"@),
        506 => Some("506 Variant Also Negotiates"@),
        507 => Some("507 Insufficient Storage"@),
        508 => Some("508 Loop Detected"@),
        510 => Some("510 Not Extended"@),
        511 => Some("511 Network Authentication Required"@),
        _ => None,
    }
}

/// The code written by the first three characters of `item` when they are
/// decimal digits followed by a space.
pub open spec fn leading_code(item: Seq<char>) -> Option<u16> {
    if item.len() >= 4 && '0' <= item[0] <= '9' && '0' <= item[1] <= '9' && '0' <= item[2] <= '9'
        && item[3] == ' ' {
        Some(
            (((item[0] as int) - 48) * 100 + ((item[1] as int) - 48) * 10 + ((item[2] as int)
                - 48)) as u16,
        )
    } else {
        None
    }
}

/// The code whose status line text is `item`, if there is one.
pub open spec fn known_code(item: Seq<char>) -> Option<u16> {
    match leading_code(item) {
        Some(c) => if status_text(c) == Some(item) {
            Some(c)
        } else {
            None
        },
        None => None,
    }
}

/// What `from_line` makes of `item`: a known status line gives its code;
/// otherwise the text before the first space, read as a `u16`, when it is a
/// code with a standard reason phrase (such as `404 Missing`). Any other
/// text is no known response code.
pub open spec fn parse_status(item: Seq<char>) -> Option<u16> {
    match known_code(item) {
        Some(c) => Some(c),
        None => {
            let k = text::index_of(item, ' ');
            if k < item.len() {
                match text::parse_unsigned(item.take(k), 10, 0xFFFF) {
                    Some(v) => if status_text(v as u16) is Some {
                        Some(v as u16)
                    } else {
                        None
                    },
                    None => None,
                }
            } else {
                None
            }
        },
    }
}

/// Whether `chars` holds exactly the characters of `lit`.
fn is_text(chars: &Vec<char>, lit: &str) -> (b: bool)
    ensures
        b == (chars@ == lit@),
{
    let other = text::chars_of(lit);
    if chars.len() != other.len() {
        return false;
    }
    let mut i: usize = 0;
    while i < chars.len()
        invariant
            i <= chars@.len() == other@.len(),
            other@ == lit@,
            forall|j: int| 0 <= j < i ==> chars@[j] == other@[j],
        decreases chars@.len() - i,
    {
        if chars[i] != other[i] {
            return false;
        }
        i += 1;
    }
    assert(chars@ =~= other@);
    true
}

impl ResponseCode {
    /// Reads a status line's text (`200 OK`). A known line gives its code;
    /// so does any other line whose text before the first space is a known
    /// response code (`404 Missing`). Text that is not a known response code
    /// is handed back as the error.
    pub fn from_line(item: &str) -> (r: Result<Self, &str>)
        ensures
            r is Ok <==> parse_status(item@) is Some,
            r matches Ok(code) ==> code.0 == parse_status(item@)->0,
            r matches Err(e) ==> e == item,
    {
        let chars = text::chars_of(item);
        if is_text(&chars, "100 Continue") {
            proof {
                reveal_strlit("100 Continue");
            }
            return Ok(ResponseCode(CONTINUE));
        }
        if is_text(&chars, "101 Switching Protocols") {
            proof {
                reveal_strlit("101 Switching Protocols");
            }
            return Ok(ResponseCode(SWITCHING_PROTOCOLS));
        }
        if is_text(&chars, "102 Processing") {
            proof {
                reveal_strlit("102 Processing");
            }
            return Ok(ResponseCode(PROCESSING));
        }
        if is_text(&chars, "103 Early Hints") {
            proof {
                reveal_strlit("103 Early Hints");
            }
            return Ok(ResponseCode(EARLY_HINTS));
        }
        if is_text(&chars, "200 OK") {
            proof {
                reveal_strlit("200 OK");
            }
            return Ok(ResponseCode(OK));
        }
        if is_text(&chars, "201 Created") {
            proof {
                reveal_strlit("201 Created");
            }
            return Ok(ResponseCode(CREATED));
        }
        if is_text(&chars, "202 Accepted") {
            proof {
                reveal_strlit("202 Accepted");
            }
            return Ok(ResponseCode(ACCEPTED));
        }
        if is_text(&chars, "203 Non-Authoritative Information") {
            proof {
                reveal_strlit("203 Non-Authoritative Information");
            }
            return Ok(ResponseCode(NON_AUTHORITATIVE_INFORMATION));
        }
        if is_text(&chars, "204 No Content") {
            proof {
                reveal_strlit("204 No Content");
            }
            return Ok(ResponseCode(NO_CONTENT));
        }
        if is_text(&chars, "205 Reset Content") {
            proof {
                reveal_strlit("205 Reset Content");
            }
            return Ok(ResponseCode(RESET_CONTENT));
        }
        if is_text(&chars, "206 Partial Content") {
            proof {
                reveal_strlit("206 Partial Content");
            }
            return Ok(ResponseCode(PARTIAL_CONTENT));
        }
        if is_text(&chars, "207 Multi-Status") {
            proof {
                reveal_strlit("207 Multi-Status");
            }
            return Ok(ResponseCode(MULTI_STATUS));
        }
        if is_text(&chars, "208 Already Reported") {
            proof {
                reveal_strlit("208 Already Reported");
            }
            return Ok(ResponseCode(ALREADY_REPORTED));
        }
        if is_text(&chars, "226 IM Used") {
            proof {
                reveal_strlit("226 IM Used");
            }
            return Ok(ResponseCode(IM_USED));
        }
        if is_text(&chars, "300 Multiple Choices") {
            proof {
                reveal_strlit("300 Multiple Choices");
            }
            return Ok(ResponseCode(MULTIPLE_CHOICES));
        }
        if is_text(&chars, "301 Moved Permanently") {
            proof {
                reveal_strlit("301 Moved Permanently");
            }
            return Ok(ResponseCode(MOVED_PERMANENTLY));
        }
        if is_text(&chars, "302 Found") {
            proof {
                reveal_strlit("302 Found");
            }
            return Ok(ResponseCode(FOUND));
        }
        if is_text(&chars, "303 See Other") {
            proof {
                reveal_strlit("303 See Other");
            }
            return Ok(ResponseCode(SEE_OTHER));
        }
        if is_text(&chars, "304 Not Modified") {
            proof {
                reveal_strlit("304 Not Modified");
            }
            return Ok(ResponseCode(NOT_MODIFIED));
        }
        if is_text(&chars, "307 Temporary Redirect") {
            proof {
                reveal_strlit("307 Temporary Redirect");
            }
            return Ok(ResponseCode(TEMPORARY_REDIRECT));
        }
        if is_text(&chars, "308 Permanent Redirect") {
            proof {
                reveal_strlit("308 Permanent Redirect");
            }
            return Ok(ResponseCode(PERMANENT_REDIRECT));
        }
        if is_text(&chars, "400 Bad Request") {
            proof {
                reveal_strlit("400 Bad Request");
            }
            return Ok(ResponseCode(BAD_REQUEST));
        }
        if is_text(&chars, "401 Unauthorized") {
            proof {
                reveal_strlit("401 Unauthorized");
            }
            return Ok(ResponseCode(UNAUTHORIZED));
        }
        if is_text(&chars, "402 Payment Required") {
            proof {
                reveal_strlit("402 Payment Required");
            }
            return Ok(ResponseCode(PAYMENT_REQUIRED));
        }
        if is_text(&chars, "403 Forbidden") {
            proof {
                reveal_strlit("403 Forbidden");
            }
            return Ok(ResponseCode(FORBIDDEN));
        }
        if is_text(&chars, "404 Not Found") {
            proof {
                reveal_strlit("404 Not Found");
            }
            return Ok(ResponseCode(NOT_FOUND));
        }
        if is_text(&chars, "405 Method Not Allowed") {
            proof {
                reveal_strlit("405 Method Not Allowed");
            }
            return Ok(ResponseCode(METHOD_NOT_ALLOWED));
        }
        if is_text(&chars, "406 Not Acceptable") {
            proof {
                reveal_strlit("406 Not Acceptable");
            }
            return Ok(ResponseCode(NOT_ACCEPTABLE));
        }
        if is_text(&chars, "407 Proxy Authentication Required") {
            proof {
                reveal_strlit("407 Proxy Authentication Required");
            }
            return Ok(ResponseCode(PROXY_AUTHENTICATION_REQUIRED));
        }
        if is_text(&chars, "408 Request Timeout") {
            proof {
                reveal_strlit("408 Request Timeout");
            }
            return Ok(ResponseCode(REQUEST_TIMEOUT));
        }
        if is_text(&chars, "409 Conflict") {
            proof {
                reveal_strlit("409 Conflict");
            }
            return Ok(ResponseCode(CONFLICT));
        }
        if is_text(&chars, "410 Gone") {
            proof {
                reveal_strlit("410 Gone");
            }
            return Ok(ResponseCode(GONE));
        }
        if is_text(&chars, "411 Length Required") {
            proof {
                reveal_strlit("411 Length Required");
            }
            return Ok(ResponseCode(LENGTH_REQUIRED));
        }
        if is_text(&chars, "412 Precondition Failed") {
            proof {
                reveal_strlit("412 Precondition Failed");
            }
            return Ok(ResponseCode(PRECONDITION_FAILED));
        }
        if is_text(&chars, "413 Content Too Large") {
            proof {
                reveal_strlit("413 Content Too Large");
            }
            return Ok(ResponseCode(CONTENT_TOO_LARGE));
        }
        if is_text(&chars, "414 URI Too Long") {
            proof {
                reveal_strlit("414 URI Too Long");
            }
            return Ok(ResponseCode(URI_TOO_LONG));
        }
        if is_text(&chars, "415 Unsupported Media Type") {
            proof {
                reveal_strlit("415 Unsupported Media Type");
            }
            return Ok(ResponseCode(UNSUPPORTED_MEDIA_TYPE));
        }
        if is_text(&chars, "416 Range Not Satisfiable") {
            proof {
                reveal_strlit("416 Range Not Satisfiable");
            }
            return Ok(ResponseCode(RANGE_NOT_SATISFIABLE));
        }
        if is_text(&chars, "417 Expectation Failed") {
            proof {
                reveal_strlit("417 Expectation Failed");
            }
            return Ok(ResponseCode(EXPECTATION_FAILED));
        }
        if is_text(&chars, "418 I'm a teapot") {
            proof {
                reveal_strlit("418 I'm a teapot");
            }
            return Ok(ResponseCode(IM_A_TEAPOT));
        }
        if is_text(&chars, "421 Misdirected Request") {
            proof {
                reveal_strlit("421 Misdirected Request");
            }
            return Ok(ResponseCode(MISDIRECTED_REQUEST));
        }
        if is_text(&chars, "422 Unprocessable Content") {
            proof {
                reveal_strlit("422 Unprocessable Content");
            }
            return Ok(ResponseCode(UNPROCESSABLE_CONTENT));
        }
        if is_text(&chars, "423 Locked") {
            proof {
                reveal_strlit("423 Locked");
            }
            return Ok(ResponseCode(LOCKED));
        }
        if is_text(&chars, "424 Failed Dependency") {
            proof {
                reveal_strlit("424 Failed Dependency");
            }
            return Ok(ResponseCode(FAILED_DEPENDENCY));
        }
        if is_text(&chars, "425 Too Early") {
            proof {
                reveal_strlit("425 Too Early");
            }
            return Ok(ResponseCode(TOO_EARLY));
        }
        if is_text(&chars, "426 Upgrade Required") {
            proof {
                reveal_strlit("426 Upgrade Required");
            }
            return Ok(ResponseCode(UPGRADE_REQUIRED));
        }
        if is_text(&chars, "428 Precondition Required") {
            proof {
                reveal_strlit("428 Precondition Required");
            }
            return Ok(ResponseCode(PRECONDITION_REQUIRED));
        }
        if is_text(&chars, "429 Too Many Requests") {
            proof {
                reveal_strlit("429 Too Many Requests");
            }
            return Ok(ResponseCode(TOO_MANY_REQUESTS));
        }
        if is_text(&chars, "431 Request Header Fields Too Large") {
            proof {
                reveal_strlit("431 Request Header Fields Too Large");
            }
            return Ok(ResponseCode(REQUEST_HEADER_FIELDS_TOO_LARGE));
        }
        if is_text(&chars, "451 Unavailable For Legal Reasons") {
            proof {
                reveal_strlit("451 Unavailable For Legal Reasons");
            }
            return Ok(ResponseCode(UNAVAILABLE_FOR_LEGAL_REASONS));
        }
        if is_text(&chars, "500 Internal Server Error") {
            proof {
                reveal_strlit("500 Internal Server Error");
            }
            return Ok(ResponseCode(INTERNAL_SERVER_ERROR));
        }
        if is_text(&chars, "501 Not Implemented") {
            proof {
                reveal_strlit("501 Not Implemented");
            }
            return Ok(ResponseCode(NOT_IMPLEMENTED));
        }
        if is_text(&chars, "502 Bad Gateway") {
            proof {
                reveal_strlit("502 Bad Gateway");
            }
            return Ok(ResponseCode(BAD_GATEWAY));
        }
        if is_text(&chars, "503 Service Unavailable") {
            proof {
                reveal_strlit("503 Service Unavailable");
            }
            return Ok(ResponseCode(SERVICE_UNAVAILABLE));
        }
        if is_text(&chars, "504 Gateway Timeout") {
            proof {
                reveal_strlit("504 Gateway Timeout");
            }
            return Ok(ResponseCode(GATEWAY_TIMEOUT));
        }
        if is_text(&chars, "505 HTTP Version Not Supported") {
            proof {
                reveal_strlit("505 HTTP Version Not Supported");
            }
            return Ok(ResponseCode(HTTP_VERSION_NOT_SUPPORTED));
        }
        if is_text(&chars, "506 Variant Also Negotiates") {
            proof {
                reveal_strlit("506 Variant Also Negotiates");
            }
            return Ok(ResponseCode(VARIANT_ALSO_NEGOTIATES));
        }
        if is_text(&chars, "507 Insufficient Storage") {
            proof {
                reveal_strlit("507 Insufficient Storage");
            }
            return Ok(ResponseCode(INSUFFICIENT_STORAGE));
        }
        if is_text(&chars, "508 Loop Detected") {
            proof {
                reveal_strlit("508 Loop Detected");
            }
            return Ok(ResponseCode(LOOP_DETECTED));
        }
        if is_text(&chars, "510 Not Extended") {
            proof {
                reveal_strlit("510 Not Extended");
            }
            return Ok(ResponseCode(NOT_EXTENDED));
        }
        if is_text(&chars, "511 Network Authentication Required") {
            proof {
                reveal_strlit("511 Network Authentication Required");
            }
            return Ok(ResponseCode(NETWORK_AUTHENTICATION_REQUIRED));
        }
        let len = chars.len();
        let k = text::find_char(&chars, 0, len, ' ');
        assert(chars@.subrange(0, len as int) =~= item@);
        if k < len {
            assert(chars@.subrange(0, k as int) =~= item@.take(k as int));
            if let Some(v) = text::parse_unsigned_at(&chars, 0, k, 10, 0xFFFF) {
                let code = ResponseCode(v as u16);
                if code.has_reason_phrase() {
                    return Ok(code);
                }
            }
        }
        Err(item)
    }

    /// Whether the code has a standard reason phrase, so that `to_str` can
    /// write its status line.
    pub fn has_reason_phrase(&self) -> (b: bool)
        ensures
            b == (status_text(self.0) is Some),
    {
        matches!(
            self.0,
            100 | 101 | 102 | 103 | 200 | 201 | 202 | 203 | 204 | 205 | 206 | 207 | 208 | 226 |
                300 | 301 | 302 | 303 | 304 | 307 | 308 | 400 | 401 | 402 | 403 | 404 | 405 |
                406 | 407 | 408 | 409 | 410 | 411 | 412 | 413 | 414 | 415 | 416 | 417 | 418 |
                421 | 422 | 423 | 424 | 425 | 426 | 428 | 429 | 431 | 451 | 500 | 501 | 502 |
                503 | 504 | 505 | 506 | 507 | 508 | 510 | 511
        )
    }

    /// The status line text of a code that has a standard reason phrase.
    pub fn to_str(&self) -> (s: &'static str)
        requires
            status_text(self.0) is Some,
        ensures
            s@ == status_text(self.0)->0,
    {
        match self.0 {
            100 => "100 Continue",
            101 => "101 Switching Protocols",
            102 => "102 Processing",
            103 => "103 Early Hints",
            200 => "200 OK",
            201 => "201 Created",
            202 => "202 Accepted",
            203 => "203 Non-Authoritative Information",
            204 => "204 No Content",
            205 => "205 Reset Content",
            206 => "206 Partial Content",
            207 => "207 Multi-Status",
            208 => "208 Already Reported",
            226 => "226 IM Used",
            300 => "300 Multiple Choices",
            301 => "301 Moved Permanently",
            302 => "302 Found",
            303 => "303 See Other",
            304 => "304 Not Modified",
            307 => "307 Temporary Redirect",
            308 => "308 Permanent Redirect",
            400 => "400 Bad Request",
            401 => "401 Unauthorized",
            402 => "402 Payment Required",
            403 => "403 Forbidden",
            404 => "404 Not Found",
            405 => "405 Method Not Allowed",
            406 => "406 Not Acceptable",
            407 => "407 Proxy Authentication Required",
            408 => "408 Request Timeout",
            409 => "409 Conflict",
            410 => "410 Gone",
            411 => "411 Length Required",
            412 => "412 Precondition Failed",
            413 => "413 Content Too Large",
            414 => "414 URI Too Long",
            415 => "415 Unsupported Media Type",
            416 => "416 Range Not Satisfiable",
            417 => "417 Expectation Failed",
            418 => "418 I'm a teapot",
            421 => "421 Misdirected Request",
            422 => "422 Unprocessable Content",
            423 => "423 Locked",
            424 => "424 Failed Dependency",
            425 => "425 Too Early",
            426 => "426 Upgrade Required",
            428 => "428 Precondition Required",
            429 => "429 Too Many Requests",
            431 => "431 Request Header Fields Too Large",
            451 => "451 Unavailable For Legal Reasons",
            500 => "500 Internal Server Error",
            501 => "501 Not Implemented",
            502 => "502 Bad Gateway",
            503 => "503 Service Unavailable",
            504 => "504 Gateway Timeout",
            505 => "505 HTTP Version Not Supported",
            506 => "506 Variant Also Negotiates",
            507 => "507 Insufficient Storage",
            508 => "508 Loop Detected",
            510 => "510 Not Extended",
            511 => "511 Network Authentication Required",
            _ => "",
        }
    }
}

/// Reading the text of a code with a standard reason phrase gives the code
/// back: `from_line(c.to_str())` is `Ok(c)`.
pub proof fn lemma_status_text_round_trip(code: u16)
    requires
        status_text(code) is Some,
    ensures
        known_code(status_text(code)->0) == Some(code),
        parse_status(status_text(code)->0) == Some(code),
        status_text(code)->0.len() > 0,
        !text::is_white_space(status_text(code)->0.last()),
{
    match code {
        100 => {
            reveal_strlit("100 Continue");
        },
        101 => {
            reveal_strlit("101 Switching Protocols");
        },
        102 => {
            reveal_strlit("102 Processing");
        },
        103 => {
            reveal_strlit("103 Early Hints");
        },
        200 => {
            reveal_strlit("200 OK");
        },
        201 => {
            reveal_strlit("201 Created");
        },
        202 => {
            reveal_strlit("202 Accepted");
        },
        203 => {
            reveal_strlit("203 Non-Authoritative Information");
        },
        204 => {
            reveal_strlit("204 No Content");
        },
        205 => {
            reveal_strlit("205 Reset Content");
        },
        206 => {
            reveal_strlit("206 Partial Content");
        },
        207 => {
            reveal_strlit("207 Multi-Status");
        },
        208 => {
            reveal_strlit("208 Already Reported");
        },
        226 => {
            reveal_strlit("226 IM Used");
        },
        300 => {
            reveal_strlit("300 Multiple Choices");
        },
        301 => {
            reveal_strlit("301 Moved Permanently");
        },
        302 => {
            reveal_strlit("302 Found");
        },
        303 => {
            reveal_strlit("303 See Other");
        },
        304 => {
            reveal_strlit("304 Not Modified");
        },
        307 => {
            reveal_strlit("307 Temporary Redirect");
        },
        308 => {
            reveal_strlit("308 Permanent Redirect");
        },
        400 => {
            reveal_strlit("400 Bad Request");
        },
        401 => {
            reveal_strlit("401 Unauthorized");
        },
        402 => {
            reveal_strlit("402 Payment Required");
        },
        403 => {
            reveal_strlit("403 Forbidden");
        },
        404 => {
            reveal_strlit("404 Not Found");
        },
        405 => {
            reveal_strlit("405 Method Not Allowed");
        },
        406 => {
            reveal_strlit("406 Not Acceptable");
        },
        407 => {
            reveal_strlit("407 Proxy Authentication Required");
        },
        408 => {
            reveal_strlit("408 Request Timeout");
        },
        409 => {
            reveal_strlit("409 Conflict");
        },
        410 => {
            reveal_strlit("410 Gone");
        },
        411 => {
            reveal_strlit("411 Length Required");
        },
        412 => {
            reveal_strlit("412 Precondition Failed");
        },
        413 => {
            reveal_strlit("413 Content Too Large");
        },
        414 => {
            reveal_strlit("414 URI Too Long");
        },
        415 => {
            reveal_strlit("415 Unsupported Media Type");
        },
        416 => {
            reveal_strlit("416 Range Not Satisfiable");
        },
        417 => {
            reveal_strlit("417 Expectation Failed");
        },
        418 => {
            reveal_strlit("418 I'm a teapot");
        },
        421 => {
            reveal_strlit("421 Misdirected Request");
        },
        422 => {
            reveal_strlit("422 Unprocessable Content");
        },
        423 => {
            reveal_strlit("423 Locked");
        },
        424 => {
            reveal_strlit("424 Failed Dependency");
        },
        425 => {
            reveal_strlit("425 Too Early");
        },
        426 => {
            reveal_strlit("426 Upgrade Required");
        },
        428 => {
            reveal_strlit("428 Precondition Required");
        },
        429 => {
            reveal_strlit("429 Too Many Requests");
        },
        431 => {
            reveal_strlit("431 Request Header Fields Too Large");
        },
        451 => {
            reveal_strlit("451 Unavailable For Legal Reasons");
        },
        500 => {
            reveal_strlit("500 Internal Server Error");
        },
        501 => {
            reveal_strlit("501 Not Implemented");
        },
        502 => {
            reveal_strlit("502 Bad Gateway");
        },
        503 => {
            reveal_strlit("503 Service Unavailable");
        },
        504 => {
            reveal_strlit("504 Gateway Timeout");
        },
        505 => {
            reveal_strlit("505 HTTP Version Not Supported");
        },
        506 => {
            reveal_strlit("506 Variant Also Negotiates");
        },
        507 => {
            reveal_strlit("507 Insufficient Storage");
        },
        508 => {
            reveal_strlit("508 Loop Detected");
        },
        510 => {
            reveal_strlit("510 Not Extended");
        },
        511 => {
            reveal_strlit("511 Network Authentication Required");
        },
        _ => {},
    }
}

/// A text that `from_line` recognises as a known status line is exactly the
/// text that `to_str` gives for its code.
pub proof fn lemma_known_line_round_trip(item: Seq<char>)
    requires
        known_code(item) is Some,
    ensures
        status_text(known_code(item)->0) == Some(item),
        parse_status(item) == known_code(item),
{
}

/// The reason phrases of RFC 9110 (and of the registrations it points to)
/// for the status codes that have one, without the code.
pub open spec fn reason_phrase(code: u16) -> Option<Seq<char>> {
    match code {
        100 => Some("Continue"@),
        101 => Some("Switching Protocols"@),
        102 => Some("Processing"@),
        103 => Some("Early Hints"@),
        200 => Some("OK"@),
        201 => Some("Created"@),
        202 => Some("Accepted"@),
        203 => Some("Non-Authoritative Information"@),
        204 => Some("No Content"@),
        205 => Some("Reset Content"@),
        206 => Some("Partial Content"@),
        207 => Some("Multi-Status"@),
        208 => Some("Already Reported"@),
        226 => Some("IM Used"@),
        300 => Some("Multiple Choices"@),
        301 => Some("Moved Permanently"@),
        302 => Some("Found"@),
        303 => Some("See Other"@),
        304 => Some("Not Modified"@),
        307 => Some("Temporary Redirect"@),
        308 => Some("Permanent Redirect"@),
        400 => Some("Bad Request"@),
        401 => Some("Unauthorized"@),
        402 => Some("Payment Required"@),
        403 => Some("Forbidden"@),
        404 => Some("Not Found"@),
        405 => Some("Method Not Allowed"@),
        406 => Some("Not Acceptable"@),
        407 => Some("Proxy Authentication Required"@),
        408 => Some("Request Timeout"@),
        409 => Some("Conflict"@),
        410 => Some("Gone"@),
        411 => Some("Length Required"@),
        412 => Some("Precondition Failed"@),
        413 => Some("Content Too Large"@),
        414 => Some("URI Too Long"@),
        415 => Some("Unsupported Media Type"@),
        416 => Some("Range Not Satisfiable"@),
        417 => Some("Expectation Failed"@),
        418 => Some("I'm a teapot"@),
        421 => Some("Misdirected Request"@),
        422 => Some("Unprocessable Content"@),
        423 => Some("Locked"@),
        424 => Some("Failed Dependency"@),
        425 => Some("Too Early"@),
        426 => Some("Upgrade Required"@),
        428 => Some("Precondition Required"@),
        429 => Some("Too Many Requests"@),
        431 => Some("Request Header Fields Too Large"@),
        451 => Some("Unavailable For Legal Reasons"@),
        500 => Some("Internal Server Error"@),
        501 => Some("Not Implemented"@),
        502 => Some("Bad Gateway"@),
        503 => Some("Service Unavailable"@),
        504 => Some("Gateway Timeout"@),
        505 => Some("HTTP Version Not Supported"@),
        506 => Some("Variant Also Negotiates"@),
        507 => Some("Insufficient Storage"@),
        508 => Some("Loop Detected"@),
        510 => Some("Not Extended"@),
        511 => Some("Network Authentication Required"@),
        _ => None,
    }
}

/// The decimal digits of a three-digit code.
proof fn lemma_three_digits(code: u16)
    requires
        100 <= code <= 999,
    ensures
        text::decimal(code as nat) == seq![
            (('0' as nat) + code / 100) as char,
            (('0' as nat) + (code / 10) % 10) as char,
            (('0' as nat) + code % 10) as char,
        ],
{
    let n = code as nat;
    assert(n / 10 >= 10);
    assert((n / 10) / 10 == n / 100);
    assert(text::decimal(n / 100) == seq![(('0' as nat) + n / 100) as char]);
    assert(text::decimal(n / 10) =~= seq![(('0' as nat) + n / 100) as char, (('0' as nat) + (n
        / 10) % 10) as char]);
}

/// Status text and reason phrase agree for the codes 1xx.
proof fn lemma_phrases_1xx(code: u16)
    requires
        100 <= code <= 199,
        reason_phrase(code) is Some,
    ensures
        status_text(code) == Some(text::decimal(code as nat) + " "@ + reason_phrase(code)->0),
{
    reveal_strlit(" ");
    lemma_three_digits(code);
    match code {
        100 => {
            reveal_strlit("100 Continue");
            reveal_strlit("Continue");
        },
        101 => {
            reveal_strlit("101 Switching Protocols");
            reveal_strlit("Switching Protocols");
        },
        102 => {
            reveal_strlit("102 Processing");
            reveal_strlit("Processing");
        },
        103 => {
            reveal_strlit("103 Early Hints");
            reveal_strlit("Early Hints");
        },
        _ => {},
    }
    assert(status_text(code)->0 =~= text::decimal(code as nat) + " "@ + reason_phrase(code)->0);
}

/// Status text and reason phrase agree for the codes 2xx.
proof fn lemma_phrases_2xx(code: u16)
    requires
        200 <= code <= 299,
        reason_phrase(code) is Some,
    ensures
        status_text(code) == Some(text::decimal(code as nat) + " "@ + reason_phrase(code)->0),
{
    reveal_strlit(" ");
    lemma_three_digits(code);
    match code {
        200 => {
            reveal_strlit("200 OK");
            reveal_strlit("OK");
        },
        201 => {
            reveal_strlit("201 Created");
            reveal_strlit("Created");
        },
        202 => {
            reveal_strlit("202 Accepted");
            reveal_strlit("Accepted");
        },
        203 => {
            reveal_strlit("203 Non-Authoritative Information");
            reveal_strlit("Non-Authoritative Information");
        },
        204 => {
            reveal_strlit("204 No Content");
            reveal_strlit("No Content");
        },
        205 => {
            reveal_strlit("205 Reset Content");
            reveal_strlit("Reset Content");
        },
        206 => {
            reveal_strlit("206 Partial Content");
            reveal_strlit("Partial Content");
        },
        207 => {
            reveal_strlit("207 Multi-Status");
            reveal_strlit("Multi-Status");
        },
        208 => {
            reveal_strlit("208 Already Reported");
            reveal_strlit("Already Reported");
        },
        226 => {
            reveal_strlit("226 IM Used");
            reveal_strlit("IM Used");
        },
        _ => {},
    }
    assert(status_text(code)->0 =~= text::decimal(code as nat) + " "@ + reason_phrase(code)->0);
}

/// Status text and reason phrase agree for the codes 3xx.
proof fn lemma_phrases_3xx(code: u16)
    requires
        300 <= code <= 399,
        reason_phrase(code) is Some,
    ensures
        status_text(code) == Some(text::decimal(code as nat) + " "@ + reason_phrase(code)->0),
{
    reveal_strlit(" ");
    lemma_three_digits(code);
    match code {
        300 => {
            reveal_strlit("300 Multiple Choices");
            reveal_strlit("Multiple Choices");
        },
        301 => {
            reveal_strlit("301 Moved Permanently");
            reveal_strlit("Moved Permanently");
        },
        302 => {
            reveal_strlit("302 Found");
            reveal_strlit("Found");
        },
        303 => {
            reveal_strlit("303 See Other");
            reveal_strlit("See Other");
        },
        304 => {
            reveal_strlit("304 Not Modified");
            reveal_strlit("Not Modified");
        },
        307 => {
            reveal_strlit("307 Temporary Redirect");
            reveal_strlit("Temporary Redirect");
        },
        308 => {
            reveal_strlit("308 Permanent Redirect");
            reveal_strlit("Permanent Redirect");
        },
        _ => {},
    }
    assert(status_text(code)->0 =~= text::decimal(code as nat) + " "@ + reason_phrase(code)->0);
}

/// Status text and reason phrase agree for the codes 4xx.
proof fn lemma_phrases_4xx(code: u16)
    requires
        400 <= code <= 499,
        reason_phrase(code) is Some,
    ensures
        status_text(code) == Some(text::decimal(code as nat) + " "@ + reason_phrase(code)->0),
{
    reveal_strlit(" ");
    lemma_three_digits(code);
    match code {
        400 => {
            reveal_strlit("400 Bad Request");
            reveal_strlit("Bad Request");
        },
        401 => {
            reveal_strlit("401 Unauthorized");
            reveal_strlit("Unauthorized");
        },
        402 => {
            reveal_strlit("402 Payment Required");
            reveal_strlit("Payment Required");
        },
        403 => {
            reveal_strlit("403 Forbidden");
            reveal_strlit("Forbidden");
        },
        404 => {
            reveal_strlit("404 Not Found");
            reveal_strlit("Not Found");
        },
        405 => {
            reveal_strlit("405 Method Not Allowed");
            reveal_strlit("Method Not Allowed");
        },
        406 => {
            reveal_strlit("406 Not Acceptable");
            reveal_strlit("Not Acceptable");
        },
        407 => {
            reveal_strlit("407 Proxy Authentication Required");
            reveal_strlit("Proxy Authentication Required");
        },
        408 => {
            reveal_strlit("408 Request Timeout");
            reveal_strlit("Request Timeout");
        },
        409 => {
            reveal_strlit("409 Conflict");
            reveal_strlit("Conflict");
        },
        410 => {
            reveal_strlit("410 Gone");
            reveal_strlit("Gone");
        },
        411 => {
            reveal_strlit("411 Length Required");
            reveal_strlit("Length Required");
        },
        412 => {
            reveal_strlit("412 Precondition Failed");
            reveal_strlit("Precondition Failed");
        },
        413 => {
            reveal_strlit("413 Content Too Large");
            reveal_strlit("Content Too Large");
        },
        414 => {
            reveal_strlit("414 URI Too Long");
            reveal_strlit("URI Too Long");
        },
        415 => {
            reveal_strlit("415 Unsupported Media Type");
            reveal_strlit("Unsupported Media Type");
        },
        416 => {
            reveal_strlit("416 Range Not Satisfiable");
            reveal_strlit("Range Not Satisfiable");
        },
        417 => {
            reveal_strlit("417 Expectation Failed");
            reveal_strlit("Expectation Failed");
        },
        418 => {
            reveal_strlit("418 I'm a teapot");
            reveal_strlit("I'm a teapot");
        },
        421 => {
            reveal_strlit("421 Misdirected Request");
            reveal_strlit("Misdirected Request");
        },
        422 => {
            reveal_strlit("422 Unprocessable Content");
            reveal_strlit("Unprocessable Content");
        },
        423 => {
            reveal_strlit("423 Locked");
            reveal_strlit("Locked");
        },
        424 => {
            reveal_strlit("424 Failed Dependency");
            reveal_strlit("Failed Dependency");
        },
        425 => {
            reveal_strlit("425 Too Early");
            reveal_strlit("Too Early");
        },
        426 => {
            reveal_strlit("426 Upgrade Required");
            reveal_strlit("Upgrade Required");
        },
        428 => {
            reveal_strlit("428 Precondition Required");
            reveal_strlit("Precondition Required");
        },
        429 => {
            reveal_strlit("429 Too Many Requests");
            reveal_strlit("Too Many Requests");
        },
        431 => {
            reveal_strlit("431 Request Header Fields Too Large");
            reveal_strlit("Request Header Fields Too Large");
        },
        451 => {
            reveal_strlit("451 Unavailable For Legal Reasons");
            reveal_strlit("Unavailable For Legal Reasons");
        },
        _ => {},
    }
    assert(status_text(code)->0 =~= text::decimal(code as nat) + " "@ + reason_phrase(code)->0);
}

/// Status text and reason phrase agree for the codes 5xx.
proof fn lemma_phrases_5xx(code: u16)
    requires
        500 <= code <= 599,
        reason_phrase(code) is Some,
    ensures
        status_text(code) == Some(text::decimal(code as nat) + " "@ + reason_phrase(code)->0),
{
    reveal_strlit(" ");
    lemma_three_digits(code);
    match code {
        500 => {
            reveal_strlit("500 Internal Server Error");
            reveal_strlit("Internal Server Error");
        },
        501 => {
            reveal_strlit("501 Not Implemented");
            reveal_strlit("Not Implemented");
        },
        502 => {
            reveal_strlit("502 Bad Gateway");
            reveal_strlit("Bad Gateway");
        },
        503 => {
            reveal_strlit("503 Service Unavailable");
            reveal_strlit("Service Unavailable");
        },
        504 => {
            reveal_strlit("504 Gateway Timeout");
            reveal_strlit("Gateway Timeout");
        },
        505 => {
            reveal_strlit("505 HTTP Version Not Supported");
            reveal_strlit("HTTP Version Not Supported");
        },
        506 => {
            reveal_strlit("506 Variant Also Negotiates");
            reveal_strlit("Variant Also Negotiates");
        },
        507 => {
            reveal_strlit("507 Insufficient Storage");
            reveal_strlit("Insufficient Storage");
        },
        508 => {
            reveal_strlit("508 Loop Detected");
            reveal_strlit("Loop Detected");
        },
        510 => {
            reveal_strlit("510 Not Extended");
            reveal_strlit("Not Extended");
        },
        511 => {
            reveal_strlit("511 Network Authentication Required");
            reveal_strlit("Network Authentication Required");
        },
        _ => {},
    }
    assert(status_text(code)->0 =~= text::decimal(code as nat) + " "@ + reason_phrase(code)->0);
}

/// Every status line of RFC 9110's table, the code followed by a space and
/// its reason phrase, is read by `from_line` as that code and written by
/// `to_str` for it; the codes with a status text are exactly those with a
/// reason phrase.
pub proof fn lemma_standard_status_lines(code: u16)
    ensures
        status_text(code) is Some <==> reason_phrase(code) is Some,
        reason_phrase(code) matches Some(p) ==> {
            &&& parse_status(text::decimal(code as nat) + " "@ + p) == Some(code)
            &&& status_text(code) == Some(text::decimal(code as nat) + " "@ + p)
        },
{
    if reason_phrase(code) is Some {
        if code < 200 {
            lemma_phrases_1xx(code);
        } else if code < 300 {
            lemma_phrases_2xx(code);
        } else if code < 400 {
            lemma_phrases_3xx(code);
        } else if code < 500 {
            lemma_phrases_4xx(code);
        } else {
            lemma_phrases_5xx(code);
        }
        lemma_status_text_round_trip(code);
    }
}

/// `from_line` gives only codes that have a reason phrase in RFC 9110's
/// table.
pub proof fn lemma_parsed_codes_are_standard(item: Seq<char>)
    ensures
        parse_status(item) matches Some(c) ==> reason_phrase(c) is Some,
{
    if let Some(c) = parse_status(item) {
        if known_code(item) is Some {
            lemma_known_line_round_trip(item);
        }
        lemma_standard_status_lines(c);
    }
}

} // verus!
