use mashrl::http::status::{NOT_FOUND, OK, SWITCHING_PROTOCOLS};
use mashrl::http::ResponseCode;
use mashrl::response::parse_status_line;

#[test]
fn from_line_known_codes() {
    assert_eq!(ResponseCode::from_line("200 OK"), Ok(ResponseCode(OK)));
    assert_eq!(ResponseCode::from_line("404 Not Found"), Ok(ResponseCode(NOT_FOUND)));
    assert_eq!(
        ResponseCode::from_line("101 Switching Protocols"),
        Ok(ResponseCode(SWITCHING_PROTOCOLS))
    );
    assert_eq!(ResponseCode::from_line("418 I'm a teapot"), Ok(ResponseCode(418)));
    assert_eq!(
        ResponseCode::from_line("511 Network Authentication Required"),
        Ok(ResponseCode(511))
    );
}

#[test]
fn from_line_known_code_with_other_text() {
    assert_eq!(ResponseCode::from_line("404 Missing"), Ok(ResponseCode(404)));
    assert_eq!(ResponseCode::from_line("200 Fine"), Ok(ResponseCode(200)));
    assert_eq!(ResponseCode::from_line("+200 Fine"), Ok(ResponseCode(200)));
}

#[test]
fn from_line_unknown_codes() {
    assert_eq!(ResponseCode::from_line("0 Zero"), Err("0 Zero"));
    assert_eq!(ResponseCode::from_line("299 Something Else"), Err("299 Something Else"));
    assert_eq!(ResponseCode::from_line("65535 x"), Err("65535 x"));
    assert_eq!(ResponseCode::from_line("+7 x"), Err("+7 x"));
}

#[test]
fn from_line_errors() {
    assert_eq!(ResponseCode::from_line("OK"), Err("OK"));
    assert_eq!(ResponseCode::from_line("200"), Err("200"));
    assert_eq!(ResponseCode::from_line("65536 Too Big"), Err("65536 Too Big"));
    assert_eq!(ResponseCode::from_line("abc def"), Err("abc def"));
    assert_eq!(ResponseCode::from_line(""), Err(""));
}

#[test]
fn to_str_known_codes() {
    assert_eq!(ResponseCode(200).to_str(), "200 OK");
    assert_eq!(ResponseCode(404).to_str(), "404 Not Found");
    assert_eq!(ResponseCode(101).to_str(), "101 Switching Protocols");
    assert_eq!(ResponseCode(226).to_str(), "226 IM Used");
    assert_eq!(ResponseCode(505).to_str(), "505 HTTP Version Not Supported");
}

#[test]
fn to_str_then_from_line() {
    for code in [100u16, 103, 200, 208, 226, 308, 400, 418, 431, 451, 500, 511] {
        let c = ResponseCode(code);
        assert_eq!(ResponseCode::from_line(c.to_str()), Ok(c));
    }
}

#[test]
fn status_line() {
    assert_eq!(parse_status_line("HTTP/1.1 200 OK\r\n"), Some(ResponseCode(200)));
    assert_eq!(parse_status_line("HTTP/1.1 404 Not Found"), Some(ResponseCode(404)));
    assert_eq!(parse_status_line("HTTP/1.1 404 Whatever\r\n"), Some(ResponseCode(404)));
    assert_eq!(parse_status_line("HTTP/1.1 299 Whatever\r\n"), None);
    assert_eq!(parse_status_line("HTTP/1.1\r\n"), None);
    assert_eq!(parse_status_line("HTTP/1.1 abc def\r\n"), None);
    assert_eq!(parse_status_line(""), None);
}
