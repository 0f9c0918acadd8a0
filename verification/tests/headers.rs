use mashrl::http::Headers;

#[test]
fn empty_headers() {
    let h = Headers::empty();
    assert!(h.is_empty());
    assert!(h.is_valid());
    assert_eq!(h.get("Host"), None);
}

#[test]
fn from_pairs_writes_lines() {
    let h = Headers::from_pairs(&[("Host", "example.com"), ("User-Agent", "mashrl")]);
    assert_eq!(h.0, "Host: example.com\r\nUser-Agent: mashrl\r\n");
    assert!(h.is_valid());
    assert!(!h.is_empty());
}

#[test]
fn get_ignores_ascii_case_and_trims() {
    let h = Headers::from_string("Content-Type:   text/html  \r\nX-A: 1\r\n".to_string());
    assert_eq!(h.get("content-type"), Some("text/html"));
    assert_eq!(h.get("CONTENT-TYPE"), Some("text/html"));
    assert_eq!(h.get("x-a"), Some("1"));
    assert_eq!(h.get("X-B"), None);
}

#[test]
fn get_gives_first_of_repeated_names() {
    let h = Headers::from_string("A: 1\r\nB: 2\r\nA: 3\r\n".to_string());
    assert_eq!(h.get("a"), Some("1"));
}

#[test]
fn get_stops_at_line_without_colon() {
    let h = Headers::from_string("A: 1\r\nbroken line\r\nB: 2\r\n".to_string());
    assert_eq!(h.get("A"), Some("1"));
    assert_eq!(h.get("B"), None);
}

#[test]
fn get_reads_lines_ended_by_line_feed_alone() {
    let h = Headers::from_string("A: 1\nB: 2".to_string());
    assert_eq!(h.get("B"), Some("2"));
    assert!(!h.is_valid());
}

#[test]
fn get_after_append() {
    let mut h = Headers::empty();
    h.append("Host", "a.example");
    assert_eq!(h.get("host"), Some("a.example"));
    h.append("Host", "b.example");
    assert_eq!(h.get("host"), Some("a.example"));
    assert_eq!(h.0, "Host: a.example\r\nHost: b.example\r\n");
}

#[test]
fn set_replaces_the_header() {
    let mut h = Headers::from_pairs(&[("A", "1"), ("B", "2"), ("C", "3")]);
    h.set("b", "20");
    assert_eq!(h.0, "A: 1\r\nC: 3\r\nb: 20\r\n");
    assert_eq!(h.get("B"), Some("20"));
    assert_eq!(h.get("A"), Some("1"));
    assert_eq!(h.get("C"), Some("3"));
}

#[test]
fn set_adds_a_missing_header() {
    let mut h = Headers::from_pairs(&[("A", "1")]);
    h.set("B", "2");
    assert_eq!(h.0, "A: 1\r\nB: 2\r\n");
}

#[test]
fn delete_removes_first_match_only() {
    let mut h = Headers::from_pairs(&[("A", "1"), ("B", "2"), ("A", "3")]);
    h.delete("a");
    assert_eq!(h.0, "B: 2\r\nA: 3\r\n");
    assert_eq!(h.get("A"), Some("3"));
    h.delete("A");
    assert_eq!(h.0, "B: 2\r\n");
    assert_eq!(h.get("A"), None);
    h.delete("missing");
    assert_eq!(h.0, "B: 2\r\n");
}

#[test]
fn delete_skips_lines_without_colon() {
    let mut h = Headers::from_string("junk\r\nA: 1\r\n".to_string());
    h.delete("A");
    assert_eq!(h.0, "junk\r\n");
}

#[test]
fn from_raw_checks_utf8() {
    let h = Headers::from_raw(b"A: 1\r\n".to_vec()).unwrap();
    assert_eq!(h.get("A"), Some("1"));
    assert!(Headers::from_raw(vec![0x41, 0xff, 0x0d, 0x0a]).is_err());
}

#[test]
fn iter_yields_pairs_until_a_line_has_no_colon() {
    let h = Headers::from_string("A:  1 \r\nB: x:y\r\nno colon\r\nC: 3\r\n".to_string());
    let mut it = h.iter();
    assert_eq!(it.next(), Some(("A", "1")));
    assert_eq!(it.next(), Some(("B", "x:y")));
    assert_eq!(it.next(), None);
    assert_eq!(it.next(), Some(("C", "3")));
    assert_eq!(it.next(), None);
}

#[test]
fn is_valid_needs_crlf_at_end() {
    assert!(Headers::from_string("A: 1\r\n".to_string()).is_valid());
    assert!(!Headers::from_string("A: 1".to_string()).is_valid());
    assert!(!Headers::from_string("A: 1\n".to_string()).is_valid());
}

#[test]
fn iterating_pairs_gives_them_back() {
    let pairs = [("Host", "example.com"), ("X-Empty", ""), ("Accept", "*/*")];
    let h = Headers::from_pairs(&pairs);
    let mut it = h.iter();
    for (key, value) in pairs {
        assert_eq!(it.next(), Some((key, value)));
    }
    assert_eq!(it.next(), None);
}

#[test]
fn can_remove_checks_bounds() {
    let h = Headers::from_pairs(&[("A", "1"), ("B", "2")]);
    assert!(h.can_remove("a"));
    assert!(h.can_remove("missing"));
    let short = Headers::from_string("A: 1".to_string());
    assert!(!short.can_remove("A"));
    let lf_only = Headers::from_string("A: 1\nB: 2\n".to_string());
    assert!(lf_only.can_remove("A"));
    let lf_then_wide = Headers::from_string("A: 1\n\u{e9}: 2\n".to_string());
    assert!(!lf_then_wide.can_remove("A"));
    assert!(lf_then_wide.can_remove("missing"));
}
