use homesite::headers::Headers;
use homesite::http::response_head_text;
use homesite::tokens::Tokens;

#[test]
fn content_type_is_kept_as_is() {
    let mut h = Headers::new();
    assert_eq!(h.set_from_str("Content-Type", " text/html"), Ok(()));
    assert_eq!(h.content_type, Some(" text/html".to_string()));
    assert_eq!(h.content_length, None);
}

#[test]
fn cookies_are_parsed_and_trimmed() {
    let mut h = Headers::new();
    assert_eq!(h.set_from_str("COOKIE", " token=abc; theme = dark ;noeq"), Ok(()));
    assert_eq!(h.cookie("token"), Some(&"abc".to_string()));
    assert_eq!(h.cookie("theme"), Some(&"dark".to_string()));
    assert_eq!(h.cookie(""), Some(&"".to_string()));
    assert_eq!(h.cookie("noeq"), None);
}

#[test]
fn later_cookie_wins() {
    let mut h = Headers::new();
    assert_eq!(h.set_from_str("cookie", "a=1; a=2"), Ok(()));
    assert_eq!(h.cookie("a"), Some(&"2".to_string()));
}

#[test]
fn cookie_header_replaces_cookies() {
    let mut h = Headers::new();
    h.set_from_str("Cookie", "a=1").unwrap();
    h.set_from_str("Cookie", "b=2").unwrap();
    assert_eq!(h.cookie("a"), None);
    assert_eq!(h.cookie("b"), Some(&"2".to_string()));
}

#[test]
fn content_length_parsed() {
    let mut h = Headers::new();
    assert_eq!(h.set_from_str("Content-Length", " 12\r\n"), Ok(()));
    assert_eq!(h.content_length, Some(12));
}

#[test]
fn content_length_errors() {
    let mut h = Headers::new();
    h.set_from_str("content-length", "3").unwrap();
    assert_eq!(
        h.set_from_str("Content-Length", " x"),
        Err("invalid digit found in string".to_string())
    );
    assert_eq!(h.content_length, Some(3));
    assert_eq!(
        h.set_from_str("Content-Length", "  "),
        Err("cannot parse integer from empty string".to_string())
    );
    assert_eq!(
        h.set_from_str("Content-Length", "99999999999999999999"),
        Err("number too large to fit in target type".to_string())
    );
    assert_eq!(h.content_length, Some(3));
}

#[test]
fn other_headers_change_nothing() {
    let mut h = Headers::default();
    assert_eq!(h.set_from_str("Host", "example.org"), Ok(()));
    assert_eq!(h.content_type, None);
    assert_eq!(h.content_length, None);
    assert_eq!(h.cookie("Host"), None);
}

#[test]
fn header_lines() {
    let mut h = Headers::new();
    assert_eq!(h.read_line("Host: x\r\n"), Ok(true));
    assert_eq!(h.read_line("garbage\r\n"), Ok(true));
    assert_eq!(h.read_line("Content-Length: 5\r\n"), Ok(true));
    assert_eq!(h.content_length, Some(5));
    assert_eq!(h.read_line("Content-Length: five\r\n"), Err("invalid digit found in string".to_string()));
    assert_eq!(h.read_line("\r\n"), Ok(false));
    assert_eq!(h.read_line(""), Ok(false));
    assert_eq!(h.read_line(" \t\r\n"), Ok(false));
}

#[test]
fn announced_length_reads_back() {
    for n in [0usize, 5, 31337] {
        let head = response_head_text("200 OK", n, None);
        let mut h = Headers::new();
        for line in head.split_inclusive('\n').skip(1) {
            if !h.read_line(line).unwrap() {
                break;
            }
        }
        assert_eq!(h.content_length, Some(n as u64));
    }
}

#[test]
fn issued_token_cookie_reads_back() {
    let mut tokens = Tokens::new();
    let t = tokens.new_token();
    let mut h = Headers::new();
    h.set_from_str("Cookie", &format!("token={}", t)).unwrap();
    assert_eq!(h.cookie("token"), Some(&t));
}
