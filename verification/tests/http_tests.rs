use homesite::http::{
    build_response, content_type_from_ext, file_content_type, is_tls_handshake, parse_request,
    response_head_text, route, LineReader, Route,
};

#[test]
fn content_types_of_known_extensions() {
    let table = [
        ("png", "image/png"),
        ("apng", "image/apng"),
        ("gif", "image/gif"),
        ("ico", "image/x-icon"),
        ("css", "text/css"),
        ("html", "text/html"),
        ("js", "text/javascript"),
        ("txt", "text/plain"),
        ("pdf", "application/pdf"),
        ("json", "application/json"),
        ("mp3", "audio/mpeg"),
        ("mp4", "video/mp4"),
        ("gz", "application/gzip"),
    ];
    for (ext, ty) in table {
        assert_eq!(content_type_from_ext(ext), Some(ty));
    }
    assert_eq!(content_type_from_ext("PNG"), None);
    assert_eq!(content_type_from_ext("exe"), None);
    assert_eq!(content_type_from_ext(""), None);
}

#[test]
fn content_type_of_a_path() {
    assert_eq!(file_content_type("assets/a.b.png"), Ok(Some("image/png")));
    assert_eq!(file_content_type("assets/x.unknown"), Ok(None));
    assert_eq!(file_content_type("assets/README"), Err("Cannot split".to_string()));
}

#[test]
fn response_head_exact() {
    assert_eq!(
        response_head_text("200 OK", 5, Some("text/plain")),
        "HTTP/1.1 200 OK\r\nContent-Length: 5\r\nContent-Type: text/plain\r\n\r\n"
    );
    assert_eq!(
        response_head_text("403 FORBIDDEN", 0, None),
        "HTTP/1.1 403 FORBIDDEN\r\nContent-Length: 0\r\n\r\n"
    );
}

#[test]
fn response_bytes() {
    let r = build_response(b"hello".to_vec(), "200 OK", Some("text/plain"));
    let mut expected = b"HTTP/1.1 200 OK\r\nContent-Length: 5\r\nContent-Type: text/plain\r\n\r\n".to_vec();
    expected.extend_from_slice(b"hello");
    assert_eq!(r, expected);
    let r = build_response(vec![], "404 Not Found", None);
    assert_eq!(r, b"HTTP/1.1 404 Not Found\r\nContent-Length: 0\r\n\r\n".to_vec());
}

#[test]
fn request_line() {
    let r = parse_request("GET /mystuff/draft/x HTTP/1.1\r\n").unwrap();
    assert_eq!(r.method, "GET");
    assert_eq!(r.page, vec!["mystuff".to_string(), "draft".to_string(), "x".to_string()]);
    let r = parse_request("POST / HTTP/1.1\r\n").unwrap();
    assert_eq!(r.page, vec!["".to_string()]);
    let r = parse_request("GET abc HTTP/1.1").unwrap();
    assert!(r.page.is_empty());
}

#[test]
fn request_line_errors() {
    assert_eq!(parse_request("GET  / HTTP/1.1").err(), Some("Invalid act".to_string()));
    assert_eq!(parse_request("GET /").err(), Some("Invalid act".to_string()));
    assert_eq!(parse_request("").err(), Some("Invalid act".to_string()));
}

#[test]
fn routes() {
    assert_eq!(route("assets"), Route::Assets);
    assert_eq!(route("project"), Route::Project);
    assert_eq!(route("projects"), Route::Projects);
    assert_eq!(route("blog"), Route::Blog);
    assert_eq!(route("auth"), Route::Auth);
    assert_eq!(route("mystuff"), Route::Mystuff);
    assert_eq!(route(""), Route::Home);
    assert_eq!(route("favicon.ico"), Route::Home);
}

#[test]
fn tls_first_byte() {
    assert!(is_tls_handshake(22));
    assert!(!is_tls_handshake(b'G'));
}

#[test]
fn line_reader_stops_at_line_feed() {
    let mut r = LineReader::new();
    assert!(!r.feed(Some(b'a')));
    assert!(!r.feed(Some(b'b')));
    assert!(r.feed(Some(b'\n')));
    let (n, line) = r.finish();
    assert_eq!(n, 3);
    assert_eq!(line, Ok("ab\n".to_string()));
}

#[test]
fn line_reader_end_of_stream() {
    let mut r = LineReader::new();
    assert!(r.feed(None));
    let (n, line) = r.finish();
    assert_eq!(n, 0);
    assert_eq!(line, Ok(String::new()));
}

#[test]
fn line_reader_decodes_utf8() {
    let mut r = LineReader::new();
    for b in "é\n".as_bytes() {
        r.feed(Some(*b));
    }
    assert_eq!(r.finish(), (3, Ok("é\n".to_string())));
    let mut r = LineReader::new();
    r.feed(Some(0xff));
    r.feed(Some(b'\n'));
    let (n, line) = r.finish();
    assert_eq!(n, 2);
    assert_eq!(line, Err(String::from_utf8(vec![0xff, b'\n']).unwrap_err().to_string()));
    let mut r = LineReader::new();
    r.feed(Some(0xe2));
    r.feed(Some(0x82));
    r.feed(None);
    assert_eq!(r.finish().1, Err(String::from_utf8(vec![0xe2, 0x82]).unwrap_err().to_string()));
}
