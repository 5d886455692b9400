use unique::http_parser::{parse_request, ParseError};
use unique::request::Method;

#[test]
fn parses_simple_get() {
    let buf = b"GET /hello HTTP/1.1\r\nHost: localhost\r\n\r\n";
    let req = parse_request(buf).unwrap();
    assert_eq!(req.method, Method::Get);
    assert_eq!(req.path, "/hello");
    assert_eq!(req.query_string, "");
    assert_eq!(req.http_version, 1);
    assert_eq!(req.headers.len(), 1);
    assert_eq!(req.headers[0].0, "Host");
}

#[test]
fn parses_with_query_string() {
    let buf = b"GET /search?q=rust&limit=10 HTTP/1.1\r\nHost: localhost\r\n\r\n";
    let req = parse_request(buf).unwrap();
    assert_eq!(req.path, "/search");
    assert_eq!(req.query_string, "q=rust&limit=10");
}

#[test]
fn parses_content_length() {
    let body = r#"{"msg":"hi"}"#;
    let buf = format!(
        "POST /api HTTP/1.1\r\nHost: localhost\r\nContent-Length: {}\r\n\r\n{}",
        body.len(),
        body
    );
    let req = parse_request(buf.as_bytes()).unwrap();
    assert_eq!(req.method, Method::Post);
    assert_eq!(req.content_length, Some(body.len()));
    assert_eq!(req.header_end, buf.len() - body.len());
}

#[test]
fn parses_connection_close() {
    let buf = b"GET / HTTP/1.1\r\nHost: localhost\r\nConnection: close\r\n\r\n";
    let req = parse_request(buf).unwrap();
    assert!(req.connection_close);
}

#[test]
fn returns_incomplete_for_partial() {
    let buf = b"GET /hello HTTP/1.1\r\nHost: localhost";
    let result = parse_request(buf);
    assert!(matches!(result, Err(ParseError::Incomplete)));
}

#[test]
fn parses_all_methods() {
    for (method_str, expected) in [
        ("GET", Method::Get),
        ("POST", Method::Post),
        ("PUT", Method::Put),
        ("DELETE", Method::Delete),
        ("PATCH", Method::Patch),
        ("HEAD", Method::Head),
        ("OPTIONS", Method::Options),
    ] {
        let buf = format!("{method_str} / HTTP/1.1\r\nHost: x\r\n\r\n");
        let req = parse_request(buf.as_bytes()).unwrap();
        assert_eq!(req.method, expected, "failed for {method_str}");
    }
}

#[test]
fn rejects_unknown_method_by_name() {
    let buf = b"BREW /pot HTTP/1.1\r\nHost: x\r\n\r\n";
    match parse_request(buf) {
        Err(ParseError::UnknownMethod(m)) => assert_eq!(m, "BREW"),
        other => panic!("expected UnknownMethod, got {other:?}"),
    }
}

#[test]
fn ignores_bytes_after_the_head() {
    let a = parse_request(b"GET /a HTTP/1.1\r\nHost: x\r\n\r\n").unwrap();
    let b = parse_request(b"GET /a HTTP/1.1\r\nHost: x\r\n\r\nextra body bytes").unwrap();
    assert_eq!(a.path, b.path);
    assert_eq!(a.header_end, b.header_end);
    assert_eq!(a.headers, b.headers);
}

#[test]
fn request_without_header_lines_is_complete() {
    let r = parse_request(b"GET / HTTP/1.1\r\n\r\n").unwrap();
    assert_eq!(r.method, Method::Get);
    assert_eq!(r.path, "/");
    assert_eq!(r.query_string, "");
    assert!(r.headers.is_empty());
    assert_eq!(r.header_end, 18);
}
