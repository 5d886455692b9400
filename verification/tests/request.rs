use unique::request::{parse_query, percent_decode, Method, Request, RequestError};
use unique::strmap::StrMap;
use unique::auth::url_encode;

#[test]
fn parses_form_body() {
    let req = Request {
        method: Method::Post,
        path: "/".into(),
        query_string: String::new(),
        query: StrMap::new(),
        version: "HTTP/1.1".into(),
        headers: vec![("content-type".into(), "application/x-www-form-urlencoded".into())],
        params: StrMap::new(),
        body: b"name=alice&email=alice%40example.com".to_vec(),
        remote_addr: None,
    };
    let form = req.form().unwrap();
    assert_eq!(form.get("name"), Some(&"alice".to_string()));
    assert_eq!(form.get("email"), Some(&"alice@example.com".to_string()));
}

#[test]
fn parses_query_string() {
    let q = parse_query("a=1&b=2&c=hello%20world");
    assert_eq!(q.get("a"), Some(&"1".to_string()));
    assert_eq!(q.get("b"), Some(&"2".to_string()));
    assert_eq!(q.get("c"), Some(&"hello world".to_string()));
}

#[test]
fn percent_decoding_edge_cases() {
    assert_eq!(percent_decode("a+b"), "a b");
    assert_eq!(percent_decode("%41%42"), "AB");
    assert_eq!(percent_decode("%4"), "%4");
    assert_eq!(percent_decode("%zz"), "%zz");
    assert_eq!(percent_decode("%+5x"), "\u{5}x");
    assert_eq!(percent_decode("%ff"), "");
    assert_eq!(percent_decode("%C3%A9"), "é");
}

#[test]
fn query_keys_without_values_and_repeats() {
    let q = parse_query("a&b=&a=2");
    assert_eq!(q.get("a"), Some(&"2".to_string()));
    assert_eq!(q.get("b"), Some(&"".to_string()));
    assert!(parse_query("").is_empty());
}

#[test]
fn header_lookup_and_content_length() {
    let mut req = Request::new(Method::Get, "/x");
    assert_eq!(req.version, "HTTP/1.1");
    req.headers.push(("Content-Length".into(), "12".into()));
    req.headers.push(("content-type".into(), "text/plain".into()));
    assert_eq!(req.header("content-length"), Some("12"));
    assert_eq!(req.content_length(), Some(12));
    assert_eq!(req.content_type(), Some("text/plain"));
    assert_eq!(req.param("id"), None);
    assert_eq!(req.query("q"), None);
}

#[test]
fn form_body_must_be_utf8() {
    let mut req = Request::new(Method::Post, "/");
    req.body = vec![0xff, 0xfe];
    assert!(matches!(req.form(), Err(RequestError::FormNotUtf8)));
    assert_eq!(RequestError::FormNotUtf8.message(), "Form body is not valid UTF-8");
    assert_eq!(RequestError::FormNotUtf8.status(), 400);
}

#[test]
fn json_body() {
    let mut req = Request::new(Method::Post, "/");
    req.body = br#"{"a":1}"#.to_vec();
    assert_eq!(req.json_value().unwrap()["a"], 1);
    req.body = b"{".to_vec();
    assert!(matches!(req.json_value(), Err(RequestError::InvalidJson(_))));
}

#[test]
fn percent_decode_undoes_url_encode_on_ascii() {
    let every_ascii: String = (0u8..128).map(char::from).collect();
    for s in ["hello world", "a@b.com", "x+y=z&q=%41", "", "~-_.", every_ascii.as_str()] {
        assert_eq!(percent_decode(&url_encode(s)), s);
    }
}
