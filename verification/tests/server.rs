use unique::request::{Method, Request};
use unique::router::Router;
use unique::server::{
    build_request, check_head, connection_value, find_header_end, is_websocket_upgrade, keep_alive,
    parse_head, plan_body, plan_dispatch, reason_phrase, serialize_response, switching_protocols, underlying_io_eof,
    BodyPlan, HeadProgress, Plan, ServerError,
};

#[test]
fn head_end_and_progress() {
    assert_eq!(find_header_end(b"GET / HTTP/1.1\r\n\r\nbody"), Some(18));
    assert_eq!(find_header_end(b"GET / HTTP/1.1\r\n"), None);
    assert!(matches!(check_head(b"GET / HTTP/1.1\r\n"), HeadProgress::NeedMore));
    assert!(matches!(check_head(b"GET / HTTP/1.1\r\n\r\n"), HeadProgress::Complete(18)));
    let big = vec![b'a'; 65537];
    assert!(matches!(check_head(&big), HeadProgress::TooLarge));
}

#[test]
fn reads_a_head_with_httparse() {
    let buf = b"POST /items?x=1&y=2 HTTP/1.0\r\nHost: a\r\nContent-Length: 3\r\n\r\nabcdef";
    let head = parse_head(buf).unwrap();
    assert_eq!(head.method, Method::Post);
    assert_eq!(head.path, "/items");
    assert_eq!(head.query_string, "x=1&y=2");
    assert_eq!(head.version, "HTTP/1.0");
    assert_eq!(head.headers, vec![("host".to_string(), "a".to_string()), ("content-length".to_string(), "3".to_string())]);
    assert_eq!(head.content_length, Some(3));
    assert_eq!(head.body_start, buf.len() - 6);
    let start = head.body_start;
    let cl = head.content_length;
    match plan_body(buf, start, cl).unwrap() {
        BodyPlan::Ready(b) => assert_eq!(b, b"abc".to_vec()),
        _ => panic!(),
    }
    let req = build_request(head, b"abc".to_vec(), None);
    assert_eq!(req.query("y"), Some("2"));
    assert!(!keep_alive(&req));
}

#[test]
fn head_errors() {
    let e = parse_head(b"BREW / HTTP/1.1\r\n\r\n").unwrap_err();
    assert_eq!(e.status, 400);
    assert_eq!(e.message, "Unsupported method");
    let e = parse_head(b"GET / HTTP/1.1\r\nHost").unwrap_err();
    assert_eq!(e.message, "Incomplete HTTP request");
    let e = plan_body(b"", 0, Some(16 * 1024 * 1024 + 1)).err().unwrap();
    assert_eq!(e.message, "Body too large");
    match plan_body(b"ab", 0, Some(5)).unwrap() {
        BodyPlan::NeedMore { have, want } => {
            assert_eq!(have, b"ab".to_vec());
            assert_eq!(want, 5);
        }
        _ => panic!(),
    }
}

#[test]
fn connection_decisions() {
    let mut req = Request::new(Method::Get, "/");
    assert!(keep_alive(&req));
    req.headers.push(("connection".into(), "Upgrade".into()));
    req.headers.push(("upgrade".into(), "WebSocket".into()));
    assert!(is_websocket_upgrade(&req));
    req.version = "HTTP/1.0".into();
    assert!(!keep_alive(&req));
    assert_eq!(connection_value(false, true), Some("close"));
    assert_eq!(connection_value(true, false), Some("keep-alive"));
    assert_eq!(connection_value(true, true), None);
    assert!(switching_protocols("k").ends_with("Sec-WebSocket-Accept: k\r\n\r\n"));
    assert!(underlying_io_eof(&ServerError::internal("UnexpectedEof")).is_some());
    assert!(underlying_io_eof(&ServerError::new(400, "UnexpectedEof")).is_none());
}

#[test]
fn dispatch_plans() {
    let mut r: Router<&'static str, (), ()> = Router::new();
    r.get("/a/:id", "a").unwrap();
    match plan_dispatch(&r, Method::Get, "/a/7") {
        Plan::Route(h, params) => {
            assert_eq!(*h, "a");
            assert_eq!(params.get("id"), Some(&"7".to_string()));
        }
        _ => panic!(),
    }
    match plan_dispatch(&r, Method::Post, "/a/7") {
        Plan::Error(code, m) => {
            assert_eq!(code, 405);
            assert_eq!(m, "Method POST not allowed on /a/7");
        }
        _ => panic!(),
    }
    match plan_dispatch(&r, Method::Get, "/b") {
        Plan::Error(code, m) => {
            assert_eq!(code, 404);
            assert_eq!(m, "No route for GET /b");
        }
        _ => panic!(),
    }
    r.set_fallback("fb");
    assert!(matches!(plan_dispatch(&r, Method::Get, "/b"), Plan::Fallback(&"fb")));
}

#[test]
fn serializes_responses() {
    let out = serialize_response(200, "OK", &vec![("content-type".into(), "text/plain".into())], b"world");
    assert_eq!(
        String::from_utf8(out).unwrap(),
        "HTTP/1.1 200 OK\r\ncontent-type: text/plain\r\ncontent-length: 5\r\nconnection: keep-alive\r\n\r\nworld"
    );
    let out = serialize_response(
        204,
        "No Content",
        &vec![("Content-Length".into(), "0".into()), ("Connection".into(), "close".into())],
        b"",
    );
    assert_eq!(
        String::from_utf8(out).unwrap(),
        "HTTP/1.1 204 No Content\r\nContent-Length: 0\r\nConnection: close\r\n\r\n"
    );
}

#[test]
fn reason_phrases() {
    assert_eq!(reason_phrase(200), "OK");
    assert_eq!(reason_phrase(304), "Not Modified");
    assert_eq!(reason_phrase(404), "Not Found");
    assert_eq!(reason_phrase(405), "Method Not Allowed");
    assert_eq!(reason_phrase(429), "Too Many Requests");
    assert_eq!(reason_phrase(599), "Unknown");
}
