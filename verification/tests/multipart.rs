use unique::multipart::{parse_multipart, parse_multipart_checked};
use unique::request::{Method, Request, RequestError};

#[test]
fn parses_simple_multipart_form() {
    let boundary = "----WebKitFormBoundaryABC123";
    let body = format!(
        "--{boundary}\r\n\
         Content-Disposition: form-data; name=\"field1\"\r\n\r\n\
         value1\r\n\
         --{boundary}\r\n\
         Content-Disposition: form-data; name=\"file\"; filename=\"test.txt\"\r\n\
         Content-Type: text/plain\r\n\r\n\
         hello world\r\n\
         --{boundary}--\r\n"
    );
    let body_bytes = body.as_bytes();

    let multipart = parse_multipart(body_bytes, boundary).unwrap();
    assert_eq!(multipart.parts.len(), 2);

    assert_eq!(multipart.parts[0].name, "field1");
    assert_eq!(multipart.parts[0].filename, None);
    assert_eq!(multipart.parts[0].body, b"value1".to_vec());

    assert_eq!(multipart.parts[1].name, "file");
    assert_eq!(multipart.parts[1].filename.as_deref(), Some("test.txt"));
    assert_eq!(multipart.parts[1].body, b"hello world".to_vec());
    assert_eq!(multipart.parts[1].headers.get("content-type"), Some(&"text/plain".to_string()));
}

#[test]
fn rejects_non_multipart_content_type() {
    let mut req = Request::new(Method::Post, "/upload");
    req.headers.push(("content-type".into(), "application/json".into()));
    let result = req.multipart();
    assert!(result.is_err());
}

#[test]
fn rejects_missing_boundary() {
    let mut req = Request::new(Method::Post, "/upload");
    req.headers.push(("content-type".into(), "multipart/form-data".into()));
    let result = req.multipart();
    assert!(result.is_err());
}

#[test]
fn multipart_errors_by_kind() {
    let req = Request::new(Method::Post, "/upload");
    assert!(matches!(req.multipart(), Err(RequestError::MissingContentType)));
    assert!(matches!(parse_multipart(b"no boundary here", "B"), Err(RequestError::MissingInitialBoundary)));
    assert!(matches!(parse_multipart(b"--B\r\nno blank line\r\n--B--", "B"), Err(RequestError::MalformedPart)));
}

#[test]
fn multipart_from_request_with_quoted_boundary() {
    let mut req = Request::new(Method::Post, "/upload");
    req.headers.push(("content-type".into(), "multipart/form-data; boundary=\"XY\"".into()));
    req.body = b"--XY\r\nContent-Disposition: form-data; name=a\r\n\r\n1\r\n--XY--\r\n".to_vec();
    let m = req.multipart().unwrap();
    assert_eq!(m.parts.len(), 1);
    assert_eq!(m.parts[0].name, "a");
    assert_eq!(m.parts[0].body, b"1".to_vec());
}

#[test]
fn checked_parse_refuses_a_part_that_ends_before_it_starts() {
    let r = parse_multipart_checked(b"--B\r\n--B--", "B");
    assert!(matches!(r, Err(RequestError::MalformedPart)));
}

#[test]
fn checked_parse_reads_ordinary_bodies() {
    let body = b"--B\r\nContent-Disposition: form-data; name=\"a\"\r\n\r\nhello\r\n--B--\r\n";
    let m = parse_multipart_checked(body, "B").unwrap();
    assert_eq!(m.parts.len(), 1);
    assert_eq!(m.parts[0].name, "a");
    assert_eq!(m.parts[0].body, b"hello".to_vec());
}
