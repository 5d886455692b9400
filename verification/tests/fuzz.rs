use unique::server::{find_header_end, parse_head};

/// Runs the head reader over raw bytes: it either reads a head or refuses
/// the bytes, and never panics.
fn parse_http_input(input: &[u8]) -> Result<(), String> {
    if find_header_end(input).is_none() && input.len() > 64 * 1024 {
        return Err("headers too large".to_string());
    }
    match parse_head(input) {
        Ok(_) => Ok(()),
        Err(_) => Err("parse error".to_string()),
    }
}

#[test]
fn fuzz_random_bytes_dont_panic() {
    let mut inputs: Vec<Vec<u8>> = vec![
        b"".to_vec(),
        b"\r\n".to_vec(),
        b"\r\n\r\n".to_vec(),
        b"GET\r\n\r\n".to_vec(),
        b"GET / HTTP/1.1\r\n".to_vec(),
        b"GET / HTTP/1.1\r\n\r\n".to_vec(),
        b"GET / HTTP/1.1\r\nHost: localhost\r\n\r\n".to_vec(),
        b"POST / HTTP/1.1\r\nContent-Length: 5\r\n\r\nhello".to_vec(),
        b"\x00\x01\x02\x03\x04\x05".to_vec(),
        b"GET /../../etc/passwd HTTP/1.1\r\n\r\n".to_vec(),
    ];

    let mut huge_nulls = b"GET / HTTP/1.1\r\nHost: ".to_vec();
    huge_nulls.extend_from_slice(&[0u8; 1000]);
    huge_nulls.extend_from_slice(b"\r\n\r\n");
    inputs.push(huge_nulls);

    let mut pipelined = Vec::new();
    for _ in 0..100 {
        pipelined.extend_from_slice(b"GET / HTTP/1.1\r\n");
    }
    pipelined.extend_from_slice(b"\r\n");
    inputs.push(pipelined);

    for input in &inputs {
        let _ = parse_http_input(input);
    }
}

#[test]
fn fuzz_oversized_headers() {
    let huge_header = format!("X-Huge: {}\r\n", "A".repeat(100_000));
    let input = format!("GET / HTTP/1.1\r\n{huge_header}\r\n");
    let _ = parse_http_input(input.as_bytes());
}

#[test]
fn fuzz_malformed_method() {
    let inputs = vec![
        b"CONNECT / HTTP/1.1\r\n\r\n".to_vec(),
        b"TRACE / HTTP/1.1\r\n\r\n".to_vec(),
        b"PROPFIND / HTTP/1.1\r\n\r\n".to_vec(),
        b"GET\x00 / HTTP/1.1\r\n\r\n".to_vec(),
    ];
    for input in &inputs {
        let _ = parse_http_input(input);
    }
}

#[test]
fn chaos_dropped_connection() {
    let input = b"GET / HTTP/1.1\r\nHost: local";
    let _ = parse_http_input(input);
}

#[test]
fn chaos_pipelined_requests() {
    let input = b"GET /a HTTP/1.1\r\nHost: x\r\n\r\nGET /b HTTP/1.1\r\nHost: x\r\n\r\n";
    let _ = parse_http_input(input);
}
