use std::io::Read;
use unique::compress::{accepts_gzip, gzip_body, gzip_headers, is_precompressed_type, should_compress};

#[test]
fn gzip_is_asked_for_in_any_case() {
    assert!(accepts_gzip(Some("deflate, GZip;q=0.8")));
    assert!(!accepts_gzip(Some("deflate, br")));
    assert!(!accepts_gzip(None));
}

#[test]
fn compressed_types_are_skipped() {
    assert!(is_precompressed_type("image/png"));
    assert!(is_precompressed_type("Video/mp4"));
    assert!(is_precompressed_type("audio/ogg"));
    assert!(is_precompressed_type("application/zip"));
    assert!(is_precompressed_type("application/x-compress"));
    assert!(is_precompressed_type("application/octet-stream"));
    assert!(!is_precompressed_type("application/json"));
    assert!(!is_precompressed_type("text/html; charset=utf-8"));
}

#[test]
fn compression_rule() {
    assert!(should_compress(Some("gzip"), 256, None, Some("application/json")));
    assert!(should_compress(Some("gzip"), 1000, None, None));
    assert!(!should_compress(Some("gzip"), 255, None, None));
    assert!(!should_compress(None, 1000, None, None));
    assert!(!should_compress(Some("gzip"), 1000, Some("br"), None));
    assert!(!should_compress(Some("gzip"), 1000, None, Some("image/jpeg")));
}

#[test]
fn gzipped_body_decompresses_to_the_input() {
    let body = "hello world ".repeat(100).into_bytes();
    let out = gzip_body(Some("gzip"), &body, None, Some("text/plain")).unwrap();
    assert_ne!(out, body);
    assert!(out.len() < body.len());
    let mut d = flate2::read::GzDecoder::new(&out[..]);
    let mut back = Vec::new();
    d.read_to_end(&mut back).unwrap();
    assert_eq!(back, body);
}

#[test]
fn small_bodies_are_left_alone() {
    assert!(gzip_body(Some("gzip"), b"tiny", None, None).is_none());
}

#[test]
fn gzip_response_headers() {
    let h = gzip_headers();
    assert_eq!(h, vec![
        ("content-encoding".to_string(), "gzip".to_string()),
        ("vary".to_string(), "Accept-Encoding".to_string()),
    ]);
}
