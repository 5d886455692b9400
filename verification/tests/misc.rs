use unique::text::skip_white_space;
use unique::buffer_ring::BufferRing;
use unique::cli::{generate_admin_html, generate_migrations, scaffold_files, SourceReloadConfig};
use unique::config::{tls_server_config, QueueError, TlsConfig, TlsError, NO_PRIVATE_KEY};
use unique::etag::{etag_outcome, etag_value, fnv1a_64, EtagOutcome};
use unique::frontend::{ssr_outcome, DevModeConfig, SsrError};
use unique::perf::BatchedWriter;

#[test]
fn fnv1a_is_deterministic() {
    assert_eq!(fnv1a_64(b"hello"), fnv1a_64(b"hello"));
    assert_ne!(fnv1a_64(b"hello"), fnv1a_64(b"world"));
}

#[test]
fn fnv1a_known_values() {
    assert_eq!(fnv1a_64(b""), 0xcbf29ce484222325);
}

#[test]
fn fnv1a_reference_value_and_etags() {
    assert_eq!(fnv1a_64(b"a"), 0xaf63dc4c8601ec8c);
    assert_eq!(etag_value(b"a"), "\"af63dc4c8601ec8c\"");
    assert!(matches!(etag_outcome(200, b"", None), EtagOutcome::Unchanged));
    assert!(matches!(etag_outcome(301, b"a", None), EtagOutcome::Unchanged));
    assert!(matches!(etag_outcome(200, b"a", Some("\"af63dc4c8601ec8c\"")), EtagOutcome::NotModified(_)));
    assert!(matches!(etag_outcome(200, b"a", Some("*")), EtagOutcome::NotModified(_)));
    match etag_outcome(200, b"a", Some("\"other\"")) {
        EtagOutcome::Tagged(t) => assert_eq!(t, "\"af63dc4c8601ec8c\""),
        _ => panic!(),
    }
}

#[test]
fn tls_config_from_files() {
    let config = TlsConfig::from_files("cert.pem", "key.pem");
    assert_eq!(config.cert_path.as_str(), "cert.pem");
    assert_eq!(config.key_path.as_str(), "key.pem");
}

#[test]
fn error_messages() {
    assert_eq!(TlsError::InvalidKey("x".into()).message(), "Invalid private key: x");
    assert_eq!(QueueError::QueueFull.message(), "queue is full");
    assert_eq!(SsrError::Spawn("no node".into()).message(), "spawn error: no node");
}

#[test]
fn buffer_ring_acquires_and_releases() {
    let mut ring = BufferRing::new(4, 1024);
    assert_eq!(ring.total_count(), 4);
    assert_eq!(ring.available_count(), 4);

    let id1 = ring.acquire().unwrap();
    let id2 = ring.acquire().unwrap();
    assert_eq!(ring.available_count(), 2);

    ring.release(id1);
    assert_eq!(ring.available_count(), 3);

    ring.release(id2);
    assert_eq!(ring.available_count(), 4);
}

#[test]
fn buffer_ring_returns_none_when_empty() {
    let mut ring = BufferRing::new(2, 1024);
    let _ = ring.acquire().unwrap();
    let _ = ring.acquire().unwrap();
    assert!(ring.acquire().is_none());
}

#[test]
fn buffer_ring_buffers_are_correct_size() {
    let mut ring = BufferRing::new(1, 4096);
    let id = ring.acquire().unwrap();
    let buf = ring.buffer(id).unwrap();
    assert_eq!(buf.len(), 4096);
}

#[test]
fn buffer_ring_hands_out_last_freed_first() {
    let mut ring = BufferRing::new(3, 8);
    assert_eq!(ring.acquire(), Some(2));
    assert_eq!(ring.acquire(), Some(1));
    ring.release(2);
    assert_eq!(ring.acquire(), Some(2));
    assert!(ring.buffer(3).is_none());
    ring.buffer_mut(0).unwrap()[0] = 9;
    assert_eq!(ring.buffer(0).unwrap()[0], 9);
    assert!(ring.has_available());
    assert_eq!(ring.buffer_size(), 8);
}

#[test]
fn batched_writer_accumulates() {
    let mut bw = BatchedWriter::new();
    bw.push(b"hello ".to_vec());
    bw.push(b"world".to_vec());
    assert_eq!(bw.total_size(), 11);
    assert!(!bw.is_empty());
    assert_eq!(bw.into_flattened(), b"hello world".to_vec());
}

#[test]
fn admin_page_and_migrations() {
    let html = generate_admin_html("Shop API");
    assert!(html.starts_with("<!doctype html>"));
    assert!(html.contains("<title>Shop API \u{2014} Admin Dashboard</title>"));
    assert_eq!(html.matches("Shop API").count(), 2);
    assert!(!html.contains("{{"));
    let m = generate_migrations(".");
    assert_eq!(m.len(), 3);
    assert_eq!(m[0], "-- Kungfu migration generator");
}

#[test]
fn default_settings() {
    let s = SourceReloadConfig::default();
    assert_eq!(s.watch_paths, vec!["src".to_string(), "routes".to_string()]);
    assert_eq!(s.debounce_ms, 500);
    assert_eq!(s.build_command, vec!["cargo".to_string(), "build".to_string(), "--release".to_string()]);
    let d = DevModeConfig::default();
    assert_eq!(d.routes_types_path.as_deref(), Some("frontend/routes.d.ts"));
    assert!(d.inject_livereload);
    let w = DevModeConfig::watching(vec!["src".to_string()], Some("routes.d.ts".to_string()));
    assert_eq!(w.watch_paths.len(), 1);
    assert!(w.inject_livereload);
}

#[test]
fn new_project_files() {
    let files = scaffold_files("blog");
    let paths: Vec<&str> = files.iter().map(|(p, _)| p.as_str()).collect();
    assert_eq!(paths, vec!["Cargo.toml", "src/main.rs", "README.md", ".gitignore"]);
    assert!(files[0].1.starts_with("[package]\nname = \"blog\"\nversion = \"0.1.0\""));
    assert!(files[0].1.contains("[[bin]]\nname = \"blog\"\npath = \"src/main.rs\"\n"));
    assert!(files[0].1.contains("unique-core = { path = \"../core\" }"));
    assert!(files[1].1.contains(".handle_get(\"/hello\", |_req, res| res.text(\"world\"))"));
    assert!(files[2].1.starts_with("# blog\n\nA [Unique.js]"));
    assert_eq!(files[3].1, "/target\nCargo.lock\n");
}

const TEST_CERT: &str = "-----BEGIN CERTIFICATE-----\nMIIBfzCCASWgAwIBAgIUUveSjulTFL3G8GntLd0ftDyxPVQwCgYIKoZIzj0EAwIw\nFDESMBAGA1UEAwwJbG9jYWxob3N0MCAXDTI2MTExOTIxMTM0NloYDzIxMjYxMDI2\nMjExMzQ2WjAUMRIwEAYDVQQDDAlsb2NhbGhvc3QwWTATBgcqhkjOPQIBBggqhkjO\nPQMBBwNCAAS2kjkys8WcfchMI/V1dwk+pfmEdqrNX5k/fDQDoEH/7bEbV6tMSqwT\nFZb8VYh72lJydtg+Eh0vKSfCJRoiI6e6o1MwUTAdBgNVHQ4EFgQUyZs04d5Qt6ox\nNJZriWdQliGyHqgwHwYDVR0jBBgwFoAUyZs04d5Qt6oxNJZriWdQliGyHqgwDwYD\nVR0TAQH/BAUwAwEB/zAKBggqhkjOPQQDAgNIADBFAiEAmUEu7evunGQpzzj+tQHG\nyR5yn7SpxOHZTEOG7AKtKcUCID7ZDGcvC1oFCSTHtIpu1tHI/7TU8fPpjIiha+L4\nq4Tq\n-----END CERTIFICATE-----\n";

#[test]
fn tls_setup_needs_a_private_key() {
    match tls_server_config(TEST_CERT.as_bytes(), b"") {
        Err(TlsError::InvalidKey(m)) => assert_eq!(m, NO_PRIVATE_KEY),
        _ => panic!("expected InvalidKey"),
    }
    // An empty chain reads without error; a file with only a certificate holds no key.
    match tls_server_config(b"", TEST_CERT.as_bytes()) {
        Err(TlsError::InvalidKey(_)) => {}
        _ => panic!("expected InvalidKey"),
    }
}

#[test]
fn tls_setup_refuses_a_broken_certificate() {
    let broken = b"-----BEGIN CERTIFICATE-----\n!!!!\n-----END CERTIFICATE-----\n";
    assert!(matches!(tls_server_config(broken, b""), Err(TlsError::InvalidCert(_))));
}

#[test]
fn dev_mode_can_be_constructed() {
    let dev = DevModeConfig::watching(vec!["src".into()], Some("routes.d.ts".into()));
    assert_eq!(dev.watch_paths.len(), 1);
    assert!(dev.inject_livereload);
}

#[test]
fn render_outcomes() {
    assert_eq!(ssr_outcome(true, "<h1>hi</h1>".to_string(), "Some(0)", "").unwrap(), "<h1>hi</h1>");
    match ssr_outcome(false, String::new(), "Some(1)", "  boom\n") {
        Err(SsrError::Execution(m)) => assert_eq!(m, "node exited with status Some(1): boom"),
        _ => panic!("expected Execution"),
    }
}

#[test]
fn white_space_agrees_with_std_on_every_char() {
    for u in 0u32..=0x10ffff {
        if let Some(c) = char::from_u32(u) {
            let s = [c];
            assert_eq!(skip_white_space(&s, 0) == 1, c.is_whitespace(), "code point {u:#x}");
        }
    }
}

#[test]
fn buffer_ring_reads_back_what_was_written() {
    let mut ring = BufferRing::new(3, 4);
    let id = ring.acquire().unwrap();
    ring.buffer_mut(id).unwrap().copy_from_slice(&[1, 2, 3, 4]);
    assert_eq!(ring.available_count(), 2);
    assert_eq!(ring.buffer(id).unwrap(), &[1, 2, 3, 4]);
    for other in 0..3 {
        if other != id {
            assert_eq!(ring.buffer(other).unwrap(), &[0, 0, 0, 0]);
        }
    }
    assert!(ring.buffer_mut(3).is_none());
    assert_eq!(ring.available_count(), 2);
}
