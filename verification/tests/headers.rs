use unique::headers::Headers;

#[test]
fn stores_headers_inline() {
    let mut h = Headers::new();
    for i in 0..15 {
        h.insert(&format!("x-custom-{i}"), "value");
    }
    assert!(!h.is_heap_allocated(), "should fit in SmallVec inline");
    assert_eq!(h.len(), 15);
}

#[test]
fn spills_to_heap_when_over_capacity() {
    let mut h = Headers::new();
    for i in 0..32 {
        h.insert(&format!("x-custom-{i}"), "value");
    }
    assert!(h.is_heap_allocated(), "should spill to heap");
    assert_eq!(h.len(), 32);
}

#[test]
fn case_insensitive_lookup() {
    let mut h = Headers::new();
    h.insert("Content-Type", "application/json");
    assert_eq!(h.get("content-type"), Some("application/json"));
    assert_eq!(h.get("CONTENT-TYPE"), Some("application/json"));
    assert_eq!(h.get("Content-Type"), Some("application/json"));
    assert_eq!(h.get("missing"), None);
}

#[test]
fn insert_replaces_existing() {
    let mut h = Headers::new();
    h.insert("X-Foo", "1");
    h.insert("x-foo", "2");
    assert_eq!(h.len(), 1);
    assert_eq!(h.get("X-Foo"), Some("2"));
}

#[test]
fn append_does_not_dedupe() {
    let mut h = Headers::new();
    h.append("Set-Cookie", "a=1");
    h.append("Set-Cookie", "b=2");
    assert_eq!(h.len(), 2);
}

#[test]
fn remove_returns_value() {
    let mut h = Headers::new();
    h.insert("X-Foo", "bar");
    assert_eq!(h.remove("x-foo"), Some("bar".to_string()));
    assert_eq!(h.remove("x-foo"), None);
    assert_eq!(h.len(), 0);
}

#[test]
fn from_vec_preserves_pairs() {
    let v = vec![
        ("Content-Type".to_string(), "application/json".to_string()),
        ("X-Request-Id".to_string(), "abc123".to_string()),
    ];
    let h = Headers::from_iter(v);
    assert_eq!(h.get("content-type"), Some("application/json"));
    assert_eq!(h.get("x-request-id"), Some("abc123"));
}

#[test]
fn iter_yields_all_pairs() {
    let mut h = Headers::new();
    h.insert("a", "1");
    h.insert("b", "2");
    let mut pairs: Vec<_> = h.iter().into_iter().map(|(k, v)| (k.to_string(), v.to_string())).collect();
    pairs.sort();
    assert_eq!(pairs, vec![("a".to_string(), "1".to_string()), ("b".to_string(), "2".to_string())]);
}

#[test]
fn names_are_stored_lower_case_and_clone_keeps_pairs() {
    let mut h = Headers::new();
    h.insert("X-Mixed-Case", "v");
    assert_eq!(h.iter(), vec![("x-mixed-case", "v")]);
    let c = h.clone();
    assert_eq!(c.get("x-MIXED-case"), Some("v"));
    assert!(Headers::default().is_empty());
}

#[test]
fn heap_storage_stays_after_removal_and_clone_refits() {
    let mut h = Headers::new();
    for i in 0..16 {
        h.insert(&format!("x-h{i}"), "v");
    }
    assert!(!h.is_heap_allocated());
    h.append("x-extra", "v");
    assert!(h.is_heap_allocated());
    for i in 0..10 {
        h.remove(&format!("x-h{i}"));
    }
    assert_eq!(h.len(), 7);
    assert!(h.is_heap_allocated());
    let c = h.clone();
    assert!(!c.is_heap_allocated());
    assert_eq!(c.len(), 7);
}
