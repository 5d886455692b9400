use unique::pending::PendingReplies;

#[test]
fn ids_count_up_from_one() {
    let mut p: PendingReplies<&str> = PendingReplies::new();
    assert_eq!(p.open("a"), 1);
    assert_eq!(p.open("b"), 2);
    assert_eq!(p.len(), 2);
}

#[test]
fn a_slot_is_taken_once() {
    let mut p: PendingReplies<String> = PendingReplies::new();
    let id = p.open("reply".to_string());
    assert_eq!(p.take(id), Some("reply".to_string()));
    assert_eq!(p.take(id), None);
    assert_eq!(p.len(), 0);
}

#[test]
fn unknown_ids_take_nothing() {
    let mut p: PendingReplies<u16> = PendingReplies::new();
    let _ = p.open(200);
    assert_eq!(p.take(99), None);
    assert_eq!(p.len(), 1);
}
