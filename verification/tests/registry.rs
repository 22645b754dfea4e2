use sqs_dispatch::registry::ReceiptSet;

fn set_of(items: &[&str]) -> ReceiptSet {
    let mut s = ReceiptSet::new();
    for r in items {
        s.insert(r.to_string());
    }
    s
}

#[test]
fn new_set_is_empty() {
    let s = ReceiptSet::new();
    assert!(s.is_empty());
    assert_eq!(s.len(), 0);
    assert!(s.snapshot().is_empty());
    assert!(!s.contains(&"r".to_string()));
}

#[test]
fn insert_reports_fresh_and_keeps_order() {
    let mut s = ReceiptSet::new();
    assert!(s.insert("b".to_string()));
    assert!(s.insert("a".to_string()));
    assert!(!s.insert("b".to_string()));
    assert_eq!(s.len(), 2);
    assert!(!s.is_empty());
    assert_eq!(s.snapshot(), vec!["b".to_string(), "a".to_string()]);
    assert!(s.contains(&"a".to_string()));
    assert!(!s.contains(&"c".to_string()));
}

#[test]
fn remove_reports_found_and_keeps_order() {
    let mut s = set_of(&["a", "b", "c"]);
    assert!(s.remove(&"b".to_string()));
    assert!(!s.remove(&"b".to_string()));
    assert!(!s.remove(&"z".to_string()));
    assert_eq!(s.snapshot(), vec!["a".to_string(), "c".to_string()]);
    assert_eq!(s.len(), 2);
}

#[test]
fn insert_all_adds_what_is_new() {
    let mut s = set_of(&["a", "b"]);
    s.insert_all(&set_of(&["c", "a", "d"]));
    assert_eq!(
        s.snapshot(),
        vec!["a".to_string(), "b".to_string(), "c".to_string(), "d".to_string()]
    );
}

#[test]
fn remove_all_takes_out_what_is_named() {
    let mut s = set_of(&["a", "b", "c", "d"]);
    s.remove_all(&set_of(&["d", "x", "b"]));
    assert_eq!(s.snapshot(), vec!["a".to_string(), "c".to_string()]);
    s.remove_all(&ReceiptSet::new());
    assert_eq!(s.len(), 2);
}

#[test]
fn snapshot_is_a_copy() {
    let mut s = set_of(&["a"]);
    let before = s.snapshot();
    s.insert("b".to_string());
    assert_eq!(before, vec!["a".to_string()]);
    assert_eq!(s.snapshot().len(), 2);
}
