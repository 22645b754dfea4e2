use sqs_dispatch::batch::{plan_batches, BatchEntry};
use sqs_dispatch::request::{change_message_visibility_batch, delete_message_batch};

fn batch() -> Vec<BatchEntry> {
    vec![
        BatchEntry { id: "0".to_string(), receipt_handle: "ra".to_string() },
        BatchEntry { id: "1".to_string(), receipt_handle: "rb".to_string() },
    ]
}

#[test]
fn delete_entries_carry_id_and_receipt() {
    let entries = delete_message_batch(&batch());
    assert_eq!(entries.len(), 2);
    assert_eq!(entries[0].id(), "0");
    assert_eq!(entries[0].receipt_handle(), "ra");
    assert_eq!(entries[1].id(), "1");
    assert_eq!(entries[1].receipt_handle(), "rb");
}

#[test]
fn visibility_entries_carry_id_receipt_and_timeout() {
    let entries = change_message_visibility_batch(&batch(), 30);
    assert_eq!(entries.len(), 2);
    assert_eq!(entries[0].id(), "0");
    assert_eq!(entries[0].receipt_handle(), "ra");
    assert_eq!(entries[0].visibility_timeout(), Some(30));
    assert_eq!(entries[1].id(), "1");
    assert_eq!(entries[1].receipt_handle(), "rb");
    assert_eq!(entries[1].visibility_timeout(), Some(30));
    let short = change_message_visibility_batch(&batch(), 1);
    assert_eq!(short[0].visibility_timeout(), Some(1));
}

#[test]
fn equal_batches_give_equal_entries() {
    assert_eq!(delete_message_batch(&batch()), delete_message_batch(&batch()));
    assert_eq!(
        change_message_visibility_batch(&batch(), 5),
        change_message_visibility_batch(&batch(), 5)
    );
    assert_ne!(
        change_message_visibility_batch(&batch(), 5),
        change_message_visibility_batch(&batch(), 6)
    );
}

#[test]
fn empty_batch_gives_no_entries() {
    assert!(delete_message_batch(&Vec::new()).is_empty());
    assert!(change_message_visibility_batch(&Vec::new(), 30).is_empty());
}

#[test]
fn planned_batches_become_requests_of_at_most_ten() {
    let receipts: Vec<String> = (0..12).map(|i| format!("r{}", i)).collect();
    let plan = plan_batches(&receipts);
    let calls: Vec<_> = plan.iter().map(delete_message_batch).collect();
    assert_eq!(calls.len(), 2);
    assert_eq!(calls[0].len(), 10);
    assert_eq!(calls[1].len(), 2);
    assert_eq!(calls[1][1].id(), "1");
    assert_eq!(calls[1][1].receipt_handle(), "r11");
}
