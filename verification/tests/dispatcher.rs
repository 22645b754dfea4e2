use sqs_dispatch::batch::{BatchEntry, BatchResponse, FailedEntry, Status};
use sqs_dispatch::dispatch::{
    Dispatch, Dispatcher, Phase, WorkerOutcome, DEFAULT_SHUTDOWN_GRACE_SECONDS,
    HEARTBEAT_INTERVAL_MILLIS, LONG_LEASE_SECONDS, SHORT_LEASE_SECONDS,
};
use sqs_dispatch::message::{Attribute, Message, MessageAttribute};

fn message(id: &str, receipt: Option<&str>, body: &str) -> Message {
    Message::new(
        Some(id.to_string()),
        receipt.map(|r| r.to_string()),
        Some(body.to_string()),
    )
}

fn spawned(decision: Dispatch) -> Message {
    match decision {
        Dispatch::Spawn(m) => m,
        other => panic!("expected a spawn, got {:?}", other),
    }
}

fn receipts(plan: &Vec<Vec<BatchEntry>>) -> Vec<String> {
    let mut all = Vec::new();
    for batch in plan {
        for entry in batch {
            all.push(entry.receipt_handle.clone());
        }
    }
    all
}

fn all_deleted(batch: &Vec<BatchEntry>) -> BatchResponse {
    BatchResponse {
        successful: batch.iter().map(|e| e.id.clone()).collect(),
        failed: Vec::new(),
    }
}

#[test]
fn new_dispatcher_runs_with_nothing_in_flight() {
    let d = Dispatcher::new(LONG_LEASE_SECONDS);
    assert_eq!(d.phase(), Phase::Running);
    assert!(d.accepts_messages());
    assert_eq!(d.visibility_seconds(), 30);
    assert!(d.inflight().is_empty());
    assert!(d.tick_inflight().is_empty());
}

#[test]
fn timing_constants() {
    assert_eq!(HEARTBEAT_INTERVAL_MILLIS, 500);
    assert_eq!(DEFAULT_SHUTDOWN_GRACE_SECONDS, 10);
    assert_eq!(LONG_LEASE_SECONDS, 30);
    assert_eq!(SHORT_LEASE_SECONDS, 1);
}

#[test]
fn happy_path() {
    let mut d = Dispatcher::new(30);
    let m = spawned(d.handle_message(message("m1", Some("r1"), "hello")));
    assert_eq!(m.message_id.as_deref(), Some("m1"));
    assert_eq!(m.body.as_deref(), Some("hello"));
    // Between spawn and completion the registry holds the receipt.
    assert_eq!(d.inflight(), vec!["r1".to_string()]);
    assert!(d.is_inflight(&"r1".to_string()));
    // Nothing has finished yet: no delete is due.
    assert!(d.try_join(&Vec::new()).is_empty());
    assert_eq!(d.inflight(), vec!["r1".to_string()]);

    let plan = d.try_join(&vec![WorkerOutcome::Finished(m)]);
    assert_eq!(plan.len(), 1);
    assert_eq!(plan[0].len(), 1);
    assert_eq!(plan[0][0].id, "0");
    assert_eq!(plan[0][0].receipt_handle, "r1");
    // Until the queue confirms, the receipt stays.
    assert_eq!(d.inflight(), vec!["r1".to_string()]);

    let results = d.delete_completed(&plan[0], &all_deleted(&plan[0]));
    assert_eq!(results.len(), 1);
    assert_eq!(results[0].receipt_handle, "r1");
    assert!(matches!(results[0].status, Status::Succeeded));
    assert!(d.inflight().is_empty());
    // No second delete for the same completion.
    assert!(d.try_join(&Vec::new()).is_empty());
    assert_eq!(d.phase(), Phase::Running);
}

#[test]
fn heartbeat_while_busy() {
    let mut d = Dispatcher::new(30);
    let m = spawned(d.handle_message(message("m2", Some("r2"), "")));
    // Four ticks fall into two seconds of work at 500 ms each.
    for _ in 0..4 {
        let plan = d.tick_inflight();
        assert_eq!(receipts(&plan), vec!["r2".to_string()]);
        assert_eq!(plan[0][0].id, "0");
        assert!(d.try_join(&Vec::new()).is_empty());
    }
    let plan = d.try_join(&vec![WorkerOutcome::Finished(m)]);
    assert_eq!(receipts(&plan), vec!["r2".to_string()]);
    assert_eq!(plan.len(), 1);
    d.delete_completed(&plan[0], &all_deleted(&plan[0]));
    assert!(d.tick_inflight().is_empty());
}

#[test]
fn shutdown_during_work() {
    let mut d = Dispatcher::new(30);
    let m3 = spawned(d.handle_message(message("m3", Some("r3"), "")));
    let m4 = spawned(d.handle_message(message("m4", Some("r4"), "")));
    d.shutdown();
    assert_eq!(d.phase(), Phase::Draining);
    // No new polls, and a message that still arrives is not worked on.
    assert!(!d.accepts_messages());
    match d.handle_message(message("m9", Some("r9"), "")) {
        Dispatch::Refused(m) => assert_eq!(m.message_id.as_deref(), Some("m9")),
        other => panic!("expected a refusal, got {:?}", other),
    }
    assert_eq!(d.inflight(), vec!["r3".to_string(), "r4".to_string()]);
    // No heartbeat once the loop has left the running state.
    assert!(d.tick_inflight().is_empty());

    let plan = d.join(&vec![WorkerOutcome::Finished(m3), WorkerOutcome::Finished(m4)]);
    assert_eq!(receipts(&plan), vec!["r3".to_string(), "r4".to_string()]);
    assert_eq!(d.phase(), Phase::Terminated);
    for batch in &plan {
        d.delete_completed(batch, &all_deleted(batch));
    }
    assert!(d.inflight().is_empty());
}

#[test]
fn shutdown_exceeds_grace() {
    let mut d = Dispatcher::new(30);
    let _held = spawned(d.handle_message(message("m", Some("r-stuck"), "")));
    d.shutdown();
    // The grace period ran out with no worker back.
    let plan = d.join(&Vec::new());
    assert!(plan.is_empty());
    assert_eq!(d.phase(), Phase::Terminated);
    assert_eq!(d.inflight(), vec!["r-stuck".to_string()]);
}

#[test]
fn missing_receipt() {
    let mut d = Dispatcher::new(30);
    let decision = d.handle_message(message("m5", None, "x"));
    assert_eq!(
        decision.warning(),
        Some("message m5 has no receipt handle: dropped".to_string())
    );
    match decision {
        Dispatch::Dropped(m) => {
            assert_eq!(m.message_id.as_deref(), Some("m5"));
            assert_eq!(m.body.as_deref(), Some("x"));
            assert!(!m.has_receipt());
        }
        other => panic!("expected a drop, got {:?}", other),
    }
    assert!(d.inflight().is_empty());
    assert!(d.tick_inflight().is_empty());
    assert!(d.try_join(&Vec::new()).is_empty());
}

#[test]
fn failed_worker_is_not_deleted() {
    let mut d = Dispatcher::new(30);
    let _lost = spawned(d.handle_message(message("m", Some("r-bad"), "")));
    let ok = spawned(d.handle_message(message("n", Some("r-ok"), "")));
    let plan = d.try_join(&vec![WorkerOutcome::Failed, WorkerOutcome::Finished(ok)]);
    assert_eq!(receipts(&plan), vec!["r-ok".to_string()]);
    d.delete_completed(&plan[0], &all_deleted(&plan[0]));
    assert_eq!(d.inflight(), vec!["r-bad".to_string()]);
    assert_eq!(receipts(&d.tick_inflight()), vec!["r-bad".to_string()]);
}

#[test]
fn partial_delete_failure_keeps_receipt() {
    let mut d = Dispatcher::new(30);
    let a = spawned(d.handle_message(message("a", Some("ra"), "")));
    let b = spawned(d.handle_message(message("b", Some("rb"), "")));
    let c = spawned(d.handle_message(message("c", Some("rc"), "")));
    let plan = d.try_join(&vec![
        WorkerOutcome::Finished(a),
        WorkerOutcome::Finished(b),
        WorkerOutcome::Finished(c),
    ]);
    assert_eq!(plan.len(), 1);
    let response = BatchResponse {
        successful: vec!["0".to_string()],
        failed: vec![FailedEntry {
            id: "1".to_string(),
            sender_fault: true,
            code: "ReceiptHandleIsInvalid".to_string(),
        }],
    };
    let results = d.delete_completed(&plan[0], &response);
    assert_eq!(results.len(), 3);
    assert!(matches!(results[0].status, Status::Succeeded));
    match &results[1].status {
        Status::Failed { sender_fault, code } => {
            assert!(*sender_fault);
            assert_eq!(code, "ReceiptHandleIsInvalid");
        }
        other => panic!("expected a failure, got {:?}", other),
    }
    assert!(matches!(results[2].status, Status::Unreported));
    assert_eq!(results[1].receipt_handle, "rb");
    assert_eq!(d.inflight(), vec!["rb".to_string(), "rc".to_string()]);
}

#[test]
fn failed_delete_call_keeps_every_receipt() {
    let mut d = Dispatcher::new(30);
    let a = spawned(d.handle_message(message("a", Some("ra"), "")));
    let plan = d.try_join(&vec![WorkerOutcome::Finished(a)]);
    d.delete_failed(&plan[0]);
    assert_eq!(d.inflight(), vec!["ra".to_string()]);
    // An answer that comes for a call no longer waited for removes nothing.
    d.delete_completed(&plan[0], &all_deleted(&plan[0]));
    assert_eq!(d.inflight(), vec!["ra".to_string()]);
}

#[test]
fn confirmation_without_request_removes_nothing() {
    let mut d = Dispatcher::new(30);
    let _m = spawned(d.handle_message(message("a", Some("ra"), "")));
    let forged = vec![BatchEntry { id: "0".to_string(), receipt_handle: "ra".to_string() }];
    let results = d.delete_completed(&forged, &all_deleted(&forged));
    assert!(matches!(results[0].status, Status::Succeeded));
    assert_eq!(d.inflight(), vec!["ra".to_string()]);
}

#[test]
fn duplicate_receipt_is_held_once() {
    let mut d = Dispatcher::new(30);
    let first = spawned(d.handle_message(message("a", Some("r"), "1")));
    let second = spawned(d.handle_message(message("a", Some("r"), "2")));
    assert_eq!(d.inflight(), vec!["r".to_string()]);
    let plan = d.try_join(&vec![WorkerOutcome::Finished(first), WorkerOutcome::Finished(second)]);
    assert_eq!(receipts(&plan), vec!["r".to_string()]);
}

#[test]
fn redelivery_after_delete_is_worked_on_again() {
    let mut d = Dispatcher::new(30);
    let m = spawned(d.handle_message(message("a", Some("r"), "")));
    let plan = d.try_join(&vec![WorkerOutcome::Finished(m)]);
    d.delete_completed(&plan[0], &all_deleted(&plan[0]));
    assert!(d.inflight().is_empty());
    let again = spawned(d.handle_message(message("a", Some("r"), "")));
    assert_eq!(d.inflight(), vec!["r".to_string()]);
    let plan = d.try_join(&vec![WorkerOutcome::Finished(again)]);
    assert_eq!(receipts(&plan), vec!["r".to_string()]);
}

#[test]
fn heartbeat_covers_every_receipt_in_batches_of_ten() {
    let mut d = Dispatcher::new(SHORT_LEASE_SECONDS);
    let mut expected = Vec::new();
    for i in 0..23 {
        let r = format!("r{}", i);
        spawned(d.handle_message(message("m", Some(&r), "")));
        expected.push(r);
    }
    let plan = d.tick_inflight();
    assert_eq!(plan.len(), 3);
    assert_eq!(plan[0].len(), 10);
    assert_eq!(plan[1].len(), 10);
    assert_eq!(plan[2].len(), 3);
    assert_eq!(receipts(&plan), expected);
    assert_eq!(d.visibility_seconds(), 1);
}

#[test]
fn deletes_only_what_completed() {
    let mut d = Dispatcher::new(30);
    let mut held = Vec::new();
    for i in 0..5 {
        held.push(spawned(d.handle_message(message("m", Some(&format!("r{}", i)), ""))));
    }
    let done = held.remove(3);
    let plan = d.try_join(&vec![WorkerOutcome::Finished(done)]);
    assert_eq!(receipts(&plan), vec!["r3".to_string()]);
}

#[test]
fn join_before_shutdown_changes_nothing() {
    let mut d = Dispatcher::new(30);
    let m = spawned(d.handle_message(message("a", Some("ra"), "")));
    let plan = d.join(&vec![WorkerOutcome::Finished(m)]);
    assert!(plan.is_empty());
    assert_eq!(d.phase(), Phase::Running);
    assert_eq!(d.inflight(), vec!["ra".to_string()]);
}

#[test]
fn terminated_dispatcher_takes_nothing_in() {
    let mut d = Dispatcher::new(30);
    let m = spawned(d.handle_message(message("a", Some("ra"), "")));
    d.shutdown();
    assert!(d.join(&Vec::new()).is_empty());
    assert_eq!(d.phase(), Phase::Terminated);
    assert!(d.try_join(&vec![WorkerOutcome::Finished(m)]).is_empty());
    assert!(d.join(&Vec::new()).is_empty());
    d.shutdown();
    assert_eq!(d.phase(), Phase::Terminated);
    assert!(matches!(
        d.handle_message(message("b", Some("rb"), "")),
        Dispatch::Refused(_)
    ));
}

#[test]
fn try_join_while_draining_still_deletes() {
    let mut d = Dispatcher::new(30);
    let m = spawned(d.handle_message(message("a", Some("ra"), "")));
    d.shutdown();
    let plan = d.try_join(&vec![WorkerOutcome::Finished(m)]);
    assert_eq!(receipts(&plan), vec!["ra".to_string()]);
    assert_eq!(d.phase(), Phase::Draining);
}

#[test]
fn finished_message_without_receipt_asks_for_nothing() {
    let mut d = Dispatcher::new(30);
    let plan = d.try_join(&vec![WorkerOutcome::Finished(message("x", None, ""))]);
    assert!(plan.is_empty());
}

#[test]
fn only_a_dropped_message_calls_for_a_warning() {
    let mut d = Dispatcher::new(30);
    assert_eq!(d.handle_message(message("a", Some("ra"), "")).warning(), None);
    let nameless = Message::new(None, None, Some("x".to_string()));
    assert_eq!(
        d.handle_message(nameless).warning(),
        Some("message without identifier has no receipt handle: dropped".to_string())
    );
    d.shutdown();
    assert_eq!(d.handle_message(message("b", None, "")).warning(), None);
    assert_eq!(d.handle_message(message("c", Some("rc"), "")).warning(), None);
}

#[test]
fn a_message_keeps_all_its_fields_on_its_way() {
    let full = Message {
        message_id: Some("m".to_string()),
        receipt_handle: Some("r".to_string()),
        md5_of_body: Some("5d41402abc4b2a76b9719d911017c592".to_string()),
        body: Some("hello".to_string()),
        attributes: Some(vec![Attribute {
            name: "ApproximateReceiveCount".to_string(),
            value: "2".to_string(),
        }]),
        md5_of_message_attributes: Some("abc".to_string()),
        message_attributes: Some(vec![MessageAttribute {
            name: "kind".to_string(),
            data_type: "Binary".to_string(),
            string_value: None,
            binary_value: Some(vec![1, 2, 3]),
            string_list_values: None,
            binary_list_values: None,
        }]),
    };
    let mut d = Dispatcher::new(30);
    let m = spawned(d.handle_message(full));
    assert_eq!(m.md5_of_body.as_deref(), Some("5d41402abc4b2a76b9719d911017c592"));
    assert_eq!(m.md5_of_message_attributes.as_deref(), Some("abc"));
    let attributes = m.attributes.as_ref().expect("attributes");
    assert_eq!(attributes.len(), 1);
    assert_eq!(attributes[0].name, "ApproximateReceiveCount");
    assert_eq!(attributes[0].value, "2");
    let sent = m.message_attributes.as_ref().expect("attributes");
    assert_eq!(sent[0].name, "kind");
    assert_eq!(sent[0].data_type, "Binary");
    assert_eq!(sent[0].binary_value, Some(vec![1, 2, 3]));
    assert!(sent[0].string_value.is_none());
    let plan = d.try_join(&vec![WorkerOutcome::Finished(m)]);
    assert_eq!(receipts(&plan), vec!["r".to_string()]);
}

#[test]
fn new_message_has_nothing_but_id_receipt_and_body() {
    let m = Message::new(Some("m".to_string()), Some("r".to_string()), Some("b".to_string()));
    assert_eq!(m.message_id.as_deref(), Some("m"));
    assert_eq!(m.receipt_handle.as_deref(), Some("r"));
    assert_eq!(m.body.as_deref(), Some("b"));
    assert!(m.md5_of_body.is_none());
    assert!(m.attributes.is_none());
    assert!(m.md5_of_message_attributes.is_none());
    assert!(m.message_attributes.is_none());
    assert!(m.has_receipt());
}
