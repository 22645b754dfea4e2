use sqs_dispatch::dispatch::{Dispatch, Dispatcher, WorkerOutcome};
use sqs_dispatch::message::Message;
use sqs_dispatch::pool::{try_drain, work};
use sqs_dispatch::server::Handler;
use std::sync::atomic::{AtomicUsize, Ordering};
use std::sync::Arc;
use std::time::{Duration, Instant};
use tokio::runtime::{Builder, Runtime};
use tokio::task::JoinSet;

fn runtime() -> Runtime {
    Builder::new_multi_thread()
        .worker_threads(1)
        .enable_all()
        .build()
        .expect("a runtime")
}

fn message(receipt: &str) -> Message {
    Message::new(Some("m".to_string()), Some(receipt.to_string()), None)
}

/// Drains until `wanted` outcomes have come, or five seconds have passed.
fn drain_until(rt: &Runtime, workers: &mut JoinSet<Message>, wanted: usize) -> Vec<WorkerOutcome> {
    let start = Instant::now();
    let mut all = Vec::new();
    while all.len() < wanted && start.elapsed() < Duration::from_secs(5) {
        all.extend(try_drain(workers));
        rt.block_on(tokio::time::sleep(Duration::from_millis(5)));
    }
    all
}

#[test]
fn empty_pool_gives_nothing() {
    let mut workers: JoinSet<Message> = JoinSet::new();
    assert!(try_drain(&mut workers).is_empty());
    assert_eq!(workers.len(), 0);
}

#[test]
fn finished_workers_come_out_with_their_messages() {
    let rt = runtime();
    let _guard = rt.enter();
    let mut workers: JoinSet<Message> = JoinSet::new();
    for r in ["ra", "rb", "rc"] {
        let m = message(r);
        workers.spawn_blocking(move || m);
    }
    let outcomes = drain_until(&rt, &mut workers, 3);
    assert_eq!(outcomes.len(), 3);
    assert_eq!(workers.len(), 0);
    let mut receipts: Vec<String> = outcomes
        .into_iter()
        .map(|o| match o {
            WorkerOutcome::Finished(m) => m.receipt_handle.expect("a receipt"),
            WorkerOutcome::Failed => panic!("no worker broke off"),
        })
        .collect();
    receipts.sort();
    assert_eq!(receipts, vec!["ra".to_string(), "rb".to_string(), "rc".to_string()]);
    assert!(try_drain(&mut workers).is_empty());
}

#[test]
fn running_worker_stays_in_the_pool() {
    let rt = runtime();
    let _guard = rt.enter();
    let (release, wait) = std::sync::mpsc::channel::<()>();
    let mut workers: JoinSet<Message> = JoinSet::new();
    let held = message("r-held");
    workers.spawn_blocking(move || {
        let _ = wait.recv();
        held
    });
    let quick = message("r-quick");
    workers.spawn_blocking(move || quick);

    let outcomes = drain_until(&rt, &mut workers, 1);
    assert_eq!(outcomes.len(), 1);
    assert!(matches!(&outcomes[0], WorkerOutcome::Finished(m) if m.receipt_handle.as_deref() == Some("r-quick")));
    assert_eq!(workers.len(), 1);
    assert!(try_drain(&mut workers).is_empty());
    assert_eq!(workers.len(), 1);

    release.send(()).expect("the worker waits");
    let outcomes = drain_until(&rt, &mut workers, 1);
    assert_eq!(outcomes.len(), 1);
    assert!(matches!(&outcomes[0], WorkerOutcome::Finished(m) if m.receipt_handle.as_deref() == Some("r-held")));
    assert_eq!(workers.len(), 0);
}

#[test]
fn broken_worker_is_reported_as_failed() {
    let rt = runtime();
    let _guard = rt.enter();
    let mut workers: JoinSet<Message> = JoinSet::new();
    let abort = workers.spawn(std::future::pending::<Message>());
    abort.abort();
    let outcomes = drain_until(&rt, &mut workers, 1);
    assert_eq!(outcomes.len(), 1);
    assert!(matches!(outcomes[0], WorkerOutcome::Failed));
    assert_eq!(workers.len(), 0);
}

#[test]
fn drained_workers_are_deleted_and_no_others() {
    let rt = runtime();
    let _guard = rt.enter();
    let mut d = Dispatcher::new(30);
    let (release, wait) = std::sync::mpsc::channel::<()>();
    let mut workers: JoinSet<Message> = JoinSet::new();
    match d.handle_message(message("r-slow")) {
        Dispatch::Spawn(m) => {
            workers.spawn_blocking(move || {
                let _ = wait.recv();
                m
            });
        }
        other => panic!("expected a spawn, got {:?}", other),
    }
    match d.handle_message(message("r-fast")) {
        Dispatch::Spawn(m) => {
            workers.spawn_blocking(move || m);
        }
        other => panic!("expected a spawn, got {:?}", other),
    }
    let outcomes = drain_until(&rt, &mut workers, 1);
    let plan = d.try_join(&outcomes);
    assert_eq!(plan.len(), 1);
    assert_eq!(plan[0].len(), 1);
    assert_eq!(plan[0][0].receipt_handle, "r-fast");
    assert_eq!(d.inflight(), vec!["r-slow".to_string(), "r-fast".to_string()]);
    release.send(()).expect("the worker waits");
    let outcomes = drain_until(&rt, &mut workers, 1);
    d.shutdown();
    let plan = d.join(&outcomes);
    assert_eq!(plan[0][0].receipt_handle, "r-slow");
}

#[derive(Clone)]
struct Counting {
    calls: Arc<AtomicUsize>,
    bodies: Arc<std::sync::Mutex<Vec<Option<String>>>>,
}

#[test]
fn work_hands_the_whole_message_to_the_handler() {
    let handler = Counting {
        calls: Arc::new(AtomicUsize::new(0)),
        bodies: Arc::new(std::sync::Mutex::new(Vec::new())),
    };
    for body in ["one", "two"] {
        let m = Message::new(None, Some("r".to_string()), Some(body.to_string()));
        work(&handler, m);
    }
    assert_eq!(handler.calls.load(Ordering::SeqCst), 2);
    assert_eq!(
        *handler.bodies.lock().expect("no poison"),
        vec![Some("one".to_string()), Some("two".to_string())]
    );
}

impl Handler for Counting {
    fn call(&self, req: &Message) {
        self.calls.fetch_add(1, Ordering::SeqCst);
        self.bodies.lock().expect("no poison").push(req.body.clone());
    }
}

#[test]
fn work_calls_the_handler_once_and_returns_the_message() {
    let handler = Counting {
        calls: Arc::new(AtomicUsize::new(0)),
        bodies: Arc::new(std::sync::Mutex::new(Vec::new())),
    };
    let m = Message::new(Some("m1".to_string()), Some("r1".to_string()), Some("hello".to_string()));
    let back = work(&handler, m);
    assert_eq!(handler.calls.load(Ordering::SeqCst), 1);
    assert_eq!(back.message_id.as_deref(), Some("m1"));
    assert_eq!(back.receipt_handle.as_deref(), Some("r1"));
    assert_eq!(back.body.as_deref(), Some("hello"));
    assert_eq!(
        *handler.bodies.lock().expect("no poison"),
        vec![Some("hello".to_string())]
    );
}

#[test]
fn workers_in_the_pool_run_the_handler() {
    let rt = runtime();
    let _guard = rt.enter();
    let handler = Counting {
        calls: Arc::new(AtomicUsize::new(0)),
        bodies: Arc::new(std::sync::Mutex::new(Vec::new())),
    };
    let mut workers: JoinSet<Message> = JoinSet::new();
    for r in ["ra", "rb"] {
        let h = handler.clone();
        let m = message(r);
        workers.spawn_blocking(move || work(&h, m));
    }
    let outcomes = drain_until(&rt, &mut workers, 2);
    assert_eq!(outcomes.len(), 2);
    assert_eq!(handler.calls.load(Ordering::SeqCst), 2);
}
