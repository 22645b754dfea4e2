//! The dispatcher: what to do on each event of the loop.
//!
//! The loop that owns a [`Dispatcher`] waits for one of three things: a
//! heartbeat tick, the result of a poll, the signal to stop. It tells the
//! dispatcher what happened and carries out what the dispatcher answers:
//! hand a message to a worker, change the visibility of receipts, delete
//! receipts.
use crate::batch::{
    decimal, lemma_planned, plan_batches, plan_receipts, planned, settle, settled, status_of, BatchEntry,
    BatchResponse, EntryView, ReceiptResult, ResponseView, Status,
};
use crate::history::{
    completed_at, confirmed_at, in_order, lemma_in_order_finished, lemma_in_order_push,
    lemma_outstanding_push, lemma_requested_grows, no_dispatch_after_stop, outstanding, requested,
    requested_at, stopped, Event,
};
use crate::message::{Message, MessageView};
use crate::registry::{absent_from, lemma_filter_absent, ReceiptSet};
use vstd::prelude::*;

verus! {

/// Milliseconds between two heartbeat ticks.
pub const HEARTBEAT_INTERVAL_MILLIS: u64 = 500;

/// Seconds that workers are given to finish after the signal to stop, unless
/// the caller sets another time.
pub const DEFAULT_SHUTDOWN_GRACE_SECONDS: u64 = 10;

/// Visibility timeout that keeps a delivery hidden from other consumers
/// from one heartbeat to the next, with room to spare.
pub const LONG_LEASE_SECONDS: i32 = 30;

/// Visibility timeout that lets a delivery return to the queue almost at
/// once. Sent with every heartbeat it works against the worker that still
/// holds the delivery: use it only to release deliveries early.
pub const SHORT_LEASE_SECONDS: i32 = 1;

/// Where the dispatcher stands in its life.
#[derive(Clone, Copy, Debug, PartialEq, Eq, Structural)]
pub enum Phase {
    /// Polling, dispatching, sending heartbeats.
    Running,
    /// Told to stop: no new messages, waiting for the workers.
    Draining,
    /// Done: the loop returns.
    Terminated,
}

/// How one worker ended.
#[derive(Debug)]
pub enum WorkerOutcome {
    /// The handler returned; the worker gives its message back.
    Finished(Message),
    /// The worker broke off before the handler returned.
    Failed,
}

/// What is to be done with a message that a poll returned.
#[derive(Debug)]
pub enum Dispatch {
    /// Hand it to a worker.
    Spawn(Message),
    /// It has no receipt and cannot be worked on: warn and let it go.
    Dropped(Message),
    /// The dispatcher takes no new messages: let it go, the queue will
    /// deliver it again.
    Refused(Message),
}

/// The warning for a message that was let go for want of a receipt.
pub open spec fn warning_text(message: MessageView) -> Seq<char> {
    "message "@ + (match message.message_id {
        Some(id) => id,
        None => "without identifier"@,
    }) + " has no receipt handle: dropped"@
}

/// The warning that goes with a decision: one for a message that was
/// dropped, none with any other decision.
pub open spec fn warning_of(decision: Dispatch) -> Option<Seq<char>> {
    match decision {
        Dispatch::Dropped(m) => Some(warning_text(m@)),
        _ => None,
    }
}

impl Dispatch {
    /// The warning to log with this decision, if it calls for one.
    pub fn warning(&self) -> (text: Option<String>)
        ensures
            text.deep_view() == warning_of(*self),
    {
        match self {
            Dispatch::Dropped(message) => {
                let mut text = String::from_str("message ");
                match &message.message_id {
                    Some(id) => text.append(id.as_str()),
                    None => text.append("without identifier"),
                }
                text.append(" has no receipt handle: dropped");
                Some(text)
            },
            _ => None,
        }
    }
}

/// Mathematical value of a [`Dispatcher`].
pub struct DispatcherView {
    /// Where the dispatcher stands.
    pub phase: Phase,
    /// The inflight registry, oldest receipt first.
    pub inflight: Seq<Seq<char>>,
    /// Receipts whose deletion was asked for and is not yet answered.
    pub deleting: Set<Seq<char>>,
    /// Visibility timeout sent with each heartbeat.
    pub visibility_seconds: i32,
    /// All that the dispatcher did and was told, oldest first.
    pub history: Seq<Event>,
}

/// The state of the dispatcher loop.
pub struct Dispatcher {
    phase: Phase,
    inflight: ReceiptSet,
    deleting: ReceiptSet,
    visibility_seconds: i32,
    history: Ghost<Seq<Event>>,
}

impl View for Dispatcher {
    type V = DispatcherView;

    closed spec fn view(&self) -> DispatcherView {
        DispatcherView {
            phase: self.phase,
            inflight: self.inflight.order(),
            deleting: self.deleting@,
            visibility_seconds: self.visibility_seconds,
            history: self.history@,
        }
    }
}

/// What a dispatcher in state `v` decides for `message`.
pub open spec fn dispatch_of(v: DispatcherView, message: Message) -> Dispatch {
    if !(v.phase is Running) {
        Dispatch::Refused(message)
    } else if message@.receipt_handle is None {
        Dispatch::Dropped(message)
    } else {
        Dispatch::Spawn(message)
    }
}

/// The state after a dispatcher in state `v` was handed `message`: a message
/// that goes to a worker has its receipt in the registry.
pub open spec fn after_message(v: DispatcherView, message: Message) -> DispatcherView {
    match dispatch_of(v, message) {
        Dispatch::Spawn(m) => {
            let r = m@.receipt_handle->0;
            DispatcherView {
                inflight: if v.inflight.contains(r) {
                    v.inflight
                } else {
                    v.inflight.push(r)
                },
                history: v.history.push(Event::Dispatched(r)),
                ..v
            }
        },
        _ => v,
    }
}

/// The state after a dispatcher in state `v` was told to stop.
pub open spec fn after_shutdown(v: DispatcherView) -> DispatcherView {
    if v.phase is Running {
        DispatcherView { phase: Phase::Draining, history: v.history.push(Event::Stopped), ..v }
    } else {
        v
    }
}

/// The visibility changes due at a heartbeat tick in state `v`: while
/// running, one entry for each receipt in the registry.
pub open spec fn heartbeat_plan(v: DispatcherView) -> Seq<Seq<EntryView>> {
    if v.phase is Running {
        planned(v.inflight)
    } else {
        Seq::empty()
    }
}

/// The receipt that a worker gives back, if it ended well and its message
/// has one.
pub open spec fn finished_receipt(outcome: WorkerOutcome) -> Option<Seq<char>> {
    match outcome {
        WorkerOutcome::Finished(m) => m@.receipt_handle,
        WorkerOutcome::Failed => None,
    }
}

/// The receipts of the workers that ended well.
pub open spec fn finished_set(outcomes: Seq<WorkerOutcome>) -> Set<Seq<char>> {
    Set::new(
        |r: Seq<char>|
            exists|k: int|
                0 <= k < outcomes.len() && finished_receipt(#[trigger] outcomes[k]) == Some(r),
    )
}

/// The receipts of the workers that ended well, each once, in the order in
/// which they first occur.
pub open spec fn finished_order(outcomes: Seq<WorkerOutcome>) -> Seq<Seq<char>>
    decreases outcomes.len(),
{
    if outcomes.len() == 0 {
        Seq::empty()
    } else {
        let before = finished_order(outcomes.drop_last());
        match finished_receipt(outcomes.last()) {
            Some(r) => if before.contains(r) {
                before
            } else {
                before.push(r)
            },
            None => before,
        }
    }
}

/// The ordered receipts of the finished workers are those of the set, each
/// once.
pub proof fn lemma_finished_order(outcomes: Seq<WorkerOutcome>)
    ensures
        finished_order(outcomes).no_duplicates(),
        finished_order(outcomes).to_set() == finished_set(outcomes),
    decreases outcomes.len(),
{
    let order = finished_order(outcomes);
    if outcomes.len() == 0 {
        assert(order.to_set() =~= finished_set(outcomes));
    } else {
        let init = outcomes.drop_last();
        let before = finished_order(init);
        lemma_finished_order(init);
        assert forall|x: Seq<char>| order.to_set().contains(x) <==> finished_set(outcomes).contains(
            x,
        ) by {
            if order.contains(x) {
                if before.contains(x) {
                    assert(before.to_set().contains(x));
                    let k = choose|k: int|
                        0 <= k < init.len() && finished_receipt(#[trigger] init[k]) == Some(x);
                    assert(outcomes[k] == init[k]);
                } else {
                    let i = choose|i: int| 0 <= i < order.len() && order[i] == x;
                    assert(finished_receipt(outcomes[outcomes.len() - 1]) == Some(x));
                }
            }
            if finished_set(outcomes).contains(x) {
                let k = choose|k: int|
                    0 <= k < outcomes.len() && finished_receipt(#[trigger] outcomes[k]) == Some(x);
                if k < init.len() {
                    assert(init[k] == outcomes[k]);
                    assert(finished_set(init).contains(x));
                    assert(before.to_set().contains(x));
                    let i = choose|i: int| 0 <= i < before.len() && before[i] == x;
                    assert(order[i] == x);
                } else {
                    if !before.contains(x) {
                        assert(order[before.len() as int] == x);
                    } else {
                        let i = choose|i: int| 0 <= i < before.len() && before[i] == x;
                        assert(order[i] == x);
                    }
                }
            }
        }
        assert(order.to_set() =~= finished_set(outcomes));
    }
}

/// The state after a dispatcher in state `v` took in `outcomes`: it has
/// recorded the completions and asked for their deletion, and, if this was
/// the last look at the workers of a draining dispatcher, it is done. A
/// dispatcher that is done takes nothing in.
pub open spec fn after_outcomes(
    v: DispatcherView,
    outcomes: Seq<WorkerOutcome>,
    last: bool,
) -> DispatcherView {
    if v.phase is Terminated || (last && v.phase is Running) {
        v
    } else {
        let finished = finished_set(outcomes);
        DispatcherView {
            phase: if last {
                Phase::Terminated
            } else {
                v.phase
            },
            deleting: v.deleting.union(finished),
            history: v.history.push(Event::Completed(finished)).push(
                Event::DeleteRequested(finished),
            ),
            ..v
        }
    }
}

/// The deletions due after a dispatcher in state `v` took in `outcomes`:
/// one entry for each receipt of a worker that ended well.
pub open spec fn delete_plan(
    v: DispatcherView,
    outcomes: Seq<WorkerOutcome>,
    last: bool,
) -> Seq<Seq<EntryView>> {
    if v.phase is Terminated || (last && v.phase is Running) {
        Seq::empty()
    } else {
        planned(finished_order(outcomes))
    }
}

/// The receipts that the entries of `batch` name.
pub open spec fn batch_receipts(batch: Seq<EntryView>) -> Set<Seq<char>> {
    Set::new(
        |r: Seq<char>|
            exists|k: int| 0 <= k < batch.len() && (#[trigger] batch[k]).receipt_handle == r,
    )
}

/// The receipts that `response` reports deleted, among those of `batch`
/// whose deletion was asked for.
pub open spec fn confirmed_receipts(
    deleting: Set<Seq<char>>,
    batch: Seq<EntryView>,
    response: ResponseView,
) -> Set<Seq<char>> {
    Set::new(
        |r: Seq<char>|
            deleting.contains(r) && exists|k: int|
                0 <= k < batch.len() && (#[trigger] batch[k]).receipt_handle == r && status_of(
                    batch[k].id,
                    response,
                ) is Succeeded,
    )
}

/// The state after a dispatcher in state `v` took in the queue's answer to
/// the delete call that sent `batch`: the receipts reported deleted have
/// left the registry, and the call is no longer waited for.
pub open spec fn after_delete(
    v: DispatcherView,
    batch: Seq<EntryView>,
    response: ResponseView,
) -> DispatcherView {
    let confirmed = confirmed_receipts(v.deleting, batch, response);
    DispatcherView {
        inflight: v.inflight.filter(absent_from(confirmed)),
        deleting: v.deleting.difference(batch_receipts(batch)),
        history: v.history.push(Event::DeleteConfirmed(confirmed)),
        ..v
    }
}

/// The state after a dispatcher in state `v` learned that the delete call
/// that sent `batch` failed as a whole: the registry keeps its receipts, and
/// the call is no longer waited for.
pub open spec fn after_delete_failure(v: DispatcherView, batch: Seq<EntryView>) -> DispatcherView {
    DispatcherView { deleting: v.deleting.difference(batch_receipts(batch)), ..v }
}

/// The receipts of the workers that ended well, each once.
fn collect_finished(outcomes: &Vec<WorkerOutcome>) -> (finished: ReceiptSet)
    ensures
        finished.wf(),
        finished.order() == finished_order(outcomes@),
        finished@ == finished_set(outcomes@),
{
    let mut finished = ReceiptSet::new();
    let mut i: usize = 0;
    assert(outcomes@.take(0) =~= Seq::<WorkerOutcome>::empty());
    while i < outcomes.len()
        invariant
            i <= outcomes.len(),
            finished.wf(),
            finished.order() == finished_order(outcomes@.take(i as int)),
        decreases outcomes.len() - i,
    {
        proof {
            assert(outcomes@.take(i + 1).drop_last() =~= outcomes@.take(i as int));
            assert(outcomes@.take(i + 1).last() == outcomes@[i as int]);
        }
        match &outcomes[i] {
            WorkerOutcome::Finished(message) => {
                match &message.receipt_handle {
                    Some(receipt) => {
                        finished.insert(receipt.clone());
                    },
                    None => {},
                }
            },
            WorkerOutcome::Failed => {},
        }
        i += 1;
    }
    proof {
        assert(outcomes@.take(i as int) =~= outcomes@);
        lemma_finished_order(outcomes@);
    }
    finished
}

/// The receipts that the entries of `batch` name.
fn receipts_named(batch: &Vec<BatchEntry>) -> (named: ReceiptSet)
    ensures
        named.wf(),
        named@ == batch_receipts(batch.deep_view()),
{
    let mut named = ReceiptSet::new();
    let mut k: usize = 0;
    while k < batch.len()
        invariant
            k <= batch.len(),
            named.wf(),
            forall|r: Seq<char>|
                named@.contains(r) <==> exists|m: int|
                    0 <= m < k && (#[trigger] batch.deep_view()[m]).receipt_handle == r,
        decreases batch.len() - k,
    {
        let ghost before = named@;
        assert(batch.deep_view()[k as int] == batch[k as int].deep_view());
        named.insert(batch[k].receipt_handle.clone());
        proof {
            let b = batch.deep_view();
            assert forall|r: Seq<char>|
                named@.contains(r) <==> exists|m: int|
                    0 <= m < k + 1 && (#[trigger] b[m]).receipt_handle == r by {
                if named@.contains(r) {
                    if before.contains(r) {
                        let m = choose|m: int| 0 <= m < k && (#[trigger] b[m]).receipt_handle == r;
                        assert(0 <= m < k + 1 && b[m].receipt_handle == r);
                    } else {
                        assert(b[k as int].receipt_handle == r);
                    }
                }
                if exists|m: int| 0 <= m < k + 1 && (#[trigger] b[m]).receipt_handle == r {
                    let m = choose|m: int| 0 <= m < k + 1 && (#[trigger] b[m]).receipt_handle == r;
                    if m < k {
                        assert(before.contains(r));
                    }
                }
            }
        }
        k += 1;
    }
    assert(named@ =~= batch_receipts(batch.deep_view()));
    named
}

/// The receipts that `results` report deleted, among those that `deleting`
/// holds.
fn confirmed_among(
    deleting: &ReceiptSet,
    results: &Vec<ReceiptResult>,
    Ghost(b): Ghost<Seq<EntryView>>,
    Ghost(resp): Ghost<ResponseView>,
) -> (confirmed: ReceiptSet)
    requires
        results.deep_view() == settled(b, resp),
    ensures
        confirmed.wf(),
        confirmed@ == confirmed_receipts(deleting@, b, resp),
{
    let mut confirmed = ReceiptSet::new();
    let mut k: usize = 0;
    assert(results.len() == results.deep_view().len());
    while k < results.len()
        invariant
            k <= results.len(),
            results.len() == b.len(),
            results.deep_view() == settled(b, resp),
            confirmed.wf(),
            forall|r: Seq<char>|
                confirmed@.contains(r) <==> (deleting@.contains(r) && exists|m: int|
                    0 <= m < k && (#[trigger] b[m]).receipt_handle == r && status_of(b[m].id, resp)
                        is Succeeded),
        decreases results.len() - k,
    {
        let ghost before = confirmed@;
        let result = &results[k];
        proof {
            assert(results.deep_view()[k as int] == result.deep_view());
            assert(settled(b, resp)[k as int].receipt_handle == b[k as int].receipt_handle);
        }
        let succeeded = match &result.status {
            Status::Succeeded => true,
            _ => false,
        };
        if succeeded && deleting.contains(&result.receipt_handle) {
            confirmed.insert(result.receipt_handle.clone());
        }
        proof {
            assert forall|r: Seq<char>|
                confirmed@.contains(r) <==> (deleting@.contains(r) && exists|m: int|
                    0 <= m < k + 1 && (#[trigger] b[m]).receipt_handle == r && status_of(
                        b[m].id,
                        resp,
                    ) is Succeeded) by {
                if confirmed@.contains(r) {
                    if before.contains(r) {
                        let m = choose|m: int|
                            0 <= m < k && (#[trigger] b[m]).receipt_handle == r && status_of(
                                b[m].id,
                                resp,
                            ) is Succeeded;
                        assert(0 <= m < k + 1 && b[m].receipt_handle == r);
                    } else {
                        assert(b[k as int].receipt_handle == r);
                    }
                }
                if deleting@.contains(r) && exists|m: int|
                    0 <= m < k + 1 && (#[trigger] b[m]).receipt_handle == r && status_of(
                        b[m].id,
                        resp,
                    ) is Succeeded {
                    let m = choose|m: int|
                        0 <= m < k + 1 && (#[trigger] b[m]).receipt_handle == r && status_of(
                            b[m].id,
                            resp,
                        ) is Succeeded;
                    if m < k {
                        assert(before.contains(r));
                    }
                }
            }
        }
        k += 1;
    }
    assert(confirmed@ =~= confirmed_receipts(deleting@, b, resp));
    confirmed
}

impl Dispatcher {
    /// The registry and the record agree, and the record is in order.
    pub closed spec fn wf(&self) -> bool {
        &&& self.inflight.wf()
        &&& self.deleting.wf()
        &&& self.inflight@ == outstanding(self.history@)
        &&& self.deleting@.subset_of(requested(self.history@))
        &&& in_order(self.history@)
        &&& (self.phase is Running) == !stopped(self.history@)
    }

    /// A running dispatcher with nothing in flight, whose heartbeats will
    /// set the visibility timeout to `visibility_seconds`.
    pub fn new(visibility_seconds: i32) -> (d: Dispatcher)
        ensures
            d.wf(),
            d@ == (DispatcherView {
                phase: Phase::Running,
                inflight: Seq::empty(),
                deleting: Set::empty(),
                visibility_seconds,
                history: Seq::empty(),
            }),
    {
        let d = Dispatcher {
            phase: Phase::Running,
            inflight: ReceiptSet::new(),
            deleting: ReceiptSet::new(),
            visibility_seconds,
            history: Ghost(Seq::empty()),
        };
        assert(d.inflight@ =~= outstanding(d.history@));
        d
    }

    /// Where the dispatcher stands.
    pub fn phase(&self) -> (p: Phase)
        ensures
            p == self@.phase,
    {
        self.phase
    }

    /// Whether the loop should go on polling the queue.
    pub fn accepts_messages(&self) -> (b: bool)
        ensures
            b == (self@.phase is Running),
    {
        self.phase == Phase::Running
    }

    /// The visibility timeout, in seconds, to send with each heartbeat.
    pub fn visibility_seconds(&self) -> (s: i32)
        ensures
            s == self@.visibility_seconds,
    {
        self.visibility_seconds
    }

    /// The receipts in the inflight registry, oldest first.
    pub fn inflight(&self) -> (receipts: Vec<String>)
        ensures
            receipts.deep_view() == self@.inflight,
    {
        self.inflight.snapshot()
    }

    /// Whether `receipt` is in the inflight registry.
    pub fn is_inflight(&self, receipt: &String) -> (b: bool)
        ensures
            b == self@.inflight.contains(receipt@),
    {
        self.inflight.contains(receipt)
    }

    /// Takes a message that a poll returned. A running dispatcher enters
    /// the receipt in the registry and answers that the message goes to a
    /// worker; a message without receipt, or one that comes after the signal
    /// to stop, changes nothing.
    pub fn handle_message(&mut self, message: Message) -> (decision: Dispatch)
        requires
            old(self).wf(),
        ensures
            final(self).wf(),
            decision == dispatch_of(old(self)@, message),
            final(self)@ == after_message(old(self)@, message),
            decision is Spawn ==> final(self)@.inflight.to_set() == old(self)@.inflight.to_set().insert(
                message@.receipt_handle->0,
            ),
            !(decision is Spawn) ==> final(self)@ == old(self)@,
            final(self)@.inflight.to_set() == outstanding(final(self)@.history),
    {
        if self.phase != Phase::Running {
            return Dispatch::Refused(message);
        }
        match &message.receipt_handle {
            None => Dispatch::Dropped(message),
            Some(receipt) => {
                let ghost r = receipt@;
                let ghost t = self.history@;
                self.inflight.insert(receipt.clone());
                self.history = Ghost(t.push(Event::Dispatched(r)));
                proof {
                    lemma_outstanding_push(t, Event::Dispatched(r));
                    lemma_requested_grows(t, Event::Dispatched(r));
                    lemma_in_order_push(t, Event::Dispatched(r));
                }
                Dispatch::Spawn(message)
            },
        }
    }

    /// Takes the signal to stop: a running dispatcher starts draining.
    pub fn shutdown(&mut self)
        requires
            old(self).wf(),
        ensures
            final(self).wf(),
            final(self)@ == after_shutdown(old(self)@),
    {
        if self.phase == Phase::Running {
            let ghost t = self.history@;
            self.phase = Phase::Draining;
            self.history = Ghost(t.push(Event::Stopped));
            proof {
                lemma_outstanding_push(t, Event::Stopped);
                lemma_requested_grows(t, Event::Stopped);
                lemma_in_order_push(t, Event::Stopped);
            }
        }
    }

    /// Takes a heartbeat tick: the batches of the visibility change that is
    /// due. While the dispatcher runs they name every receipt in the
    /// registry, each once; otherwise there is none.
    pub fn tick_inflight(&self) -> (plan: Vec<Vec<BatchEntry>>)
        requires
            self.wf(),
        ensures
            plan.deep_view() == heartbeat_plan(self@),
            self@.phase is Running ==> plan_receipts(plan.deep_view()) == self@.inflight.to_set(),
            self@.phase is Running ==> plan_receipts(plan.deep_view()) == outstanding(
                self@.history,
            ),
    {
        if self.phase == Phase::Running {
            let receipts = self.inflight.snapshot();
            proof {
                lemma_planned(receipts.deep_view());
            }
            plan_batches(&receipts)
        } else {
            let plan: Vec<Vec<BatchEntry>> = Vec::new();
            assert(plan.deep_view() =~= Seq::<Seq<EntryView>>::empty());
            plan
        }
    }

    /// Takes in what the workers gave back, for `try_join` and `join`.
    fn take_outcomes(
        &mut self,
        outcomes: &Vec<WorkerOutcome>,
        last: bool,
    ) -> (plan: Vec<Vec<BatchEntry>>)
        requires
            old(self).wf(),
        ensures
            final(self).wf(),
            final(self)@ == after_outcomes(old(self)@, outcomes@, last),
            plan.deep_view() == delete_plan(old(self)@, outcomes@, last),
            plan_receipts(plan.deep_view()).subset_of(finished_set(outcomes@)),
            old(self)@.phase is Draining || (!last && old(self)@.phase is Running)
                ==> plan_receipts(plan.deep_view()) == finished_set(outcomes@),
    {
        if self.phase == Phase::Terminated || (last && self.phase == Phase::Running) {
            let plan: Vec<Vec<BatchEntry>> = Vec::new();
            assert(plan.deep_view() =~= Seq::<Seq<EntryView>>::empty());
            assert(plan_receipts(plan.deep_view()) =~= Set::<Seq<char>>::empty());
            return plan;
        }
        let finished = collect_finished(outcomes);
        let receipts = finished.snapshot();
        let ghost t = self.history@;
        let ghost rs = finished@;
        self.deleting.insert_all(&finished);
        if last {
            self.phase = Phase::Terminated;
        }
        self.history = Ghost(t.push(Event::Completed(rs)).push(Event::DeleteRequested(rs)));
        proof {
            let t1 = t.push(Event::Completed(rs));
            lemma_outstanding_push(t, Event::Completed(rs));
            lemma_outstanding_push(t1, Event::DeleteRequested(rs));
            lemma_requested_grows(t, Event::Completed(rs));
            lemma_requested_grows(t1, Event::DeleteRequested(rs));
            lemma_in_order_finished(t, rs);
            lemma_planned(receipts.deep_view());
            lemma_finished_order(outcomes@);
        }
        plan_batches(&receipts)
    }

    /// Takes in the workers that have ended so far: the batches of the
    /// delete call that is due. They name the receipt of every worker that
    /// ended well, each once, and no other receipt. The registry keeps the
    /// receipts until the queue reports them deleted.
    pub fn try_join(&mut self, outcomes: &Vec<WorkerOutcome>) -> (plan: Vec<Vec<BatchEntry>>)
        requires
            old(self).wf(),
        ensures
            final(self).wf(),
            final(self)@ == after_outcomes(old(self)@, outcomes@, false),
            plan.deep_view() == delete_plan(old(self)@, outcomes@, false),
            plan_receipts(plan.deep_view()).subset_of(finished_set(outcomes@)),
            !(old(self)@.phase is Terminated) ==> plan_receipts(plan.deep_view()) == finished_set(
                outcomes@,
            ),
    {
        self.take_outcomes(outcomes, false)
    }

    /// Takes in the workers that ended within the grace period, at the end
    /// of the drain: the batches of the last delete call, which name the
    /// receipt of every worker that ended well, each once, and no other.
    /// A draining dispatcher is done after this; a worker that has not
    /// ended is left behind, and its receipt is not deleted.
    pub fn join(&mut self, outcomes: &Vec<WorkerOutcome>) -> (plan: Vec<Vec<BatchEntry>>)
        requires
            old(self).wf(),
        ensures
            final(self).wf(),
            final(self)@ == after_outcomes(old(self)@, outcomes@, true),
            plan.deep_view() == delete_plan(old(self)@, outcomes@, true),
            plan_receipts(plan.deep_view()).subset_of(finished_set(outcomes@)),
            old(self)@.phase is Draining ==> plan_receipts(plan.deep_view()) == finished_set(
                outcomes@,
            ),
    {
        self.take_outcomes(outcomes, true)
    }

    /// Takes in the queue's answer to the delete call that sent `batch`:
    /// the outcome for each entry, in the batch's order. A receipt leaves
    /// the registry if the answer reports it deleted and its deletion was
    /// asked for; every other receipt stays.
    pub fn delete_completed(
        &mut self,
        batch: &Vec<BatchEntry>,
        response: &BatchResponse,
    ) -> (results: Vec<ReceiptResult>)
        requires
            old(self).wf(),
        ensures
            final(self).wf(),
            final(self)@ == after_delete(old(self)@, batch.deep_view(), response.deep_view()),
            results.deep_view() == settled(batch.deep_view(), response.deep_view()),
    {
        let results = settle(batch, response);
        let ghost target = confirmed_receipts(
            self.deleting@,
            batch.deep_view(),
            response.deep_view(),
        );
        let confirmed = confirmed_among(
            &self.deleting,
            &results,
            Ghost(batch.deep_view()),
            Ghost(response.deep_view()),
        );
        let named = receipts_named(batch);
        let ghost t = self.history@;
        self.inflight.remove_all(&confirmed);
        self.deleting.remove_all(&named);
        self.history = Ghost(t.push(Event::DeleteConfirmed(target)));
        proof {
            lemma_outstanding_push(t, Event::DeleteConfirmed(target));
            lemma_requested_grows(t, Event::DeleteConfirmed(target));
            lemma_in_order_push(t, Event::DeleteConfirmed(target));
        }
        results
    }

    /// Takes in that the delete call that sent `batch` failed as a whole.
    /// The registry keeps every receipt: the queue will deliver the messages
    /// again.
    pub fn delete_failed(&mut self, batch: &Vec<BatchEntry>)
        requires
            old(self).wf(),
        ensures
            final(self).wf(),
            final(self)@ == after_delete_failure(old(self)@, batch.deep_view()),
    {
        let named = receipts_named(batch);
        self.deleting.remove_all(&named);
    }
}

/// No premature delete: whenever the dispatcher asked for a receipt to be
/// deleted, it had recorded before that the receipt's worker returned.
pub proof fn law_no_premature_delete(d: Dispatcher)
    requires
        d.wf(),
    ensures
        forall|i: int, r: Seq<char>| #[trigger]
            requested_at(d@.history, i, r) ==> exists|j: int|
                j < i && #[trigger] completed_at(d@.history, j, r),
{
    let t = d@.history;
    assert forall|i: int, r: Seq<char>| #[trigger] requested_at(t, i, r) implies exists|j: int|
        j < i && #[trigger] completed_at(t, j, r) by {
        assert(t[i] is DeleteRequested);
        assert(completed_at(t, i - 1, r));
    }
}

/// No lost inflight: the registry holds each receipt once, and holds
/// exactly the receipts for which a worker was asked and which the queue has
/// not since reported deleted.
pub proof fn law_inflight_is_outstanding(d: Dispatcher)
    requires
        d.wf(),
    ensures
        d@.inflight.no_duplicates(),
        d@.inflight.to_set() == outstanding(d@.history),
{
}

/// A receipt leaves the registry only after its worker has returned and its
/// deletion has been asked for: every report of deletion that the
/// dispatcher took in follows a request to delete the receipt, which follows
/// the completion of its worker.
pub proof fn law_removed_only_after_request(d: Dispatcher)
    requires
        d.wf(),
    ensures
        forall|i: int, r: Seq<char>| #[trigger]
            confirmed_at(d@.history, i, r) ==> exists|j: int, k: int|
                k < j < i && #[trigger] requested_at(d@.history, j, r) && #[trigger] completed_at(
                    d@.history,
                    k,
                    r,
                ),
{
    let t = d@.history;
    law_no_premature_delete(d);
    assert forall|i: int, r: Seq<char>| #[trigger] confirmed_at(t, i, r) implies exists|
        j: int,
        k: int,
    |
        k < j < i && #[trigger] requested_at(t, j, r) && #[trigger] completed_at(t, k, r) by {
        let j = choose|j: int| j < i && #[trigger] requested_at(t, j, r);
        let k = choose|k: int| k < j && #[trigger] completed_at(t, k, r);
        assert(k < j < i && requested_at(t, j, r) && completed_at(t, k, r));
    }
}

/// Drain completeness: for every worker whose return the dispatcher has
/// recorded, it has asked for the receipt to be deleted, whether the worker
/// returned before or after the signal to stop.
pub proof fn law_completions_are_requested(d: Dispatcher)
    requires
        d.wf(),
    ensures
        forall|i: int, r: Seq<char>| #[trigger]
            completed_at(d@.history, i, r) ==> exists|j: int|
                i < j && #[trigger] requested_at(d@.history, j, r),
{
    let t = d@.history;
    assert forall|i: int, r: Seq<char>| #[trigger] completed_at(t, i, r) implies exists|j: int|
        i < j && #[trigger] requested_at(t, j, r) by {
        assert(t[i] is Completed);
        assert(requested_at(t, i + 1, r));
    }
}

/// After the signal to stop no worker is asked for, and a dispatcher runs
/// exactly as long as it has not been told to stop.
pub proof fn law_no_dispatch_after_stop(d: Dispatcher)
    requires
        d.wf(),
    ensures
        no_dispatch_after_stop(d@.history),
        (d@.phase is Running) == !stopped(d@.history),
{
}

/// No deduplication: a running dispatcher sends every message that has a
/// receipt to a worker, whatever is in flight and whatever came before. A
/// second delivery goes to a worker like the first, be it of the same
/// message or under the same receipt, and both receipts are in the
/// registry.
pub proof fn law_redelivery_is_dispatched(v: DispatcherView, first: Message, second: Message)
    requires
        v.phase is Running,
        first@.receipt_handle is Some,
        second@.receipt_handle is Some,
    ensures
        dispatch_of(v, first) == Dispatch::Spawn(first),
        dispatch_of(after_message(v, first), second) == Dispatch::Spawn(second),
        after_message(after_message(v, first), second).inflight.contains(first@.receipt_handle->0),
        after_message(after_message(v, first), second).inflight.contains(
            second@.receipt_handle->0,
        ),
{
    let r1 = first@.receipt_handle->0;
    let r2 = second@.receipt_handle->0;
    let v1 = after_message(v, first);
    let v2 = after_message(v1, second);
    assert(v1.inflight.contains(r1)) by {
        if !v.inflight.contains(r1) {
            assert(v.inflight.push(r1)[v.inflight.len() as int] == r1);
        }
    }
    let i = choose|i: int| 0 <= i < v1.inflight.len() && v1.inflight[i] == r1;
    if !v1.inflight.contains(r2) {
        assert(v1.inflight.push(r2)[i] == r1);
        assert(v1.inflight.push(r2)[v1.inflight.len() as int] == r2);
    }
}

/// A running dispatcher lets a message without receipt go: it changes
/// nothing, and answers with the one decision that calls for a warning. No
/// other decision does.
pub proof fn law_missing_receipt_is_dropped(v: DispatcherView, message: Message)
    ensures
        v.phase is Running && message@.receipt_handle is None ==> dispatch_of(v, message)
            == Dispatch::Dropped(message) && after_message(v, message) == v,
        warning_of(dispatch_of(v, message)) == if v.phase is Running && message@.receipt_handle
            is None {
            Some(warning_text(message@))
        } else {
            None
        },
{
}

/// A dispatcher only moves forward, from running to draining to done: the
/// signal to stop is the one step from running to draining, the last look
/// at the workers is the one step from draining to done, and no step leads
/// anywhere else.
pub proof fn law_phase_moves_forward(
    v: DispatcherView,
    message: Message,
    outcomes: Seq<WorkerOutcome>,
    batch: Seq<EntryView>,
    response: ResponseView,
)
    ensures
        after_message(v, message).phase == v.phase,
        after_outcomes(v, outcomes, false).phase == v.phase,
        after_delete(v, batch, response).phase == v.phase,
        after_delete_failure(v, batch).phase == v.phase,
        after_shutdown(v).phase == if v.phase is Running {
            Phase::Draining
        } else {
            v.phase
        },
        after_outcomes(v, outcomes, true).phase == if v.phase is Draining {
            Phase::Terminated
        } else {
            v.phase
        },
{
}

/// The path of one message through a running dispatcher, whatever else is
/// in flight: a message whose receipt is new goes to a worker, with its
/// receipt last in the registry; once its worker has returned, one delete
/// call of one entry is due, for that receipt, and the registry still holds
/// it; once the queue reports that entry deleted, the registry is what it
/// was before the message came.
pub proof fn law_message_comes_and_goes(v: DispatcherView, message: Message)
    requires
        v.phase is Running,
        v.inflight.no_duplicates(),
        message@.receipt_handle is Some,
        !v.inflight.contains(message@.receipt_handle->0),
    ensures
        ({
            let r = message@.receipt_handle->0;
            let outcomes = seq![WorkerOutcome::Finished(message)];
            let dispatched = after_message(v, message);
            let joined = after_outcomes(dispatched, outcomes, false);
            let plan = delete_plan(dispatched, outcomes, false);
            let response = ResponseView { successful: seq![decimal(0)], failed: Seq::empty() };
            let confirmed = after_delete(joined, plan[0], response);
            &&& dispatch_of(v, message) == Dispatch::Spawn(message)
            &&& dispatched.inflight == v.inflight.push(r)
            &&& plan == seq![seq![EntryView { id: decimal(0), receipt_handle: r }]]
            &&& joined.inflight == dispatched.inflight
            &&& confirmed.inflight == v.inflight
            &&& confirmed.phase is Running
        }),
{
    let r = message@.receipt_handle->0;
    let outcomes = seq![WorkerOutcome::Finished(message)];
    let dispatched = after_message(v, message);
    let joined = after_outcomes(dispatched, outcomes, false);
    let plan = delete_plan(dispatched, outcomes, false);
    let response = ResponseView { successful: seq![decimal(0)], failed: Seq::empty() };
    assert(finished_order(outcomes) =~= seq![r]) by {
        reveal_with_fuel(finished_order, 2);
        assert(outcomes.drop_last() =~= Seq::<WorkerOutcome>::empty());
    }
    let entry = EntryView { id: decimal(0), receipt_handle: r };
    assert(plan =~~= seq![seq![entry]]);
    let gone = confirmed_receipts(joined.deleting, plan[0], response);
    assert(response.successful[0] == decimal(0));
    assert(status_of(plan[0][0].id, response) is Succeeded);
    assert(finished_set(outcomes).contains(r)) by {
        assert(finished_receipt(outcomes[0]) == Some(r));
    }
    assert(gone =~= set![r]);
    v.inflight.lemma_filter_push(r, absent_from(gone));
    assert(v.inflight.to_set().disjoint(gone));
    lemma_filter_absent(v.inflight, gone);
}

} // verus!
