//! The record of what a dispatcher has done, and what can be read off it.
//!
//! The record exists in proofs only. Each step of the dispatcher adds to it,
//! and the dispatcher's guarantees are statements about it.
use vstd::prelude::*;

verus! {

/// One thing that a dispatcher did or was told.
pub enum Event {
    /// A worker was asked for, for the delivery with this receipt.
    Dispatched(Seq<char>),
    /// Workers returned normally, for the deliveries with these receipts.
    Completed(Set<Seq<char>>),
    /// The dispatcher asked for these receipts to be deleted.
    DeleteRequested(Set<Seq<char>>),
    /// The queue reported these receipts deleted.
    DeleteConfirmed(Set<Seq<char>>),
    /// The dispatcher was told to stop.
    Stopped,
}

/// Event `i` of `t` asks for a worker for `r`.
pub open spec fn dispatched_at(t: Seq<Event>, i: int, r: Seq<char>) -> bool {
    0 <= i < t.len() && t[i] == Event::Dispatched(r)
}

/// Event `i` of `t` records that a worker returned for `r`.
pub open spec fn completed_at(t: Seq<Event>, i: int, r: Seq<char>) -> bool {
    0 <= i < t.len() && (t[i] matches Event::Completed(rs) && rs.contains(r))
}

/// Event `i` of `t` asks for `r` to be deleted.
pub open spec fn requested_at(t: Seq<Event>, i: int, r: Seq<char>) -> bool {
    0 <= i < t.len() && (t[i] matches Event::DeleteRequested(rs) && rs.contains(r))
}

/// Event `i` of `t` reports `r` deleted.
pub open spec fn confirmed_at(t: Seq<Event>, i: int, r: Seq<char>) -> bool {
    0 <= i < t.len() && (t[i] matches Event::DeleteConfirmed(rs) && rs.contains(r))
}

/// No event of `t` behind event `i` reports `r` deleted.
pub open spec fn unconfirmed_after(t: Seq<Event>, i: int, r: Seq<char>) -> bool {
    forall|j: int| i < j ==> !#[trigger] confirmed_at(t, j, r)
}

/// The receipts for which a worker was asked and which no later event
/// reports deleted.
pub open spec fn outstanding(t: Seq<Event>) -> Set<Seq<char>> {
    Set::new(
        |r: Seq<char>| exists|i: int| #[trigger] dispatched_at(t, i, r) && unconfirmed_after(t, i, r),
    )
}

/// The receipts that some event of `t` asks to be deleted.
pub open spec fn requested(t: Seq<Event>) -> Set<Seq<char>> {
    Set::new(|r: Seq<char>| exists|i: int| #[trigger] requested_at(t, i, r))
}

/// Every request to delete stands directly behind the record of the
/// completions that it is for, and every such record is followed by its
/// request.
pub open spec fn requests_follow_completions(t: Seq<Event>) -> bool {
    &&& forall|i: int|
        0 <= i < t.len() && (#[trigger] t[i]) is DeleteRequested ==> i >= 1 && t[i - 1]
            == Event::Completed(t[i]->DeleteRequested_0)
    &&& forall|i: int|
        0 <= i < t.len() && (#[trigger] t[i]) is Completed ==> i + 1 < t.len() && t[i + 1]
            == Event::DeleteRequested(t[i]->Completed_0)
}

/// Every receipt reported deleted was asked to be deleted before.
pub open spec fn confirmations_follow_requests(t: Seq<Event>) -> bool {
    forall|i: int, r: Seq<char>| #[trigger]
        confirmed_at(t, i, r) ==> exists|j: int| j < i && #[trigger] requested_at(t, j, r)
}

/// Some event of `t` told the dispatcher to stop.
pub open spec fn stopped(t: Seq<Event>) -> bool {
    exists|i: int| 0 <= i < t.len() && (#[trigger] t[i]) is Stopped
}

/// No worker was asked for after the dispatcher was told to stop.
pub open spec fn no_dispatch_after_stop(t: Seq<Event>) -> bool {
    forall|i: int, j: int|
        0 <= i < j < t.len() && (#[trigger] t[i]) is Stopped ==> !((#[trigger] t[j]) is Dispatched)
}

/// The outstanding receipts after one more event: asking for a worker adds
/// its receipt, a report of deletion takes its receipts out, and any other
/// event leaves them as they were.
pub open spec fn outstanding_after(before: Set<Seq<char>>, e: Event) -> Set<Seq<char>> {
    match e {
        Event::Dispatched(r) => before.insert(r),
        Event::DeleteConfirmed(rs) => before.difference(rs),
        _ => before,
    }
}

/// How the outstanding receipts change as the record grows by one event.
pub proof fn lemma_outstanding_push(t: Seq<Event>, e: Event)
    ensures
        outstanding(t.push(e)) == outstanding_after(outstanding(t), e),
{
    let t2 = t.push(e);
    let n: int = t.len() as int;
    assert forall|x: Seq<char>| outstanding(t2).contains(x) <==> outstanding_after(
        outstanding(t),
        e,
    ).contains(x) by {
        if outstanding(t2).contains(x) {
            let i = choose|i: int| #[trigger] dispatched_at(t2, i, x) && unconfirmed_after(t2, i, x);
            assert(!confirmed_at(t2, n, x) || i == n);
            if i < n {
                assert(dispatched_at(t, i, x));
                assert forall|j: int| i < j implies !#[trigger] confirmed_at(t, j, x) by {
                    if confirmed_at(t, j, x) {
                        assert(confirmed_at(t2, j, x));
                    }
                }
            }
        }
        if outstanding(t).contains(x) && !confirmed_at(t2, n, x) {
            let i = choose|i: int| #[trigger] dispatched_at(t, i, x) && unconfirmed_after(t, i, x);
            assert(dispatched_at(t2, i, x));
            assert forall|j: int| i < j implies !#[trigger] confirmed_at(t2, j, x) by {
                if confirmed_at(t2, j, x) && j < n {
                    assert(confirmed_at(t, j, x));
                }
            }
        }
        if e == Event::Dispatched(x) {
            assert(dispatched_at(t2, n, x));
        }
    }
    assert(outstanding(t2) =~= outstanding_after(outstanding(t), e));
}

/// What was asked to be deleted stays so as the record grows.
pub proof fn lemma_requested_grows(t: Seq<Event>, e: Event)
    ensures
        requested(t).subset_of(requested(t.push(e))),
        e matches Event::DeleteRequested(rs) ==> rs.subset_of(requested(t.push(e))),
{
    let t2 = t.push(e);
    assert forall|x: Seq<char>| requested(t).contains(x) implies requested(t2).contains(x) by {
        let i = choose|i: int| #[trigger] requested_at(t, i, x);
        assert(requested_at(t2, i, x));
    }
    if let Event::DeleteRequested(rs) = e {
        assert forall|x: Seq<char>| rs.contains(x) implies requested(t2).contains(x) by {
            assert(requested_at(t2, t.len() as int, x));
        }
    }
}

/// The record is in order: requests to delete follow completions, reports
/// of deletion follow requests, and no worker is asked for after the signal
/// to stop.
pub open spec fn in_order(t: Seq<Event>) -> bool {
    &&& requests_follow_completions(t)
    &&& confirmations_follow_requests(t)
    &&& no_dispatch_after_stop(t)
}

/// An event may follow a record in order: a worker is asked for only where
/// the record holds no signal to stop, and a report of deletion names only
/// receipts that the record asks to be deleted.
pub open spec fn may_follow(t: Seq<Event>, e: Event) -> bool {
    &&& e is Dispatched ==> !stopped(t)
    &&& e matches Event::DeleteConfirmed(rs) ==> rs.subset_of(requested(t))
}

/// A record holds the signal to stop once it was added, and not before.
pub proof fn lemma_stopped_push(t: Seq<Event>, e: Event)
    ensures
        stopped(t.push(e)) == (stopped(t) || e is Stopped),
{
    let t2 = t.push(e);
    if stopped(t) {
        let i = choose|i: int| 0 <= i < t.len() && (#[trigger] t[i]) is Stopped;
        assert(t2[i] is Stopped);
    }
    if e is Stopped {
        assert(t2[t.len() as int] is Stopped);
    }
    if stopped(t2) {
        let i = choose|i: int| 0 <= i < t2.len() && (#[trigger] t2[i]) is Stopped;
        assert(i < t.len() ==> t[i] is Stopped);
    }
}

/// Reports of deletion still follow their requests after one more event
/// that may follow.
pub proof fn lemma_confirmations_push(t: Seq<Event>, e: Event)
    requires
        confirmations_follow_requests(t),
        may_follow(t, e),
    ensures
        confirmations_follow_requests(t.push(e)),
{
    let t2 = t.push(e);
    assert forall|i: int, x: Seq<char>| #[trigger] confirmed_at(t2, i, x) implies exists|j: int|
        j < i && #[trigger] requested_at(t2, j, x) by {
        if i < t.len() {
            assert(confirmed_at(t, i, x));
            let j = choose|j: int| j < i && #[trigger] requested_at(t, j, x);
            assert(requested_at(t2, j, x));
        } else {
            assert(requested(t).contains(x));
            let j = choose|j: int| #[trigger] requested_at(t, j, x);
            assert(requested_at(t2, j, x));
        }
    }
}

/// Still no worker is asked for after the signal to stop, after one more
/// event that may follow.
pub proof fn lemma_no_dispatch_push(t: Seq<Event>, e: Event)
    requires
        no_dispatch_after_stop(t),
        may_follow(t, e),
    ensures
        no_dispatch_after_stop(t.push(e)),
{
    let t2 = t.push(e);
    assert forall|i: int, j: int|
        0 <= i < j < t2.len() && (#[trigger] t2[i]) is Stopped implies !((#[trigger] t2[j])
        is Dispatched) by {
        assert(t[i] is Stopped);
        if j < t.len() {
            assert(t2[j] == t[j]);
        }
    }
}

/// Requests to delete and completions stand in pairs in two records put
/// together, where they do in each.
pub proof fn lemma_pairs_concat(t: Seq<Event>, tail: Seq<Event>)
    requires
        requests_follow_completions(t),
        requests_follow_completions(tail),
    ensures
        requests_follow_completions(t + tail),
{
    let whole = t + tail;
    let n: int = t.len() as int;
    assert forall|i: int|
        0 <= i < whole.len() && (#[trigger] whole[i]) is DeleteRequested implies i >= 1 && whole[i
            - 1] == Event::Completed(whole[i]->DeleteRequested_0) by {
        if i < n {
            assert(t[i] is DeleteRequested);
        } else {
            assert(tail[i - n] is DeleteRequested);
            assert(whole[i - 1] == tail[i - n - 1]);
        }
    }
    assert forall|i: int|
        0 <= i < whole.len() && (#[trigger] whole[i]) is Completed implies i + 1 < whole.len()
            && whole[i + 1] == Event::DeleteRequested(whole[i]->Completed_0) by {
        if i < n {
            assert(t[i] is Completed);
            assert(whole[i + 1] == t[i + 1]);
        } else {
            assert(tail[i - n] is Completed);
            assert(whole[i + 1] == tail[i - n + 1]);
        }
    }
}

/// A record stays in order when an event is added that may follow it and
/// that is neither a completion nor a request to delete.
pub proof fn lemma_in_order_push(t: Seq<Event>, e: Event)
    requires
        in_order(t),
        may_follow(t, e),
        !(e is Completed),
        !(e is DeleteRequested),
    ensures
        in_order(t.push(e)),
        stopped(t.push(e)) == (stopped(t) || e is Stopped),
{
    assert(t.push(e) =~= t + seq![e]);
    lemma_pairs_concat(t, seq![e]);
    lemma_confirmations_push(t, e);
    lemma_no_dispatch_push(t, e);
    lemma_stopped_push(t, e);
}

/// A record stays in order when completions are added with the request to
/// delete them.
pub proof fn lemma_in_order_finished(t: Seq<Event>, rs: Set<Seq<char>>)
    requires
        in_order(t),
    ensures
        in_order(t.push(Event::Completed(rs)).push(Event::DeleteRequested(rs))),
        stopped(t.push(Event::Completed(rs)).push(Event::DeleteRequested(rs))) == stopped(t),
{
    let first = Event::Completed(rs);
    let second = Event::DeleteRequested(rs);
    let t1 = t.push(first);
    assert(t1.push(second) =~= t + seq![first, second]);
    lemma_pairs_concat(t, seq![first, second]);
    lemma_confirmations_push(t, first);
    lemma_confirmations_push(t1, second);
    lemma_no_dispatch_push(t, first);
    lemma_no_dispatch_push(t1, second);
    lemma_stopped_push(t, first);
    lemma_stopped_push(t1, second);
}

} // verus!
