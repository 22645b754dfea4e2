//! The worker pool: what a worker does, and a look at the workers that
//! have ended.
//!
//! The workers run as blocking tasks in a `tokio::task::JoinSet`. The loop
//! that owns the set hands tasks to it and waits on it; what is here is the
//! task itself, and taking out the tasks that have ended, for the dispatcher
//! to record.
use crate::dispatch::WorkerOutcome;
use crate::message::Message;
use crate::server::Handler;
use tokio::task::JoinSet;
use vstd::multiset::Multiset;
use vstd::prelude::*;

verus! {

/// What one worker does: it calls the handler with `message` and, once the
/// handler has returned, gives the same message back.
pub fn work<H: Handler>(handler: &H, message: Message) -> (returned: Message)
    ensures
        call_ensures(H::call, (handler, &message), ()),
        returned == message,
{
    handler.call(&message);
    message
}

/// The task set of `tokio`.
#[verifier::external_type_specification]
#[verifier::external_body]
#[verifier::reject_recursive_types(T)]
pub struct ExJoinSet<T>(JoinSet<T>);

/// The identifiers of the tasks that a set tracks: those handed to it and
/// not yet taken out.
pub uninterp spec fn pool_tasks(workers: JoinSet<Message>) -> Multiset<u64>;

/// Calls `JoinSet::new`, which makes a set that tracks no task.
#[verifier::external_body]
pub(crate) fn new_pool() -> (workers: JoinSet<Message>)
    ensures
        pool_tasks(workers) == Multiset::<u64>::empty(),
{
    JoinSet::new()
}

/// Calls `JoinSet::try_join_next` and says how the task that it returns
/// ended: with the message that the task gave back, or broken off. Where
/// the call returns nothing, it has left the set as it was; where it returns
/// a task's end, it has taken that one task out of the set. Which task that
/// is, and whether a task that has ended is still in the set, is not said.
#[verifier::external_body]
fn try_join_next(workers: &mut JoinSet<Message>) -> (outcome: Option<WorkerOutcome>)
    ensures
        outcome is None ==> pool_tasks(*final(workers)) == pool_tasks(*old(workers)),
        outcome is Some ==> exists|id: u64|
            pool_tasks(*old(workers)).count(id) > 0 && pool_tasks(*final(workers)) == #[trigger] pool_tasks(
                *old(workers),
            ).remove(id),
{
    workers.try_join_next().map(
        |joined|
            match joined {
                Ok(message) => WorkerOutcome::Finished(message),
                Err(_) => WorkerOutcome::Failed,
            },
    )
}

/// Takes out of `workers` the tasks that have ended so far and returns how
/// each ended. Every task is either returned or still in the set.
pub fn try_drain(workers: &mut JoinSet<Message>) -> (outcomes: Vec<WorkerOutcome>)
    ensures
        outcomes.len() + pool_tasks(*final(workers)).len() == pool_tasks(*old(workers)).len(),
        pool_tasks(*final(workers)).subset_of(pool_tasks(*old(workers))),
{
    let mut outcomes: Vec<WorkerOutcome> = Vec::new();
    loop
        invariant
            outcomes.len() + pool_tasks(*workers).len() == pool_tasks(*old(workers)).len(),
            pool_tasks(*workers).subset_of(pool_tasks(*old(workers))),
        decreases pool_tasks(*workers).len(),
    {
        let ghost before = pool_tasks(*workers);
        match try_join_next(workers) {
            Some(outcome) => {
                proof {
                    let id = choose|id: u64|
                        before.count(id) > 0 && pool_tasks(*workers) == #[trigger] before.remove(id);
                    broadcast use vstd::multiset::group_multiset_axioms;

                    assert(Multiset::singleton(id).subset_of(before)) by {
                        assert forall|v: u64| Multiset::singleton(id).count(v) <= before.count(v) by {
                            if v != id {
                                vstd::multiset::axiom_multiset_singleton_different(id, v);
                            }
                        }
                    }
                    assert(before.remove(id).len() == before.len() - 1);
                    assert(before.remove(id).subset_of(before));
                }
                outcomes.push(outcome);
            },
            None => {
                break ;
            },
        }
    }
    outcomes
}

} // verus!
