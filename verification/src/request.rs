//! The entries of the queue's batch calls, as the queue client wants them.
use crate::batch::BatchEntry;
use aws_sdk_sqs::error::BuildError;
use aws_sdk_sqs::types::{
    ChangeMessageVisibilityBatchRequestEntry, DeleteMessageBatchRequestEntry,
};
use vstd::pervasive::unreached;
use vstd::prelude::*;

verus! {

/// One entry of a delete call, as `aws_sdk_sqs` holds it.
#[verifier::external_type_specification]
#[verifier::external_body]
pub struct ExDeleteEntry(DeleteMessageBatchRequestEntry);

/// One entry of a visibility change, as `aws_sdk_sqs` holds it.
#[verifier::external_type_specification]
#[verifier::external_body]
pub struct ExVisibilityEntry(ChangeMessageVisibilityBatchRequestEntry);

/// What a builder of `aws_sdk_sqs` returns when a required field was not
/// set.
#[verifier::external_type_specification]
#[verifier::external_body]
pub struct ExBuildError(BuildError);

/// The entry that the builder of `DeleteMessageBatchRequestEntry` makes of
/// an identifier and a receipt.
pub uninterp spec fn delete_entry_built(
    id: Seq<char>,
    receipt_handle: Seq<char>,
) -> DeleteMessageBatchRequestEntry;

/// The entry that the builder of `ChangeMessageVisibilityBatchRequestEntry`
/// makes of an identifier, a receipt and a visibility timeout in seconds.
pub uninterp spec fn visibility_entry_built(
    id: Seq<char>,
    receipt_handle: Seq<char>,
    visibility_timeout: i32,
) -> ChangeMessageVisibilityBatchRequestEntry;

/// Calls the builder of `DeleteMessageBatchRequestEntry` with an identifier
/// and a receipt. The builder fails only where one of the two is not set, so
/// it succeeds here; its result depends on the two strings alone.
#[verifier::external_body]
fn build_delete_entry(
    id: &String,
    receipt_handle: &String,
) -> (built: Result<DeleteMessageBatchRequestEntry, BuildError>)
    ensures
        built is Ok,
        built->Ok_0 == delete_entry_built(id@, receipt_handle@),
{
    DeleteMessageBatchRequestEntry::builder().id(id).receipt_handle(receipt_handle).build()
}

/// Calls the builder of `ChangeMessageVisibilityBatchRequestEntry` with an
/// identifier, a receipt and a visibility timeout. The builder fails only
/// where the identifier or the receipt is not set, so it succeeds here; its
/// result depends on the three values alone.
#[verifier::external_body]
fn build_visibility_entry(
    id: &String,
    receipt_handle: &String,
    visibility_timeout: i32,
) -> (built: Result<ChangeMessageVisibilityBatchRequestEntry, BuildError>)
    ensures
        built is Ok,
        built->Ok_0 == visibility_entry_built(id@, receipt_handle@, visibility_timeout),
{
    ChangeMessageVisibilityBatchRequestEntry::builder().id(id).receipt_handle(
        receipt_handle,
    ).visibility_timeout(visibility_timeout).build()
}

/// The entries of the delete call for `batch`: one for each entry of the
/// batch, in order, built of its identifier and its receipt.
pub fn delete_message_batch(
    batch: &Vec<BatchEntry>,
) -> (entries: Vec<DeleteMessageBatchRequestEntry>)
    ensures
        entries.len() == batch.len(),
        forall|k: int|
            0 <= k < batch.len() ==> #[trigger] entries[k] == delete_entry_built(
                batch[k].id@,
                batch[k].receipt_handle@,
            ),
{
    let mut entries: Vec<DeleteMessageBatchRequestEntry> = Vec::new();
    let mut k: usize = 0;
    while k < batch.len()
        invariant
            k <= batch.len(),
            entries.len() == k,
            forall|m: int|
                0 <= m < k ==> #[trigger] entries[m] == delete_entry_built(
                    batch[m].id@,
                    batch[m].receipt_handle@,
                ),
        decreases batch.len() - k,
    {
        match build_delete_entry(&batch[k].id, &batch[k].receipt_handle) {
            Ok(entry) => entries.push(entry),
            Err(_) => unreached(),
        }
        k += 1;
    }
    entries
}

/// The entries of the visibility change for `batch`: one for each entry of
/// the batch, in order, built of its identifier, its receipt and
/// `visibility_timeout`, in seconds.
pub fn change_message_visibility_batch(
    batch: &Vec<BatchEntry>,
    visibility_timeout: i32,
) -> (entries: Vec<ChangeMessageVisibilityBatchRequestEntry>)
    ensures
        entries.len() == batch.len(),
        forall|k: int|
            0 <= k < batch.len() ==> #[trigger] entries[k] == visibility_entry_built(
                batch[k].id@,
                batch[k].receipt_handle@,
                visibility_timeout,
            ),
{
    let mut entries: Vec<ChangeMessageVisibilityBatchRequestEntry> = Vec::new();
    let mut k: usize = 0;
    while k < batch.len()
        invariant
            k <= batch.len(),
            entries.len() == k,
            forall|m: int|
                0 <= m < k ==> #[trigger] entries[m] == visibility_entry_built(
                    batch[m].id@,
                    batch[m].receipt_handle@,
                    visibility_timeout,
                ),
        decreases batch.len() - k,
    {
        match build_visibility_entry(&batch[k].id, &batch[k].receipt_handle, visibility_timeout) {
            Ok(entry) => entries.push(entry),
            Err(_) => unreached(),
        }
        k += 1;
    }
    entries
}

} // verus!
