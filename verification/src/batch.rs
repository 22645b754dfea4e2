//! Batches of at most ten entries for the queue's batch calls.
//!
//! The queue service takes at most ten entries per batch call and wants each
//! entry of a call to carry an identifier of its own. Receipts are cut into
//! batches in order, and an entry's identifier is its place in its batch,
//! written in decimal.
use vstd::prelude::*;

verus! {

/// The largest number of entries the queue service accepts in one batch call.
pub const MAX_BATCH_ENTRIES: usize = 10;

/// The decimal digit for `d`, for `d` from 0 to 9.
pub open spec fn digit_char(d: int) -> char {
    if d == 0 {
        '0'
    } else if d == 1 {
        '1'
    } else if d == 2 {
        '2'
    } else if d == 3 {
        '3'
    } else if d == 4 {
        '4'
    } else if d == 5 {
        '5'
    } else if d == 6 {
        '6'
    } else if d == 7 {
        '7'
    } else if d == 8 {
        '8'
    } else {
        '9'
    }
}

/// `n` written in decimal, without leading zeros.
pub open spec fn decimal(n: nat) -> Seq<char>
    decreases n,
{
    if n < 10 {
        seq![digit_char(n as int)]
    } else {
        decimal(n / 10).push(digit_char((n % 10) as int))
    }
}

/// A number below ten is written with one digit, any other with more.
pub proof fn lemma_decimal_len(n: nat)
    ensures
        decimal(n).len() >= 1,
        n >= 10 ==> decimal(n).len() >= 2,
        n < 10 ==> decimal(n).len() == 1,
    decreases n,
{
    if n >= 10 {
        lemma_decimal_len(n / 10);
    }
}

/// Two numbers written alike are the same number.
pub proof fn lemma_decimal_injective(a: nat, b: nat)
    requires
        decimal(a) == decimal(b),
    ensures
        a == b,
    decreases a,
{
    lemma_decimal_len(a);
    lemma_decimal_len(b);
    if a < 10 {
        assert(decimal(a)[0] == digit_char(a as int));
        assert(decimal(b)[0] == digit_char(b as int));
    } else {
        let pa = decimal(a / 10);
        let pb = decimal(b / 10);
        assert(decimal(a).last() == digit_char((a % 10) as int));
        assert(decimal(b).last() == digit_char((b % 10) as int));
        assert(decimal(a).drop_last() =~= pa);
        assert(decimal(b).drop_last() =~= pb);
        lemma_decimal_injective(a / 10, b / 10);
    }
}

/// The digit `d` as a string of one character.
fn digit_str(d: usize) -> (s: &'static str)
    requires
        d < 10,
    ensures
        s@ == seq![digit_char(d as int)],
{
    proof {
        reveal_strlit("0");
        reveal_strlit("1");
        reveal_strlit("2");
        reveal_strlit("3");
        reveal_strlit("4");
        reveal_strlit("5");
        reveal_strlit("6");
        reveal_strlit("7");
        reveal_strlit("8");
        reveal_strlit("9");
    }
    let s = if d == 0 {
        "0"
    } else if d == 1 {
        "1"
    } else if d == 2 {
        "2"
    } else if d == 3 {
        "3"
    } else if d == 4 {
        "4"
    } else if d == 5 {
        "5"
    } else if d == 6 {
        "6"
    } else if d == 7 {
        "7"
    } else if d == 8 {
        "8"
    } else {
        "9"
    };
    assert(s@ =~= seq![digit_char(d as int)]);
    s
}

/// The identifier of the entry at place `n` of a batch: `n` in decimal.
pub fn entry_id(n: usize) -> (id: String)
    ensures
        id@ == decimal(n as nat),
    decreases n,
{
    if n < 10 {
        String::from_str(digit_str(n))
    } else {
        let mut id = entry_id(n / 10);
        id.append(digit_str(n % 10));
        assert(id@ =~= decimal(n as nat));
        id
    }
}

/// One entry of a batch call: a receipt under the identifier by which the
/// queue's answer will name it.
#[derive(Debug)]
pub struct BatchEntry {
    /// Identifier of the entry within its batch.
    pub id: String,
    /// The receipt the call is about.
    pub receipt_handle: String,
}

/// Mathematical value of a [`BatchEntry`].
pub struct EntryView {
    pub id: Seq<char>,
    pub receipt_handle: Seq<char>,
}

impl DeepView for BatchEntry {
    type V = EntryView;

    open spec fn deep_view(&self) -> EntryView {
        EntryView { id: self.id@, receipt_handle: self.receipt_handle@ }
    }
}

/// Number of batches needed for `n` receipts.
pub open spec fn batch_count(n: nat) -> nat {
    (n + 9) / 10
}

/// Number of entries in batch `b` of the batches for `n` receipts: ten, but
/// for a last batch that holds what is left.
pub open spec fn batch_len(n: nat, b: int) -> nat {
    if n - 10 * b >= 10 {
        10
    } else if n - 10 * b >= 0 {
        (n - 10 * b) as nat
    } else {
        0
    }
}

/// The batches for `receipts`: entry `j` of batch `b` holds receipt
/// `10 * b + j` under the identifier `j`.
pub open spec fn planned(receipts: Seq<Seq<char>>) -> Seq<Seq<EntryView>> {
    Seq::new(
        batch_count(receipts.len()),
        |b: int|
            Seq::new(
                batch_len(receipts.len(), b),
                |j: int| EntryView { id: decimal(j as nat), receipt_handle: receipts[10 * b + j] },
            ),
    )
}

/// The receipts that the entries of `plan` name.
pub open spec fn plan_receipts(plan: Seq<Seq<EntryView>>) -> Set<Seq<char>> {
    Set::new(
        |r: Seq<char>|
            exists|b: int, j: int|
                0 <= b < plan.len() && 0 <= j < plan[b].len() && (#[trigger] plan[b][j]).receipt_handle
                    == r,
    )
}

/// Every batch of a plan holds between one and ten entries, identifiers
/// differ within a batch, and each receipt stands at exactly one place: the
/// one that its index gives.
pub proof fn lemma_planned(receipts: Seq<Seq<char>>)
    ensures
        forall|b: int|
            0 <= b < planned(receipts).len() ==> 1 <= (#[trigger] planned(receipts)[b]).len() <= 10,
        forall|b: int, j: int, k: int|
            0 <= b < planned(receipts).len() && 0 <= j < k < planned(receipts)[b].len()
                ==> planned(receipts)[b][j].id != planned(receipts)[b][k].id,
        forall|i: int|
            0 <= i < receipts.len() ==> i / 10 < planned(receipts).len() && i % 10 < planned(
                receipts,
            )[i / 10].len() && planned(receipts)[i / 10][i % 10].receipt_handle == #[trigger] receipts[i],
        plan_receipts(planned(receipts)) == receipts.to_set(),
{
    let plan = planned(receipts);
    assert forall|b: int, j: int, k: int|
        0 <= b < plan.len() && 0 <= j < k < plan[b].len() implies plan[b][j].id != plan[b][k].id by {
        if decimal(j as nat) == decimal(k as nat) {
            lemma_decimal_injective(j as nat, k as nat);
        }
    }
    assert forall|r: Seq<char>| plan_receipts(plan).contains(r) <==> receipts.to_set().contains(r) by {
        if plan_receipts(plan).contains(r) {
            let (b, j) = choose|b: int, j: int|
                0 <= b < plan.len() && 0 <= j < plan[b].len() && (#[trigger] plan[b][j]).receipt_handle
                    == r;
            assert(receipts[10 * b + j] == r);
        }
        if receipts.to_set().contains(r) {
            let i = choose|i: int| 0 <= i < receipts.len() && receipts[i] == r;
            assert(plan[i / 10][i % 10].receipt_handle == r);
        }
    }
    assert(plan_receipts(plan) =~= receipts.to_set());
}

/// Cuts `receipts` into batches of at most ten entries, in order.
pub fn plan_batches(receipts: &Vec<String>) -> (plan: Vec<Vec<BatchEntry>>)
    ensures
        plan.deep_view() == planned(receipts.deep_view()),
{
    let ghost model = planned(receipts.deep_view());
    let n: usize = receipts.len();
    let mut plan: Vec<Vec<BatchEntry>> = Vec::new();
    let mut start: usize = 0;
    while start < n
        invariant
            n == receipts.len(),
            model == planned(receipts.deep_view()),
            start <= n,
            start % 10 == 0 || start == n,
            plan.len() == batch_count(start as nat),
            forall|b: int| 0 <= b < plan.len() ==> (#[trigger] plan[b]).deep_view() == model[b],
        decreases n - start,
    {
        let size: usize = if n - start < MAX_BATCH_ENTRIES {
            n - start
        } else {
            MAX_BATCH_ENTRIES
        };
        let ghost b = plan.len() as int;
        assert(start == 10 * b);
        assert(size == batch_len(n as nat, b));
        let mut batch: Vec<BatchEntry> = Vec::new();
        let mut j: usize = 0;
        while j < size
            invariant
                n == receipts.len(),
                start + size <= n,
                j <= size,
                batch.len() == j,
                forall|k: int|
                    0 <= k < j ==> (#[trigger] batch[k]).deep_view() == (EntryView {
                        id: decimal(k as nat),
                        receipt_handle: receipts[start + k]@,
                    }),
            decreases size - j,
        {
            batch.push(BatchEntry { id: entry_id(j), receipt_handle: receipts[start + j].clone() });
            j += 1;
        }
        assert(batch.deep_view() =~= model[b]);
        plan.push(batch);
        start += size;
    }
    assert(plan.deep_view() =~= model);
    plan
}

/// What the queue said of one entry that it could not carry out.
#[derive(Debug)]
pub struct FailedEntry {
    /// Identifier of the entry within its batch.
    pub id: String,
    /// Whether the queue blames the request rather than itself.
    pub sender_fault: bool,
    /// The queue's error code.
    pub code: String,
}

/// Mathematical value of a [`FailedEntry`].
pub struct FailedView {
    pub id: Seq<char>,
    pub sender_fault: bool,
    pub code: Seq<char>,
}

impl DeepView for FailedEntry {
    type V = FailedView;

    open spec fn deep_view(&self) -> FailedView {
        FailedView { id: self.id@, sender_fault: self.sender_fault, code: self.code@ }
    }
}

/// The queue's answer to one batch call, entry by entry.
#[derive(Debug)]
pub struct BatchResponse {
    /// Identifiers of the entries that were carried out.
    pub successful: Vec<String>,
    /// The entries that were not, each with the reason.
    pub failed: Vec<FailedEntry>,
}

/// Mathematical value of a [`BatchResponse`].
pub struct ResponseView {
    pub successful: Seq<Seq<char>>,
    pub failed: Seq<FailedView>,
}

impl DeepView for BatchResponse {
    type V = ResponseView;

    open spec fn deep_view(&self) -> ResponseView {
        ResponseView { successful: self.successful.deep_view(), failed: self.failed.deep_view() }
    }
}

/// How a batch call ended for one receipt.
#[derive(Debug)]
pub enum Status {
    /// The queue carried the entry out.
    Succeeded,
    /// The queue refused the entry.
    Failed { sender_fault: bool, code: String },
    /// The queue's answer does not name the entry.
    Unreported,
}

/// Mathematical value of a [`Status`].
pub enum StatusView {
    Succeeded,
    Failed { sender_fault: bool, code: Seq<char> },
    Unreported,
}

impl DeepView for Status {
    type V = StatusView;

    open spec fn deep_view(&self) -> StatusView {
        match self {
            Status::Succeeded => StatusView::Succeeded,
            Status::Failed { sender_fault, code } => StatusView::Failed {
                sender_fault: *sender_fault,
                code: code@,
            },
            Status::Unreported => StatusView::Unreported,
        }
    }
}

/// The outcome of a batch call for one receipt.
#[derive(Debug)]
pub struct ReceiptResult {
    /// The receipt the entry was about.
    pub receipt_handle: String,
    /// How the call ended for it.
    pub status: Status,
}

/// Mathematical value of a [`ReceiptResult`].
pub struct ResultView {
    pub receipt_handle: Seq<char>,
    pub status: StatusView,
}

impl DeepView for ReceiptResult {
    type V = ResultView;

    open spec fn deep_view(&self) -> ResultView {
        ResultView { receipt_handle: self.receipt_handle@, status: self.status.deep_view() }
    }
}

/// The first of `failed` that names `id`, if any does.
pub open spec fn first_failure(failed: Seq<FailedView>, id: Seq<char>) -> Option<FailedView>
    decreases failed.len(),
{
    if failed.len() == 0 {
        None
    } else {
        match first_failure(failed.drop_last(), id) {
            Some(f) => Some(f),
            None => if failed.last().id == id {
                Some(failed.last())
            } else {
                None
            },
        }
    }
}

/// How the call ended for the entry `id`: a failure if the answer lists one
/// for it, else a success if the answer lists it as carried out, else
/// unreported.
pub open spec fn status_of(id: Seq<char>, response: ResponseView) -> StatusView {
    match first_failure(response.failed, id) {
        Some(f) => StatusView::Failed { sender_fault: f.sender_fault, code: f.code },
        None => if response.successful.contains(id) {
            StatusView::Succeeded
        } else {
            StatusView::Unreported
        },
    }
}

/// The outcomes of a batch call, entry by entry.
pub open spec fn settled(batch: Seq<EntryView>, response: ResponseView) -> Seq<ResultView> {
    Seq::new(
        batch.len(),
        |k: int|
            ResultView {
                receipt_handle: batch[k].receipt_handle,
                status: status_of(batch[k].id, response),
            },
    )
}

/// How the call ended for the entry `id`.
fn entry_status(id: &String, response: &BatchResponse) -> (status: Status)
    ensures
        status.deep_view() == status_of(id@, response.deep_view()),
{
    let ghost failed = response.failed.deep_view();
    let ghost successful = response.successful.deep_view();
    let mut i: usize = 0;
    while i < response.failed.len()
        invariant
            i <= response.failed.len(),
            failed == response.failed.deep_view(),
            first_failure(failed.take(i as int), id@) is None,
        decreases response.failed.len() - i,
    {
        let f = &response.failed[i];
        proof {
            assert(failed.take(i + 1).drop_last() =~= failed.take(i as int));
            assert(failed.take(i + 1).last() == failed[i as int]);
            assert(failed[i as int] == f.deep_view());
        }
        if f.id == *id {
            proof {
                lemma_first_failure_prefix(failed, i + 1, id@);
            }
            return Status::Failed { sender_fault: f.sender_fault, code: f.code.clone() };
        }
        i += 1;
    }
    assert(failed.take(i as int) =~= failed);
    let mut k: usize = 0;
    while k < response.successful.len()
        invariant
            k <= response.successful.len(),
            successful == response.successful.deep_view(),
            first_failure(response.failed.deep_view(), id@) is None,
            forall|m: int| 0 <= m < k ==> successful[m] != id@,
        decreases response.successful.len() - k,
    {
        assert(successful[k as int] == response.successful[k as int]@);
        if response.successful[k] == *id {
            assert(successful.contains(id@));
            return Status::Succeeded;
        }
        k += 1;
    }
    Status::Unreported
}

/// A failure found in the first `n` of `failed` is the one found in all of
/// them.
proof fn lemma_first_failure_prefix(failed: Seq<FailedView>, n: int, id: Seq<char>)
    requires
        0 <= n <= failed.len(),
        first_failure(failed.take(n), id) is Some,
    ensures
        first_failure(failed, id) == first_failure(failed.take(n), id),
    decreases failed.len() - n,
{
    if n < failed.len() {
        assert(failed.take(n + 1).drop_last() =~= failed.take(n));
        lemma_first_failure_prefix(failed, n + 1, id);
    } else {
        assert(failed.take(n) =~= failed);
    }
}

/// Reads the queue's answer to the call that sent `batch`: one outcome for
/// each entry, in the batch's order.
pub fn settle(batch: &Vec<BatchEntry>, response: &BatchResponse) -> (results: Vec<ReceiptResult>)
    ensures
        results.deep_view() == settled(batch.deep_view(), response.deep_view()),
{
    let mut results: Vec<ReceiptResult> = Vec::new();
    let mut k: usize = 0;
    while k < batch.len()
        invariant
            k <= batch.len(),
            results.len() == k,
            forall|m: int|
                0 <= m < k ==> (#[trigger] results[m]).deep_view() == settled(
                    batch.deep_view(),
                    response.deep_view(),
                )[m],
        decreases batch.len() - k,
    {
        let entry = &batch[k];
        assert(batch.deep_view()[k as int] == entry.deep_view());
        results.push(
            ReceiptResult {
                receipt_handle: entry.receipt_handle.clone(),
                status: entry_status(&entry.id, response),
            },
        );
        k += 1;
    }
    assert(results.deep_view() =~= settled(batch.deep_view(), response.deep_view()));
    results
}

} // verus!
