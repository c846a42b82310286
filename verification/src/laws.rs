//! The laws the payment system obeys, each proved from the contracts and
//! invariants that the operations themselves establish.

use crate::account::AccountId;
use crate::errors::PaymentError;
use crate::ledger::{spec_paid_copy, Ledger};
use crate::payment::PaymentEntry;
use vstd::prelude::*;

verus! {

/// For any `payment_id`, at most one record exists at a time: two store
/// indices answering to the same identifier are the same index. Together
/// with `initialize_payment`'s create-only refusal of a taken identifier,
/// no identifier ever names two simultaneous records.
pub proof fn lemma_at_most_one_record_per_id(l: Ledger, i: int, j: int)
    requires
        l.wf(),
        0 <= i < l.records@.len(),
        0 <= j < l.records@.len(),
        l.records@[i].record.payment_id@ == l.records@[j].record.payment_id@,
    ensures
        i == j,
{
    if i < j {
        assert(false);
    }
    if j < i {
        assert(false);
    }
}

/// In a well-formed ledger a record is paid exactly when its completion
/// time is present: the flag and the timestamp never disagree.
pub proof fn lemma_paid_iff_paid_at(l: Ledger, i: int)
    requires
        l.wf(),
        0 <= i < l.records@.len(),
    ensures
        l.records@[i].record.paid <==> l.records@[i].record.paid_at is Some,
{
}

/// A record in the terminal `Paid` state answers any `process_payment`
/// with `AlreadyPaid`, whoever signs and whoever would receive; by
/// `process_payment`'s contract every failure leaves the ledger exactly
/// as it was, so such a call is a no-op on state.
pub proof fn lemma_process_rejected_when_paid(
    l: Ledger,
    e: PaymentEntry,
    signer: AccountId,
    recipient: AccountId,
    id: Seq<char>,
)
    requires
        l.spec_record(id) == Some(e),
        e.record.paid,
    ensures
        l.spec_process_error(signer, recipient, id) == Some(PaymentError::AlreadyPaid),
{
}

/// Processing the same record twice in sequence succeeds at most once:
/// when the first call succeeds it leaves the record paid (that is what
/// [`spec_paid_copy`] states), and the second call is then refused with
/// `AlreadyPaid`.
pub proof fn lemma_process_twice(
    l: Ledger,
    l2: Ledger,
    e: PaymentEntry,
    e2: PaymentEntry,
    signer: AccountId,
    recipient: AccountId,
    id: Seq<char>,
    now: i64,
)
    requires
        l.spec_process_error(signer, recipient, id) is None,
        l.spec_record(id) == Some(e),
        l2.spec_record(id) == Some(e2),
        spec_paid_copy(e, e2, now),
    ensures
        l2.spec_process_error(signer, recipient, id) == Some(PaymentError::AlreadyPaid),
{
}

/// A record in the terminal `Paid` state can never be cancelled: any
/// `cancel_payment` on it answers `AlreadyPaid`, whoever signs.
pub proof fn lemma_cancel_rejected_when_paid(
    l: Ledger,
    e: PaymentEntry,
    signer: AccountId,
    id: Seq<char>,
)
    requires
        l.spec_record(id) == Some(e),
        e.record.paid,
    ensures
        l.spec_cancel_error(signer, id) == Some(PaymentError::AlreadyPaid),
{
}

/// An open record is always cancellable by its payer, as long as the
/// refund of the escrowed allocation fits the payer's balance; the record
/// is then removed and the allocation returned.
pub proof fn lemma_cancel_open_succeeds(l: Ledger, e: PaymentEntry, id: Seq<char>)
    requires
        l.spec_record(id) == Some(e),
        !e.record.paid,
        l.bank.spec_balance_of(e.record.payer) + e.lamports <= u64::MAX,
    ensures
        l.spec_cancel_error(e.record.payer, id) is None,
{
}

/// After a successful `process_payment` at time `now`, the record is
/// paid, its completion time is present, and — whenever the host clock
/// did not run backwards between creation and processing — that time is
/// no earlier than the record's creation time.
pub proof fn lemma_paid_record_is_terminal(e: PaymentEntry, e2: PaymentEntry, now: i64)
    requires
        spec_paid_copy(e, e2, now),
        now >= e.record.timestamp,
    ensures
        e2.record.paid,
        e2.record.paid_at matches Some(t) && t >= e2.record.timestamp,
{
}

} // verus!
