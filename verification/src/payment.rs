use crate::account::AccountId;
use vstd::prelude::*;
use vstd::utf8::encode_utf8;

verus! {

/// The storage budget of `payment_id`, in encoded bytes.
pub const MAX_PAYMENT_ID_BYTES: usize = 40;

/// The storage budget of `description`, in encoded bytes.
pub const MAX_DESCRIPTION_BYTES: usize = 100;

/// The number of bytes a string occupies in the record's storage: the
/// length of its UTF-8 encoding, as the machine measures it. The cast is
/// lossless for any string that fits in memory.
pub open spec fn stored_len(s: Seq<char>) -> usize {
    encode_utf8(s).len() as usize
}

/// One payment record of the escrow ledger.
///
/// `amount`, `payer`, `payee`, `payment_id`, `description` and `timestamp`
/// are fixed at creation; a successful `process_payment` sets `paid` and
/// `paid_at` exactly once, and nothing ever clears them again.
pub struct Payment {
    /// Units of native currency moved when the payment is processed.
    pub amount: u64,
    /// The account that funds the transfer.
    pub payer: AccountId,
    /// The account that receives the transfer.
    pub payee: AccountId,
    /// Whether the payment reached its terminal `Paid` state.
    pub paid: bool,
    /// The externally supplied identifier the record is addressed by.
    pub payment_id: String,
    /// Free text, kept with the record and never read by the logic.
    pub description: String,
    /// Creation time, as the host clock gave it.
    pub timestamp: i64,
    /// Completion time; present exactly when `paid` is set.
    pub paid_at: Option<i64>,
}

impl Payment {
    /// The record's internal invariant: the flag and the completion time
    /// agree, and both strings fit their storage budgets.
    pub open spec fn wf(self) -> bool {
        &&& self.paid <==> self.paid_at is Some
        &&& stored_len(self.payment_id@) <= MAX_PAYMENT_ID_BYTES
        &&& stored_len(self.description@) <= MAX_DESCRIPTION_BYTES
    }
}

/// A record as the store holds it: the record itself together with the
/// units escrowed in its storage (the allocation cost the payer funded,
/// returned on cancellation).
pub struct PaymentEntry {
    /// The allocation cost held by the record's storage.
    pub lamports: u64,
    /// The payment record.
    pub record: Payment,
}

} // verus!
