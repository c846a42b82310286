use vstd::prelude::*;

verus! {

/// Why the payment system refused an operation.
///
/// Every operation either fully commits or reports one of these and leaves
/// all state untouched; the contracts of the operations say exactly which
/// inputs earn which variant.
#[derive(Clone, Copy, Debug, PartialEq, Eq, Structural)]
pub enum PaymentError {
    /// `process_payment` or `cancel_payment` touched a record that is
    /// already in the terminal `Paid` state.
    AlreadyPaid,
    /// `initialize_payment` was given a `payment_id` for which a record
    /// already exists: record creation is create-only, never an overwrite.
    DuplicatePayment,
    /// The invoking signer is not the record's payer, or the designated
    /// receiving account is not the record's payee.
    Unauthorized,
    /// No record exists for the given `payment_id`.
    PaymentNotFound,
    /// The funding account does not hold the units to be moved.
    InsufficientFunds,
    /// Crediting the receiving account would overflow its balance.
    BalanceOverflow,
    /// The `payment_id` exceeds its storage budget of
    /// [`crate::payment::MAX_PAYMENT_ID_BYTES`] encoded bytes.
    PaymentIdTooLong,
    /// The `description` exceeds its storage budget of
    /// [`crate::payment::MAX_DESCRIPTION_BYTES`] encoded bytes.
    DescriptionTooLong,
}

} // verus!
