use crate::account::{spec_moved, spec_transfer_error, AccountId, Bank};
use crate::errors::PaymentError;
use vstd::prelude::*;

verus! {

/// The two accounts a direct payment names: the signing payer who funds
/// the move and the payee who receives it.
#[derive(Clone, Copy, Debug, PartialEq, Eq, Structural)]
pub struct MakePayment {
    pub payer: AccountId,
    pub payee: AccountId,
}

/// The stateless transfer program: moves `amount` units from the payer to
/// the payee, with no persisted record and no replay protection — issuing
/// the same instruction twice produces two transfers.
///
/// Succeeds exactly when [`spec_transfer_error`] allows it (the payer must
/// hold `amount` units and the payee's balance must not overflow); on
/// failure it reports that error and no balance moves.
pub fn make_payment(bank: &mut Bank, accounts: MakePayment, amount: u64) -> (r: Result<
    (),
    PaymentError,
>)
    requires
        old(bank).wf(),
    ensures
        final(bank).wf(),
        r is Ok <==> spec_transfer_error(*old(bank), accounts.payer, accounts.payee, amount)
            is None,
        r matches Err(e) ==> spec_transfer_error(*old(bank), accounts.payer, accounts.payee, amount)
            == Some(e),
        r is Err ==> *final(bank) == *old(bank),
        r is Ok ==> spec_moved(*old(bank), *final(bank), accounts.payer, accounts.payee, amount),
{
    bank.transfer(accounts.payer, accounts.payee, amount)
}

} // verus!
