//! A small escrow payment library for a host that serializes every operation.
//!
//! Two independent designs live here. The escrow ledger ([`ledger::Ledger`])
//! keeps one `Payment` record per `payment_id` and drives it through the
//! lifecycle open -> paid, or open -> cancelled, moving native currency
//! between accounts when a payment is processed. The direct transfer
//! ([`transfer::make_payment`]) moves currency between two accounts with no
//! persisted record at all.
//!
//! Balances and records are plain in-memory values, so every rule of the
//! system is stated as a contract and proved: which inputs succeed, which
//! error each other input earns, and that a failed operation leaves the
//! state exactly as it was.

pub mod account;
pub mod errors;
pub mod laws;
pub mod ledger;
pub mod payment;
pub mod transfer;
