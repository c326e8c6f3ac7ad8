//! Reasons a transaction is rejected.
use vstd::prelude::*;

verus! {

/// Why a transaction was rejected. A rejection never changes any state.
#[derive(Clone, Copy, Debug, PartialEq, Eq)]
pub enum TxError {
    /// The amount is zero or negative once rounded to four fractional digits.
    InvalidAmount,
    /// A withdrawal asks for more than the available funds.
    InsufficientFunds,
    /// No deposit or withdrawal with this transaction id is on record.
    TransactionNotFound,
    /// The referenced transaction is not under dispute.
    NotDisputed,
    /// A balance would leave the range that the ledger can represent.
    Overflow,
    /// The account is frozen after a chargeback.
    AccountLocked,
    /// A deposit or withdrawal record carries no amount.
    MissingAmount,
}

} // verus!
