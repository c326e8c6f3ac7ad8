//! The kinds of transaction records.
use vstd::prelude::*;

verus! {

#[derive(Clone, Copy, Debug, PartialEq, Eq)]
pub enum TransactionType {
    DEPOSIT,
    WITHDRAW,
    DISPUTE,
    RESOLVE,
    CHARGEBACK,
}

} // verus!
