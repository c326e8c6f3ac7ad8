//! The per-client account state machine.
use std::collections::HashMap;
use vstd::prelude::*;
use crate::decimal::{at_most_units, normalized_units, Decimal};
use crate::error::TxError;

verus! {

/// What the ledger keeps of one deposit or withdrawal.
#[derive(Clone, Copy, Debug, PartialEq, Eq)]
pub struct TxMeta {
    /// The rounded amount, in units of `10^-4`.
    pub amount: i64,
    pub under_dispute: bool,
}

/// One client's balances, in units of `10^-4`, and its ledger.
#[derive(Debug)]
pub struct ClientAccountState {
    pub available: i64,
    pub held: i64,
    pub locked: bool,
    pub txs: HashMap<u32, TxMeta>,
}

/// The mathematical model of an account.
pub struct AccountModel {
    pub available: int,
    pub held: int,
    pub locked: bool,
    pub ledger: Map<u32, TxMeta>,
}

impl AccountModel {
    pub open spec fn total(self) -> int {
        self.available + self.held
    }

    /// Every recorded transaction carries a positive amount.
    pub open spec fn wf(self) -> bool {
        forall|t: u32| #[trigger] self.ledger.contains_key(t) ==> self.ledger[t].amount > 0
    }
}

pub open spec fn empty_account() -> AccountModel {
    AccountModel { available: 0, held: 0, locked: false, ledger: Map::empty() }
}

pub open spec fn fits_i64(x: int) -> bool {
    i64::MIN <= x <= i64::MAX
}

pub open spec fn deposit_outcome(s: AccountModel, tx: u32, amount: Decimal) -> Result<
    AccountModel,
    TxError,
> {
    let units = normalized_units(amount);
    if units <= 0 {
        Err(TxError::InvalidAmount)
    } else if !fits_i64(units) || !fits_i64(s.available + units) {
        Err(TxError::Overflow)
    } else {
        Ok(
            AccountModel {
                available: s.available + units,
                ledger: s.ledger.insert(tx, TxMeta { amount: units as i64, under_dispute: false }),
                ..s
            },
        )
    }
}

/// Note that sufficiency compares the amount as given, before rounding.
pub open spec fn withdraw_outcome(s: AccountModel, tx: u32, amount: Decimal) -> Result<
    AccountModel,
    TxError,
> {
    let units = normalized_units(amount);
    if units <= 0 {
        Err(TxError::InvalidAmount)
    } else if !at_most_units(amount, s.available) {
        Err(TxError::InsufficientFunds)
    } else if !fits_i64(units) || !fits_i64(s.available - units) {
        Err(TxError::Overflow)
    } else {
        Ok(
            AccountModel {
                available: s.available - units,
                ledger: s.ledger.insert(tx, TxMeta { amount: units as i64, under_dispute: false }),
                ..s
            },
        )
    }
}

/// A dispute is accepted again on an entry already under dispute.
pub open spec fn dispute_outcome(s: AccountModel, tx: u32) -> Result<AccountModel, TxError> {
    if !s.ledger.contains_key(tx) {
        Err(TxError::TransactionNotFound)
    } else {
        let amt = s.ledger[tx].amount as int;
        if !fits_i64(s.available - amt) || !fits_i64(s.held + amt) {
            Err(TxError::Overflow)
        } else {
            Ok(
                AccountModel {
                    available: s.available - amt,
                    held: s.held + amt,
                    ledger: s.ledger.insert(
                        tx,
                        TxMeta { amount: s.ledger[tx].amount, under_dispute: true },
                    ),
                    ..s
                },
            )
        }
    }
}

/// A resolve leaves the entry marked as under dispute.
pub open spec fn resolve_outcome(s: AccountModel, tx: u32) -> Result<AccountModel, TxError> {
    if !s.ledger.contains_key(tx) {
        Err(TxError::TransactionNotFound)
    } else if !s.ledger[tx].under_dispute {
        Err(TxError::NotDisputed)
    } else {
        let amt = s.ledger[tx].amount as int;
        if !fits_i64(s.held - amt) || !fits_i64(s.available + amt) {
            Err(TxError::Overflow)
        } else {
            Ok(AccountModel { available: s.available + amt, held: s.held - amt, ..s })
        }
    }
}

/// A chargeback drops the held amount without returning it, and freezes the account.
pub open spec fn chargeback_outcome(s: AccountModel, tx: u32) -> Result<AccountModel, TxError> {
    if !s.ledger.contains_key(tx) {
        Err(TxError::TransactionNotFound)
    } else if !s.ledger[tx].under_dispute {
        Err(TxError::NotDisputed)
    } else {
        let amt = s.ledger[tx].amount as int;
        if !fits_i64(s.held - amt) {
            Err(TxError::Overflow)
        } else {
            Ok(
                AccountModel {
                    held: s.held - amt,
                    locked: true,
                    ledger: s.ledger.insert(
                        tx,
                        TxMeta { amount: s.ledger[tx].amount, under_dispute: false },
                    ),
                    ..s
                },
            )
        }
    }
}

/// The state after an operation with the given outcome: unchanged on a rejection.
pub open spec fn state_after(s: AccountModel, o: Result<AccountModel, TxError>) -> AccountModel {
    match o {
        Ok(n) => n,
        Err(_) => s,
    }
}

/// The result an operation with the given outcome reports.
pub open spec fn result_of(o: Result<AccountModel, TxError>) -> Result<(), TxError> {
    match o {
        Ok(_) => Ok(()),
        Err(e) => Err(e),
    }
}

impl View for ClientAccountState {
    type V = AccountModel;

    open spec fn view(&self) -> AccountModel {
        AccountModel {
            available: self.available as int,
            held: self.held as int,
            locked: self.locked,
            ledger: self.txs@,
        }
    }
}

impl Default for ClientAccountState {
    fn default() -> (r: Self)
        ensures
            r@ == empty_account(),
    {
        ClientAccountState { available: 0, held: 0, locked: false, txs: HashMap::new() }
    }
}

impl ClientAccountState {
    pub open spec fn wf(&self) -> bool {
        self@.wf()
    }

    /// Credits the rounded amount to the available funds and records it under `tx`,
    /// replacing any entry with that id.
    pub fn deposit(&mut self, tx: u32, amount: Decimal) -> (r: Result<(), TxError>)
        ensures
            r == result_of(deposit_outcome(old(self)@, tx, amount)),
            final(self)@ == state_after(old(self)@, deposit_outcome(old(self)@, tx, amount)),
            old(self).wf() ==> final(self).wf(),
            normalized_units(amount) <= 0 ==> r == Err::<(), TxError>(TxError::InvalidAmount),
            r.is_err() ==> final(self)@ == old(self)@,
            r.is_ok() ==> final(self)@.total() == old(self)@.total() + normalized_units(amount),
    {
        let units = amount.normalize();
        if units <= 0 {
            return Err(TxError::InvalidAmount);
        }
        if units > i64::MAX as i128 {
            return Err(TxError::Overflow);
        }
        let new_available = self.available as i128 + units;
        if new_available > i64::MAX as i128 || new_available < i64::MIN as i128 {
            return Err(TxError::Overflow);
        }
        self.available = new_available as i64;
        self.txs.insert(tx, TxMeta { amount: units as i64, under_dispute: false });
        Ok(())
    }

    /// Debits the rounded amount from the available funds and records it under `tx`,
    /// provided the amount as given does not exceed the available funds.
    pub fn withdraw(&mut self, tx: u32, amount: Decimal) -> (r: Result<(), TxError>)
        ensures
            r == result_of(withdraw_outcome(old(self)@, tx, amount)),
            final(self)@ == state_after(old(self)@, withdraw_outcome(old(self)@, tx, amount)),
            old(self).wf() ==> final(self).wf(),
            normalized_units(amount) > 0 && !at_most_units(amount, old(self)@.available) ==> r
                == Err::<(), TxError>(TxError::InsufficientFunds),
            r.is_err() ==> final(self)@ == old(self)@,
            r.is_ok() ==> final(self)@.total() == old(self)@.total() - normalized_units(amount),
    {
        let units = amount.normalize();
        if units <= 0 {
            return Err(TxError::InvalidAmount);
        }
        if !amount.at_most(self.available) {
            return Err(TxError::InsufficientFunds);
        }
        if units > i64::MAX as i128 {
            return Err(TxError::Overflow);
        }
        let new_available = self.available as i128 - units;
        if new_available > i64::MAX as i128 || new_available < i64::MIN as i128 {
            return Err(TxError::Overflow);
        }
        self.available = new_available as i64;
        self.txs.insert(tx, TxMeta { amount: units as i64, under_dispute: false });
        Ok(())
    }

    /// Moves the amount of transaction `tx` from the available to the held funds
    /// and marks it as under dispute.
    pub fn dispute(&mut self, tx: u32) -> (r: Result<(), TxError>)
        ensures
            r == result_of(dispute_outcome(old(self)@, tx)),
            final(self)@ == state_after(old(self)@, dispute_outcome(old(self)@, tx)),
            old(self).wf() ==> final(self).wf(),
            !old(self)@.ledger.contains_key(tx) ==> r == Err::<(), TxError>(
                TxError::TransactionNotFound,
            ),
            r.is_err() ==> final(self)@ == old(self)@,
            r.is_ok() ==> {
                let amt = old(self)@.ledger[tx].amount as int;
                &&& final(self)@.available == old(self)@.available - amt
                &&& final(self)@.held == old(self)@.held + amt
                &&& final(self)@.total() == old(self)@.total()
            },
    {
        match self.txs.get(&tx) {
            None => Err(TxError::TransactionNotFound),
            Some(meta) => {
                let amt = meta.amount;
                let new_available = self.available as i128 - amt as i128;
                let new_held = self.held as i128 + amt as i128;
                if new_available < i64::MIN as i128 || new_available > i64::MAX as i128
                    || new_held < i64::MIN as i128 || new_held > i64::MAX as i128 {
                    return Err(TxError::Overflow);
                }
                self.available = new_available as i64;
                self.held = new_held as i64;
                self.txs.insert(tx, TxMeta { amount: amt, under_dispute: true });
                Ok(())
            },
        }
    }

    /// Releases the held amount of a disputed transaction `tx` back to the
    /// available funds.
    pub fn resolve(&mut self, tx: u32) -> (r: Result<(), TxError>)
        ensures
            r == result_of(resolve_outcome(old(self)@, tx)),
            final(self)@ == state_after(old(self)@, resolve_outcome(old(self)@, tx)),
            old(self).wf() ==> final(self).wf(),
            !old(self)@.ledger.contains_key(tx) ==> r == Err::<(), TxError>(
                TxError::TransactionNotFound,
            ),
            old(self)@.ledger.contains_key(tx) && !old(self)@.ledger[tx].under_dispute ==> r
                == Err::<(), TxError>(TxError::NotDisputed),
            r.is_err() ==> final(self)@ == old(self)@,
            r.is_ok() ==> {
                let amt = old(self)@.ledger[tx].amount as int;
                &&& final(self)@.available == old(self)@.available + amt
                &&& final(self)@.held == old(self)@.held - amt
                &&& final(self)@.total() == old(self)@.total()
            },
    {
        match self.txs.get(&tx) {
            None => Err(TxError::TransactionNotFound),
            Some(meta) => {
                if !meta.under_dispute {
                    return Err(TxError::NotDisputed);
                }
                let amt = meta.amount;
                let new_available = self.available as i128 + amt as i128;
                let new_held = self.held as i128 - amt as i128;
                if new_available < i64::MIN as i128 || new_available > i64::MAX as i128
                    || new_held < i64::MIN as i128 || new_held > i64::MAX as i128 {
                    return Err(TxError::Overflow);
                }
                self.available = new_available as i64;
                self.held = new_held as i64;
                Ok(())
            },
        }
    }

    /// Writes off the held amount of a disputed transaction `tx`, clears its
    /// dispute mark and freezes the account.
    pub fn chargeback(&mut self, tx: u32) -> (r: Result<(), TxError>)
        ensures
            r == result_of(chargeback_outcome(old(self)@, tx)),
            final(self)@ == state_after(old(self)@, chargeback_outcome(old(self)@, tx)),
            old(self).wf() ==> final(self).wf(),
            !old(self)@.ledger.contains_key(tx) ==> r == Err::<(), TxError>(
                TxError::TransactionNotFound,
            ),
            old(self)@.ledger.contains_key(tx) && !old(self)@.ledger[tx].under_dispute ==> r
                == Err::<(), TxError>(TxError::NotDisputed),
            r.is_err() ==> final(self)@ == old(self)@,
            r.is_ok() ==> {
                let amt = old(self)@.ledger[tx].amount as int;
                &&& final(self)@.available == old(self)@.available
                &&& final(self)@.held == old(self)@.held - amt
                &&& final(self)@.locked
            },
            r.is_ok() && old(self).wf() ==> final(self)@.total() < old(self)@.total(),
    {
        match self.txs.get(&tx) {
            None => Err(TxError::TransactionNotFound),
            Some(meta) => {
                if !meta.under_dispute {
                    return Err(TxError::NotDisputed);
                }
                let amt = meta.amount;
                let new_held = self.held as i128 - amt as i128;
                if new_held < i64::MIN as i128 || new_held > i64::MAX as i128 {
                    return Err(TxError::Overflow);
                }
                self.held = new_held as i64;
                self.locked = true;
                self.txs.insert(tx, TxMeta { amount: amt, under_dispute: false });
                Ok(())
            },
        }
    }
}

} // verus!
