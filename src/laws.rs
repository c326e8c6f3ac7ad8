//! Properties that relate several operations of the account state machine.
use vstd::prelude::*;
use crate::client_account_state::{
    chargeback_outcome, dispute_outcome, fits_i64, resolve_outcome, withdraw_outcome, AccountModel,
};
use crate::decimal::{
    lemma_pow10_add, lemma_pow10_positive, normalized_units, pow10, Decimal, PRECISION,
};
use crate::engine::{account_of, apply_spec, Transaction};
use crate::error::TxError;

verus! {

/// Withdrawing exactly the available funds succeeds and leaves nothing available.
pub proof fn lemma_withdraw_whole_balance(s: AccountModel, tx: u32, amount: Decimal)
    requires
        s.available > 0,
        s.available <= i64::MAX,
        amount.mantissa * pow10(PRECISION as nat) == s.available * pow10(amount.scale as nat),
    ensures
        withdraw_outcome(s, tx, amount) is Ok,
        withdraw_outcome(s, tx, amount)->Ok_0.available == 0,
        withdraw_outcome(s, tx, amount)->Ok_0.held == s.held,
{
    let m = amount.mantissa as int;
    let a = s.available;
    if amount.scale <= PRECISION {
        let k = (PRECISION - amount.scale) as nat;
        let f = pow10(k) as int;
        let t = pow10(amount.scale as nat) as int;
        lemma_pow10_add(k, amount.scale as nat);
        assert(k + amount.scale as nat == PRECISION as nat);
        lemma_pow10_positive(amount.scale as nat);
        assert(m * (f * t) == a * t);
        assert(m * f == a) by (nonlinear_arith)
            requires
                m * (f * t) == a * t,
                t >= 1,
        ;
    } else {
        let k = (amount.scale - PRECISION) as nat;
        let d = pow10(k) as int;
        let t = pow10(PRECISION as nat) as int;
        lemma_pow10_add(PRECISION as nat, k);
        assert(PRECISION as nat + k == amount.scale as nat);
        lemma_pow10_positive(PRECISION as nat);
        lemma_pow10_positive(k);
        assert(m * t == a * (t * d));
        assert(m == a * d) by (nonlinear_arith)
            requires
                m * t == a * (t * d),
                t >= 1,
        ;
        assert(m >= 0) by (nonlinear_arith)
            requires
                m == a * d,
                a > 0,
                d >= 1,
        ;
        assert((2 * m + d) / (2 * d) == a) by (nonlinear_arith)
            requires
                m == a * d,
                a > 0,
                d >= 1,
        ;
    }
    assert(normalized_units(amount) == a);
}

/// A resolve right after a dispute of the same transaction restores both balances.
pub proof fn lemma_dispute_then_resolve(s: AccountModel, tx: u32)
    requires
        fits_i64(s.available),
        fits_i64(s.held),
        dispute_outcome(s, tx) is Ok,
    ensures
        resolve_outcome(dispute_outcome(s, tx)->Ok_0, tx) is Ok,
        resolve_outcome(dispute_outcome(s, tx)->Ok_0, tx)->Ok_0.available == s.available,
        resolve_outcome(dispute_outcome(s, tx)->Ok_0, tx)->Ok_0.held == s.held,
        resolve_outcome(dispute_outcome(s, tx)->Ok_0, tx)->Ok_0.locked == s.locked,
{
    let n = dispute_outcome(s, tx)->Ok_0;
    assert(n.ledger.contains_key(tx));
    assert(n.ledger[tx].amount == s.ledger[tx].amount);
    assert(n.ledger[tx].under_dispute);
}

/// A chargeback right after a dispute of the same transaction removes its amount
/// from the total for good, leaves the held funds as they were, and locks the account.
pub proof fn lemma_dispute_then_chargeback(s: AccountModel, tx: u32)
    requires
        fits_i64(s.available),
        fits_i64(s.held),
        dispute_outcome(s, tx) is Ok,
    ensures
        chargeback_outcome(dispute_outcome(s, tx)->Ok_0, tx) is Ok,
        chargeback_outcome(dispute_outcome(s, tx)->Ok_0, tx)->Ok_0.available == s.available
            - s.ledger[tx].amount,
        chargeback_outcome(dispute_outcome(s, tx)->Ok_0, tx)->Ok_0.held == s.held,
        chargeback_outcome(dispute_outcome(s, tx)->Ok_0, tx)->Ok_0.locked,
{
    let n = dispute_outcome(s, tx)->Ok_0;
    assert(n.ledger.contains_key(tx));
    assert(n.ledger[tx].amount == s.ledger[tx].amount);
    assert(n.ledger[tx].under_dispute);
}

/// Once a client's account is locked, no record changes any account.
pub proof fn lemma_locked_account_frozen(m: Map<u16, AccountModel>, t: Transaction)
    requires
        m.contains_key(t.client),
        m[t.client].locked,
    ensures
        apply_spec(m, t) == m,
{
    assert(apply_spec(m, t) =~= m);
}

} // verus!
