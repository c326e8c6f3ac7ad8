//! Routing of transaction records to per-client accounts, and the final summary.
use std::collections::HashMap;
use vstd::prelude::*;
use crate::client_account_state::{
    chargeback_outcome, deposit_outcome, dispute_outcome, empty_account, resolve_outcome,
    result_of, state_after, withdraw_outcome, AccountModel, ClientAccountState,
};
use crate::decimal::Decimal;
use crate::error::TxError;
use crate::transaction_type::TransactionType;

verus! {

/// One input record. `amount` is present for deposits and withdrawals.
#[derive(Clone, Copy, Debug, PartialEq, Eq)]
pub struct Transaction {
    pub kind: TransactionType,
    pub client: u16,
    pub tx: u32,
    pub amount: Option<Decimal>,
}

/// One output row. Amounts are in units of `10^-4`.
#[derive(Clone, Copy, Debug, PartialEq, Eq)]
pub struct Output {
    pub client: u16,
    pub available: i64,
    pub held: i64,
    pub total: i128,
    pub locked: bool,
}

/// What the record `t` does to an unlocked account `s`.
pub open spec fn operation_outcome(s: AccountModel, t: Transaction) -> Result<
    AccountModel,
    TxError,
> {
    match t.kind {
        TransactionType::DEPOSIT => match t.amount {
            Some(a) => deposit_outcome(s, t.tx, a),
            None => Err(TxError::MissingAmount),
        },
        TransactionType::WITHDRAW => match t.amount {
            Some(a) => withdraw_outcome(s, t.tx, a),
            None => Err(TxError::MissingAmount),
        },
        TransactionType::DISPUTE => dispute_outcome(s, t.tx),
        TransactionType::RESOLVE => resolve_outcome(s, t.tx),
        TransactionType::CHARGEBACK => chargeback_outcome(s, t.tx),
    }
}

/// What the record `t` does to account `s`: nothing at all once `s` is locked.
pub open spec fn apply_outcome(s: AccountModel, t: Transaction) -> Result<AccountModel, TxError> {
    if s.locked {
        Err(TxError::AccountLocked)
    } else {
        operation_outcome(s, t)
    }
}

/// The account of client `c`; a client not seen yet has an empty one.
pub open spec fn account_of(m: Map<u16, AccountModel>, c: u16) -> AccountModel {
    if m.contains_key(c) {
        m[c]
    } else {
        empty_account()
    }
}

/// The accounts after the record `t`. The client's account exists afterwards,
/// even when the record is rejected.
pub open spec fn apply_spec(m: Map<u16, AccountModel>, t: Transaction) -> Map<u16, AccountModel> {
    let s = account_of(m, t.client);
    m.insert(t.client, state_after(s, apply_outcome(s, t)))
}

/// All client accounts, and the order in which their clients first appeared.
pub struct Engine {
    pub accounts: HashMap<u16, ClientAccountState>,
    pub clients: Vec<u16>,
}

impl View for Engine {
    type V = Map<u16, AccountModel>;

    open spec fn view(&self) -> Map<u16, AccountModel> {
        Map::new(|c: u16| self.accounts@.contains_key(c), |c: u16| self.accounts@[c]@)
    }
}

impl Engine {
    pub open spec fn wf(&self) -> bool {
        &&& self.clients@.no_duplicates()
        &&& forall|c: u16| #[trigger]
            self.accounts@.contains_key(c) <==> self.clients@.contains(c)
        &&& forall|c: u16| #[trigger]
            self.accounts@.contains_key(c) ==> self.accounts@[c].wf()
    }

    /// An engine with no accounts.
    pub fn new() -> (r: Engine)
        ensures
            r.wf(),
            r@ == Map::<u16, AccountModel>::empty(),
            r.clients@ == Seq::<u16>::empty(),
    {
        let r = Engine { accounts: HashMap::new(), clients: Vec::new() };
        assert(r@ =~= Map::<u16, AccountModel>::empty());
        r
    }

    /// Applies one record to its client's account, creating the account on
    /// first sight. A record for a locked account is skipped.
    pub fn apply(&mut self, t: &Transaction) -> (r: Result<(), TxError>)
        requires
            old(self).wf(),
        ensures
            final(self).wf(),
            final(self)@ == apply_spec(old(self)@, *t),
            r == result_of(apply_outcome(account_of(old(self)@, t.client), *t)),
            account_of(old(self)@, t.client).locked ==> r == Err::<(), TxError>(
                TxError::AccountLocked,
            ) && final(self)@ == old(self)@.insert(t.client, account_of(old(self)@, t.client)),
            old(self)@.contains_key(t.client) ==> final(self).clients@ == old(self).clients@,
            !old(self)@.contains_key(t.client) ==> final(self).clients@ == old(
                self,
            ).clients@.push(t.client),
    {
        let ghost old_accounts = self.accounts@;
        let ghost old_clients = self.clients@;
        let mut state = match self.accounts.remove(&t.client) {
            Some(s) => s,
            None => {
                proof {
                    assert(!self.clients@.contains(t.client));
                }
                self.clients.push(t.client);
                ClientAccountState::default()
            },
        };
        assert(state@ == account_of(old(self)@, t.client));
        let r = if state.locked {
            Err(TxError::AccountLocked)
        } else {
            match t.kind {
                TransactionType::DEPOSIT => match t.amount {
                    Some(a) => state.deposit(t.tx, a),
                    None => Err(TxError::MissingAmount),
                },
                TransactionType::WITHDRAW => match t.amount {
                    Some(a) => state.withdraw(t.tx, a),
                    None => Err(TxError::MissingAmount),
                },
                TransactionType::DISPUTE => state.dispute(t.tx),
                TransactionType::RESOLVE => state.resolve(t.tx),
                TransactionType::CHARGEBACK => state.chargeback(t.tx),
            }
        };
        self.accounts.insert(t.client, state);
        proof {
            assert(self.accounts@ == old_accounts.insert(t.client, state));
            assert(self@ =~= apply_spec(old(self)@, *t));
            assert forall|c: u16| #[trigger]
                self.accounts@.contains_key(c) <==> self.clients@.contains(c) by {
                if c != t.client {
                    assert(old_accounts.contains_key(c) <==> old_clients.contains(c));
                    if self.clients@.contains(c) {
                        let k = choose|k: int| 0 <= k < self.clients@.len() && self.clients@[k] == c;
                        assert(old_clients[k] == c);
                    }
                    if old_clients.contains(c) {
                        let k = choose|k: int| 0 <= k < old_clients.len() && old_clients[k] == c;
                        assert(self.clients@[k] == c);
                    }
                } else {
                    if old_clients.contains(c) {
                        let k = choose|k: int| 0 <= k < old_clients.len() && old_clients[k] == c;
                        assert(self.clients@[k] == c);
                    } else {
                        assert(self.clients@[old_clients.len() as int] == c);
                    }
                }
            }
        }
        r
    }

    /// One row per client, in order of first appearance, with balances and
    /// their total.
    pub fn summary(&self) -> (r: Vec<Output>)
        requires
            self.wf(),
        ensures
            r@.len() == self.clients@.len(),
            forall|i: int|
                #![trigger r@[i]]
                0 <= i < r@.len() ==> {
                    let c = self.clients@[i];
                    let s = self@[c];
                    &&& self@.contains_key(c)
                    &&& r@[i].client == c
                    &&& r@[i].available == s.available
                    &&& r@[i].held == s.held
                    &&& r@[i].total == r@[i].available + r@[i].held
                    &&& r@[i].total == s.total()
                    &&& r@[i].locked == s.locked
                },
            forall|c: u16| #[trigger] self@.contains_key(c) <==> self.clients@.contains(c),
    {
        let mut out: Vec<Output> = Vec::new();
        let mut i: usize = 0;
        while i < self.clients.len()
            invariant
                self.wf(),
                i <= self.clients@.len(),
                out@.len() == i,
                forall|j: int|
                    #![trigger out@[j]]
                    0 <= j < i ==> {
                        let c = self.clients@[j];
                        let s = self@[c];
                        &&& self@.contains_key(c)
                        &&& out@[j].client == c
                        &&& out@[j].available == s.available
                        &&& out@[j].held == s.held
                        &&& out@[j].total == out@[j].available + out@[j].held
                        &&& out@[j].total == s.total()
                        &&& out@[j].locked == s.locked
                    },
            decreases self.clients@.len() - i,
        {
            let c = self.clients[i];
            assert(self.clients@.contains(c));
            match self.accounts.get(&c) {
                Some(s) => {
                    out.push(
                        Output {
                            client: c,
                            available: s.available,
                            held: s.held,
                            total: s.available as i128 + s.held as i128,
                            locked: s.locked,
                        },
                    );
                },
                None => {
                    proof {
                        assert(false);
                    }
                },
            }
            i = i + 1;
        }
        out
    }
}

} // verus!
