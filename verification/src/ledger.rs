//! The ledger: the account registry, the transaction log, and the processor.
//!
//! `Ledger` owns all mutable state. Its view is a `LedgerModel`, and
//! `process` is pinned exactly to the model's `step` function. `wf` is the
//! ledger's invariant: `new` establishes it and every mutating method
//! preserves it.
use vstd::prelude::*;

use crate::account::Account;
use crate::model::{
    acct_or_new, admissible, deposit_fits, dispute_applies, dispute_fits, step, step_chargeback,
    step_deposit, step_dispute, step_resolve, step_withdrawal, LedgerModel,
};
use crate::sums::{
    disputed_contrib, disputed_sum, entry_contribs_ok, lemma_disputed_sum_ge_contrib,
    lemma_disputed_sum_push, lemma_disputed_sum_update, lemma_disputed_sum_zero,
};
use crate::transaction::{
    Chargeback, Deposit, Dispute, Error, LoggedTransaction, Resolve, State, Transaction,
    Withdrawal,
};
use crate::views::{
    client_map, clients_unique, lemma_client_map_absent, lemma_client_map_contains,
    lemma_client_map_index, lemma_client_map_push, lemma_client_map_update, log_keys_unique,
    log_map, lemma_log_map_absent, lemma_log_map_contains, lemma_log_map_index,
    lemma_log_map_push, lemma_log_map_update,
};

verus! {

/// The log discipline: a logged deposit always carries a positive amount
/// (both deposits and withdrawals are logged only after their amount is
/// checked), and only deposits are ever under dispute.
pub open spec fn entry_wf(e: (u32, LoggedTransaction)) -> bool {
    &&& (e.1.transaction is Deposit ==> e.1.transaction.spec_amount() > 0)
    &&& (e.1.state == State::Disputed ==> e.1.transaction is Deposit)
}

/// The unit of state: all accounts and all logged transactions of one
/// batch. Multiple independent ledgers can live in one process.
pub struct Ledger {
    accounts: Vec<Account>,
    log: Vec<(u32, LoggedTransaction)>,
}

impl View for Ledger {
    type V = LedgerModel;

    closed spec fn view(&self) -> LedgerModel {
        LedgerModel { accounts: client_map(self.accounts@), log: log_map(self.log@) }
    }
}

impl Ledger {
    /// The ledger's invariant. Beyond unique keys it carries the monetary
    /// laws: every account is balanced, only deposits with positive amounts
    /// are ever under dispute, a disputed entry's client has an account,
    /// and each account's held funds cover its client's disputed amounts.
    pub closed spec fn wf(self) -> bool {
        &&& clients_unique(self.accounts@)
        &&& log_keys_unique(self.log@)
        &&& forall|i: int|
            0 <= i < self.accounts@.len() ==> (#[trigger] self.accounts@[i]).balanced()
        &&& forall|i: int| 0 <= i < self.log@.len() ==> entry_wf(#[trigger] self.log@[i])
        &&& forall|i: int|
            0 <= i < self.log@.len() && (#[trigger] self.log@[i]).1.state == State::Disputed
                ==> exists|k: int|
                    0 <= k < self.accounts@.len() && (#[trigger] self.accounts@[k]).client
                        == self.log@[i].1.transaction.spec_client_id()
        &&& forall|k: int|
            0 <= k < self.accounts@.len() ==> (#[trigger] self.accounts@[k]).held
                >= disputed_sum(self.log@, self.accounts@[k].client)
    }

    /// A well-formed ledger's accounts all obey the balance laws
    /// `total == available + held` and `held >= 0`.
    pub proof fn lemma_wf_balances(self)
        requires
            self.wf(),
        ensures
            self@.balances_ok(),
    {
        assert forall|c: u16| self@.accounts.contains_key(c) implies (#[trigger] self@.accounts[c]).balanced() by {
            lemma_client_map_contains(self.accounts@, c);
            let i = choose|i: int| 0 <= i < self.accounts@.len() && self.accounts@[i].client == c;
            lemma_client_map_index(self.accounts@, i);
        }
    }

    /// Create a new empty ledger.
    pub fn new() -> (r: Ledger)
        ensures
            r.wf(),
            r@ == LedgerModel::empty(),
    {
        let r = Ledger { accounts: Vec::new(), log: Vec::new() };
        proof {
            assert(r@.accounts =~= Map::<u16, Account>::empty());
            assert(r@.log =~= Map::<u32, LoggedTransaction>::empty());
        }
        r
    }

    /// The position of client `id` in the registry, if any.
    fn acct_index(&self, id: u16) -> (r: Option<usize>)
        ensures
            match r {
                Some(i) => i < self.accounts@.len() && self.accounts@[i as int].client == id,
                None => forall|j: int| 0 <= j < self.accounts@.len() ==> self.accounts@[j].client != id,
            },
    {
        let mut i: usize = 0;
        while i < self.accounts.len()
            invariant
                i <= self.accounts@.len(),
                forall|j: int| 0 <= j < i ==> self.accounts@[j].client != id,
            decreases self.accounts@.len() - i,
        {
            if self.accounts[i].client == id {
                return Some(i);
            }
            i = i + 1;
        }
        None
    }

    /// The position of transaction `id` in the log, if any.
    fn log_index(&self, id: u32) -> (r: Option<usize>)
        ensures
            match r {
                Some(i) => i < self.log@.len() && self.log@[i as int].0 == id,
                None => forall|j: int| 0 <= j < self.log@.len() ==> self.log@[j].0 != id,
            },
    {
        let mut i: usize = 0;
        while i < self.log.len()
            invariant
                i <= self.log@.len(),
                forall|j: int| 0 <= j < i ==> self.log@[j].0 != id,
            decreases self.log@.len() - i,
        {
            if self.log[i].0 == id {
                return Some(i);
            }
            i = i + 1;
        }
        None
    }

    /// Find an account in the ledger, `None` if the client has none.
    pub fn find_account(&self, id: u16) -> (r: Option<Account>)
        requires
            self.wf(),
        ensures
            r == if self@.accounts.contains_key(id) {
                Some(self@.accounts[id])
            } else {
                None::<Account>
            },
    {
        match self.acct_index(id) {
            Some(i) => {
                proof {
                    lemma_client_map_index(self.accounts@, i as int);
                }
                Some(self.accounts[i])
            },
            None => {
                proof {
                    lemma_client_map_absent(self.accounts@, id);
                }
                None
            },
        }
    }

    /// Find a logged transaction, `None` if the id was never logged.
    pub fn find_transaction(&self, id: u32) -> (r: Option<LoggedTransaction>)
        requires
            self.wf(),
        ensures
            r == if self@.log.contains_key(id) {
                Some(self@.log[id])
            } else {
                None::<LoggedTransaction>
            },
    {
        match self.log_index(id) {
            Some(i) => {
                proof {
                    lemma_log_map_index(self.log@, i as int);
                }
                Some(self.log[i].1)
            },
            None => {
                proof {
                    lemma_log_map_absent(self.log@, id);
                }
                None
            },
        }
    }

    /// Find an account/logged-transaction pair in one lookup, so that the
    /// error precedence of the dispute lifecycle (account before
    /// transaction) is enforced uniformly.
    pub fn find_account_and_transaction(&self, client_id: u16, tx_id: u32) -> (r: (
        Option<Account>,
        Option<LoggedTransaction>,
    ))
        requires
            self.wf(),
        ensures
            r.0 == if self@.accounts.contains_key(client_id) {
                Some(self@.accounts[client_id])
            } else {
                None::<Account>
            },
            r.1 == if self@.log.contains_key(tx_id) {
                Some(self@.log[tx_id])
            } else {
                None::<LoggedTransaction>
            },
    {
        (self.find_account(client_id), self.find_transaction(tx_id))
    }

    /// All accounts, for final reporting. Each returned account is in the
    /// registry, each client in the registry appears exactly once.
    pub fn accounts(&self) -> (r: Vec<Account>)
        requires
            self.wf(),
        ensures
            forall|i: int|
                0 <= i < r@.len() ==> self@.accounts.contains_key((#[trigger] r@[i]).client)
                    && self@.accounts[r@[i].client] == r@[i],
            forall|c: u16|
                #[trigger] self@.accounts.contains_key(c) ==> exists|i: int|
                    0 <= i < r@.len() && (#[trigger] r@[i]).client == c,
            clients_unique(r@),
    {
        let mut out: Vec<Account> = Vec::new();
        let mut i: usize = 0;
        while i < self.accounts.len()
            invariant
                i <= self.accounts@.len(),
                out@ == self.accounts@.take(i as int),
            decreases self.accounts@.len() - i,
        {
            out.push(self.accounts[i]);
            proof {
                assert(out@ =~= self.accounts@.take(i + 1 as int));
            }
            i = i + 1;
        }
        proof {
            assert(out@ =~= self.accounts@);
            assert forall|i2: int| 0 <= i2 < out@.len() implies self@.accounts.contains_key(
                (#[trigger] out@[i2]).client,
            ) && self@.accounts[out@[i2].client] == out@[i2] by {
                lemma_client_map_index(self.accounts@, i2);
            }
            assert forall|c: u16| #[trigger] self@.accounts.contains_key(c) implies exists|i2: int|
                0 <= i2 < out@.len() && (#[trigger] out@[i2]).client == c by {
                lemma_client_map_contains(self.accounts@, c);
            }
        }
        out
    }

    /// Replace the account at position `i` with `a` (same client).
    fn set_account_at(&mut self, i: usize, a: Account)
        requires
            i < old(self).accounts@.len(),
            clients_unique(old(self).accounts@),
            a.client == old(self).accounts@[i as int].client,
        ensures
            final(self).accounts@ == old(self).accounts@.update(i as int, a),
            final(self).log@ == old(self).log@,
            final(self)@.accounts == old(self)@.accounts.insert(a.client, a),
            final(self)@.log == old(self)@.log,
            clients_unique(final(self).accounts@),
    {
        proof {
            lemma_client_map_update(self.accounts@, i as int, a);
        }
        self.accounts[i] = a;
        proof {
            assert forall|p: int, q: int|
                0 <= p < q < self.accounts@.len() implies self.accounts@[p].client
                != self.accounts@[q].client by {
                assert(self.accounts@[p].client == old(self).accounts@[p].client);
                assert(self.accounts@[q].client == old(self).accounts@[q].client);
            }
        }
    }

    /// Append an account for a client the registry does not know yet.
    fn push_account(&mut self, a: Account)
        requires
            clients_unique(old(self).accounts@),
            forall|j: int| 0 <= j < old(self).accounts@.len() ==> old(self).accounts@[j].client != a.client,
        ensures
            final(self).accounts@ == old(self).accounts@.push(a),
            final(self).log@ == old(self).log@,
            final(self)@.accounts == old(self)@.accounts.insert(a.client, a),
            final(self)@.log == old(self)@.log,
            clients_unique(final(self).accounts@),
    {
        proof {
            lemma_client_map_push(self.accounts@, a);
        }
        self.accounts.push(a);
    }

    /// Store `e` under transaction id `id`: in place if the id is already
    /// logged, appended otherwise. The log's keyed view gains `(id, e)`;
    /// the clauses on `disputed_sum` and on the entries let callers carry
    /// the monetary invariants across the write.
    fn put_log(&mut self, id: u32, e: LoggedTransaction)
        requires
            log_keys_unique(old(self).log@),
        ensures
            final(self).accounts@ == old(self).accounts@,
            final(self)@.accounts == old(self)@.accounts,
            final(self)@.log == old(self)@.log.insert(id, e),
            log_keys_unique(final(self).log@),
            forall|c: u16|
                #[trigger] disputed_sum(final(self).log@, c) == disputed_sum(old(self).log@, c)
                    + disputed_contrib((id, e), c) - (if old(self)@.log.contains_key(id) {
                    disputed_contrib((id, old(self)@.log[id]), c)
                } else {
                    0
                }),
            forall|i: int|
                0 <= i < final(self).log@.len() ==> (#[trigger] final(self).log@[i]) == (id, e) || (
                0 <= i < old(self).log@.len() && final(self).log@[i] == old(self).log@[i]),
    {
        match self.log_index(id) {
            Some(j) => {
                proof {
                    lemma_log_map_index(self.log@, j as int);
                    lemma_log_map_update(self.log@, j as int, (id, e));
                }
                self.log[j] = (id, e);
                proof {
                    assert forall|c: u16|
                        #[trigger] disputed_sum(self.log@, c) == disputed_sum(old(self).log@, c)
                            + disputed_contrib((id, e), c) - disputed_contrib(
                            (id, old(self)@.log[id]),
                            c,
                        ) by {
                        lemma_disputed_sum_update(old(self).log@, j as int, (id, e), c);
                        assert(old(self).log@[j as int] == (id, old(self)@.log[id]));
                    }
                    assert forall|p: int, q: int|
                        0 <= p < q < self.log@.len() implies self.log@[p].0 != self.log@[q].0 by {
                        assert(self.log@[p].0 == old(self).log@[p].0);
                        assert(self.log@[q].0 == old(self).log@[q].0);
                    }
                }
            },
            None => {
                proof {
                    lemma_log_map_absent(self.log@, id);
                    lemma_log_map_push(self.log@, (id, e));
                }
                self.log.push((id, e));
                proof {
                    assert forall|c: u16|
                        #[trigger] disputed_sum(self.log@, c) == disputed_sum(old(self).log@, c)
                            + disputed_contrib((id, e), c) by {
                        lemma_disputed_sum_push(old(self).log@, (id, e), c);
                    }
                }
            },
        }
    }

    /// Find an account or create a fresh one for an unseen client; used by
    /// deposits only, the one transaction that may create an account.
    pub fn find_or_create_account(&mut self, id: u16) -> (r: Account)
        requires
            old(self).wf(),
        ensures
            final(self).wf(),
            r == acct_or_new(old(self)@, id),
            final(self)@.accounts == old(self)@.accounts.insert(id, r),
            final(self)@.log == old(self)@.log,
            old(self)@.accounts.contains_key(id) ==> final(self)@ == old(self)@,
    {
        match self.acct_index(id) {
            Some(i) => {
                proof {
                    lemma_client_map_index(self.accounts@, i as int);
                    assert(self@.accounts.insert(id, self@.accounts[id]) =~= self@.accounts);
                }
                self.accounts[i]
            },
            None => {
                proof {
                    lemma_client_map_absent(self.accounts@, id);
                }
                let a = Account::new(id);
                self.push_account(a);
                proof {
                    self.lemma_wf_after_new_account(*old(self), a);
                }
                a
            },
        }
    }

    /// A fresh zero account for an unseen client keeps the ledger
    /// well-formed: the client has no disputed funds.
    proof fn lemma_wf_after_new_account(self, prev: Ledger, a: Account)
        requires
            prev.wf(),
            a == Account::initial(a.client),
            forall|j: int| 0 <= j < prev.accounts@.len() ==> prev.accounts@[j].client != a.client,
            self.accounts@ == prev.accounts@.push(a),
            self.log@ == prev.log@,
            clients_unique(self.accounts@),
        ensures
            self.wf(),
    {
        assert forall|i: int|
            0 <= i < self.log@.len() && (#[trigger] self.log@[i]).1.state == State::Disputed
            implies exists|k: int|
            0 <= k < self.accounts@.len() && (#[trigger] self.accounts@[k]).client
                == self.log@[i].1.transaction.spec_client_id() by {
            let k = choose|k: int|
                0 <= k < prev.accounts@.len() && (#[trigger] prev.accounts@[k]).client
                    == prev.log@[i].1.transaction.spec_client_id();
            assert(self.accounts@[k].client == self.log@[i].1.transaction.spec_client_id());
        }
        assert forall|k: int|
            0 <= k < self.accounts@.len() implies (#[trigger] self.accounts@[k]).held
            >= disputed_sum(self.log@, self.accounts@[k].client) by {
            if k < prev.accounts@.len() {
                assert(self.accounts@[k] == prev.accounts@[k]);
            } else {
                assert(self.accounts@[k] == a);
                assert forall|i: int|
                    0 <= i < self.log@.len() implies disputed_contrib(
                    #[trigger] self.log@[i],
                    a.client,
                ) == 0 by {
                    if self.log@[i].1.state == State::Disputed {
                        let j = choose|j: int|
                            0 <= j < prev.accounts@.len() && (#[trigger] prev.accounts@[j]).client
                                == prev.log@[i].1.transaction.spec_client_id();
                        assert(prev.accounts@[j].client != a.client);
                    }
                }
                lemma_disputed_sum_zero(self.log@, a.client);
            }
        }
    }

    /// Log a transaction as having completed. Transaction ids are assumed
    /// unique across a batch; the engine's policy on a duplicate is that
    /// the later write replaces the earlier entry. Held funds of an
    /// overwritten entry that was under dispute stay held.
    pub fn log_transaction(&mut self, id: u32, tx: Transaction)
        requires
            old(self).wf(),
            tx matches Transaction::Deposit(d) ==> d.amount > 0,
        ensures
            final(self).wf(),
            final(self)@.accounts == old(self)@.accounts,
            final(self)@.log == old(self)@.log.insert(
                id,
                LoggedTransaction { transaction: tx, state: State::Processed },
            ),
    {
        let e = LoggedTransaction::new(tx);
        self.put_log(id, e);
        proof {
            self.lemma_wf_after_processed_log(*old(self), id, e);
        }
    }

    /// Writing a `Processed` entry keeps the ledger well-formed: the entry
    /// contributes no disputed funds, and an overwritten entry only
    /// releases its (non-negative) contribution.
    proof fn lemma_wf_after_processed_log(self, prev: Ledger, id: u32, e: LoggedTransaction)
        requires
            prev.wf(),
            e.state == State::Processed,
            entry_wf((id, e)),
            self.accounts@ == prev.accounts@,
            log_keys_unique(self.log@),
            forall|c: u16|
                #[trigger] disputed_sum(self.log@, c) == disputed_sum(prev.log@, c)
                    + disputed_contrib((id, e), c) - (if prev@.log.contains_key(id) {
                    disputed_contrib((id, prev@.log[id]), c)
                } else {
                    0
                }),
            forall|i: int|
                0 <= i < self.log@.len() ==> (#[trigger] self.log@[i]) == (id, e) || (0 <= i
                    < prev.log@.len() && self.log@[i] == prev.log@[i]),
        ensures
            self.wf(),
    {
        assert forall|i: int| 0 <= i < self.log@.len() implies entry_wf(#[trigger] self.log@[i]) by {
            if self.log@[i] != (id, e) {
                assert(self.log@[i] == prev.log@[i]);
            }
        }
        assert forall|i: int|
            0 <= i < self.log@.len() && (#[trigger] self.log@[i]).1.state == State::Disputed
            implies exists|k: int|
            0 <= k < self.accounts@.len() && (#[trigger] self.accounts@[k]).client
                == self.log@[i].1.transaction.spec_client_id() by {
            assert(self.log@[i] == prev.log@[i]);
        }
        assert forall|k: int|
            0 <= k < self.accounts@.len() implies (#[trigger] self.accounts@[k]).held
            >= disputed_sum(self.log@, self.accounts@[k].client) by {
            let c = self.accounts@[k].client;
            assert(disputed_contrib((id, e), c) == 0);
            if prev@.log.contains_key(id) {
                lemma_log_map_contains(prev.log@, id);
                let j = choose|j: int| 0 <= j < prev.log@.len() && prev.log@[j].0 == id;
                lemma_log_map_index(prev.log@, j);
                assert(entry_wf(prev.log@[j]));
                assert(disputed_contrib((id, prev@.log[id]), c) >= 0);
            }
            assert(prev.accounts@[k].held >= disputed_sum(prev.log@, c));
        }
    }

    /// A deposit or withdrawal keeps the ledger well-formed: it never
    /// touches held funds, and the entry it logs is `Processed`, so no
    /// account's disputed funds grow.
    proof fn lemma_wf_after_funds_move(
        self,
        prev: Ledger,
        k: int,
        updated: Account,
        id: u32,
        e: LoggedTransaction,
    )
        requires
            prev.wf(),
            0 <= k < prev.accounts@.len(),
            updated.client == prev.accounts@[k].client,
            updated.held == prev.accounts@[k].held,
            updated.balanced(),
            e.state == State::Processed,
            entry_wf((id, e)),
            self.accounts@ == prev.accounts@.update(k, updated),
            clients_unique(self.accounts@),
            log_keys_unique(self.log@),
            forall|c: u16|
                #[trigger] disputed_sum(self.log@, c) == disputed_sum(prev.log@, c)
                    + disputed_contrib((id, e), c) - (if prev@.log.contains_key(id) {
                    disputed_contrib((id, prev@.log[id]), c)
                } else {
                    0
                }),
            forall|i: int|
                0 <= i < self.log@.len() ==> (#[trigger] self.log@[i]) == (id, e) || (0 <= i
                    < prev.log@.len() && self.log@[i] == prev.log@[i]),
        ensures
            self.wf(),
    {
        assert forall|i: int| 0 <= i < self.log@.len() implies entry_wf(#[trigger] self.log@[i]) by {
            if self.log@[i] != (id, e) {
                assert(self.log@[i] == prev.log@[i]);
            }
        }
        assert forall|i: int|
            0 <= i < self.log@.len() && (#[trigger] self.log@[i]).1.state == State::Disputed
            implies exists|n: int|
            0 <= n < self.accounts@.len() && (#[trigger] self.accounts@[n]).client
                == self.log@[i].1.transaction.spec_client_id() by {
            assert(self.log@[i] == prev.log@[i]);
            let n = choose|n: int|
                0 <= n < prev.accounts@.len() && (#[trigger] prev.accounts@[n]).client
                    == prev.log@[i].1.transaction.spec_client_id();
            assert(self.accounts@[n].client == prev.accounts@[n].client);
        }
        assert forall|n: int|
            0 <= n < self.accounts@.len() implies (#[trigger] self.accounts@[n]).held
            >= disputed_sum(self.log@, self.accounts@[n].client) by {
            let c = self.accounts@[n].client;
            assert(c == prev.accounts@[n].client);
            assert(self.accounts@[n].held == prev.accounts@[n].held);
            assert(disputed_contrib((id, e), c) == 0);
            if prev@.log.contains_key(id) {
                lemma_log_map_contains(prev.log@, id);
                let j = choose|j: int| 0 <= j < prev.log@.len() && prev.log@[j].0 == id;
                lemma_log_map_index(prev.log@, j);
                assert(entry_wf(prev.log@[j]));
                assert(disputed_contrib((id, prev@.log[id]), c) >= 0);
            }
            assert(prev.accounts@[n].held >= disputed_sum(prev.log@, c));
        }
    }

    /// A dispute, resolve, or chargeback keeps the ledger well-formed: the
    /// one rewritten entry and the one touched account belong to the same
    /// client, and that account's held funds grow at least as much as the
    /// entry's contribution to its disputed funds.
    proof fn lemma_wf_after_lifecycle(
        self,
        prev: Ledger,
        k: int,
        updated: Account,
        id: u32,
        e: LoggedTransaction,
    )
        requires
            prev.wf(),
            prev@.log.contains_key(id),
            entry_wf((id, e)),
            0 <= k < prev.accounts@.len(),
            updated.client == prev.accounts@[k].client,
            updated.balanced(),
            e.transaction.spec_client_id() == updated.client,
            prev@.log[id].transaction.spec_client_id() == updated.client,
            updated.held >= prev.accounts@[k].held + disputed_contrib((id, e), updated.client)
                - disputed_contrib((id, prev@.log[id]), updated.client),
            self.accounts@ == prev.accounts@.update(k, updated),
            clients_unique(self.accounts@),
            log_keys_unique(self.log@),
            forall|c: u16|
                #[trigger] disputed_sum(self.log@, c) == disputed_sum(prev.log@, c)
                    + disputed_contrib((id, e), c) - disputed_contrib((id, prev@.log[id]), c),
            forall|i: int|
                0 <= i < self.log@.len() ==> (#[trigger] self.log@[i]) == (id, e) || (0 <= i
                    < prev.log@.len() && self.log@[i] == prev.log@[i]),
        ensures
            self.wf(),
    {
        let owner = updated.client;
        assert forall|i: int| 0 <= i < self.log@.len() implies entry_wf(#[trigger] self.log@[i]) by {
            if self.log@[i] != (id, e) {
                assert(self.log@[i] == prev.log@[i]);
            }
        }
        assert forall|i: int|
            0 <= i < self.log@.len() && (#[trigger] self.log@[i]).1.state == State::Disputed
            implies exists|n: int|
            0 <= n < self.accounts@.len() && (#[trigger] self.accounts@[n]).client
                == self.log@[i].1.transaction.spec_client_id() by {
            if self.log@[i] == (id, e) {
                assert(self.accounts@[k].client == owner);
            } else {
                assert(self.log@[i] == prev.log@[i]);
                let n = choose|n: int|
                    0 <= n < prev.accounts@.len() && (#[trigger] prev.accounts@[n]).client
                        == prev.log@[i].1.transaction.spec_client_id();
                assert(self.accounts@[n].client == prev.accounts@[n].client);
            }
        }
        assert forall|n: int|
            0 <= n < self.accounts@.len() implies (#[trigger] self.accounts@[n]).held
            >= disputed_sum(self.log@, self.accounts@[n].client) by {
            let c = self.accounts@[n].client;
            assert(c == prev.accounts@[n].client);
            assert(prev.accounts@[n].held >= disputed_sum(prev.log@, c));
            if c != owner {
                assert(disputed_contrib((id, e), c) == 0);
                assert(disputed_contrib((id, prev@.log[id]), c) == 0);
                assert(self.accounts@[n].held == prev.accounts@[n].held);
            } else {
                assert(n == k) by {
                    if n != k {
                        assert(self.accounts@[n].client != self.accounts@[k].client);
                    }
                }
            }
        }
    }

    /// Look up the account of `client_id` and the logged transaction
    /// `tx_id`, reporting whichever is missing first (account before
    /// transaction).
    fn get_account_transaction(&self, client_id: u16, tx_id: u32) -> (r: Result<
        (usize, usize),
        Error,
    >)
        requires
            self.wf(),
        ensures
            match r {
                Ok(p) => {
                    &&& p.0 < self.accounts@.len()
                    &&& self.accounts@[p.0 as int].client == client_id
                    &&& p.1 < self.log@.len()
                    &&& self.log@[p.1 as int].0 == tx_id
                    &&& self@.accounts.contains_key(client_id)
                    &&& self@.accounts[client_id] == self.accounts@[p.0 as int]
                    &&& self@.log.contains_key(tx_id)
                    &&& self@.log[tx_id] == self.log@[p.1 as int].1
                },
                Err(e) => (e == Error::AccountNotFound && !self@.accounts.contains_key(client_id))
                    || (e == Error::TransactionNotFound && self@.accounts.contains_key(client_id)
                    && !self@.log.contains_key(tx_id)),
            },
    {
        match self.acct_index(client_id) {
            None => {
                proof {
                    lemma_client_map_absent(self.accounts@, client_id);
                }
                Err(Error::AccountNotFound)
            },
            Some(i) => {
                proof {
                    lemma_client_map_index(self.accounts@, i as int);
                }
                match self.log_index(tx_id) {
                    None => {
                        proof {
                            lemma_log_map_absent(self.log@, tx_id);
                        }
                        Err(Error::TransactionNotFound)
                    },
                    Some(j) => {
                        proof {
                            lemma_log_map_index(self.log@, j as int);
                        }
                        Ok((i, j))
                    },
                }
            },
        }
    }
}

/// Something the ledger can process: a transaction, or one of its variants
/// directly. `pre` is what the value asks of the ledger's state (the
/// machine limits of its arithmetic), and `next` and `outcome` pin down
/// exactly the state and result that processing leaves.
pub trait Process: Sized {
    type Output;

    /// The machine limits this value's processing asks of the ledger.
    spec fn pre(self, m: LedgerModel) -> bool;

    /// The ledger state that processing this value leaves.
    spec fn next(self, m: LedgerModel) -> LedgerModel;

    /// The result that processing this value returns.
    spec fn outcome(self, m: LedgerModel) -> Self::Output;

    fn process(self, ledger: &mut Ledger) -> (r: Self::Output)
        requires
            old(ledger).wf(),
            self.pre(old(ledger)@),
        ensures
            final(ledger).wf(),
            final(ledger)@ == self.next(old(ledger)@),
            r == self.outcome(old(ledger)@),
    ;
}

impl Process for Deposit {
    type Output = Result<(), Error>;

    open spec fn pre(self, m: LedgerModel) -> bool {
        deposit_fits(m, self)
    }

    open spec fn next(self, m: LedgerModel) -> LedgerModel {
        step_deposit(m, self).0
    }

    open spec fn outcome(self, m: LedgerModel) -> Result<(), Error> {
        step_deposit(m, self).1
    }

    /// Apply this deposit to `ledger`: exactly `step_deposit` of the
    /// ledger's model.
    fn process(self, ledger: &mut Ledger) -> (r: Result<(), Error>) {
        if self.amount <= 0 {
            return Err(Error::InvalidAmount);
        }
        let idx: usize;
        match ledger.acct_index(self.client_id) {
            Some(i) => {
                proof {
                    lemma_client_map_index(ledger.accounts@, i as int);
                }
                idx = i;
            },
            None => {
                proof {
                    lemma_client_map_absent(ledger.accounts@, self.client_id);
                }
                ledger.push_account(Account::new(self.client_id));
                proof {
                    ledger.lemma_wf_after_new_account(
                        *old(ledger),
                        Account::initial(self.client_id),
                    );
                }
                idx = ledger.accounts.len() - 1;
            },
        }
        let ghost mid = *ledger;
        let acct = ledger.accounts[idx];
        proof {
            assert(acct == acct_or_new(old(ledger)@, self.client_id));
        }
        if acct.locked {
            return Err(Error::AccountLocked);
        }
        proof {
            assert(acct.balanced());
        }
        let updated = Account {
            client: acct.client,
            available: acct.available + self.amount,
            held: acct.held,
            total: acct.total + self.amount,
            locked: acct.locked,
        };
        let entry = LoggedTransaction::new(Transaction::Deposit(self));
        ledger.set_account_at(idx, updated);
        ledger.put_log(self.tx_id, entry);
        proof {
            ledger.lemma_wf_after_funds_move(mid, idx as int, updated, self.tx_id, entry);
            assert(ledger@.accounts =~= old(ledger)@.accounts.insert(self.client_id, updated));
            assert(ledger@ =~= step_deposit(old(ledger)@, self).0);
        }
        Ok(())
    }
}

impl Process for Withdrawal {
    type Output = Result<(), Error>;

    open spec fn pre(self, m: LedgerModel) -> bool {
        true
    }

    open spec fn next(self, m: LedgerModel) -> LedgerModel {
        step_withdrawal(m, self).0
    }

    open spec fn outcome(self, m: LedgerModel) -> Result<(), Error> {
        step_withdrawal(m, self).1
    }

    /// Apply this withdrawal to `ledger`: exactly `step_withdrawal` of the
    /// ledger's model.
    fn process(self, ledger: &mut Ledger) -> (r: Result<(), Error>) {
        if self.amount <= 0 {
            return Err(Error::InvalidAmount);
        }
        let idx: usize;
        match ledger.acct_index(self.client_id) {
            Some(i) => {
                proof {
                    lemma_client_map_index(ledger.accounts@, i as int);
                }
                idx = i;
            },
            None => {
                proof {
                    lemma_client_map_absent(ledger.accounts@, self.client_id);
                }
                return Err(Error::AccountNotFound);
            },
        }
        let acct = ledger.accounts[idx];
        if acct.locked {
            return Err(Error::AccountLocked);
        }
        if acct.available < self.amount {
            return Err(Error::InsufficientFunds { available: acct.available });
        }
        proof {
            assert(acct.balanced());
        }
        let updated = Account {
            client: acct.client,
            available: acct.available - self.amount,
            held: acct.held,
            total: acct.total - self.amount,
            locked: acct.locked,
        };
        let entry = LoggedTransaction::new(Transaction::Withdrawal(self));
        ledger.set_account_at(idx, updated);
        ledger.put_log(self.tx_id, entry);
        proof {
            ledger.lemma_wf_after_funds_move(*old(ledger), idx as int, updated, self.tx_id, entry);
            assert(ledger@ =~= step_withdrawal(old(ledger)@, self).0);
        }
        Ok(())
    }
}

impl Process for Dispute {
    type Output = Result<(), Error>;

    open spec fn pre(self, m: LedgerModel) -> bool {
        dispute_fits(m, self)
    }

    open spec fn next(self, m: LedgerModel) -> LedgerModel {
        step_dispute(m, self).0
    }

    open spec fn outcome(self, m: LedgerModel) -> Result<(), Error> {
        step_dispute(m, self).1
    }

    /// Apply this dispute to `ledger`: exactly `step_dispute` of the
    /// ledger's model.
    fn process(self, ledger: &mut Ledger) -> (r: Result<(), Error>) {
        let (ai, ti) = match ledger.get_account_transaction(self.client_id, self.tx_id) {
            Err(e) => return Err(e),
            Ok(p) => p,
        };
        let entry = ledger.log[ti].1;
        if entry.transaction.client_id() != self.client_id {
            return Err(Error::MismatchedClient);
        }
        if !matches!(entry.state, State::Processed) {
            return Err(Error::InvalidTransactionState { got: entry.state });
        }
        let amount: i64 = match entry.transaction {
            Transaction::Deposit(d) => d.amount,
            _ => {
                return Err(Error::InvalidTransactionState { got: entry.state });
            },
        };
        let acct = ledger.accounts[ai];
        proof {
            assert(acct.balanced());
            assert(entry_wf(ledger.log@[ti as int]));
            assert(dispute_applies(old(ledger)@, self));
        }
        let updated = Account {
            client: acct.client,
            available: acct.available - amount,
            held: acct.held + amount,
            total: acct.total,
            locked: acct.locked,
        };
        let new_entry = LoggedTransaction { transaction: entry.transaction, state: State::Disputed };
        ledger.set_account_at(ai, updated);
        ledger.put_log(self.tx_id, new_entry);
        proof {
            ledger.lemma_wf_after_lifecycle(*old(ledger), ai as int, updated, self.tx_id, new_entry);
            assert(ledger@ =~= step_dispute(old(ledger)@, self).0);
        }
        Ok(())
    }
}

impl Process for Resolve {
    type Output = Result<(), Error>;

    open spec fn pre(self, m: LedgerModel) -> bool {
        true
    }

    open spec fn next(self, m: LedgerModel) -> LedgerModel {
        step_resolve(m, self).0
    }

    open spec fn outcome(self, m: LedgerModel) -> Result<(), Error> {
        step_resolve(m, self).1
    }

    /// Apply this resolve to `ledger`: exactly `step_resolve` of the
    /// ledger's model.
    fn process(self, ledger: &mut Ledger) -> (r: Result<(), Error>) {
        let (ai, ti) = match ledger.get_account_transaction(self.client_id, self.tx_id) {
            Err(e) => return Err(e),
            Ok(p) => p,
        };
        let entry = ledger.log[ti].1;
        if entry.transaction.client_id() != self.client_id {
            return Err(Error::MismatchedClient);
        }
        if !matches!(entry.state, State::Disputed) {
            return Err(Error::InvalidTransactionState { got: entry.state });
        }
        let amount: i64 = match entry.transaction {
            Transaction::Deposit(d) => d.amount,
            _ => {
                return Err(Error::InvalidTransactionState { got: entry.state });
            },
        };
        let acct = ledger.accounts[ai];
        proof {
            assert(acct.balanced());
            assert(entry_wf(ledger.log@[ti as int]));
            assert forall|j: int|
                0 <= j < ledger.log@.len() implies entry_contribs_ok(#[trigger] ledger.log@[j]) by {
                assert(entry_wf(ledger.log@[j]));
            }
            lemma_disputed_sum_ge_contrib(ledger.log@, ti as int, self.client_id);
            assert(acct.held >= disputed_sum(ledger.log@, self.client_id));
            assert(acct.held >= amount);
        }
        let updated = Account {
            client: acct.client,
            available: acct.available + amount,
            held: acct.held - amount,
            total: acct.total,
            locked: acct.locked,
        };
        let new_entry = LoggedTransaction {
            transaction: entry.transaction,
            state: State::Processed,
        };
        ledger.set_account_at(ai, updated);
        ledger.put_log(self.tx_id, new_entry);
        proof {
            ledger.lemma_wf_after_lifecycle(*old(ledger), ai as int, updated, self.tx_id, new_entry);
            assert(ledger@ =~= step_resolve(old(ledger)@, self).0);
        }
        Ok(())
    }
}

impl Process for Chargeback {
    type Output = Result<(), Error>;

    open spec fn pre(self, m: LedgerModel) -> bool {
        true
    }

    open spec fn next(self, m: LedgerModel) -> LedgerModel {
        step_chargeback(m, self).0
    }

    open spec fn outcome(self, m: LedgerModel) -> Result<(), Error> {
        step_chargeback(m, self).1
    }

    /// Apply this chargeback to `ledger`: exactly `step_chargeback` of the
    /// ledger's model.
    fn process(self, ledger: &mut Ledger) -> (r: Result<(), Error>) {
        let (ai, ti) = match ledger.get_account_transaction(self.client_id, self.tx_id) {
            Err(e) => return Err(e),
            Ok(p) => p,
        };
        let entry = ledger.log[ti].1;
        if entry.transaction.client_id() != self.client_id {
            return Err(Error::MismatchedClient);
        }
        if !matches!(entry.state, State::Disputed) {
            return Err(Error::InvalidTransactionState { got: entry.state });
        }
        let amount: i64 = match entry.transaction {
            Transaction::Deposit(d) => d.amount,
            _ => {
                return Err(Error::InvalidTransactionState { got: entry.state });
            },
        };
        let acct = ledger.accounts[ai];
        proof {
            assert(acct.balanced());
            assert(entry_wf(ledger.log@[ti as int]));
            assert forall|j: int|
                0 <= j < ledger.log@.len() implies entry_contribs_ok(#[trigger] ledger.log@[j]) by {
                assert(entry_wf(ledger.log@[j]));
            }
            lemma_disputed_sum_ge_contrib(ledger.log@, ti as int, self.client_id);
            assert(acct.held >= disputed_sum(ledger.log@, self.client_id));
            assert(acct.held >= amount);
        }
        let updated = Account {
            client: acct.client,
            available: acct.available,
            held: acct.held - amount,
            total: acct.total - amount,
            locked: true,
        };
        let new_entry = LoggedTransaction {
            transaction: entry.transaction,
            state: State::Chargeback,
        };
        ledger.set_account_at(ai, updated);
        ledger.put_log(self.tx_id, new_entry);
        proof {
            ledger.lemma_wf_after_lifecycle(*old(ledger), ai as int, updated, self.tx_id, new_entry);
            assert(ledger@ =~= step_chargeback(old(ledger)@, self).0);
        }
        Ok(())
    }
}

impl Process for Transaction {
    type Output = Result<(), Error>;

    open spec fn pre(self, m: LedgerModel) -> bool {
        admissible(m, self)
    }

    open spec fn next(self, m: LedgerModel) -> LedgerModel {
        step(m, self).0
    }

    open spec fn outcome(self, m: LedgerModel) -> Result<(), Error> {
        step(m, self).1
    }

    /// Dispatch a transaction to its rule: exactly `step` of the ledger's
    /// model. An `Unknown` transaction always fails and changes nothing.
    fn process(self, ledger: &mut Ledger) -> (r: Result<(), Error>) {
        match self {
            Transaction::Deposit(d) => d.process(ledger),
            Transaction::Withdrawal(w) => w.process(ledger),
            Transaction::Dispute(d) => d.process(ledger),
            Transaction::Resolve(rv) => rv.process(ledger),
            Transaction::Chargeback(cb) => cb.process(ledger),
            Transaction::Unknown { .. } => Err(Error::UnknownTransactionType),
        }
    }
}

impl Ledger {
    /// Decide whether `tx` meets the machine limits that `process` asks of
    /// its caller: a host can test this before processing and reject the
    /// rare record whose balances would leave the fixed-point range.
    pub fn admits(&self, tx: Transaction) -> (r: bool)
        requires
            self.wf(),
        ensures
            r == admissible(self@, tx),
    {
        match tx {
            Transaction::Deposit(d) => {
                if d.amount <= 0 {
                    return true;
                }
                let acct = match self.acct_index(d.client_id) {
                    Some(i) => {
                        proof {
                            lemma_client_map_index(self.accounts@, i as int);
                        }
                        self.accounts[i]
                    },
                    None => {
                        proof {
                            lemma_client_map_absent(self.accounts@, d.client_id);
                        }
                        Account::new(d.client_id)
                    },
                };
                if acct.locked {
                    return true;
                }
                acct.available <= i64::MAX - d.amount && acct.total <= i64::MAX - d.amount
            },
            Transaction::Dispute(d) => {
                let (ai, ti) = match self.get_account_transaction(d.client_id, d.tx_id) {
                    Err(_) => return true,
                    Ok(p) => p,
                };
                let entry = self.log[ti].1;
                if entry.transaction.client_id() != d.client_id {
                    return true;
                }
                if !matches!(entry.state, State::Processed) {
                    return true;
                }
                let amount: i64 = match entry.transaction {
                    Transaction::Deposit(dep) => dep.amount,
                    _ => {
                        return true;
                    },
                };
                proof {
                    assert(entry_wf(self.log@[ti as int]));
                }
                let acct = self.accounts[ai];
                acct.available >= i64::MIN + amount && acct.held <= i64::MAX - amount
            },
            _ => true,
        }
    }

    /// Process one value: the ledger moves to the value's `next` state and
    /// returns its `outcome`; for a whole `Transaction` these are exactly
    /// the model's `step`. After every step each account still obeys the
    /// balance laws, and on an error the ledger is unchanged.
    pub fn process<P: Process>(&mut self, p: P) -> (r: P::Output)
        requires
            old(self).wf(),
            p.pre(old(self)@),
        ensures
            final(self).wf(),
            final(self)@ == p.next(old(self)@),
            r == p.outcome(old(self)@),
            final(self)@.balances_ok(),
    {
        let r = p.process(self);
        proof {
            self.lemma_wf_balances();
        }
        r
    }
}

} // verus!
