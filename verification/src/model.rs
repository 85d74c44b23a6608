//! The mathematical model of the ledger and its transition function.
//!
//! A `LedgerModel` is the keyed view of the two registries. `step` says, for
//! every transaction and every ledger state, the exact next state and the
//! exact outcome, mirroring the normative precondition order: the processor's
//! contract pins its behaviour to `step`, and the algebraic laws of the
//! engine are proved of `step` alone.
use vstd::prelude::*;

use crate::account::Account;
use crate::transaction::{
    Chargeback, Deposit, Dispute, Error, LoggedTransaction, Resolve, State, Transaction,
    Withdrawal,
};

verus! {

/// The keyed view of a ledger: accounts by client id, logged transactions
/// by transaction id.
#[verifier::ext_equal]
pub struct LedgerModel {
    pub accounts: Map<u16, Account>,
    pub log: Map<u32, LoggedTransaction>,
}

impl LedgerModel {
    /// The ledger before any transaction: no accounts, no log entries.
    pub open spec fn empty() -> LedgerModel {
        LedgerModel { accounts: Map::empty(), log: Map::empty() }
    }

    /// Every account obeys the balance laws.
    pub open spec fn balances_ok(self) -> bool {
        forall|c: u16| self.accounts.contains_key(c) ==> (#[trigger] self.accounts[c]).balanced()
    }
}

/// The account a deposit works on: the existing one, or a fresh one for an
/// unseen client.
pub open spec fn acct_or_new(m: LedgerModel, c: u16) -> Account {
    if m.accounts.contains_key(c) {
        m.accounts[c]
    } else {
        Account::initial(c)
    }
}

/// Machine limit on a deposit: whenever the deposit would be applied, the
/// grown balances must still fit in the fixed-point range.
pub open spec fn deposit_fits(m: LedgerModel, d: Deposit) -> bool {
    (d.amount > 0 && !acct_or_new(m, d.client_id).locked) ==> {
        &&& acct_or_new(m, d.client_id).available + d.amount <= i64::MAX
        &&& acct_or_new(m, d.client_id).total + d.amount <= i64::MAX
    }
}

/// All preconditions of a dispute hold: the account and the logged
/// transaction exist, the entry belongs to the disputing client, and it is
/// an undisputed deposit.
pub open spec fn dispute_applies(m: LedgerModel, d: Dispute) -> bool {
    &&& m.accounts.contains_key(d.client_id)
    &&& m.log.contains_key(d.tx_id)
    &&& m.log[d.tx_id].transaction.spec_client_id() == d.client_id
    &&& m.log[d.tx_id].state == State::Processed
    &&& m.log[d.tx_id].transaction is Deposit
}

/// Machine limit on a dispute: whenever the dispute would be applied, the
/// moved balances must still fit in the fixed-point range.
pub open spec fn dispute_fits(m: LedgerModel, d: Dispute) -> bool {
    dispute_applies(m, d) ==> {
        &&& m.accounts[d.client_id].available - m.log[d.tx_id].transaction.spec_amount()
            >= i64::MIN
        &&& m.accounts[d.client_id].held + m.log[d.tx_id].transaction.spec_amount() <= i64::MAX
    }
}

/// The machine limits a transaction must meet to be processed. Only
/// deposits and disputes can grow a balance beyond what the ledger already
/// bounds; every other transaction fits unconditionally.
pub open spec fn admissible(m: LedgerModel, tx: Transaction) -> bool {
    match tx {
        Transaction::Deposit(d) => deposit_fits(m, d),
        Transaction::Dispute(d) => dispute_fits(m, d),
        _ => true,
    }
}

/// Deposit: reject a non-positive amount, then reject a locked account;
/// otherwise grow `available` and `total` of the (found or created) account
/// and log the deposit as `Processed` under its transaction id.
pub open spec fn step_deposit(m: LedgerModel, d: Deposit) -> (LedgerModel, Result<(), Error>) {
    if d.amount <= 0 {
        (m, Err(Error::InvalidAmount))
    } else {
        let acct = acct_or_new(m, d.client_id);
        if acct.locked {
            (m, Err(Error::AccountLocked))
        } else {
            let updated = Account {
                client: acct.client,
                available: (acct.available + d.amount) as i64,
                held: acct.held,
                total: (acct.total + d.amount) as i64,
                locked: acct.locked,
            };
            let entry = LoggedTransaction {
                transaction: Transaction::Deposit(d),
                state: State::Processed,
            };
            (
                LedgerModel {
                    accounts: m.accounts.insert(d.client_id, updated),
                    log: m.log.insert(d.tx_id, entry),
                },
                Ok(()),
            )
        }
    }
}

/// Withdrawal: reject a non-positive amount, a missing account (one is
/// never created), a locked account, then insufficient available funds;
/// otherwise shrink `available` and `total` and log the withdrawal.
pub open spec fn step_withdrawal(m: LedgerModel, w: Withdrawal) -> (LedgerModel, Result<(), Error>) {
    if w.amount <= 0 {
        (m, Err(Error::InvalidAmount))
    } else if !m.accounts.contains_key(w.client_id) {
        (m, Err(Error::AccountNotFound))
    } else {
        let acct = m.accounts[w.client_id];
        if acct.locked {
            (m, Err(Error::AccountLocked))
        } else if acct.available < w.amount {
            (m, Err(Error::InsufficientFunds { available: acct.available }))
        } else {
            let updated = Account {
                client: acct.client,
                available: (acct.available - w.amount) as i64,
                held: acct.held,
                total: (acct.total - w.amount) as i64,
                locked: acct.locked,
            };
            let entry = LoggedTransaction {
                transaction: Transaction::Withdrawal(w),
                state: State::Processed,
            };
            (
                LedgerModel {
                    accounts: m.accounts.insert(w.client_id, updated),
                    log: m.log.insert(w.tx_id, entry),
                },
                Ok(()),
            )
        }
    }
}

/// Dispute: check account, then log entry, then ownership, then that the
/// entry is an undisputed deposit; on success move the deposited amount
/// from `available` to `held` (`total` unchanged, the lock not consulted)
/// and mark the entry `Disputed`.
pub open spec fn step_dispute(m: LedgerModel, d: Dispute) -> (LedgerModel, Result<(), Error>) {
    if !m.accounts.contains_key(d.client_id) {
        (m, Err(Error::AccountNotFound))
    } else if !m.log.contains_key(d.tx_id) {
        (m, Err(Error::TransactionNotFound))
    } else {
        let e = m.log[d.tx_id];
        if e.transaction.spec_client_id() != d.client_id {
            (m, Err(Error::MismatchedClient))
        } else if e.state != State::Processed {
            (m, Err(Error::InvalidTransactionState { got: e.state }))
        } else if !(e.transaction is Deposit) {
            (m, Err(Error::InvalidTransactionState { got: e.state }))
        } else {
            let acct = m.accounts[d.client_id];
            let a = e.transaction.spec_amount();
            let updated = Account {
                client: acct.client,
                available: (acct.available - a) as i64,
                held: (acct.held + a) as i64,
                total: acct.total,
                locked: acct.locked,
            };
            let entry = LoggedTransaction { transaction: e.transaction, state: State::Disputed };
            (
                LedgerModel {
                    accounts: m.accounts.insert(d.client_id, updated),
                    log: m.log.insert(d.tx_id, entry),
                },
                Ok(()),
            )
        }
    }
}

/// Resolve: the same precondition order as a dispute, with the entry
/// required to be `Disputed`; on success move the amount back from `held`
/// to `available` and return the entry to `Processed`.
pub open spec fn step_resolve(m: LedgerModel, r: Resolve) -> (LedgerModel, Result<(), Error>) {
    if !m.accounts.contains_key(r.client_id) {
        (m, Err(Error::AccountNotFound))
    } else if !m.log.contains_key(r.tx_id) {
        (m, Err(Error::TransactionNotFound))
    } else {
        let e = m.log[r.tx_id];
        if e.transaction.spec_client_id() != r.client_id {
            (m, Err(Error::MismatchedClient))
        } else if e.state != State::Disputed {
            (m, Err(Error::InvalidTransactionState { got: e.state }))
        } else if !(e.transaction is Deposit) {
            (m, Err(Error::InvalidTransactionState { got: e.state }))
        } else {
            let acct = m.accounts[r.client_id];
            let a = e.transaction.spec_amount();
            let updated = Account {
                client: acct.client,
                available: (acct.available + a) as i64,
                held: (acct.held - a) as i64,
                total: acct.total,
                locked: acct.locked,
            };
            let entry = LoggedTransaction { transaction: e.transaction, state: State::Processed };
            (
                LedgerModel {
                    accounts: m.accounts.insert(r.client_id, updated),
                    log: m.log.insert(r.tx_id, entry),
                },
                Ok(()),
            )
        }
    }
}

/// Chargeback: the same preconditions as a resolve; on success the held
/// amount leaves the account (`available` unchanged), the entry moves to
/// the terminal `Chargeback` state, and the account is locked for good.
pub open spec fn step_chargeback(m: LedgerModel, cb: Chargeback) -> (LedgerModel, Result<(), Error>) {
    if !m.accounts.contains_key(cb.client_id) {
        (m, Err(Error::AccountNotFound))
    } else if !m.log.contains_key(cb.tx_id) {
        (m, Err(Error::TransactionNotFound))
    } else {
        let e = m.log[cb.tx_id];
        if e.transaction.spec_client_id() != cb.client_id {
            (m, Err(Error::MismatchedClient))
        } else if e.state != State::Disputed {
            (m, Err(Error::InvalidTransactionState { got: e.state }))
        } else if !(e.transaction is Deposit) {
            (m, Err(Error::InvalidTransactionState { got: e.state }))
        } else {
            let acct = m.accounts[cb.client_id];
            let a = e.transaction.spec_amount();
            let updated = Account {
                client: acct.client,
                available: acct.available,
                held: (acct.held - a) as i64,
                total: (acct.total - a) as i64,
                locked: true,
            };
            let entry = LoggedTransaction { transaction: e.transaction, state: State::Chargeback };
            (
                LedgerModel {
                    accounts: m.accounts.insert(cb.client_id, updated),
                    log: m.log.insert(cb.tx_id, entry),
                },
                Ok(()),
            )
        }
    }
}

/// One step of the engine: the next ledger state and the outcome of
/// processing `tx` against `m`.
pub open spec fn step(m: LedgerModel, tx: Transaction) -> (LedgerModel, Result<(), Error>) {
    match tx {
        Transaction::Deposit(d) => step_deposit(m, d),
        Transaction::Withdrawal(w) => step_withdrawal(m, w),
        Transaction::Dispute(d) => step_dispute(m, d),
        Transaction::Resolve(r) => step_resolve(m, r),
        Transaction::Chargeback(cb) => step_chargeback(m, cb),
        Transaction::Unknown { .. } => (m, Err(Error::UnknownTransactionType)),
    }
}

} // verus!
