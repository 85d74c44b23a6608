//! The algebraic laws of the engine, proved of the model's `step` function.
//!
//! `Ledger::process` is pinned exactly to `step`, so each law here holds of
//! the executable processor as well.
use vstd::prelude::*;

use crate::model::{acct_or_new, dispute_applies, dispute_fits, step, LedgerModel};
use crate::transaction::{Deposit, Dispute, Error, Resolve, State, Transaction, Withdrawal};

verus! {

/// A lock is terminal: once an account is locked, it stays locked (and the
/// account stays) through every further transaction, whatever its outcome.
pub proof fn lemma_step_keeps_locked(m: LedgerModel, tx: Transaction, c: u16)
    requires
        m.accounts.contains_key(c),
        m.accounts[c].locked,
    ensures
        step(m, tx).0.accounts.contains_key(c),
        step(m, tx).0.accounts[c].locked,
{
}

/// Accounts exist only for clients that have had at least one successful
/// deposit: a step creates an account only when it is itself a successful
/// deposit for that client.
pub proof fn lemma_step_account_creation(m: LedgerModel, tx: Transaction, c: u16)
    requires
        step(m, tx).0.accounts.contains_key(c),
    ensures
        m.accounts.contains_key(c) || (tx matches Transaction::Deposit(d) && d.client_id == c
            && step(m, tx).1 is Ok),
{
}

/// Logged transactions exist only for successful deposits and withdrawals:
/// a step logs a new transaction id only when it is itself a successful
/// deposit or withdrawal under that id.
pub proof fn lemma_step_log_creation(m: LedgerModel, tx: Transaction, t: u32)
    requires
        step(m, tx).0.log.contains_key(t),
    ensures
        m.log.contains_key(t) || (step(m, tx).1 is Ok && ((tx matches Transaction::Deposit(d)
            && d.tx_id == t) || (tx matches Transaction::Withdrawal(w) && w.tx_id == t))),
{
}

/// A rejected transaction is a no-op: whenever a step fails, the ledger
/// state it leaves is identical to the state it found.
pub proof fn lemma_step_error_no_change(m: LedgerModel, tx: Transaction)
    ensures
        step(m, tx).1 is Err ==> step(m, tx).0 == m,
{
}

/// A dispute followed by its resolve is a no-op: both succeed, the log
/// entry returns to `Processed`, and the whole ledger state — balances
/// included — is restored exactly.
pub proof fn lemma_dispute_resolve_round_trip(m: LedgerModel, c: u16, t: u32)
    requires
        dispute_applies(m, Dispute { client_id: c, tx_id: t }),
        dispute_fits(m, Dispute { client_id: c, tx_id: t }),
        m.log[t].transaction.spec_amount() > 0,
    ensures
        step(m, Transaction::Dispute(Dispute { client_id: c, tx_id: t })).1 is Ok,
        ({
            let m1 = step(m, Transaction::Dispute(Dispute { client_id: c, tx_id: t })).0;
            &&& step(m1, Transaction::Resolve(Resolve { client_id: c, tx_id: t })).1 is Ok
            &&& step(m1, Transaction::Resolve(Resolve { client_id: c, tx_id: t })).0 == m
            &&& step(m1, Transaction::Resolve(Resolve { client_id: c, tx_id: t })).0.log[t].state
                == State::Processed
        }),
{
    let m1 = step(m, Transaction::Dispute(Dispute { client_id: c, tx_id: t })).0;
    let m2 = step(m1, Transaction::Resolve(Resolve { client_id: c, tx_id: t })).0;
    let acct = m.accounts[c];
    let e = m.log[t];
    assert(m2.accounts[c] == acct);
    assert(m2.accounts =~= m.accounts);
    assert(m2.log[t] == e);
    assert(m2.log =~= m.log);
    assert(m2 =~= m);
}

/// Order sensitivity, first half: a dispute of a transaction id that was
/// never logged fails with `TransactionNotFound` (given the client has an
/// account at all) and changes nothing.
pub proof fn lemma_dispute_before_deposit(m: LedgerModel, c: u16, t: u32)
    requires
        m.accounts.contains_key(c),
        !m.log.contains_key(t),
    ensures
        step(m, Transaction::Dispute(Dispute { client_id: c, tx_id: t })).1
            == Err::<(), Error>(Error::TransactionNotFound),
        step(m, Transaction::Dispute(Dispute { client_id: c, tx_id: t })).0 == m,
{
}

/// Order sensitivity, second half: after the deposit has been processed,
/// the same dispute succeeds.
pub proof fn lemma_deposit_then_dispute(m: LedgerModel, d: Deposit)
    requires
        d.amount > 0,
        !acct_or_new(m, d.client_id).locked,
    ensures
        step(m, Transaction::Deposit(d)).1 is Ok,
        step(
            step(m, Transaction::Deposit(d)).0,
            Transaction::Dispute(Dispute { client_id: d.client_id, tx_id: d.tx_id }),
        ).1 is Ok,
{
}

/// A deposit or withdrawal whose amount is zero or negative fails with
/// `InvalidAmount` and changes nothing.
pub proof fn lemma_nonpositive_amount(m: LedgerModel, tx: Transaction)
    requires
        (tx matches Transaction::Deposit(d) ==> d.amount <= 0),
        (tx matches Transaction::Withdrawal(w) ==> w.amount <= 0),
        tx is Deposit || tx is Withdrawal,
    ensures
        step(m, tx).1 == Err::<(), Error>(Error::InvalidAmount),
        step(m, tx).0 == m,
{
}

/// A withdrawal against a client with no account fails with
/// `AccountNotFound`, and no account is created.
pub proof fn lemma_withdrawal_no_account(m: LedgerModel, w: Withdrawal)
    requires
        w.amount > 0,
        !m.accounts.contains_key(w.client_id),
    ensures
        step(m, Transaction::Withdrawal(w)).1 == Err::<(), Error>(Error::AccountNotFound),
        step(m, Transaction::Withdrawal(w)).0 == m,
{
}

/// A dispute that drives `available` below zero is allowed: it succeeds and
/// leaves exactly the (negative) difference as the available balance.
pub proof fn lemma_dispute_may_overdraw(m: LedgerModel, c: u16, t: u32)
    requires
        dispute_applies(m, Dispute { client_id: c, tx_id: t }),
        dispute_fits(m, Dispute { client_id: c, tx_id: t }),
        m.accounts[c].available < m.log[t].transaction.spec_amount(),
    ensures
        step(m, Transaction::Dispute(Dispute { client_id: c, tx_id: t })).1 is Ok,
        step(m, Transaction::Dispute(Dispute { client_id: c, tx_id: t })).0.accounts[c].available
            == m.accounts[c].available - m.log[t].transaction.spec_amount(),
        step(m, Transaction::Dispute(Dispute { client_id: c, tx_id: t })).0.accounts[c].available
            < 0,
{
}

} // verus!
