//! The transaction variants, the dispute-lifecycle state of logged
//! transactions, and the closed error taxonomy.
//!
//! Amounts are exact fixed-point decimals: an `i64` counting units of 10^-4
//! (see `account`).
use vstd::prelude::*;

verus! {

/// A deposit of `amount` to the account of `client_id`, identified by `tx_id`.
#[derive(Debug, Clone, Copy, PartialEq, Eq, Structural)]
pub struct Deposit {
    pub client_id: u16,
    pub tx_id: u32,
    pub amount: i64,
}

/// A withdrawal of `amount` from the account of `client_id`.
#[derive(Debug, Clone, Copy, PartialEq, Eq, Structural)]
pub struct Withdrawal {
    pub client_id: u16,
    pub tx_id: u32,
    pub amount: i64,
}

/// A claim by `client_id` that the logged transaction `tx_id` is erroneous;
/// its funds are moved from available to held while the claim is open.
#[derive(Debug, Clone, Copy, PartialEq, Eq, Structural)]
pub struct Dispute {
    pub client_id: u16,
    pub tx_id: u32,
}

/// A settlement of an open dispute in favour of the original transaction:
/// the held funds become available again.
#[derive(Debug, Clone, Copy, PartialEq, Eq, Structural)]
pub struct Resolve {
    pub client_id: u16,
    pub tx_id: u32,
}

/// A settlement of an open dispute against the original transaction: the
/// held funds leave the account and the account is locked.
#[derive(Debug, Clone, Copy, PartialEq, Eq, Structural)]
pub struct Chargeback {
    pub client_id: u16,
    pub tx_id: u32,
}

/// One incoming transaction record. `Unknown` stands for a record whose
/// type tag was none of the five known kinds; processing it always fails.
#[derive(Debug, Clone, Copy, PartialEq, Eq, Structural)]
pub enum Transaction {
    Deposit(Deposit),
    Withdrawal(Withdrawal),
    Dispute(Dispute),
    Resolve(Resolve),
    Chargeback(Chargeback),
    Unknown { client_id: u16, tx_id: u32, amount: i64 },
}

impl Transaction {
    /// The client a transaction speaks of.
    pub open spec fn spec_client_id(self) -> u16 {
        match self {
            Transaction::Deposit(d) => d.client_id,
            Transaction::Withdrawal(w) => w.client_id,
            Transaction::Dispute(d) => d.client_id,
            Transaction::Resolve(r) => r.client_id,
            Transaction::Chargeback(c) => c.client_id,
            Transaction::Unknown { client_id, .. } => client_id,
        }
    }

    /// The monetary amount a transaction carries; zero for the variants
    /// that carry none.
    pub open spec fn spec_amount(self) -> i64 {
        match self {
            Transaction::Deposit(d) => d.amount,
            Transaction::Withdrawal(w) => w.amount,
            Transaction::Unknown { amount, .. } => amount,
            _ => 0,
        }
    }

    #[verifier::when_used_as_spec(spec_client_id)]
    pub fn client_id(self) -> (r: u16)
        ensures
            r == self.spec_client_id(),
    {
        match self {
            Transaction::Deposit(d) => d.client_id,
            Transaction::Withdrawal(w) => w.client_id,
            Transaction::Dispute(d) => d.client_id,
            Transaction::Resolve(r) => r.client_id,
            Transaction::Chargeback(c) => c.client_id,
            Transaction::Unknown { client_id, .. } => client_id,
        }
    }

    /// Build a transaction from the five decoded fields of an input record.
    /// This is the whole mapping from a decoded record to a transaction
    /// value; the host's decoder supplies the parts and nothing more.
    pub fn from_parts(kind: TxKind, client_id: u16, tx_id: u32, amount: i64) -> (r: Transaction)
        ensures
            r == Transaction::spec_from_parts(kind, client_id, tx_id, amount),
    {
        match kind {
            TxKind::Deposit => Transaction::Deposit(Deposit { client_id, tx_id, amount }),
            TxKind::Withdrawal => Transaction::Withdrawal(Withdrawal { client_id, tx_id, amount }),
            TxKind::Dispute => Transaction::Dispute(Dispute { client_id, tx_id }),
            TxKind::Resolve => Transaction::Resolve(Resolve { client_id, tx_id }),
            TxKind::Chargeback => Transaction::Chargeback(Chargeback { client_id, tx_id }),
            TxKind::Unknown => Transaction::Unknown { client_id, tx_id, amount },
        }
    }

    /// What `from_parts` returns: the amount is kept only by the variants
    /// that carry one.
    pub open spec fn spec_from_parts(kind: TxKind, client_id: u16, tx_id: u32, amount: i64) -> Transaction {
        match kind {
            TxKind::Deposit => Transaction::Deposit(Deposit { client_id, tx_id, amount }),
            TxKind::Withdrawal => Transaction::Withdrawal(Withdrawal { client_id, tx_id, amount }),
            TxKind::Dispute => Transaction::Dispute(Dispute { client_id, tx_id }),
            TxKind::Resolve => Transaction::Resolve(Resolve { client_id, tx_id }),
            TxKind::Chargeback => Transaction::Chargeback(Chargeback { client_id, tx_id }),
            TxKind::Unknown => Transaction::Unknown { client_id, tx_id, amount },
        }
    }
}

/// The decoded type tag of an input record. A tag that is none of the five
/// known kinds decodes to `Unknown`.
#[derive(Debug, Clone, Copy, PartialEq, Eq, Structural)]
pub enum TxKind {
    Deposit,
    Withdrawal,
    Dispute,
    Resolve,
    Chargeback,
    Unknown,
}

/// The dispute-lifecycle state of a logged transaction:
/// `Processed` -> (dispute) -> `Disputed` -> (resolve) -> `Processed`,
/// or `Disputed` -> (chargeback) -> `Chargeback`, which is terminal.
#[derive(Debug, Clone, Copy, PartialEq, Eq, Structural)]
pub enum State {
    /// The transaction has been processed and is not under dispute.
    Processed,
    /// The transaction is under dispute; its funds are on hold.
    Disputed,
    /// The transaction was charged back; its funds were removed and the
    /// account is locked. No further transition leaves this state.
    Chargeback,
}

/// The retained record of a successfully processed deposit or withdrawal,
/// carrying its dispute-lifecycle state.
#[derive(Debug, Clone, Copy, PartialEq, Eq, Structural)]
pub struct LoggedTransaction {
    pub transaction: Transaction,
    pub state: State,
}

impl LoggedTransaction {
    /// A freshly logged transaction starts in state `Processed`.
    pub fn new(tx: Transaction) -> (r: LoggedTransaction)
        ensures
            r == (LoggedTransaction { transaction: tx, state: State::Processed }),
    {
        LoggedTransaction { transaction: tx, state: State::Processed }
    }
}

/// Why a transaction was rejected. Errors are values: the processor returns
/// them and the batch goes on with the next record.
#[derive(Debug, Clone, Copy, PartialEq, Eq, Structural)]
pub enum Error {
    /// A withdrawal would drive `available` below zero; carries the
    /// available balance at the time of the attempt.
    InsufficientFunds { available: i64 },
    /// A dispute, resolve, or chargeback referenced a transaction id that
    /// is not in the log.
    TransactionNotFound,
    /// A dispute, resolve, or chargeback found the logged transaction in a
    /// state incompatible with the operation (disputing a withdrawal
    /// included); carries the observed state.
    InvalidTransactionState { got: State },
    /// The target client has no account.
    AccountNotFound,
    /// A deposit or withdrawal amount was zero or negative.
    InvalidAmount,
    /// The referenced transaction exists but belongs to another client.
    MismatchedClient,
    /// A deposit or withdrawal against a locked account.
    AccountLocked,
    /// The record's type tag was none of the five known kinds.
    UnknownTransactionType,
}

} // verus!
