//! A batch payments ledger engine.
//!
//! The engine ingests a stream of transaction records keyed by client and
//! transaction identifiers, applies them to per-client account balances,
//! and exposes the final state of every account. Deposits and withdrawals
//! move funds and are logged; disputes, resolves, and chargebacks act on
//! logged deposits through a small state machine while the balance laws
//! `total == available + held` and `held >= 0` are preserved.
//!
//! Balances are exact fixed-point decimals: `i64` values counting units of
//! 10^-4. Input decoding and output encoding are the host's concern; the
//! engine consumes already-decoded plain values.
pub mod account;
pub mod laws;
pub mod ledger;
pub mod model;
pub mod sums;
pub mod transaction;
pub mod views;

pub use account::Account;
pub use ledger::{Ledger, Process};
pub use transaction::{
    Chargeback, Deposit, Dispute, Error, LoggedTransaction, Resolve, State, Transaction, TxKind,
    Withdrawal,
};
