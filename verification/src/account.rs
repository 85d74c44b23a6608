//! Per-client account records.
//!
//! Balances are exact fixed-point decimals: an `i64` counts units of
//! 10^-4, so the value `51234` stands for the decimal amount `5.1234`.
//! This gives four fractional digits of precision with exact arithmetic.
use vstd::prelude::*;

verus! {

/// A per-client monetary record: spendable funds (`available`), funds set
/// aside pending dispute resolution (`held`), the net position
/// (`total == available + held`), and a terminal lock flag.
#[derive(Debug, Clone, Copy, PartialEq, Eq, Structural)]
pub struct Account {
    pub client: u16,
    pub available: i64,
    pub held: i64,
    pub total: i64,
    pub locked: bool,
}

impl Account {
    /// A fresh account for `client`: all balances zero, unlocked.
    pub fn new(client: u16) -> (r: Account)
        ensures
            r == Account::initial(client),
    {
        Account { client, available: 0, held: 0, total: 0, locked: false }
    }

    /// The state of an account on creation.
    pub open spec fn initial(client: u16) -> Account {
        Account { client, available: 0, held: 0, total: 0, locked: false }
    }

    /// The per-account balance laws: the net position is exactly the sum of
    /// the spendable and held funds, and held funds are never negative.
    /// `available` may be negative (a dispute of already-withdrawn funds).
    pub open spec fn balanced(self) -> bool {
        &&& self.total == self.available + self.held
        &&& self.held >= 0
    }
}

} // verus!
