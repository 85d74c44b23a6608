//! Whole-batch scenarios and boundary behaviors, run through the public
//! processor from an empty ledger.
//!
//! Amounts are fixed-point decimals: an `i64` counting units of 10^-4.
use payments_ledger::{
    Account, Chargeback, Deposit, Dispute, Error, Ledger, LoggedTransaction, Resolve, State,
    Transaction, TxKind, Withdrawal,
};

fn units(n: i64) -> i64 {
    n * 10_000
}

fn deposit(client_id: u16, tx_id: u32, amount: i64) -> Transaction {
    Transaction::Deposit(Deposit {
        client_id,
        tx_id,
        amount,
    })
}

fn withdraw(client_id: u16, tx_id: u32, amount: i64) -> Transaction {
    Transaction::Withdrawal(Withdrawal {
        client_id,
        tx_id,
        amount,
    })
}

fn dispute(client_id: u16, tx_id: u32) -> Transaction {
    Transaction::Dispute(Dispute { client_id, tx_id })
}

fn resolve(client_id: u16, tx_id: u32) -> Transaction {
    Transaction::Resolve(Resolve { client_id, tx_id })
}

fn chargeback(client_id: u16, tx_id: u32) -> Transaction {
    Transaction::Chargeback(Chargeback { client_id, tx_id })
}

#[test]
fn scenario_basic_deposit_on_new_client() {
    let mut ledger = Ledger::new();
    assert!(ledger.process(deposit(13, 4, 51234)).is_ok());

    let all = ledger.accounts();
    assert_eq!(all.len(), 1);
    assert_eq!(
        all[0],
        Account {
            client: 13,
            available: 51234,
            held: 0,
            total: 51234,
            locked: false,
        }
    );
}

#[test]
fn scenario_dispute_resolve_round_trip() {
    let mut ledger = Ledger::new();
    assert!(ledger.process(deposit(1, 1, units(18))).is_ok());
    assert!(ledger.process(dispute(1, 1)).is_ok());
    assert!(ledger.process(resolve(1, 1)).is_ok());

    assert_eq!(
        ledger.find_account(1).unwrap(),
        Account {
            client: 1,
            available: units(18),
            held: 0,
            total: units(18),
            locked: false,
        }
    );
    assert_eq!(ledger.find_transaction(1).unwrap().state, State::Processed);
}

#[test]
fn scenario_dispute_causing_negative_available() {
    let mut ledger = Ledger::new();
    assert!(ledger.process(deposit(1, 1, units(18))).is_ok());
    assert!(ledger.process(withdraw(1, 2, units(10))).is_ok());
    assert!(ledger.process(dispute(1, 1)).is_ok());

    assert_eq!(
        ledger.find_account(1).unwrap(),
        Account {
            client: 1,
            available: units(-10),
            held: units(18),
            total: units(8),
            locked: false,
        }
    );
    assert_eq!(ledger.find_transaction(1).unwrap().state, State::Disputed);
}

#[test]
fn scenario_chargeback_locks_account_but_tracks_disputes() {
    let mut ledger = Ledger::new();
    assert!(ledger.process(deposit(1, 1, units(18))).is_ok());
    assert!(ledger.process(deposit(1, 2, units(10))).is_ok());
    assert!(ledger.process(deposit(1, 3, units(100))).is_ok());
    assert!(ledger.process(dispute(1, 3)).is_ok());
    assert!(ledger.process(dispute(1, 1)).is_ok());
    assert!(ledger.process(chargeback(1, 1)).is_ok());

    assert_eq!(
        ledger.process(deposit(1, 5, units(13))),
        Err(Error::AccountLocked)
    );
    assert_eq!(
        ledger.process(withdraw(1, 2, units(1))),
        Err(Error::AccountLocked)
    );
    assert!(ledger.process(dispute(1, 2)).is_ok());
    assert!(ledger.process(resolve(1, 3)).is_ok());
    assert!(ledger.process(chargeback(1, 2)).is_ok());

    assert_eq!(
        ledger.find_account(1).unwrap(),
        Account {
            client: 1,
            available: units(100),
            held: 0,
            total: units(100),
            locked: true,
        }
    );
}

#[test]
fn scenario_mismatched_client_dispute() {
    let mut ledger = Ledger::new();
    assert!(ledger.process(deposit(1, 1, units(18))).is_ok());
    assert!(ledger.process(deposit(2, 2, units(10))).is_ok());
    assert_eq!(ledger.process(dispute(2, 1)), Err(Error::MismatchedClient));

    // account 1 unchanged
    assert_eq!(
        ledger.find_account(1).unwrap(),
        Account {
            client: 1,
            available: units(18),
            held: 0,
            total: units(18),
            locked: false,
        }
    );
}

#[test]
fn scenario_error_precedence() {
    let mut ledger = Ledger::new();
    // against an empty ledger the missing account is reported first
    assert_eq!(ledger.process(dispute(9, 9)), Err(Error::AccountNotFound));

    assert!(ledger.process(deposit(9, 1, units(1))).is_ok());
    assert_eq!(
        ledger.process(dispute(9, 9)),
        Err(Error::TransactionNotFound)
    );
}

#[test]
fn rejected_transaction_changes_nothing() {
    let mut ledger = Ledger::new();
    assert!(ledger.process(deposit(1, 1, units(18))).is_ok());
    assert!(ledger.process(dispute(1, 1)).is_ok());

    let account_before = ledger.find_account(1).unwrap();
    let entry_before = ledger.find_transaction(1).unwrap();

    // a withdrawal with insufficient funds, a dispute of a disputed entry,
    // and an unknown transaction all leave account and log identical
    assert!(ledger.process(withdraw(1, 2, units(5))).is_err());
    assert!(ledger.process(dispute(1, 1)).is_err());
    assert!(ledger
        .process(Transaction::Unknown {
            client_id: 1,
            tx_id: 7,
            amount: units(3),
        })
        .is_err());

    assert_eq!(ledger.find_account(1).unwrap(), account_before);
    assert_eq!(ledger.find_transaction(1).unwrap(), entry_before);
    assert_eq!(ledger.find_transaction(2), None);
    assert_eq!(ledger.find_transaction(7), None);
    assert_eq!(ledger.accounts().len(), 1);
}

#[test]
fn dispute_before_deposit_is_order_sensitive() {
    // the dispute arriving before the deposit that creates its target fails
    let mut ledger = Ledger::new();
    assert!(ledger.process(deposit(1, 1, units(5))).is_ok());
    assert_eq!(ledger.process(dispute(1, 2)), Err(Error::TransactionNotFound));
    assert!(ledger.process(deposit(1, 2, units(7))).is_ok());

    // with the order swapped it succeeds
    assert!(ledger.process(dispute(1, 2)).is_ok());
    assert_eq!(ledger.find_transaction(2).unwrap().state, State::Disputed);
}

#[test]
fn failed_withdrawal_creates_no_account() {
    let mut ledger = Ledger::new();
    assert_eq!(
        ledger.process(withdraw(3, 1, units(4))),
        Err(Error::AccountNotFound)
    );
    assert_eq!(ledger.find_account(3), None);
    assert_eq!(ledger.accounts().len(), 0);
}

#[test]
fn withdrawal_of_whole_balance_succeeds() {
    let mut ledger = Ledger::new();
    assert!(ledger.process(deposit(1, 1, units(18))).is_ok());
    assert!(ledger.process(withdraw(1, 2, units(18))).is_ok());
    assert_eq!(
        ledger.find_account(1).unwrap(),
        Account {
            client: 1,
            available: 0,
            held: 0,
            total: 0,
            locked: false,
        }
    );
}

#[test]
fn duplicate_transaction_id_overwrites_log_entry() {
    // the engine's documented policy: a second deposit under an
    // already-logged id replaces the earlier log entry
    let mut ledger = Ledger::new();
    assert!(ledger.process(deposit(1, 1, units(18))).is_ok());
    assert!(ledger.process(deposit(1, 1, units(5))).is_ok());

    assert_eq!(
        ledger.find_account(1).unwrap(),
        Account {
            client: 1,
            available: units(23),
            held: 0,
            total: units(23),
            locked: false,
        }
    );
    assert_eq!(
        ledger.find_transaction(1).unwrap(),
        LoggedTransaction {
            transaction: deposit(1, 1, units(5)),
            state: State::Processed,
        }
    );
}

#[test]
fn resolve_then_dispute_again_is_legal() {
    let mut ledger = Ledger::new();
    assert!(ledger.process(deposit(1, 1, units(18))).is_ok());
    assert!(ledger.process(dispute(1, 1)).is_ok());
    assert!(ledger.process(resolve(1, 1)).is_ok());
    assert!(ledger.process(dispute(1, 1)).is_ok());
    assert_eq!(ledger.find_transaction(1).unwrap().state, State::Disputed);
}

#[test]
fn chargeback_is_terminal_for_the_entry() {
    let mut ledger = Ledger::new();
    assert!(ledger.process(deposit(1, 1, units(18))).is_ok());
    assert!(ledger.process(dispute(1, 1)).is_ok());
    assert!(ledger.process(chargeback(1, 1)).is_ok());

    assert!(matches!(
        ledger.process(dispute(1, 1)),
        Err(Error::InvalidTransactionState { .. })
    ));
    assert!(matches!(
        ledger.process(resolve(1, 1)),
        Err(Error::InvalidTransactionState { .. })
    ));
    assert!(matches!(
        ledger.process(chargeback(1, 1)),
        Err(Error::InvalidTransactionState { .. })
    ));
    assert_eq!(ledger.find_transaction(1).unwrap().state, State::Chargeback);
}

#[test]
fn balance_laws_hold_after_every_step() {
    let mut ledger = Ledger::new();
    let batch = vec![
        deposit(1, 1, units(18)),
        withdraw(1, 2, units(10)),
        dispute(1, 1),
        deposit(2, 3, 51234),
        resolve(1, 1),
        dispute(1, 1),
        chargeback(1, 1),
        withdraw(2, 4, units(2)),
        dispute(2, 3),
    ];
    for tx in batch {
        let _ = ledger.process(tx);
        for account in ledger.accounts() {
            assert_eq!(account.total, account.available + account.held);
            assert!(account.held >= 0);
        }
    }
}

#[test]
fn from_parts_maps_kinds_and_drops_unused_amounts() {
    assert_eq!(
        Transaction::from_parts(TxKind::Deposit, 1, 2, units(3)),
        deposit(1, 2, units(3))
    );
    assert_eq!(
        Transaction::from_parts(TxKind::Withdrawal, 1, 2, units(3)),
        withdraw(1, 2, units(3))
    );
    assert_eq!(
        Transaction::from_parts(TxKind::Dispute, 1, 2, units(3)),
        dispute(1, 2)
    );
    assert_eq!(
        Transaction::from_parts(TxKind::Resolve, 1, 2, units(3)),
        resolve(1, 2)
    );
    assert_eq!(
        Transaction::from_parts(TxKind::Chargeback, 1, 2, units(3)),
        chargeback(1, 2)
    );
    assert_eq!(
        Transaction::from_parts(TxKind::Unknown, 1, 2, units(3)),
        Transaction::Unknown {
            client_id: 1,
            tx_id: 2,
            amount: units(3),
        }
    );
}

#[test]
fn accounts_enumerates_every_client_once() {
    let mut ledger = Ledger::new();
    assert!(ledger.process(deposit(1, 1, units(1))).is_ok());
    assert!(ledger.process(deposit(2, 2, units(2))).is_ok());
    assert!(ledger.process(deposit(3, 3, units(3))).is_ok());
    assert!(ledger.process(deposit(2, 4, units(4))).is_ok());

    let mut clients: Vec<u16> = ledger.accounts().iter().map(|a| a.client).collect();
    clients.sort();
    assert_eq!(clients, vec![1, 2, 3]);
    for account in ledger.accounts() {
        assert_eq!(ledger.find_account(account.client), Some(account));
    }
}

#[test]
fn find_or_create_makes_a_zero_account_once() {
    let mut ledger = Ledger::new();
    let fresh = ledger.find_or_create_account(7);
    assert_eq!(
        fresh,
        Account {
            client: 7,
            available: 0,
            held: 0,
            total: 0,
            locked: false,
        }
    );
    assert!(ledger.process(deposit(7, 1, units(2))).is_ok());
    let again = ledger.find_or_create_account(7);
    assert_eq!(again.available, units(2));
    assert_eq!(ledger.accounts().len(), 1);
}

#[test]
fn admits_flags_a_deposit_that_would_overflow() {
    let mut ledger = Ledger::new();
    let huge = deposit(1, 1, i64::MAX);
    assert!(ledger.admits(huge));
    assert!(ledger.process(huge).is_ok());

    // a second deposit of any size would push the balance past the
    // fixed-point range
    assert!(!ledger.admits(deposit(1, 2, 1)));
    // everything that cannot move a balance out of range is admitted
    assert!(ledger.admits(deposit(1, 3, 0)));
    assert!(ledger.admits(withdraw(1, 4, units(1))));
    assert!(ledger.admits(dispute(1, 1)));
}

#[test]
fn log_transaction_records_a_processed_entry() {
    let mut ledger = Ledger::new();
    ledger.log_transaction(9, withdraw(4, 9, units(6)));
    assert_eq!(
        ledger.find_transaction(9),
        Some(LoggedTransaction {
            transaction: withdraw(4, 9, units(6)),
            state: State::Processed,
        })
    );
    assert_eq!(ledger.find_account(4), None);
}
