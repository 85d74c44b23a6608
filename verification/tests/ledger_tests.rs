//! The processor rules, exercised one transaction kind at a time.
//!
//! Amounts are fixed-point decimals: an `i64` counting units of 10^-4, so
//! `units(18)` is the decimal amount `18` and `51234` is `5.1234`.
use payments_ledger::{
    Account, Chargeback, Deposit, Dispute, Error, Ledger, Resolve, State, Transaction, Withdrawal,
};

fn units(n: i64) -> i64 {
    n * 10_000
}

fn deposit(client_id: u16, tx_id: u32, amount: i64) -> Transaction {
    Transaction::Deposit(Deposit {
        client_id,
        tx_id,
        amount,
    })
}

fn withdraw(client_id: u16, tx_id: u32, amount: i64) -> Transaction {
    Transaction::Withdrawal(Withdrawal {
        client_id,
        tx_id,
        amount,
    })
}

fn dispute(client_id: u16, tx_id: u32) -> Transaction {
    Transaction::Dispute(Dispute { client_id, tx_id })
}

fn resolve(client_id: u16, tx_id: u32) -> Transaction {
    Transaction::Resolve(Resolve { client_id, tx_id })
}

fn chargeback(client_id: u16, tx_id: u32) -> Transaction {
    Transaction::Chargeback(Chargeback { client_id, tx_id })
}

fn build_ledger() -> Ledger {
    let mut ledger = Ledger::new();
    let tx_result = ledger.process(deposit(1, 1, units(18)));
    assert!(tx_result.is_ok());
    ledger
}

#[test]
fn test_deposit_new_client() {
    let mut ledger = build_ledger();
    let deposit = ledger.process(deposit(13, 4, 51234));
    assert!(deposit.is_ok());

    let account = ledger.find_account(13);
    assert!(account.is_some());
    assert_eq!(
        account.unwrap(),
        Account {
            client: 13,
            available: 51234,
            held: 0,
            total: 51234,
            locked: false,
        }
    );
}

#[test]
fn test_deposit_existing_client() {
    let mut ledger = build_ledger();
    let deposit = ledger.process(deposit(1, 4, 51234));
    assert!(deposit.is_ok());

    let account = ledger.find_account(1);
    assert!(account.is_some());
    assert_eq!(
        account.unwrap(),
        Account {
            client: 1,
            available: 231234,
            held: 0,
            total: 231234,
            locked: false,
        }
    );
}

#[test]
fn test_deposit_invalid_amount() {
    let mut ledger = build_ledger();

    // Depositing nothing
    let result = ledger.process(deposit(1, 3, 0));
    assert_eq!(result, Err(Error::InvalidAmount));

    // Depositing negative
    let result = ledger.process(deposit(1, 3, -15000));
    assert_eq!(result, Err(Error::InvalidAmount));

    // make sure the account hasn't changed
    let account = ledger.find_account(1);
    assert!(account.is_some());
    assert_eq!(
        account.unwrap(),
        Account {
            client: 1,
            available: units(18),
            held: 0,
            total: units(18),
            locked: false,
        }
    );
}

#[test]
fn test_withdraw_success() {
    let mut ledger = build_ledger();
    let withdraw = ledger.process(withdraw(1, 4, 125111));
    assert!(withdraw.is_ok());

    let account = ledger.find_account(1);
    assert!(account.is_some());
    assert_eq!(
        account.unwrap(),
        Account {
            client: 1,
            available: 54889,
            held: 0,
            total: 54889,
            locked: false,
        }
    );
}

#[test]
fn test_withdraw_account_not_found() {
    let mut ledger = build_ledger();
    let result = ledger.process(withdraw(2, 4, units(2)));
    assert_eq!(result, Err(Error::AccountNotFound));
}

#[test]
fn test_withdraw_insufficient_funds() {
    let mut ledger = build_ledger();
    let result = ledger.process(withdraw(1, 4, 185111));
    assert_eq!(
        result,
        Err(Error::InsufficientFunds {
            available: units(18)
        })
    );

    // make sure the account hasn't changed
    let account = ledger.find_account(1);
    assert!(account.is_some());
    assert_eq!(
        account.unwrap(),
        Account {
            client: 1,
            available: units(18),
            held: 0,
            total: units(18),
            locked: false,
        }
    );
}

#[test]
fn test_withdraw_invalid_amount() {
    let mut ledger = build_ledger();

    // Withdrawing nothing
    let result = ledger.process(withdraw(1, 3, 0));
    assert_eq!(result, Err(Error::InvalidAmount));

    // Withdrawing negative
    let result = ledger.process(withdraw(1, 3, -15000));
    assert_eq!(result, Err(Error::InvalidAmount));

    // make sure the account hasn't changed
    let account = ledger.find_account(1);
    assert!(account.is_some());
    assert_eq!(
        account.unwrap(),
        Account {
            client: 1,
            available: units(18),
            held: 0,
            total: units(18),
            locked: false,
        }
    );
}

#[test]
fn test_dispute_success() {
    let mut ledger = build_ledger();
    let dispute = ledger.process(dispute(1, 1));
    assert!(dispute.is_ok());
    assert_eq!(ledger.find_transaction(1).unwrap().state, State::Disputed);

    let account = ledger.find_account(1);
    assert!(account.is_some());
    assert_eq!(
        account.unwrap(),
        Account {
            client: 1,
            available: 0,
            held: units(18),
            total: units(18),
            locked: false,
        }
    );
}

#[test]
fn test_dispute_invalid_transaction() {
    let mut ledger = build_ledger();
    let withdrawal = ledger.process(withdraw(1, 2, units(10)));
    assert!(withdrawal.is_ok());
    let dispute1 = ledger.process(dispute(1, 1));
    assert!(dispute1.is_ok());

    // dispute on a withdrawal
    match ledger.process(dispute(1, 2)) {
        Err(Error::InvalidTransactionState { .. }) => {}
        r => panic!("expected InvalidTransactionState error, got {:?}", r),
    }

    // dispute on an already disputed transaction
    match ledger.process(dispute(1, 1)) {
        Err(Error::InvalidTransactionState { .. }) => {}
        r => panic!("expected InvalidTransactionState error, got {:?}", r),
    }

    // verify the state of the account
    let account = ledger.find_account(1);
    assert!(account.is_some());
    assert_eq!(
        account.unwrap(),
        Account {
            client: 1,
            available: units(-10),
            held: units(18),
            total: units(8),
            locked: false,
        }
    );
}

#[test]
fn test_dispute_account_not_found() {
    let mut ledger = build_ledger();
    let result = ledger.process(dispute(2, 1));
    assert_eq!(result, Err(Error::AccountNotFound));
}

#[test]
fn test_dispute_transaction_not_found() {
    let mut ledger = build_ledger();
    let result = ledger.process(dispute(1, 2));
    assert_eq!(result, Err(Error::TransactionNotFound));
}

#[test]
fn test_dispute_mismatched_client() {
    let mut ledger = build_ledger();
    let deposit2 = ledger.process(deposit(2, 2, units(10)));
    assert!(deposit2.is_ok());
    let result = ledger.process(dispute(2, 1));
    assert_eq!(result, Err(Error::MismatchedClient));
}

#[test]
fn test_resolve_success() {
    let mut ledger = build_ledger();
    let dispute = ledger.process(dispute(1, 1));
    assert!(dispute.is_ok());
    let resolve = ledger.process(resolve(1, 1));
    assert!(resolve.is_ok());

    // make sure the transaction went back to the processed state
    assert_eq!(ledger.find_transaction(1).unwrap().state, State::Processed);

    let account = ledger.find_account(1);
    assert!(account.is_some());
    assert_eq!(
        account.unwrap(),
        Account {
            client: 1,
            available: units(18),
            held: 0,
            total: units(18),
            locked: false,
        }
    );
}

#[test]
fn test_resolve_invalid_transaction() {
    let mut ledger = build_ledger();
    let withdrawal = ledger.process(withdraw(1, 2, units(10)));
    assert!(withdrawal.is_ok());

    // resolve on a withdrawal
    match ledger.process(resolve(1, 2)) {
        Err(Error::InvalidTransactionState { .. }) => {}
        r => panic!("expected InvalidTransactionState error, got {:?}", r),
    }

    // resolve on an undisputed transaction
    match ledger.process(resolve(1, 1)) {
        Err(Error::InvalidTransactionState { .. }) => {}
        r => panic!("expected InvalidTransactionState error, got {:?}", r),
    }

    // verify the state of the account
    let account = ledger.find_account(1);
    assert!(account.is_some());
    assert_eq!(
        account.unwrap(),
        Account {
            client: 1,
            available: units(8),
            held: units(0),
            total: units(8),
            locked: false,
        }
    );
}

#[test]
fn test_resolve_account_not_found() {
    let mut ledger = build_ledger();
    let result = ledger.process(resolve(2, 1));
    assert_eq!(result, Err(Error::AccountNotFound));
}

#[test]
fn test_resolve_transaction_not_found() {
    let mut ledger = build_ledger();
    let result = ledger.process(resolve(1, 2));
    assert_eq!(result, Err(Error::TransactionNotFound));
}

#[test]
fn test_resolve_mismatched_client() {
    let mut ledger = build_ledger();
    let deposit2 = ledger.process(deposit(2, 2, units(10)));
    assert!(deposit2.is_ok());
    let dispute = ledger.process(dispute(2, 2));
    assert!(dispute.is_ok());
    let result = ledger.process(resolve(1, 2));
    assert_eq!(result, Err(Error::MismatchedClient));
}

#[test]
fn test_chargeback_success() {
    let mut ledger = build_ledger();
    let dispute = ledger.process(dispute(1, 1));
    assert!(dispute.is_ok());
    let chargeback = ledger.process(chargeback(1, 1));
    assert!(chargeback.is_ok());

    // make sure the transaction went to the chargebacked state
    assert_eq!(ledger.find_transaction(1).unwrap().state, State::Chargeback);

    let account = ledger.find_account(1);
    assert!(account.is_some());
    assert_eq!(
        account.unwrap(),
        Account {
            client: 1,
            available: 0,
            held: 0,
            total: 0,
            locked: true,
        }
    );
}

#[test]
fn test_chargeback_invalid_transaction() {
    let mut ledger = build_ledger();
    let withdrawal = ledger.process(withdraw(1, 2, units(10)));
    assert!(withdrawal.is_ok());

    // chargeback on a withdrawal
    match ledger.process(chargeback(1, 2)) {
        Err(Error::InvalidTransactionState { .. }) => {}
        r => panic!("expected InvalidTransactionState error, got {:?}", r),
    }

    // chargeback on an undisputed transaction
    match ledger.process(chargeback(1, 1)) {
        Err(Error::InvalidTransactionState { .. }) => {}
        r => panic!("expected InvalidTransactionState error, got {:?}", r),
    }

    // verify the state of the account
    let account = ledger.find_account(1);
    assert!(account.is_some());
    assert_eq!(
        account.unwrap(),
        Account {
            client: 1,
            available: units(8),
            held: units(0),
            total: units(8),
            locked: false,
        }
    );
}

#[test]
fn test_chargeback_account_not_found() {
    let mut ledger = build_ledger();
    let result = ledger.process(chargeback(2, 1));
    assert_eq!(result, Err(Error::AccountNotFound));
}

#[test]
fn test_chargeback_transaction_not_found() {
    let mut ledger = build_ledger();
    let result = ledger.process(chargeback(1, 2));
    assert_eq!(result, Err(Error::TransactionNotFound));
}

#[test]
fn test_chargeback_mismatched_client() {
    let mut ledger = build_ledger();
    let deposit2 = ledger.process(deposit(2, 2, units(10)));
    assert!(deposit2.is_ok());
    let dispute = ledger.process(dispute(2, 2));
    assert!(dispute.is_ok());
    let result = ledger.process(chargeback(1, 2));
    assert_eq!(result, Err(Error::MismatchedClient));
}

#[test]
fn test_locked_account() {
    let mut ledger = build_ledger();
    let deposit2 = ledger.process(deposit(1, 2, units(10)));
    assert!(deposit2.is_ok());
    let deposit3 = ledger.process(deposit(1, 3, units(100)));
    assert!(deposit3.is_ok());
    let dispute3 = ledger.process(dispute(1, 3));
    assert!(dispute3.is_ok());

    let dispute1 = ledger.process(dispute(1, 1));
    assert!(dispute1.is_ok());
    let chargeback1 = ledger.process(chargeback(1, 1));
    assert!(chargeback1.is_ok());

    // Deposits and withdrawals should be blocked
    assert_eq!(
        ledger.process(deposit(1, 5, units(13))),
        Err(Error::AccountLocked)
    );
    assert_eq!(
        ledger.process(withdraw(1, 2, units(1))),
        Err(Error::AccountLocked)
    );

    // Future disputes and chargebacks will continue to be monitored for our
    // balance sheet
    assert!(ledger.process(dispute(1, 2)).is_ok());
    assert!(ledger.process(resolve(1, 3)).is_ok());
    assert!(ledger.process(chargeback(1, 2)).is_ok());

    // Deposit 18, 10, 100
    // 18 is disputed + charged back
    // 10 is disputed + charged back
    // 100 is disputed + resolved
    let account = ledger.find_account(1);
    assert!(account.is_some());
    assert_eq!(
        account.unwrap(),
        Account {
            client: 1,
            available: units(100),
            held: 0,
            total: units(100),
            locked: true,
        }
    );
}

#[test]
fn test_unknown_transaction() {
    let mut ledger = build_ledger();
    let result = ledger.process(Transaction::Unknown {
        client_id: 5,
        tx_id: 10,
        amount: 15000,
    });
    assert_eq!(result, Err(Error::UnknownTransactionType));
}
