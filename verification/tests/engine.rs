//! Engine-level tests: the ledger state machine applied to concrete streams.

use payment_engine::bank_engine::{BankEngine, InMemoryStore};
use payment_engine::client::Client;
use payment_engine::errors::{AccountError, PaymentError};
use payment_engine::models::{ClientID, ClientOutput, Transaction, TransactionID};

fn engine() -> BankEngine {
    BankEngine::new(InMemoryStore::new())
}

fn deposit(client: u16, tx: u32, amount: i128) -> Transaction {
    Transaction::Deposit {
        client_id: ClientID(client),
        tx_id: TransactionID(tx),
        amount,
    }
}

fn withdrawal(client: u16, tx: u32, amount: i128) -> Transaction {
    Transaction::Withdrawal {
        client_id: ClientID(client),
        tx_id: TransactionID(tx),
        amount,
    }
}

fn dispute(client: u16, tx: u32) -> Transaction {
    Transaction::Dispute { client_id: ClientID(client), tx_id: TransactionID(tx) }
}

fn resolve(client: u16, tx: u32) -> Transaction {
    Transaction::Resolve { client_id: ClientID(client), tx_id: TransactionID(tx) }
}

fn chargeback(client: u16, tx: u32) -> Transaction {
    Transaction::Chargeback { client_id: ClientID(client), tx_id: TransactionID(tx) }
}

fn row_for(rows: &[ClientOutput], client: u16) -> ClientOutput {
    *rows
        .iter()
        .find(|r| r.client == ClientID(client))
        .expect("no row for that client")
}

#[test]
fn test_resolve_logic() {
    let mut bank_engine = engine();

    let t1 = deposit(1, 1, 100);
    let t2 = dispute(1, 1);
    let t3 = resolve(1, 1);

    let _ = bank_engine.process_transaction(t1);
    let _ = bank_engine.process_transaction(t2);

    {
        let client = bank_engine.get_client(ClientID(1)).unwrap();
        let client_target = Client { held: 100, total: 100, locked: false };
        assert_eq!(client, client_target);
    }

    let _ = bank_engine.process_transaction(t3);

    let client = bank_engine.get_client(ClientID(1)).unwrap();
    let client_target = Client { held: 0, total: 100, locked: false };
    assert_eq!(client, client_target);
}

#[test]
fn test_basic_deposit_withdrawal() {
    let mut bank_engine = engine();

    bank_engine.process_transaction(deposit(1, 1, 10)).expect("Should not fail");
    bank_engine.process_transaction(deposit(2, 2, 20)).expect("Should not fail");
    bank_engine.process_transaction(withdrawal(1, 3, 5)).expect("Should not fail");
    let overdraft = bank_engine.process_transaction(withdrawal(2, 4, 30));
    assert!(overdraft.is_err());

    let rows = bank_engine.generate_output();

    let one = row_for(&rows, 1);
    assert_eq!((one.available, one.held, one.total, one.locked), (5, 0, 5, false));
    let two = row_for(&rows, 2);
    assert_eq!((two.available, two.held, two.total, two.locked), (20, 0, 20, false));
}

#[test]
fn test_dispute_and_chargeback() {
    let mut bank_engine = engine();

    bank_engine.process_transaction(deposit(1, 1, 100)).expect("Should not fail");
    bank_engine.process_transaction(dispute(1, 1)).expect("Should not fail");
    bank_engine.process_transaction(chargeback(1, 1)).expect("Should not fail");

    let rows = bank_engine.generate_output();
    let one = row_for(&rows, 1);
    assert_eq!((one.available, one.held, one.total, one.locked), (0, 0, 0, true));
}

#[test]
fn test_security_cross_client_dispute() {
    let mut bank_engine = engine();

    bank_engine.process_transaction(deposit(1, 1, 100)).unwrap();
    let r = bank_engine.process_transaction(dispute(2, 1));
    assert_eq!(
        r,
        Err(PaymentError::TransactionFailed {
            tx_id: TransactionID(1),
            client_id: ClientID(2),
            source: AccountError::IncorrectTransactionId,
        })
    );

    let rows = bank_engine.generate_output();
    let one = row_for(&rows, 1);
    assert_eq!((one.available, one.held, one.total, one.locked), (100, 0, 100, false));
}

#[test]
fn dispute_freezes_and_resolve_releases_exactly() {
    let mut e = engine();
    e.process_transaction(deposit(1, 1, 100)).unwrap();

    e.process_transaction(dispute(1, 1)).unwrap();
    let rows = e.generate_output();
    let one = row_for(&rows, 1);
    assert_eq!((one.held, one.total, one.available), (100, 100, 0));

    e.process_transaction(resolve(1, 1)).unwrap();
    let rows = e.generate_output();
    let one = row_for(&rows, 1);
    assert_eq!((one.held, one.total, one.available, one.locked), (0, 100, 100, false));
}

#[test]
fn rejected_withdrawal_leaves_state_unchanged() {
    let mut e = engine();
    e.process_transaction(deposit(1, 1, 100)).unwrap();
    e.process_transaction(dispute(1, 1)).unwrap();

    let before = e.generate_output();
    let r = e.process_transaction(withdrawal(1, 2, 1));
    assert_eq!(
        r,
        Err(PaymentError::TransactionFailed {
            tx_id: TransactionID(2),
            client_id: ClientID(1),
            source: AccountError::InsufficientFunds,
        })
    );
    let after = e.generate_output();
    assert_eq!(before, after);
}

#[test]
fn withdrawal_of_whole_available_balance_succeeds() {
    let mut e = engine();
    e.process_transaction(deposit(1, 1, 42)).unwrap();
    e.process_transaction(withdrawal(1, 2, 42)).unwrap();
    let one = row_for(&e.generate_output(), 1);
    assert_eq!((one.available, one.held, one.total), (0, 0, 0));
}

#[test]
fn locked_account_rejects_deposit_and_withdrawal() {
    let mut e = engine();
    e.process_transaction(deposit(1, 1, 100)).unwrap();
    e.process_transaction(dispute(1, 1)).unwrap();
    e.process_transaction(chargeback(1, 1)).unwrap();

    assert_eq!(
        e.process_transaction(deposit(1, 2, 5)),
        Err(PaymentError::AccountLocked(ClientID(1)))
    );
    assert_eq!(
        e.process_transaction(withdrawal(1, 3, 5)),
        Err(PaymentError::AccountLocked(ClientID(1)))
    );
    let one = row_for(&e.generate_output(), 1);
    assert_eq!((one.available, one.held, one.total, one.locked), (0, 0, 0, true));
}

#[test]
fn chargeback_is_terminal_for_the_deposit() {
    let mut e = engine();
    e.process_transaction(deposit(1, 1, 100)).unwrap();
    e.process_transaction(deposit(2, 2, 50)).unwrap();
    e.process_transaction(dispute(1, 1)).unwrap();
    e.process_transaction(chargeback(1, 1)).unwrap();

    // The account is locked, so the dispute chain is gated off entirely.
    assert_eq!(
        e.process_transaction(resolve(1, 1)),
        Err(PaymentError::AccountLocked(ClientID(1)))
    );
    assert_eq!(
        e.process_transaction(chargeback(1, 1)),
        Err(PaymentError::AccountLocked(ClientID(1)))
    );
}

#[test]
fn dispute_missing_transaction_fails() {
    let mut e = engine();
    e.process_transaction(deposit(1, 1, 10)).unwrap();
    assert_eq!(
        e.process_transaction(dispute(1, 99)),
        Err(PaymentError::TransactionFailed {
            tx_id: TransactionID(99),
            client_id: ClientID(1),
            source: AccountError::MissingTransaction,
        })
    );
    // A failed dispute creates no account either.
    assert!(e.get_client(ClientID(7)).is_none());
    let r = e.process_transaction(dispute(7, 99));
    assert!(r.is_err());
    assert!(e.get_client(ClientID(7)).is_none());
}

#[test]
fn double_dispute_fails_with_already_disputed() {
    let mut e = engine();
    e.process_transaction(deposit(1, 1, 10)).unwrap();
    e.process_transaction(dispute(1, 1)).unwrap();
    assert_eq!(
        e.process_transaction(dispute(1, 1)),
        Err(PaymentError::DisputeFailed {
            tx_id: TransactionID(1),
            client_id: ClientID(1),
            source: AccountError::AlreadyDisputed,
        })
    );
}

#[test]
fn resolve_without_dispute_fails_with_not_disputed() {
    let mut e = engine();
    e.process_transaction(deposit(1, 1, 10)).unwrap();
    assert_eq!(
        e.process_transaction(resolve(1, 1)),
        Err(PaymentError::ResolveFailed {
            tx_id: TransactionID(1),
            client_id: ClientID(1),
            source: AccountError::NotDisputed,
        })
    );
    assert_eq!(
        e.process_transaction(chargeback(1, 1)),
        Err(PaymentError::ResolveFailed {
            tx_id: TransactionID(1),
            client_id: ClientID(1),
            source: AccountError::NotDisputed,
        })
    );
}

#[test]
fn deposits_only_hold_nothing() {
    let mut e = engine();
    e.process_transaction(deposit(1, 1, 3)).unwrap();
    e.process_transaction(deposit(1, 2, 4)).unwrap();
    e.process_transaction(deposit(2, 3, 5)).unwrap();
    for row in e.generate_output() {
        assert_eq!(row.held, 0);
        assert_eq!(row.available, row.total);
        assert_eq!(row.total, row.held + row.available);
    }
}

#[test]
fn snapshot_twice_is_identical() {
    let mut e = engine();
    e.process_transaction(deposit(1, 1, 10)).unwrap();
    e.process_transaction(deposit(2, 2, 20)).unwrap();
    e.process_transaction(dispute(2, 2)).unwrap();
    let a = e.generate_output();
    let b = e.generate_output();
    assert_eq!(a, b);
}

#[test]
fn zero_amount_deposit_and_withdrawal() {
    let mut e = engine();
    e.process_transaction(deposit(1, 1, 0)).unwrap();
    e.process_transaction(withdrawal(1, 2, 0)).unwrap();
    let one = row_for(&e.generate_output(), 1);
    assert_eq!((one.available, one.held, one.total, one.locked), (0, 0, 0, false));
}

#[test]
fn contains_transaction_reports_recorded_deposits() {
    let mut e = engine();
    assert!(!e.contains_transaction(TransactionID(1)));
    e.process_transaction(deposit(1, 1, 10)).unwrap();
    assert!(e.contains_transaction(TransactionID(1)));
    // Withdrawals are never recorded: they are not disputable.
    e.process_transaction(withdrawal(1, 2, 5)).unwrap();
    assert!(!e.contains_transaction(TransactionID(2)));
}
