//! Tests for reading raw input rows as transactions.

use payment_engine::models::{
    ClientID, RecordError, Transaction, TransactionID, TransactionRecord,
};

fn record(kind: &str, client: u16, tx: u32, amount: Option<i128>) -> TransactionRecord {
    TransactionRecord {
        kind: kind.to_owned(),
        client_id: ClientID(client),
        tx_id: TransactionID(tx),
        amount,
    }
}

#[test]
fn deposit_row_becomes_deposit() {
    let r = Transaction::from_record(&record("deposit", 1, 2, Some(100)));
    assert_eq!(
        r,
        Ok(Transaction::Deposit {
            client_id: ClientID(1),
            tx_id: TransactionID(2),
            amount: 100,
        })
    );
}

#[test]
fn withdrawal_row_becomes_withdrawal() {
    let r = Transaction::from_record(&record("withdrawal", 3, 4, Some(55)));
    assert_eq!(
        r,
        Ok(Transaction::Withdrawal {
            client_id: ClientID(3),
            tx_id: TransactionID(4),
            amount: 55,
        })
    );
}

#[test]
fn dispute_row_ignores_amount() {
    let r = Transaction::from_record(&record("dispute", 1, 2, Some(999)));
    assert_eq!(
        r,
        Ok(Transaction::Dispute { client_id: ClientID(1), tx_id: TransactionID(2) })
    );
    let r = Transaction::from_record(&record("dispute", 1, 2, None));
    assert_eq!(
        r,
        Ok(Transaction::Dispute { client_id: ClientID(1), tx_id: TransactionID(2) })
    );
}

#[test]
fn resolve_and_chargeback_rows() {
    assert_eq!(
        Transaction::from_record(&record("resolve", 5, 6, None)),
        Ok(Transaction::Resolve { client_id: ClientID(5), tx_id: TransactionID(6) })
    );
    assert_eq!(
        Transaction::from_record(&record("chargeback", 5, 6, None)),
        Ok(Transaction::Chargeback { client_id: ClientID(5), tx_id: TransactionID(6) })
    );
}

#[test]
fn missing_amount_is_rejected() {
    assert_eq!(
        Transaction::from_record(&record("deposit", 1, 2, None)),
        Err(RecordError::MissingAmount)
    );
    assert_eq!(
        Transaction::from_record(&record("withdrawal", 1, 2, None)),
        Err(RecordError::MissingAmount)
    );
}

#[test]
fn unknown_kind_is_rejected() {
    assert_eq!(
        Transaction::from_record(&record("transfer", 1, 2, Some(10))),
        Err(RecordError::UnknownKind)
    );
    assert_eq!(
        Transaction::from_record(&record("", 1, 2, None)),
        Err(RecordError::UnknownKind)
    );
    assert_eq!(
        Transaction::from_record(&record("Deposit", 1, 2, Some(10))),
        Err(RecordError::UnknownKind)
    );
}
