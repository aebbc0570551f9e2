//! Typed failures returned when a transaction is invalid given current state.
//!
//! Every error is local to the offending transaction: the engine rejects the
//! one transaction, leaves all state unchanged, and the stream driver is
//! expected to log and continue.

use vstd::prelude::*;

use crate::models::{ClientID, TransactionID};

verus! {

/// A business-rule violation found while applying a single transaction.
#[derive(Debug, PartialEq, Eq, Clone, Copy, Structural)]
pub enum AccountError {
    /// A withdrawal asked for more than `total - held`.
    InsufficientFunds,
    /// A dispute-chain transaction referenced a transaction identifier with
    /// no recorded deposit.
    MissingTransaction,
    /// A dispute referenced a deposit that already has an open or settled
    /// dispute.
    AlreadyDisputed,
    /// A resolve or chargeback referenced a deposit without an active
    /// dispute.
    NotDisputed,
    /// A dispute-chain transaction named a client that does not own the
    /// referenced deposit.
    IncorrectTransactionId,
}

/// The failure of one transaction, carrying the identifiers involved.
#[derive(Debug, PartialEq, Eq, Clone)]
pub enum PaymentError {
    /// A row of the input could not be read as a transaction at all.
    /// Produced by the I/O adapter, never by the engine itself.
    InvalidTransaction { row: usize, details: String },
    /// A deposit or withdrawal targeted an account that a chargeback has
    /// permanently locked.
    AccountLocked(ClientID),
    /// A deposit, withdrawal or dispute-chain lookup failed.
    TransactionFailed { tx_id: TransactionID, client_id: ClientID, source: AccountError },
    /// A dispute was rejected.
    DisputeFailed { tx_id: TransactionID, client_id: ClientID, source: AccountError },
    /// A resolve or chargeback was rejected.
    ResolveFailed { tx_id: TransactionID, client_id: ClientID, source: AccountError },
}

} // verus!
