//! The data model: identifiers, transactions, stored deposits and output rows.
//!
//! Monetary values are `i128` counts of minor units. The I/O adapter converts
//! between decimal notation and minor units; the engine never sees a decimal.

use vstd::prelude::*;

verus! {

/// Upper bound on the amount of a single deposit, in minor units.
///
/// Together with the engine's invariants this keeps every balance, and every
/// intermediate sum the engine computes, inside the range of `i128`, however
/// long the transaction stream runs.
pub const AMOUNT_LIMIT: i128 = 0x4000_0000_0000_0000;

/// A 16-bit client identifier, externally supplied, never pre-registered.
#[derive(Debug, Hash, PartialEq, Eq, Clone, Copy, Structural)]
pub struct ClientID(pub u16);

/// A 32-bit transaction identifier, globally unique across all transaction
/// types; uniqueness is enforced by the input, not re-checked by the engine.
#[derive(Debug, Hash, PartialEq, Eq, Clone, Copy, Structural)]
pub struct TransactionID(pub u32);

/// The dispute lifecycle of a recorded deposit.
///
/// A chargeback is terminal: once a deposit is charged back, no further
/// dispute-chain transaction may reference it, so the flag is three-valued
/// rather than the boolean a first draft might choose.
#[derive(Debug, PartialEq, Eq, Clone, Copy, Structural)]
pub enum DisputeStatus {
    /// No open dispute; a dispute may be filed.
    Undisputed,
    /// A dispute is open; a resolve or chargeback may settle it.
    Disputed,
    /// Settled by chargeback; terminal.
    ChargedBack,
}

/// The record of a successfully applied deposit, kept so that a later
/// dispute, resolve or chargeback can reference it. Withdrawals are never
/// recorded: they are not disputable.
#[derive(Debug, PartialEq, Eq, Clone, Copy, Structural)]
pub struct Deposit {
    pub client_id: ClientID,
    pub value: i128,
    pub status: DisputeStatus,
}

/// One incoming transaction. Only deposits and withdrawals carry an amount;
/// the dispute-chain transactions reference a prior deposit by identifier.
#[derive(Debug, PartialEq, Eq, Clone, Copy, Structural)]
pub enum Transaction {
    Deposit { client_id: ClientID, tx_id: TransactionID, amount: i128 },
    Withdrawal { client_id: ClientID, tx_id: TransactionID, amount: i128 },
    Dispute { client_id: ClientID, tx_id: TransactionID },
    Resolve { client_id: ClientID, tx_id: TransactionID },
    Chargeback { client_id: ClientID, tx_id: TransactionID },
}

impl Transaction {
    /// The client a transaction targets.
    pub open spec fn spec_client_id(self) -> ClientID {
        match self {
            Transaction::Deposit { client_id, .. } => client_id,
            Transaction::Withdrawal { client_id, .. } => client_id,
            Transaction::Dispute { client_id, .. } => client_id,
            Transaction::Resolve { client_id, .. } => client_id,
            Transaction::Chargeback { client_id, .. } => client_id,
        }
    }

    /// The transaction identifier it carries.
    pub open spec fn spec_tx_id(self) -> TransactionID {
        match self {
            Transaction::Deposit { tx_id, .. } => tx_id,
            Transaction::Withdrawal { tx_id, .. } => tx_id,
            Transaction::Dispute { tx_id, .. } => tx_id,
            Transaction::Resolve { tx_id, .. } => tx_id,
            Transaction::Chargeback { tx_id, .. } => tx_id,
        }
    }

    /// The amount bounds the input boundary has already validated: amounts
    /// are non-negative, and a deposit fits under [`AMOUNT_LIMIT`].
    pub open spec fn valid_amounts(self) -> bool {
        match self {
            Transaction::Deposit { amount, .. } => 0 <= amount <= AMOUNT_LIMIT,
            Transaction::Withdrawal { amount, .. } => 0 <= amount,
            _ => true,
        }
    }
}

/// A raw input row, after the tabular format has been read but before the
/// row has been understood as a transaction. `kind` is the row's type tag;
/// `amount` is optional because dispute-chain rows leave it empty.
#[derive(Debug, Clone)]
pub struct TransactionRecord {
    pub kind: String,
    pub client_id: ClientID,
    pub tx_id: TransactionID,
    pub amount: Option<i128>,
}

/// Why a raw row could not be understood as a transaction.
#[derive(Debug, PartialEq, Eq, Clone, Copy, Structural)]
pub enum RecordError {
    /// A deposit or withdrawal row without an amount.
    MissingAmount,
    /// A type tag that names no transaction type.
    UnknownKind,
}

/// What [`Transaction::from_record`] returns, decided by the row's type tag.
pub open spec fn spec_from_record(record: TransactionRecord) -> Result<Transaction, RecordError> {
    if record.kind@ == "deposit"@ {
        match record.amount {
            Some(amount) => Ok(
                Transaction::Deposit { client_id: record.client_id, tx_id: record.tx_id, amount },
            ),
            None => Err(RecordError::MissingAmount),
        }
    } else if record.kind@ == "withdrawal"@ {
        match record.amount {
            Some(amount) => Ok(
                Transaction::Withdrawal {
                    client_id: record.client_id,
                    tx_id: record.tx_id,
                    amount,
                },
            ),
            None => Err(RecordError::MissingAmount),
        }
    } else if record.kind@ == "dispute"@ {
        Ok(Transaction::Dispute { client_id: record.client_id, tx_id: record.tx_id })
    } else if record.kind@ == "resolve"@ {
        Ok(Transaction::Resolve { client_id: record.client_id, tx_id: record.tx_id })
    } else if record.kind@ == "chargeback"@ {
        Ok(Transaction::Chargeback { client_id: record.client_id, tx_id: record.tx_id })
    } else {
        Err(RecordError::UnknownKind)
    }
}

impl Transaction {
    /// Reads a raw row as a transaction.
    ///
    /// Deposit and withdrawal rows must carry an amount; dispute-chain rows
    /// may carry one, which is ignored. A row whose type tag names no
    /// transaction type is rejected.
    pub fn from_record(record: &TransactionRecord) -> (r: Result<Transaction, RecordError>)
        ensures
            r == spec_from_record(*record),
    {
        if record.kind == "deposit".to_owned() {
            match record.amount {
                Some(amount) => Ok(
                    Transaction::Deposit {
                        client_id: record.client_id,
                        tx_id: record.tx_id,
                        amount,
                    },
                ),
                None => Err(RecordError::MissingAmount),
            }
        } else if record.kind == "withdrawal".to_owned() {
            match record.amount {
                Some(amount) => Ok(
                    Transaction::Withdrawal {
                        client_id: record.client_id,
                        tx_id: record.tx_id,
                        amount,
                    },
                ),
                None => Err(RecordError::MissingAmount),
            }
        } else if record.kind == "dispute".to_owned() {
            Ok(Transaction::Dispute { client_id: record.client_id, tx_id: record.tx_id })
        } else if record.kind == "resolve".to_owned() {
            Ok(Transaction::Resolve { client_id: record.client_id, tx_id: record.tx_id })
        } else if record.kind == "chargeback".to_owned() {
            Ok(Transaction::Chargeback { client_id: record.client_id, tx_id: record.tx_id })
        } else {
            Err(RecordError::UnknownKind)
        }
    }
}

/// One output row: a client's final state, with `available` computed as
/// `total - held`, never stored.
#[derive(Debug, PartialEq, Eq, Clone, Copy, Structural)]
pub struct ClientOutput {
    pub client: ClientID,
    pub available: i128,
    pub held: i128,
    pub total: i128,
    pub locked: bool,
}

} // verus!
