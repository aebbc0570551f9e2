//! The mathematical model of the engine: a ledger of account states and
//! deposit records, and the one-step transition that a transaction makes.
//!
//! [`spec_step`] is the whole state machine in one place. The executable
//! engine's contract says that applying a transaction computes exactly
//! `spec_step` of the engine's view, and the laws in [`crate::laws`] are
//! proved of `spec_step` alone.

use vstd::prelude::*;

use crate::client::Client;
use crate::errors::{AccountError, PaymentError};
use crate::models::{ClientID, Deposit, DisputeStatus, Transaction, TransactionID};

verus! {

/// One client's state in the model: unbounded integers, so the model itself
/// has no overflow.
pub struct AccountState {
    pub held: int,
    pub total: int,
    pub locked: bool,
}

impl AccountState {
    /// The funds a client may withdraw.
    pub open spec fn available(self) -> int {
        self.total - self.held
    }

    /// A fresh account, created lazily on first reference.
    pub open spec fn new() -> AccountState {
        AccountState { held: 0, total: 0, locked: false }
    }
}

impl Client {
    /// The model state of an executable client value.
    pub open spec fn as_state(self) -> AccountState {
        AccountState { held: self.held as int, total: self.total as int, locked: self.locked }
    }
}

/// One recorded deposit in the model.
pub struct DepositState {
    pub client: u16,
    pub value: int,
    pub status: DisputeStatus,
}

impl Deposit {
    /// The model state of an executable deposit record.
    pub open spec fn as_state(self) -> DepositState {
        DepositState {
            client: self.client_id.0,
            value: self.value as int,
            status: self.status,
        }
    }
}

/// The whole model state: every known client, and every recorded deposit
/// keyed by its transaction identifier.
#[verifier::ext_equal]
pub struct Ledger {
    pub accounts: Map<u16, AccountState>,
    pub deposits: Map<u32, DepositState>,
}

impl Ledger {
    /// The ledger before any transaction.
    pub open spec fn empty() -> Ledger {
        Ledger { accounts: Map::empty(), deposits: Map::empty() }
    }

    /// The state of a client, counting an unknown client as a fresh one with
    /// zero balances — exactly what lazy creation would produce.
    pub open spec fn account_or_new(self, client: u16) -> AccountState {
        if self.accounts.dom().contains(client) {
            self.accounts[client]
        } else {
            AccountState::new()
        }
    }
}

/// The shared lookup of the dispute-chain transactions: the lock gate, then
/// the deposit record, then the owner check.
///
/// The lock gate applies to every transaction type: a locked account can no
/// longer dispute, resolve or charge back either, not only deposit and
/// withdraw.
pub open spec fn spec_dispute_lookup(
    l: Ledger,
    client_id: ClientID,
    tx_id: TransactionID,
) -> Result<DepositState, PaymentError> {
    if l.account_or_new(client_id.0).locked {
        Err(PaymentError::AccountLocked(client_id))
    } else if !l.deposits.dom().contains(tx_id.0) {
        Err(
            PaymentError::TransactionFailed {
                tx_id,
                client_id,
                source: AccountError::MissingTransaction,
            },
        )
    } else if l.deposits[tx_id.0].client != client_id.0 {
        Err(
            PaymentError::TransactionFailed {
                tx_id,
                client_id,
                source: AccountError::IncorrectTransactionId,
            },
        )
    } else {
        Ok(l.deposits[tx_id.0])
    }
}

/// What one transaction does to the ledger: the new ledger and the outcome.
///
/// Every failure leaves the ledger exactly as it was — no partial mutation,
/// and no account is created by a failed transaction.
pub open spec fn spec_step(l: Ledger, t: Transaction) -> (Ledger, Result<(), PaymentError>) {
    match t {
        Transaction::Deposit { client_id, tx_id, amount } => {
            let acc = l.account_or_new(client_id.0);
            if acc.locked {
                (l, Err(PaymentError::AccountLocked(client_id)))
            } else {
                let acc2 = AccountState { held: acc.held, total: acc.total + amount, locked: acc.locked };
                let dep = DepositState {
                    client: client_id.0,
                    value: amount as int,
                    status: DisputeStatus::Undisputed,
                };
                (
                    Ledger {
                        accounts: l.accounts.insert(client_id.0, acc2),
                        deposits: l.deposits.insert(tx_id.0, dep),
                    },
                    Ok(()),
                )
            }
        },
        Transaction::Withdrawal { client_id, tx_id, amount } => {
            let acc = l.account_or_new(client_id.0);
            if acc.locked {
                (l, Err(PaymentError::AccountLocked(client_id)))
            } else if acc.available() >= amount {
                let acc2 = AccountState { held: acc.held, total: acc.total - amount, locked: acc.locked };
                (Ledger { accounts: l.accounts.insert(client_id.0, acc2), deposits: l.deposits }, Ok(()))
            } else {
                (
                    l,
                    Err(
                        PaymentError::TransactionFailed {
                            tx_id,
                            client_id,
                            source: AccountError::InsufficientFunds,
                        },
                    ),
                )
            }
        },
        Transaction::Dispute { client_id, tx_id } => {
            match spec_dispute_lookup(l, client_id, tx_id) {
                Err(e) => (l, Err(e)),
                Ok(dep) => {
                    if !(dep.status is Undisputed) {
                        (
                            l,
                            Err(
                                PaymentError::DisputeFailed {
                                    tx_id,
                                    client_id,
                                    source: AccountError::AlreadyDisputed,
                                },
                            ),
                        )
                    } else {
                        let acc = l.account_or_new(client_id.0);
                        let acc2 = AccountState {
                            held: acc.held + dep.value,
                            total: acc.total,
                            locked: acc.locked,
                        };
                        let dep2 = DepositState {
                            client: dep.client,
                            value: dep.value,
                            status: DisputeStatus::Disputed,
                        };
                        (
                            Ledger {
                                accounts: l.accounts.insert(client_id.0, acc2),
                                deposits: l.deposits.insert(tx_id.0, dep2),
                            },
                            Ok(()),
                        )
                    }
                },
            }
        },
        Transaction::Resolve { client_id, tx_id } => {
            match spec_dispute_lookup(l, client_id, tx_id) {
                Err(e) => (l, Err(e)),
                Ok(dep) => {
                    if !(dep.status is Disputed) {
                        (
                            l,
                            Err(
                                PaymentError::ResolveFailed {
                                    tx_id,
                                    client_id,
                                    source: AccountError::NotDisputed,
                                },
                            ),
                        )
                    } else {
                        let acc = l.account_or_new(client_id.0);
                        let acc2 = AccountState {
                            held: acc.held - dep.value,
                            total: acc.total,
                            locked: acc.locked,
                        };
                        let dep2 = DepositState {
                            client: dep.client,
                            value: dep.value,
                            status: DisputeStatus::Undisputed,
                        };
                        (
                            Ledger {
                                accounts: l.accounts.insert(client_id.0, acc2),
                                deposits: l.deposits.insert(tx_id.0, dep2),
                            },
                            Ok(()),
                        )
                    }
                },
            }
        },
        Transaction::Chargeback { client_id, tx_id } => {
            match spec_dispute_lookup(l, client_id, tx_id) {
                Err(e) => (l, Err(e)),
                Ok(dep) => {
                    if !(dep.status is Disputed) {
                        (
                            l,
                            Err(
                                PaymentError::ResolveFailed {
                                    tx_id,
                                    client_id,
                                    source: AccountError::NotDisputed,
                                },
                            ),
                        )
                    } else {
                        let acc = l.account_or_new(client_id.0);
                        let acc2 = AccountState {
                            held: acc.held - dep.value,
                            total: acc.total - dep.value,
                            locked: true,
                        };
                        let dep2 = DepositState {
                            client: dep.client,
                            value: dep.value,
                            status: DisputeStatus::ChargedBack,
                        };
                        (
                            Ledger {
                                accounts: l.accounts.insert(client_id.0, acc2),
                                deposits: l.deposits.insert(tx_id.0, dep2),
                            },
                            Ok(()),
                        )
                    }
                },
            }
        },
    }
}

/// The ledger after one transaction.
pub open spec fn spec_apply(l: Ledger, t: Transaction) -> Ledger {
    spec_step(l, t).0
}

/// The outcome of one transaction.
pub open spec fn spec_outcome(l: Ledger, t: Transaction) -> Result<(), PaymentError> {
    spec_step(l, t).1
}

} // verus!
