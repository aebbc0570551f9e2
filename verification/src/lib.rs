//! A ledger state machine for a stream of financial transactions.
//!
//! Deposits, withdrawals, disputes, resolves and chargebacks arrive one at a
//! time, keyed by client and transaction identifiers; the engine applies each
//! against per-client account state and a store of past deposits, and produces
//! final account snapshots. Amounts are integers in minor units; the I/O
//! adapter that parses and prints decimal notation lives outside this crate.

pub mod bank_engine;
pub mod client;
pub mod errors;
pub mod laws;
pub mod ledger;
pub mod models;
