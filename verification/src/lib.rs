//! A single-pass payments engine: an ordered stream of deposits, withdrawals,
//! disputes, resolutions and chargebacks is folded into one balance record per
//! client.
//!
//! Amounts are signed 64-bit counts of the smallest currency unit; the caller
//! chooses the unit. The engine keeps two collections side by side, the ledger
//! of accounts and the log of every record it has seen, and each record either
//! applies in full or is refused and changes neither.

pub mod accounts;
pub mod errors;
pub mod laws;
pub mod model;
pub mod processor;
pub mod transactions;

pub use accounts::{Account, Accounts};
pub use errors::MyErrors;
pub use model::Failure;
pub use processor::{
    chargeback, deposit, dispute, process_txn, process_txns, resolve, withdraw, Outcome,
};
pub use transactions::{Transaction, TransactionType, Transactions};
