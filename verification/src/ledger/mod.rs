//! A pure, storage-agnostic double-entry ledger.
//!
//! Core invariant: every transaction balances to zero per asset
//! (`Σ debits == Σ credits`).
pub mod account;
pub mod balance;
pub mod error;
pub mod laws;
pub mod posting;
pub mod store;
pub mod transaction;

pub use account::{AccountId, Asset};
pub use balance::balance_of;
pub use error::LedgerError;
pub use posting::Posting;
pub use store::{InMemoryStore, LedgerStore};
pub use transaction::Transaction;
