//! The glue that reconciles on-chain events against the ledger: on-chain
//! `U256` base units become ledger `i128` minor units here and nowhere else.
pub mod error;
pub mod format;
pub mod laws;
pub mod reconcile;

pub use error::ReconError;
pub use reconcile::{account_of, asset_of, event_to_transaction, idempotency_key};
