//! A verified core for reconciling on-chain token transfers against a
//! double-entry ledger.
//!
//! * [`ledger`] — the double-entry journal: balanced transactions, derived
//!   balances, reversal and an idempotent append-only store.
//! * [`indexer`] — the pure decision logic of a reorg-aware chain indexer:
//!   confirmation tracking, block windows, retry policy and the poll state
//!   machine.
//! * [`recon`] — the mapping from a confirmed on-chain transfer to a ledger
//!   transaction and its idempotency key.
pub mod ledger;
pub mod indexer;
pub mod recon;
