use vstd::prelude::*;

use crate::ledger::account::{AccountId, Asset};

verus! {

/// Anything that can go wrong inside the ledger core.
#[derive(Debug)]
pub enum LedgerError {
    /// A transaction's postings do not sum to zero for this asset.
    NotBalanced(Asset),
    /// A transaction was created with no postings.
    EmptyTransaction,
    /// A sum or a negation left the `i128` range for this account and asset.
    Overflow { account: AccountId, asset: Asset },
    /// An idempotency key was reused with a different transaction body.
    IdempotencyConflict { key: String },
}

} // verus!
