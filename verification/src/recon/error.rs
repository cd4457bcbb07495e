use vstd::prelude::*;

use crate::ledger::error::LedgerError;

verus! {

/// Anything that can go wrong while turning a chain event into a ledger entry.
#[derive(Debug)]
pub enum ReconError {
    /// The on-chain `U256` amount does not fit into the ledger's `i128`; the
    /// amount in decimal.
    AmountOverflow(String),
    /// The derived transaction was rejected by the ledger (e.g. unbalanced).
    Ledger(LedgerError),
}

impl From<LedgerError> for ReconError {
    fn from(e: LedgerError) -> (r: ReconError) {
        ReconError::Ledger(e)
    }
}

impl vstd::std_specs::convert::FromSpecImpl<LedgerError> for ReconError {
    open spec fn obeys_from_spec() -> bool {
        true
    }

    open spec fn from_spec(e: LedgerError) -> ReconError {
        ReconError::Ledger(e)
    }
}

} // verus!
