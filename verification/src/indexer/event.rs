use vstd::prelude::*;

use crate::indexer::primitives::{Address, B256, U256};

verus! {

/// A single confirmed ERC-20 `Transfer`, as the indexer hands it to the outside
/// world. It carries on-chain values verbatim: amounts stay as [`U256`] base
/// units and are converted to ledger minor units only downstream.
///
/// `tx_hash` together with `log_index` uniquely identifies the log within the
/// chain, which is what later makes delivery idempotent.
#[derive(Debug, Clone, Copy)]
pub struct ChainEvent {
    /// Address of the token contract that emitted the `Transfer`.
    pub token: Address,
    pub from: Address,
    pub to: Address,
    /// Transferred amount in the token's base units.
    pub value: U256,
    pub block_number: u64,
    pub tx_hash: B256,
    /// Index of this log within its block; unique per block alongside `tx_hash`.
    pub log_index: u64,
}

impl ChainEvent {
    /// Whether two events carry identical fields.
    pub fn same_as(&self, other: &ChainEvent) -> (r: bool)
        ensures
            r == (*self == *other),
    {
        let r = self.token.same_as(&other.token) && self.from.same_as(&other.from) && self.to.same_as(
            &other.to,
        ) && self.value.same_as(&other.value) && self.block_number == other.block_number
            && self.tx_hash.same_as(&other.tx_hash) && self.log_index == other.log_index;
        proof {
            if r {
                assert(self.token.0 == other.token.0);
                assert(self.from.0 == other.from.0);
                assert(self.to.0 == other.to.0);
                assert(self.value.0 == other.value.0);
                assert(self.tx_hash.0 == other.tx_hash.0);
            }
        }
        r
    }
}

impl PartialEq for ChainEvent {
    fn eq(&self, other: &Self) -> (r: bool) {
        self.same_as(other)
    }
}

impl vstd::std_specs::cmp::PartialEqSpecImpl for ChainEvent {
    open spec fn obeys_eq_spec() -> bool {
        true
    }

    open spec fn eq_spec(&self, other: &Self) -> bool {
        *self == *other
    }
}

impl Eq for ChainEvent {}

} // verus!
