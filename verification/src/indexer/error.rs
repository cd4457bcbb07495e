use vstd::prelude::*;

verus! {

/// Anything that can go wrong while sourcing events from the chain.
#[derive(Debug)]
pub enum SourceError {
    /// The RPC URL could not be parsed.
    InvalidUrl(String),
    /// The RPC call (e.g. `eth_getLogs`) failed.
    Rpc(String),
    /// A returned log could not be decoded as a `Transfer`.
    Decode(String),
    /// A confirmed log is missing a field we require (block number, tx hash, ...).
    IncompleteLog(&'static str),
}

impl SourceError {
    /// Whether retrying the failed operation may succeed: only RPC failures
    /// are transient; a bad URL, an undecodable or incomplete log fail the
    /// same way every time.
    pub fn is_retryable(&self) -> (r: bool)
        ensures
            r == (self is Rpc),
    {
        match self {
            SourceError::Rpc(_) => true,
            _ => false,
        }
    }
}

/// Anything that can go wrong while loading or persisting the resume cursor.
#[derive(Debug)]
pub enum CheckpointError {
    /// The backing store (file, Postgres, ...) failed to read or write.
    Store(String),
}

/// The poller's combined failure domain: sourcing blocks from the chain, or
/// persisting how far it got.
#[derive(Debug)]
pub enum PollerError {
    Source(SourceError),
    Checkpoint(CheckpointError),
}

impl From<SourceError> for PollerError {
    fn from(e: SourceError) -> (r: PollerError) {
        PollerError::Source(e)
    }
}

impl vstd::std_specs::convert::FromSpecImpl<SourceError> for PollerError {
    open spec fn obeys_from_spec() -> bool {
        true
    }

    open spec fn from_spec(e: SourceError) -> PollerError {
        PollerError::Source(e)
    }
}

impl From<CheckpointError> for PollerError {
    fn from(e: CheckpointError) -> (r: PollerError) {
        PollerError::Checkpoint(e)
    }
}

impl vstd::std_specs::convert::FromSpecImpl<CheckpointError> for PollerError {
    open spec fn obeys_from_spec() -> bool {
        true
    }

    open spec fn from_spec(e: CheckpointError) -> PollerError {
        PollerError::Checkpoint(e)
    }
}

} // verus!
