use vstd::prelude::*;

use crate::indexer::error::CheckpointError;

verus! {

/// In-memory checkpoint for tests: the highest confirmed block height whose
/// events were already emitted, held in a field and lost on drop.
#[derive(Debug, Clone, Copy)]
pub struct InMemoryCheckpoint {
    height: Option<u64>,
}

impl InMemoryCheckpoint {
    /// The recorded height, if any.
    pub closed spec fn height_spec(self) -> Option<u64> {
        self.height
    }

    /// A cold checkpoint: nothing processed yet.
    pub fn new() -> (c: InMemoryCheckpoint)
        ensures
            c.height_spec() == None::<u64>,
    {
        InMemoryCheckpoint { height: None }
    }

    /// A warm checkpoint, as if a prior run had confirmed through `height`.
    pub fn at(height: u64) -> (c: InMemoryCheckpoint)
        ensures
            c.height_spec() == Some(height),
    {
        InMemoryCheckpoint { height: Some(height) }
    }

    /// The height to resume past, or `None` on a cold start.
    pub fn load(&self) -> (r: Result<Option<u64>, CheckpointError>)
        ensures
            r == Ok::<Option<u64>, CheckpointError>(self.height_spec()),
    {
        Ok(self.height)
    }

    /// Records `height` as confirmed-and-emitted.
    pub fn save(&mut self, height: u64) -> (r: Result<(), CheckpointError>)
        ensures
            final(self).height_spec() == Some(height),
            r is Ok,
    {
        self.height = Some(height);
        Ok(())
    }
}

impl Default for InMemoryCheckpoint {
    fn default() -> (c: Self)
        ensures
            c.height_spec() == None::<u64>,
    {
        InMemoryCheckpoint::new()
    }
}

/// A checkpoint that persists nothing: always cold, every save a no-op.
#[derive(Debug, Default, Clone, Copy)]
pub struct NoCheckpoint;

impl NoCheckpoint {
    /// Always a cold start.
    pub fn load(&self) -> (r: Result<Option<u64>, CheckpointError>)
        ensures
            r == Ok::<Option<u64>, CheckpointError>(None),
    {
        Ok(None)
    }

    /// Records nothing.
    pub fn save(&mut self, height: u64) -> (r: Result<(), CheckpointError>)
        ensures
            r is Ok,
    {
        Ok(())
    }
}

} // verus!
