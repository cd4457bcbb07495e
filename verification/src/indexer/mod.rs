//! The decision logic of a reliable on-chain indexer: it follows a chain for
//! confirmed ERC-20 transfers, survives reorgs and resumes from a checkpoint.
pub mod checkpoint;
pub mod error;
pub mod event;
pub mod poller;
pub mod primitives;
pub mod retry;
pub mod source;
pub mod tracker;

pub use checkpoint::{InMemoryCheckpoint, NoCheckpoint};
pub use error::{CheckpointError, PollerError, SourceError};
pub use event::ChainEvent;
pub use poller::{IndexerMessage, PollReply, PollRequest, PollStep, Poller};
pub use primitives::{Address, B256, U256};
pub use retry::{Delay, RetryPolicy, RetryingSource};
pub use source::{DEFAULT_MAX_BLOCK_SPAN, DecodedTransfer, block_windows, log_to_event};
pub use tracker::{BlockRef, Tracker, TrackerUpdate};
