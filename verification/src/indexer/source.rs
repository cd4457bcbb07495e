use vstd::prelude::*;

use crate::indexer::error::SourceError;
use crate::indexer::event::ChainEvent;
use crate::indexer::primitives::{Address, B256, U256};

verus! {

/// Default backfill window size. Conservative enough to clear the block-range
/// and result-count caps most public RPC providers enforce on `eth_getLogs`.
pub const DEFAULT_MAX_BLOCK_SPAN: u64 = 2000;

/// The windows that tile `[from, to]` in steps of `span` blocks (`span >= 1`),
/// in order; the last one may be short.
pub open spec fn windows_spec(from: u64, to: u64, span: u64) -> Seq<(u64, u64)>
    decreases to - from,
    when span >= 1
{
    if from > to {
        Seq::empty()
    } else {
        let end: u64 = if from + span - 1 < to {
            (from + span - 1) as u64
        } else {
            to
        };
        if end == to {
            seq![(from, to)]
        } else {
            seq![(from, end)] + windows_spec((end + 1) as u64, to, span)
        }
    }
}

/// The span actually used for `max_span`: at least one block.
pub open spec fn effective_span(max_span: u64) -> u64 {
    if max_span < 1 {
        1
    } else {
        max_span
    }
}

/// Splits the inclusive range `[from, to]` into consecutive non-overlapping
/// windows of at most `max_span` blocks each. Returns empty when `from > to`.
///
/// `max_span` is clamped to at least 1 to rule out a zero-width,
/// non-advancing window.
pub fn block_windows(from: u64, to: u64, max_span: u64) -> (r: Vec<(u64, u64)>)
    ensures
        r@ == windows_spec(from, to, effective_span(max_span)),
{
    let span = if max_span < 1 {
        1
    } else {
        max_span
    };
    let mut windows: Vec<(u64, u64)> = Vec::new();
    if from > to {
        return windows;
    }
    let mut start = from;
    loop
        invariant_except_break
            windows@ + windows_spec(start, to, span) == windows_spec(from, to, span),
        invariant
            span == effective_span(max_span),
            start <= to,
        ensures
            windows@ == windows_spec(from, to, span),
        decreases to - start,
    {
        // `span - 1` because the range is inclusive; saturating so a huge span
        // near u64::MAX cannot overflow past `to`.
        let sat = start.saturating_add(span - 1);
        let end = if sat < to {
            sat
        } else {
            to
        };
        windows.push((start, end));
        if end == to {
            assert(windows_spec(start, to, span) == seq![(start, to)]);
            assert(windows@ =~= windows_spec(from, to, span));
            break;
        }
        assert(windows_spec(start, to, span) == seq![(start, end)] + windows_spec(
            (end + 1) as u64,
            to,
            span,
        ));
        assert(windows@ + windows_spec((end + 1) as u64, to, span) =~= windows_spec(from, to, span));
        start = end + 1;
    }
    windows
}

/// The windows tile `[from, to]`: none when the range is empty; otherwise
/// the first starts at `from`, the last ends at `to`, each starts right after
/// the previous one ends, and each holds at most `span` blocks — exactly
/// `span`, except possibly the last.
pub proof fn law_windows_tile_the_range(from: u64, to: u64, span: u64)
    requires
        span >= 1,
    ensures
        ({
            let w = windows_spec(from, to, span);
            &&& (w.len() == 0 <==> from > to)
            &&& w.len() > 0 ==> w[0].0 == from && w.last().1 == to
            &&& forall|i: int|
                0 <= i < w.len() ==> (#[trigger] w[i]).0 <= w[i].1 && w[i].1 - w[i].0 + 1 <= span
            &&& forall|i: int| 0 <= i < w.len() - 1 ==> (#[trigger] w[i]).1 - w[i].0 + 1 == span
            &&& forall|i: int| 0 <= i < w.len() - 1 ==> #[trigger] w[i + 1].0 == w[i].1 + 1
        }),
    decreases to - from,
{
    if from <= to {
        let end: u64 = if from + span - 1 < to {
            (from + span - 1) as u64
        } else {
            to
        };
        if end != to {
            law_windows_tile_the_range((end + 1) as u64, to, span);
            let rest = windows_spec((end + 1) as u64, to, span);
            let w = windows_spec(from, to, span);
            assert(w == seq![(from, end)] + rest);
            assert forall|i: int| 0 <= i < w.len() - 1 implies #[trigger] w[i + 1].0 == w[i].1 + 1 by {
                assert(w[i + 1] == rest[i]);
                if i > 0 {
                    assert(w[i] == rest[i - 1]);
                    assert(rest[(i - 1) + 1].0 == rest[i - 1].1 + 1);
                } else {
                    assert(w[0] == (from, end));
                    assert(rest.len() > 0);
                    assert(rest[0].0 == end + 1);
                }
            }
            assert forall|i: int| 0 <= i < w.len() implies (#[trigger] w[i]).0 <= w[i].1 && w[i].1 - w[i].0
                + 1 <= span by {
                if i > 0 {
                    assert(w[i] == rest[i - 1]);
                }
            }
            assert forall|i: int| 0 <= i < w.len() - 1 implies (#[trigger] w[i]).1 - w[i].0 + 1 == span by {
                if i > 0 {
                    assert(w[i] == rest[i - 1]);
                }
            }
        }
    }
}

/// The fields a decoded ERC-20 `Transfer` log carries in its topics and data.
#[derive(Debug, Clone, Copy)]
pub struct DecodedTransfer {
    pub from: Address,
    pub to: Address,
    pub value: U256,
}

/// Builds the event for one fetched log from the outcome of decoding it as
/// a `Transfer` and the log's metadata. A decoding failure is reported first;
/// then the first missing field among block number, transaction hash and log
/// index.
pub fn log_to_event(
    address: Address,
    decoded: Result<DecodedTransfer, String>,
    block_number: Option<u64>,
    transaction_hash: Option<B256>,
    log_index: Option<u64>,
) -> (r: Result<ChainEvent, SourceError>)
    ensures
        match decoded {
            Err(msg) => r matches Err(SourceError::Decode(m)) && m@ == msg@,
            Ok(d) => match (block_number, transaction_hash, log_index) {
                (Some(n), Some(h), Some(i)) => r == Ok::<ChainEvent, SourceError>(
                    ChainEvent {
                        token: address,
                        from: d.from,
                        to: d.to,
                        value: d.value,
                        block_number: n,
                        tx_hash: h,
                        log_index: i,
                    },
                ),
                (None, _, _) => r matches Err(SourceError::IncompleteLog(f)) && f@ == "block_number"@,
                (Some(_), None, _) => r matches Err(SourceError::IncompleteLog(f)) && f@ == "tx_hash"@,
                (Some(_), Some(_), None) => r matches Err(SourceError::IncompleteLog(f)) && f@
                    == "log_index"@,
            },
        },
{
    let d = match decoded {
        Ok(d) => d,
        Err(msg) => {
            return Err(SourceError::Decode(msg));
        },
    };
    let block_number = match block_number {
        Some(n) => n,
        None => {
            return Err(SourceError::IncompleteLog("block_number"));
        },
    };
    let tx_hash = match transaction_hash {
        Some(h) => h,
        None => {
            return Err(SourceError::IncompleteLog("tx_hash"));
        },
    };
    let log_index = match log_index {
        Some(i) => i,
        None => {
            return Err(SourceError::IncompleteLog("log_index"));
        },
    };
    Ok(ChainEvent { token: address, from: d.from, to: d.to, value: d.value, block_number, tx_hash, log_index })
}

} // verus!
