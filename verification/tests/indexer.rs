//! The indexer's decision logic: block windows, log decoding outcome, retry
//! policy, the confirmation tracker and the poll state machine.

use fintrails::indexer::{
    InMemoryCheckpoint, NoCheckpoint,
    Address, B256, BlockRef, ChainEvent, DecodedTransfer, Delay, IndexerMessage, PollReply,
    PollRequest, PollStep, Poller, RetryPolicy, SourceError, Tracker, U256, block_windows,
    log_to_event,
};

// --- block windows ----------------------------------------------------------

#[test]
fn windows_cover_a_range_with_a_partial_last_window() {
    // 0..=9 in spans of 4: [0,3], [4,7], [8,9] (remainder).
    assert_eq!(
        block_windows(0, 9, 4),
        vec![(0, 3), (4, 7), (8, 9)],
        "windows must tile the range contiguously, last one short"
    );
}

#[test]
fn windows_split_evenly_when_span_divides_the_range() {
    assert_eq!(block_windows(0, 5, 3), vec![(0, 2), (3, 5)]);
}

#[test]
fn a_range_within_one_span_is_a_single_window() {
    assert_eq!(block_windows(10, 12, 100), vec![(10, 12)]);
}

#[test]
fn a_single_block_is_one_window() {
    assert_eq!(block_windows(7, 7, 2000), vec![(7, 7)]);
}

#[test]
fn an_empty_range_yields_no_windows() {
    assert!(block_windows(5, 4, 10).is_empty());
}

#[test]
fn zero_span_is_clamped_and_still_terminates() {
    // max_span 0 would be a non-advancing window; clamped to 1.
    assert_eq!(block_windows(3, 5, 0), vec![(3, 3), (4, 4), (5, 5)]);
}

#[test]
fn a_window_ending_at_u64_max_does_not_overflow() {
    let max = u64::MAX;
    assert_eq!(block_windows(max - 1, max, 1000), vec![(max - 1, max)]);
}

#[test]
fn a_huge_span_near_u64_max_saturates() {
    assert_eq!(block_windows(5, u64::MAX, u64::MAX), vec![(5, u64::MAX)]);
}

// --- log to event -----------------------------------------------------------

fn decoded() -> Result<DecodedTransfer, String> {
    Ok(DecodedTransfer {
        from: Address::repeat_byte(0x11),
        to: Address::repeat_byte(0x22),
        value: U256::from_u64(1000),
    })
}

#[test]
fn decodes_transfer_log_into_event() {
    let event = log_to_event(
        Address::repeat_byte(0xaa),
        decoded(),
        Some(42),
        Some(B256::repeat_byte(0xbb)),
        Some(7),
    )
    .unwrap();
    assert_eq!(event.token, Address::repeat_byte(0xaa));
    assert_eq!(event.from, Address::repeat_byte(0x11));
    assert_eq!(event.to, Address::repeat_byte(0x22));
    assert_eq!(event.value, U256::from_u64(1000));
    assert_eq!(event.block_number, 42);
    assert_eq!(event.tx_hash, B256::repeat_byte(0xbb));
    assert_eq!(event.log_index, 7);
}

#[test]
fn missing_block_number_is_rejected() {
    let result =
        log_to_event(Address::repeat_byte(0xaa), decoded(), None, Some(B256::repeat_byte(0xbb)), Some(7));
    assert!(matches!(result, Err(SourceError::IncompleteLog("block_number"))));
}

#[test]
fn missing_tx_hash_and_log_index_are_named() {
    let no_hash = log_to_event(Address::repeat_byte(0xaa), decoded(), Some(1), None, Some(7));
    assert!(matches!(no_hash, Err(SourceError::IncompleteLog("tx_hash"))));
    let no_index =
        log_to_event(Address::repeat_byte(0xaa), decoded(), Some(1), Some(B256::repeat_byte(1)), None);
    assert!(matches!(no_index, Err(SourceError::IncompleteLog("log_index"))));
}

#[test]
fn undecodable_log_is_a_decode_error() {
    let result = log_to_event(Address::repeat_byte(0xaa), Err("garbage".to_string()), None, None, None);
    match result {
        Err(SourceError::Decode(msg)) => assert_eq!(msg, "garbage"),
        other => panic!("expected Decode, got {:?}", other),
    }
}

// --- retry policy -----------------------------------------------------------

fn rpc_err(msg: &str) -> SourceError {
    SourceError::Rpc(msg.to_owned())
}

fn decode_err(msg: &str) -> SourceError {
    SourceError::Decode(msg.to_owned())
}

fn instant_policy(max_retries: u32) -> RetryPolicy {
    RetryPolicy { max_retries, base_delay: Delay::zero(), max_delay: Delay::zero() }
}

#[test]
fn only_rpc_errors_are_retryable() {
    assert!(rpc_err("timeout").is_retryable());
    assert!(!SourceError::InvalidUrl("bad".into()).is_retryable());
    assert!(!decode_err("garbage").is_retryable());
    assert!(!SourceError::IncompleteLog("tx_hash").is_retryable());
}

#[test]
fn delay_grows_exponentially_then_clamps() {
    let policy = RetryPolicy {
        max_retries: 10,
        base_delay: Delay::from_millis(100),
        max_delay: Delay::from_millis(500),
    };
    assert_eq!(policy.delay_for(0), Delay::from_millis(100));
    assert_eq!(policy.delay_for(1), Delay::from_millis(200));
    assert_eq!(policy.delay_for(2), Delay::from_millis(400));
    // 800ms would exceed the 500ms ceiling, so it clamps.
    assert_eq!(policy.delay_for(3), Delay::from_millis(500));
    // A huge attempt must not overflow the multiplication.
    assert_eq!(policy.delay_for(64), Delay::from_millis(500));
}

#[test]
fn default_policy_backs_off_from_200ms_to_5s() {
    let policy = RetryPolicy::default();
    assert_eq!(policy.max_retries, 5);
    assert_eq!(policy.delay_for(0), Delay::from_millis(200));
    assert_eq!(policy.delay_for(4), Delay::from_millis(3200));
    assert_eq!(policy.delay_for(5), Delay::from_secs(5));
}

#[test]
fn huge_delays_saturate_instead_of_overflowing() {
    let policy = RetryPolicy {
        max_retries: 1,
        base_delay: Delay::new(u64::MAX / 2, 999_999_999),
        max_delay: Delay::new(u64::MAX, 999_999_999),
    };
    assert_eq!(policy.delay_for(31), Delay::new(u64::MAX, 999_999_999));
}

/// Drives an operation the way the retry loop does: try, and on failure ask
/// the policy whether (and after how long) to try again.
fn run_with_retry<T>(
    policy: &RetryPolicy,
    mut op: impl FnMut() -> Result<T, SourceError>,
) -> (Result<T, SourceError>, Vec<Delay>) {
    let mut attempt: u32 = 0;
    let mut waits = Vec::new();
    loop {
        match op() {
            Ok(v) => return (Ok(v), waits),
            Err(e) => match policy.next_retry(attempt, &e) {
                Some(d) => {
                    waits.push(d);
                    attempt += 1;
                }
                None => return (Err(e), waits),
            },
        }
    }
}

#[test]
fn retries_then_succeeds() {
    let mut calls = 0;
    let (result, _) = run_with_retry(&instant_policy(5), || {
        calls += 1;
        if calls < 3 { Err(rpc_err("flaky")) } else { Ok(42u64) }
    });
    assert_eq!(result.unwrap(), 42);
    assert_eq!(calls, 3, "two failures, then success on the third");
}

#[test]
fn non_retryable_error_does_not_retry() {
    let mut calls = 0;
    let (result, _): (Result<(), _>, _) = run_with_retry(&instant_policy(5), || {
        calls += 1;
        Err(decode_err("bad"))
    });
    assert!(matches!(result, Err(SourceError::Decode(_))));
    assert_eq!(calls, 1, "deterministic error is not retried");
}

#[test]
fn gives_up_after_max_retries() {
    let mut calls = 0;
    let (result, _): (Result<(), _>, _) = run_with_retry(&instant_policy(2), || {
        calls += 1;
        Err(rpc_err("always down"))
    });
    assert!(matches!(result, Err(SourceError::Rpc(_))));
    assert_eq!(calls, 3, "initial try plus max_retries (2)");
}

#[test]
fn retry_waits_follow_the_backoff() {
    let policy = RetryPolicy {
        max_retries: 3,
        base_delay: Delay::from_millis(100),
        max_delay: Delay::from_millis(250),
    };
    let (_, waits): (Result<(), _>, _) = run_with_retry(&policy, || Err(rpc_err("down")));
    assert_eq!(
        waits,
        vec![Delay::from_millis(100), Delay::from_millis(200), Delay::from_millis(250)]
    );
}

// --- tracker ----------------------------------------------------------------

fn hash_of(n: u64) -> B256 {
    B256(alloy::primitives::B256::from(alloy::primitives::U256::from(n)).0)
}

/// Builds a linear block: hash = number, parent_hash = number - 1.
fn block(number: u64) -> BlockRef {
    BlockRef { number, hash: hash_of(number), parent_hash: hash_of(number.saturating_sub(1)) }
}

/// A block on an alternative branch: a hash distinct from `block(number)`
/// (0xee filler + number) but linked to an explicit `parent_hash`.
fn alt(number: u64, parent_hash: B256) -> BlockRef {
    let mut bytes = [0xee_u8; 32];
    bytes[..8].copy_from_slice(&number.to_be_bytes());
    BlockRef { number, hash: B256(bytes), parent_hash }
}

#[test]
fn block_confirms_once_n_blocks_sit_on_top() {
    let mut tracker = Tracker::new(2);

    // Blocks 0 and 1: head too low, nothing confirmed yet.
    assert!(tracker.observe(block(0)).confirmed.is_empty());
    assert!(tracker.observe(block(1)).confirmed.is_empty());
    assert_eq!(tracker.confirmed_height(), None);

    // Block 2 arrives: head=2, so block 0 (head - N) is now confirmed.
    let update = tracker.observe(block(2));
    assert_eq!(update.confirmed, vec![block(0)]);
    assert_eq!(tracker.confirmed_height(), Some(0));
}

#[test]
fn each_block_is_confirmed_once_and_in_order() {
    let mut tracker = Tracker::new(1);

    tracker.observe(block(0));
    assert_eq!(tracker.observe(block(1)).confirmed, vec![block(0)]);
    assert_eq!(tracker.observe(block(2)).confirmed, vec![block(1)]);
    assert_eq!(tracker.observe(block(3)).confirmed, vec![block(2)]);
    assert_eq!(tracker.confirmed_height(), Some(2));
}

#[test]
fn deeper_confirmation_depth_lags_further_behind_the_head() {
    let mut tracker = Tracker::new(3);

    for n in 0..3 {
        assert!(tracker.observe(block(n)).confirmed.is_empty());
    }
    assert_eq!(tracker.observe(block(3)).confirmed, vec![block(0)]);
    assert_eq!(tracker.observe(block(4)).confirmed, vec![block(1)]);
    assert_eq!(tracker.confirmed_height(), Some(1));
}

#[test]
fn zero_confirmations_confirms_immediately() {
    let mut tracker = Tracker::new(0);
    assert_eq!(tracker.observe(block(5)).confirmed, vec![block(5)]);
    assert_eq!(tracker.confirmed_height(), Some(5));
}

#[test]
fn shallow_reorg_replaces_the_head_and_reports_it() {
    let mut tracker = Tracker::new(2);
    for n in 0..=3 {
        tracker.observe(block(n));
    }
    assert_eq!(tracker.confirmed_height(), Some(1));

    // Block 3 is replaced by a competing block on a fork off block 2.
    let update = tracker.observe(alt(3, block(2).hash));
    assert_eq!(update.reorged, vec![block(3)]);
    assert!(update.confirmed.is_empty());
    // The reorg was above the confirmed height, so it stays put.
    assert_eq!(tracker.confirmed_height(), Some(1));
}

#[test]
fn deep_reorg_rolls_back_several_blocks_then_extends_cleanly() {
    let mut tracker = Tracker::new(1);
    for n in 0..=3 {
        tracker.observe(block(n));
    }
    assert_eq!(tracker.confirmed_height(), Some(2));

    // Fork at block 1: blocks 2 and 3 are orphaned.
    let alt2 = alt(2, block(1).hash);
    let update = tracker.observe(alt2.clone());
    assert_eq!(update.reorged, vec![block(2), block(3)]);
    // Block 2 was confirmed; the watermark is pulled back below it.
    assert_eq!(tracker.confirmed_height(), Some(1));

    // The new branch then extends and confirms normally.
    let alt3 = alt(3, alt2.hash);
    let update = tracker.observe(alt3);
    assert_eq!(update.confirmed, vec![alt2]);
    assert_eq!(tracker.confirmed_height(), Some(2));
}

#[test]
fn old_blocks_are_trimmed_to_the_window() {
    let mut tracker = Tracker::with_window(1, 3);
    for n in 0..10 {
        tracker.observe(block(n));
    }
    // Memory is bounded regardless of how many blocks streamed through.
    assert!(tracker.tracked_len() <= 3);
    // Confirmations were still emitted at the right time despite trimming.
    assert_eq!(tracker.confirmed_height(), Some(8));
}

#[test]
fn reorg_within_the_window_still_rolls_back_after_trimming() {
    let mut tracker = Tracker::with_window(1, 4);
    for n in 0..8 {
        tracker.observe(block(n));
    }
    // Fork at block 5, which is still inside the retained window.
    let update = tracker.observe(alt(6, block(5).hash));
    assert_eq!(update.reorged, vec![block(6), block(7)]);
}

#[test]
fn reorg_deeper_than_the_window_drains_the_chain_safely() {
    let mut tracker = Tracker::with_window(1, 3);
    for n in 0..8 {
        tracker.observe(block(n));
    }
    // Block 2 (the real fork point) is long gone from the window.
    let update = tracker.observe(alt(3, block(2).hash));
    assert_eq!(update.reorged, vec![block(5), block(6), block(7)]);
    assert_eq!(tracker.tracked_len(), 1);
}

#[test]
fn reorg_shallower_than_n_never_unconfirms() {
    let mut tracker = Tracker::new(3);
    for n in 0..=5 {
        tracker.observe(block(n));
    }
    assert_eq!(tracker.confirmed_height(), Some(2));

    // Depth-2 reorg (blocks 4, 5) — shallower than N=3.
    let update = tracker.observe(alt(4, block(3).hash));
    assert_eq!(update.reorged, vec![block(4), block(5)]);
    assert!(update.confirmed.is_empty());
    assert_eq!(tracker.confirmed_height(), Some(2)); // untouched
}

#[test]
fn reorg_reaching_block_zero_clears_the_watermark() {
    let mut tracker = Tracker::new(0);
    tracker.observe(block(0));
    tracker.observe(block(1));
    assert_eq!(tracker.confirmed_height(), Some(1));
    // A new genesis that does not attach to anything orphans everything.
    let update = tracker.observe(alt(0, B256::repeat_byte(0x99)));
    assert_eq!(update.reorged, vec![block(0), block(1)]);
    assert_eq!(update.confirmed, vec![alt(0, B256::repeat_byte(0x99))]);
    assert_eq!(tracker.confirmed_height(), Some(0));
}

#[test]
fn head_and_block_lookup_follow_the_retained_chain() {
    let mut tracker = Tracker::with_window(1, 3);
    assert!(tracker.head().is_none());
    for n in 0..6 {
        tracker.observe(block(n));
    }
    assert_eq!(tracker.head(), Some(&block(5)));
    assert_eq!(tracker.block_at(4), Some(&block(4)));
    assert_eq!(tracker.block_at(2), None); // trimmed
}

// --- poller -----------------------------------------------------------------

/// In-memory chain the test mutates between polls.
#[derive(Default)]
struct FakeSource {
    blocks: Vec<BlockRef>,
    events: Vec<ChainEvent>,
}

impl FakeSource {
    fn set_block(&mut self, b: BlockRef) {
        let n = b.number as usize;
        if self.blocks.len() <= n {
            self.blocks.resize(n + 1, b);
        }
        self.blocks[n] = b;
    }

    fn answer(&self, request: PollRequest) -> PollReply {
        match request {
            PollRequest::HeadNumber => PollReply::HeadNumber(self.blocks.len() as u64 - 1),
            PollRequest::BlockRef(n) => PollReply::BlockRef(self.blocks[n as usize]),
            PollRequest::Transfers { from, to } => PollReply::Transfers(
                self.events
                    .iter()
                    .filter(|e| (from..=to).contains(&e.block_number))
                    .cloned()
                    .collect(),
            ),
        }
    }
}

/// One poll, answering the poller's requests from `source`.
fn advance(poller: &mut Poller<()>, source: &FakeSource) -> Vec<IndexerMessage> {
    let mut request = poller.begin_advance();
    loop {
        let reply = source.answer(request);
        assert!(poller.awaits(&reply));
        match poller.resume(reply) {
            PollStep::Request(r) => request = r,
            PollStep::Finished(msgs) => return msgs,
            PollStep::HeightOverflow => panic!("attempt to add with overflow"),
        }
    }
}

fn transfer(block_number: u64, value: u64) -> ChainEvent {
    ChainEvent {
        token: Address::repeat_byte(0xaa),
        from: Address::repeat_byte(0x11),
        to: Address::repeat_byte(0x22),
        value: U256::from_u64(value),
        block_number,
        tx_hash: B256::repeat_byte(0xbb),
        log_index: 0,
    }
}

fn confirmed_events(msgs: &[IndexerMessage]) -> Vec<&ChainEvent> {
    msgs.iter()
        .filter_map(|m| match m {
            IndexerMessage::Confirmed(e) => Some(e),
            _ => None,
        })
        .collect()
}

fn poller(confirmations: u64) -> Poller<()> {
    Poller::new((), Tracker::new(confirmations), 0, std::time::Duration::ZERO)
}

#[test]
fn live_tail_emits_confirmed_transfers() {
    let mut src = FakeSource::default();
    for n in 0..=3 {
        src.set_block(block(n));
    }
    src.events.push(transfer(1, 500));

    let mut poller = poller(1);
    let msgs = advance(&mut poller, &src);

    // Head 3 with N=1 confirms blocks 0..=2, so block 1's transfer surfaces.
    let events = confirmed_events(&msgs);
    assert_eq!(events.len(), 1);
    assert_eq!(events[0].value, U256::from_u64(500));
    assert_eq!(events[0].block_number, 1);
}

#[test]
fn second_advance_only_emits_new_blocks() {
    let mut src = FakeSource::default();
    for n in 0..=2 {
        src.set_block(block(n));
    }
    let mut poller = poller(1);
    advance(&mut poller, &src);

    src.set_block(block(3));
    src.events.push(transfer(2, 700));
    let msgs = advance(&mut poller, &src);

    // Only block 2 newly confirmed (head 2 -> 3 with N=1), not a re-emit.
    let events = confirmed_events(&msgs);
    assert_eq!(events.len(), 1);
    assert_eq!(events[0].block_number, 2);
}

#[test]
fn same_height_hash_change_is_reported_as_reorg() {
    let mut src = FakeSource::default();
    for n in 0..=3 {
        src.set_block(block(n));
    }
    let mut poller = poller(2);
    advance(&mut poller, &src);

    // Replace the head (block 3) with a competing block; height stays 3.
    src.set_block(alt(3, block(2).hash));
    let msgs = advance(&mut poller, &src);

    assert!(msgs.contains(&IndexerMessage::Reorged { orphaned: vec![block(3)] }));
}

#[test]
fn deep_reorg_walks_back_and_rolls_orphans() {
    let mut src = FakeSource::default();
    for n in 0..=3 {
        src.set_block(block(n));
    }
    let mut poller = poller(1);
    advance(&mut poller, &src); // confirms 0,1,2

    let alt2 = alt(2, block(1).hash);
    let alt3 = alt(3, alt2.hash);
    let alt4 = alt(4, alt3.hash);
    src.set_block(alt2);
    src.set_block(alt3);
    src.set_block(alt4);

    let msgs = advance(&mut poller, &src);

    assert!(msgs.contains(&IndexerMessage::Reorged { orphaned: vec![block(2), block(3)] }));
}

#[test]
fn unchanged_head_yields_nothing() {
    let mut src = FakeSource::default();
    for n in 0..=3 {
        src.set_block(block(n));
    }
    let mut poller = poller(1);
    advance(&mut poller, &src);
    assert!(advance(&mut poller, &src).is_empty());
}

#[test]
fn cold_start_honours_the_start_block() {
    let mut src = FakeSource::default();
    for n in 0..=5 {
        src.set_block(block(n));
    }
    src.events.push(transfer(1, 1));
    src.events.push(transfer(3, 3));
    let mut poller = Poller::new((), Tracker::new(1), 3, std::time::Duration::ZERO);
    let msgs = advance(&mut poller, &src);
    let events = confirmed_events(&msgs);
    assert_eq!(events.len(), 1);
    assert_eq!(events[0].block_number, 3);
    assert_eq!(poller.tracker().confirmed_height(), Some(4));
}

// --- checkpoint ---------------------------------------------------------------

#[test]
fn checkpoint_loads_what_was_saved() {
    let mut cold = InMemoryCheckpoint::new();
    assert_eq!(cold.load().unwrap(), None);
    cold.save(17).unwrap();
    assert_eq!(cold.load().unwrap(), Some(17));
    cold.save(18).unwrap();
    assert_eq!(cold.load().unwrap(), Some(18));
    assert_eq!(InMemoryCheckpoint::at(5).load().unwrap(), Some(5));
    let mut none = NoCheckpoint;
    none.save(3).unwrap();
    assert_eq!(none.load().unwrap(), None);
}

#[test]
fn tracker_at_the_highest_height_reports_overflow_to_the_poller() {
    let top = BlockRef { number: u64::MAX, hash: B256::repeat_byte(1), parent_hash: B256::repeat_byte(2) };
    let mut tracker = Tracker::new(0);
    tracker.observe(top);
    assert!(!tracker.accepts_blocks());
    let mut poller = Poller::new((), tracker, 0, std::time::Duration::ZERO);
    assert_eq!(poller.begin_advance(), PollRequest::HeadNumber);
    // The head is unchanged in height but differs in hash: it must be fed.
    match poller.resume(PollReply::HeadNumber(u64::MAX)) {
        PollStep::Request(PollRequest::BlockRef(n)) => assert_eq!(n, u64::MAX),
        other => panic!("expected a block request, got {:?}", other),
    }
    let other = BlockRef { number: u64::MAX, hash: B256::repeat_byte(3), parent_hash: B256::repeat_byte(2) };
    assert!(matches!(poller.resume(PollReply::BlockRef(other)), PollStep::HeightOverflow));
}

#[test]
fn a_linear_chain_confirms_each_block_once_through_a_small_window() {
    let mut tracker = Tracker::with_window(1, 3);
    let mut confirmed = Vec::new();
    for n in 0..10 {
        let update = tracker.observe(block(n));
        assert!(update.reorged.is_empty());
        confirmed.extend(update.confirmed);
        assert_eq!(tracker.confirmed_height(), n.checked_sub(1));
    }
    let expected: Vec<_> = (0..9).map(block).collect();
    assert_eq!(confirmed, expected);
    assert_eq!(tracker.confirmed_height(), Some(8));
}
