use vstd::prelude::*;

use std::collections::VecDeque;

use crate::indexer::primitives::B256;

verus! {

/// Minimal header of a block the tracker has seen.
#[derive(Debug, Clone, Copy)]
pub struct BlockRef {
    pub number: u64,
    pub hash: B256,
    pub parent_hash: B256,
}

impl BlockRef {
    /// Whether two block headers are identical.
    pub fn same_as(&self, other: &BlockRef) -> (r: bool)
        ensures
            r == (*self == *other),
    {
        let r = self.number == other.number && self.hash.same_as(&other.hash)
            && self.parent_hash.same_as(&other.parent_hash);
        proof {
            if self.hash.0@ == other.hash.0@ {
                assert(self.hash.0 == other.hash.0);
            }
            if self.parent_hash.0@ == other.parent_hash.0@ {
                assert(self.parent_hash.0 == other.parent_hash.0);
            }
        }
        r
    }
}

impl PartialEq for BlockRef {
    fn eq(&self, other: &Self) -> (r: bool) {
        self.same_as(other)
    }
}

impl vstd::std_specs::cmp::PartialEqSpecImpl for BlockRef {
    open spec fn obeys_eq_spec() -> bool {
        true
    }

    open spec fn eq_spec(&self, other: &Self) -> bool {
        *self == *other
    }
}

impl Eq for BlockRef {}

/// `b` extends `top`: it is the next height and names `top` as its parent.
pub open spec fn attaches(top: BlockRef, b: BlockRef) -> bool {
    top.number + 1 == b.number && top.hash == b.parent_hash
}

/// Each block of `chain` is the parent height of the next one.
pub open spec fn consecutive(chain: Seq<BlockRef>) -> bool {
    forall|i: int| 0 <= i < chain.len() - 1 ==> #[trigger] chain[i + 1].number == chain[i].number + 1
}

/// How many blocks of `chain`, from the oldest, survive when `b` arrives:
/// everything up to and including the newest block that `b` attaches to,
/// or nothing if it attaches to none.
pub open spec fn kept_len(chain: Seq<BlockRef>, b: BlockRef) -> nat
    decreases chain.len(),
{
    if chain.len() == 0 {
        0
    } else if attaches(chain.last(), b) {
        chain.len()
    } else {
        kept_len(chain.drop_last(), b)
    }
}

/// The kept prefix fits in the chain and ends with the block `b` attaches to.
pub proof fn lemma_kept_len(chain: Seq<BlockRef>, b: BlockRef)
    ensures
        kept_len(chain, b) <= chain.len(),
        kept_len(chain, b) > 0 ==> attaches(chain[kept_len(chain, b) - 1], b),
    decreases chain.len(),
{
    if chain.len() > 0 && !attaches(chain.last(), b) {
        lemma_kept_len(chain.drop_last(), b);
    }
}

/// The blocks orphaned when `b` arrives, ascending.
pub open spec fn orphaned_by(chain: Seq<BlockRef>, b: BlockRef) -> Seq<BlockRef> {
    chain.skip(kept_len(chain, b) as int)
}

/// The watermark after a rollback that orphaned `orphaned`: pulled back
/// below the lowest orphaned block if it had reached it.
pub open spec fn watermark_after_rollback(w: Option<u64>, orphaned: Seq<BlockRef>) -> Option<u64> {
    if orphaned.len() == 0 {
        w
    } else {
        match w {
            Some(w) => if orphaned[0].number == 0 {
                None
            } else if w > orphaned[0].number - 1 {
                Some((orphaned[0].number - 1) as u64)
            } else {
                Some(w)
            },
            None => None,
        }
    }
}

/// The first height not yet confirmed under watermark `w`.
pub open spec fn first_unconfirmed(w: Option<u64>) -> int {
    match w {
        Some(w) => w + 1,
        None => 0,
    }
}

/// The block's height lies in `[lo, hi]`.
pub open spec fn in_heights(b: BlockRef, lo: int, hi: int) -> bool {
    lo <= b.number <= hi
}

/// The blocks of `chain`, in order, whose heights lie in `[lo, hi]`.
pub open spec fn blocks_in_heights(chain: Seq<BlockRef>, lo: int, hi: int) -> Seq<BlockRef>
    decreases chain.len(),
{
    if chain.len() == 0 {
        Seq::empty()
    } else if in_heights(chain.last(), lo, hi) {
        blocks_in_heights(chain.drop_last(), lo, hi).push(chain.last())
    } else {
        blocks_in_heights(chain.drop_last(), lo, hi)
    }
}

/// Consecutive heights climb one by one from the oldest block.
pub proof fn lemma_consecutive_heights(chain: Seq<BlockRef>)
    requires
        consecutive(chain),
    ensures
        forall|i: int| 0 <= i < chain.len() ==> #[trigger] chain[i].number == chain[0].number + i,
{
    assert forall|i: int| 0 <= i < chain.len() implies #[trigger] chain[i].number == chain[0].number
        + i by {
        lemma_consecutive_heights_to(chain, i);
    }
}

proof fn lemma_consecutive_heights_to(chain: Seq<BlockRef>, i: int)
    requires
        consecutive(chain),
        0 <= i < chain.len(),
    ensures
        chain[i].number == chain[0].number + i,
    decreases i,
{
    if i > 0 {
        lemma_consecutive_heights_to(chain, i - 1);
        assert(chain[(i - 1) + 1].number == chain[i - 1].number + 1);
    }
}

/// The first block of `chain`, from the oldest, at height `n`.
pub open spec fn first_at_height(chain: Seq<BlockRef>, n: u64) -> Option<BlockRef>
    decreases chain.len(),
{
    if chain.len() == 0 {
        None
    } else if chain[0].number == n {
        Some(chain[0])
    } else {
        first_at_height(chain.drop_first(), n)
    }
}

/// The abstract state of a tracker.
pub struct TrackerView {
    pub confirmations: u64,
    pub window: usize,
    /// Retained blocks, oldest first.
    pub chain: Seq<BlockRef>,
    /// Highest block number already reported as confirmed.
    pub confirmed_through: Option<u64>,
}

/// The tracker state and update that feeding `b` to a tracker in state `t`
/// produces, as `(state, confirmed, orphaned)`.
pub open spec fn observe_spec(t: TrackerView, b: BlockRef) -> (TrackerView, Seq<BlockRef>, Seq<
    BlockRef,
>) {
    let orphaned = orphaned_by(t.chain, b);
    let kept = t.chain.take(kept_len(t.chain, b) as int).push(b);
    let w1 = watermark_after_rollback(t.confirmed_through, orphaned);
    let (confirmed, w2) = if b.number >= t.confirmations {
        let cm = (b.number - t.confirmations) as u64;
        (
            blocks_in_heights(kept, first_unconfirmed(w1), cm as int),
            match w1 {
                Some(w) => if cm > w {
                    Some(cm)
                } else {
                    w1
                },
                None => Some(cm),
            },
        )
    } else {
        (Seq::empty(), w1)
    };
    let chain = if kept.len() > t.window {
        kept.skip(kept.len() - t.window)
    } else {
        kept
    };
    (
        TrackerView {
            confirmations: t.confirmations,
            window: t.window,
            chain,
            confirmed_through: w2,
        },
        confirmed,
        orphaned,
    )
}

/// The tracker can take another block: its head is below the highest
/// representable height.
pub open spec fn accepts_blocks(t: TrackerView) -> bool {
    t.chain.len() == 0 || t.chain.last().number < u64::MAX
}

/// What changed after a call to [`Tracker::observe`].
#[derive(Debug, Default)]
pub struct TrackerUpdate {
    /// Blocks that reached `N` confirmations on this observation, ascending.
    /// Their events are safe to emit downstream.
    pub confirmed: Vec<BlockRef>,
    /// Blocks orphaned by a reorg on this observation, ascending. Their events
    /// must be retracted downstream. Empty when no reorg occurred.
    pub reorged: Vec<BlockRef>,
}

/// Whether two sequences of blocks are identical, element by element.
pub fn same_blocks(a: &Vec<BlockRef>, b: &Vec<BlockRef>) -> (r: bool)
    ensures
        r == (a@ == b@),
{
    let n = a.len();
    if n != b.len() {
        return false;
    }
    for i in 0..n
        invariant
            n == a@.len() == b@.len(),
            forall|k: int| 0 <= k < i ==> a@[k] == b@[k],
    {
        if !a[i].same_as(&b[i]) {
            return false;
        }
    }
    assert(a@ =~= b@);
    true
}

impl PartialEq for TrackerUpdate {
    fn eq(&self, other: &Self) -> (r: bool) {
        same_blocks(&self.confirmed, &other.confirmed) && same_blocks(&self.reorged, &other.reorged)
    }
}

impl vstd::std_specs::cmp::PartialEqSpecImpl for TrackerUpdate {
    open spec fn obeys_eq_spec() -> bool {
        true
    }

    open spec fn eq_spec(&self, other: &Self) -> bool {
        self.confirmed@ == other.confirmed@ && self.reorged@ == other.reorged@
    }
}

impl Eq for TrackerUpdate {}

/// Tracks the chain head and decides when a block is confirmed.
///
/// A block at height `H` is confirmed once the head reaches `H + N`, i.e. `N`
/// blocks are built on top of it. Pure and synchronous: the RPC that feeds it
/// lives in a higher layer.
#[derive(Debug)]
pub struct Tracker {
    confirmations: u64,
    /// Recent blocks, oldest at the front.
    chain: VecDeque<BlockRef>,
    /// Most recent blocks retained; exceeds `confirmations`.
    window: usize,
    /// Highest block number already reported as confirmed (the watermark).
    confirmed_through: Option<u64>,
}

/// Default window: deep enough to dwarf any realistic reorg on a finalizing chain.
pub const DEFAULT_WINDOW: usize = 256;

impl View for Tracker {
    type V = TrackerView;

    closed spec fn view(&self) -> TrackerView {
        TrackerView {
            confirmations: self.confirmations,
            window: self.window,
            chain: self.chain@,
            confirmed_through: self.confirmed_through,
        }
    }
}

/// The invariant every tracker keeps: the window exceeds the confirmation
/// depth and bounds the retained blocks, which are consecutive heights; and
/// while the tracker accepts blocks, the watermark is below the highest height.
pub open spec fn tracker_well_formed(t: TrackerView) -> bool {
    &&& t.window > t.confirmations
    &&& t.chain.len() <= t.window
    &&& consecutive(t.chain)
    &&& (accepts_blocks(t) ==> (t.confirmed_through matches Some(w) ==> w < u64::MAX))
}

impl Tracker {
    #[verifier::type_invariant]
    spec fn well_formed(self) -> bool {
        tracker_well_formed(self@)
    }

    /// Creates a tracker requiring `confirmations` blocks on top before a block
    /// is considered confirmed, retaining a default window of recent blocks.
    pub fn new(confirmations: u64) -> (t: Tracker)
        requires
            confirmations < DEFAULT_WINDOW,
        ensures
            t@ == (TrackerView {
                confirmations,
                window: DEFAULT_WINDOW,
                chain: Seq::empty(),
                confirmed_through: None,
            }),
    {
        Self::with_window(confirmations, DEFAULT_WINDOW)
    }

    /// Like [`Tracker::new`] but with an explicit retention `window`, which
    /// must exceed `confirmations` (else a block would be dropped before it
    /// could be confirmed).
    pub fn with_window(confirmations: u64, window: usize) -> (t: Tracker)
        requires
            window > confirmations,
        ensures
            t@ == (TrackerView { confirmations, window, chain: Seq::empty(), confirmed_through: None }),
    {
        Tracker { confirmations, chain: VecDeque::new(), window, confirmed_through: None }
    }

    /// The tracker's state obeys its invariant.
    pub fn prove_well_formed(&self)
        ensures
            tracker_well_formed(self@),
    {
        proof {
            use_type_invariant(self);
        }
    }

    /// Whether the tracker can take another block (its head is below
    /// `u64::MAX`).
    pub fn accepts_blocks(&self) -> (r: bool)
        ensures
            r == accepts_blocks(self@),
    {
        let n = self.chain.len();
        n == 0 || self.chain[n - 1].number < u64::MAX
    }

    /// Feeds the next canonical block. Contract: the poller feeds blocks by
    /// ascending number and, on a reorg, re-feeds from the fork point. A block
    /// that does not extend the head triggers rollback of the orphaned tail.
    ///
    /// Returns the blocks newly confirmed and any orphaned by a reorg.
    pub fn observe(&mut self, block: BlockRef) -> (u: TrackerUpdate)
        requires
            accepts_blocks(old(self)@),
        ensures
            final(self)@ == observe_spec(old(self)@, block).0,
            u.confirmed@ == observe_spec(old(self)@, block).1,
            u.reorged@ == observe_spec(old(self)@, block).2,
    {
        let mut taken = Tracker::with_window(0, 1);
        std::mem::swap(&mut taken, self);
        proof {
            use_type_invariant(&taken);
        }
        let ghost t = taken@;
        let Tracker { confirmations, mut chain, window, confirmed_through } = taken;
        let len = chain.len();
        proof {
            assert(t.chain.take(len as int) =~= t.chain);
            lemma_consecutive_heights(t.chain);
        }
        // Roll back conflicting blocks until `block` attaches to its parent
        // (or the chain empties). A non-empty `reorged` means a reorg happened.
        let mut k: usize = len;
        while k > 0
            invariant
                k <= len == t.chain.len(),
                chain@ == t.chain,
                kept_len(t.chain, block) == kept_len(t.chain.take(k as int), block),
                forall|i: int| 0 <= i < len ==> #[trigger] t.chain[i].number < u64::MAX,
            ensures
                k <= len,
                kept_len(t.chain, block) == k,
            decreases k,
        {
            let top = chain[k - 1];
            proof {
                assert(t.chain.take(k as int).last() == top);
                assert(t.chain.take(k as int).drop_last() =~= t.chain.take(k - 1));
            }
            if top.number + 1 == block.number && top.hash.same_as(&block.parent_hash) {
                proof {
                    assert(top.hash.0 == block.parent_hash.0);
                }
                break;
            }
            k = k - 1;
        }
        let mut reorged: Vec<BlockRef> = Vec::new();
        for i in k..len
            invariant
                k <= len == t.chain.len(),
                chain@ == t.chain,
                reorged@ =~= t.chain.subrange(k as int, i as int),
        {
            reorged.push(chain[i]);
        }
        chain.truncate(k);
        let ghost orphaned = reorged@;
        assert(orphaned =~= orphaned_by(t.chain, block));
        // If the rollback orphaned blocks at or below the watermark, they were
        // wrongly confirmed: pull the watermark back below the lowest of them.
        let mut cw = confirmed_through;
        if k < len {
            let lowest = reorged[0].number;
            cw = match cw {
                Some(w) => if lowest == 0 {
                    None
                } else if w > lowest - 1 {
                    Some(lowest - 1)
                } else {
                    Some(w)
                },
                None => None,
            };
        }
        assert(cw == watermark_after_rollback(t.confirmed_through, orphaned));
        chain.push_back(block);
        let ghost kept = chain@;
        assert(kept =~= t.chain.take(kept_len(t.chain, block) as int).push(block));
        let head = block.number;
        let mut confirmed: Vec<BlockRef> = Vec::new();
        if head >= confirmations {
            let confirmed_max = head - confirmations;
            // Emit only blocks past the watermark, up to the new confirmed height.
            let start: u64 = match cw {
                Some(w) => w + 1,
                None => 0,
            };
            let n2 = chain.len();
            for i in 0..n2
                invariant
                    n2 == kept.len(),
                    chain@ == kept,
                    start == first_unconfirmed(cw),
                    confirmed@ == blocks_in_heights(kept.take(i as int), start as int, confirmed_max as int),
            {
                let b = chain[i];
                proof {
                    assert(kept.take(i + 1).drop_last() =~= kept.take(i as int));
                }
                if start <= b.number && b.number <= confirmed_max {
                    confirmed.push(b);
                }
            }
            assert(kept.take(n2 as int) =~= kept);
            match cw {
                Some(w) => if confirmed_max > w {
                    cw = Some(confirmed_max);
                },
                None => {
                    cw = Some(confirmed_max);
                },
            }
        }
        // Bound memory: drop the oldest blocks beyond the window. Done last, so
        // a just-confirmed block was still present for the emission above.
        while chain.len() > window
            invariant
                window >= 1,
                kept.len() > 0,
                chain@.len() >= 1,
                chain@.len() <= kept.len(),
                kept.len() <= window ==> chain@.len() == kept.len(),
                kept.len() > window ==> chain@.len() >= window,
                chain@ =~= kept.skip(kept.len() - chain@.len()),
            decreases chain@.len(),
        {
            let ghost before = chain@;
            chain.pop_front();
            assert(chain@ =~= kept.skip(kept.len() - chain@.len()));
        }
        proof {
            if kept.len() > window {
                assert(chain@ =~= kept.skip(kept.len() - window));
            } else {
                assert(chain@ =~= kept);
            }
            assert(chain@.last() == block);
            assert(consecutive(kept)) by {
                lemma_kept_len(t.chain, block);
                assert forall|i: int| 0 <= i < kept.len() - 1 implies #[trigger] kept[i + 1].number
                    == kept[i].number + 1 by {
                    if i + 1 < k {
                        assert(kept[i + 1] == t.chain[i + 1]);
                        assert(kept[i] == t.chain[i]);
                    }
                }
            }
            assert forall|i: int| 0 <= i < chain@.len() - 1 implies #[trigger] chain@[i + 1].number
                == chain@[i].number + 1 by {
                let off = kept.len() - chain@.len();
                assert(chain@[i] == kept[i + off]);
                assert(chain@[i + 1] == kept[i + 1 + off]);
            }
        }
        *self = Tracker { confirmations, chain, window, confirmed_through: cw };
        TrackerUpdate { confirmed, reorged }
    }

    /// Highest confirmed block number so far, or `None` if nothing is confirmed.
    pub fn confirmed_height(&self) -> (r: Option<u64>)
        ensures
            r == self@.confirmed_through,
    {
        self.confirmed_through
    }

    /// The current head (highest block) the tracker holds, or `None` if empty.
    pub fn head(&self) -> (r: Option<&BlockRef>)
        ensures
            r matches Some(b) ==> self@.chain.len() > 0 && *b == self@.chain.last(),
            r is None ==> self@.chain.len() == 0,
    {
        let n = self.chain.len();
        if n == 0 {
            None
        } else {
            Some(&self.chain[n - 1])
        }
    }

    /// The retained block at `number`, if still inside the window: the first
    /// retained block with that number.
    pub fn block_at(&self, number: u64) -> (r: Option<&BlockRef>)
        ensures
            match r {
                Some(b) => first_at_height(self@.chain, number) == Some(*b),
                None => first_at_height(self@.chain, number) is None,
            },
    {
        let n = self.chain.len();
        let ghost c = self@.chain;
        assert(c.skip(0) =~= c);
        for i in 0..n
            invariant
                n == c.len(),
                c == self@.chain,
                first_at_height(c, number) == first_at_height(c.skip(i as int), number),
        {
            proof {
                assert(c.skip(i as int).drop_first() =~= c.skip(i + 1));
                assert(c.skip(i as int)[0] == c[i as int]);
            }
            if self.chain[i].number == number {
                return Some(&self.chain[i]);
            }
        }
        proof {
            assert(c.skip(n as int) =~= Seq::<BlockRef>::empty());
        }
        None
    }

    /// How many blocks the tracker currently retains.
    pub fn tracked_len(&self) -> (r: usize)
        ensures
            r == self@.chain.len(),
    {
        self.chain.len()
    }
}

/// Blocks picked by height come from the chain, lie in the height range, and
/// keep the chain's order.
pub proof fn lemma_blocks_in_heights(chain: Seq<BlockRef>, lo: int, hi: int)
    ensures
        forall|i: int|
            0 <= i < blocks_in_heights(chain, lo, hi).len() ==> {
                &&& in_heights(#[trigger] blocks_in_heights(chain, lo, hi)[i], lo, hi)
                &&& chain.contains(blocks_in_heights(chain, lo, hi)[i])
            },
        blocks_in_heights(chain, lo, hi).len() <= chain.len(),
    decreases chain.len(),
{
    if chain.len() > 0 {
        let init = chain.drop_last();
        lemma_blocks_in_heights(init, lo, hi);
        let r = blocks_in_heights(chain, lo, hi);
        assert forall|i: int| 0 <= i < r.len() implies {
            &&& in_heights(#[trigger] r[i], lo, hi)
            &&& chain.contains(r[i])
        } by {
            let ri = blocks_in_heights(init, lo, hi);
            if i < ri.len() {
                assert(r[i] == ri[i]);
                let j = choose|j: int| 0 <= j < init.len() && init[j] == ri[i];
                assert(chain[j] == r[i]);
            } else {
                assert(r[i] == chain[chain.len() - 1]);
            }
        }
    }
}

/// Blocks picked by height from consecutive blocks are strictly ascending.
pub proof fn lemma_blocks_in_heights_ascending(chain: Seq<BlockRef>, lo: int, hi: int)
    requires
        consecutive(chain),
    ensures
        forall|i: int, j: int|
            0 <= i < j < blocks_in_heights(chain, lo, hi).len() ==> (#[trigger] blocks_in_heights(
                chain,
                lo,
                hi,
            )[i]).number < (#[trigger] blocks_in_heights(chain, lo, hi)[j]).number,
    decreases chain.len(),
{
    if chain.len() > 0 {
        let init = chain.drop_last();
        assert(consecutive(init)) by {
            assert forall|i: int| 0 <= i < init.len() - 1 implies #[trigger] init[i + 1].number
                == init[i].number + 1 by {
                assert(chain[i + 1].number == chain[i].number + 1);
            }
        }
        lemma_blocks_in_heights_ascending(init, lo, hi);
        lemma_blocks_in_heights(init, lo, hi);
        lemma_consecutive_heights(chain);
        let r = blocks_in_heights(chain, lo, hi);
        let ri = blocks_in_heights(init, lo, hi);
        assert forall|i: int, j: int| 0 <= i < j < r.len() implies (#[trigger] r[i]).number
            < (#[trigger] r[j]).number by {
            if j < ri.len() {
                assert(r[i] == ri[i] && r[j] == ri[j]);
            } else {
                assert(r[j] == chain[chain.len() - 1]);
                assert(r[i] == ri[i]);
                let m = choose|m: int| 0 <= m < init.len() && init[m] == ri[i];
                assert(chain[m] == r[i]);
            }
        }
    }
}

/// Blocks picked by height from consecutive blocks are themselves
/// consecutive: one observation confirms a contiguous range of heights.
pub proof fn lemma_blocks_in_heights_consecutive(chain: Seq<BlockRef>, lo: int, hi: int)
    requires
        consecutive(chain),
    ensures
        consecutive(blocks_in_heights(chain, lo, hi)),
    decreases chain.len(),
{
    if chain.len() > 0 {
        let init = chain.drop_last();
        assert(consecutive(init)) by {
            assert forall|i: int| 0 <= i < init.len() - 1 implies #[trigger] init[i + 1].number
                == init[i].number + 1 by {
                assert(chain[i + 1].number == chain[i].number + 1);
            }
        }
        lemma_blocks_in_heights_consecutive(init, lo, hi);
        lemma_blocks_in_heights(init, lo, hi);
        let r = blocks_in_heights(chain, lo, hi);
        let ri = blocks_in_heights(init, lo, hi);
        let b = chain.last();
        if in_heights(b, lo, hi) && ri.len() > 0 {
            lemma_consecutive_heights(chain);
            let m = choose|m: int| 0 <= m < init.len() && init[m] == ri.last();
            assert(ri.last().number <= init.last().number);
            assert(init.last().number == b.number - 1) by {
                assert(chain[(chain.len() - 2) + 1].number == chain[chain.len() - 2].number + 1);
            }
            assert(in_heights(init.last(), lo, hi));
            assert(ri.last() == init.last());
        }
        assert forall|i: int| 0 <= i < r.len() - 1 implies #[trigger] r[i + 1].number == r[i].number
            + 1 by {
            if i + 1 < ri.len() {
                assert(r[i + 1] == ri[i + 1] && r[i] == ri[i]);
            } else {
                assert(r[i] == ri.last());
            }
        }
    }
}

/// Feeds `blocks` in order to a tracker in state `t`, as successive calls of
/// [`Tracker::observe`] do: the final state, every block confirmed along the
/// way in the order reported, and every block orphaned along the way.
pub open spec fn observe_run(t: TrackerView, blocks: Seq<BlockRef>) -> (TrackerView, Seq<BlockRef>, Seq<
    BlockRef,
>)
    decreases blocks.len(),
{
    if blocks.len() == 0 {
        (t, Seq::empty(), Seq::empty())
    } else {
        let (t1, c1, o1) = observe_run(t, blocks.drop_last());
        let (t2, c2, o2) = observe_spec(t1, blocks.last());
        (t2, c1 + c2, o1 + o2)
    }
}

/// `blocks` is one chain from genesis: block `i` is at height `i` and names
/// block `i - 1` as its parent.
pub open spec fn linear_from_genesis(blocks: Seq<BlockRef>) -> bool {
    &&& forall|i: int| 0 <= i < blocks.len() ==> #[trigger] blocks[i].number == i
    &&& forall|i: int| 0 < i < blocks.len() ==> #[trigger] blocks[i].parent_hash == blocks[i - 1].hash
}

/// A tracker as [`Tracker::with_window`] makes it: nothing held, nothing
/// confirmed.
pub open spec fn fresh_tracker(confirmations: u64, window: usize) -> TrackerView {
    TrackerView { confirmations, window, chain: Seq::empty(), confirmed_through: None }
}

/// The confirmed height once the first `k` blocks of a chain from genesis
/// have been fed at depth `n`: `k - 1 - n`, or none while `k <= n`.
pub open spec fn linear_watermark(k: int, n: u64) -> Option<u64> {
    if k > n {
        Some((k - 1 - n) as u64)
    } else {
        None
    }
}

/// How many blocks of a chain from genesis are confirmed once its first `k`
/// blocks have been fed at depth `n`.
pub open spec fn linear_confirmed_count(k: int, n: u64) -> int {
    if k > n {
        k - n
    } else {
        0
    }
}

/// No block of `chain`, all below height `h`, lies at `h`.
proof fn lemma_blocks_below_height(chain: Seq<BlockRef>, h: int)
    requires
        forall|j: int| 0 <= j < chain.len() ==> #[trigger] chain[j].number < h,
    ensures
        blocks_in_heights(chain, h, h) == Seq::<BlockRef>::empty(),
    decreases chain.len(),
{
    if chain.len() > 0 {
        let init = chain.drop_last();
        assert forall|j: int| 0 <= j < init.len() implies #[trigger] init[j].number < h by {
            assert(init[j] == chain[j]);
        }
        lemma_blocks_below_height(init, h);
        assert(chain.last() == chain[chain.len() - 1]);
    }
}

/// Of blocks at heights `base, base + 1, ...`, exactly one lies at a height
/// `h` that they cover.
proof fn lemma_blocks_at_one_height(chain: Seq<BlockRef>, base: int, h: int)
    requires
        forall|j: int| 0 <= j < chain.len() ==> #[trigger] chain[j].number == base + j,
        base <= h < base + chain.len(),
    ensures
        blocks_in_heights(chain, h, h) == seq![chain[h - base]],
    decreases chain.len(),
{
    let init = chain.drop_last();
    assert forall|j: int| 0 <= j < init.len() implies #[trigger] init[j].number == base + j by {
        assert(init[j] == chain[j]);
    }
    assert(chain.last() == chain[chain.len() - 1]);
    if h < base + chain.len() - 1 {
        lemma_blocks_at_one_height(init, base, h);
        assert(init[h - base] == chain[h - base]);
    } else {
        assert forall|j: int| 0 <= j < init.len() implies #[trigger] init[j].number < h by {
            assert(init[j] == chain[j]);
        }
        lemma_blocks_below_height(init, h);
        assert(Seq::<BlockRef>::empty().push(chain.last()) =~= seq![chain[h - base]]);
    }
}

/// A chain from genesis stays one when cut short.
proof fn lemma_linear_prefix(blocks: Seq<BlockRef>, k: int)
    requires
        linear_from_genesis(blocks),
        0 <= k <= blocks.len(),
    ensures
        linear_from_genesis(blocks.take(k)),
{
    let p = blocks.take(k);
    assert forall|i: int| 0 <= i < p.len() implies #[trigger] p[i].number == i by {
        assert(p[i] == blocks[i]);
    }
    assert forall|i: int| 0 < i < p.len() implies #[trigger] p[i].parent_hash == p[i - 1].hash by {
        assert(p[i] == blocks[i]);
        assert(p[i - 1] == blocks[i - 1]);
    }
}

/// The state of a fresh tracker fed the first blocks of a chain from
/// genesis: it holds the newest of them (as many as the window allows), its
/// watermark trails by the depth, and it has confirmed the oldest ones and
/// orphaned none.
proof fn lemma_linear_run(confirmations: u64, window: usize, blocks: Seq<BlockRef>)
    requires
        window > confirmations,
        linear_from_genesis(blocks),
    ensures
        ({
            let (t, c, o) = observe_run(fresh_tracker(confirmations, window), blocks);
            let k = blocks.len() as int;
            &&& t.confirmations == confirmations
            &&& t.window == window
            &&& t.chain.len() == (if k < window {
                k
            } else {
                window as int
            })
            &&& forall|j: int| 0 <= j < t.chain.len() ==> #[trigger] t.chain[j] == blocks[k - t.chain.len() + j]
            &&& t.confirmed_through == linear_watermark(k, confirmations)
            &&& c == blocks.take(linear_confirmed_count(k, confirmations))
            &&& o.len() == 0
        }),
    decreases blocks.len(),
{
    let t0 = fresh_tracker(confirmations, window);
    if blocks.len() == 0 {
        assert(blocks.take(0) =~= Seq::<BlockRef>::empty());
    } else {
        let init = blocks.drop_last();
        lemma_linear_prefix(blocks, blocks.len() - 1);
        assert(init =~= blocks.take(blocks.len() - 1));
        lemma_linear_run(confirmations, window, init);
        let (t1, c1, o1) = observe_run(t0, init);
        let k = init.len() as int;
        let b = blocks.last();
        assert(b == blocks[k]);
        assert(b.number == k);
        let n1 = t1.chain.len() as int;
        // The new block extends the held head, so nothing is orphaned.
        if n1 > 0 {
            assert(t1.chain.last() == t1.chain[n1 - 1]);
            assert(t1.chain[n1 - 1] == blocks[k - 1]);
            assert(blocks[k].parent_hash == blocks[k - 1].hash);
            assert(attaches(t1.chain.last(), b));
        }
        assert(kept_len(t1.chain, b) == n1);
        let orphaned = orphaned_by(t1.chain, b);
        assert(orphaned =~= Seq::<BlockRef>::empty());
        let kept = t1.chain.take(n1).push(b);
        assert(t1.chain.take(n1) =~= t1.chain);
        let kl = kept.len() as int;
        assert forall|j: int| 0 <= j < kl implies #[trigger] kept[j] == blocks[k + 1 - kl + j] by {
            if j < n1 {
                assert(kept[j] == t1.chain[j]);
            }
        }
        assert forall|j: int| 0 <= j < kl implies #[trigger] kept[j].number == (k + 1 - kl) + j by {
            assert(kept[j] == blocks[k + 1 - kl + j]);
        }
        let (t2, c2, o2) = observe_spec(t1, b);
        assert(o2 =~= Seq::<BlockRef>::empty());
        let cnt = linear_confirmed_count(k, confirmations);
        assert(c1 == blocks.take(cnt)) by {
            assert(init.take(cnt) =~= blocks.take(cnt));
        }
        if k >= confirmations {
            let h = k - confirmations;
            lemma_blocks_at_one_height(kept, k + 1 - kl, h);
            assert(kept[h - (k + 1 - kl)] == blocks[h]);
            assert(c2 == seq![blocks[h]]);
            assert(blocks.take(cnt) + seq![blocks[h]] =~= blocks.take(h + 1));
        } else {
            assert(c2 =~= Seq::<BlockRef>::empty());
            assert(blocks.take(cnt) + c2 =~= blocks.take(cnt));
        }
        let c2n = t2.chain.len() as int;
        assert forall|j: int| 0 <= j < c2n implies #[trigger] t2.chain[j] == blocks[(k + 1) - c2n + j] by {
            if kl > window {
                assert(t2.chain[j] == kept[j + (kl - window)]);
            } else {
                assert(t2.chain[j] == kept[j]);
            }
        }
        assert(o1 + o2 =~= Seq::<BlockRef>::empty());
    }
}

/// Fed one chain from genesis, one block after another, a fresh tracker
/// accepts every block, never reports a reorg, and confirms each block
/// exactly once and in order: after the first `k` blocks it has confirmed
/// exactly the first `k - N` of them, and its confirmed height is `k - 1 - N`
/// (none while `k <= N`).
pub proof fn law_linear_chain_confirms_each_block_once(
    confirmations: u64,
    window: usize,
    blocks: Seq<BlockRef>,
)
    requires
        window > confirmations,
        linear_from_genesis(blocks),
    ensures
        forall|k: int|
            0 <= k < blocks.len() ==> accepts_blocks(
                #[trigger] observe_run(fresh_tracker(confirmations, window), blocks.take(k)).0,
            ),
        observe_run(fresh_tracker(confirmations, window), blocks).2.len() == 0,
        observe_run(fresh_tracker(confirmations, window), blocks).1 == blocks.take(
            linear_confirmed_count(blocks.len() as int, confirmations),
        ),
        observe_run(fresh_tracker(confirmations, window), blocks).0.confirmed_through
            == linear_watermark(blocks.len() as int, confirmations),
{
    lemma_linear_run(confirmations, window, blocks);
    assert forall|k: int| 0 <= k < blocks.len() implies accepts_blocks(
        #[trigger] observe_run(fresh_tracker(confirmations, window), blocks.take(k)).0,
    ) by {
        lemma_linear_prefix(blocks, k);
        lemma_linear_run(confirmations, window, blocks.take(k));
        let t = observe_run(fresh_tracker(confirmations, window), blocks.take(k)).0;
        if t.chain.len() > 0 {
            let n = t.chain.len() as int;
            assert(t.chain.last() == t.chain[n - 1]);
            assert(t.chain[n - 1] == blocks.take(k)[k - 1]);
            assert(blocks[k].number == k);
        }
    }
}

/// Confirmation depth: every block confirmed by an observation is at least
/// `N` below the observed block, lies past the (rolled back) watermark, and
/// is at or below the new watermark; confirmed blocks come out ascending.
pub proof fn law_confirmed_blocks_are_deep_and_new(t: TrackerView, b: BlockRef)
    requires
        tracker_well_formed(t),
        accepts_blocks(t),
    ensures
        ({
            let (t2, confirmed, orphaned) = observe_spec(t, b);
            let w1 = watermark_after_rollback(t.confirmed_through, orphaned);
            &&& forall|i: int|
                0 <= i < confirmed.len() ==> {
                    &&& (#[trigger] confirmed[i]).number + t.confirmations <= b.number
                    &&& first_unconfirmed(w1) <= confirmed[i].number
                    &&& t2.confirmed_through matches Some(w2) && confirmed[i].number <= w2
                }
            &&& forall|i: int, j: int|
                0 <= i < j < confirmed.len() ==> (#[trigger] confirmed[i]).number
                    < (#[trigger] confirmed[j]).number
            &&& consecutive(confirmed)
        }),
{
    let orphaned = orphaned_by(t.chain, b);
    let k = kept_len(t.chain, b);
    lemma_kept_len(t.chain, b);
    let kept = t.chain.take(k as int).push(b);
    let w1 = watermark_after_rollback(t.confirmed_through, orphaned);
    if b.number >= t.confirmations {
        let cm = b.number - t.confirmations;
        lemma_blocks_in_heights(kept, first_unconfirmed(w1), cm);
        assert(consecutive(kept)) by {
            assert forall|i: int| 0 <= i < kept.len() - 1 implies #[trigger] kept[i + 1].number
                == kept[i].number + 1 by {
                if i + 1 < k {
                    assert(kept[i + 1] == t.chain[i + 1]);
                    assert(kept[i] == t.chain[i]);
                }
            }
        }
        lemma_blocks_in_heights_ascending(kept, first_unconfirmed(w1), cm);
        lemma_blocks_in_heights_consecutive(kept, first_unconfirmed(w1), cm);
    }
}

/// Orphaned blocks come out ascending, one height after another, and are
/// exactly the retained blocks above the fork point.
pub proof fn law_orphaned_blocks_are_consecutive(t: TrackerView, b: BlockRef)
    requires
        tracker_well_formed(t),
    ensures
        consecutive(orphaned_by(t.chain, b)),
        t.chain == t.chain.take(kept_len(t.chain, b) as int) + orphaned_by(t.chain, b),
{
    lemma_kept_len(t.chain, b);
    let k = kept_len(t.chain, b) as int;
    let o = orphaned_by(t.chain, b);
    assert forall|i: int| 0 <= i < o.len() - 1 implies #[trigger] o[i + 1].number == o[i].number + 1 by {
        assert(o[i] == t.chain[i + k]);
        assert(o[i + 1] == t.chain[(i + k) + 1]);
    }
    assert(t.chain =~= t.chain.take(k) + o);
}

/// A reorg that does not reach the watermark never unconfirms: the
/// watermark does not move back.
pub proof fn law_shallow_reorg_keeps_watermark(t: TrackerView, b: BlockRef)
    requires
        tracker_well_formed(t),
        accepts_blocks(t),
        t.confirmed_through is Some,
        orphaned_by(t.chain, b).len() == 0 || orphaned_by(t.chain, b)[0].number
            > t.confirmed_through->0,
    ensures
        observe_spec(t, b).0.confirmed_through matches Some(w2) && w2 >= t.confirmed_through->0,
{
}

/// The whole point of `N` confirmations: while the watermark trails the head
/// by at least `N`, a reorg orphaning fewer than `N` blocks never unconfirms.
pub proof fn law_reorg_shallower_than_depth_never_unconfirms(t: TrackerView, b: BlockRef)
    requires
        tracker_well_formed(t),
        accepts_blocks(t),
        t.confirmed_through is Some,
        t.chain.len() > 0,
        t.confirmed_through->0 + t.confirmations <= t.chain.last().number,
        orphaned_by(t.chain, b).len() < t.confirmations,
    ensures
        observe_spec(t, b).0.confirmed_through matches Some(w2) && w2 >= t.confirmed_through->0,
{
    let o = orphaned_by(t.chain, b);
    let k = kept_len(t.chain, b) as int;
    lemma_kept_len(t.chain, b);
    if o.len() > 0 {
        lemma_consecutive_heights(t.chain);
        assert(o[0] == t.chain[k]);
        assert(t.chain.last() == t.chain[t.chain.len() - 1]);
        assert(o[0].number > t.confirmed_through->0);
    }
    law_shallow_reorg_keeps_watermark(t, b);
}

/// A reorg never unconfirms a height it did not orphan. When a rollback
/// orphans blocks whose lowest height `h` is above zero and at or below the
/// watermark `w`, the watermark falls back to exactly `h - 1` (never further,
/// never to none); the observation confirms no block below `h`, and afterwards
/// the watermark is still at least `h - 1`. When the reorg orphans nothing at
/// or below the watermark, nothing at or below it is confirmed again.
pub proof fn law_reorg_reconfirms_only_orphaned_heights(t: TrackerView, b: BlockRef)
    requires
        tracker_well_formed(t),
        accepts_blocks(t),
        t.confirmed_through is Some,
    ensures
        ({
            let w = t.confirmed_through->0;
            let o = orphaned_by(t.chain, b);
            let (t2, confirmed, _) = observe_spec(t, b);
            &&& (o.len() > 0 && 0 < o[0].number <= w) ==> {
                &&& watermark_after_rollback(t.confirmed_through, o) == Some((o[0].number - 1) as u64)
                &&& t2.confirmed_through matches Some(w2) && w2 + 1 >= o[0].number
                &&& forall|i: int| 0 <= i < confirmed.len() ==> (#[trigger] confirmed[i]).number >= o[0].number
            }
            &&& (o.len() == 0 || o[0].number > w) ==> {
                &&& t2.confirmed_through matches Some(w2) && w2 >= w
                &&& forall|i: int| 0 <= i < confirmed.len() ==> (#[trigger] confirmed[i]).number > w
            }
        }),
{
    let o = orphaned_by(t.chain, b);
    let k = kept_len(t.chain, b);
    lemma_kept_len(t.chain, b);
    let kept = t.chain.take(k as int).push(b);
    let w1 = watermark_after_rollback(t.confirmed_through, o);
    if b.number >= t.confirmations {
        let cm = b.number - t.confirmations;
        lemma_blocks_in_heights(kept, first_unconfirmed(w1), cm);
    }
}

/// A reorg that reaches at or below the watermark pulls it back below the
/// lowest orphaned block, so that block's height confirms again later.
pub proof fn law_deep_reorg_rolls_back_watermark(t: TrackerView, b: BlockRef)
    requires
        tracker_well_formed(t),
        accepts_blocks(t),
        t.confirmed_through is Some,
        orphaned_by(t.chain, b).len() > 0,
        orphaned_by(t.chain, b)[0].number <= t.confirmed_through->0,
    ensures
        watermark_after_rollback(t.confirmed_through, orphaned_by(t.chain, b)) matches Some(w1) ==> w1
            < orphaned_by(t.chain, b)[0].number,
{
}

/// Memory stays bounded: whatever is fed, a tracker retains at most `window`
/// blocks, of consecutive heights, ending with the block just fed.
pub proof fn law_retained_blocks_bounded(t: TrackerView, b: BlockRef)
    requires
        tracker_well_formed(t),
        accepts_blocks(t),
    ensures
        tracker_well_formed(observe_spec(t, b).0),
        observe_spec(t, b).0.chain.len() > 0,
        observe_spec(t, b).0.chain.last() == b,
{
    let k = kept_len(t.chain, b);
    lemma_kept_len(t.chain, b);
    let kept = t.chain.take(k as int).push(b);
    let t2 = observe_spec(t, b).0;
    assert(consecutive(kept)) by {
        assert forall|i: int| 0 <= i < kept.len() - 1 implies #[trigger] kept[i + 1].number
            == kept[i].number + 1 by {
            if i + 1 < k {
                assert(kept[i + 1] == t.chain[i + 1]);
                assert(kept[i] == t.chain[i]);
            }
        }
    }
    assert forall|i: int| 0 <= i < t2.chain.len() - 1 implies #[trigger] t2.chain[i + 1].number
        == t2.chain[i].number + 1 by {
        let off = kept.len() - t2.chain.len();
        assert(t2.chain[i] == kept[i + off]);
        assert(t2.chain[i + 1] == kept[i + 1 + off]);
    }
    assert(t2.chain.last() == b);
}

} // verus!
