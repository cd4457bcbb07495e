use vstd::prelude::*;

use std::time::Duration;

use crate::indexer::event::ChainEvent;
use crate::indexer::tracker::{
    BlockRef, Tracker, TrackerUpdate, TrackerView, accepts_blocks, first_at_height, observe_spec,
    same_blocks,
};

verus! {

/// What the poller hands downstream as the chain advances.
#[derive(Debug, Clone)]
pub enum IndexerMessage {
    /// A `Transfer` in a block that has now reached the confirmation depth.
    /// Safe to act on; only retracted if a later `Reorged` names its block.
    Confirmed(ChainEvent),
    /// Blocks orphaned by a reorg, ascending. Any `Confirmed` event whose
    /// `block_number` is among these must be retracted downstream.
    Reorged { orphaned: Vec<BlockRef> },
}

/// The content of a message.
pub enum MessageView {
    Confirmed(ChainEvent),
    Reorged(Seq<BlockRef>),
}

impl View for IndexerMessage {
    type V = MessageView;

    open spec fn view(&self) -> MessageView {
        match self {
            IndexerMessage::Confirmed(e) => MessageView::Confirmed(*e),
            IndexerMessage::Reorged { orphaned } => MessageView::Reorged(orphaned@),
        }
    }
}

/// The contents of a sequence of messages, in order.
pub open spec fn messages_view(ms: Seq<IndexerMessage>) -> Seq<MessageView> {
    ms.map_values(|m: IndexerMessage| m@)
}

impl IndexerMessage {
    /// Whether two messages carry the same content.
    pub fn same_as(&self, other: &IndexerMessage) -> (r: bool)
        ensures
            r == (self@ == other@),
    {
        match (self, other) {
            (IndexerMessage::Confirmed(a), IndexerMessage::Confirmed(b)) => a.same_as(b),
            (IndexerMessage::Reorged { orphaned: a }, IndexerMessage::Reorged { orphaned: b }) => {
                same_blocks(a, b)
            },
            _ => false,
        }
    }
}

impl PartialEq for IndexerMessage {
    fn eq(&self, other: &Self) -> (r: bool) {
        self.same_as(other)
    }
}

impl vstd::std_specs::cmp::PartialEqSpecImpl for IndexerMessage {
    open spec fn obeys_eq_spec() -> bool {
        true
    }

    open spec fn eq_spec(&self, other: &Self) -> bool {
        self@ == other@
    }
}

impl Eq for IndexerMessage {}

/// A call the poller needs made on the block source.
#[derive(Debug, Clone, Copy, PartialEq, Eq, Structural)]
pub enum PollRequest {
    /// The current chain head's block number.
    HeadNumber,
    /// The block at this height.
    BlockRef(u64),
    /// `Transfer` events over the inclusive block range `[from, to]`.
    Transfers { from: u64, to: u64 },
}

/// The block source's answer to a [`PollRequest`].
#[derive(Debug)]
pub enum PollReply {
    HeadNumber(u64),
    BlockRef(BlockRef),
    Transfers(Vec<ChainEvent>),
}

/// What the poller does next within a poll.
#[derive(Debug)]
pub enum PollStep {
    /// Make this call on the source and hand the reply to [`Poller::resume`].
    Request(PollRequest),
    /// The poll is over; these are its messages, in order.
    Finished(Vec<IndexerMessage>),
    /// The tracker's head is at `u64::MAX`, so the next block cannot be
    /// fed: the height `head + 1` does not exist.
    HeightOverflow,
}

/// The content of a [`PollStep`].
pub enum StepView {
    Request(PollRequest),
    Finished(Seq<MessageView>),
    HeightOverflow,
}

impl View for PollStep {
    type V = StepView;

    open spec fn view(&self) -> StepView {
        match self {
            PollStep::Request(r) => StepView::Request(*r),
            PollStep::Finished(ms) => StepView::Finished(messages_view(ms@)),
            PollStep::HeightOverflow => StepView::HeightOverflow,
        }
    }
}

/// Where a poll goes once a fetched block has been fed to the tracker.
#[derive(Debug, Clone, Copy, PartialEq, Eq, Structural)]
pub enum Resume {
    /// The block at height `next` of a forward pass up to `last` was fed:
    /// fetch `next + 1` unless `next` was the last.
    Next { next: u64, last: u64 },
    /// The poll is over.
    Finish,
}

/// Where a poll stands between two calls on the source.
#[derive(Debug)]
enum Phase {
    Idle,
    AwaitHead,
    Forward { next: u64, last: u64 },
    SameHeight { height: u64 },
    Walking { branch: Vec<BlockRef>, resume: Resume },
    Confirming { pending: Vec<BlockRef>, resume: Resume },
}

/// The content of a poll's phase.
pub enum PhaseView {
    /// No poll in progress.
    Idle,
    /// Waiting for the head number.
    AwaitHead,
    /// Forward pass: waiting for block `next`, going up to `last`.
    Forward { next: u64, last: u64 },
    /// The head did not grow: waiting for the block at `height` to compare.
    SameHeight { height: u64 },
    /// Walking back a forked branch (newest first): waiting for the parent
    /// of its oldest block.
    Walking { branch: Seq<BlockRef>, resume: Resume },
    /// Waiting for the transfers of just-confirmed blocks; `pending` are the
    /// branch blocks still to feed, fed from the end.
    Confirming { pending: Seq<BlockRef>, resume: Resume },
}

/// The abstract state of a poller.
pub struct PollerView {
    pub tracker: TrackerView,
    pub start_block: u64,
    pub phase: PhaseView,
    /// Messages of the poll in progress.
    pub msgs: Seq<MessageView>,
}

/// The state after a step, and what the step asks for.
pub struct Transition {
    pub tracker: TrackerView,
    pub phase: PhaseView,
    pub msgs: Seq<MessageView>,
    pub step: StepView,
}

/// How feeding pending blocks stops.
pub enum DrainOutcome {
    /// A block confirmed blocks `[from, to]`; `rest` is still to feed.
    NeedTransfers { from: u64, to: u64, rest: Seq<BlockRef> },
    /// Every pending block was fed.
    Drained,
    /// The tracker could not take the next block.
    HeightOverflow,
}

/// Feeds `pending` to the tracker from its end (the fork point first),
/// recording orphaned blocks, until a block confirms something whose
/// transfers must be fetched.
pub open spec fn drain_spec(t: TrackerView, pending: Seq<BlockRef>, msgs: Seq<MessageView>) -> (
    TrackerView,
    Seq<MessageView>,
    DrainOutcome,
)
    decreases pending.len(),
{
    if pending.len() == 0 {
        (t, msgs, DrainOutcome::Drained)
    } else if !accepts_blocks(t) {
        (t, msgs, DrainOutcome::HeightOverflow)
    } else {
        let b = pending.last();
        let (t2, confirmed, orphaned) = observe_spec(t, b);
        let m2 = if orphaned.len() > 0 {
            msgs.push(MessageView::Reorged(orphaned))
        } else {
            msgs
        };
        if confirmed.len() > 0 {
            (
                t2,
                m2,
                DrainOutcome::NeedTransfers {
                    from: confirmed[0].number,
                    to: confirmed.last().number,
                    rest: pending.drop_last(),
                },
            )
        } else {
            drain_spec(t2, pending.drop_last(), m2)
        }
    }
}

/// Ends the feeding of one fetched block: continue the forward pass or finish.
pub open spec fn resume_spec(t: TrackerView, msgs: Seq<MessageView>, resume: Resume) -> Transition {
    match resume {
        Resume::Next { next, last } => if next < last {
            Transition {
                tracker: t,
                phase: PhaseView::Forward { next: (next + 1) as u64, last },
                msgs,
                step: StepView::Request(PollRequest::BlockRef((next + 1) as u64)),
            }
        } else {
            Transition {
                tracker: t,
                phase: PhaseView::Idle,
                msgs: Seq::empty(),
                step: StepView::Finished(msgs),
            }
        },
        Resume::Finish => Transition {
            tracker: t,
            phase: PhaseView::Idle,
            msgs: Seq::empty(),
            step: StepView::Finished(msgs),
        },
    }
}

/// Feeds pending blocks, then continues as `resume` says.
pub open spec fn continue_spec(
    t: TrackerView,
    msgs: Seq<MessageView>,
    pending: Seq<BlockRef>,
    resume: Resume,
) -> Transition {
    let (t2, m2, outcome) = drain_spec(t, pending, msgs);
    match outcome {
        DrainOutcome::NeedTransfers { from, to, rest } => Transition {
            tracker: t2,
            phase: PhaseView::Confirming { pending: rest, resume },
            msgs: m2,
            step: StepView::Request(PollRequest::Transfers { from, to }),
        },
        DrainOutcome::Drained => resume_spec(t2, m2, resume),
        DrainOutcome::HeightOverflow => Transition {
            tracker: t2,
            phase: PhaseView::Idle,
            msgs: Seq::empty(),
            step: StepView::HeightOverflow,
        },
    }
}

/// The branch (newest first) connects to what the tracker holds: its oldest
/// block is at height 0, or the tracker holds no block below it, or holds its
/// parent by hash.
pub open spec fn branch_connects(t: TrackerView, branch: Seq<BlockRef>) -> bool {
    let tip = branch.last();
    tip.number == 0 || match first_at_height(t.chain, (tip.number - 1) as u64) {
        Some(known) => known.hash == tip.parent_hash,
        None => true,
    }
}

/// Walks a branch back until it connects, then feeds it.
pub open spec fn walk_spec(
    t: TrackerView,
    msgs: Seq<MessageView>,
    branch: Seq<BlockRef>,
    resume: Resume,
) -> Transition {
    if branch_connects(t, branch) {
        continue_spec(t, msgs, branch, resume)
    } else {
        Transition {
            tracker: t,
            phase: PhaseView::Walking { branch, resume },
            msgs,
            step: StepView::Request(PollRequest::BlockRef((branch.last().number - 1) as u64)),
        }
    }
}

/// The events, each as a `Confirmed` message.
pub open spec fn confirmed_messages(events: Seq<ChainEvent>) -> Seq<MessageView> {
    events.map_values(|e: ChainEvent| MessageView::Confirmed(e))
}

/// The content of a reply.
pub enum ReplyView {
    HeadNumber(u64),
    BlockRef(BlockRef),
    Transfers(Seq<ChainEvent>),
}

impl View for PollReply {
    type V = ReplyView;

    open spec fn view(&self) -> ReplyView {
        match self {
            PollReply::HeadNumber(h) => ReplyView::HeadNumber(*h),
            PollReply::BlockRef(b) => ReplyView::BlockRef(*b),
            PollReply::Transfers(es) => ReplyView::Transfers(es@),
        }
    }
}

/// The poll in state `s` waits for a reply of this kind.
pub open spec fn awaits(s: PollerView, reply: ReplyView) -> bool {
    match (s.phase, reply) {
        (PhaseView::AwaitHead, ReplyView::HeadNumber(_)) => true,
        (PhaseView::Forward { .. }, ReplyView::BlockRef(_)) => true,
        (PhaseView::SameHeight { .. }, ReplyView::BlockRef(_)) => true,
        (PhaseView::Walking { .. }, ReplyView::BlockRef(_)) => true,
        (PhaseView::Confirming { .. }, ReplyView::Transfers(_)) => true,
        _ => false,
    }
}

/// One step of a poll: the state `s` receives `reply`.
pub open spec fn step_spec(s: PollerView, reply: ReplyView) -> Transition {
    let t = s.tracker;
    match (s.phase, reply) {
        (PhaseView::AwaitHead, ReplyView::HeadNumber(h)) => if t.chain.len() == 0 {
            // Cold start: index forward from the configured floor.
            if s.start_block <= h {
                Transition {
                    tracker: t,
                    phase: PhaseView::Forward { next: s.start_block, last: h },
                    msgs: s.msgs,
                    step: StepView::Request(PollRequest::BlockRef(s.start_block)),
                }
            } else {
                Transition {
                    tracker: t,
                    phase: PhaseView::Idle,
                    msgs: Seq::empty(),
                    step: StepView::Finished(s.msgs),
                }
            }
        } else if h > t.chain.last().number {
            // Height grew: feed each block above our head.
            Transition {
                tracker: t,
                phase: PhaseView::Forward { next: (t.chain.last().number + 1) as u64, last: h },
                msgs: s.msgs,
                step: StepView::Request(PollRequest::BlockRef((t.chain.last().number + 1) as u64)),
            }
        } else {
            // Height did not grow: compare the head block by hash.
            Transition {
                tracker: t,
                phase: PhaseView::SameHeight { height: h },
                msgs: s.msgs,
                step: StepView::Request(PollRequest::BlockRef(h)),
            }
        },
        (PhaseView::Forward { next, last }, ReplyView::BlockRef(b)) => walk_spec(
            t,
            s.msgs,
            seq![b],
            Resume::Next { next, last },
        ),
        (PhaseView::SameHeight { height }, ReplyView::BlockRef(b)) => match first_at_height(
            t.chain,
            height,
        ) {
            Some(known) => if known.hash == b.hash {
                Transition {
                    tracker: t,
                    phase: PhaseView::Idle,
                    msgs: Seq::empty(),
                    step: StepView::Finished(s.msgs),
                }
            } else {
                walk_spec(t, s.msgs, seq![b], Resume::Finish)
            },
            None => walk_spec(t, s.msgs, seq![b], Resume::Finish),
        },
        (PhaseView::Walking { branch, resume }, ReplyView::BlockRef(p)) => walk_spec(
            t,
            s.msgs,
            branch.push(p),
            resume,
        ),
        (PhaseView::Confirming { pending, resume }, ReplyView::Transfers(events)) => continue_spec(
            t,
            s.msgs + confirmed_messages(events),
            pending,
            resume,
        ),
        _ => Transition { tracker: t, phase: s.phase, msgs: s.msgs, step: StepView::HeightOverflow },
    }
}

/// Live-tails a chain: fetches new blocks, feeds them to a [`Tracker`], and
/// emits confirmed transfers and reorgs.
///
/// The poller decides; its caller performs the calls on the block source. A
/// poll starts with [`Poller::begin_advance`], which asks for the head
/// number; each reply goes to [`Poller::resume`], which asks for the next
/// call or finishes with the poll's messages.
pub struct Poller<S> {
    source: S,
    tracker: Tracker,
    /// First block to index on a cold start (before the tracker holds anything).
    start_block: u64,
    poll_interval: Duration,
    phase: Phase,
    msgs: Vec<IndexerMessage>,
}

impl<S> Poller<S> {
    /// The content of the poll's phase.
    closed spec fn phase_view(&self) -> PhaseView {
        match &self.phase {
            Phase::Idle => PhaseView::Idle,
            Phase::AwaitHead => PhaseView::AwaitHead,
            Phase::Forward { next, last } => PhaseView::Forward { next: *next, last: *last },
            Phase::SameHeight { height } => PhaseView::SameHeight { height: *height },
            Phase::Walking { branch, resume } => PhaseView::Walking {
                branch: branch@,
                resume: *resume,
            },
            Phase::Confirming { pending, resume } => PhaseView::Confirming {
                pending: pending@,
                resume: *resume,
            },
        }
    }

    /// The poller's abstract state.
    pub closed spec fn state(&self) -> PollerView {
        PollerView {
            tracker: self.tracker@,
            start_block: self.start_block,
            phase: self.phase_view(),
            msgs: messages_view(self.msgs@),
        }
    }

    /// The block source.
    pub closed spec fn source_spec(&self) -> S {
        self.source
    }

    /// The pause between polls.
    pub closed spec fn poll_interval_spec(&self) -> Duration {
        self.poll_interval
    }

    /// A poller over `source`, feeding `tracker`, starting a cold index at
    /// `start_block`, pausing `poll_interval` between polls.
    pub fn new(source: S, tracker: Tracker, start_block: u64, poll_interval: Duration) -> (p: Poller<S>)
        ensures
            p.state() == (PollerView {
                tracker: tracker@,
                start_block,
                phase: PhaseView::Idle,
                msgs: Seq::empty(),
            }),
            p.source_spec() == source,
            p.poll_interval_spec() == poll_interval,
    {
        let p = Poller {
            source,
            tracker,
            start_block,
            poll_interval,
            phase: Phase::Idle,
            msgs: Vec::new(),
        };
        assert(messages_view(p.msgs@) =~= Seq::<MessageView>::empty());
        p
    }

    /// The block source the poller's calls are to be made on.
    pub fn source(&self) -> (r: &S)
        ensures
            *r == self.source_spec(),
    {
        &self.source
    }

    /// The tracker the poller feeds.
    pub fn tracker(&self) -> (r: &Tracker)
        ensures
            r@ == self.state().tracker,
    {
        &self.tracker
    }

    /// The pause between polls.
    pub fn poll_interval(&self) -> (r: Duration)
        ensures
            r == self.poll_interval_spec(),
    {
        self.poll_interval
    }

    /// Starts a poll: any poll in progress is abandoned, and the head number
    /// is asked for.
    pub fn begin_advance(&mut self) -> (r: PollRequest)
        ensures
            r == PollRequest::HeadNumber,
            final(self).state() == (PollerView {
                tracker: old(self).state().tracker,
                start_block: old(self).state().start_block,
                phase: PhaseView::AwaitHead,
                msgs: Seq::empty(),
            }),
            final(self).source_spec() == old(self).source_spec(),
            final(self).poll_interval_spec() == old(self).poll_interval_spec(),
    {
        self.phase = Phase::AwaitHead;
        self.msgs = Vec::new();
        assert(messages_view(self.msgs@) =~= Seq::<MessageView>::empty());
        PollRequest::HeadNumber
    }

    /// Whether the poll in progress waits for a reply of this kind.
    pub fn awaits(&self, reply: &PollReply) -> (r: bool)
        ensures
            r == awaits(self.state(), reply@),
    {
        match (&self.phase, reply) {
            (Phase::AwaitHead, PollReply::HeadNumber(_)) => true,
            (Phase::Forward { .. }, PollReply::BlockRef(_)) => true,
            (Phase::SameHeight { .. }, PollReply::BlockRef(_)) => true,
            (Phase::Walking { .. }, PollReply::BlockRef(_)) => true,
            (Phase::Confirming { .. }, PollReply::Transfers(_)) => true,
            _ => false,
        }
    }

    /// The poller now stands where `tr` says, with nothing else changed
    /// since `before`.
    closed spec fn lands_on(self, before: Self, tr: Transition) -> bool {
        &&& self.tracker@ == tr.tracker
        &&& self.phase_view() == tr.phase
        &&& messages_view(self.msgs@) == tr.msgs
        &&& self.start_block == before.start_block
        &&& self.source == before.source
        &&& self.poll_interval == before.poll_interval
    }

    /// Hands out the poll's messages and goes idle.
    fn finish(&mut self) -> (r: PollStep)
        ensures
            final(self).lands_on(
                *old(self),
                Transition {
                    tracker: old(self).tracker@,
                    phase: PhaseView::Idle,
                    msgs: Seq::empty(),
                    step: StepView::Finished(messages_view(old(self).msgs@)),
                },
            ),
            r@ == StepView::Finished(messages_view(old(self).msgs@)),
    {
        let mut msgs: Vec<IndexerMessage> = Vec::new();
        std::mem::swap(&mut msgs, &mut self.msgs);
        self.phase = Phase::Idle;
        assert(messages_view(self.msgs@) =~= Seq::<MessageView>::empty());
        PollStep::Finished(msgs)
    }

    /// Continues after a fetched block has been fed.
    fn resume_after(&mut self, resume: Resume) -> (r: PollStep)
        ensures
            final(self).lands_on(*old(self), resume_spec(old(self).tracker@, messages_view(old(self).msgs@), resume)),
            r@ == resume_spec(old(self).tracker@, messages_view(old(self).msgs@), resume).step,
    {
        match resume {
            Resume::Next { next, last } => {
                if next < last {
                    self.phase = Phase::Forward { next: next + 1, last };
                    PollStep::Request(PollRequest::BlockRef(next + 1))
                } else {
                    self.finish()
                }
            },
            Resume::Finish => self.finish(),
        }
    }

    /// Feeds `pending` from its end (the fork point first), then continues as
    /// `resume` says; stops early to fetch the transfers of newly confirmed
    /// blocks.
    fn drain(&mut self, pending: Vec<BlockRef>, resume: Resume) -> (r: PollStep)
        ensures
            final(self).lands_on(*old(self), continue_spec(old(self).tracker@, messages_view(old(self).msgs@), pending@, resume)),
            r@ == continue_spec(old(self).tracker@, messages_view(old(self).msgs@), pending@, resume).step,
        decreases pending@.len(),
    {
        let mut pending = pending;
        if pending.len() == 0 {
            return self.resume_after(resume);
        }
        if !self.tracker.accepts_blocks() {
            self.phase = Phase::Idle;
            self.msgs = Vec::new();
            assert(messages_view(self.msgs@) =~= Seq::<MessageView>::empty());
            return PollStep::HeightOverflow;
        }
        let b = pending.pop().unwrap();
        let update = self.tracker.observe(b);
        let TrackerUpdate { confirmed, reorged } = update;
        if reorged.len() > 0 {
            let m = IndexerMessage::Reorged { orphaned: reorged };
            proof {
                lemma_messages_view_push(self.msgs@, m);
            }
            self.msgs.push(m);
        }
        if confirmed.len() > 0 {
            let from = confirmed[0].number;
            let to = confirmed[confirmed.len() - 1].number;
            self.phase = Phase::Confirming { pending, resume };
            return PollStep::Request(PollRequest::Transfers { from, to });
        }
        self.drain(pending, resume)
    }

    /// Records each event as a `Confirmed` message, in order.
    fn record_transfers(&mut self, events: &Vec<ChainEvent>)
        ensures
            final(self).tracker@ == old(self).tracker@,
            final(self).phase_view() == old(self).phase_view(),
            messages_view(final(self).msgs@) == messages_view(old(self).msgs@) + confirmed_messages(events@),
            final(self).start_block == old(self).start_block,
            final(self).source == old(self).source,
            final(self).poll_interval == old(self).poll_interval,
    {
        let n = events.len();
        let ghost m0 = messages_view(self.msgs@);
        for i in 0..n
            invariant
                n == events@.len(),
                messages_view(self.msgs@) =~= m0 + confirmed_messages(events@.take(i as int)),
                self.tracker@ == old(self).tracker@,
                self.phase_view() == old(self).phase_view(),
                self.start_block == old(self).start_block,
                self.source == old(self).source,
                self.poll_interval == old(self).poll_interval,
        {
            let m = IndexerMessage::Confirmed(events[i]);
            proof {
                lemma_messages_view_push(self.msgs@, m);
                assert(confirmed_messages(events@.take(i + 1)) =~= confirmed_messages(
                    events@.take(i as int),
                ).push(m@));
            }
            self.msgs.push(m);
        }
        assert(events@.take(n as int) =~= events@);
    }

    /// Walks `branch` (newest first) back to where it connects with what the
    /// tracker holds, asking for the next parent if it does not yet; then
    /// feeds it.
    fn walk(&mut self, branch: Vec<BlockRef>, resume: Resume) -> (r: PollStep)
        requires
            branch@.len() > 0,
        ensures
            final(self).lands_on(*old(self), walk_spec(old(self).tracker@, messages_view(old(self).msgs@), branch@, resume)),
            r@ == walk_spec(old(self).tracker@, messages_view(old(self).msgs@), branch@, resume).step,
    {
        let tip = branch[branch.len() - 1];
        if tip.number == 0 {
            return self.drain(branch, resume);
        }
        let parent_num = tip.number - 1;
        let connects = match self.tracker.block_at(parent_num) {
            Some(known) => {
                let r = known.hash.same_as(&tip.parent_hash);
                proof {
                    if known.hash.0@ == tip.parent_hash.0@ {
                        assert(known.hash.0 == tip.parent_hash.0);
                    }
                }
                r
            },
            None => true,
        };
        if connects {
            self.drain(branch, resume)
        } else {
            self.phase = Phase::Walking { branch, resume };
            PollStep::Request(PollRequest::BlockRef(parent_num))
        }
    }

    /// Takes the source's reply to the last request and decides the next
    /// step of the poll.
    pub fn resume(&mut self, reply: PollReply) -> (r: PollStep)
        requires
            awaits(old(self).state(), reply@),
        ensures
            ({
                let tr = step_spec(old(self).state(), reply@);
                &&& final(self).state() == (PollerView {
                    tracker: tr.tracker,
                    start_block: old(self).state().start_block,
                    phase: tr.phase,
                    msgs: tr.msgs,
                })
                &&& r@ == tr.step
            }),
            final(self).source_spec() == old(self).source_spec(),
            final(self).poll_interval_spec() == old(self).poll_interval_spec(),
    {
        let mut phase = Phase::Idle;
        std::mem::swap(&mut phase, &mut self.phase);
        match (phase, reply) {
            (Phase::AwaitHead, PollReply::HeadNumber(head_num)) => {
                let th = match self.tracker.head() {
                    Some(h) => Some(h.number),
                    None => None,
                };
                match th {
                    None => {
                        if self.start_block <= head_num {
                            self.phase = Phase::Forward { next: self.start_block, last: head_num };
                            PollStep::Request(PollRequest::BlockRef(self.start_block))
                        } else {
                            self.finish()
                        }
                    },
                    Some(th) => {
                        if head_num > th {
                            self.phase = Phase::Forward { next: th + 1, last: head_num };
                            PollStep::Request(PollRequest::BlockRef(th + 1))
                        } else {
                            self.phase = Phase::SameHeight { height: head_num };
                            PollStep::Request(PollRequest::BlockRef(head_num))
                        }
                    },
                }
            },
            (Phase::Forward { next, last }, PollReply::BlockRef(b)) => {
                let mut branch: Vec<BlockRef> = Vec::new();
                branch.push(b);
                assert(branch@ =~= seq![b]);
                self.walk(branch, Resume::Next { next, last })
            },
            (Phase::SameHeight { height }, PollReply::BlockRef(b)) => {
                let unchanged = match self.tracker.block_at(height) {
                    Some(known) => {
                        let r = known.hash.same_as(&b.hash);
                        proof {
                            if known.hash.0@ == b.hash.0@ {
                                assert(known.hash.0 == b.hash.0);
                            }
                        }
                        r
                    },
                    None => false,
                };
                if unchanged {
                    self.finish()
                } else {
                    let mut branch: Vec<BlockRef> = Vec::new();
                    branch.push(b);
                    assert(branch@ =~= seq![b]);
                    self.walk(branch, Resume::Finish)
                }
            },
            (Phase::Walking { branch, resume }, PollReply::BlockRef(p)) => {
                let mut branch = branch;
                branch.push(p);
                self.walk(branch, resume)
            },
            (Phase::Confirming { pending, resume }, PollReply::Transfers(events)) => {
                self.record_transfers(&events);
                self.drain(pending, resume)
            },
            (_, _) => {
                proof {
                    assert(false);
                }
                PollStep::HeightOverflow
            },
        }
    }
}

/// The messages a step leaves with its caller or keeps for later: those it
/// hands out when the poll finishes, else those the poll holds.
pub open spec fn carried_messages(tr: Transition) -> Seq<MessageView> {
    match tr.step {
        StepView::Finished(ms) => ms,
        _ => tr.msgs,
    }
}

/// `b` starts with `a`.
pub open spec fn extends(a: Seq<MessageView>, b: Seq<MessageView>) -> bool {
    a.len() <= b.len() && forall|i: int| 0 <= i < a.len() ==> #[trigger] b[i] == a[i]
}

/// Feeding pending blocks only adds messages.
proof fn lemma_drain_extends(t: TrackerView, pending: Seq<BlockRef>, msgs: Seq<MessageView>)
    ensures
        extends(msgs, drain_spec(t, pending, msgs).1),
    decreases pending.len(),
{
    if pending.len() > 0 && accepts_blocks(t) {
        let b = pending.last();
        let (t2, confirmed, orphaned) = observe_spec(t, b);
        let m2 = if orphaned.len() > 0 {
            msgs.push(MessageView::Reorged(orphaned))
        } else {
            msgs
        };
        assert(extends(msgs, m2));
        if confirmed.len() == 0 {
            lemma_drain_extends(t2, pending.drop_last(), m2);
            let out = drain_spec(t2, pending.drop_last(), m2).1;
            assert forall|i: int| 0 <= i < msgs.len() implies #[trigger] out[i] == msgs[i] by {
                assert(out[i] == m2[i]);
            }
        }
    }
}

/// Continuing a poll only adds messages, unless it stops on a height
/// overflow.
proof fn lemma_continue_extends(
    t: TrackerView,
    msgs: Seq<MessageView>,
    pending: Seq<BlockRef>,
    resume: Resume,
)
    ensures
        !(continue_spec(t, msgs, pending, resume).step is HeightOverflow) ==> extends(
            msgs,
            carried_messages(continue_spec(t, msgs, pending, resume)),
        ),
{
    lemma_drain_extends(t, pending, msgs);
}

/// Every transfer the source returns for a confirmed range is delivered:
/// on a `Transfers` reply the poll's messages, whether kept or handed out,
/// are the ones it had, then one `Confirmed` message per returned event, in
/// the order returned, then whatever the rest of the step adds. Only a
/// height overflow, which ends the poll, drops them.
pub proof fn law_transfers_reply_delivers_every_event(s: PollerView, events: Seq<ChainEvent>)
    requires
        s.phase is Confirming,
    ensures
        ({
            let tr = step_spec(s, ReplyView::Transfers(events));
            let out = carried_messages(tr);
            !(tr.step is HeightOverflow) ==> {
                &&& out.len() >= s.msgs.len() + events.len()
                &&& forall|i: int| 0 <= i < s.msgs.len() ==> #[trigger] out[i] == s.msgs[i]
                &&& forall|i: int|
                    0 <= i < events.len() ==> #[trigger] out[s.msgs.len() + i] == MessageView::Confirmed(
                        events[i],
                    )
            }
        }),
{
    match s.phase {
        PhaseView::Confirming { pending, resume } => {
            let m = s.msgs + confirmed_messages(events);
            lemma_continue_extends(s.tracker, m, pending, resume);
            let tr = step_spec(s, ReplyView::Transfers(events));
            let out = carried_messages(tr);
            if !(tr.step is HeightOverflow) {
                assert forall|i: int| 0 <= i < s.msgs.len() implies #[trigger] out[i] == s.msgs[i] by {
                    assert(out[i] == m[i]);
                }
                assert forall|i: int| 0 <= i < events.len() implies #[trigger] out[s.msgs.len() + i]
                    == MessageView::Confirmed(events[i]) by {
                    assert(out[s.msgs.len() + i] == m[s.msgs.len() + i]);
                }
            }
        },
        _ => {},
    }
}

/// Appending a message appends its content.
pub proof fn lemma_messages_view_push(ms: Seq<IndexerMessage>, m: IndexerMessage)
    ensures
        messages_view(ms.push(m)) == messages_view(ms).push(m@),
{
    assert(messages_view(ms.push(m)) =~= messages_view(ms).push(m@));
}

} // verus!
