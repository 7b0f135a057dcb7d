//! The live log streamer: the state machine of one (contract, event) stream.
//!
//! The machine decides; its driver performs. The driver carries out the
//! pending action (a log query, a sleep followed by a head query, a backoff
//! sleep), reports what happened as a `StreamEvent`, forwards what the step
//! emits to the stream's consumer, and goes on with the action that the step
//! returns.
//!
//! After a batch the next query starts at the block after the batch's last
//! log. The stream thereby relies on the provider to answer a query with
//! all the logs of every block that the answer reaches: a provider that
//! cuts an answer in the middle of a block loses the rest of that block.
//!
//! While indexing live, each poll asks for the logs of the block at the
//! chain head as it stands then.

use vstd::prelude::*;
use crate::negotiator::{negotiated_range, retry_with_block_range};
use crate::types::{
    Address, BlockRange, BlockRangeFilter, FetchError, FilterView, Hash256, LogRecord,
    ProviderError,
};

verus! {

/// Milliseconds to sleep before asking for the chain head again.
pub const POLL_INTERVAL_MS: u64 = 500;

/// Milliseconds to sleep before repeating a failed query.
pub const RETRY_BACKOFF_MS: u64 = 500;

/// Where a stream stands.
#[derive(Clone, Copy, Debug, PartialEq, Eq, Structural)]
pub enum StreamPhase {
    /// A log query is due or under way.
    Backfilling,
    /// Caught up; waiting to learn the new chain head. Live indexing only.
    Idle,
    /// The last query failed; waiting out the backoff before repeating it.
    Retrying { backoff_ms: u64 },
    /// Terminal: the scan is complete, the consumer is gone, or an error
    /// was handed downstream.
    Stopped,
}

/// What the driver reports to the machine.
#[derive(Clone, Debug, PartialEq, Eq)]
pub enum StreamEvent {
    /// The provider answered the query with these logs.
    Fetched(Vec<LogRecord>),
    /// The provider answered the query with an error.
    FetchFailed(ProviderError),
    /// The poll interval has passed and the chain head is at this block.
    HeadObserved(u64),
    /// The backoff interval has passed.
    BackoffElapsed,
    /// The consumer closed its end of the channel.
    ConsumerClosed,
    /// The process is shutting down: the stream is to end, and the answer
    /// to a query that is still under way is to be dropped.
    StopRequested,
}

/// What the driver is to do next.
#[derive(Clone, Debug, PartialEq, Eq)]
pub enum StreamAction {
    /// Query the provider with this filter and report the answer.
    Fetch(BlockRangeFilter),
    /// Sleep, ask the provider for the chain head and report it.
    PollHead { sleep_ms: u64 },
    /// Sleep and report that the backoff has elapsed.
    Backoff { sleep_ms: u64 },
    /// Nothing more: the stream has ended.
    Stop,
}

/// The mathematical content of a `StreamAction`.
pub enum ActionView {
    Fetch(FilterView),
    PollHead { sleep_ms: u64 },
    Backoff { sleep_ms: u64 },
    Stop,
}

impl View for StreamAction {
    type V = ActionView;

    open spec fn view(&self) -> ActionView {
        match *self {
            StreamAction::Fetch(f) => ActionView::Fetch(f@),
            StreamAction::PollHead { sleep_ms } => ActionView::PollHead { sleep_ms },
            StreamAction::Backoff { sleep_ms } => ActionView::Backoff { sleep_ms },
            StreamAction::Stop => ActionView::Stop,
        }
    }
}

/// The outcome of one step: what goes to the consumer, if anything, and what
/// the driver does next.
#[derive(Debug, PartialEq, Eq)]
pub struct StreamStep {
    pub emit: Option<Result<Vec<LogRecord>, FetchError>>,
    pub action: StreamAction,
}

/// The block after `block`, or `block` itself where there is none.
pub open spec fn spec_next_block(block: u64) -> u64 {
    if block < u64::MAX {
        (block + 1) as u64
    } else {
        block
    }
}

/// The block after `block`, or `block` itself where there is none.
pub fn next_block(block: u64) -> (r: u64)
    ensures
        r == spec_next_block(block),
{
    if block < u64::MAX {
        block + 1
    } else {
        block
    }
}

/// The mathematical content of a `LogStream`.
pub struct StreamView {
    pub phase: StreamPhase,
    pub filter: FilterView,
    pub snapshot_head: u64,
    pub live_indexing: bool,
}

impl StreamView {
    /// The same stream in another phase.
    pub open spec fn with_phase(self, phase: StreamPhase) -> StreamView {
        StreamView { phase: phase, ..self }
    }

    /// The same stream with its filter moved to `range`.
    pub open spec fn with_range(self, range: BlockRange) -> StreamView {
        StreamView { filter: self.filter.with_range(range), ..self }
    }

    /// The state of a stream that starts after `checkpoint_block` and
    /// backfills up to `snapshot_head`.
    pub open spec fn initial(
        checkpoint_block: u64,
        snapshot_head: u64,
        addresses: Seq<Address>,
        topics: Seq<Hash256>,
        live_indexing: bool,
    ) -> StreamView {
        StreamView {
            phase: StreamPhase::Backfilling,
            filter: FilterView {
                range: BlockRange { from: spec_next_block(checkpoint_block), to: snapshot_head },
                addresses: addresses,
                topics: topics,
            },
            snapshot_head: snapshot_head,
            live_indexing: live_indexing,
        }
    }

    /// The query as it is dispatched: the filter with its range clamped.
    pub open spec fn request(self) -> FilterView {
        self.filter.with_range(self.filter.range.spec_normalized())
    }

    /// The action that is due in this state.
    pub open spec fn pending(self) -> ActionView {
        match self.phase {
            StreamPhase::Backfilling => ActionView::Fetch(self.request()),
            StreamPhase::Idle => ActionView::PollHead { sleep_ms: POLL_INTERVAL_MS },
            StreamPhase::Retrying { backoff_ms } => ActionView::Backoff { sleep_ms: backoff_ms },
            StreamPhase::Stopped => ActionView::Stop,
        }
    }

    /// Where the stream rests once nothing is left to fetch: waiting for
    /// new blocks when indexing live, stopped otherwise.
    pub open spec fn caught_up_phase(self) -> StreamPhase {
        if self.live_indexing {
            StreamPhase::Idle
        } else {
            StreamPhase::Stopped
        }
    }

    /// The state after a batch of logs arrived while backfilling.
    pub open spec fn after_logs(self, logs: Seq<LogRecord>) -> StreamView {
        if logs.len() == 0 {
            self.with_phase(self.caught_up_phase())
        } else {
            let advanced = self.with_range(
                BlockRange {
                    from: spec_next_block(logs.last().block_number),
                    to: self.snapshot_head,
                },
            );
            if logs.last().block_number < self.snapshot_head {
                advanced.with_phase(StreamPhase::Backfilling)
            } else {
                advanced.with_phase(self.caught_up_phase())
            }
        }
    }

    /// The state after a query failed while backfilling; `hint` is the
    /// narrower range that the error suggested, if any.
    pub open spec fn after_failure(self, hint: Option<BlockRange>) -> StreamView {
        match hint {
            Some(range) => self.with_range(range.spec_normalized()),
            None => if self.live_indexing {
                self.with_phase(StreamPhase::Retrying { backoff_ms: RETRY_BACKOFF_MS })
            } else {
                self.with_phase(StreamPhase::Stopped)
            },
        }
    }

    /// The state after `event`. An event that the phase does not wait for
    /// leaves the state as it is.
    pub open spec fn after(self, event: StreamEvent, hint: Option<BlockRange>) -> StreamView {
        match (self.phase, event) {
            (StreamPhase::Stopped, _) => self,
            (_, StreamEvent::ConsumerClosed) => self.with_phase(StreamPhase::Stopped),
            (_, StreamEvent::StopRequested) => self.with_phase(StreamPhase::Stopped),
            (StreamPhase::Backfilling, StreamEvent::Fetched(logs)) => self.after_logs(logs@),
            (StreamPhase::Backfilling, StreamEvent::FetchFailed(_)) => self.after_failure(hint),
            (StreamPhase::Idle, StreamEvent::HeadObserved(head)) => self.with_range(
                BlockRange { from: head, to: head },
            ).with_phase(StreamPhase::Backfilling),
            (StreamPhase::Retrying { .. }, StreamEvent::BackoffElapsed) => self.with_phase(
                StreamPhase::Backfilling,
            ),
            _ => self,
        }
    }

    /// What the step on `event` hands to the consumer: a non-empty batch as
    /// it came, or the error that ends a stream without live indexing.
    pub open spec fn emitted(self, event: StreamEvent, hint: Option<BlockRange>) -> Option<
        Result<Vec<LogRecord>, FetchError>,
    > {
        match (self.phase, event) {
            (StreamPhase::Backfilling, StreamEvent::Fetched(logs)) => if logs@.len() == 0 {
                None
            } else {
                Some(Ok(logs))
            },
            (StreamPhase::Backfilling, StreamEvent::FetchFailed(error)) => if hint is None
                && !self.live_indexing {
                Some(Err(FetchError::ProviderTransportError(error)))
            } else {
                None
            },
            _ => None,
        }
    }
}

/// The range that the error of a failed query suggests; no other event
/// suggests one.
pub open spec fn hint_for(event: StreamEvent) -> Option<BlockRange> {
    match event {
        StreamEvent::FetchFailed(error) => negotiated_range(error.message@),
        _ => None,
    }
}

/// The state of one event stream.
#[derive(Clone, Debug, PartialEq, Eq)]
pub struct LogStream {
    phase: StreamPhase,
    filter: BlockRangeFilter,
    snapshot_head: u64,
    live_indexing: bool,
}

impl View for LogStream {
    type V = StreamView;

    closed spec fn view(&self) -> StreamView {
        StreamView {
            phase: self.phase,
            filter: self.filter@,
            snapshot_head: self.snapshot_head,
            live_indexing: self.live_indexing,
        }
    }
}

impl LogStream {
    /// Starts a stream whose checkpoint is at `checkpoint_block`: it will
    /// backfill from the next block up to `snapshot_head`, the chain head
    /// observed now.
    pub fn start(
        checkpoint_block: u64,
        snapshot_head: u64,
        addresses: Vec<Address>,
        topics: Vec<Hash256>,
        live_indexing: bool,
    ) -> (s: LogStream)
        ensures
            s@ == StreamView::initial(
                checkpoint_block,
                snapshot_head,
                addresses@,
                topics@,
                live_indexing,
            ),
    {
        LogStream {
            phase: StreamPhase::Backfilling,
            filter: BlockRangeFilter {
                from_block: next_block(checkpoint_block),
                to_block: snapshot_head,
                addresses: addresses,
                topics: topics,
            },
            snapshot_head: snapshot_head,
            live_indexing: live_indexing,
        }
    }

    /// Starts a stream on a filter of its own: it will backfill the filter's
    /// range and takes the filter's upper bound for the chain head observed
    /// now.
    pub fn start_with_filter(filter: BlockRangeFilter, live_indexing: bool) -> (s: LogStream)
        ensures
            s@ == (StreamView {
                phase: StreamPhase::Backfilling,
                filter: filter@,
                snapshot_head: filter@.range.to,
                live_indexing: live_indexing,
            }),
    {
        let snapshot_head: u64 = filter.to_block;
        LogStream {
            phase: StreamPhase::Backfilling,
            filter: filter,
            snapshot_head: snapshot_head,
            live_indexing: live_indexing,
        }
    }

    /// The phase that the stream is in.
    pub fn phase(&self) -> (p: StreamPhase)
        ensures
            p == self@.phase,
    {
        self.phase
    }

    /// The range of the stream's current filter.
    pub fn range(&self) -> (r: BlockRange)
        ensures
            r == self@.filter.range,
    {
        self.filter.range()
    }

    /// The backfill target: the chain head observed when the stream started
    /// or was last rewound.
    pub fn snapshot_head(&self) -> (h: u64)
        ensures
            h == self@.snapshot_head,
    {
        self.snapshot_head
    }

    /// Whether the stream goes on polling once the backfill is done.
    pub fn live_indexing(&self) -> (b: bool)
        ensures
            b == self@.live_indexing,
    {
        self.live_indexing
    }

    /// The stream has ended.
    pub fn is_stopped(&self) -> (b: bool)
        ensures
            b == (self@.phase == StreamPhase::Stopped),
    {
        match self.phase {
            StreamPhase::Stopped => true,
            _ => false,
        }
    }

    /// The action that is due. A query always carries an ordered range.
    pub fn pending_action(&self) -> (a: StreamAction)
        ensures
            a@ == self@.pending(),
            a@ matches ActionView::Fetch(f) ==> f.range.is_ordered(),
    {
        match self.phase {
            StreamPhase::Backfilling => StreamAction::Fetch(self.filter.normalized()),
            StreamPhase::Idle => StreamAction::PollHead { sleep_ms: POLL_INTERVAL_MS },
            StreamPhase::Retrying { backoff_ms } => StreamAction::Backoff { sleep_ms: backoff_ms },
            StreamPhase::Stopped => StreamAction::Stop,
        }
    }

    fn caught_up(&self) -> (p: StreamPhase)
        ensures
            p == self@.caught_up_phase(),
    {
        if self.live_indexing {
            StreamPhase::Idle
        } else {
            StreamPhase::Stopped
        }
    }

    fn set_range(&mut self, range: BlockRange)
        ensures
            final(self)@ == old(self)@.with_range(range),
    {
        self.filter.from_block = range.from;
        self.filter.to_block = range.to;
    }

    /// Takes one step on `event`, where `hint` is the narrower range that a
    /// failed query's error suggested, if it suggested one.
    pub fn step_with_hint(&mut self, event: StreamEvent, hint: Option<BlockRange>) -> (step:
        StreamStep)
        ensures
            final(self)@ == old(self)@.after(event, hint),
            step.emit == old(self)@.emitted(event, hint),
            step.action@ == final(self)@.pending(),
            step.action@ matches ActionView::Fetch(f) ==> f.range.is_ordered(),
    {
        let mut emit: Option<Result<Vec<LogRecord>, FetchError>> = None;
        match self.phase {
            StreamPhase::Stopped => {},
            StreamPhase::Backfilling => match event {
                StreamEvent::ConsumerClosed => {
                    self.phase = StreamPhase::Stopped;
                },
                StreamEvent::StopRequested => {
                    self.phase = StreamPhase::Stopped;
                },
                StreamEvent::Fetched(logs) => {
                    if logs.len() == 0 {
                        self.phase = self.caught_up();
                    } else {
                        let last: u64 = logs[logs.len() - 1].block_number;
                        let target: u64 = self.snapshot_head;
                        self.set_range(BlockRange { from: next_block(last), to: target });
                        if last < target {
                            self.phase = StreamPhase::Backfilling;
                        } else {
                            self.phase = self.caught_up();
                        }
                        emit = Some(Ok(logs));
                    }
                },
                StreamEvent::FetchFailed(error) => match hint {
                    Some(range) => {
                        self.set_range(range.normalized());
                    },
                    None => {
                        if self.live_indexing {
                            self.phase = StreamPhase::Retrying { backoff_ms: RETRY_BACKOFF_MS };
                        } else {
                            self.phase = StreamPhase::Stopped;
                            emit = Some(Err(FetchError::ProviderTransportError(error)));
                        }
                    },
                },
                _ => {},
            },
            StreamPhase::Idle => match event {
                StreamEvent::ConsumerClosed => {
                    self.phase = StreamPhase::Stopped;
                },
                StreamEvent::StopRequested => {
                    self.phase = StreamPhase::Stopped;
                },
                StreamEvent::HeadObserved(head) => {
                    self.set_range(BlockRange { from: head, to: head });
                    self.phase = StreamPhase::Backfilling;
                },
                _ => {},
            },
            StreamPhase::Retrying { backoff_ms } => match event {
                StreamEvent::ConsumerClosed => {
                    self.phase = StreamPhase::Stopped;
                },
                StreamEvent::StopRequested => {
                    self.phase = StreamPhase::Stopped;
                },
                StreamEvent::BackoffElapsed => {
                    self.phase = StreamPhase::Backfilling;
                },
                _ => {},
            },
        }
        StreamStep { emit: emit, action: self.pending_action() }
    }

    /// Takes one step on `event`. The error of a failed query is searched
    /// for a narrower range first; where it suggests one, the query is
    /// repeated over that range.
    pub fn step(&mut self, event: StreamEvent) -> (step: StreamStep)
        ensures
            final(self)@ == old(self)@.after(event, hint_for(event)),
            step.emit == old(self)@.emitted(event, hint_for(event)),
            step.action@ == final(self)@.pending(),
            step.action@ matches ActionView::Fetch(f) ==> f.range.is_ordered(),
    {
        let hint = match &event {
            StreamEvent::FetchFailed(error) => retry_with_block_range(error),
            _ => None,
        };
        self.step_with_hint(event, hint)
    }

    /// Re-opens the backfill after a reorg: the stream fetches again from
    /// the block after `rolled_back_to` up to `head`, the chain head now.
    /// A stopped stream stays stopped.
    pub fn rewind(&mut self, rolled_back_to: u64, head: u64)
        ensures
            final(self)@ == old(self)@.rewound(rolled_back_to, head),
    {
        match self.phase {
            StreamPhase::Stopped => {},
            _ => {
                self.set_range(BlockRange { from: next_block(rolled_back_to), to: head });
                self.snapshot_head = head;
                self.phase = StreamPhase::Backfilling;
            },
        }
    }
}

impl StreamView {
    /// The state after a rewind to `rolled_back_to` with the chain head at
    /// `head`.
    pub open spec fn rewound(self, rolled_back_to: u64, head: u64) -> StreamView {
        if self.phase == StreamPhase::Stopped {
            self
        } else {
            StreamView {
                phase: StreamPhase::Backfilling,
                filter: self.filter.with_range(
                    BlockRange { from: spec_next_block(rolled_back_to), to: head },
                ),
                snapshot_head: head,
                live_indexing: self.live_indexing,
            }
        }
    }
}

/// Every query that a stream sends has `from <= to`: in whatever state it
/// is and whatever happens, the action that is due never carries a
/// reversed range.
pub proof fn lemma_requests_are_ordered(s: StreamView, event: StreamEvent, hint: Option<BlockRange>)
    ensures
        s.pending() matches ActionView::Fetch(f) ==> f.range.is_ordered(),
        s.after(event, hint).pending() matches ActionView::Fetch(f) ==> f.range.is_ordered(),
{
}

/// A stopped stream stays stopped: no event changes it, nothing is emitted
/// and nothing is left to do.
pub proof fn lemma_stopped_is_terminal(s: StreamView, event: StreamEvent, hint: Option<BlockRange>)
    requires
        s.phase == StreamPhase::Stopped,
    ensures
        s.after(event, hint) == s,
        s.emitted(event, hint) is None,
        s.pending() == ActionView::Stop,
{
}

/// No event changes what the stream was started with: its backfill
/// target, its mode, its addresses and its topics.
pub proof fn lemma_configuration_is_kept(s: StreamView, event: StreamEvent, hint: Option<BlockRange>)
    ensures
        s.after(event, hint).snapshot_head == s.snapshot_head,
        s.after(event, hint).live_indexing == s.live_indexing,
        s.after(event, hint).filter.addresses == s.filter.addresses,
        s.after(event, hint).filter.topics == s.filter.topics,
{
}

/// A batch moves the stream past its last block. While blocks are left
/// below the target, the next query runs from the block after the batch's
/// last one up to the target; once none is left, the stream rests.
pub proof fn lemma_batch_advances(s: StreamView, logs: Vec<LogRecord>)
    requires
        s.phase == StreamPhase::Backfilling,
        logs@.len() > 0,
    ensures
        s.emitted(StreamEvent::Fetched(logs), None) == Some(
            Ok::<Vec<LogRecord>, FetchError>(logs),
        ),
        logs@.last().block_number < s.snapshot_head ==> s.after(
            StreamEvent::Fetched(logs),
            None,
        ).pending() == ActionView::Fetch(
            s.filter.with_range(
                BlockRange {
                    from: (logs@.last().block_number + 1) as u64,
                    to: s.snapshot_head,
                },
            ),
        ),
        logs@.last().block_number >= s.snapshot_head ==> s.after(
            StreamEvent::Fetched(logs),
            None,
        ).phase == s.caught_up_phase(),
{
}

/// Without live indexing a stream sleeps for nothing: every step ends in
/// a query or in the end of the stream.
pub proof fn lemma_backfill_only_never_waits(
    s: StreamView,
    event: StreamEvent,
    hint: Option<BlockRange>,
)
    requires
        !s.live_indexing,
        s.phase == StreamPhase::Backfilling || s.phase == StreamPhase::Stopped,
    ensures
        s.after(event, hint).phase == StreamPhase::Backfilling || s.after(event, hint).phase
            == StreamPhase::Stopped,
{
}

/// After a rollback the backfill resumes from the rolled-back point: the
/// next query of a rewound stream starts at the block after it.
pub proof fn lemma_rewind_resumes(s: StreamView, rolled_back_to: u64, head: u64)
    requires
        s.phase != StreamPhase::Stopped,
    ensures
        s.rewound(rolled_back_to, head).pending() == ActionView::Fetch(
            s.filter.with_range(
                (BlockRange {
                    from: spec_next_block(rolled_back_to),
                    to: head,
                }).spec_normalized(),
            ),
        ),
        rolled_back_to < head ==> s.rewound(rolled_back_to, head).request().range == (BlockRange {
            from: (rolled_back_to + 1) as u64,
            to: head,
        }),
{
}

/// A closed consumer and a stop request end the stream in every phase,
/// and nothing is emitted on the way.
pub proof fn lemma_stop_ends_the_stream(s: StreamView, hint: Option<BlockRange>)
    ensures
        s.after(StreamEvent::ConsumerClosed, hint).phase == StreamPhase::Stopped,
        s.after(StreamEvent::StopRequested, hint).phase == StreamPhase::Stopped,
        s.emitted(StreamEvent::ConsumerClosed, hint) is None,
        s.emitted(StreamEvent::StopRequested, hint) is None,
{
}

/// A backfill without live indexing that is answered in full emits the
/// logs of its range once and stops. Where the answer to the first query
/// holds logs that end before the target, one more query asks for the
/// blocks after them; it comes back empty, and the stream stops without
/// emitting again.
pub proof fn lemma_full_answer_ends_backfill(
    checkpoint_block: u64,
    snapshot_head: u64,
    addresses: Seq<Address>,
    topics: Seq<Hash256>,
    logs: Vec<LogRecord>,
    rest: Vec<LogRecord>,
)
    requires
        checkpoint_block < snapshot_head,
        logs@.len() > 0,
        rest@.len() == 0,
    ensures
        ({
            let s0 = StreamView::initial(checkpoint_block, snapshot_head, addresses, topics, false);
            let s1 = s0.after(StreamEvent::Fetched(logs), None);
            let s2 = s1.after(StreamEvent::Fetched(rest), None);
            &&& s0.pending() == ActionView::Fetch(
                FilterView {
                    range: BlockRange { from: (checkpoint_block + 1) as u64, to: snapshot_head },
                    addresses: addresses,
                    topics: topics,
                },
            )
            &&& s0.emitted(StreamEvent::Fetched(logs), None) == Some(
                Ok::<Vec<LogRecord>, FetchError>(logs),
            )
            &&& logs@.last().block_number >= snapshot_head ==> s1.phase == StreamPhase::Stopped
            &&& logs@.last().block_number < snapshot_head ==> {
                &&& s1.pending() == ActionView::Fetch(
                    FilterView {
                        range: BlockRange {
                            from: (logs@.last().block_number + 1) as u64,
                            to: snapshot_head,
                        },
                        addresses: addresses,
                        topics: topics,
                    },
                )
                &&& s1.emitted(StreamEvent::Fetched(rest), None) is None
                &&& s2.phase == StreamPhase::Stopped
            }
        }),
{
}

} // verus!
