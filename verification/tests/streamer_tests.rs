use rindexer_core::streamer::{
    next_block, LogStream, StreamAction, StreamEvent, StreamPhase, POLL_INTERVAL_MS,
    RETRY_BACKOFF_MS,
};
use rindexer_core::types::{
    Address, BlockRange, BlockRangeFilter, FetchError, Hash256, LogRecord, ProviderError,
};

fn addresses() -> Vec<Address> {
    vec![Address { hi: 1, lo: 2 }]
}

fn topics() -> Vec<Hash256> {
    vec![Hash256 { hi: 3, lo: 4 }]
}

fn filter(from: u64, to: u64) -> BlockRangeFilter {
    BlockRangeFilter { from_block: from, to_block: to, addresses: addresses(), topics: topics() }
}

fn log(block: u64, index: u64) -> LogRecord {
    LogRecord {
        address: Address { hi: 1, lo: 2 },
        topics: topics(),
        data: vec![],
        block_number: block,
        block_hash: Hash256 { hi: 0, lo: block as u128 },
        transaction_index: index,
        log_index: index,
    }
}

fn failure(message: &str) -> ProviderError {
    ProviderError { code: None, message: message.to_string() }
}

fn start(checkpoint: u64, head: u64, live: bool) -> LogStream {
    LogStream::start(checkpoint, head, addresses(), topics(), live)
}

/// A provider that holds one log in each of the given blocks and answers a
/// query with the logs of at most `page` blocks of the range.
fn answer(blocks: &[u64], f: &BlockRangeFilter, page: usize) -> Vec<LogRecord> {
    blocks
        .iter()
        .filter(|b| f.from_block <= **b && **b <= f.to_block)
        .take(page)
        .map(|b| log(*b, 0))
        .collect()
}

fn backfill(checkpoint: u64, head: u64, blocks: &[u64], page: usize) -> (Vec<BlockRangeFilter>, Vec<Vec<LogRecord>>, LogStream) {
    let mut stream = start(checkpoint, head, false);
    let mut action = stream.pending_action();
    let mut requests = vec![];
    let mut batches = vec![];
    for _ in 0..100 {
        match action {
            StreamAction::Fetch(f) => {
                let logs = answer(blocks, &f, page);
                requests.push(f);
                let step = stream.step(StreamEvent::Fetched(logs));
                if let Some(Ok(batch)) = step.emit {
                    batches.push(batch);
                }
                action = step.action;
            }
            StreamAction::Stop => break,
            other => panic!("unexpected action {:?}", other),
        }
    }
    (requests, batches, stream)
}

#[test]
fn start_backfills_from_the_block_after_the_checkpoint() {
    let stream = start(100, 110, false);
    assert_eq!(stream.phase(), StreamPhase::Backfilling);
    assert_eq!(stream.range(), BlockRange { from: 101, to: 110 });
    assert_eq!(stream.snapshot_head(), 110);
    assert!(!stream.live_indexing());
    assert!(!stream.is_stopped());
    assert_eq!(stream.pending_action(), StreamAction::Fetch(filter(101, 110)));
}

#[test]
fn backfill_covers_every_block_once_then_stops() {
    let blocks: Vec<u64> = (95..=115).collect();
    let (requests, batches, stream) = backfill(100, 110, &blocks, 1000);
    assert_eq!(requests, vec![filter(101, 110)]);
    let seen: Vec<u64> = batches.iter().flatten().map(|l| l.block_number).collect();
    assert_eq!(seen, (101..=110).collect::<Vec<u64>>());
    assert_eq!(stream.phase(), StreamPhase::Stopped);
    assert!(stream.is_stopped());
}

#[test]
fn backfill_in_pages_covers_every_block_once_then_stops() {
    let blocks: Vec<u64> = (95..=115).collect();
    let (requests, batches, stream) = backfill(100, 110, &blocks, 3);
    assert_eq!(
        requests,
        vec![filter(101, 110), filter(104, 110), filter(107, 110), filter(110, 110)]
    );
    assert_eq!(batches.len(), 4);
    let seen: Vec<u64> = batches.iter().flatten().map(|l| l.block_number).collect();
    assert_eq!(seen, (101..=110).collect::<Vec<u64>>());
    assert!(stream.is_stopped());
}

#[test]
fn backfill_without_logs_stops_after_one_query() {
    let (requests, batches, stream) = backfill(100, 110, &[], 10);
    assert_eq!(requests, vec![filter(101, 110)]);
    assert!(batches.is_empty());
    assert!(stream.is_stopped());
}

#[test]
fn checkpoint_at_the_head_is_clamped_before_dispatch() {
    let stream = start(110, 110, false);
    assert_eq!(stream.range(), BlockRange { from: 111, to: 110 });
    assert_eq!(stream.pending_action(), StreamAction::Fetch(filter(110, 110)));
}

#[test]
fn non_empty_batch_is_emitted_and_advances_the_filter() {
    let mut stream = start(100, 110, true);
    let step = stream.step(StreamEvent::Fetched(vec![log(101, 0), log(103, 0), log(103, 1)]));
    assert_eq!(step.emit, Some(Ok(vec![log(101, 0), log(103, 0), log(103, 1)])));
    assert_eq!(step.action, StreamAction::Fetch(filter(104, 110)));
    assert_eq!(stream.phase(), StreamPhase::Backfilling);
    assert_eq!(stream.range(), BlockRange { from: 104, to: 110 });
}

#[test]
fn live_stream_goes_idle_when_caught_up_and_polls_the_head() {
    let mut stream = start(100, 110, true);
    let step = stream.step(StreamEvent::Fetched(vec![log(110, 0)]));
    assert_eq!(step.emit, Some(Ok(vec![log(110, 0)])));
    assert_eq!(step.action, StreamAction::PollHead { sleep_ms: POLL_INTERVAL_MS });
    assert_eq!(stream.phase(), StreamPhase::Idle);
    assert_eq!(stream.range(), BlockRange { from: 111, to: 110 });

    let step = stream.step(StreamEvent::HeadObserved(115));
    assert_eq!(step.emit, None);
    assert_eq!(step.action, StreamAction::Fetch(filter(115, 115)));
    assert_eq!(stream.phase(), StreamPhase::Backfilling);
    assert_eq!(stream.snapshot_head(), 110);

    let step = stream.step(StreamEvent::Fetched(vec![]));
    assert_eq!(step.emit, None);
    assert_eq!(step.action, StreamAction::PollHead { sleep_ms: 500 });
    assert_eq!(stream.phase(), StreamPhase::Idle);

    let step = stream.step(StreamEvent::HeadObserved(116));
    assert_eq!(step.action, StreamAction::Fetch(filter(116, 116)));
    let step = stream.step(StreamEvent::Fetched(vec![log(116, 0)]));
    assert_eq!(step.emit, Some(Ok(vec![log(116, 0)])));
    assert_eq!(step.action, StreamAction::PollHead { sleep_ms: 500 });
    assert_eq!(stream.phase(), StreamPhase::Idle);
}

#[test]
fn empty_fetch_with_live_indexing_goes_idle() {
    let mut stream = start(100, 110, true);
    let step = stream.step(StreamEvent::Fetched(vec![]));
    assert_eq!(step.emit, None);
    assert_eq!(step.action, StreamAction::PollHead { sleep_ms: 500 });
    assert_eq!(stream.phase(), StreamPhase::Idle);
    assert_eq!(stream.range(), BlockRange { from: 101, to: 110 });
}

#[test]
fn narrower_range_is_retried_at_once() {
    let mut stream = start(0, 1000, false);
    let step = stream.step(StreamEvent::FetchFailed(failure(
        "query returned more than 10000 results. this block range should work: [0x1, 0xc8]",
    )));
    assert_eq!(step.emit, None);
    assert_eq!(step.action, StreamAction::Fetch(filter(1, 200)));
    assert_eq!(stream.phase(), StreamPhase::Backfilling);
    let step = stream.step(StreamEvent::Fetched(vec![log(150, 0)]));
    assert_eq!(step.action, StreamAction::Fetch(filter(151, 1000)));
}

#[test]
fn reversed_suggestion_is_clamped_in_the_stream() {
    let mut stream = start(0, 1000, true);
    let step = stream.step(StreamEvent::FetchFailed(failure("this block range should work: [0x20, 0x10]")));
    assert_eq!(step.action, StreamAction::Fetch(filter(16, 16)));
    assert_eq!(stream.range(), BlockRange { from: 16, to: 16 });
}

#[test]
fn unresolved_error_backs_off_when_live() {
    let mut stream = start(100, 110, true);
    let step = stream.step(StreamEvent::FetchFailed(failure("rate limited")));
    assert_eq!(step.emit, None);
    assert_eq!(step.action, StreamAction::Backoff { sleep_ms: RETRY_BACKOFF_MS });
    assert_eq!(stream.phase(), StreamPhase::Retrying { backoff_ms: 500 });
    let step = stream.step(StreamEvent::BackoffElapsed);
    assert_eq!(step.emit, None);
    assert_eq!(step.action, StreamAction::Fetch(filter(101, 110)));
    assert_eq!(stream.phase(), StreamPhase::Backfilling);
}

#[test]
fn unresolved_error_is_surfaced_and_stops_without_live_indexing() {
    let mut stream = start(100, 110, false);
    let step = stream.step(StreamEvent::FetchFailed(failure("rate limited")));
    assert_eq!(
        step.emit,
        Some(Err(FetchError::ProviderTransportError(failure("rate limited"))))
    );
    assert_eq!(step.action, StreamAction::Stop);
    assert!(stream.is_stopped());
}

#[test]
fn closed_consumer_stops_the_stream_in_every_phase() {
    let mut backfilling = start(100, 110, true);
    assert_eq!(backfilling.step(StreamEvent::ConsumerClosed).action, StreamAction::Stop);
    assert!(backfilling.is_stopped());

    let mut idle = start(100, 110, true);
    idle.step(StreamEvent::Fetched(vec![]));
    assert_eq!(idle.step(StreamEvent::ConsumerClosed).action, StreamAction::Stop);
    assert!(idle.is_stopped());

    let mut retrying = start(100, 110, true);
    retrying.step(StreamEvent::FetchFailed(failure("down")));
    assert_eq!(retrying.step(StreamEvent::ConsumerClosed).action, StreamAction::Stop);
    assert!(retrying.is_stopped());
}

#[test]
fn stopped_stream_ignores_everything() {
    let mut stream = start(100, 110, false);
    stream.step(StreamEvent::Fetched(vec![]));
    assert!(stream.is_stopped());
    for event in [
        StreamEvent::Fetched(vec![log(105, 0)]),
        StreamEvent::FetchFailed(failure("this block range should work: [0x1, 0x5]")),
        StreamEvent::HeadObserved(200),
        StreamEvent::BackoffElapsed,
        StreamEvent::ConsumerClosed,
    ] {
        let step = stream.step(event);
        assert_eq!(step.emit, None);
        assert_eq!(step.action, StreamAction::Stop);
        assert!(stream.is_stopped());
        assert_eq!(stream.range(), BlockRange { from: 101, to: 110 });
    }
}

#[test]
fn event_that_the_phase_does_not_wait_for_repeats_the_pending_action() {
    let mut stream = start(100, 110, true);
    let step = stream.step(StreamEvent::HeadObserved(300));
    assert_eq!(step.emit, None);
    assert_eq!(step.action, StreamAction::Fetch(filter(101, 110)));
    let step = stream.step(StreamEvent::BackoffElapsed);
    assert_eq!(step.action, StreamAction::Fetch(filter(101, 110)));

    stream.step(StreamEvent::Fetched(vec![]));
    let step = stream.step(StreamEvent::Fetched(vec![log(105, 0)]));
    assert_eq!(step.emit, None);
    assert_eq!(step.action, StreamAction::PollHead { sleep_ms: 500 });
    assert_eq!(stream.phase(), StreamPhase::Idle);
}

#[test]
fn explicit_hint_overrides_the_message() {
    let mut stream = start(0, 1000, false);
    let step = stream.step_with_hint(
        StreamEvent::FetchFailed(failure("no suggestion here")),
        Some(BlockRange { from: 5, to: 9 }),
    );
    assert_eq!(step.action, StreamAction::Fetch(filter(5, 9)));
    let mut other = start(0, 1000, false);
    let step = other.step_with_hint(
        StreamEvent::FetchFailed(failure("this block range should work: [0x1, 0x5]")),
        None,
    );
    assert_eq!(step.action, StreamAction::Stop);
}

#[test]
fn rewind_reopens_the_backfill() {
    let mut stream = start(100, 110, true);
    stream.step(StreamEvent::Fetched(vec![log(110, 0)]));
    assert_eq!(stream.phase(), StreamPhase::Idle);
    stream.rewind(97, 120);
    assert_eq!(stream.phase(), StreamPhase::Backfilling);
    assert_eq!(stream.range(), BlockRange { from: 98, to: 120 });
    assert_eq!(stream.snapshot_head(), 120);
    assert_eq!(stream.pending_action(), StreamAction::Fetch(filter(98, 120)));
}

#[test]
fn rewind_leaves_a_stopped_stream_stopped() {
    let mut stream = start(100, 110, false);
    stream.step(StreamEvent::ConsumerClosed);
    stream.rewind(50, 120);
    assert!(stream.is_stopped());
    assert_eq!(stream.range(), BlockRange { from: 101, to: 110 });
    assert_eq!(stream.snapshot_head(), 110);
}

#[test]
fn last_block_of_the_chain_has_no_successor() {
    assert_eq!(next_block(0), 1);
    assert_eq!(next_block(41), 42);
    assert_eq!(next_block(u64::MAX), u64::MAX);
    let mut stream = start(0, u64::MAX, false);
    let step = stream.step(StreamEvent::Fetched(vec![log(u64::MAX, 0)]));
    assert_eq!(step.action, StreamAction::Stop);
    assert!(stream.is_stopped());
}

#[test]
fn stream_started_on_a_filter_takes_its_upper_bound_as_target() {
    let stream = LogStream::start_with_filter(filter(0, 50), false);
    assert_eq!(stream.phase(), StreamPhase::Backfilling);
    assert_eq!(stream.range(), BlockRange { from: 0, to: 50 });
    assert_eq!(stream.snapshot_head(), 50);
    assert_eq!(stream.pending_action(), StreamAction::Fetch(filter(0, 50)));
    let reversed = LogStream::start_with_filter(filter(60, 50), true);
    assert_eq!(reversed.pending_action(), StreamAction::Fetch(filter(50, 50)));
    assert!(reversed.live_indexing());
}
