use rindexer_core::checkpoint::{Checkpoint, CheckpointStore, StoreError, StreamId};
use rindexer_core::dependency::{EventsDependencyTree, Gate};
use rindexer_core::progress::{advance, roll_back};
use rindexer_core::reorg::{ObservedBlock, ReorgStep, ReorgWindow};
use rindexer_core::streamer::{LogStream, StreamAction, StreamEvent, StreamPhase, RETRY_BACKOFF_MS};
use rindexer_core::types::{
    Address, BlockRange, BlockRangeFilter, Contract, Event, EventRef, Hash256, Indexer, LogRecord,
};

fn id() -> StreamId {
    StreamId { indexer: "main".to_string(), contract: "Token".to_string(), event: "Transfer".to_string() }
}

fn h(n: u128) -> Hash256 {
    Hash256 { hi: 0, lo: n }
}

fn block(number: u64, hash: u128) -> ObservedBlock {
    ObservedBlock { number, hash: h(hash) }
}

fn at(number: u64, hash: u128) -> Checkpoint {
    Checkpoint { last_synced_block: number, last_synced_block_hash: h(hash) }
}

fn log(block: u64) -> LogRecord {
    LogRecord {
        address: Address { hi: 0, lo: 0 },
        topics: vec![],
        data: vec![],
        block_number: block,
        block_hash: h(block as u128),
        transaction_index: 0,
        log_index: 0,
    }
}

fn entries(w: &ReorgWindow) -> Vec<ObservedBlock> {
    (0..w.len()).map(|i| w.get(i).unwrap()).collect()
}

#[test]
fn advancing_saves_the_checkpoint_and_records_the_block() {
    let mut store = CheckpointStore::new();
    let mut window = ReorgWindow::new(3);
    assert_eq!(advance(&mut store, &mut window, id(), block(100, 1)), Ok(()));
    assert_eq!(advance(&mut store, &mut window, id(), block(101, 2)), Ok(()));
    assert_eq!(store.get(&id()), Some(at(101, 2)));
    assert_eq!(entries(&window), vec![block(100, 1), block(101, 2)]);
}

#[test]
fn refused_advance_leaves_the_window_alone() {
    let mut store = CheckpointStore::new();
    let mut window = ReorgWindow::new(3);
    advance(&mut store, &mut window, id(), block(100, 1)).unwrap();
    assert_eq!(
        advance(&mut store, &mut window, id(), block(99, 7)),
        Err(StoreError::WouldRegress { stored: 100, offered: 99 })
    );
    assert_eq!(store.get(&id()), Some(at(100, 1)));
    assert_eq!(entries(&window), vec![block(100, 1)]);
}

#[test]
fn reorg_rolls_back_to_the_nearest_matching_block_and_resumes_there() {
    let mut store = CheckpointStore::new();
    let mut window = ReorgWindow::new(8);
    for (n, hash) in [(97, 7), (98, 8), (99, 9), (100, 10)] {
        advance(&mut store, &mut window, id(), block(n, hash)).unwrap();
    }
    let mut stream = LogStream::start(90, 100, vec![], vec![], true);
    stream.step(StreamEvent::Fetched(vec![log(100)]));
    assert_eq!(stream.phase(), StreamPhase::Idle);

    // the provider now reports another hash at blocks 100 and 99
    let verdict = window.resolve(&vec![Some(h(7)), Some(h(8)), Some(h(90)), Some(h(100))], 50);
    assert_eq!(verdict, ReorgStep::RollBack { to: 98 });

    assert_eq!(roll_back(&mut store, &mut window, &mut stream, id(), block(98, 8), 105), Ok(()));
    assert_eq!(store.get(&id()), Some(at(98, 8)));
    assert_eq!(entries(&window), vec![block(97, 7), block(98, 8)]);
    assert_eq!(stream.phase(), StreamPhase::Backfilling);
    assert_eq!(stream.range(), BlockRange { from: 99, to: 105 });
    assert_eq!(
        stream.pending_action(),
        StreamAction::Fetch(BlockRangeFilter { from_block: 99, to_block: 105, addresses: vec![], topics: vec![] })
    );
}

#[test]
fn reorg_past_the_window_rolls_back_by_the_safety_depth() {
    let mut store = CheckpointStore::new();
    let mut window = ReorgWindow::new(2);
    for (n, hash) in [(98, 8), (99, 9), (100, 10)] {
        advance(&mut store, &mut window, id(), block(n, hash)).unwrap();
    }
    let mut stream = LogStream::start(100, 100, vec![], vec![], true);
    let verdict = window.resolve(&vec![Some(h(1)), Some(h(2))], 20);
    assert_eq!(verdict, ReorgStep::RollBack { to: 80 });
    assert_eq!(roll_back(&mut store, &mut window, &mut stream, id(), block(80, 5), 100), Ok(()));
    assert_eq!(store.get(&id()), Some(at(80, 5)));
    assert_eq!(window.len(), 0);
    assert_eq!(stream.range(), BlockRange { from: 81, to: 100 });
}

#[test]
fn refused_rollback_changes_nothing() {
    let mut store = CheckpointStore::new();
    let mut window = ReorgWindow::new(4);
    let mut stream = LogStream::start(90, 100, vec![], vec![], false);
    assert_eq!(
        roll_back(&mut store, &mut window, &mut stream, id(), block(95, 1), 100),
        Err(StoreError::NoCheckpoint)
    );
    advance(&mut store, &mut window, id(), block(96, 6)).unwrap();
    assert_eq!(
        roll_back(&mut store, &mut window, &mut stream, id(), block(97, 1), 100),
        Err(StoreError::WouldAdvance { stored: 96, offered: 97 })
    );
    assert_eq!(store.get(&id()), Some(at(96, 6)));
    assert_eq!(entries(&window), vec![block(96, 6)]);
    assert_eq!(stream.range(), BlockRange { from: 91, to: 100 });
    assert_eq!(stream.snapshot_head(), 100);
}

#[test]
fn stop_request_ends_the_stream_and_drops_the_answer_under_way() {
    let mut stream = LogStream::start(100, 110, vec![], vec![], true);
    let step = stream.step(StreamEvent::StopRequested);
    assert_eq!(step.emit, None);
    assert_eq!(step.action, StreamAction::Stop);
    assert!(stream.is_stopped());
    let step = stream.step(StreamEvent::Fetched(vec![log(105)]));
    assert_eq!(step.emit, None);
    assert_eq!(step.action, StreamAction::Stop);
}

#[test]
fn gate_waits_for_the_upstream_checkpoint() {
    let ix = Indexer {
        name: "main".to_string(),
        contracts: vec![Contract {
            name: "Token".to_string(),
            addresses: vec![],
            events: vec![
                Event { name: "A".to_string(), topic: h(1), dependencies: vec![] },
                Event {
                    name: "B".to_string(),
                    topic: h(2),
                    dependencies: vec![EventRef { contract: "Token".to_string(), event: "A".to_string() }],
                },
            ],
        }],
    };
    let tree = EventsDependencyTree::new(&ix).unwrap();
    assert_eq!(tree.gate(0, &vec![None, None], 110), Gate::Proceed);
    assert_eq!(tree.gate(1, &vec![None, None], 110), Gate::Wait { sleep_ms: RETRY_BACKOFF_MS });
    assert_eq!(tree.gate(1, &vec![Some(109), None], 110), Gate::Wait { sleep_ms: 500 });
    assert_eq!(tree.gate(1, &vec![Some(110), None], 110), Gate::Proceed);
    assert_eq!(tree.gate(5, &vec![Some(110), None], 110), Gate::Wait { sleep_ms: 500 });
}
