//! Log ingestion and ordering for an EVM event indexer: range negotiation with
//! the provider, the per-stream fetch state machine, the event dependency
//! graph, reorg detection and the checkpoint store.

pub mod checkpoint;
pub mod dependency;
pub mod fetcher;
pub mod graph;
pub mod negotiator;
pub mod progress;
pub mod reorg;
pub mod sink;
pub mod streamer;
pub mod types;
