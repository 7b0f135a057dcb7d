//! Progress of a stream: advancing its checkpoint after a batch was
//! committed, and taking it back after a reorg.
//!
//! Both steps keep the checkpoint store, the reorg window and the stream in
//! line with each other: either all of them move or none does.

use vstd::prelude::*;
use crate::checkpoint::{Checkpoint, CheckpointStore, StoreError, StreamId};
use crate::reorg::{older_than, recorded, ObservedBlock, ReorgWindow};
use crate::streamer::LogStream;

verus! {

/// The checkpoint that stands at `block`.
pub open spec fn checkpoint_at(block: ObservedBlock) -> Checkpoint {
    Checkpoint { last_synced_block: block.number, last_synced_block_hash: block.hash }
}

/// Advances the checkpoint of stream `id` to `block`, the last block of a
/// batch that was committed, and records the block in the stream's window.
/// Where the store refuses the checkpoint, the window stays as it is too.
pub fn advance(
    store: &mut CheckpointStore,
    window: &mut ReorgWindow,
    id: StreamId,
    block: ObservedBlock,
) -> (r: Result<(), StoreError>)
    ensures
        final(window).spec_capacity() == old(window).spec_capacity(),
        r is Ok <==> (old(store)@.dom().contains(id@) ==> old(store)@[id@].last_synced_block
            <= block.number),
        r is Ok ==> {
            &&& final(store)@ == old(store)@.insert(id@, checkpoint_at(block))
            &&& final(window)@ == recorded(old(window)@, old(window).spec_capacity(), block)
        },
        r matches Err(e) ==> {
            &&& e == (StoreError::WouldRegress {
                stored: old(store)@[id@].last_synced_block,
                offered: block.number,
            })
            &&& final(store)@ == old(store)@
            &&& final(window)@ == old(window)@
        },
{
    let checkpoint = Checkpoint {
        last_synced_block: block.number,
        last_synced_block_hash: block.hash,
    };
    match store.save(id, checkpoint) {
        Ok(()) => {
            window.record(block);
            Ok(())
        },
        Err(e) => Err(e),
    }
}

/// Takes stream `id` back to `block` after a reorg: the checkpoint moves
/// back to it, the window forgets what it saw after it, and the stream
/// re-opens its backfill at the block that follows, up to `head`. Where the
/// store refuses the checkpoint, nothing changes.
pub fn roll_back(
    store: &mut CheckpointStore,
    window: &mut ReorgWindow,
    stream: &mut LogStream,
    id: StreamId,
    block: ObservedBlock,
    head: u64,
) -> (r: Result<(), StoreError>)
    ensures
        final(window).spec_capacity() == old(window).spec_capacity(),
        r is Ok <==> (old(store)@.dom().contains(id@) && block.number <= old(
            store,
        )@[id@].last_synced_block),
        r is Ok ==> {
            &&& final(store)@ == old(store)@.insert(id@, checkpoint_at(block))
            &&& final(window)@ == if block.number < u64::MAX {
                older_than(old(window)@, (block.number + 1) as u64)
            } else {
                old(window)@
            }
            &&& final(stream)@ == old(stream)@.rewound(block.number, head)
        },
        r matches Err(e) ==> {
            &&& e == if old(store)@.dom().contains(id@) {
                StoreError::WouldAdvance {
                    stored: old(store)@[id@].last_synced_block,
                    offered: block.number,
                }
            } else {
                StoreError::NoCheckpoint
            }
            &&& final(store)@ == old(store)@
            &&& final(window)@ == old(window)@
            &&& final(stream)@ == old(stream)@
        },
{
    let checkpoint = Checkpoint {
        last_synced_block: block.number,
        last_synced_block_hash: block.hash,
    };
    match store.rollback(id, checkpoint) {
        Ok(()) => {
            window.truncate_to(block.number);
            stream.rewind(block.number, head);
            Ok(())
        },
        Err(e) => Err(e),
    }
}

} // verus!
