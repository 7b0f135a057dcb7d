//! The checkpoint store: for every event stream, the last block that was
//! synced and its hash.
//!
//! A checkpoint only moves forward when it is saved; moving it backward is
//! what a rollback after a reorg is for.

use vstd::prelude::*;
use crate::types::Hash256;

verus! {

/// The key of a checkpoint: indexer, contract and event, by name.
#[derive(Clone, Debug, PartialEq, Eq)]
pub struct StreamId {
    pub indexer: String,
    pub contract: String,
    pub event: String,
}

/// The mathematical content of a `StreamId`.
pub struct StreamIdView {
    pub indexer: Seq<char>,
    pub contract: Seq<char>,
    pub event: Seq<char>,
}

impl View for StreamId {
    type V = StreamIdView;

    open spec fn view(&self) -> StreamIdView {
        StreamIdView { indexer: self.indexer@, contract: self.contract@, event: self.event@ }
    }
}

/// How far a stream has been synced.
#[derive(Clone, Copy, Debug, PartialEq, Eq, Structural)]
pub struct Checkpoint {
    pub last_synced_block: u64,
    pub last_synced_block_hash: Hash256,
}

/// Why the store refused a write.
#[derive(Clone, Copy, Debug, PartialEq, Eq, Structural)]
pub enum StoreError {
    /// Saving would move the checkpoint from block `stored` back to
    /// block `offered`.
    WouldRegress { stored: u64, offered: u64 },
    /// Rolling back would move the checkpoint from block `stored` forward
    /// to block `offered`.
    WouldAdvance { stored: u64, offered: u64 },
    /// The stream has no checkpoint that could be rolled back.
    NoCheckpoint,
}

/// A stream and its checkpoint.
#[derive(Debug)]
struct Entry {
    id: StreamId,
    checkpoint: Checkpoint,
}

/// One of `entries` belongs to stream `id`.
spec fn holds(entries: Seq<Entry>, id: StreamIdView) -> bool {
    exists|i: int| 0 <= i < entries.len() && (#[trigger] entries[i]).id@ == id
}

/// A position at which `entries` holds stream `id`.
spec fn slot(entries: Seq<Entry>, id: StreamIdView) -> int {
    choose|i: int| 0 <= i < entries.len() && (#[trigger] entries[i]).id@ == id
}

/// No two entries belong to the same stream.
spec fn distinct(entries: Seq<Entry>) -> bool {
    forall|a: int, b: int|
        0 <= a < b < entries.len() ==> (#[trigger] entries[a]).id@ != (#[trigger] entries[b]).id@
}

/// The map that a list of entries stands for.
spec fn as_map(entries: Seq<Entry>) -> Map<StreamIdView, Checkpoint> {
    Map::new(
        |id: StreamIdView| holds(entries, id),
        |id: StreamIdView| entries[slot(entries, id)].checkpoint,
    )
}

proof fn lemma_lookup(entries: Seq<Entry>, i: int)
    requires
        distinct(entries),
        0 <= i < entries.len(),
    ensures
        holds(entries, entries[i].id@),
        slot(entries, entries[i].id@) == i,
        as_map(entries)[entries[i].id@] == entries[i].checkpoint,
{
    let j = slot(entries, entries[i].id@);
    assert(0 <= j < entries.len() && entries[j].id@ == entries[i].id@);
    if j < i {
        assert(entries[j].id@ != entries[i].id@);
    } else if i < j {
        assert(entries[i].id@ != entries[j].id@);
    }
}

proof fn lemma_push(entries: Seq<Entry>, entry: Entry)
    requires
        distinct(entries),
        !holds(entries, entry.id@),
    ensures
        distinct(entries.push(entry)),
        as_map(entries.push(entry)) == as_map(entries).insert(entry.id@, entry.checkpoint),
{
    let grown = entries.push(entry);
    assert forall|a: int, b: int| 0 <= a < b < grown.len() implies (#[trigger] grown[a]).id@ != (
    #[trigger] grown[b]).id@ by {
        if b == entries.len() {
            assert(entries[a].id@ != entry.id@);
        } else {
            assert(entries[a].id@ != entries[b].id@);
        }
    }
    assert forall|id: StreamIdView| holds(grown, id) <==> (holds(entries, id) || id == entry.id@) by {
        if holds(entries, id) {
            let i = slot(entries, id);
            assert(grown[i].id@ == id);
        }
        if id == entry.id@ {
            assert(grown[entries.len() as int].id@ == id);
        }
        if holds(grown, id) {
            let i = slot(grown, id);
            if i < entries.len() {
                assert(entries[i].id@ == id);
            }
        }
    }
    assert forall|id: StreamIdView| holds(grown, id) implies #[trigger] as_map(grown)[id] == as_map(
        entries,
    ).insert(entry.id@, entry.checkpoint)[id] by {
        let i = slot(grown, id);
        lemma_lookup(grown, i);
        if i < entries.len() {
            lemma_lookup(entries, i);
        }
    }
    assert(as_map(grown) =~= as_map(entries).insert(entry.id@, entry.checkpoint));
}

proof fn lemma_update(entries: Seq<Entry>, i: int, entry: Entry)
    requires
        distinct(entries),
        0 <= i < entries.len(),
        entry.id@ == entries[i].id@,
    ensures
        distinct(entries.update(i, entry)),
        as_map(entries.update(i, entry)) == as_map(entries).insert(entry.id@, entry.checkpoint),
{
    let changed = entries.update(i, entry);
    assert forall|a: int, b: int| 0 <= a < b < changed.len() implies (#[trigger] changed[a]).id@ != (
    #[trigger] changed[b]).id@ by {
        assert(entries[a].id@ != entries[b].id@);
    }
    assert forall|id: StreamIdView| holds(changed, id) <==> holds(entries, id) by {
        if holds(entries, id) {
            let j = slot(entries, id);
            assert(changed[j].id@ == id);
        }
        if holds(changed, id) {
            let j = slot(changed, id);
            assert(entries[j].id@ == id);
        }
    }
    lemma_lookup(entries, i);
    assert forall|id: StreamIdView| holds(entries, id) implies #[trigger] as_map(changed)[id]
        == as_map(entries).insert(entry.id@, entry.checkpoint)[id] by {
        let j = slot(entries, id);
        lemma_lookup(entries, j);
        assert(changed[j].id@ == id);
        lemma_lookup(changed, j);
    }
    assert(as_map(changed) =~= as_map(entries).insert(entry.id@, entry.checkpoint));
}

/// The checkpoints of all streams, by stream.
#[derive(Debug)]
pub struct CheckpointStore {
    entries: Vec<Entry>,
}

impl View for CheckpointStore {
    type V = Map<StreamIdView, Checkpoint>;

    closed spec fn view(&self) -> Map<StreamIdView, Checkpoint> {
        as_map(self.entries@)
    }
}

impl CheckpointStore {
    #[verifier::type_invariant]
    spec fn inv(self) -> bool {
        distinct(self.entries@)
    }

    /// A store without checkpoints.
    pub fn new() -> (store: CheckpointStore)
        ensures
            store@ == Map::<StreamIdView, Checkpoint>::empty(),
    {
        let store = CheckpointStore { entries: Vec::new() };
        assert(store@ =~= Map::<StreamIdView, Checkpoint>::empty());
        store
    }

    /// The checkpoint of stream `id`, if it has one.
    pub fn get(&self, id: &StreamId) -> (r: Option<Checkpoint>)
        ensures
            r == if self@.dom().contains(id@) {
                Some(self@[id@])
            } else {
                None
            },
    {
        proof {
            use_type_invariant(self);
        }
        match position(&self.entries, id) {
            Some(i) => {
                proof {
                    lemma_lookup(self.entries@, i as int);
                }
                Some(self.entries[i].checkpoint)
            },
            None => None,
        }
    }

    /// The checkpoint of stream `id`, or `default` for a stream that was
    /// never synced.
    pub fn load(&self, id: &StreamId, default: Checkpoint) -> (r: Checkpoint)
        ensures
            r == if self@.dom().contains(id@) {
                self@[id@]
            } else {
                default
            },
    {
        match self.get(id) {
            Some(checkpoint) => checkpoint,
            None => default,
        }
    }

    /// Saves the checkpoint of stream `id`. A checkpoint that would move
    /// the stream backward is refused and the store stays as it is.
    pub fn save(&mut self, id: StreamId, checkpoint: Checkpoint) -> (r: Result<(), StoreError>)
        ensures
            match r {
                Ok(_) => {
                    &&& old(self)@.dom().contains(id@) ==> old(self)@[id@].last_synced_block
                        <= checkpoint.last_synced_block
                    &&& final(self)@ == old(self)@.insert(id@, checkpoint)
                },
                Err(e) => {
                    &&& old(self)@.dom().contains(id@)
                    &&& old(self)@[id@].last_synced_block > checkpoint.last_synced_block
                    &&& e == (StoreError::WouldRegress {
                        stored: old(self)@[id@].last_synced_block,
                        offered: checkpoint.last_synced_block,
                    })
                    &&& final(self)@ == old(self)@
                },
            },
    {
        proof {
            use_type_invariant(&*self);
        }
        let found = position(&self.entries, &id);
        let entry = Entry { id: id, checkpoint: checkpoint };
        match found {
            Some(i) => {
                proof {
                    lemma_lookup(self.entries@, i as int);
                }
                let stored: u64 = self.entries[i].checkpoint.last_synced_block;
                if stored > checkpoint.last_synced_block {
                    return Err(
                        StoreError::WouldRegress {
                            stored: stored,
                            offered: checkpoint.last_synced_block,
                        },
                    );
                }
                proof {
                    lemma_update(self.entries@, i as int, entry);
                }
                let mut entries: Vec<Entry> = Vec::new();
                std::mem::swap(&mut entries, &mut self.entries);
                entries.set(i, entry);
                self.entries = entries;
                Ok(())
            },
            None => {
                proof {
                    lemma_push(self.entries@, entry);
                }
                let mut entries: Vec<Entry> = Vec::new();
                std::mem::swap(&mut entries, &mut self.entries);
                entries.push(entry);
                self.entries = entries;
                Ok(())
            },
        }
    }

    /// Moves the checkpoint of stream `id` back to `checkpoint` after a
    /// reorg. Refused, with the store unchanged, where the stream has no
    /// checkpoint or `checkpoint` lies ahead of it.
    pub fn rollback(&mut self, id: StreamId, checkpoint: Checkpoint) -> (r: Result<(), StoreError>)
        ensures
            match r {
                Ok(_) => {
                    &&& old(self)@.dom().contains(id@)
                    &&& checkpoint.last_synced_block <= old(self)@[id@].last_synced_block
                    &&& final(self)@ == old(self)@.insert(id@, checkpoint)
                },
                Err(e) => {
                    &&& final(self)@ == old(self)@
                    &&& if old(self)@.dom().contains(id@) {
                        &&& checkpoint.last_synced_block > old(self)@[id@].last_synced_block
                        &&& e == (StoreError::WouldAdvance {
                            stored: old(self)@[id@].last_synced_block,
                            offered: checkpoint.last_synced_block,
                        })
                    } else {
                        e == StoreError::NoCheckpoint
                    }
                },
            },
    {
        proof {
            use_type_invariant(&*self);
        }
        match position(&self.entries, &id) {
            Some(i) => {
                proof {
                    lemma_lookup(self.entries@, i as int);
                }
                let stored: u64 = self.entries[i].checkpoint.last_synced_block;
                if checkpoint.last_synced_block > stored {
                    return Err(
                        StoreError::WouldAdvance {
                            stored: stored,
                            offered: checkpoint.last_synced_block,
                        },
                    );
                }
                let entry = Entry { id: id, checkpoint: checkpoint };
                proof {
                    lemma_update(self.entries@, i as int, entry);
                }
                let mut entries: Vec<Entry> = Vec::new();
                std::mem::swap(&mut entries, &mut self.entries);
                entries.set(i, entry);
                self.entries = entries;
                Ok(())
            },
            None => Err(StoreError::NoCheckpoint),
        }
    }
}

fn position(entries: &Vec<Entry>, id: &StreamId) -> (r: Option<usize>)
    ensures
        r is Some <==> holds(entries@, id@),
        r matches Some(i) ==> i < entries@.len() && entries@[i as int].id@ == id@,
{
    let mut i: usize = 0;
    while i < entries.len()
        invariant
            i <= entries.len(),
            forall|j: int| 0 <= j < i ==> (#[trigger] entries@[j]).id@ != id@,
        decreases entries.len() - i,
    {
        let key = &entries[i].id;
        if key.indexer == id.indexer && key.contract == id.contract && key.event == id.event {
            return Some(i);
        }
        i = i + 1;
    }
    None
}

} // verus!
