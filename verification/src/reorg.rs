//! Reorg detection: a bounded window of the blocks a stream has seen, and
//! the walk back through it that finds where the chain still agrees.
//!
//! The window decides which block to ask the provider about; its driver asks
//! and reports the hash that the provider now gives for that block.

use vstd::prelude::*;
use crate::types::Hash256;

verus! {

/// A block as a stream saw it: its number and the hash it had then.
#[derive(Clone, Copy, Debug, PartialEq, Eq, Structural)]
pub struct ObservedBlock {
    pub number: u64,
    pub hash: Hash256,
}

/// What a check of the window comes to.
#[derive(Clone, Copy, Debug, PartialEq, Eq, Structural)]
pub enum ReorgStep {
    /// The newest block of the window is still canonical (or the window is
    /// empty): the checkpoint may advance.
    Consistent,
    /// Ask the provider for the hash of block `number`, the window's
    /// entry at `position`, and report it.
    Probe { position: usize, number: u64 },
    /// The chain was reorganized: roll the checkpoint back to block `to`.
    RollBack { to: u64 },
}

/// Block numbers grow along the window.
pub open spec fn ascending(entries: Seq<ObservedBlock>) -> bool {
    forall|a: int, b: int| 0 <= a < b < entries.len() ==> entries[a].number < entries[b].number
}

/// `entries` without its trailing blocks numbered `number` or higher.
pub open spec fn older_than(entries: Seq<ObservedBlock>, number: u64) -> Seq<ObservedBlock>
    decreases entries.len(),
{
    if entries.len() == 0 || entries.last().number < number {
        entries
    } else {
        older_than(entries.drop_last(), number)
    }
}

/// The last `count` entries, or all of them where there are fewer.
pub open spec fn newest(entries: Seq<ObservedBlock>, count: nat) -> Seq<ObservedBlock> {
    if entries.len() > count {
        entries.subrange(entries.len() - count, entries.len() as int)
    } else {
        entries
    }
}

/// The window after `block` was seen: blocks numbered like `block` or
/// higher give way to it, and only the newest `capacity` blocks stay.
pub open spec fn recorded(entries: Seq<ObservedBlock>, capacity: nat, block: ObservedBlock) -> Seq<
    ObservedBlock,
> {
    newest(older_than(entries, block.number).push(block), capacity)
}

/// The provider's hash for entry `i` is the hash that the window holds.
pub open spec fn agrees(entries: Seq<ObservedBlock>, canonical: Seq<Option<Hash256>>, i: int) -> bool {
    0 <= i < entries.len() && i < canonical.len() && canonical[i] == Some(entries[i].hash)
}

/// The block to roll back to when the entries from `below` on disagree:
/// the nearest earlier entry that agrees, or `fallback` where none does.
pub open spec fn ancestor(
    entries: Seq<ObservedBlock>,
    canonical: Seq<Option<Hash256>>,
    below: nat,
    fallback: u64,
) -> u64
    decreases below,
{
    if below == 0 {
        fallback
    } else if agrees(entries, canonical, below - 1) {
        entries[below - 1].number
    } else {
        ancestor(entries, canonical, (below - 1) as nat, fallback)
    }
}

/// The block that lies `safety_depth` blocks before the newest entry, or
/// block 0 where the chain is shorter than that.
pub open spec fn fallback_block(entries: Seq<ObservedBlock>, safety_depth: u64) -> u64 {
    if entries.len() == 0 || entries.last().number < safety_depth {
        0
    } else {
        (entries.last().number - safety_depth) as u64
    }
}

/// What the whole check comes to, given the provider's hash for every
/// entry of the window (`None` where the block is gone).
pub open spec fn verdict(
    entries: Seq<ObservedBlock>,
    canonical: Seq<Option<Hash256>>,
    safety_depth: u64,
) -> ReorgStep {
    if entries.len() == 0 || agrees(entries, canonical, entries.len() - 1) {
        ReorgStep::Consistent
    } else {
        ReorgStep::RollBack {
            to: ancestor(
                entries,
                canonical,
                (entries.len() - 1) as nat,
                fallback_block(entries, safety_depth),
            ),
        }
    }
}

/// What follows from the provider's answer for the entry at `position`.
pub open spec fn step_on(
    entries: Seq<ObservedBlock>,
    position: int,
    answer: Option<Hash256>,
    safety_depth: u64,
) -> ReorgStep {
    if 0 <= position < entries.len() && answer == Some(entries[position].hash) {
        if position == entries.len() - 1 {
            ReorgStep::Consistent
        } else {
            ReorgStep::RollBack { to: entries[position].number }
        }
    } else if 0 < position < entries.len() {
        ReorgStep::Probe {
            position: (position - 1) as usize,
            number: entries[position - 1].number,
        }
    } else {
        ReorgStep::RollBack { to: fallback_block(entries, safety_depth) }
    }
}

/// The last blocks that a stream has seen, oldest first.
#[derive(Debug)]
pub struct ReorgWindow {
    entries: Vec<ObservedBlock>,
    capacity: usize,
}

impl View for ReorgWindow {
    type V = Seq<ObservedBlock>;

    closed spec fn view(&self) -> Seq<ObservedBlock> {
        self.entries@
    }
}

impl ReorgWindow {
    #[verifier::type_invariant]
    spec fn inv(self) -> bool {
        self.entries@.len() <= self.capacity && ascending(self.entries@)
    }

    /// How many blocks the window keeps at most.
    pub closed spec fn spec_capacity(&self) -> nat {
        self.capacity as nat
    }

    /// The window holds no more blocks than its capacity, in ascending
    /// order of block number.
    pub open spec fn wf(&self) -> bool {
        self@.len() <= self.spec_capacity() && ascending(self@)
    }

    /// An empty window that keeps up to `capacity` blocks.
    pub fn new(capacity: usize) -> (w: ReorgWindow)
        ensures
            w@ == Seq::<ObservedBlock>::empty(),
            w.spec_capacity() == capacity,
            w.wf(),
    {
        ReorgWindow { entries: Vec::new(), capacity: capacity }
    }

    /// How many blocks the window keeps at most.
    pub fn capacity(&self) -> (c: usize)
        ensures
            c == self.spec_capacity(),
    {
        self.capacity
    }

    /// How many blocks the window holds.
    pub fn len(&self) -> (n: usize)
        ensures
            n == self@.len(),
            self.wf(),
    {
        proof {
            use_type_invariant(self);
        }
        self.entries.len()
    }

    /// The entry at `position`, oldest first.
    pub fn get(&self, position: usize) -> (r: Option<ObservedBlock>)
        ensures
            r == if position < self@.len() {
                Some(self@[position as int])
            } else {
                None
            },
    {
        if position < self.entries.len() {
            Some(self.entries[position])
        } else {
            None
        }
    }

    /// The newest block of the window.
    pub fn latest(&self) -> (r: Option<ObservedBlock>)
        ensures
            r == if self@.len() > 0 {
                Some(self@.last())
            } else {
                None
            },
    {
        let n: usize = self.entries.len();
        if n > 0 {
            Some(self.entries[n - 1])
        } else {
            None
        }
    }

    /// Records a block that the stream has seen.
    pub fn record(&mut self, block: ObservedBlock)
        ensures
            final(self)@ == recorded(old(self)@, old(self).spec_capacity(), block),
            final(self).spec_capacity() == old(self).spec_capacity(),
            final(self).wf(),
    {
        proof {
            use_type_invariant(&*self);
        }
        let ghost start = self.entries@;
        let mut entries: Vec<ObservedBlock> = Vec::new();
        std::mem::swap(&mut entries, &mut self.entries);
        loop
            invariant
                older_than(entries@, block.number) == older_than(start, block.number),
                entries@.len() <= start.len(),
                ascending(entries@),
            ensures
                entries@ == older_than(start, block.number),
            decreases entries@.len(),
        {
            let n: usize = entries.len();
            if n == 0 || entries[n - 1].number < block.number {
                break ;
            }
            entries.pop();
        }
        proof {
            lemma_older_than_is_older(start, block.number);
        }
        entries.push(block);
        if entries.len() > self.capacity {
            entries.remove(0);
        }
        assert(entries@ =~= recorded(start, self.capacity as nat, block));
        self.entries = entries;
    }

    /// Forgets every block after `block`: the window as it stands once the
    /// checkpoint has been rolled back to `block`.
    pub fn truncate_to(&mut self, block: u64)
        ensures
            final(self)@ == if block < u64::MAX {
                older_than(old(self)@, (block + 1) as u64)
            } else {
                old(self)@
            },
            final(self).spec_capacity() == old(self).spec_capacity(),
            final(self).wf(),
    {
        proof {
            use_type_invariant(&*self);
        }
        if block == u64::MAX {
            return ;
        }
        let bound: u64 = block + 1;
        let ghost start = self.entries@;
        let mut entries: Vec<ObservedBlock> = Vec::new();
        std::mem::swap(&mut entries, &mut self.entries);
        loop
            invariant
                older_than(entries@, bound) == older_than(start, bound),
                entries@.len() <= start.len(),
                ascending(entries@),
            ensures
                entries@ == older_than(start, bound),
            decreases entries@.len(),
        {
            let n: usize = entries.len();
            if n == 0 || entries[n - 1].number < bound {
                break ;
            }
            entries.pop();
        }
        self.entries = entries;
    }

    /// Opens a check: the newest block of the window is the first to ask
    /// the provider about. An empty window has nothing to contradict.
    pub fn begin_check(&self) -> (step: ReorgStep)
        ensures
            step == if self@.len() == 0 {
                ReorgStep::Consistent
            } else {
                ReorgStep::Probe {
                    position: (self@.len() - 1) as usize,
                    number: self@.last().number,
                }
            },
    {
        let n: usize = self.entries.len();
        if n == 0 {
            ReorgStep::Consistent
        } else {
            ReorgStep::Probe { position: n - 1, number: self.entries[n - 1].number }
        }
    }

    /// Digests the provider's hash for the entry at `position` (`None`
    /// where the provider no longer knows the block): a matching newest
    /// entry means no reorg; a matching older entry is the block to roll
    /// back to; otherwise the walk goes on to the entry before, or, with
    /// none left, falls back `safety_depth` blocks behind the newest.
    pub fn on_hash(&self, position: usize, answer: Option<Hash256>, safety_depth: u64) -> (step:
        ReorgStep)
        ensures
            step == step_on(self@, position as int, answer, safety_depth),
    {
        let n: usize = self.entries.len();
        let matches: bool = position < n && match answer {
            Some(hash) => hash == self.entries[position].hash,
            None => false,
        };
        if matches {
            if position == n - 1 {
                ReorgStep::Consistent
            } else {
                ReorgStep::RollBack { to: self.entries[position].number }
            }
        } else if 0 < position && position < n {
            ReorgStep::Probe { position: position - 1, number: self.entries[position - 1].number }
        } else {
            ReorgStep::RollBack { to: self.fallback(safety_depth) }
        }
    }

    fn fallback(&self, safety_depth: u64) -> (to: u64)
        ensures
            to == fallback_block(self@, safety_depth),
    {
        let n: usize = self.entries.len();
        if n == 0 || self.entries[n - 1].number < safety_depth {
            0
        } else {
            self.entries[n - 1].number - safety_depth
        }
    }

    /// Runs the whole check against the provider's hashes for all entries
    /// of the window, given in the window's order.
    pub fn resolve(&self, canonical: &Vec<Option<Hash256>>, safety_depth: u64) -> (step: ReorgStep)
        ensures
            step == verdict(self@, canonical@, safety_depth),
    {
        let n: usize = self.entries.len();
        if n == 0 || self.entry_agrees(canonical, n - 1) {
            return ReorgStep::Consistent;
        }
        let fallback: u64 = self.fallback(safety_depth);
        let mut below: usize = n - 1;
        while below > 0
            invariant
                below < n,
                n == self@.len(),
                !agrees(self@, canonical@, n - 1),
                fallback == fallback_block(self@, safety_depth),
                ancestor(self@, canonical@, below as nat, fallback) == ancestor(
                    self@,
                    canonical@,
                    (n - 1) as nat,
                    fallback,
                ),
            decreases below,
        {
            if self.entry_agrees(canonical, below - 1) {
                return ReorgStep::RollBack { to: self.entries[below - 1].number };
            }
            below = below - 1;
        }
        ReorgStep::RollBack { to: fallback }
    }

    fn entry_agrees(&self, canonical: &Vec<Option<Hash256>>, i: usize) -> (b: bool)
        requires
            i < self@.len(),
        ensures
            b == agrees(self@, canonical@, i as int),
    {
        i < canonical.len() && match canonical[i] {
            Some(hash) => hash == self.entries[i].hash,
            None => false,
        }
    }
}

/// What `older_than` keeps is a leading part of the window, and every
/// block of it is numbered below the bound.
pub proof fn lemma_older_than_is_older(entries: Seq<ObservedBlock>, number: u64)
    requires
        ascending(entries),
    ensures
        older_than(entries, number).len() <= entries.len(),
        older_than(entries, number) == entries.subrange(0, older_than(entries, number).len() as int),
        ascending(older_than(entries, number)),
        forall|i: int|
            0 <= i < older_than(entries, number).len() ==> (#[trigger] older_than(
                entries,
                number,
            )[i]).number < number,
        forall|i: int|
            older_than(entries, number).len() <= i < entries.len() ==> (#[trigger] entries[i]).number
                >= number,
    decreases entries.len(),
{
    if entries.len() == 0 || entries.last().number < number {
        assert(entries.subrange(0, entries.len() as int) =~= entries);
        assert forall|i: int| 0 <= i < entries.len() implies (#[trigger] entries[i]).number
            < number by {
            if i < entries.len() - 1 {
                assert(entries[i].number < entries[entries.len() - 1].number);
            }
        }
    } else {
        let shorter = entries.drop_last();
        lemma_older_than_is_older(shorter, number);
        let kept = older_than(shorter, number);
        assert(kept =~= entries.subrange(0, kept.len() as int));
        assert forall|i: int| kept.len() <= i < entries.len() implies (#[trigger] entries[i]).number
            >= number by {
            if i < shorter.len() {
                assert(shorter[i].number >= number);
            }
        }
    }
}

/// The block to roll back to is that of the nearest earlier entry on which
/// the provider agrees with the window; where it agrees on none, it is the
/// fallback.
pub proof fn lemma_ancestor_is_nearest(
    entries: Seq<ObservedBlock>,
    canonical: Seq<Option<Hash256>>,
    below: nat,
    fallback: u64,
)
    requires
        below <= entries.len(),
    ensures
        ({
            let to = ancestor(entries, canonical, below, fallback);
            ||| exists|i: int|
                0 <= i < below && #[trigger] agrees(entries, canonical, i) && to == entries[i].number
                    && forall|j: int| i < j < below ==> !agrees(entries, canonical, j)
            ||| to == fallback && forall|j: int| 0 <= j < below ==> !agrees(entries, canonical, j)
        }),
    decreases below,
{
    if below > 0 {
        if agrees(entries, canonical, below - 1) {
        } else {
            lemma_ancestor_is_nearest(entries, canonical, (below - 1) as nat, fallback);
            let to = ancestor(entries, canonical, (below - 1) as nat, fallback);
            if exists|i: int|
                0 <= i < below - 1 && #[trigger] agrees(entries, canonical, i) && to
                    == entries[i].number && forall|j: int|
                    i < j < below - 1 ==> !agrees(entries, canonical, j) {
                let i = choose|i: int|
                    0 <= i < below - 1 && #[trigger] agrees(entries, canonical, i) && to
                        == entries[i].number && forall|j: int|
                        i < j < below - 1 ==> !agrees(entries, canonical, j);
                assert(0 <= i < below && agrees(entries, canonical, i) && forall|j: int|
                    i < j < below ==> !agrees(entries, canonical, j));
            }
        }
    }
}

proof fn lemma_ancestor_skips(
    entries: Seq<ObservedBlock>,
    canonical: Seq<Option<Hash256>>,
    from: nat,
    below: nat,
    fallback: u64,
)
    requires
        from <= below,
        forall|j: int| from <= j < below ==> !agrees(entries, canonical, j),
    ensures
        ancestor(entries, canonical, below, fallback) == ancestor(entries, canonical, from, fallback),
    decreases below,
{
    if below > from {
        assert(!agrees(entries, canonical, below - 1));
        lemma_ancestor_skips(entries, canonical, from, (below - 1) as nat, fallback);
    }
}

/// The walk finds the verdict. Where the provider disagrees on every entry
/// after `position`, its answer for the entry at `position` either sends
/// the walk one entry back or ends it, and it ends it with the verdict of
/// the whole window.
pub proof fn lemma_walk_reaches_verdict(
    entries: Seq<ObservedBlock>,
    canonical: Seq<Option<Hash256>>,
    position: int,
    safety_depth: u64,
)
    requires
        canonical.len() == entries.len(),
        entries.len() <= usize::MAX,
        0 <= position < entries.len(),
        forall|j: int| position < j < entries.len() ==> !agrees(entries, canonical, j),
    ensures
        match step_on(entries, position, canonical[position], safety_depth) {
            ReorgStep::Probe { position: next, number } => {
                &&& next == position - 1
                &&& number == entries[next as int].number
                &&& !agrees(entries, canonical, position)
            },
            done => done == verdict(entries, canonical, safety_depth),
        },
{
    let fallback = fallback_block(entries, safety_depth);
    let last = (entries.len() - 1) as nat;
    if position < last {
        assert(!agrees(entries, canonical, entries.len() - 1));
        lemma_ancestor_skips(entries, canonical, (position + 1) as nat, last, fallback);
    }
    assert(ancestor(entries, canonical, (position + 1) as nat, fallback) == if agrees(
        entries,
        canonical,
        position,
    ) {
        entries[position].number
    } else {
        ancestor(entries, canonical, position as nat, fallback)
    });
    assert(ancestor(entries, canonical, 0, fallback) == fallback);
}

} // verus!
