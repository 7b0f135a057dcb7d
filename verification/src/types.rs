//! Plain data shared by every component.

use vstd::prelude::*;

verus! {

/// A 256-bit hash (block hash or topic), held as two big-endian halves.
#[derive(Clone, Copy, Debug, PartialEq, Eq, Structural, Hash)]
pub struct Hash256 {
    pub hi: u128,
    pub lo: u128,
}

/// A 160-bit contract address, held as its top 32 bits and its low 128 bits.
#[derive(Clone, Copy, Debug, PartialEq, Eq, Structural, Hash)]
pub struct Address {
    pub hi: u32,
    pub lo: u128,
}

/// An inclusive range of block numbers.
#[derive(Clone, Copy, Debug, PartialEq, Eq, Structural)]
pub struct BlockRange {
    pub from: u64,
    pub to: u64,
}

impl BlockRange {
    /// The range runs forward: `from <= to`.
    pub open spec fn is_ordered(self) -> bool {
        self.from <= self.to
    }

    /// What `normalized` returns: a reversed range collapses onto its upper bound.
    pub open spec fn spec_normalized(self) -> BlockRange {
        if self.from > self.to {
            BlockRange { from: self.to, to: self.to }
        } else {
            self
        }
    }

    /// Clamps a reversed range onto its upper bound; an ordered range is kept.
    pub fn normalized(self) -> (r: BlockRange)
        ensures
            r == self.spec_normalized(),
            r.is_ordered(),
    {
        if self.from > self.to {
            BlockRange { from: self.to, to: self.to }
        } else {
            self
        }
    }
}

/// The mathematical content of a `BlockRangeFilter`.
pub struct FilterView {
    pub range: BlockRange,
    pub addresses: Seq<Address>,
    pub topics: Seq<Hash256>,
}

/// A log query: an inclusive block range, the contract addresses and the topics.
#[derive(Clone, Debug, PartialEq, Eq)]
pub struct BlockRangeFilter {
    pub from_block: u64,
    pub to_block: u64,
    pub addresses: Vec<Address>,
    pub topics: Vec<Hash256>,
}

impl View for BlockRangeFilter {
    type V = FilterView;

    open spec fn view(&self) -> FilterView {
        FilterView {
            range: BlockRange { from: self.from_block, to: self.to_block },
            addresses: self.addresses@,
            topics: self.topics@,
        }
    }
}

impl FilterView {
    /// The same query over another range.
    pub open spec fn with_range(self, range: BlockRange) -> FilterView {
        FilterView { range: range, addresses: self.addresses, topics: self.topics }
    }
}

/// A fresh vector holding the same addresses.
pub fn copy_addresses(v: &Vec<Address>) -> (r: Vec<Address>)
    ensures
        r@ == v@,
{
    let mut r: Vec<Address> = Vec::new();
    let mut i: usize = 0;
    while i < v.len()
        invariant
            i <= v.len(),
            r@ == v@.subrange(0, i as int),
        decreases v.len() - i,
    {
        r.push(v[i]);
        i = i + 1;
        assert(r@ =~= v@.subrange(0, i as int));
    }
    assert(v@.subrange(0, v.len() as int) =~= v@);
    r
}

/// A fresh vector holding the same hashes.
pub fn copy_hashes(v: &Vec<Hash256>) -> (r: Vec<Hash256>)
    ensures
        r@ == v@,
{
    let mut r: Vec<Hash256> = Vec::new();
    let mut i: usize = 0;
    while i < v.len()
        invariant
            i <= v.len(),
            r@ == v@.subrange(0, i as int),
        decreases v.len() - i,
    {
        r.push(v[i]);
        i = i + 1;
        assert(r@ =~= v@.subrange(0, i as int));
    }
    assert(v@.subrange(0, v.len() as int) =~= v@);
    r
}

impl BlockRangeFilter {
    /// The block range that the filter asks for.
    pub fn range(&self) -> (r: BlockRange)
        ensures
            r == self@.range,
    {
        BlockRange { from: self.from_block, to: self.to_block }
    }

    /// A new filter for the same addresses and topics over `range`.
    pub fn with_range(&self, range: BlockRange) -> (r: BlockRangeFilter)
        ensures
            r@ == self@.with_range(range),
    {
        BlockRangeFilter {
            from_block: range.from,
            to_block: range.to,
            addresses: copy_addresses(&self.addresses),
            topics: copy_hashes(&self.topics),
        }
    }

    /// The filter as it may be dispatched: the same query with its range
    /// clamped so that `from_block <= to_block`.
    pub fn normalized(&self) -> (r: BlockRangeFilter)
        ensures
            r@ == self@.with_range(self@.range.spec_normalized()),
            r@.range.is_ordered(),
    {
        self.with_range(self.range().normalized())
    }
}

/// One event log as the provider returned it. The payload is carried through
/// untouched; the block number and hash order the stream and detect reorgs.
#[derive(Clone, Debug, PartialEq, Eq)]
pub struct LogRecord {
    pub address: Address,
    pub topics: Vec<Hash256>,
    pub data: Vec<u8>,
    pub block_number: u64,
    pub block_hash: Hash256,
    pub transaction_index: u64,
    pub log_index: u64,
}

/// The mathematical content of a `LogRecord`.
pub struct LogView {
    pub address: Address,
    pub topics: Seq<Hash256>,
    pub data: Seq<u8>,
    pub block_number: u64,
    pub block_hash: Hash256,
    pub transaction_index: u64,
    pub log_index: u64,
}

impl View for LogRecord {
    type V = LogView;

    open spec fn view(&self) -> LogView {
        LogView {
            address: self.address,
            topics: self.topics@,
            data: self.data@,
            block_number: self.block_number,
            block_hash: self.block_hash,
            transaction_index: self.transaction_index,
            log_index: self.log_index,
        }
    }
}

/// A fresh vector holding the same bytes.
pub fn copy_bytes(v: &Vec<u8>) -> (r: Vec<u8>)
    ensures
        r@ == v@,
{
    let mut r: Vec<u8> = Vec::new();
    let mut i: usize = 0;
    while i < v.len()
        invariant
            i <= v.len(),
            r@ == v@.subrange(0, i as int),
        decreases v.len() - i,
    {
        r.push(v[i]);
        i = i + 1;
        assert(r@ =~= v@.subrange(0, i as int));
    }
    assert(v@.subrange(0, v.len() as int) =~= v@);
    r
}

impl LogRecord {
    /// A fresh record with the same content.
    pub fn duplicate(&self) -> (r: LogRecord)
        ensures
            r@ == self@,
    {
        LogRecord {
            address: self.address,
            topics: copy_hashes(&self.topics),
            data: copy_bytes(&self.data),
            block_number: self.block_number,
            block_hash: self.block_hash,
            transaction_index: self.transaction_index,
            log_index: self.log_index,
        }
    }
}

/// What a provider error carries: a human-readable message and, where the
/// provider sent one, its structured code.
#[derive(Clone, Debug, PartialEq, Eq)]
pub struct ProviderError {
    pub code: Option<i64>,
    pub message: String,
}

/// Why a fetch ended without logs.
#[derive(Clone, Debug, PartialEq, Eq)]
pub enum FetchError {
    /// The provider kept rejecting the query as too broad, each time
    /// suggesting another range, until the retry budget ran out.
    RangeTooLarge(ProviderError),
    /// The provider failed and suggested no narrower range.
    ProviderTransportError(ProviderError),
}

/// A reference to an event stream: the contract's name and the event's name.
#[derive(Clone, Debug, PartialEq, Eq)]
pub struct EventRef {
    pub contract: String,
    pub event: String,
}

/// The mathematical content of an `EventRef`.
pub struct EventRefView {
    pub contract: Seq<char>,
    pub event: Seq<char>,
}

impl View for EventRef {
    type V = EventRefView;

    open spec fn view(&self) -> EventRefView {
        EventRefView { contract: self.contract@, event: self.event@ }
    }
}

/// A declared event: its name, its topic hash and the streams it depends on.
#[derive(Clone, Debug, PartialEq, Eq)]
pub struct Event {
    pub name: String,
    pub topic: Hash256,
    pub dependencies: Vec<EventRef>,
}

/// A declared contract: its name, its deployment addresses and its events.
#[derive(Clone, Debug, PartialEq, Eq)]
pub struct Contract {
    pub name: String,
    pub addresses: Vec<Address>,
    pub events: Vec<Event>,
}

/// An indexer: a name and the contracts it follows.
#[derive(Clone, Debug, PartialEq, Eq)]
pub struct Indexer {
    pub name: String,
    pub contracts: Vec<Contract>,
}

} // verus!
