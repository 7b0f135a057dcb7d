//! A sink that upserts: the reference consumer of a stream's batches.
//!
//! A row is keyed by its stream, its block number and its log index. A log
//! delivered again lands on the row it wrote before, so delivering a batch
//! a second time, as happens after a rollback, changes nothing.

use vstd::prelude::*;
use crate::dependency::EventStream;
use crate::types::{LogRecord, LogView};

verus! {

/// The key of a row: the stream (contract and event), the block number and
/// the log index.
#[derive(Clone, Copy, Debug, PartialEq, Eq, Structural)]
pub struct SinkKey {
    pub stream: EventStream,
    pub block_number: u64,
    pub log_index: u64,
}

/// The key under which a log of `stream` is stored.
pub open spec fn key_of(stream: EventStream, log: LogView) -> SinkKey {
    SinkKey { stream: stream, block_number: log.block_number, log_index: log.log_index }
}

/// The contents of a batch.
pub open spec fn views(logs: Seq<LogRecord>) -> Seq<LogView> {
    Seq::new(logs.len(), |i: int| logs[i]@)
}

/// The rows after the logs of a batch were upserted one by one.
pub open spec fn upserted(rows: Map<SinkKey, LogView>, stream: EventStream, logs: Seq<LogView>) -> Map<
    SinkKey,
    LogView,
>
    decreases logs.len(),
{
    if logs.len() == 0 {
        rows
    } else {
        upserted(rows, stream, logs.drop_last()).insert(key_of(stream, logs.last()), logs.last())
    }
}

/// The last log of a batch that is stored under `key`, if there is one.
pub open spec fn last_under(stream: EventStream, logs: Seq<LogView>, key: SinkKey) -> Option<LogView>
    decreases logs.len(),
{
    if logs.len() == 0 {
        None
    } else if key_of(stream, logs.last()) == key {
        Some(logs.last())
    } else {
        last_under(stream, logs.drop_last(), key)
    }
}

/// After a batch was upserted, a key holds the last log that the batch
/// stores under it, or what it held before where the batch stores none.
pub proof fn lemma_upserted_row(
    rows: Map<SinkKey, LogView>,
    stream: EventStream,
    logs: Seq<LogView>,
    key: SinkKey,
)
    ensures
        upserted(rows, stream, logs).dom().contains(key) <==> (rows.dom().contains(key)
            || last_under(stream, logs, key) is Some),
        upserted(rows, stream, logs).dom().contains(key) ==> upserted(rows, stream, logs)[key]
            == match last_under(stream, logs, key) {
            Some(log) => log,
            None => rows[key],
        },
    decreases logs.len(),
{
    if logs.len() > 0 {
        lemma_upserted_row(rows, stream, logs.drop_last(), key);
    }
}

/// Delivering a batch a second time leaves the sink as the first delivery
/// left it.
pub proof fn lemma_redelivery_changes_nothing(
    rows: Map<SinkKey, LogView>,
    stream: EventStream,
    logs: Seq<LogView>,
)
    ensures
        upserted(upserted(rows, stream, logs), stream, logs) == upserted(rows, stream, logs),
{
    let once = upserted(rows, stream, logs);
    let twice = upserted(once, stream, logs);
    assert forall|key: SinkKey| twice.dom().contains(key) <==> once.dom().contains(key) by {
        lemma_upserted_row(rows, stream, logs, key);
        lemma_upserted_row(once, stream, logs, key);
    }
    assert forall|key: SinkKey| twice.dom().contains(key) implies #[trigger] twice[key] == once[key] by {
        lemma_upserted_row(rows, stream, logs, key);
        lemma_upserted_row(once, stream, logs, key);
    }
    assert(twice =~= once);
}

/// A batch leaves the rows of other streams alone.
pub proof fn lemma_other_streams_are_untouched(
    rows: Map<SinkKey, LogView>,
    stream: EventStream,
    logs: Seq<LogView>,
    key: SinkKey,
)
    requires
        key.stream != stream,
    ensures
        upserted(rows, stream, logs).dom().contains(key) == rows.dom().contains(key),
        rows.dom().contains(key) ==> upserted(rows, stream, logs)[key] == rows[key],
    decreases logs.len(),
{
    if logs.len() > 0 {
        lemma_other_streams_are_untouched(rows, stream, logs.drop_last(), key);
    }
}

/// A stored log with its key.
#[derive(Debug)]
struct SinkRow {
    key: SinkKey,
    log: LogRecord,
}

/// One of `rows` is stored under `key`.
spec fn stores(rows: Seq<SinkRow>, key: SinkKey) -> bool {
    exists|i: int| 0 <= i < rows.len() && (#[trigger] rows[i]).key == key
}

/// A position at which `rows` stores `key`.
spec fn row_of(rows: Seq<SinkRow>, key: SinkKey) -> int {
    choose|i: int| 0 <= i < rows.len() && (#[trigger] rows[i]).key == key
}

/// No two rows share a key.
spec fn unique_keys(rows: Seq<SinkRow>) -> bool {
    forall|a: int, b: int|
        0 <= a < b < rows.len() ==> (#[trigger] rows[a]).key != (#[trigger] rows[b]).key
}

/// The map that a list of rows stands for.
spec fn table(rows: Seq<SinkRow>) -> Map<SinkKey, LogView> {
    Map::new(|key: SinkKey| stores(rows, key), |key: SinkKey| rows[row_of(rows, key)].log@)
}

proof fn lemma_row(rows: Seq<SinkRow>, i: int)
    requires
        unique_keys(rows),
        0 <= i < rows.len(),
    ensures
        stores(rows, rows[i].key),
        row_of(rows, rows[i].key) == i,
        table(rows)[rows[i].key] == rows[i].log@,
{
    let j = row_of(rows, rows[i].key);
    assert(0 <= j < rows.len() && rows[j].key == rows[i].key);
    if j < i {
        assert(rows[j].key != rows[i].key);
    } else if i < j {
        assert(rows[i].key != rows[j].key);
    }
}

proof fn lemma_row_added(rows: Seq<SinkRow>, row: SinkRow)
    requires
        unique_keys(rows),
        !stores(rows, row.key),
    ensures
        unique_keys(rows.push(row)),
        table(rows.push(row)) == table(rows).insert(row.key, row.log@),
{
    let grown = rows.push(row);
    assert forall|a: int, b: int| 0 <= a < b < grown.len() implies (#[trigger] grown[a]).key != (
    #[trigger] grown[b]).key by {
        if b == rows.len() {
            assert(rows[a].key != row.key);
        } else {
            assert(rows[a].key != rows[b].key);
        }
    }
    assert forall|key: SinkKey| stores(grown, key) <==> (stores(rows, key) || key == row.key) by {
        if stores(rows, key) {
            let i = row_of(rows, key);
            assert(grown[i].key == key);
        }
        if key == row.key {
            assert(grown[rows.len() as int].key == key);
        }
        if stores(grown, key) {
            let i = row_of(grown, key);
            if i < rows.len() {
                assert(rows[i].key == key);
            }
        }
    }
    assert forall|key: SinkKey| stores(grown, key) implies #[trigger] table(grown)[key] == table(
        rows,
    ).insert(row.key, row.log@)[key] by {
        let i = row_of(grown, key);
        lemma_row(grown, i);
        if i < rows.len() {
            lemma_row(rows, i);
        }
    }
    assert(table(grown) =~= table(rows).insert(row.key, row.log@));
}

proof fn lemma_row_replaced(rows: Seq<SinkRow>, i: int, row: SinkRow)
    requires
        unique_keys(rows),
        0 <= i < rows.len(),
        row.key == rows[i].key,
    ensures
        unique_keys(rows.update(i, row)),
        table(rows.update(i, row)) == table(rows).insert(row.key, row.log@),
{
    let changed = rows.update(i, row);
    assert forall|a: int, b: int| 0 <= a < b < changed.len() implies (#[trigger] changed[a]).key != (
    #[trigger] changed[b]).key by {
        assert(rows[a].key != rows[b].key);
    }
    assert forall|key: SinkKey| stores(changed, key) <==> stores(rows, key) by {
        if stores(rows, key) {
            let j = row_of(rows, key);
            assert(changed[j].key == key);
        }
        if stores(changed, key) {
            let j = row_of(changed, key);
            assert(rows[j].key == key);
        }
    }
    lemma_row(rows, i);
    assert forall|key: SinkKey| stores(rows, key) implies #[trigger] table(changed)[key] == table(
        rows,
    ).insert(row.key, row.log@)[key] by {
        let j = row_of(rows, key);
        lemma_row(rows, j);
        assert(changed[j].key == key);
        lemma_row(changed, j);
    }
    assert(table(changed) =~= table(rows).insert(row.key, row.log@));
}

fn find_row(rows: &Vec<SinkRow>, key: SinkKey) -> (r: Option<usize>)
    ensures
        r is Some <==> stores(rows@, key),
        r matches Some(i) ==> i < rows@.len() && rows@[i as int].key == key,
{
    let mut i: usize = 0;
    while i < rows.len()
        invariant
            i <= rows.len(),
            forall|j: int| 0 <= j < i ==> (#[trigger] rows@[j]).key != key,
        decreases rows.len() - i,
    {
        if rows[i].key == key {
            return Some(i);
        }
        i = i + 1;
    }
    None
}

/// An in-memory sink that upserts by stream, block number and log index.
#[derive(Debug)]
pub struct UpsertSink {
    rows: Vec<SinkRow>,
}

impl View for UpsertSink {
    type V = Map<SinkKey, LogView>;

    closed spec fn view(&self) -> Map<SinkKey, LogView> {
        table(self.rows@)
    }
}

impl UpsertSink {
    #[verifier::type_invariant]
    spec fn inv(self) -> bool {
        unique_keys(self.rows@)
    }

    /// An empty sink.
    pub fn new() -> (sink: UpsertSink)
        ensures
            sink@ == Map::<SinkKey, LogView>::empty(),
    {
        let sink = UpsertSink { rows: Vec::new() };
        assert(sink@ =~= Map::<SinkKey, LogView>::empty());
        sink
    }

    /// How many rows the sink holds.
    pub fn len(&self) -> (n: usize)
        ensures
            n == self@.dom().len(),
            self@.dom().finite(),
    {
        proof {
            use_type_invariant(self);
            lemma_table_size(self.rows@);
        }
        self.rows.len()
    }

    /// The log stored under `key`, if there is one.
    pub fn get(&self, key: SinkKey) -> (r: Option<&LogRecord>)
        ensures
            r is Some <==> self@.dom().contains(key),
            r matches Some(log) ==> log@ == self@[key],
    {
        proof {
            use_type_invariant(self);
        }
        match find_row(&self.rows, key) {
            Some(i) => {
                proof {
                    lemma_row(self.rows@, i as int);
                }
                Some(&self.rows[i].log)
            },
            None => None,
        }
    }

    /// Upserts the logs of a batch of `stream`, in the order of the batch.
    pub fn deliver(&mut self, stream: EventStream, logs: &Vec<LogRecord>)
        ensures
            final(self)@ == upserted(old(self)@, stream, views(logs@)),
    {
        proof {
            use_type_invariant(&*self);
        }
        let ghost start = self@;
        let mut rows: Vec<SinkRow> = Vec::new();
        std::mem::swap(&mut rows, &mut self.rows);
        let mut i: usize = 0;
        assert(views(logs@).subrange(0, 0) =~= Seq::<LogView>::empty());
        while i < logs.len()
            invariant
                i <= logs.len(),
                unique_keys(rows@),
                table(rows@) == upserted(start, stream, views(logs@).subrange(0, i as int)),
            decreases logs.len() - i,
        {
            let log = logs[i].duplicate();
            let key = SinkKey {
                stream: stream,
                block_number: log.block_number,
                log_index: log.log_index,
            };
            let row = SinkRow { key: key, log: log };
            proof {
                let done = views(logs@).subrange(0, i as int);
                let next = views(logs@).subrange(0, i + 1);
                assert(next.drop_last() =~= done);
                assert(next.last() == logs@[i as int]@);
                assert(key == key_of(stream, next.last()));
            }
            match find_row(&rows, key) {
                Some(at) => {
                    proof {
                        lemma_row_replaced(rows@, at as int, row);
                    }
                    rows.set(at, row);
                },
                None => {
                    proof {
                        lemma_row_added(rows@, row);
                    }
                    rows.push(row);
                },
            }
            i = i + 1;
        }
        assert(views(logs@).subrange(0, logs.len() as int) =~= views(logs@));
        self.rows = rows;
    }
}

/// A list of rows with distinct keys stands for a map of as many entries.
proof fn lemma_table_size(rows: Seq<SinkRow>)
    requires
        unique_keys(rows),
    ensures
        table(rows).dom().finite(),
        table(rows).dom().len() == rows.len(),
    decreases rows.len(),
{
    if rows.len() == 0 {
        assert(table(rows).dom() =~= Set::<SinkKey>::empty());
    } else {
        let shorter = rows.drop_last();
        let last = rows.last();
        assert forall|a: int, b: int| 0 <= a < b < shorter.len() implies (#[trigger] shorter[a]).key != (
        #[trigger] shorter[b]).key by {
            assert(rows[a].key != rows[b].key);
        }
        lemma_table_size(shorter);
        if stores(shorter, last.key) {
            let i = row_of(shorter, last.key);
            assert(rows[i].key != rows[rows.len() - 1].key);
        }
        lemma_row_added(shorter, last);
        assert(shorter.push(last) =~= rows);
        assert(table(rows).dom() =~= table(shorter).dom().insert(last.key));
    }
}

} // verus!
