//! The event dependency graph: which event streams must wait for which, and
//! the stages in which they may run.
//!
//! The streams of an indexer are its declared events, contract by contract
//! and event by event. A stream depends on every stream that one of its
//! dependency references names.

use vstd::prelude::*;
use crate::graph::{
    graph_wf, has_cycle, has_edge, is_layering, is_tight, layer, rows, stages_match, Layering,
};
use crate::streamer::RETRY_BACKOFF_MS;
use crate::types::{Contract, EventRef, EventRefView, Indexer};

verus! {

/// One event stream, by the positions of its contract and of its event.
#[derive(Clone, Copy, Debug, PartialEq, Eq, Structural)]
pub struct EventStream {
    pub contract: usize,
    pub event: usize,
}

/// The declared dependencies run in a circle: no order of stages exists.
#[derive(Clone, Copy, Debug, PartialEq, Eq, Structural)]
pub struct DependencyCycleError {}

/// The first `count` streams of the contract at position `contract`.
pub open spec fn events_upto(contract: usize, count: nat) -> Seq<EventStream> {
    Seq::new(count, |e: int| EventStream { contract: contract, event: e as usize })
}

/// The streams of the first `c` contracts, in declaration order.
pub open spec fn streams_upto(contracts: Seq<Contract>, c: nat) -> Seq<EventStream>
    decreases c,
{
    if c == 0 {
        Seq::empty()
    } else {
        streams_upto(contracts, (c - 1) as nat) + events_upto(
            (c - 1) as usize,
            contracts[c - 1].events@.len(),
        )
    }
}

/// All streams that the contracts declare, in declaration order.
pub open spec fn declared_streams(contracts: Seq<Contract>) -> Seq<EventStream> {
    streams_upto(contracts, contracts.len())
}

/// `s` points at a declared event.
pub open spec fn is_stream_of(contracts: Seq<Contract>, s: EventStream) -> bool {
    s.contract < contracts.len() && s.event < contracts[s.contract as int].events@.len()
}

/// The names by which stream `s` is referred to.
pub open spec fn stream_id(contracts: Seq<Contract>, s: EventStream) -> EventRefView {
    EventRefView {
        contract: contracts[s.contract as int].name@,
        event: contracts[s.contract as int].events@[s.event as int].name@,
    }
}

/// The dependency references that stream `s` declares.
pub open spec fn wanted_by(contracts: Seq<Contract>, s: EventStream) -> Seq<EventRef> {
    contracts[s.contract as int].events@[s.event as int].dependencies@
}

/// One of `refs` names `id`.
pub open spec fn names(refs: Seq<EventRef>, id: EventRefView) -> bool {
    exists|k: int| 0 <= k < refs.len() && (#[trigger] refs[k])@ == id
}

/// Among the first `m` streams, those that `wanted` names, in ascending
/// order of position.
pub open spec fn matches_upto(
    contracts: Seq<Contract>,
    streams: Seq<EventStream>,
    wanted: Seq<EventRef>,
    m: nat,
) -> Seq<usize>
    decreases m,
{
    if m == 0 {
        Seq::empty()
    } else {
        let earlier = matches_upto(contracts, streams, wanted, (m - 1) as nat);
        if names(wanted, stream_id(contracts, streams[m - 1])) {
            earlier.push((m - 1) as usize)
        } else {
            earlier
        }
    }
}

/// The streams that stream `j` depends on.
pub open spec fn declared_row(contracts: Seq<Contract>, streams: Seq<EventStream>, j: int) -> Seq<
    usize,
> {
    matches_upto(contracts, streams, wanted_by(contracts, streams[j]), streams.len())
}

/// The dependency graph over `streams`.
pub open spec fn graph_over(contracts: Seq<Contract>, streams: Seq<EventStream>) -> Seq<Seq<usize>> {
    Seq::new(streams.len(), |j: int| declared_row(contracts, streams, j))
}

/// The dependency graph that the contracts declare.
pub open spec fn declared_graph(contracts: Seq<Contract>) -> Seq<Seq<usize>> {
    graph_over(contracts, declared_streams(contracts))
}

/// A stream is among the matches exactly if it lies below the bound and
/// `wanted` names it.
pub proof fn lemma_matches(
    contracts: Seq<Contract>,
    streams: Seq<EventStream>,
    wanted: Seq<EventRef>,
    m: nat,
    x: usize,
)
    requires
        m <= streams.len() <= usize::MAX,
    ensures
        matches_upto(contracts, streams, wanted, m).contains(x) <==> (x < m && names(
            wanted,
            stream_id(contracts, streams[x as int]),
        )),
    decreases m,
{
    broadcast use vstd::seq_lib::lemma_seq_contains_after_push;

    if m > 0 {
        lemma_matches(contracts, streams, wanted, (m - 1) as nat, x);
        let earlier = matches_upto(contracts, streams, wanted, (m - 1) as nat);
        if names(wanted, stream_id(contracts, streams[m - 1])) {
            assert(earlier.push((m - 1) as usize).contains(x) <==> ((m - 1) as usize == x
                || earlier.contains(x)));
        }
    } else {
        assert(!Seq::<usize>::empty().contains(x));
    }
}

/// In the declared graph, stream `to` depends on stream `from` exactly if
/// one of the references that `to` declares names `from`.
pub proof fn lemma_edge_is_declared(contracts: Seq<Contract>, from: int, to: int)
    requires
        declared_streams(contracts).len() <= usize::MAX,
    ensures
        has_edge(declared_graph(contracts), from, to) <==> {
            let streams = declared_streams(contracts);
            &&& 0 <= from < streams.len()
            &&& 0 <= to < streams.len()
            &&& names(wanted_by(contracts, streams[to]), stream_id(contracts, streams[from]))
        },
{
    let streams = declared_streams(contracts);
    let g = declared_graph(contracts);
    if 0 <= to < streams.len() && 0 <= from < streams.len() {
        let wanted = wanted_by(contracts, streams[to]);
        lemma_matches(contracts, streams, wanted, streams.len(), from as usize);
        assert(g[to] == matches_upto(contracts, streams, wanted, streams.len()));
        if has_edge(g, from, to) {
            let k = choose|k: int| 0 <= k < g[to].len() && #[trigger] g[to][k] == from;
            assert(g[to].contains(from as usize));
        }
        if g[to].contains(from as usize) {
            let k = choose|k: int| 0 <= k < g[to].len() && g[to][k] == from as usize;
            assert(g[to][k] == from);
        }
    }
}

fn event_streams(indexer: &Indexer) -> (streams: Vec<EventStream>)
    ensures
        streams@ == declared_streams(indexer.contracts@),
        forall|i: int|
            0 <= i < streams.len() ==> is_stream_of(indexer.contracts@, #[trigger] streams@[i]),
{
    let ghost contracts = indexer.contracts@;
    let mut streams: Vec<EventStream> = Vec::new();
    let mut c: usize = 0;
    while c < indexer.contracts.len()
        invariant
            c <= indexer.contracts.len(),
            contracts == indexer.contracts@,
            streams@ == streams_upto(contracts, c as nat),
            forall|i: int| 0 <= i < streams.len() ==> is_stream_of(contracts, #[trigger] streams@[i]),
        decreases indexer.contracts.len() - c,
    {
        let count: usize = indexer.contracts[c].events.len();
        let ghost base = streams@;
        let mut e: usize = 0;
        while e < count
            invariant
                e <= count,
                c < indexer.contracts.len(),
                contracts == indexer.contracts@,
                count == contracts[c as int].events@.len(),
                streams@ == base + events_upto(c, e as nat),
                forall|i: int|
                    0 <= i < streams.len() ==> is_stream_of(contracts, #[trigger] streams@[i]),
            decreases count - e,
        {
            streams.push(EventStream { contract: c, event: e });
            e = e + 1;
            assert(streams@ =~= base + events_upto(c, e as nat));
        }
        c = c + 1;
    }
    streams
}

fn refers_to(refs: &Vec<EventRef>, contract: &String, event: &String) -> (b: bool)
    ensures
        b == names(refs@, EventRefView { contract: contract@, event: event@ }),
{
    let mut k: usize = 0;
    while k < refs.len()
        invariant
            k <= refs.len(),
            forall|i: int|
                0 <= i < k ==> (#[trigger] refs@[i])@ != (EventRefView {
                    contract: contract@,
                    event: event@,
                }),
        decreases refs.len() - k,
    {
        if refs[k].contract == *contract && refs[k].event == *event {
            return true;
        }
        k = k + 1;
    }
    false
}

fn resolve_row(indexer: &Indexer, streams: &Vec<EventStream>, j: usize) -> (row: Vec<usize>)
    requires
        j < streams.len(),
        forall|i: int|
            0 <= i < streams.len() ==> is_stream_of(indexer.contracts@, #[trigger] streams@[i]),
    ensures
        row@ == declared_row(indexer.contracts@, streams@, j as int),
        forall|k: int| 0 <= k < row.len() ==> (#[trigger] row@[k]) < streams.len(),
{
    let ghost contracts = indexer.contracts@;
    let s = streams[j];
    assert(is_stream_of(contracts, streams@[j as int]));
    let wanted = &indexer.contracts[s.contract].events[s.event].dependencies;
    let mut row: Vec<usize> = Vec::new();
    let mut i: usize = 0;
    while i < streams.len()
        invariant
            i <= streams.len(),
            contracts == indexer.contracts@,
            wanted@ == wanted_by(contracts, streams@[j as int]),
            forall|x: int| 0 <= x < streams.len() ==> is_stream_of(contracts, #[trigger] streams@[x]),
            row@ == matches_upto(contracts, streams@, wanted@, i as nat),
            forall|k: int| 0 <= k < row.len() ==> (#[trigger] row@[k]) < i,
        decreases streams.len() - i,
    {
        let t = streams[i];
        assert(is_stream_of(contracts, streams@[i as int]));
        let contract = &indexer.contracts[t.contract];
        if refers_to(wanted, &contract.name, &contract.events[t.event].name) {
            row.push(i);
        }
        i = i + 1;
    }
    row
}

fn resolve(indexer: &Indexer, streams: &Vec<EventStream>) -> (deps: Vec<Vec<usize>>)
    requires
        forall|i: int|
            0 <= i < streams.len() ==> is_stream_of(indexer.contracts@, #[trigger] streams@[i]),
    ensures
        rows(deps@) == graph_over(indexer.contracts@, streams@),
        graph_wf(rows(deps@)),
{
    let mut deps: Vec<Vec<usize>> = Vec::new();
    let mut j: usize = 0;
    while j < streams.len()
        invariant
            j <= streams.len(),
            deps.len() == j,
            forall|i: int|
                0 <= i < streams.len() ==> is_stream_of(indexer.contracts@, #[trigger] streams@[i]),
            forall|r: int|
                0 <= r < j ==> (#[trigger] deps@[r])@ == declared_row(indexer.contracts@, streams@, r),
            forall|r: int, k: int|
                0 <= r < j && 0 <= k < deps@[r]@.len() ==> (#[trigger] deps@[r]@[k]) < streams.len(),
        decreases streams.len() - j,
    {
        let row = resolve_row(indexer, streams, j);
        deps.push(row);
        j = j + 1;
    }
    assert(rows(deps@) =~= graph_over(indexer.contracts@, streams@));
    assert forall|r: int, k: int| 0 <= r < rows(deps@).len() && 0 <= k < rows(deps@)[r].len() implies (
    #[trigger] rows(deps@)[r][k]) < rows(deps@).len() by {
        assert(rows(deps@)[r][k] == deps@[r]@[k]);
    }
    deps
}

/// The stream at position `stream` has a checkpoint at or past `upper`.
pub open spec fn has_reached(checkpoints: Seq<Option<u64>>, stream: int, upper: u64) -> bool {
    &&& 0 <= stream < checkpoints.len()
    &&& checkpoints[stream] matches Some(block)
    &&& block >= upper
}

/// A dependency: stream `to` must wait for stream `from`.
#[derive(Clone, Copy, Debug, PartialEq, Eq, Structural)]
pub struct DependencyEdge {
    pub from: usize,
    pub to: usize,
}

/// Whether a stream may send its query now.
#[derive(Clone, Copy, Debug, PartialEq, Eq, Structural)]
pub enum Gate {
    /// Every stream it depends on is far enough: send the query.
    Proceed,
    /// A stream it depends on lags behind: sleep, then ask again.
    Wait { sleep_ms: u64 },
}

/// The dependency graph of an indexer's event streams, sorted into stages.
#[derive(Debug)]
pub struct EventsDependencyTree {
    streams: Vec<EventStream>,
    deps: Vec<Vec<usize>>,
    layering: Layering,
}

impl EventsDependencyTree {
    #[verifier::type_invariant]
    spec fn inv(self) -> bool {
        &&& self.deps.len() == self.streams.len()
        &&& graph_wf(rows(self.deps@))
        &&& self.layering.layers(rows(self.deps@))
    }

    /// The streams, in declaration order.
    pub closed spec fn streams(&self) -> Seq<EventStream> {
        self.streams@
    }

    /// For each stream, the positions of the streams it depends on.
    pub closed spec fn graph(&self) -> Seq<Seq<usize>> {
        rows(self.deps@)
    }

    /// The stage of each stream.
    pub closed spec fn stage_map(&self) -> Seq<usize> {
        self.layering.stage_of@
    }

    /// The streams of each stage.
    pub closed spec fn stage_lists(&self) -> Seq<Seq<usize>> {
        rows(self.layering.stages@)
    }

    /// Every stream has a row in the graph; every stream lies in the
    /// earliest stage after all the streams it depends on; and each stage
    /// lists its streams in ascending order.
    pub open spec fn wf(&self) -> bool {
        &&& self.graph().len() == self.streams().len()
        &&& graph_wf(self.graph())
        &&& is_layering(self.graph(), self.stage_map())
        &&& is_tight(self.graph(), self.stage_map())
        &&& stages_match(self.stage_lists(), self.stage_map())
    }

    /// The tree holds the streams and the graph that `contracts` declare.
    pub open spec fn built_from(&self, contracts: Seq<Contract>) -> bool {
        &&& self.wf()
        &&& self.streams() == declared_streams(contracts)
        &&& self.graph() == declared_graph(contracts)
    }

    /// Stream `stream` may fetch up to block `upper`: every stream it
    /// depends on has a checkpoint at or past that block.
    pub open spec fn spec_may_proceed(
        &self,
        stream: int,
        checkpoints: Seq<Option<u64>>,
        upper: u64,
    ) -> bool {
        &&& 0 <= stream < self.graph().len()
        &&& forall|k: int|
            0 <= k < self.graph()[stream].len() ==> has_reached(
                checkpoints,
                (#[trigger] self.graph()[stream][k]) as int,
                upper,
            )
    }

    /// Builds the graph of the indexer's declared events and sorts them
    /// into stages. Fails exactly when the declared dependencies hold a
    /// cycle; then no order of stages is given.
    pub fn new(indexer: &Indexer) -> (r: Result<EventsDependencyTree, DependencyCycleError>)
        ensures
            r is Err <==> has_cycle(declared_graph(indexer.contracts@)),
            r matches Ok(tree) ==> tree.built_from(indexer.contracts@),
    {
        let streams = event_streams(indexer);
        let deps = resolve(indexer, &streams);
        match layer(&deps) {
            Some(layering) => Ok(
                EventsDependencyTree { streams: streams, deps: deps, layering: layering },
            ),
            None => Err(DependencyCycleError {  }),
        }
    }

    /// How many streams there are.
    pub fn stream_count(&self) -> (n: usize)
        ensures
            n == self.streams().len(),
            self.wf(),
    {
        proof {
            use_type_invariant(self);
        }
        self.streams.len()
    }

    /// All dependencies, dependent by dependent.
    pub fn edges(&self) -> (list: Vec<DependencyEdge>)
        ensures
            forall|e: DependencyEdge|
                #[trigger] list@.contains(e) <==> has_edge(self.graph(), e.from as int, e.to as int),
    {
        proof {
            use_type_invariant(self);
        }
        let ghost g = rows(self.deps@);
        let mut list: Vec<DependencyEdge> = Vec::new();
        let mut to: usize = 0;
        while to < self.deps.len()
            invariant
                to <= self.deps.len(),
                g == rows(self.deps@),
                graph_wf(g),
                forall|e: DependencyEdge|
                    #[trigger] list@.contains(e) <==> (e.to < to && has_edge(
                        g,
                        e.from as int,
                        e.to as int,
                    )),
            decreases self.deps.len() - to,
        {
            let row = &self.deps[to];
            assert(g[to as int] == row@);
            let mut k: usize = 0;
            while k < row.len()
                invariant
                    k <= row.len(),
                    to < self.deps.len(),
                    g == rows(self.deps@),
                    graph_wf(g),
                    g[to as int] == row@,
                    forall|e: DependencyEdge|
                        #[trigger] list@.contains(e) <==> ((e.to < to && has_edge(
                            g,
                            e.from as int,
                            e.to as int,
                        )) || (e.to == to && exists|i: int| 0 <= i < k && #[trigger] row@[i] == e.from)),
                decreases row.len() - k,
            {
                let ghost before = list@;
                let edge = DependencyEdge { from: row[k], to: to };
                list.push(edge);
                proof {
                    broadcast use vstd::seq_lib::lemma_seq_contains_after_push;

                    assert forall|e: DependencyEdge| #[trigger] list@.contains(e) <==> ((e.to < to
                        && has_edge(g, e.from as int, e.to as int)) || (e.to == to && exists|i: int|
                        0 <= i < k + 1 && #[trigger] row@[i] == e.from)) by {
                        assert(list@ == before.push(edge));
                        assert(before.push(edge).contains(e) <==> (edge == e || before.contains(e)));
                        if edge == e {
                            assert(row@[k as int] == e.from);
                        }
                        if e.to == to && exists|i: int| 0 <= i < k + 1 && #[trigger] row@[i] == e.from {
                            let i = choose|i: int| 0 <= i < k + 1 && #[trigger] row@[i] == e.from;
                            if i == k {
                                assert(edge == e);
                            } else {
                                assert(0 <= i < k && row@[i] == e.from);
                            }
                        }
                    }
                }
                k = k + 1;
            }
            proof {
                assert forall|e: DependencyEdge| #[trigger] list@.contains(e) <==> (e.to < to + 1
                    && has_edge(g, e.from as int, e.to as int)) by {
                    if e.to == to {
                        if exists|i: int| 0 <= i < row@.len() && #[trigger] row@[i] == e.from {
                            let i = choose|i: int| 0 <= i < row@.len() && #[trigger] row@[i] == e.from;
                            assert(g[to as int][i] == e.from);
                            assert(g[to as int][i] < g.len());
                        }
                        if has_edge(g, e.from as int, e.to as int) {
                            let i = choose|i: int|
                                0 <= i < g[e.to as int].len() && #[trigger] g[e.to as int][i] == e.from;
                            assert(row@[i] == e.from);
                        }
                    }
                }
            }
            to = to + 1;
        }
        list
    }

    /// The stream at position `stream`, if there is one.
    pub fn stream(&self, stream: usize) -> (r: Option<EventStream>)
        ensures
            r == if stream < self.streams().len() {
                Some(self.streams()[stream as int])
            } else {
                None
            },
    {
        if stream < self.streams.len() {
            Some(self.streams[stream])
        } else {
            None
        }
    }

    /// The positions of the streams that the stream at `stream` depends on.
    pub fn dependencies(&self, stream: usize) -> (r: Option<&Vec<usize>>)
        ensures
            r is Some <==> stream < self.graph().len(),
            r matches Some(row) ==> row@ == self.graph()[stream as int],
    {
        if stream < self.deps.len() {
            Some(&self.deps[stream])
        } else {
            None
        }
    }

    /// The stage of the stream at position `stream`.
    pub fn stage_of(&self, stream: usize) -> (r: Option<usize>)
        ensures
            r == if stream < self.stage_map().len() {
                Some(self.stage_map()[stream as int])
            } else {
                None
            },
    {
        if stream < self.layering.stage_of.len() {
            Some(self.layering.stage_of[stream])
        } else {
            None
        }
    }

    /// The stages in the order in which they may run: the streams of one
    /// stage do not depend on each other, and each depends only on streams
    /// of earlier stages.
    pub fn topological_stages(&self) -> (stages: &Vec<Vec<usize>>)
        ensures
            rows(stages@) == self.stage_lists(),
            self.wf(),
    {
        proof {
            use_type_invariant(self);
        }
        &self.layering.stages
    }

    /// Decides whether the stream at `stream` may fetch a range whose upper
    /// bound is `upper`, given the last synced block of every stream
    /// (`None` for a stream that has no checkpoint yet).
    pub fn may_proceed(&self, stream: usize, checkpoints: &Vec<Option<u64>>, upper: u64) -> (b: bool)
        ensures
            b == self.spec_may_proceed(stream as int, checkpoints@, upper),
    {
        if stream >= self.deps.len() {
            return false;
        }
        let row = &self.deps[stream];
        let mut k: usize = 0;
        while k < row.len()
            invariant
                k <= row.len(),
                stream < self.deps.len(),
                row@ == rows(self.deps@)[stream as int],
                forall|i: int|
                    0 <= i < k ==> has_reached(checkpoints@, (#[trigger] row@[i]) as int, upper),
            decreases row.len() - k,
        {
            let upstream: usize = row[k];
            let reached: bool = upstream < checkpoints.len() && match checkpoints[upstream] {
                Some(block) => block >= upper,
                None => false,
            };
            if !reached {
                assert(!has_reached(checkpoints@, self.graph()[stream as int][k as int] as int, upper));
                return false;
            }
            k = k + 1;
        }
        true
    }

    /// Gates a query of the stream at `stream` whose range ends at `upper`:
    /// the query may go out once every stream it depends on has a
    /// checkpoint at or past `upper`; until then the stream waits, for as
    /// long as it would wait before repeating a failed query.
    pub fn gate(&self, stream: usize, checkpoints: &Vec<Option<u64>>, upper: u64) -> (g: Gate)
        ensures
            g == if self.spec_may_proceed(stream as int, checkpoints@, upper) {
                Gate::Proceed
            } else {
                Gate::Wait { sleep_ms: RETRY_BACKOFF_MS }
            },
    {
        if self.may_proceed(stream, checkpoints, upper) {
            Gate::Proceed
        } else {
            Gate::Wait { sleep_ms: RETRY_BACKOFF_MS }
        }
    }
}

/// Every stream lies in a later stage than each stream it depends on, so
/// the streams of one stage do not depend on each other.
pub proof fn lemma_dependencies_come_first(tree: EventsDependencyTree, from: int, to: int)
    requires
        tree.wf(),
        has_edge(tree.graph(), from, to),
    ensures
        tree.stage_map()[from] < tree.stage_map()[to],
{
    let g = tree.graph();
    let k = choose|k: int| 0 <= k < g[to].len() && #[trigger] g[to][k] == from;
    assert(tree.stage_map()[g[to][k] as int] < tree.stage_map()[to]);
}

/// A stream of the first stage may always proceed: it waits for nobody.
pub proof fn lemma_first_stage_is_free(
    tree: EventsDependencyTree,
    stream: int,
    checkpoints: Seq<Option<u64>>,
    upper: u64,
)
    requires
        tree.wf(),
        0 <= stream < tree.graph().len(),
        tree.stage_map()[stream] == 0,
    ensures
        tree.spec_may_proceed(stream, checkpoints, upper),
{
    let g = tree.graph();
    assert forall|k: int| 0 <= k < g[stream].len() implies has_reached(
        checkpoints,
        (#[trigger] g[stream][k]) as int,
        upper,
    ) by {
        assert(tree.stage_map()[g[stream][k] as int] < tree.stage_map()[stream]);
    }
}

/// Once a stream may fetch up to a block, it may fetch up to every
/// earlier block, and it still may after checkpoints have advanced.
pub proof fn lemma_gate_is_monotonic(
    tree: EventsDependencyTree,
    stream: int,
    before: Seq<Option<u64>>,
    after: Seq<Option<u64>>,
    upper: u64,
    lower: u64,
)
    requires
        tree.spec_may_proceed(stream, before, upper),
        lower <= upper,
        after.len() == before.len(),
        forall|i: int|
            0 <= i < before.len() && (#[trigger] before[i]) is Some ==> after[i] is Some
                && after[i]->0 >= before[i]->0,
    ensures
        tree.spec_may_proceed(stream, after, lower),
{
    let g = tree.graph();
    assert forall|k: int| 0 <= k < g[stream].len() implies has_reached(
        after,
        (#[trigger] g[stream][k]) as int,
        lower,
    ) by {
        let d = g[stream][k] as int;
        assert(has_reached(before, d, upper));
        assert(before[d] is Some);
    }
}

} // verus!
