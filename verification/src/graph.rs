//! Dependency graphs over stream indices and their layering into stages.
//!
//! A graph is a sequence of rows: row `j` lists the streams that stream `j`
//! depends on. An edge runs from each of them to `j`.

use vstd::prelude::*;

verus! {

/// The rows of a nested vector as sequences.
pub open spec fn rows(v: Seq<Vec<usize>>) -> Seq<Seq<usize>> {
    Seq::new(v.len(), |j: int| v[j]@)
}

/// Every dependency names a stream of the graph.
pub open spec fn graph_wf(g: Seq<Seq<usize>>) -> bool {
    forall|j: int, k: int| 0 <= j < g.len() && 0 <= k < g[j].len() ==> (#[trigger] g[j][k]) < g.len()
}

/// Stream `to` depends on stream `from`.
pub open spec fn has_edge(g: Seq<Seq<usize>>, from: int, to: int) -> bool {
    &&& 0 <= from < g.len()
    &&& 0 <= to < g.len()
    &&& exists|k: int| 0 <= k < g[to].len() && #[trigger] g[to][k] == from
}

/// `walk` follows edges from a stream back to that same stream.
pub open spec fn is_cycle(g: Seq<Seq<usize>>, walk: Seq<int>) -> bool {
    &&& walk.len() >= 2
    &&& walk[0] == walk[walk.len() - 1]
    &&& forall|k: int| 0 <= k < walk.len() - 1 ==> has_edge(g, #[trigger] walk[k], walk[k + 1])
}

/// Some stream depends, directly or through others, on itself.
pub open spec fn has_cycle(g: Seq<Seq<usize>>) -> bool {
    exists|walk: Seq<int>| is_cycle(g, walk)
}

/// `stage_of` puts every stream in a later stage than each stream it
/// depends on.
pub open spec fn is_layering(g: Seq<Seq<usize>>, stage_of: Seq<usize>) -> bool {
    &&& stage_of.len() == g.len()
    &&& forall|j: int, k: int|
        0 <= j < g.len() && 0 <= k < g[j].len() ==> 0 <= (#[trigger] g[j][k]) < g.len()
            && stage_of[g[j][k] as int] < stage_of[j]
}

/// No stream sits later than it must: a stream outside stage 0 depends on
/// a stream of the stage just before its own.
pub open spec fn is_tight(g: Seq<Seq<usize>>, stage_of: Seq<usize>) -> bool {
    forall|j: int| 0 <= j < g.len() ==> #[trigger] tight_at(g, stage_of, j)
}

/// Stream `j` is in stage 0 or depends on a stream of the stage just
/// before its own.
pub open spec fn tight_at(g: Seq<Seq<usize>>, stage_of: Seq<usize>, j: int) -> bool {
    0 < stage_of[j] ==> exists|k: int|
        0 <= k < g[j].len() && 0 <= (#[trigger] g[j][k]) < g.len() && stage_of[g[j][k] as int]
            == stage_of[j] - 1
}

/// Each element is larger than the one before it.
pub open spec fn strictly_increasing(s: Seq<usize>) -> bool {
    forall|a: int, b: int| 0 <= a < b < s.len() ==> s[a] < s[b]
}

/// `stages[s]` lists, in ascending order, exactly the streams that
/// `stage_of` puts in stage `s`, and no stage is empty.
pub open spec fn stages_match(stages: Seq<Seq<usize>>, stage_of: Seq<usize>) -> bool {
    &&& forall|j: int| 0 <= j < stage_of.len() ==> (#[trigger] stage_of[j]) < stages.len()
    &&& forall|s: int| 0 <= s < stages.len() ==> (#[trigger] stages[s]).len() > 0
    &&& forall|s: int| 0 <= s < stages.len() ==> strictly_increasing(#[trigger] stages[s])
    &&& forall|s: int, j: usize|
        0 <= s < stages.len() ==> ((#[trigger] stages[s].contains(j)) <==> (j < stage_of.len()
            && stage_of[j as int] == s))
}

/// Along a walk that follows edges, the stage only grows.
proof fn lemma_walk_climbs(g: Seq<Seq<usize>>, stage_of: Seq<usize>, walk: Seq<int>, k: int)
    requires
        is_layering(g, stage_of),
        walk.len() >= 2,
        forall|i: int| 0 <= i < walk.len() - 1 ==> has_edge(g, #[trigger] walk[i], walk[i + 1]),
        1 <= k < walk.len(),
    ensures
        0 <= walk[0] < g.len(),
        0 <= walk[k] < g.len(),
        stage_of[walk[0]] < stage_of[walk[k]],
    decreases k,
{
    assert(has_edge(g, walk[k - 1], walk[k]));
    let d = choose|d: int| 0 <= d < g[walk[k]].len() && #[trigger] g[walk[k]][d] == walk[k - 1];
    assert(stage_of[g[walk[k]][d] as int] < stage_of[walk[k]]);
    if k > 1 {
        lemma_walk_climbs(g, stage_of, walk, k - 1);
    }
}

/// A graph that can be layered has no cycle.
pub proof fn lemma_layering_excludes_cycles(g: Seq<Seq<usize>>, stage_of: Seq<usize>)
    requires
        is_layering(g, stage_of),
    ensures
        !has_cycle(g),
{
    if has_cycle(g) {
        let walk = choose|walk: Seq<int>| is_cycle(g, walk);
        lemma_walk_climbs(g, stage_of, walk, walk.len() - 1);
    }
}

/// A tight layering puts every stream in the earliest stage that any
/// layering of the graph could give it. There is therefore only one.
pub proof fn lemma_tight_is_earliest(
    g: Seq<Seq<usize>>,
    tight: Seq<usize>,
    other: Seq<usize>,
    j: int,
)
    requires
        is_layering(g, tight),
        is_tight(g, tight),
        is_layering(g, other),
        0 <= j < g.len(),
    ensures
        tight[j] <= other[j],
    decreases tight[j],
{
    assert(tight_at(g, tight, j));
    if tight[j] > 0 {
        let k = choose|k: int|
            0 <= k < g[j].len() && 0 <= (#[trigger] g[j][k]) < g.len() && tight[g[j][k] as int]
                == tight[j] - 1;
        let d = g[j][k] as int;
        lemma_tight_is_earliest(g, tight, other, d);
        assert(other[g[j][k] as int] < other[j]);
    }
}

/// Two tight layerings of one graph are the same.
pub proof fn lemma_tight_layering_is_unique(g: Seq<Seq<usize>>, a: Seq<usize>, b: Seq<usize>)
    requires
        is_layering(g, a),
        is_tight(g, a),
        is_layering(g, b),
        is_tight(g, b),
    ensures
        a == b,
{
    assert forall|j: int| 0 <= j < a.len() implies a[j] == b[j] by {
        lemma_tight_is_earliest(g, a, b, j);
        lemma_tight_is_earliest(g, b, a, j);
    }
    assert(a =~= b);
}

/// How many streams have no stage yet.
spec fn unplaced_count(so: Seq<Option<usize>>) -> nat
    decreases so.len(),
{
    if so.len() == 0 {
        0
    } else {
        unplaced_count(so.drop_last()) + if so.last() is None {
            1nat
        } else {
            0nat
        }
    }
}

proof fn lemma_unplaced_update(so: Seq<Option<usize>>, i: int, stage: usize)
    requires
        0 <= i < so.len(),
        so[i] is None,
    ensures
        unplaced_count(so.update(i, Some(stage))) + 1 == unplaced_count(so),
    decreases so.len(),
{
    let after = so.update(i, Some(stage));
    if i == so.len() - 1 {
        assert(after.drop_last() =~= so.drop_last());
    } else {
        assert(after.drop_last() =~= so.drop_last().update(i, Some(stage)));
        lemma_unplaced_update(so.drop_last(), i, stage);
    }
}

proof fn lemma_unplaced_witness(so: Seq<Option<usize>>)
    ensures
        unplaced_count(so) > 0 ==> exists|j: int| 0 <= j < so.len() && so[j] is None,
        unplaced_count(so) == 0 ==> forall|j: int| 0 <= j < so.len() ==> so[j] is Some,
    decreases so.len(),
{
    if so.len() > 0 {
        lemma_unplaced_witness(so.drop_last());
        if unplaced_count(so) > 0 {
            if so.last() is None {
                assert(so[so.len() - 1] is None);
            } else {
                let j = choose|j: int| 0 <= j < so.drop_last().len() && so.drop_last()[j] is None;
                assert(so[j] is None);
            }
        } else {
            assert forall|j: int| 0 <= j < so.len() implies so[j] is Some by {
                if j < so.len() - 1 {
                    assert(so.drop_last()[j] is Some);
                }
            }
        }
    }
}

/// Stream `j` has no stage yet and every stream it depends on has one.
spec fn is_ready(g: Seq<Seq<usize>>, so: Seq<Option<usize>>, j: int) -> bool {
    &&& so[j] is None
    &&& forall|k: int| 0 <= k < g[j].len() ==> so[(#[trigger] g[j][k]) as int] is Some
}

/// The stages given so far respect the graph, are tight, and lie below
/// `round`; a stream left without a stage was held back in the last round
/// by a stream that had none then.
spec fn partial_layering(g: Seq<Seq<usize>>, so: Seq<Option<usize>>, round: int) -> bool {
    &&& so.len() == g.len()
    &&& forall|j: int| 0 <= j < g.len() && (#[trigger] so[j]) is Some ==> so[j]->0 < round
    &&& forall|j: int, k: int|
        0 <= j < g.len() && 0 <= k < g[j].len() && so[j] is Some ==> so[(#[trigger] g[j][k]) as int]
            is Some && so[g[j][k] as int]->0 < so[j]->0
    &&& forall|j: int| 0 <= j < g.len() ==> #[trigger] placed_tightly(g, so, j)
    &&& round > 0 ==> forall|j: int| 0 <= j < g.len() ==> #[trigger] held_back(g, so, round, j)
}

/// Stream `j`, if it has a stage other than 0, depends on a stream of the
/// stage just before its own.
spec fn placed_tightly(g: Seq<Seq<usize>>, so: Seq<Option<usize>>, j: int) -> bool {
    so[j] is Some && so[j]->0 > 0 ==> exists|k: int|
        0 <= k < g[j].len() && so[(#[trigger] g[j][k]) as int] == Some((so[j]->0 - 1) as usize)
}

/// Stream `j`, if it has no stage, depends on a stream that has none
/// either or that got its stage in the round before `round`.
spec fn held_back(g: Seq<Seq<usize>>, so: Seq<Option<usize>>, round: int, j: int) -> bool {
    so[j] is None ==> exists|k: int|
        0 <= k < g[j].len() && (so[(#[trigger] g[j][k]) as int] is None || so[g[j][k] as int] == Some(
            (round - 1) as usize,
        ))
}

/// `stages` lists, stage by stage and in ascending order, exactly the
/// streams that have a stage so far.
spec fn partial_stages(stages: Seq<Seq<usize>>, so: Seq<Option<usize>>) -> bool {
    &&& forall|s: int| 0 <= s < stages.len() ==> (#[trigger] stages[s]).len() > 0
    &&& forall|s: int| 0 <= s < stages.len() ==> strictly_increasing(#[trigger] stages[s])
    &&& forall|s: int, j: usize|
        0 <= s < stages.len() ==> ((#[trigger] stages[s].contains(j)) <==> (j < so.len() && so[j as int]
            == Some(s as usize)))
}

/// `after` is `before` with the streams of `ready` put in stage `round`.
spec fn marked(
    before: Seq<Option<usize>>,
    after: Seq<Option<usize>>,
    ready: Seq<usize>,
    round: usize,
) -> bool {
    &&& after.len() == before.len()
    &&& forall|j: int|
        0 <= j < before.len() ==> #[trigger] after[j] == if ready.contains(j as usize) {
            Some(round)
        } else {
            before[j]
        }
}

/// `ready` holds, in ascending order, exactly the ready streams.
spec fn lists_ready(g: Seq<Seq<usize>>, so: Seq<Option<usize>>, ready: Seq<usize>) -> bool {
    &&& strictly_increasing(ready)
    &&& forall|x: usize| #[trigger] ready.contains(x) <==> (x < g.len() && is_ready(g, so, x as int))
}

fn row_placed(row: &Vec<usize>, stage_of: &Vec<Option<usize>>) -> (b: bool)
    requires
        forall|k: int| 0 <= k < row.len() ==> (#[trigger] row[k]) < stage_of.len(),
    ensures
        b == (forall|k: int| 0 <= k < row.len() ==> stage_of@[(#[trigger] row@[k]) as int] is Some),
{
    let mut k: usize = 0;
    while k < row.len()
        invariant
            k <= row.len(),
            forall|i: int| 0 <= i < row.len() ==> (#[trigger] row[i]) < stage_of.len(),
            forall|i: int| 0 <= i < k ==> stage_of@[(#[trigger] row@[i]) as int] is Some,
        decreases row.len() - k,
    {
        if stage_of[row[k]].is_none() {
            return false;
        }
        k = k + 1;
    }
    true
}

fn ready_streams(deps: &Vec<Vec<usize>>, stage_of: &Vec<Option<usize>>) -> (ready: Vec<usize>)
    requires
        graph_wf(rows(deps@)),
        stage_of.len() == deps.len(),
    ensures
        lists_ready(rows(deps@), stage_of@, ready@),
{
    let ghost g = rows(deps@);
    let n: usize = deps.len();
    let mut ready: Vec<usize> = Vec::new();
    let mut j: usize = 0;
    while j < n
        invariant
            j <= n,
            n == deps.len(),
            stage_of.len() == n,
            g == rows(deps@),
            graph_wf(g),
            strictly_increasing(ready@),
            forall|i: int| 0 <= i < ready.len() ==> (#[trigger] ready[i]) < j,
            forall|x: usize| #[trigger] ready@.contains(x) <==> (x < j && is_ready(g, stage_of@, x as int)),
        decreases n - j,
    {
        assert(g[j as int] == deps@[j as int]@);
        assert forall|k: int| 0 <= k < deps[j as int].len() implies (#[trigger] deps[j as int][k])
            < stage_of.len() by {
            assert(g[j as int][k] < g.len());
        }
        let ghost before = ready@;
        let take: bool = stage_of[j].is_none() && row_placed(&deps[j], stage_of);
        assert(take == is_ready(g, stage_of@, j as int));
        if take {
            ready.push(j);
        }
        proof {
            broadcast use vstd::seq_lib::lemma_seq_contains_after_push;

            assert forall|x: usize| #[trigger] ready@.contains(x) <==> (x < j + 1 && is_ready(
                g,
                stage_of@,
                x as int,
            )) by {
                if take {
                    assert(ready@ == before.push(j));
                    assert(before.push(j).contains(x) <==> (j == x || before.contains(x)));
                }
            }
        }
        j = j + 1;
    }
    ready
}

fn mark(stage_of: &mut Vec<Option<usize>>, ready: &Vec<usize>, round: usize)
    requires
        strictly_increasing(ready@),
        forall|i: int|
            0 <= i < ready.len() ==> (#[trigger] ready[i]) < old(stage_of).len() && old(
                stage_of,
            )@[ready[i] as int] is None,
    ensures
        marked(old(stage_of)@, final(stage_of)@, ready@, round),
        unplaced_count(final(stage_of)@) + ready.len() == unplaced_count(old(stage_of)@),
{
    let ghost before = stage_of@;
    let mut i: usize = 0;
    while i < ready.len()
        invariant
            i <= ready.len(),
            stage_of.len() == before.len(),
            strictly_increasing(ready@),
            forall|a: int|
                0 <= a < ready.len() ==> (#[trigger] ready[a]) < before.len() && before[ready[a] as int]
                    is None,
            marked(before, stage_of@, ready@.subrange(0, i as int), round),
            unplaced_count(stage_of@) + i == unplaced_count(before),
        decreases ready.len() - i,
    {
        let j: usize = ready[i];
        let ghost done = ready@.subrange(0, i as int);
        let ghost current = stage_of@;
        proof {
            if done.contains(j) {
                let a = choose|a: int| 0 <= a < done.len() && done[a] == j;
                assert(ready[a] < ready[i as int]);
            }
            assert(current[j as int] == before[j as int]);
            lemma_unplaced_update(current, j as int, round);
        }
        stage_of.set(j, Some(round));
        i = i + 1;
        proof {
            let next = ready@.subrange(0, i as int);
            assert(next =~= done.push(j));
            broadcast use vstd::seq_lib::lemma_seq_contains_after_push;

            assert forall|x: int| 0 <= x < before.len() implies #[trigger] stage_of@[x] == if next.contains(
                x as usize,
            ) {
                Some(round)
            } else {
                before[x]
            } by {
                assert(done.push(j).contains(x as usize) <==> (j == x as usize || done.contains(
                    x as usize,
                )));
                assert(current[x] == if done.contains(x as usize) {
                    Some(round)
                } else {
                    before[x]
                });
            }
        }
    }
    assert(ready@.subrange(0, ready.len() as int) =~= ready@);
}

proof fn lemma_round(
    g: Seq<Seq<usize>>,
    before: Seq<Option<usize>>,
    after: Seq<Option<usize>>,
    ready: Seq<usize>,
    round: usize,
)
    requires
        graph_wf(g),
        g.len() <= usize::MAX,
        partial_layering(g, before, round as int),
        lists_ready(g, before, ready),
        marked(before, after, ready, round),
        round < usize::MAX,
    ensures
        partial_layering(g, after, round + 1),
{
    assert forall|j: int| 0 <= j < g.len() && (#[trigger] after[j]) is Some implies after[j]->0 < round
        + 1 by {
        if !ready.contains(j as usize) {
            assert(before[j] is Some);
        }
    }
    assert forall|j: int, k: int|
        0 <= j < g.len() && 0 <= k < g[j].len() && after[j] is Some implies after[(#[trigger] g[j][k]) as int]
        is Some && after[g[j][k] as int]->0 < after[j]->0 by {
        let d = g[j][k];
        assert(d < g.len());
        if ready.contains(j as usize) {
            assert(is_ready(g, before, j));
            assert(before[d as int] is Some);
        } else {
            assert(before[j] is Some);
            assert(before[d as int] is Some);
        }
        assert(!ready.contains(d));
        assert(after[d as int] == before[d as int]);
    }
    assert forall|j: int| 0 <= j < g.len() implies #[trigger] placed_tightly(g, after, j) by {
        if !(after[j] is Some && after[j]->0 > 0) {
        } else if ready.contains(j as usize) {
            assert(is_ready(g, before, j));
            assert(before[j] is None);
            assert(held_back(g, before, round as int, j));
            let k = choose|k: int|
                0 <= k < g[j].len() && (before[(#[trigger] g[j][k]) as int] is None || before[g[j][k] as int]
                    == Some((round - 1) as usize));
            let d = g[j][k];
            assert(d < g.len());
            assert(before[d as int] is Some);
            assert(!ready.contains(d));
            assert(after[d as int] == before[d as int]);
        } else {
            assert(before[j] is Some);
            assert(placed_tightly(g, before, j));
            let k = choose|k: int|
                0 <= k < g[j].len() && before[(#[trigger] g[j][k]) as int] == Some(
                    (before[j]->0 - 1) as usize,
                );
            let d = g[j][k];
            assert(d < g.len());
            assert(!ready.contains(d));
            assert(after[d as int] == before[d as int]);
        }
    }
    assert forall|j: int| 0 <= j < g.len() implies #[trigger] held_back(g, after, round + 1, j) by {
        if after[j] is None {
            assert(!ready.contains(j as usize));
            assert(before[j] is None);
            assert(!is_ready(g, before, j));
            let k = choose|k: int|
                0 <= k < g[j].len() && !(before[(#[trigger] g[j][k]) as int] is Some);
            let d = g[j][k];
            assert(d < g.len());
            assert(after[d as int] is None || after[d as int] == Some(round));
        }
    }
}

proof fn lemma_round_stages(
    g: Seq<Seq<usize>>,
    stages: Seq<Seq<usize>>,
    before: Seq<Option<usize>>,
    after: Seq<Option<usize>>,
    ready: Seq<usize>,
    round: usize,
)
    requires
        g.len() <= usize::MAX,
        partial_layering(g, before, round as int),
        partial_stages(stages, before),
        stages.len() == round,
        ready.len() > 0,
        lists_ready(g, before, ready),
        marked(before, after, ready, round),
    ensures
        partial_stages(stages.push(ready), after),
{
    let grown = stages.push(ready);
    assert forall|s: int| 0 <= s < grown.len() implies (#[trigger] grown[s]).len() > 0
        && strictly_increasing(grown[s]) by {
        if s < stages.len() {
            assert(grown[s] == stages[s]);
        }
    }
    assert forall|s: int, j: usize| 0 <= s < grown.len() implies ((#[trigger] grown[s].contains(j)) <==> (
    j < after.len() && after[j as int] == Some(s as usize))) by {
        if s < stages.len() {
            assert(grown[s] == stages[s]);
            assert(stages[s].contains(j) <==> (j < before.len() && before[j as int] == Some(
                s as usize,
            )));
            if j < before.len() {
                if ready.contains(j) {
                    assert(is_ready(g, before, j as int));
                } else {
                    assert(after[j as int] == before[j as int]);
                }
            }
        } else {
            assert(grown[s] == ready);
            if j < before.len() {
                if !ready.contains(j) {
                    assert(after[j as int] == before[j as int]);
                    if before[j as int] is Some {
                        assert(before[j as int]->0 < round);
                    }
                }
            }
        }
    }
}

/// The stream reached from `start` by `steps` moves, each from a stream
/// without a stage to one of those that hold it back.
spec fn trace_back(g: Seq<Seq<usize>>, so: Seq<Option<usize>>, start: int, steps: nat) -> int
    decreases steps,
{
    if steps == 0 {
        start
    } else {
        let at = trace_back(g, so, start, (steps - 1) as nat);
        let k = choose|k: int| 0 <= k < g[at].len() && so[(#[trigger] g[at][k]) as int] is None;
        g[at][k] as int
    }
}

proof fn lemma_trace_back(g: Seq<Seq<usize>>, so: Seq<Option<usize>>, start: int, steps: nat)
    requires
        graph_wf(g),
        so.len() == g.len(),
        0 <= start < g.len(),
        so[start] is None,
        forall|j: int| 0 <= j < g.len() && (#[trigger] so[j]) is None ==> !is_ready(g, so, j),
    ensures
        0 <= trace_back(g, so, start, steps) < g.len(),
        so[trace_back(g, so, start, steps)] is None,
        steps > 0 ==> has_edge(
            g,
            trace_back(g, so, start, steps),
            trace_back(g, so, start, (steps - 1) as nat),
        ),
    decreases steps,
{
    if steps > 0 {
        lemma_trace_back(g, so, start, (steps - 1) as nat);
        let at = trace_back(g, so, start, (steps - 1) as nat);
        assert(so[at] is None);
        assert(!is_ready(g, so, at));
        let w = choose|k: int| 0 <= k < g[at].len() && !(so[(#[trigger] g[at][k]) as int] is Some);
        assert(0 <= w < g[at].len() && so[g[at][w] as int] is None);
        let k = choose|k: int| 0 <= k < g[at].len() && so[(#[trigger] g[at][k]) as int] is None;
        assert(g[at][k] < g.len());
        assert(trace_back(g, so, start, steps) == g[at][k] as int);
    }
}

/// Among more values than a range holds, two are equal.
proof fn lemma_pigeonhole(values: Seq<int>, bound: int)
    requires
        0 <= bound < values.len(),
        forall|i: int| 0 <= i < values.len() ==> 0 <= #[trigger] values[i] < bound,
    ensures
        exists|a: int, b: int| 0 <= a < b < values.len() && values[a] == values[b],
{
    if values.no_duplicates() {
        values.unique_seq_to_set();
        vstd::set_lib::lemma_int_range(0, bound);
        assert(values.to_set().subset_of(vstd::set_lib::set_int_range(0, bound))) by {
            assert forall|v: int| values.to_set().contains(v) implies vstd::set_lib::set_int_range(
                0,
                bound,
            ).contains(v) by {
                let i = choose|i: int| 0 <= i < values.len() && values[i] == v;
                assert(0 <= values[i] < bound);
            }
        }
        vstd::set_lib::lemma_len_subset(values.to_set(), vstd::set_lib::set_int_range(0, bound));
        assert(false);
    }
    let (i, j) = choose|i: int, j: int|
        0 <= i < values.len() && 0 <= j < values.len() && i != j && values[i] == values[j];
    if i < j {
        assert(0 <= i < j < values.len() && values[i] == values[j]);
    } else {
        assert(0 <= j < i < values.len() && values[j] == values[i]);
    }
}

/// Where streams are left without a stage and none of them is ready, the
/// graph has a cycle.
proof fn lemma_stuck_has_cycle(g: Seq<Seq<usize>>, so: Seq<Option<usize>>)
    requires
        graph_wf(g),
        so.len() == g.len(),
        exists|j: int| 0 <= j < so.len() && so[j] is None,
        forall|j: int| 0 <= j < g.len() && (#[trigger] so[j]) is None ==> !is_ready(g, so, j),
    ensures
        has_cycle(g),
{
    let start = choose|j: int| 0 <= j < so.len() && so[j] is None;
    let n = g.len() as int;
    let trail = Seq::new((n + 1) as nat, |m: int| trace_back(g, so, start, m as nat));
    assert forall|i: int| 0 <= i < trail.len() implies 0 <= #[trigger] trail[i] < n by {
        lemma_trace_back(g, so, start, i as nat);
    }
    lemma_pigeonhole(trail, n);
    let (a, b) = choose|a: int, b: int| 0 <= a < b < trail.len() && trail[a] == trail[b];
    let walk = Seq::new((b - a + 1) as nat, |t: int| trace_back(g, so, start, (b - t) as nat));
    assert(walk[0] == trail[b]);
    assert(walk[walk.len() - 1] == trail[a]);
    assert forall|t: int| 0 <= t < walk.len() - 1 implies has_edge(g, #[trigger] walk[t], walk[t + 1]) by {
        lemma_trace_back(g, so, start, (b - t) as nat);
        assert(walk[t + 1] == trace_back(g, so, start, ((b - t) - 1) as nat));
    }
    assert(is_cycle(g, walk));
}

/// A layering of a graph: the stage of every stream, and the streams of
/// every stage.
#[derive(Debug)]
pub(crate) struct Layering {
    pub(crate) stage_of: Vec<usize>,
    pub(crate) stages: Vec<Vec<usize>>,
}

impl Layering {
    /// The layering is the tight layering of `g`, with its stages listed
    /// in ascending order of stream.
    pub(crate) open spec fn layers(self, g: Seq<Seq<usize>>) -> bool {
        &&& is_layering(g, self.stage_of@)
        &&& is_tight(g, self.stage_of@)
        &&& stages_match(rows(self.stages@), self.stage_of@)
    }
}

fn unplaced(n: usize) -> (v: Vec<Option<usize>>)
    ensures
        v.len() == n,
        unplaced_count(v@) == n,
        forall|j: int| 0 <= j < n ==> v@[j] is None,
{
    let mut v: Vec<Option<usize>> = Vec::new();
    let mut i: usize = 0;
    while i < n
        invariant
            i <= n,
            v.len() == i,
            unplaced_count(v@) == i,
            forall|j: int| 0 <= j < i ==> v@[j] is None,
        decreases n - i,
    {
        let ghost before = v@;
        v.push(None);
        assert(v@.drop_last() =~= before);
        i = i + 1;
    }
    v
}

fn placed(stage_of: &Vec<Option<usize>>) -> (v: Vec<usize>)
    requires
        forall|j: int| 0 <= j < stage_of.len() ==> stage_of@[j] is Some,
    ensures
        v.len() == stage_of.len(),
        forall|j: int| 0 <= j < v.len() ==> stage_of@[j] == Some(#[trigger] v@[j]),
{
    let mut v: Vec<usize> = Vec::new();
    let mut i: usize = 0;
    while i < stage_of.len()
        invariant
            i <= stage_of.len(),
            v.len() == i,
            forall|j: int| 0 <= j < stage_of.len() ==> stage_of@[j] is Some,
            forall|j: int| 0 <= j < i ==> stage_of@[j] == Some(#[trigger] v@[j]),
        decreases stage_of.len() - i,
    {
        match stage_of[i] {
            Some(stage) => {
                v.push(stage);
            },
            None => {
                assert(stage_of@[i as int] is Some);
                v.push(0);
            },
        }
        i = i + 1;
    }
    v
}

proof fn lemma_complete(
    g: Seq<Seq<usize>>,
    so: Seq<Option<usize>>,
    stage_of: Seq<usize>,
    stages: Seq<Seq<usize>>,
)
    requires
        graph_wf(g),
        g.len() <= usize::MAX,
        stages.len() <= usize::MAX,
        partial_layering(g, so, stages.len() as int),
        partial_stages(stages, so),
        stage_of.len() == so.len(),
        forall|j: int| 0 <= j < so.len() ==> so[j] == Some(#[trigger] stage_of[j]),
    ensures
        is_layering(g, stage_of),
        is_tight(g, stage_of),
        stages_match(stages, stage_of),
{
    assert forall|j: int, k: int| 0 <= j < g.len() && 0 <= k < g[j].len() implies 0 <= (#[trigger] g[j][k])
        < g.len() && stage_of[g[j][k] as int] < stage_of[j] by {
        assert(so[j] == Some(stage_of[j]));
        let d = g[j][k];
        assert(so[d as int] == Some(stage_of[d as int]));
    }
    assert forall|j: int| 0 <= j < g.len() implies #[trigger] tight_at(g, stage_of, j) by {
        assert(so[j] == Some(stage_of[j]));
        if 0 < stage_of[j] {
            assert(placed_tightly(g, so, j));
            let k = choose|k: int|
                0 <= k < g[j].len() && so[(#[trigger] g[j][k]) as int] == Some(
                    (so[j]->0 - 1) as usize,
                );
            let d = g[j][k];
            assert(d < g.len());
            assert(so[d as int] == Some(stage_of[d as int]));
        }
    }
    assert forall|j: int| 0 <= j < stage_of.len() implies (#[trigger] stage_of[j]) < stages.len() by {
        assert(so[j] == Some(stage_of[j]));
    }
    assert forall|s: int, j: usize| 0 <= s < stages.len() implies ((#[trigger] stages[s].contains(j)) <==> (
    j < stage_of.len() && stage_of[j as int] == s)) by {
        assert(stages[s].contains(j) <==> (j < so.len() && so[j as int] == Some(s as usize)));
        if j < so.len() {
            assert(so[j as int] == Some(stage_of[j as int]));
        }
    }
}

/// Sorts the streams of a graph into stages: every stream comes in the
/// earliest stage that lies after all the streams it depends on. There is
/// such a layering exactly when the graph has no cycle.
pub(crate) fn layer(deps: &Vec<Vec<usize>>) -> (r: Option<Layering>)
    requires
        graph_wf(rows(deps@)),
    ensures
        r is Some <==> !has_cycle(rows(deps@)),
        r matches Some(l) ==> l.layers(rows(deps@)),
{
    let ghost g = rows(deps@);
    let n: usize = deps.len();
    let mut stage_of: Vec<Option<usize>> = unplaced(n);
    let mut stages: Vec<Vec<usize>> = Vec::new();
    let mut remaining: usize = n;
    assert(rows(stages@) =~= Seq::<Seq<usize>>::empty());
    while remaining > 0
        invariant
            n == deps.len(),
            g == rows(deps@),
            graph_wf(g),
            stage_of.len() == n,
            remaining == unplaced_count(stage_of@),
            stages.len() + remaining <= n,
            partial_layering(g, stage_of@, stages.len() as int),
            partial_stages(rows(stages@), stage_of@),
        decreases remaining,
    {
        let ready = ready_streams(deps, &stage_of);
        if ready.len() == 0 {
            proof {
                lemma_unplaced_witness(stage_of@);
                assert forall|j: int| 0 <= j < g.len() && (#[trigger] stage_of@[j]) is None implies !is_ready(
                    g,
                    stage_of@,
                    j,
                ) by {
                    if is_ready(g, stage_of@, j) {
                        assert(ready@.contains(j as usize));
                    }
                }
                lemma_stuck_has_cycle(g, stage_of@);
            }
            return None;
        }
        let round: usize = stages.len();
        let ghost before = stage_of@;
        let ghost earlier = rows(stages@);
        proof {
            assert forall|i: int| 0 <= i < ready.len() implies (#[trigger] ready[i]) < stage_of.len()
                && stage_of@[ready[i] as int] is None by {
                assert(ready@.contains(ready[i]));
            }
        }
        mark(&mut stage_of, &ready, round);
        remaining = remaining - ready.len();
        proof {
            lemma_round(g, before, stage_of@, ready@, round);
            lemma_round_stages(g, earlier, before, stage_of@, ready@, round);
        }
        stages.push(ready);
        assert(rows(stages@) =~= earlier.push(ready@));
    }
    proof {
        lemma_unplaced_witness(stage_of@);
    }
    let ghost so = stage_of@;
    let l = Layering { stage_of: placed(&stage_of), stages: stages };
    proof {
        lemma_complete(g, so, l.stage_of@, rows(l.stages@));
        lemma_layering_excludes_cycles(g, l.stage_of@);
    }
    Some(l)
}

} // verus!
