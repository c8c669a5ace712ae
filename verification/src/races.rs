//! Work that touches the same resources never runs at the same time.

use crate::compile_laws::{node_names_differ, overlap, plan_keeps_every_order};
use crate::compile_model::{
    all_edges, compiles_to, depth_limit, env_of, footprint_edges, pair_edge, row_edges, rows_edges,
    satisfy_wants, OptionsV,
};
use crate::graph::{leads, reach, reach_edge, step};
use crate::intent::IntentV;
use crate::json::JsonV;
use crate::naming::plan_is_named;
use crate::plan::{NodeV, PlanV};
use crate::reduce::dedupe_ok;
use crate::run::{finished, free, launched, run_ok, sound, RunV};
use crate::scheduler::FailureV;
use crate::seqs::add_has;
use crate::world::WorldV;
use vstd::prelude::*;

verus! {

// ---------- what overlaps is ordered ----------

proof fn row_edges_has(ns: Seq<NodeV>, i: int, j: int, k: int)
    requires
        0 <= i < k < j <= ns.len(),
        pair_edge(ns[i], ns[k]) is Some,
    ensures
        row_edges(ns, i, j).contains(pair_edge(ns[i], ns[k])->0),
    decreases j - i,
{
    let e = pair_edge(ns[i], ns[k])->0;
    let r = row_edges(ns, i, j);
    if k == j - 1 {
        assert(r[r.len() - 1] == e);
    } else {
        row_edges_has(ns, i, j - 1, k);
        let s = row_edges(ns, i, j - 1);
        let m = choose|m: int| 0 <= m < s.len() && s[m] == e;
        assert(r[m] == e);
    }
}

pub proof fn rows_edges_has(ns: Seq<NodeV>, n: int, i: int, k: int)
    requires
        0 <= i < n <= ns.len(),
        i < k < ns.len(),
        pair_edge(ns[i], ns[k]) is Some,
    ensures
        rows_edges(ns, n).contains(pair_edge(ns[i], ns[k])->0),
    decreases n,
{
    let (a, b) = (rows_edges(ns, n - 1), row_edges(ns, n - 1, ns.len() as int));
    add_has(a, b);
    if i == n - 1 {
        row_edges_has(ns, i, ns.len() as int, k);
    } else {
        rows_edges_has(ns, n - 1, i, k);
    }
}

/// A plan orders any two nodes whose footprints overlap: one of them waits for the other.
pub proof fn overlapping_nodes_are_ordered(
    intent: IntentV,
    world: WorldV,
    opts: OptionsV,
    p: PlanV,
    i: int,
    j: int,
)
    requires
        compiles_to(intent, world, opts, Ok(p)),
        0 <= i < j < p.nodes.len(),
        overlap(p.nodes[i], p.nodes[j]),
    ensures
        reach(p.edges, p.nodes[i].id, p.nodes[j].id) || reach(
            p.edges,
            p.nodes[j].id,
            p.nodes[i].id,
        ),
{
    let st = satisfy_wants(env_of(intent, world, opts), depth_limit(), intent.wants)->Ok_0;
    let e = pair_edge(p.nodes[i], p.nodes[j])->0;
    plan_is_named(intent, world, opts, p);
    node_names_differ(i as nat, j as nat);
    rows_edges_has(st.nodes, st.nodes.len() as int, i, j);
    add_has(st.deps, footprint_edges(st.nodes));
    dedupe_ok(st.deps + footprint_edges(st.nodes));
    assert(all_edges(st).contains(e));
    reach_edge(all_edges(st), e.0, e.1);
    plan_keeps_every_order(intent, world, opts, p, st);
}

// ---------- what is ordered does not run together ----------

/// What has finished was not ahead of what it waits for.
pub open spec fn whole(es: Seq<(Seq<char>, Seq<char>)>, done: Map<Seq<char>, JsonV>) -> bool {
    forall|i: int|
        0 <= i < es.len() && done.contains_key((#[trigger] es[i]).1) ==> done.contains_key(es[i].0)
}

/// Everything that leads to a node has finished before the node may run.
proof fn ancestors_are_done(
    es: Seq<(Seq<char>, Seq<char>)>,
    done: Map<Seq<char>, JsonV>,
    w: Seq<Seq<char>>,
    k: int,
)
    requires
        whole(es, done),
        free(es, w.last(), done),
        leads(es, w, w[0], w.last()),
        0 <= k < w.len() - 1,
    ensures
        done.contains_key(w[k]),
    decreases w.len() - k,
{
    assert(step(es, w, k));
    let m = choose|m: int| 0 <= m < es.len() && es[m] == (w[k], w[k + 1]);
    assert(es[m].0 == w[k]);
    if k < w.len() - 2 {
        ancestors_are_done(es, done, w, k + 1);
    }
}

/// A run that starts with nothing finished starts whole, and it stays so as nodes are launched
/// and finish.
pub proof fn a_run_stays_whole(
    p: PlanV,
    r: RunV,
    id: Seq<char>,
    res: Result<JsonV, FailureV>,
)
    requires
        run_ok(p, r),
        whole(p.edges, r.state.outputs),
        res is Ok ==> r.running.contains(id),
    ensures
        whole(p.edges, Map::<Seq<char>, JsonV>::empty()),
        whole(p.edges, launched(r).state.outputs),
        whole(p.edges, finished(p, r, id, res).state.outputs),
{
    if res is Ok {
        assert(sound(p, r.state, id));
    }
}

/// Of two nodes of which one waits for the other, at most one runs.
pub proof fn ordered_nodes_run_apart(p: PlanV, r: RunV, a: Seq<char>, b: Seq<char>)
    requires
        run_ok(p, r),
        whole(p.edges, r.state.outputs),
        reach(p.edges, a, b),
    ensures
        !(r.running.contains(a) && r.running.contains(b)),
{
    if r.running.contains(a) && r.running.contains(b) {
        assert(sound(p, r.state, a));
        assert(sound(p, r.state, b));
        let w = choose|w: Seq<Seq<char>>| leads(p.edges, w, a, b);
        ancestors_are_done(p.edges, r.state.outputs, w, 0);
    }
}

/// Two nodes of a compiled plan whose footprints overlap never run at the same time, so no two
/// writes race.
pub proof fn overlapping_nodes_run_apart(
    intent: IntentV,
    world: WorldV,
    opts: OptionsV,
    p: PlanV,
    r: RunV,
    i: int,
    j: int,
)
    requires
        compiles_to(intent, world, opts, Ok(p)),
        0 <= i < j < p.nodes.len(),
        overlap(p.nodes[i], p.nodes[j]),
        run_ok(p, r),
        whole(p.edges, r.state.outputs),
    ensures
        !(r.running.contains(p.nodes[i].id) && r.running.contains(p.nodes[j].id)),
{
    overlapping_nodes_are_ordered(intent, world, opts, p, i, j);
    if reach(p.edges, p.nodes[i].id, p.nodes[j].id) {
        ordered_nodes_run_apart(p, r, p.nodes[i].id, p.nodes[j].id);
    } else {
        ordered_nodes_run_apart(p, r, p.nodes[j].id, p.nodes[i].id);
    }
}

} // verus!
