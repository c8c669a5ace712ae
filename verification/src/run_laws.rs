//! What a run does with a plan: what starts, what is held back, what a failure makes of it, and
//! what is put on record.

use crate::json::{member, JsonV};
use crate::lookup_laws::the_first_entry_counts;
use crate::plan::{find_node, ids_of, GateV, NodeV, PlanV};
use crate::recorder::{row_of, AttemptV};
use crate::run::{
    asked, closing, finished, forks_after, free, freed, gate_at, guarded_of, launched, on_record,
    ready_first, run_ok, step_for, RunStateV, RunV, StepV,
};
use crate::scheduler::{resolved_args, FailureV};
use crate::text::dec;
use crate::world::{find_op, OpV, WorldV};
use vstd::prelude::*;

verus! {

// ---------- what starts ----------

/// Once what is ready was launched and nothing has failed, a node of the plan runs exactly where
/// it has not finished and every edge into it comes from a node that has.
pub proof fn what_waits_for_nothing_runs(p: PlanV, r: RunV, k: int)
    requires
        run_ok(p, r),
        !r.stopping,
        0 <= k < p.nodes.len(),
    ensures
        launched(r).running.contains(p.nodes[k].id) <==> !r.state.outputs.contains_key(
            p.nodes[k].id,
        ) && forall|i: int|
            0 <= i < p.edges.len() && (#[trigger] p.edges[i]).1 == p.nodes[k].id
                ==> r.state.outputs.contains_key(p.edges[i].0),
        launched(r).state.ready.len() == 0,
        launched(r).state.outputs == r.state.outputs,
{
    let id = p.nodes[k].id;
    crate::run::a_run_is_as_wide_as_the_data_allows(p, r, id);
    assert(ids_of(p.nodes)[k] == id);
    assert(ids_of(p.nodes).contains(id));
}

proof fn first_ready(
    ns: Seq<NodeV>,
    es: Seq<(Seq<char>, Seq<char>)>,
    done: Map<Seq<char>, JsonV>,
    k: int,
)
    requires
        0 <= k < ns.len(),
    ensures
        !done.contains_key(ns[k].id) && free(es, ns[k].id, done) ==> ready_first(
            ns,
            es,
            done,
        ).contains(ns[k].id),
        ready_first(ns, es, done).contains(ns[k].id) ==> !done.contains_key(ns[k].id) && free(
            es,
            ns[k].id,
            done,
        ),
    decreases ns.len(),
{
    let d = ns.drop_last();
    let rest = ready_first(d, es, done);
    crate::seqs::push_has(rest, ns.last().id);
    if k < d.len() {
        assert(d[k] == ns[k]);
        first_ready(d, es, done, k);
    } else if rest.contains(ns[k].id) {
        ready_is_ready(d, es, done, ns[k].id);
    }
}

proof fn ready_is_ready(
    ns: Seq<NodeV>,
    es: Seq<(Seq<char>, Seq<char>)>,
    done: Map<Seq<char>, JsonV>,
    id: Seq<char>,
)
    requires
        ready_first(ns, es, done).contains(id),
    ensures
        !done.contains_key(id) && free(es, id, done),
    decreases ns.len(),
{
    if ns.len() > 0 {
        let rest = ready_first(ns.drop_last(), es, done);
        crate::seqs::push_has(rest, ns.last().id);
        if rest.contains(id) {
            ready_is_ready(ns.drop_last(), es, done, id);
        }
    }
}

/// A run, fresh or resumed, begins with exactly the nodes that are not done and of which
/// everything they wait for is.
pub proof fn a_run_begins_with_what_is_free(p: PlanV, done: Map<Seq<char>, JsonV>, k: int)
    requires
        0 <= k < p.nodes.len(),
    ensures
        ready_first(p.nodes, p.edges, done).contains(p.nodes[k].id) <==> !done.contains_key(
            p.nodes[k].id,
        ) && forall|i: int|
            0 <= i < p.edges.len() && (#[trigger] p.edges[i]).1 == p.nodes[k].id
                ==> done.contains_key(p.edges[i].0),
{
    first_ready(p.nodes, p.edges, done, k);
}

proof fn freed_are_free(
    es: Seq<(Seq<char>, Seq<char>)>,
    node: Seq<char>,
    done: Map<Seq<char>, JsonV>,
    n: nat,
    s: Seq<char>,
)
    requires
        n <= es.len(),
    ensures
        freed(es, node, done, n).contains(s) ==> !done.contains_key(s) && free(es, s, done)
            && exists|i: int| 0 <= i < n && #[trigger] es[i] == (node, s),
    decreases n,
{
    if n > 0 {
        let m = (n - 1) as nat;
        freed_are_free(es, node, done, m, s);
        crate::seqs::push_has(freed(es, node, done, m), es[n - 1].1);
        if freed(es, node, done, m).contains(s) {
            let i = choose|i: int| 0 <= i < m && #[trigger] es[i] == (node, s);
            assert(es[i] == (node, s));
        } else if freed(es, node, done, n).contains(s) {
            assert(es[n - 1] == (node, s));
        }
    }
}

proof fn free_are_freed(
    es: Seq<(Seq<char>, Seq<char>)>,
    node: Seq<char>,
    done: Map<Seq<char>, JsonV>,
    n: nat,
    i: int,
)
    requires
        n <= es.len(),
        0 <= i < n,
        es[i].0 == node,
        !done.contains_key(es[i].1),
        free(es, es[i].1, done),
        crate::run::last_such(es, i),
    ensures
        freed(es, node, done, n).contains(es[i].1),
    decreases n,
{
    let m = (n - 1) as nat;
    crate::seqs::push_has(freed(es, node, done, m), es[n - 1].1);
    if i < m {
        free_are_freed(es, node, done, m, i);
    }
}

proof fn last_one(es: Seq<(Seq<char>, Seq<char>)>, i: int) -> (k: int)
    requires
        0 <= i < es.len(),
    ensures
        i <= k < es.len(),
        es[k] == es[i],
        crate::run::last_such(es, k),
    decreases es.len() - i,
{
    if crate::run::last_such(es, i) {
        i
    } else {
        let j = choose|j: int| i < j < es.len() && #[trigger] es[j] == es[i];
        last_one(es, j)
    }
}

/// When a node finishes, what it observed is kept, and of the nodes that wait for it exactly
/// those become ready that have not finished and wait for nothing else.
pub proof fn finishing_frees_what_waited(
    p: PlanV,
    r: RunV,
    id: Seq<char>,
    v: JsonV,
    i: int,
    s: Seq<char>,
)
    requires
        run_ok(p, r),
        0 <= i < p.edges.len(),
        p.edges[i] == (id, s),
        !r.state.ready.contains(s),
    ensures
        ({
            let n = finished(p, r, id, Ok(v));
            &&& n.state.outputs.contains_key(id) && n.state.outputs[id] == v
            &&& !n.running.contains(id)
            &&& forall|x: Seq<char>| x != id && r.running.contains(x) ==> n.running.contains(x)
            &&& n.state.ready.contains(s) <==> !n.state.outputs.contains_key(s) && forall|k: int|
                0 <= k < p.edges.len() && (#[trigger] p.edges[k]).1 == s
                    ==> n.state.outputs.contains_key(p.edges[k].0)
            &&& n.stopping == r.stopping && n.outcome == r.outcome
        }),
{
    let n = finished(p, r, id, Ok(v));
    let done = n.state.outputs;
    let es = p.edges;
    let f = freed(es, id, done, es.len());
    crate::seqs::add_has(r.state.ready, f);
    freed_are_free(es, id, done, es.len(), s);
    if !done.contains_key(s) && free(es, s, done) {
        let k = last_one(es, i);
        free_are_freed(es, id, done, es.len(), k);
    }
    assert forall|x: Seq<char>| x != id && r.running.contains(x) implies n.running.contains(x) by {
        crate::seqs::filter_has(r.running, crate::run::other_than(id), x);
    }
    crate::seqs::filter_has(r.running, crate::run::other_than(id), id);
    if free(es, s, done) {
        assert forall|k: int|
            0 <= k < es.len() && (#[trigger] es[k]).1 == s implies done.contains_key(es[k].0) by {}
    }
}

// ---------- gates and arguments ----------

proof fn first_gate(gs: Seq<GateV>, id: Seq<char>, g: int)
    requires
        0 <= g < gs.len(),
        gs[g].node == id,
        forall|j: int| 0 <= j < g ==> (#[trigger] gs[j]).node != id,
    ensures
        gate_at(gs, id) == Some(gs[g]),
    decreases g,
{
    if g > 0 {
        let t = gs.drop_first();
        assert(gs[0].node != id);
        assert(t[g - 1] == gs[g]);
        assert forall|j: int| 0 <= j < g - 1 implies (#[trigger] t[j]).node != id by {
            assert(t[j] == gs[j + 1]);
        }
        first_gate(t, id, g - 1);
    }
}

proof fn no_gate(gs: Seq<GateV>, id: Seq<char>)
    requires
        forall|j: int| 0 <= j < gs.len() ==> (#[trigger] gs[j]).node != id,
    ensures
        gate_at(gs, id) is None,
    decreases gs.len(),
{
    if gs.len() > 0 {
        let t = gs.drop_first();
        assert(gs[0].node != id);
        assert forall|j: int| 0 <= j < t.len() implies (#[trigger] t[j]).node != id by {
            assert(t[j] == gs[j + 1]);
        }
        no_gate(t, id);
    }
}

proof fn first_node(ns: Seq<NodeV>, id: Seq<char>, k: int)
    requires
        0 <= k < ns.len(),
        ns[k].id == id,
        forall|j: int| 0 <= j < k ==> (#[trigger] ns[j]).id != id,
    ensures
        find_node(ns, id) == Some(ns[k]),
    decreases k,
{
    if k > 0 {
        let t = ns.drop_first();
        assert(ns[0].id != id);
        assert(t[k - 1] == ns[k]);
        assert forall|j: int| 0 <= j < k - 1 implies (#[trigger] t[j]).id != id by {
            assert(t[j] == ns[j + 1]);
        }
        first_node(t, id, k - 1);
    }
}

/// A node that is not allowed to go out is never called: it asks, naming what holds it. One that is
/// allowed, or that nothing holds, is called with what its arguments come to; where one of them
/// comes to nothing, it fails and is not called.
pub proof fn nothing_passes_a_closed_gate(p: PlanV, st: RunStateV, k: int, g: int)
    requires
        0 <= k < p.nodes.len(),
        forall|j: int| 0 <= j < k ==> (#[trigger] p.nodes[j]).id != p.nodes[k].id,
    ensures
        0 <= g < p.gates.len() && p.gates[g].node == p.nodes[k].id && (forall|j: int|
            0 <= j < g ==> (#[trigger] p.gates[j]).node != p.nodes[k].id) ==> {
            &&& !p.gates[g].allowed && p.gates[g].kind is External ==> step_for(
                p,
                st,
                p.nodes[k].id,
            ) == StepV::Refuse(FailureV::Gate("external"@))
            &&& !p.gates[g].allowed ==> !(step_for(p, st, p.nodes[k].id) is Execute)
            &&& p.gates[g].allowed ==> (resolved_args(
                p.nodes[k].args,
                st.outputs,
                st.guarded,
            ) matches Ok(a) ==> step_for(p, st, p.nodes[k].id) == StepV::Execute(a))
        },
        (forall|j: int| 0 <= j < p.gates.len() ==> (#[trigger] p.gates[j]).node != p.nodes[k].id)
            ==> {
            &&& resolved_args(p.nodes[k].args, st.outputs, st.guarded) matches Ok(a) ==> step_for(
                p,
                st,
                p.nodes[k].id,
            ) == StepV::Execute(a)
            &&& resolved_args(p.nodes[k].args, st.outputs, st.guarded) matches Err(e) ==> step_for(
                p,
                st,
                p.nodes[k].id,
            ) == StepV::Refuse(FailureV::Fatal(e))
        },
{
    let id = p.nodes[k].id;
    first_node(p.nodes, id, k);
    if 0 <= g < p.gates.len() && p.gates[g].node == id && (forall|j: int|
        0 <= j < g ==> (#[trigger] p.gates[j]).node != id) {
        first_gate(p.gates, id, g);
    }
    if forall|j: int| 0 <= j < p.gates.len() ==> (#[trigger] p.gates[j]).node != id {
        no_gate(p.gates, id);
    }
}

/// The results that count as one where they hold one are those of the nodes with a fork.
pub proof fn forks_guard_results(ns: Seq<NodeV>, id: Seq<char>)
    ensures
        guarded_of(ns).contains(id) <==> exists|k: int|
            0 <= k < ns.len() && (#[trigger] ns[k]).id == id && ns[k].fork is Some,
    decreases ns.len(),
{
    if ns.len() > 0 {
        let d = ns.drop_last();
        forks_guard_results(d, id);
        crate::seqs::push_has(guarded_of(d), ns.last().id);
        if guarded_of(d).contains(id) {
            let k = choose|k: int|
                0 <= k < d.len() && (#[trigger] d[k]).id == id && d[k].fork is Some;
            assert(ns[k] == d[k]);
        }
        if exists|k: int| 0 <= k < ns.len() && (#[trigger] ns[k]).id == id && ns[k].fork is Some {
            let k = choose|k: int|
                0 <= k < ns.len() && (#[trigger] ns[k]).id == id && ns[k].fork is Some;
            if k < d.len() {
                assert(d[k] == ns[k]);
            }
        }
        if ns.last().fork is Some && ns.last().id == id {
            assert(ns[ns.len() - 1].id == id);
        }
    }
}

// ---------- how it ends ----------

/// A fork makes the run stop to think, with the question of that node and its evidence; a gate
/// does too, by its name; anything else is an error and names the node. Nothing more is launched.
pub proof fn a_failure_says_why(p: PlanV, r: RunV, k: int, f: FailureV)
    requires
        run_ok(p, r),
        !r.stopping,
        0 <= k < p.nodes.len(),
        forall|j: int| 0 <= j < k ==> (#[trigger] p.nodes[j]).id != p.nodes[k].id,
    ensures
        ({
            let id = p.nodes[k].id;
            let n = finished(p, r, id, Err(f));
            &&& n.stopping
            &&& n.state.outputs == r.state.outputs
            &&& launched(n).running == n.running
            &&& f matches FailureV::Fork(ev) ==> n.outcome.status is NeedThink
                && n.outcome.evidence == Some(ev) && n.outcome.error is None && (
            p.nodes[k].fork matches Some(x) ==> n.outcome.yield_reason == Some(
                "fork at "@ + id + ": "@ + x.ask,
            ))
            &&& f matches FailureV::Gate(g) ==> n.outcome.status is NeedThink
                && n.outcome.yield_reason == Some("gate at "@ + id + ": "@ + g)
                && n.outcome.error is None
            &&& f matches FailureV::Fatal(e) ==> n.outcome.status is Error && n.outcome.error
                == Some(id + ": "@ + e) && n.outcome.yield_reason is None
        }),
{
    first_node(p.nodes, p.nodes[k].id, k);
}

/// A run commits exactly where nothing failed and as many nodes finished as the plan has; fewer
/// are an error that says how many.
pub proof fn a_run_commits_when_everything_finished(p: PlanV, r: RunV)
    requires
        run_ok(p, r),
    ensures
        closing(p, r).status is Committed <==> !r.stopping && r.state.outputs.dom().len()
            >= p.nodes.len(),
        !r.stopping && r.state.outputs.dom().len() < p.nodes.len() ==> closing(p, r).status is Error
            && closing(p, r).error == Some(
            dec(r.state.outputs.dom().len()) + " of "@ + dec(p.nodes.len()) + " nodes completed"@,
        ),
        r.stopping ==> closing(p, r) == r.outcome,
{
}

// ---------- forks on record ----------

/// A fork that asks is put on record with its node, its question and its evidence. One that a
/// default answered is put on record once, with the rule and what was chosen. Nothing else is.
pub proof fn forks_are_put_on_record(
    forks: Seq<JsonV>,
    id: Seq<char>,
    ask: Seq<char>,
    v: JsonV,
    ev: JsonV,
    e: Seq<char>,
)
    ensures
        ({
            let n = forks_after(forks, id, ask, Err(FailureV::Fork(ev)));
            &&& n.len() == forks.len() + 1 && n.drop_last() == forks
            &&& member(n.last(), "node"@) == Some(JsonV::Str(id))
            &&& member(n.last(), "ask"@) == Some(JsonV::Str(ask))
            &&& member(n.last(), "evidence"@) == Some(ev)
        }),
        forks_after(forks, id, ask, Err(FailureV::Fatal(e))) == forks,
        forks_after(forks, id, ask, Err(FailureV::Gate(e))) == forks,
        member(v, "__fork_default"@) is None ==> forks_after(forks, id, ask, Ok(v)) == forks,
        (exists|i: int|
            0 <= i < forks.len() && member(#[trigger] forks[i], "node"@) == Some(JsonV::Str(id)))
            ==> forks_after(forks, id, ask, Ok(v)) == forks,
        member(v, "__fork_default"@) is Some && !(exists|i: int|
            0 <= i < forks.len() && member(#[trigger] forks[i], "node"@) == Some(JsonV::Str(id)))
            ==> {
            let n = forks_after(forks, id, ask, Ok(v));
            &&& n.len() == forks.len() + 1 && n.drop_last() == forks
            &&& member(n.last(), "node"@) == Some(JsonV::Str(id))
            &&& member(n.last(), "auto"@) == member(v, "__fork_default"@)
            &&& member(v, "chosen"@) is Some ==> member(n.last(), "chosen"@) == member(
                v,
                "chosen"@,
            )
            &&& member(v, "__fork_ask"@) is Some ==> member(n.last(), "ask"@) == member(
                v,
                "__fork_ask"@,
            )
            &&& member(v, "__evidence"@) is Some ==> member(n.last(), "evidence"@) == member(
                v,
                "__evidence"@,
            )
        },
{
    reveal_strlit("ask");
    assert("ask"@.len() == 3);
    reveal_strlit("auto");
    assert("auto"@.len() == 4);
    reveal_strlit("chosen");
    assert("chosen"@.len() == 6);
    reveal_strlit("evidence");
    assert("evidence"@.len() == 8);
    reveal_strlit("node");
    assert("node"@.len() == 4);
    assert("auto"@[0] != "node"@[0]);
    let a = asked(id, ask, ev)->Obj_0;
    the_first_entry_counts(a, "ask"@, 0);
    the_first_entry_counts(a, "evidence"@, 1);
    the_first_entry_counts(a, "node"@, 2);
    let b = crate::run::answered(id, v)->Obj_0;
    the_first_entry_counts(b, "ask"@, 0);
    the_first_entry_counts(b, "auto"@, 1);
    the_first_entry_counts(b, "chosen"@, 2);
    the_first_entry_counts(b, "evidence"@, 3);
    the_first_entry_counts(b, "node"@, 4);
    assert(forks_after(forks, id, ask, Err(FailureV::Fork(ev))).drop_last() =~= forks);
    let n = forks_after(forks, id, ask, Ok(v));
    if n.len() == forks.len() + 1 {
        assert(n.drop_last() =~= forks);
    }
    if exists|i: int|
        0 <= i < forks.len() && member(#[trigger] forks[i], "node"@) == Some(JsonV::Str(id)) {
        let i = choose|i: int|
            0 <= i < forks.len() && member(#[trigger] forks[i], "node"@) == Some(JsonV::Str(id));
        assert(on_record(forks, id));
    } else if on_record(forks, id) {
        let i = choose|i: int|
            0 <= i < forks.len() && crate::json::str_of(member(#[trigger] forks[i], "node"@))
                == Some(id);
        assert(member(forks[i], "node"@) == Some(JsonV::Str(id)));
    }
}

// ---------- rows ----------

proof fn first_op(ops: Seq<OpV>, name: Seq<char>, k: int)
    requires
        0 <= k < ops.len(),
        ops[k].name == name,
        forall|j: int| 0 <= j < k ==> (#[trigger] ops[j]).name != name,
    ensures
        find_op(ops, name) == Some(ops[k]),
    decreases k,
{
    if k > 0 {
        let t = ops.drop_first();
        assert(ops[0].name != name);
        assert(t[k - 1] == ops[k]);
        assert forall|j: int| 0 <= j < k - 1 implies (#[trigger] t[j]).name != name by {
            assert(t[j] == ops[j + 1]);
        }
        first_op(t, name, k - 1);
    }
}

/// A row says what was tried, over which surface, under which key, from when to when, and what
/// came of it. It is a write exactly where the world says that the operation writes something,
/// and it is ok exactly where something was observed.
pub proof fn a_row_is_of_its_attempt(
    w: WorldV,
    a: AttemptV,
    v: JsonV,
    e: Seq<char>,
    ended: u128,
    k: int,
)
    ensures
        ({
            let good = row_of(w, a, Some(v), None, ended);
            let bad = row_of(w, a, None, Some(e), ended);
            &&& good.ok && good.observed == v && good.error is None
            &&& !bad.ok && bad.observed == JsonV::Null && bad.error == Some(e)
            &&& good.node == a.node && good.op == a.op && good.surface == a.surface && good.key
                == a.key && good.attempt == a.attempt
            &&& good.started_us == a.started_us && good.ended_us == ended
            &&& bad.node == a.node && bad.op == a.op && bad.surface == a.surface && bad.key == a.key
                && bad.attempt == a.attempt
            &&& bad.started_us == a.started_us && bad.ended_us == ended
            &&& 0 <= k < w.ops.len() && w.ops[k].name == a.op && (forall|j: int|
                0 <= j < k ==> (#[trigger] w.ops[j]).name != a.op) ==> good.write == (
            w.ops[k].writes.len() > 0) && bad.write == good.write
        }),
{
    if 0 <= k < w.ops.len() && w.ops[k].name == a.op && (forall|j: int|
        0 <= j < k ==> (#[trigger] w.ops[j]).name != a.op) {
        first_op(w.ops, a.op, k);
    }
}

} // verus!
