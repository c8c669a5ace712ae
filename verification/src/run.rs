//! One run of a plan, as wide as its edges allow: what is done, what is ready, what runs, and what
//! to do when something finishes. Whoever runs the plan starts what `launch` hands out and hands
//! back what came of it.

use crate::compile_laws::{plan_is_acyclic, plan_names_differ};
use crate::compile_model::{compiles_to, OptionsV};
use crate::graph::{acyclic, edges_view, step, walk};
use crate::intent::IntentV;
use crate::json::{
    as_str, get_or_null, list_push, list_view, member, member_or_null, obj_view, str_of, Json,
    JsonV,
};
use crate::ledger::{
    committed, completed_of, only_keys_prove_done, opt_json, Ledger, LedgerV, RowV, Status,
};
use crate::object::{no_entries, push_entry};
use crate::naming::{free_of_nodes, plan_is_named, plan_waits_for_itself, wants_free_of_nodes};
use crate::outputs::Outputs;
use crate::plan::{find_node, gates_view, ids_of, Gate, GateV, NodeV, Plan, PlanV};
use crate::reduce::walk_bound;
use crate::scheduler::{
    gate_kind_name, gate_name, resolve_args, resolved_args, Failure, FailureV,
};
use crate::text::{dec, list_has, owned, push_dec, same, views};
use crate::world::{opt_str, WorldV};
use vstd::prelude::*;

verus! {

// ---------- what is ready ----------

/// Everything that a node waits for has finished.
pub open spec fn free(
    es: Seq<(Seq<char>, Seq<char>)>,
    node: Seq<char>,
    done: Map<Seq<char>, JsonV>,
) -> bool {
    forall|i: int| 0 <= i < es.len() && (#[trigger] es[i]).1 == node ==> done.contains_key(es[i].0)
}

/// The nodes that can run at once: those not done that wait for nothing.
pub open spec fn ready_first(
    ns: Seq<NodeV>,
    es: Seq<(Seq<char>, Seq<char>)>,
    done: Map<Seq<char>, JsonV>,
) -> Seq<Seq<char>>
    decreases ns.len(),
{
    if ns.len() == 0 {
        Seq::empty()
    } else {
        let rest = ready_first(ns.drop_last(), es, done);
        if !done.contains_key(ns.last().id) && free(es, ns.last().id, done) {
            rest.push(ns.last().id)
        } else {
            rest
        }
    }
}

/// The nodes whose fork guards their results.
pub open spec fn guarded_of(ns: Seq<NodeV>) -> Seq<Seq<char>>
    decreases ns.len(),
{
    if ns.len() == 0 {
        Seq::empty()
    } else if ns.last().fork is Some {
        guarded_of(ns.drop_last()).push(ns.last().id)
    } else {
        guarded_of(ns.drop_last())
    }
}

/// No later edge is the same.
pub open spec fn last_such(es: Seq<(Seq<char>, Seq<char>)>, i: int) -> bool {
    forall|j: int| i < j < es.len() ==> #[trigger] es[j] != es[i]
}

/// The nodes that become ready when a node finishes, by the order of the edges: its successors
/// that have not finished and now wait for nothing.
pub open spec fn freed(
    es: Seq<(Seq<char>, Seq<char>)>,
    node: Seq<char>,
    done: Map<Seq<char>, JsonV>,
    n: nat,
) -> Seq<Seq<char>>
    decreases n,
{
    if n == 0 {
        Seq::empty()
    } else {
        let rest = freed(es, node, done, (n - 1) as nat);
        let e = es[n - 1];
        if e.0 == node && !done.contains_key(e.1) && free(es, e.1, done) && last_such(es, n - 1) {
            rest.push(e.1)
        } else {
            rest
        }
    }
}

/// The state of one run: what is done, what is ready, what waits on what.
pub struct RunState {
    pub edges: Vec<(String, String)>,
    pub outputs: Outputs,
    pub ready: Vec<String>,
    pub guarded: Vec<String>,
}

pub struct RunStateV {
    pub edges: Seq<(Seq<char>, Seq<char>)>,
    pub outputs: Map<Seq<char>, JsonV>,
    pub ready: Seq<Seq<char>>,
    pub guarded: Seq<Seq<char>>,
}

impl View for RunState {
    type V = RunStateV;

    open spec fn view(&self) -> RunStateV {
        RunStateV {
            edges: edges_view(self.edges@),
            outputs: self.outputs@,
            ready: views(self.ready@),
            guarded: views(self.guarded@),
        }
    }
}

fn is_free(edges: &Vec<(String, String)>, node: &str, done: &Outputs) -> (r: bool)
    ensures
        r == free(edges_view(edges@), node@, done@),
{
    let ghost es = edges_view(edges@);
    let mut i: usize = 0;
    while i < edges.len()
        invariant
            i <= edges@.len(),
            es == edges_view(edges@),
            forall|j: int|
                0 <= j < i && (#[trigger] es[j]).1 == node@ ==> done@.contains_key(es[j].0),
        decreases edges@.len() - i,
    {
        assert(es[i as int] == (edges@[i as int].0@, edges@[i as int].1@));
        if same(edges[i].1.as_str(), node) && !done.has(edges[i].0.as_str()) {
            return false;
        }
        i += 1;
    }
    true
}

fn is_last(edges: &Vec<(String, String)>, i: usize) -> (r: bool)
    requires
        i < edges@.len(),
    ensures
        r == last_such(edges_view(edges@), i as int),
{
    let ghost es = edges_view(edges@);
    let n = edges.len();
    assert(i < n);
    let mut j: usize = i + 1;
    assert(es[i as int] == (edges@[i as int].0@, edges@[i as int].1@));
    while j < n
        invariant
            i < j <= n == edges@.len(),
            es == edges_view(edges@),
            es[i as int] == (edges@[i as int].0@, edges@[i as int].1@),
            forall|k: int| i < k < j ==> #[trigger] es[k] != es[i as int],
        decreases edges@.len() - j,
    {
        assert(es[j as int] == (edges@[j as int].0@, edges@[j as int].1@));
        if same(edges[j].0.as_str(), edges[i].0.as_str()) && same(
            edges[j].1.as_str(),
            edges[i].1.as_str(),
        ) {
            return false;
        }
        j += 1;
    }
    true
}

fn clone_edges(edges: &Vec<(String, String)>) -> (r: Vec<(String, String)>)
    ensures
        edges_view(r@) == edges_view(edges@),
{
    let ghost es = edges_view(edges@);
    let mut out: Vec<(String, String)> = Vec::new();
    let mut i: usize = 0;
    while i < edges.len()
        invariant
            i <= edges@.len() == es.len(),
            es == edges_view(edges@),
            edges_view(out@) == es.take(i as int),
        decreases edges@.len() - i,
    {
        let ghost o = edges_view(out@);
        let x = (edges[i].0.clone(), edges[i].1.clone());
        out.push(x);
        assert(edges_view(out@) =~= o.push((x.0@, x.1@)));
        i += 1;
        assert(edges_view(out@) =~= es.take(i as int));
    }
    assert(es.take(i as int) =~= es);
    out
}

impl RunState {
    /// Build from a plan, treating `done` nodes as already completed with those outputs.
    pub fn new(plan: &Plan, done: Outputs) -> (r: RunState)
        ensures
            r@ == (RunStateV {
                edges: plan@.edges,
                outputs: done@,
                ready: ready_first(plan@.nodes, plan@.edges, done@),
                guarded: guarded_of(plan@.nodes),
            }),
    {
        let ghost ns = plan@.nodes;
        let ghost es = plan@.edges;
        let mut ready: Vec<String> = Vec::new();
        let mut guarded: Vec<String> = Vec::new();
        let mut i: usize = 0;
        assert(views(ready@) =~= ready_first(ns.take(0), es, done@));
        assert(views(guarded@) =~= guarded_of(ns.take(0)));
        while i < plan.nodes.len()
            invariant
                i <= plan.nodes@.len(),
                ns == plan@.nodes,
                es == edges_view(plan.edges@),
                views(ready@) == ready_first(ns.take(i as int), es, done@),
                views(guarded@) == guarded_of(ns.take(i as int)),
            decreases plan.nodes@.len() - i,
        {
            let n = &plan.nodes[i];
            proof {
                assert(ns.take(i + 1).drop_last() =~= ns.take(i as int));
                assert(ns.take(i + 1).last() == n@);
            }
            if !done.has(n.id.as_str()) && is_free(&plan.edges, n.id.as_str(), &done) {
                let ghost o = views(ready@);
                ready.push(n.id.clone());
                assert(views(ready@) =~= o.push(n.id@));
            }
            if n.fork.is_some() {
                let ghost o = views(guarded@);
                guarded.push(n.id.clone());
                assert(views(guarded@) =~= o.push(n.id@));
            }
            i += 1;
        }
        assert(ns.take(i as int) =~= ns);
        RunState { edges: clone_edges(&plan.edges), outputs: done, ready, guarded }
    }

    /// A node finished: store what it observed and find what that makes ready.
    pub fn complete(&mut self, id: &str, output: Json)
        ensures
            final(self)@ == (RunStateV {
                outputs: old(self)@.outputs.insert(id@, output@),
                ready: old(self)@.ready + freed(
                    old(self)@.edges,
                    id@,
                    old(self)@.outputs.insert(id@, output@),
                    old(self)@.edges.len(),
                ),
                ..old(self)@
            }),
    {
        let ghost es = self@.edges;
        let ghost start = self@.ready;
        self.outputs.insert(owned(id), output);
        let ghost done = self@.outputs;
        let mut i: usize = 0;
        assert(es.len() == self.edges@.len());
        assert(start + freed(es, id@, done, 0) =~= start);
        while i < self.edges.len()
            invariant
                i <= self.edges@.len() == es.len(),
                es == edges_view(self.edges@),
                done == self.outputs@,
                self@.guarded == old(self)@.guarded,
                views(self.ready@) == start + freed(es, id@, done, i as nat),
            decreases self.edges@.len() - i,
        {
            assert(es[i as int] == (self.edges@[i as int].0@, self.edges@[i as int].1@));
            if same(self.edges[i].0.as_str(), id) && !self.outputs.has(self.edges[i].1.as_str())
                && is_free(&self.edges, self.edges[i].1.as_str(), &self.outputs) && is_last(
                &self.edges,
                i,
            ) {
                let ghost o = views(self.ready@);
                let s = self.edges[i].1.clone();
                self.ready.push(s);
                assert(views(self.ready@) =~= o.push(s@));
            }
            i += 1;
            assert(views(self.ready@) =~= start + freed(es, id@, done, i as nat));
        }
    }

    /// How many nodes are done.
    pub fn completed(&self) -> (r: usize)
        ensures
            r == self@.outputs.dom().len(),
    {
        self.outputs.len()
    }
}

// ---------- the outcome ----------

/// How a run ended, and why.
#[derive(Debug)]
pub struct Outcome {
    pub status: Status,
    pub yield_reason: Option<String>,
    pub evidence: Option<Json>,
    pub error: Option<String>,
}

pub struct OutcomeV {
    pub status: Status,
    pub yield_reason: Option<Seq<char>>,
    pub evidence: Option<JsonV>,
    pub error: Option<Seq<char>>,
}

impl View for Outcome {
    type V = OutcomeV;

    open spec fn view(&self) -> OutcomeV {
        OutcomeV {
            status: self.status,
            yield_reason: opt_str(self.yield_reason),
            evidence: opt_json(self.evidence),
            error: opt_str(self.error),
        }
    }
}

pub open spec fn going_well() -> OutcomeV {
    OutcomeV { status: Status::Committed, yield_reason: None, evidence: None, error: None }
}

/// What the planner is asked at a node.
pub open spec fn ask_of(n: Option<NodeV>) -> Seq<char> {
    match n {
        Some(n) => match n.fork {
            Some(f) => f.ask,
            None => Seq::empty(),
        },
        None => Seq::empty(),
    }
}

/// What a failure makes of a run.
pub open spec fn outcome_of(id: Seq<char>, ask: Seq<char>, f: FailureV) -> OutcomeV {
    match f {
        FailureV::Fork(ev) => OutcomeV {
            status: Status::NeedThink,
            yield_reason: Some("fork at "@ + id + ": "@ + ask),
            evidence: Some(ev),
            error: None,
        },
        FailureV::Gate(kind) => OutcomeV {
            status: Status::NeedThink,
            yield_reason: Some("gate at "@ + id + ": "@ + kind),
            evidence: None,
            error: None,
        },
        FailureV::Fatal(e) => OutcomeV {
            status: Status::Error,
            yield_reason: None,
            evidence: None,
            error: Some(id + ": "@ + e),
        },
    }
}

/// The first failure decides.
pub open spec fn decided(now: OutcomeV, new: OutcomeV) -> OutcomeV {
    if now.status == Status::Committed {
        new
    } else {
        now
    }
}

/// What is recorded of a fork that the planner is asked about.
pub open spec fn asked(id: Seq<char>, ask: Seq<char>, ev: JsonV) -> JsonV {
    JsonV::Obj(seq![("ask"@, JsonV::Str(ask)), ("evidence"@, ev), ("node"@, JsonV::Str(id))])
}

/// What is recorded of a fork that a declared default answered.
pub open spec fn answered(id: Seq<char>, v: JsonV) -> JsonV {
    JsonV::Obj(
        seq![
            ("ask"@, member_or_null(v, "__fork_ask"@)),
            ("auto"@, member_or_null(v, "__fork_default"@)),
            ("chosen"@, member_or_null(v, "chosen"@)),
            ("evidence"@, member_or_null(v, "__evidence"@)),
            ("node"@, JsonV::Str(id)),
        ],
    )
}

/// Whether a fork of that node is on record.
pub open spec fn on_record(forks: Seq<JsonV>, id: Seq<char>) -> bool {
    exists|i: int| 0 <= i < forks.len() && str_of(member(#[trigger] forks[i], "node"@)) == Some(id)
}

/// The forks on record after a node finished. A resumed plan re-runs the lookup, so each node is
/// recorded once.
pub open spec fn forks_after(
    forks: Seq<JsonV>,
    id: Seq<char>,
    ask: Seq<char>,
    r: Result<JsonV, FailureV>,
) -> Seq<JsonV> {
    match r {
        Ok(v) => if member(v, "__fork_default"@) is Some && !on_record(forks, id) {
            forks.push(answered(id, v))
        } else {
            forks
        },
        Err(FailureV::Fork(ev)) => forks.push(asked(id, ask, ev)),
        _ => forks,
    }
}

// ---------- the run ----------

/// What to do with a node.
#[derive(Debug)]
pub enum Step {
    /// Call it with these arguments.
    Execute(Vec<(String, Json)>),
    /// It cannot run.
    Refuse(Failure),
}

pub enum StepV {
    Execute(Seq<(Seq<char>, JsonV)>),
    Refuse(FailureV),
}

impl View for Step {
    type V = StepV;

    open spec fn view(&self) -> StepV {
        match self {
            Step::Execute(a) => StepV::Execute(obj_view(a@)),
            Step::Refuse(f) => StepV::Refuse(f@),
        }
    }
}

/// The first gate in front of a node.
pub open spec fn gate_at(gs: Seq<GateV>, id: Seq<char>) -> Option<GateV>
    decreases gs.len(),
{
    if gs.len() == 0 {
        None
    } else if gs[0].node == id {
        Some(gs[0])
    } else {
        gate_at(gs.drop_first(), id)
    }
}

/// What to do with a node that is ready: nothing passes a closed gate, and nothing is called
/// without its arguments.
pub open spec fn step_for(p: PlanV, st: RunStateV, id: Seq<char>) -> StepV {
    if gate_at(p.gates, id) matches Some(g) && !g.allowed {
        StepV::Refuse(FailureV::Gate(gate_name(gate_at(p.gates, id)->0.kind)))
    } else {
        match resolved_args(find_node(p.nodes, id)->0.args, st.outputs, st.guarded) {
            Ok(a) => StepV::Execute(a),
            Err(e) => StepV::Refuse(FailureV::Fatal(e)),
        }
    }
}

pub open spec fn launches_view(ls: Seq<(String, Step)>) -> Seq<(Seq<char>, StepV)> {
    ls.map_values(|l: (String, Step)| (l.0@, l.1@))
}

/// A run under way.
pub struct Run {
    pub state: RunState,
    /// Launched and not yet finished.
    pub running: Vec<String>,
    /// Something failed: nothing more is launched.
    pub stopping: bool,
    pub outcome: Outcome,
}

pub struct RunV {
    pub state: RunStateV,
    pub running: Seq<Seq<char>>,
    pub stopping: bool,
    pub outcome: OutcomeV,
}

impl View for Run {
    type V = RunV;

    open spec fn view(&self) -> RunV {
        RunV {
            state: self.state@,
            running: views(self.running@),
            stopping: self.stopping,
            outcome: self.outcome@,
        }
    }
}

/// A plan that can run: no two nodes have one name, and edges lead to nodes.
pub open spec fn runnable(p: PlanV) -> bool {
    &&& forall|i: int, j: int|
        0 <= i < j < p.nodes.len() ==> (#[trigger] p.nodes[i]).id != (#[trigger] p.nodes[j]).id
    &&& forall|i: int|
        0 <= i < p.edges.len() ==> ids_of(p.nodes).contains((#[trigger] p.edges[i]).1)
}

/// A node that is ready or runs: it is of the plan, it has not finished, and everything it waits
/// for has.
pub open spec fn sound(p: PlanV, st: RunStateV, id: Seq<char>) -> bool {
    ids_of(p.nodes).contains(id) && !st.outputs.contains_key(id) && free(p.edges, id, st.outputs)
}

/// What holds of a run at every moment.
pub open spec fn run_ok(p: PlanV, r: RunV) -> bool {
    &&& runnable(p)
    &&& r.state.edges == p.edges
    &&& r.state.guarded == guarded_of(p.nodes)
    &&& r.state.ready.no_duplicates()
    &&& r.running.no_duplicates()
    &&& forall|id: Seq<char>| #[trigger]
        r.state.ready.contains(id) ==> sound(p, r.state, id) && !r.running.contains(id)
    &&& forall|id: Seq<char>| #[trigger] r.running.contains(id) ==> sound(p, r.state, id)
    &&& r.stopping == (r.outcome.status != Status::Committed)
    &&& !r.stopping ==> r.outcome == going_well()
    &&& !r.stopping ==> forall|id: Seq<char>| #[trigger]
        ids_of(p.nodes).contains(id) ==> r.state.outputs.contains_key(id)
            || r.state.ready.contains(id) || r.running.contains(id) || !free(
            p.edges,
            id,
            r.state.outputs,
        )
}

proof fn ready_first_has(
    ns: Seq<NodeV>,
    es: Seq<(Seq<char>, Seq<char>)>,
    done: Map<Seq<char>, JsonV>,
)
    ensures
        forall|id: Seq<char>| #[trigger]
            ready_first(ns, es, done).contains(id) <==> ids_of(ns).contains(id)
                && !done.contains_key(id) && free(es, id, done),
    decreases ns.len(),
{
    let r = ready_first(ns, es, done);
    if ns.len() == 0 {
        assert(ids_of(ns).len() == 0);
    } else {
        let t = ns.drop_last();
        let rest = ready_first(t, es, done);
        ready_first_has(t, es, done);
        assert(ids_of(ns) =~= ids_of(t).push(ns.last().id));
        crate::seqs::push_has(ids_of(t), ns.last().id);
        crate::seqs::push_has(rest, ns.last().id);
    }
}

proof fn ready_first_unique(
    ns: Seq<NodeV>,
    es: Seq<(Seq<char>, Seq<char>)>,
    done: Map<Seq<char>, JsonV>,
)
    requires
        forall|i: int, j: int|
            0 <= i < j < ns.len() ==> (#[trigger] ns[i]).id != (#[trigger] ns[j]).id,
    ensures
        ready_first(ns, es, done).no_duplicates(),
    decreases ns.len(),
{
    if ns.len() > 0 {
        let t = ns.drop_last();
        assert forall|i: int, j: int| 0 <= i < j < t.len() implies (#[trigger] t[i]).id != (
        #[trigger] t[j]).id by {
            assert(t[i] == ns[i] && t[j] == ns[j]);
        }
        ready_first_unique(t, es, done);
        ready_first_has(t, es, done);
        let rest = ready_first(t, es, done);
        if rest.contains(ns.last().id) {
            assert(ids_of(t).contains(ns.last().id));
            let k = choose|k: int| 0 <= k < ids_of(t).len() && ids_of(t)[k] == ns.last().id;
            assert(ns[k].id == ns[ns.len() - 1].id);
        }
    }
}

proof fn free_grows(
    es: Seq<(Seq<char>, Seq<char>)>,
    node: Seq<char>,
    done: Map<Seq<char>, JsonV>,
    id: Seq<char>,
    v: JsonV,
)
    requires
        free(es, node, done),
    ensures
        free(es, node, done.insert(id, v)),
{
    assert forall|i: int| 0 <= i < es.len() && (#[trigger] es[i]).1 == node implies done.insert(
        id,
        v,
    ).contains_key(es[i].0) by {
        assert(done.contains_key(es[i].0));
    }
}

/// Whether a node is freed by another's finishing.
spec fn freed_by(
    es: Seq<(Seq<char>, Seq<char>)>,
    node: Seq<char>,
    done: Map<Seq<char>, JsonV>,
    n: nat,
    s: Seq<char>,
) -> bool {
    exists|i: int|
        0 <= i < n && #[trigger] es[i] == (node, s) && last_such(es, i) && !done.contains_key(s)
            && free(es, s, done)
}

proof fn freed_has(
    es: Seq<(Seq<char>, Seq<char>)>,
    node: Seq<char>,
    done: Map<Seq<char>, JsonV>,
    n: nat,
)
    requires
        n <= es.len(),
    ensures
        freed(es, node, done, n).no_duplicates(),
        forall|s: Seq<char>| #[trigger]
            freed(es, node, done, n).contains(s) <==> freed_by(es, node, done, n, s),
    decreases n,
{
    let r = freed(es, node, done, n);
    if n > 0 {
        let m = (n - 1) as nat;
        let rest = freed(es, node, done, m);
        freed_has(es, node, done, m);
        let e = es[n - 1];
        let added = e.0 == node && !done.contains_key(e.1) && free(es, e.1, done) && last_such(
            es,
            n - 1,
        );
        if added {
            crate::seqs::push_has(rest, e.1);
            if rest.contains(e.1) {
                assert(freed_by(es, node, done, m, e.1));
                let i = choose|i: int|
                    0 <= i < m && #[trigger] es[i] == (node, e.1) && last_such(es, i);
                assert(es[n - 1] == es[i]);
            }
        }
        assert forall|s: Seq<char>| #[trigger] r.contains(s) <==> freed_by(es, node, done, n, s) by {
            if r.contains(s) {
                if added && s == e.1 {
                    assert(es[n - 1] == (node, s));
                } else {
                    assert(rest.contains(s));
                    assert(freed_by(es, node, done, m, s));
                    let i = choose|i: int|
                        0 <= i < m && #[trigger] es[i] == (node, s) && last_such(es, i)
                            && !done.contains_key(s) && free(es, s, done);
                    assert(es[i] == (node, s));
                }
            }
            if freed_by(es, node, done, n, s) {
                let i = choose|i: int|
                    0 <= i < n && #[trigger] es[i] == (node, s) && last_such(es, i)
                        && !done.contains_key(s) && free(es, s, done);
                if i < m {
                    assert(es[i] == (node, s));
                    assert(freed_by(es, node, done, m, s));
                    assert(rest.contains(s));
                }
            }
        }
    } else {
        assert forall|s: Seq<char>| #[trigger] r.contains(s) <==> freed_by(es, node, done, n, s) by {}
    }
}

/// The last edge that is the same as one.
proof fn find_last_such(es: Seq<(Seq<char>, Seq<char>)>, i: int) -> (k: int)
    requires
        0 <= i < es.len(),
    ensures
        i <= k < es.len(),
        es[k] == es[i],
        last_such(es, k),
    decreases es.len() - i,
{
    if last_such(es, i) {
        i
    } else {
        let j = choose|j: int| i < j < es.len() && #[trigger] es[j] == es[i];
        find_last_such(es, j)
    }
}

proof fn start_ok(p: PlanV, done: Map<Seq<char>, JsonV>)
    requires
        runnable(p),
    ensures
        run_ok(
            p,
            RunV {
                state: RunStateV {
                    edges: p.edges,
                    outputs: done,
                    ready: ready_first(p.nodes, p.edges, done),
                    guarded: guarded_of(p.nodes),
                },
                running: Seq::empty(),
                stopping: false,
                outcome: going_well(),
            },
        ),
{
    ready_first_has(p.nodes, p.edges, done);
    ready_first_unique(p.nodes, p.edges, done);
}

pub open spec fn res_view(res: Result<Json, Failure>) -> Result<JsonV, FailureV> {
    match res {
        Ok(v) => Ok(v@),
        Err(f) => Err(f@),
    }
}

/// Everything but one name.
pub open spec fn other_than(id: Seq<char>) -> spec_fn(Seq<char>) -> bool {
    |x: Seq<char>| x != id
}

/// A run after a node finished.
pub open spec fn finished(p: PlanV, r: RunV, id: Seq<char>, res: Result<JsonV, FailureV>) -> RunV {
    let left = r.running.filter(other_than(id));
    match res {
        Ok(v) => RunV {
            state: RunStateV {
                outputs: r.state.outputs.insert(id, v),
                ready: r.state.ready + freed(
                    r.state.edges,
                    id,
                    r.state.outputs.insert(id, v),
                    r.state.edges.len(),
                ),
                ..r.state
            },
            running: left,
            ..r
        },
        Err(f) => RunV {
            running: left,
            stopping: true,
            outcome: decided(r.outcome, outcome_of(id, ask_of(find_node(p.nodes, id)), f)),
            ..r
        },
    }
}

/// A run after everything ready was launched, or dropped because it is stopping.
pub open spec fn launched(r: RunV) -> RunV {
    RunV {
        state: RunStateV { ready: Seq::empty(), ..r.state },
        running: if r.stopping {
            r.running
        } else {
            r.running + r.state.ready
        },
        ..r
    }
}

proof fn filter_out(s: Seq<Seq<char>>, id: Seq<char>)
    ensures
        forall|x: Seq<char>| #[trigger]
            s.filter(other_than(id)).contains(x) <==> s.contains(x) && x != id,
        s.no_duplicates() ==> s.filter(other_than(id)).no_duplicates(),
    decreases s.len(),
{
    let f = other_than(id);
    assert forall|x: Seq<char>| #[trigger] s.filter(f).contains(x) <==> s.contains(x) && x != id by {
        crate::seqs::filter_has(s, f, x);
    }
    if s.len() > 0 {
        reveal(Seq::filter);
        let t = s.drop_last();
        filter_out(t, id);
        if s.no_duplicates() {
            assert(t.no_duplicates()) by {
                assert forall|i: int, j: int| 0 <= i < t.len() && 0 <= j < t.len() && i != j implies t[i] != t[j] by {
                    assert(s[i] != s[j]);
                }
            }
            if f(s.last()) {
                if t.filter(f).contains(s.last()) {
                    assert(t.contains(s.last()));
                    let k = choose|k: int| 0 <= k < t.len() && t[k] == s.last();
                    assert(s[k] == s[s.len() - 1]);
                }
            }
        }
    } else {
        reveal(Seq::filter);
    }
}

proof fn launched_ok(p: PlanV, r: RunV)
    requires
        run_ok(p, r),
    ensures
        run_ok(p, launched(r)),
{
    let l = launched(r);
    crate::seqs::add_has(r.running, r.state.ready);
    if !r.stopping {
        let all = r.running + r.state.ready;
        assert forall|i: int, j: int| 0 <= i < all.len() && 0 <= j < all.len() && i != j implies all[i]
            != all[j] by {
            let n = r.running.len() as int;
            if i < n && j >= n {
                assert(r.state.ready.contains(r.state.ready[j - n]));
                assert(r.running.contains(r.running[i]));
            } else if j < n && i >= n {
                assert(r.state.ready.contains(r.state.ready[i - n]));
                assert(r.running.contains(r.running[j]));
            }
        }
    }
    assert forall|id: Seq<char>| #[trigger] l.running.contains(id) implies sound(p, l.state, id) by {
        if r.running.contains(id) {
            assert(sound(p, r.state, id));
        } else {
            assert(r.state.ready.contains(id));
            assert(sound(p, r.state, id));
        }
    }
}

proof fn finished_ok(p: PlanV, r: RunV, id: Seq<char>, res: Result<JsonV, FailureV>)
    requires
        run_ok(p, r),
        res is Ok ==> r.running.contains(id),
    ensures
        run_ok(p, finished(p, r, id, res)),
{
    let n = finished(p, r, id, res);
    filter_out(r.running, id);
    match res {
        Err(f) => {},
        Ok(v) => {
            let es = p.edges;
            let done = n.state.outputs;
            let new = freed(es, id, done, es.len());
            freed_has(es, id, done, es.len());
            crate::seqs::add_has(r.state.ready, new);
            assert(sound(p, r.state, id));
            assert forall|s: Seq<char>| #[trigger] new.contains(s) implies sound(p, n.state, s)
                && !r.state.ready.contains(s) && !r.running.contains(s) by {
                assert(freed_by(es, id, done, es.len(), s));
                let i = choose|i: int|
                    0 <= i < es.len() && #[trigger] es[i] == (id, s) && last_such(es, i)
                        && !done.contains_key(s) && free(es, s, done);
                assert(ids_of(p.nodes).contains(es[i].1));
                if r.state.ready.contains(s) || r.running.contains(s) {
                    assert(free(es, s, r.state.outputs));
                    assert(r.state.outputs.contains_key(es[i].0));
                }
            }
            assert forall|x: Seq<char>| #[trigger] n.state.ready.contains(x) implies sound(
                p,
                n.state,
                x,
            ) && !n.running.contains(x) by {
                if r.state.ready.contains(x) {
                    assert(sound(p, r.state, x));
                    free_grows(es, x, r.state.outputs, id, v);
                    assert(x != id);
                } else {
                    assert(new.contains(x));
                }
            }
            assert forall|x: Seq<char>| #[trigger] n.running.contains(x) implies sound(
                p,
                n.state,
                x,
            ) by {
                assert(r.running.contains(x));
                free_grows(es, x, r.state.outputs, id, v);
            }
            let all = r.state.ready + new;
            assert forall|i: int, j: int|
                0 <= i < all.len() && 0 <= j < all.len() && i != j implies all[i] != all[j] by {
                let m = r.state.ready.len() as int;
                if i < m && j >= m {
                    assert(new.contains(new[j - m]));
                    assert(r.state.ready.contains(r.state.ready[i]));
                } else if j < m && i >= m {
                    assert(new.contains(new[i - m]));
                    assert(r.state.ready.contains(r.state.ready[j]));
                }
            }
            if !n.stopping {
                assert forall|x: Seq<char>| #[trigger]
                    ids_of(p.nodes).contains(x) implies n.state.outputs.contains_key(x)
                    || n.state.ready.contains(x) || n.running.contains(x) || !free(
                    es,
                    x,
                    n.state.outputs,
                ) by {
                    if !n.state.outputs.contains_key(x) && free(es, x, done) && !r.state.ready.contains(
                        x,
                    ) && !r.running.contains(x) {
                        assert(!free(es, x, r.state.outputs));
                        let i = choose|i: int|
                            0 <= i < es.len() && (#[trigger] es[i]).1 == x
                                && !r.state.outputs.contains_key(es[i].0);
                        assert(done.contains_key(es[i].0));
                        assert(es[i] == (id, x));
                        let k = find_last_such(es, i);
                        assert(es[k] == (id, x));
                        assert(freed_by(es, id, done, es.len(), x));
                        assert(new.contains(x));
                    }
                }
            }
        },
    }
}

proof fn gate_skip(gs: Seq<GateV>, id: Seq<char>, i: int)
    requires
        0 <= i <= gs.len(),
        forall|j: int| 0 <= j < i ==> (#[trigger] gs[j]).node != id,
    ensures
        gate_at(gs, id) == gate_at(gs.skip(i), id),
    decreases i,
{
    if i == 0 {
        assert(gs.skip(0) =~= gs);
    } else {
        assert(gs[0].node != id);
        let t = gs.drop_first();
        assert forall|j: int| 0 <= j < i - 1 implies (#[trigger] t[j]).node != id by {
            assert(t[j] == gs[j + 1]);
        }
        gate_skip(t, id, i - 1);
        assert(t.skip(i - 1) =~= gs.skip(i));
    }
}

fn find_gate<'a>(gates: &'a Vec<Gate>, id: &str) -> (r: Option<&'a Gate>)
    ensures
        match r {
            Some(g) => gate_at(gates_view(gates@), id@) == Some(g@),
            None => gate_at(gates_view(gates@), id@) is None,
        },
{
    let ghost gs = gates_view(gates@);
    let mut i: usize = 0;
    while i < gates.len()
        invariant
            i <= gates@.len(),
            gs == gates_view(gates@),
            forall|j: int| 0 <= j < i ==> (#[trigger] gs[j]).node != id@,
        decreases gates@.len() - i,
    {
        assert(gs[i as int] == gates@[i as int]@);
        if same(gates[i].node.as_str(), id) {
            proof {
                gate_skip(gs, id@, i as int);
                assert(gs.skip(i as int)[0] == gs[i as int]);
            }
            return Some(&gates[i]);
        }
        i += 1;
    }
    proof {
        gate_skip(gs, id@, i as int);
        assert(gs.skip(i as int).len() == 0);
    }
    None
}

proof fn node_is_there(ns: Seq<NodeV>, id: Seq<char>)
    requires
        ids_of(ns).contains(id),
    ensures
        find_node(ns, id) is Some,
    decreases ns.len(),
{
    let k = choose|k: int| 0 <= k < ids_of(ns).len() && ids_of(ns)[k] == id;
    assert(ns[k].id == id);
    if ns[0].id != id {
        let t = ns.drop_first();
        assert(ids_of(t)[k - 1] == id) by {
            assert(t[k - 1] == ns[k]);
        }
        assert(ids_of(t).contains(id));
        node_is_there(t, id);
    }
}

fn recorded(forks: &Vec<Json>, id: &str) -> (r: bool)
    ensures
        r == on_record(list_view(forks@), id@),
{
    let ghost fs = list_view(forks@);
    let mut i: usize = 0;
    while i < forks.len()
        invariant
            i <= forks@.len(),
            fs == list_view(forks@),
            forall|j: int|
                0 <= j < i ==> str_of(member(#[trigger] fs[j], "node"@)) != Some(id@),
        decreases forks@.len() - i,
    {
        assert(fs[i as int] == forks@[i as int]@);
        let hit = match as_str(forks[i].get("node")) {
            Some(n) => same(n, id),
            None => false,
        };
        if hit {
            return true;
        }
        i += 1;
    }
    false
}

fn without(xs: &Vec<String>, id: &str) -> (r: Vec<String>)
    ensures
        views(r@) == views(xs@).filter(other_than(id@)),
{
    let ghost vs = views(xs@);
    let ghost f = other_than(id@);
    let mut out: Vec<String> = Vec::new();
    let mut i: usize = 0;
    proof {
        reveal(Seq::filter);
        assert(views(out@) =~= vs.take(0).filter(f));
    }
    while i < xs.len()
        invariant
            i <= xs@.len(),
            vs == views(xs@),
            f == other_than(id@),
            views(out@) == vs.take(i as int).filter(f),
        decreases xs@.len() - i,
    {
        proof {
            reveal(Seq::filter);
            assert(vs.take(i + 1).drop_last() =~= vs.take(i as int));
            assert(vs.take(i + 1).last() == xs@[i as int]@);
        }
        if !same(xs[i].as_str(), id) {
            let ghost o = views(out@);
            out.push(xs[i].clone());
            assert(views(out@) =~= o.push(xs@[i as int]@));
        }
        i += 1;
    }
    assert(vs.take(i as int) =~= vs);
    out
}

/// Whether a plan can be run: its nodes are told apart by their ids, and every edge leads to one.
pub fn can_run(plan: &Plan) -> (r: bool)
    ensures
        r == runnable(plan@),
{
    let ghost ns = plan@.nodes;
    let ghost es = plan@.edges;
    assert(ns.len() == plan.nodes@.len() && es.len() == plan.edges@.len());
    let mut ids: Vec<String> = Vec::new();
    let mut i: usize = 0;
    assert(views(ids@) =~= ids_of(ns).take(0));
    while i < plan.nodes.len()
        invariant
            i <= plan.nodes@.len() == ns.len(),
            ns == plan@.nodes,
            views(ids@) == ids_of(ns).take(i as int),
            forall|a: int, b: int|
                0 <= a < b < i ==> (#[trigger] ns[a]).id != (#[trigger] ns[b]).id,
        decreases plan.nodes@.len() - i,
    {
        let id = &plan.nodes[i].id;
        assert(ns[i as int].id == id@ && ids_of(ns)[i as int] == id@);
        if list_has(&ids, id.as_str()) {
            proof {
                let vs = views(ids@);
                let a = choose|a: int| 0 <= a < vs.len() && vs[a] == id@;
                assert(ids_of(ns)[a] == ns[a].id);
            }
            return false;
        }
        proof {
            assert forall|a: int| 0 <= a < i implies (#[trigger] ns[a]).id != ns[i as int].id by {
                assert(ids_of(ns)[a] == ns[a].id);
                assert(views(ids@)[a] == ns[a].id);
                if ns[a].id == id@ {
                    assert(views(ids@).contains(id@));
                }
            }
        }
        let ghost o = views(ids@);
        ids.push(id.clone());
        assert(views(ids@) =~= o.push(id@));
        i += 1;
        assert(views(ids@) =~= ids_of(ns).take(i as int));
    }
    assert(ids_of(ns).take(i as int) =~= ids_of(ns));
    let mut j: usize = 0;
    while j < plan.edges.len()
        invariant
            j <= plan.edges@.len() == es.len(),
            es == plan@.edges,
            ns == plan@.nodes,
            views(ids@) == ids_of(ns),
            forall|k: int| 0 <= k < j ==> ids_of(ns).contains((#[trigger] es[k]).1),
        decreases plan.edges@.len() - j,
    {
        assert(es[j as int].1 == plan.edges@[j as int].1@);
        if !list_has(&ids, plan.edges[j].1.as_str()) {
            return false;
        }
        j += 1;
    }
    true
}

impl Run {
    /// A run that has launched nothing, with `done` taken as finished.
    pub fn new(plan: &Plan, done: Outputs) -> (r: Run)
        ensures
            r@ == (RunV {
                state: RunStateV {
                    edges: plan@.edges,
                    outputs: done@,
                    ready: ready_first(plan@.nodes, plan@.edges, done@),
                    guarded: guarded_of(plan@.nodes),
                },
                running: Seq::empty(),
                stopping: false,
                outcome: going_well(),
            }),
            runnable(plan@) ==> run_ok(plan@, r@),
    {
        let running: Vec<String> = Vec::new();
        assert(views(running@) =~= Seq::<Seq<char>>::empty());
        proof {
            if runnable(plan@) {
                start_ok(plan@, done@);
            }
        }
        Run {
            state: RunState::new(plan, done),
            running,
            stopping: false,
            outcome: Outcome {
                status: Status::Committed,
                yield_reason: None,
                evidence: None,
                error: None,
            },
        }
    }

    /// Take everything that is ready: what is handed out is to be started. A run that is stopping
    /// starts nothing more.
    pub fn launch(&mut self, plan: &Plan) -> (r: Vec<(String, Step)>)
        requires
            run_ok(plan@, old(self)@),
        ensures
            final(self)@ == launched(old(self)@),
            run_ok(plan@, final(self)@),
            old(self)@.stopping ==> r@.len() == 0,
            !old(self)@.stopping ==> launches_view(r@) == old(self)@.state.ready.map_values(
                |id: Seq<char>| (id, step_for(plan@, old(self)@.state, id)),
            ),
    {
        let ghost r0 = self@;
        proof {
            launched_ok(plan@, r0);
        }
        let mut out: Vec<(String, Step)> = Vec::new();
        let mut ready: Vec<String> = Vec::new();
        std::mem::swap(&mut ready, &mut self.state.ready);
        assert(views(self.state.ready@) =~= Seq::<Seq<char>>::empty());
        assert(views(ready@) == r0.state.ready);
        if self.stopping {
            return out;
        }
        let ghost all = r0.state.ready.map_values(
            |id: Seq<char>| (id, step_for(plan@, r0.state, id)),
        );
        let mut i: usize = 0;
        assert(launches_view(out@) =~= all.take(0));
        while i < ready.len()
            invariant
                i <= ready@.len() == all.len(),
                run_ok(plan@, r0),
                views(ready@) == r0.state.ready,
                all == r0.state.ready.map_values(
                    |id: Seq<char>| (id, step_for(plan@, r0.state, id)),
                ),
                self.state.outputs@ == r0.state.outputs,
                views(self.state.guarded@) == r0.state.guarded,
                launches_view(out@) == all.take(i as int),
            decreases ready@.len() - i,
        {
            let id = ready[i].clone();
            proof {
                assert(r0.state.ready[i as int] == id@);
                assert(r0.state.ready.contains(id@));
                node_is_there(plan@.nodes, id@);
            }
            let blocked: Option<String> = match find_gate(&plan.gates, id.as_str()) {
                Some(g) => if !g.allowed {
                    Some(owned(gate_kind_name(g.kind)))
                } else {
                    None
                },
                None => None,
            };
            let step = match blocked {
                Some(kind) => Step::Refuse(Failure::Gate(kind)),
                None => match plan.node(id.as_str()) {
                    Some(n) => match resolve_args(n, &self.state.outputs, &self.state.guarded) {
                        Ok(a) => Step::Execute(a),
                        Err(e) => Step::Refuse(Failure::Fatal(e)),
                    },
                    None => Step::Refuse(Failure::Fatal(String::new())),
                },
            };
            assert(step@ == step_for(plan@, r0.state, id@));
            let ghost o = launches_view(out@);
            let ghost x = (id@, step@);
            out.push((id, step));
            assert(launches_view(out@) =~= o.push(x));
            assert(all[i as int] == x);
            i += 1;
            assert(launches_view(out@) =~= all.take(i as int));
        }
        assert(all.take(i as int) =~= all);
        let ghost a = views(self.running@);
        let ghost b = views(ready@);
        self.running.append(&mut ready);
        assert(views(self.running@) =~= a + b);
        out
    }

    /// Take what came of a node.
    pub fn finish(
        &mut self,
        plan: &Plan,
        ledger: &mut Ledger,
        id: &str,
        res: Result<Json, Failure>,
    )
        requires
            run_ok(plan@, old(self)@),
            res is Ok ==> old(self)@.running.contains(id@),
        ensures
            final(self)@ == finished(
                plan@,
                old(self)@,
                id@,
                res_view(res),
            ),
            run_ok(plan@, final(self)@),
            final(ledger)@ == (LedgerV {
                forks: forks_after(
                    old(ledger)@.forks,
                    id@,
                    ask_of(find_node(plan@.nodes, id@)),
                    res_view(res),
                ),
                ..old(ledger)@
            }),
    {
        let ghost r0 = self@;
        proof {
            finished_ok(plan@, r0, id@, res_view(res));
        }
        self.running = without(&self.running, id);
        match res {
            Ok(v) => {
                if v.get("__fork_default").is_some() && !recorded(&ledger.forks, id) {
                    let mut o = no_entries();
                    push_entry(&mut o, "ask", get_or_null(&v, "__fork_ask"));
                    push_entry(&mut o, "auto", get_or_null(&v, "__fork_default"));
                    push_entry(&mut o, "chosen", get_or_null(&v, "chosen"));
                    push_entry(&mut o, "evidence", get_or_null(&v, "__evidence"));
                    push_entry(&mut o, "node", Json::Str(owned(id)));
                    let rec = Json::Obj(o);
                    assert(rec@ == answered(id@, v@)) by {
                        assert(obj_view(o@) =~= seq![
                            ("ask"@, member_or_null(v@, "__fork_ask"@)),
                            ("auto"@, member_or_null(v@, "__fork_default"@)),
                            ("chosen"@, member_or_null(v@, "chosen"@)),
                            ("evidence"@, member_or_null(v@, "__evidence"@)),
                            ("node"@, JsonV::Str(id@)),
                        ]);
                    }
                    proof {
                        list_push(ledger.forks@, rec);
                    }
                    ledger.forks.push(rec);
                }
                self.state.complete(id, v);
            },
            Err(f) => {
                self.stopping = true;
                let ask = match plan.node(id) {
                    Some(n) => match &n.fork {
                        Some(f) => f.ask.clone(),
                        None => String::new(),
                    },
                    None => String::new(),
                };
                assert(ask@ == ask_of(find_node(plan@.nodes, id@)));
                let new = match f {
                    Failure::Fork(ev) => {
                        let mut o = no_entries();
                        push_entry(&mut o, "ask", Json::Str(ask.clone()));
                        push_entry(&mut o, "evidence", ev.clone());
                        push_entry(&mut o, "node", Json::Str(owned(id)));
                        let rec = Json::Obj(o);
                        assert(rec@ == asked(id@, ask@, ev@)) by {
                            assert(obj_view(o@) =~= seq![
                                ("ask"@, JsonV::Str(ask@)),
                                ("evidence"@, ev@),
                                ("node"@, JsonV::Str(id@)),
                            ]);
                        }
                        proof {
                            list_push(ledger.forks@, rec);
                        }
                        ledger.forks.push(rec);
                        let mut why = owned("fork at ");
                        why.push_str(id);
                        why.push_str(": ");
                        why.push_str(ask.as_str());
                        Outcome {
                            status: Status::NeedThink,
                            yield_reason: Some(why),
                            evidence: Some(ev),
                            error: None,
                        }
                    },
                    Failure::Gate(kind) => {
                        let mut why = owned("gate at ");
                        why.push_str(id);
                        why.push_str(": ");
                        why.push_str(kind.as_str());
                        Outcome {
                            status: Status::NeedThink,
                            yield_reason: Some(why),
                            evidence: None,
                            error: None,
                        }
                    },
                    Failure::Fatal(e) => {
                        let mut why = owned(id);
                        why.push_str(": ");
                        why.push_str(e.as_str());
                        Outcome {
                            status: Status::Error,
                            yield_reason: None,
                            evidence: None,
                            error: Some(why),
                        }
                    },
                };
                if self.outcome.status == Status::Committed {
                    self.outcome = new;
                }
            },
        }
    }

    /// How the run ended. A run without a failure in which not every node finished is an error.
    pub fn close(self, plan: &Plan) -> (r: Outcome)
        ensures
            r@ == closing(plan@, self@),
    {
        let done = self.state.completed();
        assert(plan@.nodes.len() == plan.nodes@.len());
        if self.outcome.status == Status::Committed && done < plan.nodes.len() {
            let mut e = String::new();
            push_dec(&mut e, done as u128);
            e.push_str(" of ");
            push_dec(&mut e, plan.nodes.len() as u128);
            e.push_str(" nodes completed");
            assert(Seq::<char>::empty() + dec(done as nat) =~= dec(done as nat));
            Outcome { status: Status::Error, yield_reason: None, evidence: None, error: Some(e) }
        } else {
            self.outcome
        }
    }
}

/// How a run ends.
pub open spec fn closing(p: PlanV, r: RunV) -> OutcomeV {
    let n = r.state.outputs.dom().len();
    if r.outcome.status == Status::Committed && n < p.nodes.len() {
        OutcomeV {
            status: Status::Error,
            yield_reason: None,
            evidence: None,
            error: Some(dec(n) + " of "@ + dec(p.nodes.len()) + " nodes completed"@),
        }
    } else {
        r.outcome
    }
}

// ---------- what a run keeps ----------

/// What the compiler emits can run.
pub proof fn compiled_plans_run(intent: IntentV, world: WorldV, opts: OptionsV, p: PlanV)
    requires
        compiles_to(intent, world, opts, Ok(p)),
    ensures
        runnable(p),
        acyclic(p.edges),
{
    plan_is_named(intent, world, opts, p);
    plan_names_differ(intent, world, opts, p);
    plan_is_acyclic(intent, world, opts, p);
    let ids = ids_of(p.nodes);
    assert forall|i: int, j: int| 0 <= i < j < p.nodes.len() implies (#[trigger] p.nodes[i]).id != (
    #[trigger] p.nodes[j]).id by {
        assert(ids[i] == p.nodes[i].id && ids[j] == p.nodes[j].id);
    }
}

/// A node runs only after everything it waits for has finished.
pub proof fn nothing_runs_early(p: PlanV, r: RunV, id: Seq<char>, i: int)
    requires
        run_ok(p, r),
        r.running.contains(id),
        0 <= i < p.edges.len(),
        p.edges[i].1 == id,
    ensures
        r.state.outputs.contains_key(p.edges[i].0),
{
    assert(sound(p, r.state, id));
}

/// A run is as wide as the data allows: once what is ready was launched and nothing has failed,
/// exactly the nodes that have not finished and wait for nothing run.
pub proof fn a_run_is_as_wide_as_the_data_allows(p: PlanV, r: RunV, id: Seq<char>)
    requires
        run_ok(p, r),
        !r.stopping,
    ensures
        launched(r).running.contains(id) <==> ids_of(p.nodes).contains(id)
            && !r.state.outputs.contains_key(id) && free(p.edges, id, r.state.outputs),
{
    launched_ok(p, r);
    let l = launched(r);
    if l.running.contains(id) {
        assert(sound(p, l.state, id));
    }
    if sound(p, r.state, id) {
        assert(!l.state.ready.contains(id));
        assert(free(p.edges, id, l.state.outputs));
    }
}

/// What has finished, in this run or in an earlier one, is never ready and never runs again.
pub proof fn nothing_runs_twice(p: PlanV, r: RunV, id: Seq<char>)
    requires
        run_ok(p, r),
        r.state.outputs.contains_key(id),
    ensures
        !r.state.ready.contains(id),
        !r.running.contains(id),
        !launched(r).running.contains(id),
{
    launched_ok(p, r);
}

/// Work that was committed under its key is never sent again: a run that begins with what a
/// ledger proves done, and keeps it, launches no node whose key has a row that succeeded.
pub proof fn committed_work_is_not_repeated(p: PlanV, rows: Seq<RowV>, r: RunV, i: int)
    requires
        run_ok(p, r),
        forall|id: Seq<char>| #[trigger]
            completed_of(rows, p.nodes).contains_key(id) ==> r.state.outputs.contains_key(id),
        0 <= i < p.nodes.len(),
        p.nodes[i].key matches Some(k) && committed(rows, k) is Some,
    ensures
        !r.running.contains(p.nodes[i].id),
        !launched(r).running.contains(p.nodes[i].id),
{
    let id = p.nodes[i].id;
    only_keys_prove_done(rows, p.nodes, id);
    assert(completed_of(rows, p.nodes).contains_key(id));
    nothing_runs_twice(p, r, id);
}

/// What finished stays finished, with what it observed.
pub proof fn results_stay(
    p: PlanV,
    r: RunV,
    id: Seq<char>,
    res: Result<JsonV, FailureV>,
    other: Seq<char>,
)
    requires
        run_ok(p, r),
        res is Ok ==> r.running.contains(id),
        r.state.outputs.contains_key(other),
    ensures
        finished(p, r, id, res).state.outputs.contains_key(other),
        finished(p, r, id, res).state.outputs[other] == r.state.outputs[other],
{
    if res is Ok {
        assert(sound(p, r.state, id));
    }
}

/// After a failure nothing new starts, and the first failure stays the outcome.
pub proof fn the_first_failure_decides(
    p: PlanV,
    r: RunV,
    id: Seq<char>,
    res: Result<JsonV, FailureV>,
)
    requires
        run_ok(p, r),
        r.stopping,
    ensures
        launched(r).running == r.running,
        finished(p, r, id, res).stopping,
        finished(p, r, id, res).outcome == r.outcome,
{
}

/// Every edge starts at a node: nothing waits for what the plan does not do.
pub open spec fn starts_at_nodes(p: PlanV) -> bool {
    forall|i: int|
        0 <= i < p.edges.len() ==> ids_of(p.nodes).contains((#[trigger] p.edges[i]).0)
}

/// A node that is not done waits for another that is not done, so a chain of them is as long as
/// one likes.
proof fn waiting_chain(p: PlanV, r: RunV, id: Seq<char>, n: nat) -> (w: Seq<Seq<char>>)
    requires
        run_ok(p, r),
        !r.stopping,
        r.state.ready.len() == 0,
        r.running.len() == 0,
        starts_at_nodes(p),
        ids_of(p.nodes).contains(id),
        !r.state.outputs.contains_key(id),
    ensures
        walk(p.edges, w),
        w.len() == n + 1,
        w.last() == id,
    decreases n,
{
    if n == 0 {
        seq![id]
    } else {
        assert(!free(p.edges, id, r.state.outputs));
        let i = choose|i: int|
            0 <= i < p.edges.len() && (#[trigger] p.edges[i]).1 == id
                && !r.state.outputs.contains_key(p.edges[i].0);
        let a = p.edges[i].0;
        assert(ids_of(p.nodes).contains(p.edges[i].0));
        let w = waiting_chain(p, r, a, (n - 1) as nat);
        let q = w.push(id);
        assert forall|k: int| 0 <= k < q.len() - 1 implies #[trigger] step(p.edges, q, k) by {
            if k < w.len() - 1 {
                assert(step(p.edges, w, k));
                assert(q[k] == w[k] && q[k + 1] == w[k + 1]);
            } else {
                assert(p.edges[i] == (q[k], q[k + 1]));
                assert(p.edges.contains((q[k], q[k + 1])));
            }
        }
        q
    }
}

/// A run of a plan without cycles never stalls: once nothing runs, nothing is ready and nothing
/// failed, every node has finished.
pub proof fn a_run_never_stalls(p: PlanV, r: RunV, id: Seq<char>)
    requires
        run_ok(p, r),
        acyclic(p.edges),
        starts_at_nodes(p),
        !r.stopping,
        r.state.ready.len() == 0,
        r.running.len() == 0,
        ids_of(p.nodes).contains(id),
    ensures
        r.state.outputs.contains_key(id),
{
    if !r.state.outputs.contains_key(id) {
        let w = waiting_chain(p, r, id, p.edges.len() + 1);
        walk_bound(p.edges, w);
    }
}

/// A plan that was compiled runs to its end: where nothing refers to a node by its name, once
/// nothing runs, nothing is ready and nothing failed, every node has finished.
pub proof fn a_compiled_plan_completes(
    intent: IntentV,
    world: WorldV,
    opts: OptionsV,
    p: PlanV,
    r: RunV,
    id: Seq<char>,
)
    requires
        compiles_to(intent, world, opts, Ok(p)),
        free_of_nodes(world.ops),
        wants_free_of_nodes(intent.wants),
        run_ok(p, r),
        !r.stopping,
        r.state.ready.len() == 0,
        r.running.len() == 0,
        ids_of(p.nodes).contains(id),
    ensures
        r.state.outputs.contains_key(id),
{
    compiled_plans_run(intent, world, opts, p);
    plan_waits_for_itself(intent, world, opts, p);
    a_run_never_stalls(p, r, id);
}

} // verus!
