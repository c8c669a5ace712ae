//! What holds of every plan.

use crate::compile_model::{
    all_edges, any_conflict, build, cheapest, compiles_to, conflicts, depth_limit, entity_want,
    env_of, expand, expand_args, expand_list, expand_val, gates_for, last_of, literal_id,
    key_form, make_node, node_key, node_name, pair_edge, resolve_args, resolve_list, resolve_val, satisfy,
    satisfy_all, satisfy_wants, CompileErrorV, Env, OptionsV, State,
};
use crate::graph::{
    acyclic, arrows, cycle, first_cycle_is_a_cycle, reach, reach_mono, step, walk,
};
use crate::intent::IntentV;
use crate::naming::plan_is_named;
use crate::plan::{deepest, depth_spec, ids_of, longest, longest_in, GateKind, GateV, NodeV, PlanV};
use crate::pred::{PredV, ValV};
use crate::pred_laws::dec_rt;
use crate::pred_parse::parse_spec;
use crate::pred_unroll::unroll_spec;
use crate::reduce::{reduce_contains, reduce_keeps_reach, walk_bound};
use crate::text::dec;
use crate::world::{OpKind, OpV, WorldV};
use vstd::prelude::*;

verus! {

// ---------- names ----------

/// Two places never share a name.
pub proof fn node_names_differ(i: nat, j: nat)
    requires
        i != j,
    ensures
        node_name(i) != node_name(j),
{
    if node_name(i) == node_name(j) {
        let (a, b) = (node_name(i), node_name(j));
        let x = (65 + i % 26) as u8;
        let y = (65 + j % 26) as u8;
        assert(a[0] == x as char && b[0] == y as char);
        assert(x == y);
        assert(i % 26 == j % 26);
        if i >= 26 {
            dec_rt(i / 26);
            assert(a.drop_first() =~= dec(i / 26));
        }
        if j >= 26 {
            dec_rt(j / 26);
            assert(b.drop_first() =~= dec(j / 26));
        }
        if i >= 26 && j >= 26 {
            assert(i / 26 == j / 26);
        } else {
            assert(a.len() == b.len());
        }
        assert(i == j);
    }
}

/// The nodes of a plan all have different names.
pub proof fn plan_names_differ(intent: IntentV, world: WorldV, opts: OptionsV, p: PlanV)
    requires
        compiles_to(intent, world, opts, Ok(p)),
    ensures
        ids_of(p.nodes).no_duplicates(),
{
    plan_is_named(intent, world, opts, p);
    let ids = ids_of(p.nodes);
    assert forall|i: int, j: int| 0 <= i < ids.len() && 0 <= j < ids.len() && i != j implies ids[i]
        != ids[j] by {
        assert(ids[i] == p.nodes[i].id && ids[j] == p.nodes[j].id);
        node_names_differ(i as nat, j as nat);
    }
}

// ---------- the shape of a plan ----------

/// A plan always has work in it: an intent that compiles to no work is refused.
pub proof fn plan_is_not_empty(intent: IntentV, world: WorldV, opts: OptionsV, p: PlanV)
    requires
        compiles_to(intent, world, opts, Ok(p)),
    ensures
        p.nodes.len() > 0,
{
}

proof fn no_ops_resolve_val(env: Env, fuel: nat, st: State, v: ValV)
    requires
        env.ops.len() == 0,
    ensures
        resolve_val(env, fuel, st, v) matches Ok((st1, _)) ==> st1.nodes == st.nodes,
    decreases 3 * fuel + 1, v, 0nat,
{
    match v {
        ValV::Entity(p) => no_ops_satisfy(env, fuel, st, entity_want(env.ops, *p)),
        ValV::List(xs) => no_ops_resolve_list(env, fuel, st, xs),
        _ => {},
    }
}

proof fn no_ops_resolve_list(env: Env, fuel: nat, st: State, xs: Seq<ValV>)
    requires
        env.ops.len() == 0,
    ensures
        resolve_list(env, fuel, st, xs) matches Ok((st1, _)) ==> st1.nodes == st.nodes,
    decreases 3 * fuel + 1, xs, 0nat,
{
    if xs.len() > 0 {
        no_ops_resolve_list(env, fuel, st, xs.drop_last());
        if let Ok((st1, _)) = resolve_list(env, fuel, st, xs.drop_last()) {
            no_ops_resolve_val(env, fuel, st1, xs[xs.len() - 1]);
        }
    }
}

proof fn no_ops_resolve_args(env: Env, fuel: nat, st: State, xs: Seq<(Seq<char>, ValV)>)
    requires
        env.ops.len() == 0,
    ensures
        resolve_args(env, fuel, st, xs) matches Ok((st1, _)) ==> st1.nodes == st.nodes,
    decreases 3 * fuel + 1, xs, 0nat,
{
    if xs.len() > 0 {
        no_ops_resolve_args(env, fuel, st, xs.drop_last());
        if let Ok((st1, _)) = resolve_args(env, fuel, st, xs.drop_last()) {
            no_ops_resolve_val(env, fuel, st1, xs[xs.len() - 1].1);
        }
    }
}

proof fn no_ops_satisfy(env: Env, fuel: nat, st: State, raw: PredV)
    requires
        env.ops.len() == 0,
    ensures
        satisfy(env, fuel, st, raw) matches Ok((st1, _)) ==> st1.nodes == st.nodes,
    decreases 3 * fuel + 1, raw.args, 1nat,
{
    if fuel > 0 {
        no_ops_resolve_args(env, fuel, st, raw.args);
    }
}

proof fn no_ops_satisfy_all(env: Env, fuel: nat, st: State, ps: Seq<PredV>)
    requires
        env.ops.len() == 0,
    ensures
        satisfy_all(env, fuel, st, ps) matches Ok(st1) ==> st1.nodes == st.nodes,
    decreases ps.len(),
{
    if ps.len() > 0 {
        no_ops_satisfy_all(env, fuel, st, ps.drop_last());
        if let Ok(st1) = satisfy_all(env, fuel, st, ps.drop_last()) {
            no_ops_satisfy(env, fuel, st1, ps.last());
        }
    }
}

proof fn no_ops_satisfy_wants(env: Env, fuel: nat, wants: Seq<Seq<char>>)
    requires
        env.ops.len() == 0,
    ensures
        satisfy_wants(env, fuel, wants) matches Ok(st) ==> st.nodes.len() == 0,
    decreases wants.len(),
{
    if wants.len() > 0 {
        no_ops_satisfy_wants(env, fuel, wants.drop_last());
        if let Ok(st) = satisfy_wants(env, fuel, wants.drop_last()) {
            if let Ok(p) = parse_spec(wants.last()) {
                no_ops_satisfy_all(env, fuel, st, unroll_spec(p));
            }
        }
    }
}

/// Where nothing is declared, nothing is planned: every intent is refused, never run to an end
/// that did nothing.
pub proof fn nothing_declared_nothing_planned(
    intent: IntentV,
    world: WorldV,
    opts: OptionsV,
    r: Result<PlanV, CompileErrorV>,
)
    requires
        world.ops.len() == 0,
        compiles_to(intent, world, opts, r),
    ensures
        r is Err,
{
    no_ops_satisfy_wants(env_of(intent, world, opts), depth_limit(), intent.wants);
}

/// A plan never leads back to where it started.
pub proof fn plan_is_acyclic(intent: IntentV, world: WorldV, opts: OptionsV, p: PlanV)
    requires
        compiles_to(intent, world, opts, Ok(p)),
    ensures
        acyclic(p.edges),
{
    let st = satisfy_wants(env_of(intent, world, opts), depth_limit(), intent.wants)->Ok_0;
    reduce_contains(ids_of(st.nodes), all_edges(st));
    assert forall|a: Seq<char>| !reach(p.edges, a, a) by {
        if reach(p.edges, a, a) {
            reach_mono(p.edges, all_edges(st), a, a);
        }
    }
}

/// What the data orders, the plan orders: a node is reached from another in the plan exactly when
/// dependencies and footprints lead there.
pub proof fn plan_keeps_every_order(
    intent: IntentV,
    world: WorldV,
    opts: OptionsV,
    p: PlanV,
    st: State,
)
    requires
        compiles_to(intent, world, opts, Ok(p)),
        satisfy_wants(env_of(intent, world, opts), depth_limit(), intent.wants) == Ok::<
            State,
            CompileErrorV,
        >(st),
    ensures
        forall|a: Seq<char>, b: Seq<char>|
            reach(p.edges, a, b) <==> #[trigger] reach(all_edges(st), a, b),
{
    reduce_keeps_reach(ids_of(st.nodes), all_edges(st));
}

/// A refused cycle really is one.
pub proof fn refused_cycle_exists(intent: IntentV, world: WorldV, opts: OptionsV, t: Seq<char>)
    requires
        compiles_to(intent, world, opts, Err(CompileErrorV::Cycle(t))),
        satisfy_wants(env_of(intent, world, opts), depth_limit(), intent.wants) is Ok,
    ensures
        ({
            let st = satisfy_wants(
                env_of(intent, world, opts),
                depth_limit(),
                intent.wants,
            )->Ok_0;
            !acyclic(all_edges(st)) && exists|c: Seq<Seq<char>>| #[trigger]
                cycle(all_edges(st), c) && t == arrows(c)
        }),
{
    let st = satisfy_wants(env_of(intent, world, opts), depth_limit(), intent.wants)->Ok_0;
    first_cycle_is_a_cycle(all_edges(st), ids_of(st.nodes));
}

/// Compiling is determined: the same intent, world and options give the same plan, or the same
/// refusal.
pub proof fn compiling_is_determined(
    intent: IntentV,
    world: WorldV,
    opts: OptionsV,
    r: Result<PlanV, CompileErrorV>,
    s: Result<PlanV, CompileErrorV>,
)
    requires
        compiles_to(intent, world, opts, r),
        compiles_to(intent, world, opts, s),
    ensures
        r == s,
{
}

// ---------- footprints ----------

/// Whether two nodes touch the same data, at least one of them writing.
pub open spec fn overlap(a: NodeV, b: NodeV) -> bool {
    any_conflict(a.writes, b.writes) || any_conflict(a.writes, b.reads) || any_conflict(
        b.writes,
        a.reads,
    )
}

/// Footprints demand an edge exactly where they overlap: disjoint lanes run in parallel.
pub proof fn edge_iff_overlap(a: NodeV, b: NodeV)
    ensures
        pair_edge(a, b) is Some <==> overlap(a, b),
        pair_edge(a, b) matches Some(e) ==> e == (a.id, b.id) || e == (b.id, a.id),
{
}

/// Overlap does not depend on which resource is named first.
pub proof fn conflict_is_mutual(xs: Seq<Seq<char>>, ys: Seq<Seq<char>>)
    ensures
        any_conflict(xs, ys) == any_conflict(ys, xs),
{
    if any_conflict(xs, ys) {
        let (i, j) = choose|i: int, j: int|
            0 <= i < xs.len() && 0 <= j < ys.len() && conflicts(#[trigger] xs[i], #[trigger] ys[j]);
        assert(conflicts(ys[j], xs[i]));
    }
    if any_conflict(ys, xs) {
        let (i, j) = choose|i: int, j: int|
            0 <= i < ys.len() && 0 <= j < xs.len() && conflicts(#[trigger] ys[i], #[trigger] xs[j]);
        assert(conflicts(xs[j], ys[i]));
    }
}

/// A writer precedes a reader, whichever of the two was asked for first.
pub proof fn writer_precedes_reader(writer: NodeV, reader: NodeV)
    requires
        any_conflict(writer.writes, reader.reads),
        !any_conflict(reader.writes, writer.reads),
        !any_conflict(writer.writes, reader.writes),
    ensures
        pair_edge(writer, reader) == Some((writer.id, reader.id)),
        pair_edge(reader, writer) == Some((writer.id, reader.id)),
{
    conflict_is_mutual(writer.writes, reader.writes);
}

/// Two writers follow the declared precedence, whichever of the two was asked for first.
pub proof fn declared_precedence_decides(first: NodeV, second: NodeV)
    requires
        any_conflict(first.writes, second.writes),
        first.before.contains(second.op),
        !second.before.contains(first.op),
    ensures
        pair_edge(first, second) == Some((first.id, second.id)),
        pair_edge(second, first) == Some((first.id, second.id)),
{
    conflict_is_mutual(first.writes, second.writes);
}

// ---------- surfaces ----------

/// The chosen surface is available, no available one is cheaper, and none before it is as cheap.
pub proof fn cheapest_is_best(ss: Seq<(Seq<char>, u32)>, available: Seq<Seq<char>>)
    ensures
        match cheapest(ss, available) {
            Some(s) => {
                &&& available.contains(s.0)
                &&& exists|k: int|
                    0 <= k < ss.len() && #[trigger] ss[k] == s && forall|j: int|
                        0 <= j < k && available.contains((#[trigger] ss[j]).0) ==> s.1 < ss[j].1
                &&& forall|i: int|
                    0 <= i < ss.len() && available.contains((#[trigger] ss[i]).0) ==> s.1 <= ss[i].1
            },
            None => forall|i: int|
                0 <= i < ss.len() ==> !available.contains((#[trigger] ss[i]).0),
        },
    decreases ss.len(),
{
    if ss.len() > 0 {
        let t = ss.drop_last();
        cheapest_is_best(t, available);
        let l = ss.last();
        match cheapest(t, available) {
            Some(s) => {
                let k = choose|k: int|
                    0 <= k < t.len() && #[trigger] t[k] == s && forall|j: int|
                        0 <= j < k && available.contains((#[trigger] t[j]).0) ==> s.1 < t[j].1;
                assert(ss[k] == s);
                assert forall|j: int|
                    0 <= j < k && available.contains((#[trigger] ss[j]).0) implies s.1
                    < ss[j].1 by {
                    assert(t[j] == ss[j]);
                }
                assert forall|i: int|
                    0 <= i < t.len() && available.contains((#[trigger] ss[i]).0) implies s.1
                    <= ss[i].1 by {
                    assert(t[i] == ss[i]);
                }
                if available.contains(l.0) && l.1 < s.1 {
                    assert(ss[ss.len() - 1] == l);
                }
            },
            None => {
                assert forall|i: int| 0 <= i < t.len() implies !available.contains(
                    (#[trigger] ss[i]).0,
                ) by {
                    assert(t[i] == ss[i]);
                }
                assert(ss[ss.len() - 1] == l);
            },
        }
    }
}

/// A step that only a screen offers cannot be compiled for a run without a screen.
pub proof fn no_surface_no_node(
    env: Env,
    fuel: nat,
    st: State,
    op: OpV,
    b: Seq<(Seq<char>, ValV)>,
    want: PredV,
)
    requires
        op.kind != OpKind::Event,
        forall|i: int|
            0 <= i < op.surfaces.len() ==> !env.opts.surfaces.contains(
                (#[trigger] op.surfaces[i]).0,
            ),
    ensures
        build(env, fuel, st, op, b, want) is Err,
{
    cheapest_is_best(op.surfaces, env.opts.surfaces);
    match cheapest(op.surfaces, env.opts.surfaces) {
        Some(s) => {
            let k = choose|k: int| 0 <= k < op.surfaces.len() && #[trigger] op.surfaces[k] == s;
            assert(!env.opts.surfaces.contains(op.surfaces[k].0));
        },
        None => {},
    }
}

// ---------- gates ----------

/// Whether some node of that name has an effect that leaves the system.
pub open spec fn external_node(ns: Seq<NodeV>, id: Seq<char>) -> bool {
    exists|k: int| 0 <= k < ns.len() && (#[trigger] ns[k]).external && ns[k].id == id
}

/// Whether some gate guards a node of that name.
pub open spec fn gated(gs: Seq<GateV>, id: Seq<char>) -> bool {
    exists|i: int| 0 <= i < gs.len() && (#[trigger] gs[i]).node == id
}

/// There is a gate for exactly the nodes whose effect leaves the system.
pub proof fn gates_guard_external(ns: Seq<NodeV>, allowed: bool, id: Seq<char>)
    ensures
        gated(gates_for(ns, allowed), id) <==> external_node(ns, id),
    decreases ns.len(),
{
    if ns.len() > 0 {
        let t = ns.drop_last();
        let gt = gates_for(t, allowed);
        let g = gates_for(ns, allowed);
        gates_guard_external(t, allowed, id);
        if external_node(ns, id) {
            let k = choose|k: int|
                0 <= k < ns.len() && (#[trigger] ns[k]).external && ns[k].id == id;
            if k < t.len() {
                assert(t[k].external && t[k].id == id);
                let i = choose|i: int| 0 <= i < gt.len() && (#[trigger] gt[i]).node == id;
                assert(g[i].node == id);
            } else {
                assert(g[gt.len() as int].node == id);
            }
        }
        if gated(g, id) {
            let i = choose|i: int| 0 <= i < g.len() && (#[trigger] g[i]).node == id;
            if i < gt.len() {
                assert(gt[i].node == id);
                let k = choose|k: int|
                    0 <= k < t.len() && (#[trigger] t[k]).external && t[k].id == id;
                assert(ns[k].external && ns[k].id == id);
            } else {
                assert(ns[ns.len() - 1].external && ns[ns.len() - 1].id == id);
            }
        }
    }
}

/// Every gate of a plan is open as the constraints say.
pub proof fn gates_follow_constraints(ns: Seq<NodeV>, allowed: bool)
    ensures
        forall|i: int|
            0 <= i < gates_for(ns, allowed).len() ==> (#[trigger] gates_for(
                ns,
                allowed,
            )[i]).allowed == allowed && gates_for(ns, allowed)[i].kind == GateKind::External,
    decreases ns.len(),
{
    if ns.len() > 0 {
        let gt = gates_for(ns.drop_last(), allowed);
        let g = gates_for(ns, allowed);
        gates_follow_constraints(ns.drop_last(), allowed);
        assert forall|i: int| 0 <= i < g.len() implies (#[trigger] g[i]).allowed == allowed
            && g[i].kind == GateKind::External by {
            if i < gt.len() {
                assert(g[i] == gt[i]);
            }
        }
    }
}

// ---------- keys ----------

/// The same value up to the numbering of nodes: where the one refers to a node, the other refers
/// to a node with the same content address.
pub open spec fn same_content(
    c: Seq<(Seq<char>, Seq<char>)>,
    v: ValV,
    d: Seq<(Seq<char>, Seq<char>)>,
    w: ValV,
) -> bool
    decreases v,
{
    match (v, w) {
        (ValV::Ref(n, f), ValV::Ref(m, g)) => f == g && last_of(c, n) is Some && last_of(c, n)
            == last_of(d, m),
        (ValV::List(xs), ValV::List(ys)) => same_content_list(c, xs, d, ys),
        (ValV::Each(xs), ValV::Each(ys)) => same_content_list(c, xs, d, ys),
        (ValV::All(x), ValV::All(y)) => same_content(c, *x, d, *y),
        (ValV::Entity(p), ValV::Entity(q)) => same_content_pred(c, *p, d, *q),
        (ValV::Str(_), _) => v == w,
        (ValV::Num(_), _) => v == w,
        (ValV::Bool(_), _) => v == w,
        (ValV::Var(_, _), _) => v == w,
        _ => false,
    }
}

pub open spec fn same_content_list(
    c: Seq<(Seq<char>, Seq<char>)>,
    xs: Seq<ValV>,
    d: Seq<(Seq<char>, Seq<char>)>,
    ys: Seq<ValV>,
) -> bool
    decreases xs,
{
    xs.len() == ys.len() && forall|i: int|
        #![trigger xs[i]]
        0 <= i < xs.len() ==> same_content(c, xs[i], d, ys[i])
}

/// The same predicate up to the numbering of nodes.
pub open spec fn same_content_pred(
    c: Seq<(Seq<char>, Seq<char>)>,
    p: PredV,
    d: Seq<(Seq<char>, Seq<char>)>,
    q: PredV,
) -> bool
    decreases p,
{
    &&& p.entity == q.entity
    &&& p.field == q.field
    &&& same_content(c, p.value, d, q.value)
    &&& p.args.len() == q.args.len()
    &&& forall|i: int|
        #![trigger p.args[i]]
        0 <= i < p.args.len() ==> p.args[i].0 == q.args[i].0 && same_content(
            c,
            p.args[i].1,
            d,
            q.args[i].1,
        )
}

proof fn expand_val_same(
    c: Seq<(Seq<char>, Seq<char>)>,
    v: ValV,
    d: Seq<(Seq<char>, Seq<char>)>,
    w: ValV,
)
    requires
        same_content(c, v, d, w),
    ensures
        expand_val(c, v) == expand_val(d, w),
    decreases v,
{
    match (v, w) {
        (ValV::List(xs), ValV::List(ys)) => {
            expand_list_same(c, xs, d, ys);
        },
        (ValV::Each(xs), ValV::Each(ys)) => {
            expand_list_same(c, xs, d, ys);
        },
        (ValV::All(x), ValV::All(y)) => {
            expand_val_same(c, *x, d, *y);
        },
        (ValV::Entity(p), ValV::Entity(q)) => {
            expand_same(c, *p, d, *q);
        },
        _ => {},
    }
}

proof fn expand_list_same(
    c: Seq<(Seq<char>, Seq<char>)>,
    xs: Seq<ValV>,
    d: Seq<(Seq<char>, Seq<char>)>,
    ys: Seq<ValV>,
)
    requires
        same_content_list(c, xs, d, ys),
    ensures
        expand_list(c, xs) == expand_list(d, ys),
    decreases xs,
{
    if xs.len() > 0 {
        let (a, b) = (xs.drop_last(), ys.drop_last());
        assert(same_content(c, xs[xs.len() - 1], d, ys[ys.len() - 1]));
        expand_val_same(c, xs[xs.len() - 1], d, ys[ys.len() - 1]);
        assert forall|i: int| #![trigger a[i]] 0 <= i < a.len() implies same_content(
            c,
            a[i],
            d,
            b[i],
        ) by {
            assert(a[i] == xs[i] && b[i] == ys[i]);
        }
        expand_list_same(c, a, d, b);
    }
}

proof fn expand_args_same(
    c: Seq<(Seq<char>, Seq<char>)>,
    xs: Seq<(Seq<char>, ValV)>,
    d: Seq<(Seq<char>, Seq<char>)>,
    ys: Seq<(Seq<char>, ValV)>,
)
    requires
        xs.len() == ys.len(),
        forall|i: int|
            #![trigger xs[i]]
            0 <= i < xs.len() ==> xs[i].0 == ys[i].0 && same_content(c, xs[i].1, d, ys[i].1),
    ensures
        expand_args(c, xs) == expand_args(d, ys),
    decreases xs,
{
    if xs.len() > 0 {
        let (a, b) = (xs.drop_last(), ys.drop_last());
        let l = xs[xs.len() - 1];
        assert(l.0 == ys[ys.len() - 1].0);
        expand_val_same(c, xs[xs.len() - 1].1, d, ys[ys.len() - 1].1);
        assert forall|i: int| #![trigger a[i]] 0 <= i < a.len() implies a[i].0 == b[i].0
            && same_content(c, a[i].1, d, b[i].1) by {
            assert(a[i] == xs[i] && b[i] == ys[i]);
        }
        expand_args_same(c, a, d, b);
    }
}

/// Content addresses do not depend on how nodes are numbered.
pub proof fn expand_same(
    c: Seq<(Seq<char>, Seq<char>)>,
    p: PredV,
    d: Seq<(Seq<char>, Seq<char>)>,
    q: PredV,
)
    requires
        same_content_pred(c, p, d, q),
    ensures
        expand(c, p) == expand(d, q),
    decreases p,
{
    expand_val_same(c, p.value, d, q.value);
    expand_args_same(c, p.args, d, q.args);
}

/// Keys survive renumbering: a node built for the same want under the same plan id has the same
/// key, wherever it and the nodes it refers to stand in the plan.
pub proof fn key_survives_renumbering(
    env: Env,
    st: State,
    other: State,
    op: OpV,
    b: Seq<(Seq<char>, ValV)>,
    b2: Seq<(Seq<char>, ValV)>,
    want: PredV,
    want2: PredV,
    args: Seq<(Seq<char>, crate::plan::ArgV)>,
    args2: Seq<(Seq<char>, crate::plan::ArgV)>,
    surface: Seq<char>,
)
    requires
        same_content_pred(st.canon, want, other.canon, want2),
        make_node(env, st, op, b, want, args, surface).writes.len() > 0,
        make_node(env, other, op, b2, want2, args2, surface).writes.len() > 0,
    ensures
        make_node(env, st, op, b, want, args, surface).key == make_node(
            env,
            other,
            op,
            b2,
            want2,
            args2,
            surface,
        ).key,
{
    expand_same(st.canon, want, other.canon, want2);
}

/// Only a write over HTTP carries a key, and its key starts with the plan id.
pub proof fn only_writes_carry_keys(
    opts: OptionsV,
    op: OpV,
    writes: Seq<Seq<char>>,
    canon: Seq<char>,
)
    ensures
        node_key(opts, op, writes, canon) is Some <==> op.kind == OpKind::Http && writes.len() > 0,
        node_key(opts, op, writes, canon) matches Some(k) ==> opts.plan_id.is_prefix_of(k),
{
    if op.kind == OpKind::Http && writes.len() > 0 {
        let k = node_key(opts, op, writes, canon)->0;
        assert(opts.plan_id =~= k.subrange(0, opts.plan_id.len() as int));
    }
}

/// No key belongs to two plan ids: a run resumed under a fresh id matches nothing that was done
/// before.
pub proof fn keys_tell_plan_ids_apart(a: Seq<char>, b: Seq<char>, k: Seq<char>)
    requires
        key_form(a, k),
        key_form(b, k),
    ensures
        a == b,
{
    assert(a =~= b);
}

/// An entity given by a literal id needs no lookup and builds nothing.
pub proof fn literal_id_needs_no_lookup(env: Env, fuel: nat, st: State, p: PredV, n: int)
    requires
        literal_id(p) == Some(n),
    ensures
        resolve_val(env, fuel, st, ValV::Entity(Box::new(p))) == Ok::<
            (State, ValV),
            CompileErrorV,
        >((st, ValV::Num(n))),
{
}

// ---------- depth ----------

proof fn longest_in_least(
    es: Seq<(Seq<char>, Seq<char>)>,
    n: nat,
    v: Seq<char>,
    k: nat,
    i: int,
)
    requires
        n <= es.len(),
        0 <= i < n,
        es[i].1 == v,
    ensures
        longest(es, es[i].0, k) <= longest_in(es, n, v, k),
    decreases n,
{
    if i < n - 1 {
        longest_in_least(es, (n - 1) as nat, v, k, i);
    }
}

/// No walk to a node is longer than `longest` says.
pub proof fn no_walk_is_longer(es: Seq<(Seq<char>, Seq<char>)>, p: Seq<Seq<char>>, k: nat)
    requires
        walk(es, p),
        p.len() <= k,
    ensures
        p.len() <= longest(es, p.last(), k),
    decreases k,
{
    if p.len() > 1 {
        let q = p.drop_last();
        assert forall|i: int| 0 <= i < q.len() - 1 implies #[trigger] step(es, q, i) by {
            assert(step(es, p, i));
        }
        assert(step(es, p, p.len() - 2));
        no_walk_is_longer(es, q, (k - 1) as nat);
        let i = choose|i: int| 0 <= i < es.len() && es[i] == (p[p.len() - 2], p[p.len() - 1]);
        assert(es[i] == (q.last(), p.last()));
        longest_in_least(es, es.len(), p.last(), (k - 1) as nat, i);
    }
}

proof fn longest_in_attained(es: Seq<(Seq<char>, Seq<char>)>, n: nat, v: Seq<char>, k: nat) -> (i:
    int)
    requires
        n <= es.len(),
        longest_in(es, n, v, k) > 0,
    ensures
        0 <= i < n,
        es[i].1 == v,
        longest(es, es[i].0, k) == longest_in(es, n, v, k),
    decreases n,
{
    let e = es[n - 1];
    if e.1 == v && longest(es, e.0, k) > longest_in(es, (n - 1) as nat, v, k) {
        n - 1
    } else {
        longest_in_attained(es, (n - 1) as nat, v, k)
    }
}

/// Some walk to a node is as long as `longest` says.
pub proof fn some_walk_is_as_long(es: Seq<(Seq<char>, Seq<char>)>, v: Seq<char>, k: nat) -> (p: Seq<
    Seq<char>,
>)
    requires
        k > 0,
    ensures
        walk(es, p),
        p.last() == v,
        p.len() == longest(es, v, k),
    decreases k,
{
    let m = longest_in(es, es.len(), v, (k - 1) as nat);
    if m == 0 {
        let p = seq![v];
        assert(walk(es, p));
        p
    } else {
        let i = longest_in_attained(es, es.len(), v, (k - 1) as nat);
        let q = some_walk_is_as_long(es, es[i].0, (k - 1) as nat);
        let p = q.push(v);
        assert forall|j: int| 0 <= j < p.len() - 1 implies #[trigger] step(es, p, j) by {
            if j < q.len() - 1 {
                assert(step(es, q, j));
            } else {
                assert(p[j] == es[i].0 && p[j + 1] == es[i].1);
                assert(es.contains(es[i]));
            }
        }
        p
    }
}

/// The depth of a plan is the number of nodes on its longest walk: no walk that ends at a node is
/// longer.
pub proof fn depth_bounds_every_walk(p: PlanV, w: Seq<Seq<char>>)
    requires
        acyclic(p.edges),
        walk(p.edges, w),
        ids_of(p.nodes).contains(w.last()),
    ensures
        w.len() <= depth_spec(p),
{
    walk_bound(p.edges, w);
    no_walk_is_longer(p.edges, w, p.edges.len() + 1);
    let ids = ids_of(p.nodes);
    let i = choose|i: int| 0 <= i < ids.len() && ids[i] == w.last();
    deepest_least(p.edges, ids, p.edges.len() + 1, i);
}

proof fn deepest_least(es: Seq<(Seq<char>, Seq<char>)>, ids: Seq<Seq<char>>, k: nat, i: int)
    requires
        0 <= i < ids.len(),
    ensures
        longest(es, ids[i], k) <= deepest(es, ids, k),
    decreases ids.len(),
{
    if i < ids.len() - 1 {
        deepest_least(es, ids.drop_last(), k, i);
    }
}

/// The depth of a plan is attained: some walk that ends at a node has that many nodes.
pub proof fn depth_is_attained(p: PlanV) -> (w: Seq<Seq<char>>)
    requires
        p.nodes.len() > 0,
    ensures
        walk(p.edges, w),
        ids_of(p.nodes).contains(w.last()),
        w.len() == depth_spec(p),
{
    let ids = ids_of(p.nodes);
    let k = p.edges.len() + 1;
    let i = deepest_attained(p.edges, ids, k);
    assert(ids.contains(ids[i]));
    some_walk_is_as_long(p.edges, ids[i], k)
}

proof fn deepest_attained(es: Seq<(Seq<char>, Seq<char>)>, ids: Seq<Seq<char>>, k: nat) -> (i: int)
    requires
        ids.len() > 0,
        k > 0,
    ensures
        0 <= i < ids.len(),
        longest(es, ids[i], k) == deepest(es, ids, k),
    decreases ids.len(),
{
    if ids.len() == 1 {
        assert(deepest(es, ids.drop_last(), k) == 0);
        0
    } else if longest(es, ids.last(), k) > deepest(es, ids.drop_last(), k) {
        ids.len() - 1
    } else {
        deepest_attained(es, ids.drop_last(), k)
    }
}

} // verus!
