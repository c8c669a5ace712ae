//! Checking wants against the opposite order: plans that are the same up to the names of their
//! nodes do not differ.

use crate::compile_laws::{
    depth_bounds_every_walk, depth_is_attained, node_names_differ, plan_is_acyclic,
    plan_is_not_empty,
};
use crate::compile_model::{compiles_to, node_name, OptionsV};
use crate::diff::{diff, edge_text, nothing_new, op_named, signature};
use crate::graph::{acyclic, step, walk};
use crate::intent::IntentV;
use crate::naming::{
    free_of_nodes, named, plan_is_named, plan_waits_for_itself, wants_free_of_nodes,
};
use crate::plan::{depth_spec, ids_of, NodeV, PlanV};
use crate::settling::{plain_ops, plain_reqs, plain_want, plain_wants};
use crate::text::sort_dedup_ok;
use crate::want_order::{
    dependencies, order_is_decided, pairs_up, plain_footprints, same_dag, same_wants, same_work,
    want_order_does_not_show,
};
use crate::world::WorldV;
use vstd::prelude::*;

verus! {

/// A plan whose nodes are named by their places, whose edges join them, and which nothing in it
/// keeps from ending.
pub open spec fn sound(p: PlanV) -> bool {
    &&& p.nodes.len() > 0
    &&& forall|i: int| 0 <= i < p.nodes.len() ==> (#[trigger] p.nodes[i]).id == node_name(i as nat)
    &&& forall|x: (Seq<char>, Seq<char>)| #[trigger]
        p.edges.contains(x) ==> named(x.0, p.nodes.len()) && named(x.1, p.nodes.len())
    &&& acyclic(p.edges)
}

proof fn same_dag_back(p: PlanV, q: PlanV, f: Seq<int>) -> (g: Seq<int>)
    requires
        same_dag(p, q, f),
    ensures
        same_dag(q, p, g),
{
    let n = q.nodes.len();
    let g = Seq::new(n, |k: int| choose|i: int| 0 <= i < f.len() && #[trigger] f[i] == k);
    assert forall|k: int| 0 <= k < n implies 0 <= #[trigger] g[k] < f.len() && f[g[k]] == k by {
        assert(f.contains(k));
    }
    assert forall|i: int| 0 <= i < f.len() implies #[trigger] g.contains(i) by {
        assert(g[f[i]] == i);
    }
    assert(pairs_up(n, p.nodes.len(), g));
    assert forall|k: int| 0 <= k < g.len() implies #[trigger] same_work(
        q.nodes[k],
        p.nodes[g[k]],
    ) by {
        assert(same_work(p.nodes[g[k]], q.nodes[f[g[k]]]));
    }
    assert forall|k: int, l: int|
        #![trigger q.edges.contains((q.nodes[k].id, q.nodes[l].id))]
        #![trigger p.edges.contains((p.nodes[g[k]].id, p.nodes[g[l]].id))]
        0 <= k < g.len() && 0 <= l < g.len() implies (q.edges.contains(
        (q.nodes[k].id, q.nodes[l].id),
    ) <==> p.edges.contains((p.nodes[g[k]].id, p.nodes[g[l]].id))) by {
        let (i, j) = (g[k], g[l]);
        assert(f[i] == k && f[j] == l);
        assert(p.edges.contains((p.nodes[i].id, p.nodes[j].id)) <==> q.edges.contains(
            (q.nodes[f[i]].id, q.nodes[f[j]].id),
        ));
    }
    g
}

proof fn op_at(ns: Seq<NodeV>, i: int)
    requires
        0 <= i < ns.len(),
        forall|k: int| 0 <= k < ns.len() ==> (#[trigger] ns[k]).id == node_name(k as nat),
    ensures
        op_named(ns, node_name(i as nat)) == ns[i].op,
    decreases ns.len(),
{
    let last = ns.len() - 1;
    assert(ns[last].id == node_name(last as nat));
    if i < last {
        node_names_differ(i as nat, last as nat);
        let front = ns.drop_last();
        assert forall|k: int| 0 <= k < front.len() implies (#[trigger] front[k]).id == node_name(
            k as nat,
        ) by {
            assert(front[k] == ns[k]);
        }
        op_at(front, i);
    }
}

/// Where an edge of one plan lies in the other.
proof fn edge_carries(p: PlanV, q: PlanV, f: Seq<int>, x: (Seq<char>, Seq<char>)) -> (r: (int, int))
    requires
        same_dag(p, q, f),
        sound(p),
        sound(q),
        p.edges.contains(x),
    ensures
        0 <= r.0 < f.len(),
        0 <= r.1 < f.len(),
        x == (node_name(r.0 as nat), node_name(r.1 as nat)),
        q.edges.contains((node_name(f[r.0] as nat), node_name(f[r.1] as nat))),
{
    let i = choose|k: nat| k < p.nodes.len() && x.0 == #[trigger] node_name(k);
    let j = choose|k: nat| k < p.nodes.len() && x.1 == #[trigger] node_name(k);
    assert(p.nodes[i as int].id == x.0 && p.nodes[j as int].id == x.1);
    assert(q.nodes[f[i as int]].id == node_name(f[i as int] as nat));
    assert(q.nodes[f[j as int]].id == node_name(f[j as int] as nat));
    assert(p.edges.contains((p.nodes[i as int].id, p.nodes[j as int].id)));
    (i as int, j as int)
}

proof fn signature_carries(p: PlanV, q: PlanV, f: Seq<int>)
    requires
        same_dag(p, q, f),
        sound(p),
        sound(q),
    ensures
        forall|k: int|
            0 <= k < signature(p).len() ==> signature(q).contains(#[trigger] signature(p)[k]),
{
    let a = p.edges.map_values(|e: (Seq<char>, Seq<char>)| edge_text(p, e));
    let b = q.edges.map_values(|e: (Seq<char>, Seq<char>)| edge_text(q, e));
    sort_dedup_ok(a);
    sort_dedup_ok(b);
    assert forall|k: int| 0 <= k < signature(p).len() implies signature(q).contains(
        #[trigger] signature(p)[k],
    ) by {
        let t = signature(p)[k];
        assert(signature(p).contains(t));
        assert(a.contains(t));
        let m = choose|m: int| 0 <= m < a.len() && a[m] == t;
        let x = p.edges[m];
        assert(p.edges.contains(x));
        let (i, j) = edge_carries(p, q, f, x);
        let y = (node_name(f[i] as nat), node_name(f[j] as nat));
        op_at(p.nodes, i);
        op_at(p.nodes, j);
        op_at(q.nodes, f[i]);
        op_at(q.nodes, f[j]);
        assert(same_work(p.nodes[i], q.nodes[f[i]]) && same_work(p.nodes[j], q.nodes[f[j]]));
        let l = choose|l: int| 0 <= l < q.edges.len() && q.edges[l] == y;
        assert(b[l] == edge_text(q, y));
        assert(edge_text(q, y) == t);
        assert(b.contains(t));
    }
}

proof fn name_told(n: nat, i: nat)
    requires
        i < n,
    ensures
        (choose|k: nat| k < n && node_name(i) == #[trigger] node_name(k)) == i,
{
    let x = node_name(i);
    assert(x == node_name(i));
    let k = choose|k: nat| k < n && x == #[trigger] node_name(k);
    if k != i {
        node_names_differ(k, i);
    }
}

proof fn depth_carries(p: PlanV, q: PlanV, f: Seq<int>)
    requires
        same_dag(p, q, f),
        sound(p),
        sound(q),
    ensures
        depth_spec(p) <= depth_spec(q),
{
    let n = p.nodes.len();
    let w = depth_is_attained(p);
    let to = |x: Seq<char>|
        node_name(f[(choose|k: nat| k < n && x == #[trigger] node_name(k)) as int] as nat);
    let v = w.map_values(to);
    assert forall|k: int| 0 <= k < v.len() - 1 implies #[trigger] step(q.edges, v, k) by {
        assert(step(p.edges, w, k));
        let (i, j) = edge_carries(p, q, f, (w[k], w[k + 1]));
        name_told(n, i as nat);
        name_told(n, j as nat);
        assert(v[k] == to(w[k]) && v[k + 1] == to(w[k + 1]));
    }
    assert(walk(q.edges, v));
    let ids = ids_of(p.nodes);
    let i = choose|i: int| 0 <= i < ids.len() && ids[i] == w.last();
    assert(ids[i] == p.nodes[i].id);
    name_told(n, i as nat);
    assert(v.last() == to(w.last()));
    assert(ids_of(q.nodes)[f[i]] == q.nodes[f[i]].id);
    assert(ids_of(q.nodes).contains(v.last()));
    depth_bounds_every_walk(q, v);
}

/// Plans with the same work in the same order do not differ, whatever their nodes are called.
pub proof fn same_dags_do_not_differ(p: PlanV, q: PlanV, f: Seq<int>)
    requires
        same_dag(p, q, f),
        sound(p),
        sound(q),
    ensures
        diff(p, q).len() == 0,
{
    let g = same_dag_back(p, q, f);
    depth_carries(p, q, f);
    depth_carries(q, p, g);
    signature_carries(p, q, f);
    signature_carries(q, p, g);
    nothing_new(signature(p), signature(q), "only in the declared order: "@);
    nothing_new(signature(q), signature(p), "only in the reversed order: "@);
}

proof fn plan_is_sound(strict: bool, intent: IntentV, world: WorldV, opts: OptionsV, p: PlanV)
    requires
        compiles_to(intent, world, opts, Ok(p)),
        plain_ops(strict, world.ops),
        plain_wants(strict, intent.wants),
    ensures
        sound(p),
{
    assert(free_of_nodes(world.ops)) by {
        assert forall|i: int, j: int|
            0 <= i < world.ops.len() && 0 <= j
                < world.ops[i].requires_.len() implies crate::naming::grounded_pred(
            #[trigger] world.ops[i].requires_[j],
            0,
        ) by {
            assert(plain_reqs(strict, world.ops[i].requires_));
        }
    }
    assert(wants_free_of_nodes(intent.wants)) by {
        assert forall|i: int| 0 <= i < intent.wants.len() implies (crate::pred_parse::parse_spec(
            #[trigger] intent.wants[i],
        ) matches Ok(p) ==> crate::naming::grounded_pred(p, 0)) by {
            assert(plain_want(strict, intent.wants[i]));
        }
    }
    plan_is_named(intent, world, opts, p);
    plan_waits_for_itself(intent, world, opts, p);
    plan_is_not_empty(intent, world, opts, p);
    plan_is_acyclic(intent, world, opts, p);
    let ids = ids_of(p.nodes);
    assert forall|x: (Seq<char>, Seq<char>)| #[trigger] p.edges.contains(x) implies named(
        x.0,
        p.nodes.len(),
    ) && named(x.1, p.nodes.len()) by {
        let m = choose|m: int| 0 <= m < p.edges.len() && p.edges[m] == x;
        assert(ids.contains(p.edges[m].0) && ids.contains(p.edges[m].1));
        let i = choose|i: int| 0 <= i < ids.len() && ids[i] == x.0;
        let j = choose|j: int| 0 <= j < ids.len() && ids[j] == x.1;
        assert(ids[i] == p.nodes[i].id && ids[j] == p.nodes[j].id);
        assert(x.0 == node_name(i as nat) && x.1 == node_name(j as nat));
    }
}

/// Compiling wants in another order shows no difference, wherever nothing but the data decides how
/// nodes are ordered.
pub proof fn the_other_order_shows_no_difference(
    i1: IntentV,
    i2: IntentV,
    world: WorldV,
    opts: OptionsV,
    p1: PlanV,
    p2: PlanV,
)
    requires
        same_wants(i1, i2),
        compiles_to(i1, world, opts, Ok(p1)),
        compiles_to(i2, world, opts, Ok(p2)),
        plain_ops(true, world.ops),
        plain_footprints(world.ops),
        plain_wants(true, i1.wants),
        order_is_decided(p1.nodes, dependencies(i1, world, opts)),
    ensures
        diff(p1, p2).len() == 0,
{
    let f = want_order_does_not_show(i1, i2, world, opts, p1, p2);
    crate::want_order::wants_stay_plain(true, i1.wants, i2.wants);
    plan_is_sound(true, i1, world, opts, p1);
    plan_is_sound(true, i2, world, opts, p2);
    same_dags_do_not_differ(p1, p2, f);
}

} // verus!
