//! Which names a plan holds: its nodes are named in the order in which they are made, and its
//! edges join them.

use crate::compile_model::{
    all_edges, build, by_id, candidates, compiles_to, dep_edges, depth_limit, entity_want, env_of,
    footprint_edges, insert_op, known_by_ref, last_of, literal_id, node_name, refs_in,
    refs_in_list, refs_in_val, requirements, resolve_args, resolve_list, resolve_val, satisfy,
    satisfy_all, satisfy_wants, settled, to_unify, try_ops, unify, unify_args, unify_list,
    unify_val, Env, OptionsV, State,
};
use crate::compiler::footprint_edges_join_nodes;
use crate::hash::hash_text;
use crate::intent::IntentV;
use crate::plan::{ids_of, NodeV, PlanV};
use crate::pred::{as_exists_spec, lookup, PredV, ValV};
use crate::pred_parse::parse_spec;
use crate::pred_print::pred_text;
use crate::pred_unroll::{
    each_len, each_len_pred, in_place, pick, pick_args, pick_list, splice, splice_args,
    splice_each, splice_items, splice_pred, spread, spread_item, subst, subst_args, subst_list,
    subst_pred, unroll_spec,
};
use crate::reduce::{dedupe_ok, reduce_contains};
use crate::seqs::{add_has, push_has};
use crate::text::{sort_dedup, sort_dedup_ok};
use crate::world::{OpKind, OpV, WorldV};
use vstd::prelude::*;

verus! {

/// One of the first `n` node names.
pub open spec fn named(x: Seq<char>, n: nat) -> bool {
    exists|k: nat| k < n && x == #[trigger] node_name(k)
}

// ---------- references that a value holds ----------

/// Every `$node.field` in a value, at any depth, refers to one of the first `n` nodes.
pub open spec fn grounded(v: ValV, n: nat) -> bool
    decreases v,
{
    match v {
        ValV::Ref(x, _) => named(x, n),
        ValV::List(xs) => grounded_list(xs, n),
        ValV::Each(xs) => grounded_list(xs, n),
        ValV::Entity(p) => grounded_args(p.args, n) && grounded(p.value, n),
        ValV::All(x) => grounded(*x, n),
        _ => true,
    }
}

pub open spec fn grounded_list(xs: Seq<ValV>, n: nat) -> bool
    decreases xs,
{
    forall|j: int| 0 <= j < xs.len() ==> grounded(#[trigger] xs[j], n)
}

pub open spec fn grounded_args(xs: Seq<(Seq<char>, ValV)>, n: nat) -> bool
    decreases xs,
{
    forall|j: int| 0 <= j < xs.len() ==> grounded((#[trigger] xs[j]).1, n)
}

/// Every `$node.field` in a predicate refers to one of the first `n` nodes; for `0`, there is
/// none.
pub open spec fn grounded_pred(p: PredV, n: nat) -> bool {
    grounded_args(p.args, n) && grounded(p.value, n)
}

pub proof fn grounded_mono(v: ValV, n: nat, m: nat)
    requires
        grounded(v, n),
        n <= m,
    ensures
        grounded(v, m),
    decreases v, 0nat,
{
    match v {
        ValV::Ref(x, _) => {
            let k = choose|k: nat| k < n && x == #[trigger] node_name(k);
            assert(k < m && x == node_name(k));
        },
        ValV::List(xs) => grounded_list_mono(xs, n, m),
        ValV::Each(xs) => grounded_list_mono(xs, n, m),
        ValV::Entity(p) => {
            grounded_args_mono(p.args, n, m);
            grounded_mono(p.value, n, m);
        },
        ValV::All(x) => grounded_mono(*x, n, m),
        _ => {},
    }
}

pub proof fn grounded_list_mono(xs: Seq<ValV>, n: nat, m: nat)
    requires
        grounded_list(xs, n),
        n <= m,
    ensures
        grounded_list(xs, m),
    decreases xs, 0nat,
{
    assert forall|j: int| 0 <= j < xs.len() implies grounded(
                #[trigger] xs[j],
                m,
            ) by {
        assert(grounded(xs[j], n));
        grounded_mono(xs[j], n, m);
    }
}

pub proof fn grounded_args_mono(xs: Seq<(Seq<char>, ValV)>, n: nat, m: nat)
    requires
        grounded_args(xs, n),
        n <= m,
    ensures
        grounded_args(xs, m),
    decreases xs, 0nat,
{
    assert forall|j: int| 0 <= j < xs.len() implies grounded((#[trigger] xs[j]).1, m) by {
        grounded_mono(xs[j].1, n, m);
    }
}

pub proof fn grounded_pred_mono(p: PredV, n: nat, m: nat)
    requires
        grounded_pred(p, n),
        n <= m,
    ensures
        grounded_pred(p, m),
{
    grounded_args_mono(p.args, n, m);
    grounded_mono(p.value, n, m);
}

pub proof fn grounded_lookup(xs: Seq<(Seq<char>, ValV)>, k: Seq<char>, n: nat)
    requires
        grounded_args(xs, n),
    ensures
        lookup(xs, k) matches Some(v) ==> grounded(v, n),
    decreases xs.len(),
{
    if xs.len() > 0 && xs[0].0 != k {
        let rest = xs.drop_first();
        assert forall|j: int| 0 <= j < rest.len() implies grounded((#[trigger] rest[j]).1, n) by {
            assert(rest[j] == xs[j + 1]);
        }
        grounded_lookup(rest, k, n);
    }
}

// ---------- unrolling, filling in and unifying add no reference ----------

proof fn pick_grounded(v: ValV, i: nat, n: nat)
    requires
        grounded(v, n),
    ensures
        grounded(pick(v, i), n),
    decreases v, 0nat,
{
    match v {
        ValV::Each(xs) => {
            assert(grounded_list(xs, n));
        },
        ValV::List(xs) => {
            assert(grounded_list(xs, n));
            assert forall|j: int| 0 <= j < xs.len() implies grounded(
                #[trigger] pick_list(xs, i)[j],
                n,
            ) by {
                assert(grounded(xs[j], n));
                pick_grounded(xs[j], i, n);
            }
            assert(grounded_list(pick_list(xs, i), n));
        },
        ValV::Entity(p) => {
            pick_args_grounded(p.args, i, n);
            pick_grounded(p.value, i, n);
        },
        _ => {},
    }
}

proof fn pick_args_grounded(xs: Seq<(Seq<char>, ValV)>, i: nat, n: nat)
    requires
        grounded_args(xs, n),
    ensures
        grounded_args(pick_args(xs, i), n),
    decreases xs, 0nat,
{
    assert forall|j: int| 0 <= j < xs.len() implies grounded(
        (#[trigger] pick_args(xs, i)[j]).1,
        n,
    ) by {
        assert(grounded(xs[j].1, n));
        pick_grounded(xs[j].1, i, n);
    }
}

proof fn spread_grounded(v: ValV, n: nat)
    requires
        grounded(v, n),
    ensures
        grounded_list(spread_item(v), n),
{
    let x = match v {
        ValV::All(x) => *x,
        other => other,
    };
    assert(grounded(x, n));
    assert forall|j: int| 0 <= j < spread(x).len() implies grounded(
                #[trigger] spread(x)[j],
                n,
            ) by {
        if each_len(x) is Some {
            pick_grounded(x, j as nat, n);
        }
    }
}

proof fn splice_grounded(v: ValV, n: nat)
    requires
        grounded(v, n),
    ensures
        grounded(splice(v), n),
    decreases v, 0nat,
{
    match v {
        ValV::List(xs) => {
            splice_items_grounded(xs, n);
            assert(splice(v) == ValV::List(splice_items(xs)));
        },
        ValV::Each(xs) => {
            assert(grounded_list(xs, n));
            assert forall|j: int| 0 <= j < xs.len() implies grounded(
                #[trigger] splice_each(xs)[j],
                n,
            ) by {
                assert(grounded(xs[j], n));
                splice_grounded(xs[j], n);
            }
            assert(grounded_list(splice_each(xs), n));
        },
        ValV::Entity(p) => {
            splice_args_grounded(p.args, n);
            splice_grounded(p.value, n);
            let q = splice_pred(*p);
            assert(q.args == splice_args(p.args) && q.value == splice(p.value));
            assert(splice(v) == ValV::Entity(Box::new(q)));
        },
        ValV::All(x) => splice_grounded(*x, n),
        _ => {},
    }
}

proof fn splice_items_grounded(xs: Seq<ValV>, n: nat)
    requires
        grounded_list(xs, n),
    ensures
        grounded_list(splice_items(xs), n),
    decreases xs, 0nat,
{
    if xs.len() > 0 {
        let front = xs.drop_last();
        let v = xs[xs.len() - 1];
        assert(grounded(v, n));
        assert forall|j: int| 0 <= j < front.len() implies grounded(
                #[trigger] front[j],
                n,
            ) by {
            assert(grounded(xs[j], n));
        }
        splice_items_grounded(front, n);
        splice_grounded(v, n);
        spread_grounded(splice(v), n);
        let (a, b) = (splice_items(front), spread_item(splice(v)));
        assert forall|j: int| 0 <= j < (a + b).len() implies grounded(
                #[trigger] (a + b)[j],
                n,
            ) by {
            if j < a.len() {
                assert(grounded(a[j], n));
            } else {
                assert(grounded(b[j - a.len()], n));
            }
        }
    }
}

proof fn splice_args_grounded(xs: Seq<(Seq<char>, ValV)>, n: nat)
    requires
        grounded_args(xs, n),
    ensures
        grounded_args(splice_args(xs), n),
    decreases xs, 0nat,
{
    assert forall|j: int| 0 <= j < xs.len() implies grounded(
        (#[trigger] splice_args(xs)[j]).1,
        n,
    ) by {
        assert(grounded(xs[j].1, n));
        splice_grounded(xs[j].1, n);
    }
}

pub proof fn unroll_grounded(p: PredV, n: nat)
    requires
        grounded_pred(p, n),
    ensures
        forall|i: int|
            0 <= i < unroll_spec(p).len() ==> grounded_pred(#[trigger] unroll_spec(p)[i], n),
{
    splice_args_grounded(p.args, n);
    splice_grounded(p.value, n);
    let q = splice_pred(p);
    assert forall|i: int| 0 <= i < unroll_spec(p).len() implies grounded_pred(
        #[trigger] unroll_spec(p)[i],
        n,
    ) by {
        if each_len_pred(q) is Some {
            pick_args_grounded(q.args, i as nat, n);
            pick_grounded(q.value, i as nat, n);
        }
    }
}

pub proof fn subst_grounded(v: ValV, b: Seq<(Seq<char>, ValV)>, n: nat)
    requires
        grounded(v, n),
        grounded_args(b, n),
    ensures
        grounded(subst(v, b), n),
    decreases v, 0nat,
{
    match v {
        ValV::Var(x, _) => grounded_lookup(b, x, n),
        ValV::List(xs) => {
            subst_list_grounded(xs, b, n);
            assert(subst(v, b) == ValV::List(subst_list(xs, b)));
        },
        ValV::Each(xs) => {
            subst_list_grounded(xs, b, n);
            assert(subst(v, b) == ValV::Each(subst_list(xs, b)));
        },
        ValV::Entity(p) => {
            subst_args_grounded(p.args, b, n);
            subst_grounded(p.value, b, n);
            let q = subst_pred(*p, b);
            assert(q.args == subst_args(p.args, b) && q.value == subst(p.value, b));
            assert(subst(v, b) == ValV::Entity(Box::new(q)));
        },
        ValV::All(x) => subst_grounded(*x, b, n),
        _ => {},
    }
}

proof fn subst_list_grounded(xs: Seq<ValV>, b: Seq<(Seq<char>, ValV)>, n: nat)
    requires
        grounded_list(xs, n),
        grounded_args(b, n),
    ensures
        grounded_list(subst_list(xs, b), n),
    decreases xs, 0nat,
{
    if xs.len() > 0 {
        let front = xs.drop_last();
        let v = xs[xs.len() - 1];
        assert(grounded(v, n));
        assert(grounded_list(front, n));
        subst_list_grounded(front, b, n);
        subst_grounded(v, b, n);
        if let ValV::Var(x, _) = v {
            grounded_lookup(b, x, n);
        }
        let (h, t) = (subst_list(front, b), in_place(v, b, subst(v, b)));
        assert(grounded_list(t, n));
        assert forall|j: int| 0 <= j < (h + t).len() implies grounded(#[trigger] (h + t)[j], n) by {
            if j < h.len() {
                assert(grounded(h[j], n));
            } else {
                assert(grounded(t[j - h.len()], n));
            }
        }
    }
}

pub proof fn subst_args_grounded(xs: Seq<(Seq<char>, ValV)>, b: Seq<(Seq<char>, ValV)>, n: nat)
    requires
        grounded_args(xs, n),
        grounded_args(b, n),
    ensures
        grounded_args(subst_args(xs, b), n),
    decreases xs, 0nat,
{
    assert forall|j: int| 0 <= j < xs.len() implies grounded(
        (#[trigger] subst_args(xs, b)[j]).1,
        n,
    ) by {
        assert(grounded(xs[j].1, n));
        subst_grounded(xs[j].1, b, n);
    }
}

pub proof fn unify_val_grounded(p: ValV, c: ValV, b: Seq<(Seq<char>, ValV)>, n: nat)
    requires
        grounded(c, n),
        grounded_args(b, n),
    ensures
        unify_val(p, c, b) matches Some(r) ==> grounded_args(r, n),
    decreases p, 0nat,
{
    match p {
        ValV::Var(x, _) => {
            let r = b.push((x, c));
            assert(grounded_args(r, n));
        },
        ValV::List(ps) => {
            if let ValV::List(cs) = c {
                unify_list_grounded(ps, cs, b, n);
            }
        },
        _ => {},
    }
}

pub proof fn unify_list_grounded(
    ps: Seq<ValV>,
    cs: Seq<ValV>,
    b: Seq<(Seq<char>, ValV)>,
    n: nat,
)
    requires
        grounded_list(cs, n),
        grounded_args(b, n),
    ensures
        unify_list(ps, cs, b) matches Some(r) ==> grounded_args(r, n),
    decreases ps, 0nat,
{
    if ps.len() > 0 && ps.len() == cs.len() {
        let front = cs.drop_last();
        assert forall|j: int| 0 <= j < front.len() implies grounded(
                #[trigger] front[j],
                n,
            ) by {
            assert(grounded(cs[j], n));
        }
        unify_list_grounded(ps.drop_last(), front, b, n);
        assert(grounded(cs[cs.len() - 1], n));
        if let Some(b1) = unify_list(ps.drop_last(), front, b) {
            unify_val_grounded(ps[ps.len() - 1], cs[cs.len() - 1], b1, n);
        }
    }
}

pub proof fn unify_args_grounded(
    ps: Seq<(Seq<char>, ValV)>,
    want: Seq<(Seq<char>, ValV)>,
    b: Seq<(Seq<char>, ValV)>,
    n: nat,
)
    requires
        grounded_args(want, n),
        grounded_args(b, n),
    ensures
        unify_args(ps, want, b) matches Some(r) ==> grounded_args(r, n),
    decreases ps.len(),
{
    if ps.len() > 0 {
        unify_args_grounded(ps.drop_last(), want, b, n);
        grounded_lookup(want, ps.last().0, n);
        if let Some(b1) = unify_args(ps.drop_last(), want, b) {
            if let Some(w) = lookup(want, ps.last().0) {
                unify_val_grounded(ps.last().1, w, b1, n);
            }
        }
    }
}

pub proof fn unify_grounded(post: PredV, want: PredV, n: nat)
    requires
        grounded_pred(want, n),
    ensures
        unify(post, want) matches Some(r) ==> grounded_args(r, n),
{
    let none = Seq::<(Seq<char>, ValV)>::empty();
    unify_val_grounded(post.value, want.value, none, n);
    if let Some(b) = unify_val(post.value, want.value, none) {
        unify_args_grounded(post.args, want.args, b, n);
    }
}

proof fn refs_in_val_named(v: ValV, n: nat)
    requires
        grounded(v, n),
    ensures
        forall|x: Seq<char>| #[trigger] refs_in_val(v).contains(x) ==> named(x, n),
    decreases v, 0nat,
{
    match v {
        ValV::Ref(y, _) => {
            assert forall|x: Seq<char>| #[trigger] refs_in_val(v).contains(x) implies named(
                x,
                n,
            ) by {
                assert(x == y);
            }
        },
        ValV::List(xs) => {
            refs_in_list_named(xs, n);
            assert(refs_in_val(v) == refs_in_list(xs));
        },
        _ => {},
    }
}

proof fn refs_in_list_named(xs: Seq<ValV>, n: nat)
    requires
        grounded_list(xs, n),
    ensures
        forall|x: Seq<char>| #[trigger] refs_in_list(xs).contains(x) ==> named(x, n),
    decreases xs, 0nat,
{
    if xs.len() > 0 {
        let front = xs.drop_last();
        assert forall|j: int| 0 <= j < front.len() implies grounded(
                #[trigger] front[j],
                n,
            ) by {
            assert(grounded(xs[j], n));
        }
        refs_in_list_named(front, n);
        assert(grounded(xs[xs.len() - 1], n));
        refs_in_val_named(xs[xs.len() - 1], n);
        add_has(refs_in_list(front), refs_in_val(xs[xs.len() - 1]));
    }
}

pub proof fn refs_in_named(xs: Seq<(Seq<char>, ValV)>, n: nat)
    requires
        grounded_args(xs, n),
    ensures
        forall|x: Seq<char>| #[trigger] refs_in(xs).contains(x) ==> named(x, n),
    decreases xs.len(),
{
    if xs.len() > 0 {
        let front = xs.drop_last();
        assert(grounded_args(front, n));
        refs_in_named(front, n);
        assert(grounded(xs[xs.len() - 1].1, n));
        refs_in_val_named(xs.last().1, n);
        add_has(refs_in(front), refs_in_val(xs.last().1));
    }
}

// ---------- what every state keeps ----------

/// A node that carries a key exactly where it is a write over HTTP: the plan id, a slash, and the
/// first eight bytes of a hash.
pub open spec fn keyed(plan_id: Seq<char>, n: NodeV) -> bool {
    if n.kind == OpKind::Http && n.writes.len() > 0 {
        exists|canon: Seq<char>|
            n.key == Some(plan_id + "/"@ + #[trigger] hash_text(canon, 8))
    } else {
        n.key is None
    }
}

/// What holds of a state at every moment: the nodes are named by their places and carry their
/// keys, and every dependency leads to a node. Where nothing refers to a node by its name (`closed`), every
/// dependency also starts at one, and so does whatever is noted down as satisfied.
pub open spec fn state_ok(plan_id: Seq<char>, st: State, closed: bool) -> bool {
    &&& forall|i: int|
        0 <= i < st.nodes.len() ==> (#[trigger] st.nodes[i]).id == node_name(i as nat) && keyed(
            plan_id,
            st.nodes[i],
        )
    &&& forall|i: int|
        0 <= i < st.deps.len() ==> named((#[trigger] st.deps[i]).1, st.nodes.len())
    &&& closed ==> forall|i: int|
        0 <= i < st.deps.len() ==> named((#[trigger] st.deps[i]).0, st.nodes.len())
    &&& closed ==> forall|i: int|
        0 <= i < st.memo.len() ==> named((#[trigger] st.memo[i]).1, st.nodes.len())
}

/// No requirement of an operation refers to a node by its name.
pub open spec fn free_of_nodes(ops: Seq<OpV>) -> bool {
    forall|i: int, j: int|
        0 <= i < ops.len() && 0 <= j < ops[i].requires_.len() ==> grounded_pred(
            #[trigger] ops[i].requires_[j],
            0,
        )
}

pub proof fn named_mono(x: Seq<char>, n: nat, m: nat)
    requires
        named(x, n),
        n <= m,
    ensures
        named(x, m),
{
    let k = choose|k: nat| k < n && x == #[trigger] node_name(k);
    assert(k < m && x == node_name(k));
}

proof fn last_of_named(m: Seq<(Seq<char>, Seq<char>)>, k: Seq<char>, n: nat)
    requires
        forall|i: int| 0 <= i < m.len() ==> named((#[trigger] m[i]).1, n),
    ensures
        last_of(m, k) matches Some(x) ==> named(x, n),
    decreases m.len(),
{
    if m.len() > 0 {
        assert(named(m[m.len() - 1].1, n));
        last_of_named(m.drop_last(), k, n);
    }
}

pub proof fn insert_op_has(s: Seq<OpV>, o: OpV)
    ensures
        forall|x: OpV| #[trigger] insert_op(s, o).contains(x) ==> s.contains(x) || x == o,
    decreases s.len(),
{
    if s.len() > 0 {
        let t = s.drop_last();
        insert_op_has(t, o);
        assert forall|x: OpV| #[trigger] insert_op(s, o).contains(x) implies s.contains(x) || x
            == o by {
            let r = insert_op(s, o);
            let k = choose|k: int| 0 <= k < r.len() && r[k] == x;
            if r == s.push(o) {
                if k < s.len() {
                    assert(s[k] == x);
                }
            } else if k < r.len() - 1 {
                assert(insert_op(t, o)[k] == x);
                assert(insert_op(t, o).contains(x));
                if t.contains(x) {
                    let j = choose|j: int| 0 <= j < t.len() && t[j] == x;
                    assert(s[j] == x);
                }
            } else {
                assert(s[s.len() - 1] == x);
            }
        }
    }
}

/// What is tried is declared.
pub proof fn candidates_declared(ops: Seq<OpV>, pred: PredV)
    ensures
        forall|x: OpV| #[trigger] candidates(ops, pred).contains(x) ==> ops.contains(x),
    decreases ops.len(),
{
    if ops.len() > 0 {
        let front = ops.drop_last();
        let rest = candidates(front, pred);
        candidates_declared(front, pred);
        insert_op_has(rest, ops.last());
        push_has(rest, ops.last());
        assert forall|x: OpV| #[trigger] candidates(ops, pred).contains(x) implies ops.contains(
            x,
        ) by {
            assert(rest.contains(x) || x == ops.last());
            if rest.contains(x) {
                let j = choose|j: int| 0 <= j < front.len() && front[j] == x;
                assert(ops[j] == x);
            } else {
                assert(ops[ops.len() - 1] == x);
            }
        }
    }
}

proof fn dep_edges_join(deps: Seq<Seq<char>>, id: Seq<char>)
    ensures
        forall|i: int|
            0 <= i < dep_edges(deps, id).len() ==> (#[trigger] dep_edges(deps, id)[i]).1 == id
                && deps.contains(dep_edges(deps, id)[i].0),
    decreases deps.len(),
{
    if deps.len() > 0 {
        let front = deps.drop_last();
        dep_edges_join(front, id);
        let a = dep_edges(front, id);
        assert forall|i: int| 0 <= i < dep_edges(deps, id).len() implies (#[trigger] dep_edges(
            deps,
            id,
        )[i]).1 == id && deps.contains(dep_edges(deps, id)[i].0) by {
            if i < a.len() {
                assert(dep_edges(deps, id)[i] == a[i]);
                let j = choose|j: int| 0 <= j < front.len() && front[j] == a[i].0;
                assert(deps[j] == a[i].0);
            } else {
                assert(deps[deps.len() - 1] == dep_edges(deps, id)[i].0);
            }
        }
    }
}

/// What a step of compiling may start from.
pub open spec fn step_ok(env: Env, st: State, closed: bool) -> bool {
    state_ok(env.opts.plan_id, st, closed) && (closed ==> free_of_nodes(env.ops))
}

/// What a step of compiling leaves behind.
pub open spec fn kept(env: Env, st: State, st1: State, closed: bool) -> bool {
    state_ok(env.opts.plan_id, st1, closed) && st.nodes.len() <= st1.nodes.len()
}

proof fn resolve_val_keeps(env: Env, fuel: nat, st: State, v: ValV, closed: bool)
    requires
        step_ok(env, st, closed),
        closed ==> grounded(v, st.nodes.len()),
    ensures
        resolve_val(env, fuel, st, v) matches Ok((st1, y)) ==> kept(env, st, st1, closed) && (closed
            ==> grounded(y, st1.nodes.len())),
    decreases 3 * fuel + 1, v, 0nat,
{
    match v {
        ValV::Entity(p) => {
            if literal_id(*p) is None {
                let want = entity_want(env.ops, *p);
                satisfy_keeps(env, fuel, st, want, closed);
            }
        },
        ValV::List(xs) => {
            resolve_list_keeps(env, fuel, st, xs, closed);
        },
        _ => {},
    }
}

proof fn resolve_list_keeps(env: Env, fuel: nat, st: State, xs: Seq<ValV>, closed: bool)
    requires
        step_ok(env, st, closed),
        closed ==> grounded_list(xs, st.nodes.len()),
    ensures
        resolve_list(env, fuel, st, xs) matches Ok((st1, ys)) ==> kept(env, st, st1, closed) && (closed
            ==> grounded_list(ys, st1.nodes.len())),
    decreases 3 * fuel + 1, xs, 0nat,
{
    if xs.len() > 0 {
        let front = xs.drop_last();
        resolve_list_keeps(env, fuel, st, front, closed);
        if let Ok((st1, ys)) = resolve_list(env, fuel, st, front) {
            let v = xs[xs.len() - 1];
            if closed {
                grounded_mono(v, st.nodes.len(), st1.nodes.len());
            }
            resolve_val_keeps(env, fuel, st1, v, closed);
            if let Ok((st2, y)) = resolve_val(env, fuel, st1, v) {
                if closed {
                    grounded_list_mono(ys, st1.nodes.len(), st2.nodes.len());
                    assert(grounded_list(ys.push(y), st2.nodes.len()));
                }
            }
        }
    }
}

proof fn resolve_args_keeps(
    env: Env,
    fuel: nat,
    st: State,
    xs: Seq<(Seq<char>, ValV)>,
    closed: bool,
)
    requires
        step_ok(env, st, closed),
        closed ==> grounded_args(xs, st.nodes.len()),
    ensures
        resolve_args(env, fuel, st, xs) matches Ok((st1, ys)) ==> kept(env, st, st1, closed) && (closed
            ==> grounded_args(ys, st1.nodes.len())),
    decreases 3 * fuel + 1, xs, 0nat,
{
    if xs.len() > 0 {
        let front = xs.drop_last();
        resolve_args_keeps(env, fuel, st, front, closed);
        if let Ok((st1, ys)) = resolve_args(env, fuel, st, front) {
            let v = xs[xs.len() - 1].1;
            if closed {
                grounded_mono(v, st.nodes.len(), st1.nodes.len());
            }
            resolve_val_keeps(env, fuel, st1, v, closed);
            if let Ok((st2, y)) = resolve_val(env, fuel, st1, v) {
                if closed {
                    grounded_args_mono(ys, st1.nodes.len(), st2.nodes.len());
                    let zs = ys.push((xs[xs.len() - 1].0, y));
                    assert(grounded_args(zs, st2.nodes.len()));
                }
            }
        }
    }
}

proof fn satisfy_keeps(env: Env, fuel: nat, st: State, raw: PredV, closed: bool)
    requires
        step_ok(env, st, closed),
        closed ==> grounded_pred(raw, st.nodes.len()),
    ensures
        satisfy(env, fuel, st, raw) matches Ok((st1, id)) ==> kept(env, st, st1, closed) && (closed
            ==> named(id, st1.nodes.len())),
    decreases 3 * fuel + 1, raw.args, 1nat,
{
    if fuel > 0 {
        resolve_args_keeps(env, fuel, st, raw.args, closed);
        if let Ok((st1, args)) = resolve_args(env, fuel, st, raw.args) {
            let pred = PredV { entity: raw.entity, args, field: raw.field, value: raw.value };
            let key = pred_text(pred);
            if closed {
                grounded_mono(raw.value, st.nodes.len(), st1.nodes.len());
                last_of_named(st1.memo, key, st1.nodes.len());
                grounded_lookup(args, "id"@, st1.nodes.len());
            }
            if last_of(st1.memo, key) is None && known_by_ref(pred) is None {
                let ops = candidates(env.ops, pred);
                candidates_declared(env.ops, pred);
                if closed {
                    assert(free_of_nodes(ops)) by {
                        assert forall|i: int, j: int|
                            0 <= i < ops.len() && 0 <= j
                                < ops[i].requires_.len() implies grounded_pred(
                            #[trigger] ops[i].requires_[j],
                            0,
                        ) by {
                            assert(ops.contains(ops[i]));
                            let k = choose|k: int| 0 <= k < env.ops.len() && env.ops[k] == ops[i];
                            assert(grounded_pred(env.ops[k].requires_[j], 0));
                        }
                    }
                }
                try_ops_keeps(env, (fuel - 1) as nat, st1, pred, ops, closed);
            }
        }
    }
}

proof fn try_ops_keeps(
    env: Env,
    fuel: nat,
    st: State,
    pred: PredV,
    ops: Seq<OpV>,
    closed: bool,
)
    requires
        step_ok(env, st, closed),
        closed ==> free_of_nodes(ops) && grounded_pred(pred, st.nodes.len()),
    ensures
        try_ops(env, fuel, st, pred, ops) matches Ok((st1, id)) ==> kept(env, st, st1, closed) && (
        closed ==> named(id, st1.nodes.len())),
    decreases 3 * fuel + 3, ops, 0nat,
{
    if ops.len() > 0 {
        let op = ops[0];
        let post = op.post->0;
        let found = if by_id(post, pred) {
            match satisfy(env, fuel, st, as_exists_spec(pred)) {
                Err(e) => Err(e),
                Ok((st1, t)) => Ok((st1, Some(t))),
            }
        } else {
            Ok((st, None))
        };
        if by_id(post, pred) {
            satisfy_keeps(env, fuel, st, as_exists_spec(pred), closed);
        }
        if let Ok((st1, target)) = found {
            let n = st1.nodes.len();
            let want = to_unify(post, pred, target);
            if closed {
                grounded_pred_mono(pred, st.nodes.len(), n);
                if let Some(t) = target {
                    let args = seq![("id"@, ValV::Ref(t, "id"@))];
                    assert(grounded(args[0].1, n));
                    assert(grounded_args(args, n));
                }
                assert(grounded_pred(want, n));
                unify_grounded(post, want, n);
            }
            match unify(post, want) {
                None => {
                    let rest = ops.drop_first();
                    if closed {
                        assert(free_of_nodes(rest)) by {
                            assert forall|i: int, j: int|
                                0 <= i < rest.len() && 0 <= j
                                    < rest[i].requires_.len() implies grounded_pred(
                                #[trigger] rest[i].requires_[j],
                                0,
                            ) by {
                                assert(grounded_pred(ops[i + 1].requires_[j], 0));
                            }
                        }
                    }
                    try_ops_keeps(env, fuel, st1, pred, rest, closed);
                },
                Some(b) => {
                    if closed {
                        assert forall|j: int| 0 <= j < op.requires_.len() implies grounded_pred(
                            #[trigger] op.requires_[j],
                            0,
                        ) by {
                            assert(grounded_pred(ops[0].requires_[j], 0));
                        }
                    }
                    build_keeps(env, fuel, st1, op, b, pred, closed);
                },
            }
        }
    }
}

proof fn requirements_keep(
    env: Env,
    fuel: nat,
    st: State,
    reqs: Seq<PredV>,
    b: Seq<(Seq<char>, ValV)>,
    closed: bool,
)
    requires
        step_ok(env, st, closed),
        closed ==> grounded_args(b, st.nodes.len()),
        closed ==> forall|j: int| 0 <= j < reqs.len() ==> grounded_pred(#[trigger] reqs[j], 0),
    ensures
        requirements(env, fuel, st, reqs, b) matches Ok((st1, deps)) ==> kept(env, st, st1, closed) && (
        closed ==> forall|x: Seq<char>| #[trigger]
            deps.contains(x) ==> named(x, st1.nodes.len())),
    decreases 3 * fuel + 2, reqs, 0nat,
{
    if reqs.len() > 0 {
        let front = reqs.drop_last();
        requirements_keep(env, fuel, st, front, b, closed);
        if let Ok((st1, deps)) = requirements(env, fuel, st, front, b) {
            let n = st1.nodes.len();
            let r = subst_pred(reqs.last(), b);
            if closed {
                grounded_args_mono(b, st.nodes.len(), n);
                assert(grounded_pred(reqs[reqs.len() - 1], 0));
                grounded_pred_mono(reqs.last(), 0, n);
                subst_args_grounded(reqs.last().args, b, n);
                subst_grounded(reqs.last().value, b, n);
                refs_in_named(r.args, n);
                add_has(deps, refs_in(r.args));
            }
            if !settled(r) {
                satisfy_keeps(env, fuel, st1, r, closed);
                if let Ok((st2, id)) = satisfy(env, fuel, st1, r) {
                    push_has(deps, id);
                    if closed {
                        assert forall|x: Seq<char>| #[trigger]
                            deps.push(id).contains(x) implies named(x, st2.nodes.len()) by {
                            if deps.contains(x) {
                                named_mono(x, n, st2.nodes.len());
                            }
                        }
                    }
                }
            }
        }
    }
}

proof fn build_keeps(
    env: Env,
    fuel: nat,
    st: State,
    op: OpV,
    b: Seq<(Seq<char>, ValV)>,
    want: PredV,
    closed: bool,
)
    requires
        step_ok(env, st, closed),
        closed ==> grounded_args(b, st.nodes.len()),
        closed ==> forall|j: int|
            0 <= j < op.requires_.len() ==> grounded_pred(#[trigger] op.requires_[j], 0),
    ensures
        build(env, fuel, st, op, b, want) matches Ok((st1, id)) ==> kept(env, st, st1, closed) && named(
            id,
            st1.nodes.len(),
        ),
    decreases 3 * fuel + 2, op.requires_, 1nat,
{
    requirements_keep(env, fuel, st, op.requires_, b, closed);
    if let Ok((st1, deps)) = requirements(env, fuel, st, op.requires_, b) {
        if let Ok((st2, id)) = build(env, fuel, st, op, b, want) {
            let n = st1.nodes.len();
            let all = deps + refs_in(b);
            let more = dep_edges(sort_dedup(all), id);
            assert(id == node_name(n));
            assert(st2.nodes.len() == n + 1);
            assert forall|i: int| 0 <= i < n + 1 implies (#[trigger] st2.nodes[i]).id == node_name(
                i as nat,
            ) && keyed(env.opts.plan_id, st2.nodes[i]) by {
                if i < n {
                    assert(st2.nodes[i] == st1.nodes[i]);
                } else {
                    let canon = crate::compile_model::content(st1, op, want);
                    assert(hash_text(canon, 8) == hash_text(canon, 8));
                }
            }
            assert(st2.deps == st1.deps + more);
            dep_edges_join(sort_dedup(all), id);
            sort_dedup_ok(all);
            add_has(deps, refs_in(b));
            if closed {
                grounded_args_mono(b, st.nodes.len(), n);
                refs_in_named(b, n);
            }
            assert forall|i: int| 0 <= i < st2.deps.len() implies named(
                (#[trigger] st2.deps[i]).1,
                n + 1,
            ) && (closed ==> named(st2.deps[i].0, n + 1)) by {
                if i < st1.deps.len() {
                    assert(st2.deps[i] == st1.deps[i]);
                    named_mono(st1.deps[i].1, n, n + 1);
                    if closed {
                        named_mono(st1.deps[i].0, n, n + 1);
                    }
                } else {
                    let e = more[i - st1.deps.len()];
                    assert(st2.deps[i] == e);
                    if closed {
                        assert(all.contains(e.0));
                        assert(named(e.0, n));
                        named_mono(e.0, n, n + 1);
                    }
                }
            }
            if closed {
                assert forall|i: int| 0 <= i < st2.memo.len() implies named(
                    (#[trigger] st2.memo[i]).1,
                    n + 1,
                ) by {
                    named_mono(st1.memo[i].1, n, n + 1);
                }
            }
        }
    }
}

proof fn satisfy_all_keeps(env: Env, fuel: nat, st: State, ps: Seq<PredV>, closed: bool)
    requires
        step_ok(env, st, closed),
        closed ==> forall|i: int| 0 <= i < ps.len() ==> grounded_pred(#[trigger] ps[i], 0),
    ensures
        satisfy_all(env, fuel, st, ps) matches Ok(st1) ==> kept(env, st, st1, closed),
    decreases ps.len(),
{
    if ps.len() > 0 {
        satisfy_all_keeps(env, fuel, st, ps.drop_last(), closed);
        if let Ok(st1) = satisfy_all(env, fuel, st, ps.drop_last()) {
            if closed {
                assert(grounded_pred(ps[ps.len() - 1], 0));
                grounded_pred_mono(ps.last(), 0, st1.nodes.len());
            }
            satisfy_keeps(env, fuel, st1, ps.last(), closed);
        }
    }
}

/// No want refers to a node by its name.
pub open spec fn wants_free_of_nodes(wants: Seq<Seq<char>>) -> bool {
    forall|i: int|
        0 <= i < wants.len() ==> (parse_spec(#[trigger] wants[i]) matches Ok(p) ==> grounded_pred(
            p,
            0,
        ))
}

proof fn satisfy_wants_keeps(env: Env, fuel: nat, wants: Seq<Seq<char>>, closed: bool)
    requires
        closed ==> free_of_nodes(env.ops) && wants_free_of_nodes(wants),
    ensures
        satisfy_wants(env, fuel, wants) matches Ok(st) ==> state_ok(
            env.opts.plan_id,
            st,
            closed,
        ),
    decreases wants.len(),
{
    if wants.len() > 0 {
        let front = wants.drop_last();
        satisfy_wants_keeps(env, fuel, front, closed);
        if let Ok(st) = satisfy_wants(env, fuel, front) {
            if let Ok(p) = parse_spec(wants.last()) {
                if closed {
                    assert(parse_spec(wants[wants.len() - 1]) is Ok);
                    unroll_grounded(p, 0);
                }
                satisfy_all_keeps(env, fuel, st, unroll_spec(p), closed);
            }
        }
    }
}

// ---------- what every plan keeps ----------

/// The nodes of a plan are named by their places, and every edge leads to one of them.
pub proof fn plan_is_named(intent: IntentV, world: WorldV, opts: OptionsV, p: PlanV)
    requires
        compiles_to(intent, world, opts, Ok(p)),
    ensures
        forall|i: int|
            0 <= i < p.nodes.len() ==> (#[trigger] p.nodes[i]).id == node_name(i as nat),
        forall|i: int|
            0 <= i < p.edges.len() ==> ids_of(p.nodes).contains((#[trigger] p.edges[i]).1),
{
    satisfy_wants_keeps(env_of(intent, world, opts), depth_limit(), intent.wants, false);
    plan_edges_are_deps(intent, world, opts, p, false);
}

/// Every write over HTTP in a plan carries a key, and nothing else does. The key is the plan id, a
/// slash and a hash of what the node does.
pub proof fn plan_is_keyed(intent: IntentV, world: WorldV, opts: OptionsV, p: PlanV)
    requires
        compiles_to(intent, world, opts, Ok(p)),
    ensures
        forall|i: int| 0 <= i < p.nodes.len() ==> keyed(opts.plan_id, #[trigger] p.nodes[i]),
{
    satisfy_wants_keeps(env_of(intent, world, opts), depth_limit(), intent.wants, false);
}

/// Where neither a want nor a requirement of the world refers to a node by its name, every edge
/// also starts at a node of the plan: nothing waits for what the plan does not do.
pub proof fn plan_waits_for_itself(intent: IntentV, world: WorldV, opts: OptionsV, p: PlanV)
    requires
        compiles_to(intent, world, opts, Ok(p)),
        free_of_nodes(world.ops),
        wants_free_of_nodes(intent.wants),
    ensures
        forall|i: int|
            0 <= i < p.edges.len() ==> ids_of(p.nodes).contains((#[trigger] p.edges[i]).0),
{
    satisfy_wants_keeps(env_of(intent, world, opts), depth_limit(), intent.wants, true);
    plan_edges_are_deps(intent, world, opts, p, true);
}

proof fn plan_edges_are_deps(
    intent: IntentV,
    world: WorldV,
    opts: OptionsV,
    p: PlanV,
    closed: bool,
)
    requires
        compiles_to(intent, world, opts, Ok(p)),
        satisfy_wants(env_of(intent, world, opts), depth_limit(), intent.wants) matches Ok(st)
            ==> state_ok(opts.plan_id, st, closed),
    ensures
        forall|i: int|
            0 <= i < p.edges.len() ==> ids_of(p.nodes).contains((#[trigger] p.edges[i]).1) && (
            closed ==> ids_of(p.nodes).contains(p.edges[i].0)),
{
    let st = satisfy_wants(env_of(intent, world, opts), depth_limit(), intent.wants)->Ok_0;
    let foot = footprint_edges(st.nodes);
    reduce_contains(ids_of(st.nodes), all_edges(st));
    dedupe_ok(st.deps + foot);
    add_has(st.deps, foot);
    footprint_edges_join_nodes(st.nodes);
    assert forall|i: int| 0 <= i < p.edges.len() implies ids_of(p.nodes).contains(
        (#[trigger] p.edges[i]).1,
    ) && (closed ==> ids_of(p.nodes).contains(p.edges[i].0)) by {
        let e = p.edges[i];
        assert(p.edges.contains(e));
        assert(all_edges(st).contains(e));
        if st.deps.contains(e) {
            let k = choose|k: int| 0 <= k < st.deps.len() && st.deps[k] == e;
            named_is_node(opts.plan_id, st, e.1);
            if closed {
                named_is_node(opts.plan_id, st, e.0);
            }
        } else {
            let k = choose|k: int| 0 <= k < foot.len() && foot[k] == e;
            assert(foot[k] == e);
        }
    }
}

proof fn named_is_node(plan_id: Seq<char>, st: State, x: Seq<char>)
    requires
        state_ok(plan_id, st, false),
        named(x, st.nodes.len()),
    ensures
        ids_of(st.nodes).contains(x),
{
    let k = choose|k: nat| k < st.nodes.len() && x == #[trigger] node_name(k);
    assert(ids_of(st.nodes)[k as int] == st.nodes[k as int].id);
}

} // verus!
