//! What satisfying a goal comes to, nodes being named by their goals.
//!
//! Compiling satisfies goals one by one and notes down what is satisfied already. Here a goal is
//! settled from the world's operations alone, as if nothing had been satisfied before. Compiling
//! does the same up to the names of nodes, whatever came before: that is what makes a plan
//! independent of the order of its wants.

use crate::clear::{
    clear, clear_args, clear_binds, clear_list, clear_pred, fixed_names, node_names_are_names,
    subst_pred_clear, texts_tell_apart, unify_clear, unroll_clear,
};
use crate::compile_model::{
    all_args, build, by_id, candidates, content, dep_edges, entity_want, expand, known_by_ref,
    last_of, literal_id, make_node, node_key, node_name, node_surface, refs_in, remember,
    requirements, resolve_args, resolve_list, resolve_val, resources, satisfy, satisfy_all,
    satisfy_wants, settled, to_unify, try_ops, unify, Env, State,
};
use crate::goals::{
    den, den_at, den_grows, dens, dens_add, goal, goals_differ, ren, ren_args, ren_args_grows,
    ren_candidates, ren_list, ren_pred, ren_pred_grows, ren_pred_none, ren_pred_tells, ren_refs_in,
    ren_small, ren_subst_pred, ren_to_unify, ren_unify, ren_val_grows,
};
use crate::naming::{
    grounded, grounded_args, grounded_args_mono, grounded_list, grounded_list_mono,
    grounded_lookup, grounded_mono, grounded_pred, grounded_pred_mono, named, named_mono,
    refs_in_named, subst_args_grounded, subst_grounded, unify_grounded, unroll_grounded,
};
use crate::pred::{as_exists_spec, PredV, ValV};
use crate::pred_parse::parse_spec;
use crate::pred_print::pred_text;
use crate::pred_unroll::{subst_pred, unroll_spec};
use crate::seqs::{add_has, push_has};
use crate::text::{sort_dedup, sort_dedup_ok};
use crate::world::OpV;
use vstd::prelude::*;

verus! {

// ---------- settling ----------

/// How a goal is reached: the operation, what its postcondition binds, what the node depends on,
/// and every goal that comes up on the way.
pub struct Way {
    pub op: OpV,
    pub b: Seq<(Seq<char>, ValV)>,
    pub deps: Seq<Seq<char>>,
    pub need: Set<Seq<char>>,
}

/// A value with its nested entities settled, and the goals that come up.
pub open spec fn settle_val(ops: Seq<OpV>, fuel: nat, v: ValV) -> Option<(ValV, Set<Seq<char>>)>
    decreases 3 * fuel + 1, v, 0nat,
{
    match v {
        ValV::Entity(p) => match literal_id(*p) {
            Some(n) => Some((ValV::Num(n), Set::empty())),
            None => match settle(ops, fuel, entity_want(ops, *p)) {
                None => None,
                Some((id, need)) => Some((ValV::Ref(id, "id"@), need)),
            },
        },
        ValV::List(xs) => match settle_list(ops, fuel, xs) {
            None => None,
            Some((ys, need)) => Some((ValV::List(ys), need)),
        },
        other => Some((other, Set::empty())),
    }
}

pub open spec fn settle_list(ops: Seq<OpV>, fuel: nat, xs: Seq<ValV>) -> Option<
    (Seq<ValV>, Set<Seq<char>>),
>
    decreases 3 * fuel + 1, xs, 0nat,
{
    if xs.len() == 0 {
        Some((Seq::empty(), Set::empty()))
    } else {
        match settle_list(ops, fuel, xs.drop_last()) {
            None => None,
            Some((ys, need)) => match settle_val(ops, fuel, xs[xs.len() - 1]) {
                None => None,
                Some((y, more)) => Some((ys.push(y), need + more)),
            },
        }
    }
}

pub open spec fn settle_args(ops: Seq<OpV>, fuel: nat, xs: Seq<(Seq<char>, ValV)>) -> Option<
    (Seq<(Seq<char>, ValV)>, Set<Seq<char>>),
>
    decreases 3 * fuel + 1, xs, 0nat,
{
    if xs.len() == 0 {
        Some((Seq::empty(), Set::empty()))
    } else {
        match settle_args(ops, fuel, xs.drop_last()) {
            None => None,
            Some((ys, need)) => match settle_val(ops, fuel, xs[xs.len() - 1].1) {
                None => None,
                Some((y, more)) => Some((ys.push((xs[xs.len() - 1].0, y)), need + more)),
            },
        }
    }
}

/// The node that makes a predicate true, and the goals that come up.
pub open spec fn settle(ops: Seq<OpV>, fuel: nat, raw: PredV) -> Option<
    (Seq<char>, Set<Seq<char>>),
>
    decreases 3 * fuel + 1, raw.args, 1nat,
{
    match settle_args(ops, fuel, raw.args) {
        None => None,
        Some((args, need)) => match reach_goal(
            ops,
            fuel,
            PredV { entity: raw.entity, args, field: raw.field, value: raw.value },
        ) {
            None => None,
            Some((id, more)) => Some((id, need + more)),
        },
    }
}

/// The node that makes a predicate true whose arguments are settled. A goal does not come up on
/// the way to itself.
pub open spec fn reach_goal(ops: Seq<OpV>, fuel: nat, pred: PredV) -> Option<
    (Seq<char>, Set<Seq<char>>),
>
    decreases 3 * fuel, candidates(ops, pred), 1nat,
{
    match known_by_ref(pred) {
        Some(n) => Some((n, Set::empty())),
        None => if fuel == 0 {
            None
        } else {
            match find_way(ops, (fuel - 1) as nat, pred, candidates(ops, pred)) {
                None => None,
                Some(w) => if w.need.contains(goal(pred)) {
                    None
                } else {
                    Some((goal(pred), w.need.insert(goal(pred))))
                },
            }
        },
    }
}

/// The first operation whose postcondition unifies, and what it needs.
pub open spec fn find_way(ops: Seq<OpV>, fuel: nat, pred: PredV, cs: Seq<OpV>) -> Option<Way>
    decreases 3 * fuel + 3, cs, 0nat,
{
    if cs.len() == 0 {
        None
    } else {
        let op = cs[0];
        let post = op.post->0;
        let found: Option<(Option<Seq<char>>, Set<Seq<char>>)> = if by_id(post, pred) {
            match settle(ops, fuel, as_exists_spec(pred)) {
                None => None,
                Some((t, need)) => Some((Some(t), need)),
            }
        } else {
            Some((None, Set::empty()))
        };
        match found {
            None => None,
            Some((target, need)) => match unify(post, to_unify(post, pred, target)) {
                None => match find_way(ops, fuel, pred, cs.drop_first()) {
                    None => None,
                    Some(w) => Some(Way { need: need + w.need, ..w }),
                },
                Some(b) => match settle_all(ops, fuel, op.requires_, b) {
                    None => None,
                    Some((deps, more)) => Some(
                        Way { op, b, deps: deps + refs_in(b), need: need + more },
                    ),
                },
            },
        }
    }
}

/// The nodes that requirements stand for, and the goals that come up.
pub open spec fn settle_all(
    ops: Seq<OpV>,
    fuel: nat,
    reqs: Seq<PredV>,
    b: Seq<(Seq<char>, ValV)>,
) -> Option<(Seq<Seq<char>>, Set<Seq<char>>)>
    decreases 3 * fuel + 2, reqs, 0nat,
{
    if reqs.len() == 0 {
        Some((Seq::empty(), Set::empty()))
    } else {
        match settle_all(ops, fuel, reqs.drop_last(), b) {
            None => None,
            Some((deps, need)) => {
                let r = subst_pred(reqs.last(), b);
                if settled(r) {
                    Some((deps + refs_in(r.args), need))
                } else {
                    match settle(ops, fuel, r) {
                        None => None,
                        Some((id, more)) => Some((deps.push(id), need + more)),
                    }
                }
            },
        }
    }
}

// ---------- what is meant to hold ----------

/// A world whose operations tell goals apart: no postcondition and no requirement refers to a
/// node by its name, and requirements can be told from their texts. Where `strict`, nor do they
/// hold a string written like the product of a node.
pub open spec fn plain_ops(strict: bool, ops: Seq<OpV>) -> bool {
    forall|i: int|
        0 <= i < ops.len() ==> ((#[trigger] ops[i]).post matches Some(p) ==> grounded_pred(p, 0))
            && plain_reqs(strict, ops[i].requires_)
}

pub open spec fn plain_reqs(strict: bool, rs: Seq<PredV>) -> bool {
    forall|j: int| 0 <= j < rs.len() ==> grounded_pred(#[trigger] rs[j], 0) && clear_pred(strict, rs[j])
}

/// A predicate over the first `n` nodes whose text tells it.
pub open spec fn fine(strict: bool, p: PredV, n: nat) -> bool {
    grounded_pred(p, n) && clear_pred(strict, p)
}

/// Every fuel from `f` on settles a goal so.
pub open spec fn gives(
    ops: Seq<OpV>,
    pred: PredV,
    id: Seq<char>,
    need: Set<Seq<char>>,
    f: nat,
) -> bool {
    forall|g: nat| g >= f ==> #[trigger] reach_goal(ops, g, pred) == Some((id, need))
}

/// Every fuel from `f` on finds this way to a goal.
pub open spec fn leads_so(ops: Seq<OpV>, pred: PredV, w: Way, f: nat) -> bool {
    forall|g: nat| g >= f ==> #[trigger] find_way(ops, g, pred, candidates(ops, pred)) == Some(w)
}

/// What a noted predicate is known of.
pub open spec fn note_ok(
    strict: bool,
    ops: Seq<OpV>,
    d: Seq<Seq<char>>,
    key: Seq<char>,
    id: Seq<char>,
    p: PredV,
    need: Set<Seq<char>>,
    f: nat,
) -> bool {
    &&& pred_text(p) == key
    &&& fine(strict, p, d.len())
    &&& gives(ops, ren_pred(p, d), den(d, id), need, f)
    &&& need.subset_of(d.to_set())
}

/// What a node was made of: its goal `p`, what it binds, and the way to it.
pub open spec fn node_from(
    strict: bool,
    env: Env,
    st: State,
    d: Seq<Seq<char>>,
    i: int,
    p: PredV,
    b: Seq<(Seq<char>, ValV)>,
    w: Way,
    f: nat,
) -> bool {
    let n = st.nodes[i];
    &&& fine(strict, p, i as nat)
    &&& grounded_args(b, i as nat)
    &&& clear_binds(strict, b)
    &&& d[i] == goal(ren_pred(p, d))
    &&& leads_so(env.ops, ren_pred(p, d), w, f)
    &&& !w.need.contains(d[i])
    &&& w.b == ren_args(b, d)
    &&& last_of(st.memo, pred_text(p)) is Some
    &&& n.op == w.op.name
    &&& n.kind == w.op.kind
    &&& n.before == w.op.before
    &&& node_surface(w.op, env.opts.surfaces) == Ok::<
        Seq<char>,
        crate::compile_model::CompileErrorV,
    >(n.surface)
    &&& n.reads == resources(w.op.reads, b, n.id)
    &&& n.writes == resources(w.op.writes, b, n.id)
    &&& st.canon[i] == (n.id, w.op.name + "|"@ + expand(st.canon.take(i), p))
    &&& n.key == node_key(env.opts, w.op, n.writes, st.canon[i].1)
    &&& forall|x: Seq<char>| #[trigger]
        st.deps.contains((x, n.id)) <==> named(x, i as nat) && w.deps.contains(den(d, x))
    &&& forall|y: Seq<char>| #[trigger]
        w.deps.contains(y) ==> exists|k: int| 0 <= k < i && #[trigger] d[k] == y
}

/// What holds of a state at every moment, `d` naming its nodes by their goals.
pub open spec fn known(strict: bool, env: Env, st: State, d: Seq<Seq<char>>) -> bool {
    &&& d.len() == st.nodes.len()
    &&& st.canon.len() == d.len()
    &&& d.no_duplicates()
    &&& forall|i: int| 0 <= i < d.len() ==> (#[trigger] st.nodes[i]).id == node_name(i as nat)
    &&& forall|k: int|
        0 <= k < st.deps.len() ==> named((#[trigger] st.deps[k]).0, d.len()) && named(
            st.deps[k].1,
            d.len(),
        )
    &&& forall|key: Seq<char>, id: Seq<char>| #[trigger]
        noted(st, key, id) ==> named(id, d.len()) && exists|p: PredV, need: Set<Seq<char>>, f: nat|
            note_ok(strict, env.ops, d, key, id, p, need, f)
    &&& forall|i: int| 0 <= i < d.len() ==> #[trigger] sourced(strict, env, st, d, i)
}

/// Where a node comes from is known.
pub open spec fn sourced(strict: bool, env: Env, st: State, d: Seq<Seq<char>>, i: int) -> bool {
    exists|p: PredV, b: Seq<(Seq<char>, ValV)>, w: Way, f: nat|
        node_from(strict, env, st, d, i, p, b, w, f)
}

pub open spec fn noted(st: State, key: Seq<char>, id: Seq<char>) -> bool {
    last_of(st.memo, key) == Some(id)
}

// ---------- states grow ----------

proof fn named_grows(x: Seq<char>, i: nat, d: Seq<Seq<char>>, e: Seq<Seq<char>>)
    requires
        named(x, i),
        i <= d.len(),
        d.is_prefix_of(e),
    ensures
        den(e, x) == den(d, x),
{
    named_mono(x, i, d.len());
    den_grows(x, d, e);
}

proof fn node_from_grows(
    strict: bool,
    env: Env,
    st: State,
    d: Seq<Seq<char>>,
    st1: State,
    e: Seq<Seq<char>>,
    i: int,
    p: PredV,
    b: Seq<(Seq<char>, ValV)>,
    w: Way,
    f: nat,
)
    requires
        node_from(strict, env, st, d, i, p, b, w, f),
        0 <= i < d.len(),
        d.is_prefix_of(e),
        st1.nodes[i] == st.nodes[i],
        st1.canon.take(i) == st.canon.take(i),
        st1.canon[i] == st.canon[i],
        last_of(st.memo, pred_text(p)) is Some ==> last_of(st1.memo, pred_text(p)) is Some,
        forall|x: Seq<char>| #[trigger]
            st1.deps.contains((x, st.nodes[i].id)) <==> st.deps.contains((x, st.nodes[i].id)),
    ensures
        node_from(strict, env, st1, e, i, p, b, w, f),
{
    grounded_pred_mono(p, i as nat, d.len());
    grounded_args_mono(b, i as nat, d.len());
    ren_pred_grows(p, d, e);
    ren_args_grows(b, d, e);
    assert(e[i] == d[i]);
    assert forall|x: Seq<char>| #[trigger] st1.deps.contains((x, st1.nodes[i].id)) <==> named(
        x,
        i as nat,
    ) && w.deps.contains(den(e, x)) by {
        if named(x, i as nat) {
            named_grows(x, i as nat, d, e);
        }
        assert(st.deps.contains((x, st.nodes[i].id)) <==> named(x, i as nat) && w.deps.contains(
            den(d, x),
        ));
    }
    assert forall|y: Seq<char>| #[trigger] w.deps.contains(y) implies exists|k: int|
        0 <= k < i && #[trigger] e[k] == y by {
        let k = choose|k: int| 0 <= k < i && #[trigger] d[k] == y;
        assert(e[k] == y);
    }
}

proof fn note_grows(
    strict: bool,
    ops: Seq<OpV>,
    d: Seq<Seq<char>>,
    e: Seq<Seq<char>>,
    key: Seq<char>,
    id: Seq<char>,
    p: PredV,
    need: Set<Seq<char>>,
    f: nat,
)
    requires
        note_ok(strict, ops, d, key, id, p, need, f),
        named(id, d.len()),
        d.is_prefix_of(e),
    ensures
        note_ok(strict, ops, e, key, id, p, need, f),
        named(id, e.len()),
{
    grounded_pred_mono(p, d.len(), e.len());
    ren_pred_grows(p, d, e);
    den_grows(id, d, e);
    assert forall|x: Seq<char>| need.contains(x) implies e.to_set().contains(x) by {
        assert(d.to_set().contains(x));
        assert(d.contains(x));
        let k = choose|k: int| 0 <= k < d.len() && d[k] == x;
        assert(e[k] == x);
    }
}

/// Noting down what is known keeps a state known.
proof fn remember_known(
    strict: bool,
    env: Env,
    st: State,
    d: Seq<Seq<char>>,
    key: Seq<char>,
    id: Seq<char>,
    p: PredV,
    need: Set<Seq<char>>,
    f: nat,
)
    requires
        known(strict, env, st, d),
        named(id, d.len()),
        note_ok(strict, env.ops, d, key, id, p, need, f),
    ensures
        known(strict, env, remember(st, key, id), d),
{
    let st1 = remember(st, key, id);
    assert(st1.memo.drop_last() =~= st.memo);
    assert forall|k: Seq<char>, i: Seq<char>| #[trigger] noted(st1, k, i) implies named(i, d.len())
        && exists|p: PredV, need: Set<Seq<char>>, f: nat|
        note_ok(strict, env.ops, d, k, i, p, need, f) by {
        if k == key {
            assert(i == id);
            assert(note_ok(strict, env.ops, d, k, i, p, need, f));
        } else {
            assert(noted(st, k, i));
        }
    }
    assert forall|i: int| 0 <= i < d.len() implies #[trigger] sourced(strict, env, st1, d, i) by {
        assert(sourced(strict, env, st, d, i));
        let (q, b, w, g) = choose|p: PredV, b: Seq<(Seq<char>, ValV)>, w: Way, f: nat|
            node_from(strict, env, st, d, i, p, b, w, f);
        node_from_grows(strict, env, st, d, st1, d, i, q, b, w, g);
        assert(node_from(strict, env, st1, d, i, q, b, w, g));
    }
}

proof fn named_clear(x: Seq<char>, n: nat)
    requires
        named(x, n),
    ensures
        crate::pred_laws::writable_name(x),
{
    let k = choose|k: nat| k < n && x == #[trigger] node_name(k);
    node_names_are_names(k);
}

proof fn prefix_trans(a: Seq<Seq<char>>, b: Seq<Seq<char>>, c: Seq<Seq<char>>)
    requires
        a.is_prefix_of(b),
        b.is_prefix_of(c),
    ensures
        a.is_prefix_of(c),
{
    assert(a =~= c.subrange(0, a.len() as int)) by {
        assert forall|i: int| 0 <= i < a.len() implies a[i] == c[i] by {
            assert(b.subrange(0, a.len() as int)[i] == b[i]);
            assert(c.subrange(0, b.len() as int)[i] == c[i]);
        }
    }
}

pub open spec fn max(a: nat, b: nat) -> nat {
    if a < b {
        b
    } else {
        a
    }
}

// ---------- compiling settles ----------

proof fn resolve_val_settles(strict: bool, env: Env, fuel: nat, st: State, d: Seq<Seq<char>>, v: ValV) -> (r: (
    Seq<Seq<char>>,
    Set<Seq<char>>,
    nat,
))
    requires
        known(strict, env, st, d),
        plain_ops(strict, env.ops),
        grounded(v, d.len()),
        clear(strict, v),
    ensures
        resolve_val(env, fuel, st, v) matches Ok((st1, y)) ==> {
            &&& known(strict, env, st1, r.0)
            &&& d.is_prefix_of(r.0)
            &&& grounded(y, r.0.len())
            &&& clear(strict, y)
            &&& forall|g: nat|
                g >= r.2 ==> #[trigger] settle_val(env.ops, g, ren(v, d)) == Some(
                    (ren(y, r.0), r.1),
                )
            &&& r.0.to_set() == d.to_set() + r.1
        },
    decreases 3 * fuel + 1, v, 0nat,
{
    let same = (d, Set::<Seq<char>>::empty(), 0nat);
    assert(d.to_set() + Set::<Seq<char>>::empty() =~= d.to_set());
    match v {
        ValV::Entity(p) => {
            ren_small(env.ops, *p, *p, d);
            assert(ren(v, d) == ValV::Entity(Box::new(ren_pred(*p, d))));
            match literal_id(*p) {
                Some(n) => {
                    assert(clear_args(strict, p.args));
                    assert(clear_binds(strict, p.args));
                    crate::clear::clear_lookup(strict, p.args, "id"@);
                    same
                },
                None => {
                    let want = entity_want(env.ops, *p);
                    fixed_names();
                    assert(fine(strict, want, d.len()));
                    let r = satisfy_settles(strict, env, fuel, st, d, want);
                    if let Ok((st1, id)) = satisfy(env, fuel, st, want) {
                        named_clear(id, r.0.len());
                        assert forall|g: nat| g >= r.2 implies #[trigger] settle_val(
                            env.ops,
                            g,
                            ren(v, d),
                        ) == Some((ren(ValV::Ref(id, "id"@), r.0), r.1)) by {
                            assert(settle(env.ops, g, ren_pred(want, d)) == Some(
                                (den(r.0, id), r.1),
                            ));
                        }
                    }
                    r
                },
            }
        },
        ValV::List(xs) => {
            assert(ren(v, d) == ValV::List(ren_list(xs, d)));
            let r = resolve_list_settles(strict, env, fuel, st, d, xs);
            if let Ok((st1, ys)) = resolve_list(env, fuel, st, xs) {
                assert(ren(ValV::List(ys), r.0) == ValV::List(ren_list(ys, r.0)));
                assert forall|g: nat| g >= r.2 implies #[trigger] settle_val(
                    env.ops,
                    g,
                    ren(v, d),
                ) == Some((ren(ValV::List(ys), r.0), r.1)) by {
                    assert(settle_list(env.ops, g, ren_list(xs, d)) == Some(
                        (ren_list(ys, r.0), r.1),
                    ));
                }
            }
            r
        },
        _ => same,
    }
}

proof fn resolve_list_settles(
    strict: bool,
    env: Env,
    fuel: nat,
    st: State,
    d: Seq<Seq<char>>,
    xs: Seq<ValV>,
) -> (r: (Seq<Seq<char>>, Set<Seq<char>>, nat))
    requires
        known(strict, env, st, d),
        plain_ops(strict, env.ops),
        grounded_list(xs, d.len()),
        clear_list(strict, xs),
    ensures
        resolve_list(env, fuel, st, xs) matches Ok((st1, ys)) ==> {
            &&& known(strict, env, st1, r.0)
            &&& d.is_prefix_of(r.0)
            &&& grounded_list(ys, r.0.len())
            &&& clear_list(strict, ys)
            &&& forall|g: nat|
                g >= r.2 ==> #[trigger] settle_list(env.ops, g, ren_list(xs, d)) == Some(
                    (ren_list(ys, r.0), r.1),
                )
            &&& r.0.to_set() == d.to_set() + r.1
        },
    decreases 3 * fuel + 1, xs, 0nat,
{
    let rs = ren_list(xs, d);
    assert(rs.len() == xs.len());
    if xs.len() == 0 {
        assert(ren_list(xs, d) =~= Seq::<ValV>::empty());
        assert(ren_list(Seq::<ValV>::empty(), d) =~= Seq::<ValV>::empty());
        assert(d.to_set() + Set::<Seq<char>>::empty() =~= d.to_set());
        (d, Set::empty(), 0nat)
    } else {
        let front = xs.drop_last();
        let v = xs[xs.len() - 1];
        assert(grounded_list(front, d.len()) && clear_list(strict, front));
        assert(grounded(v, d.len()) && clear(strict, v));
        assert(rs.drop_last() =~= ren_list(front, d));
        assert(rs[rs.len() - 1] == ren(v, d));
        let r1 = resolve_list_settles(strict, env, fuel, st, d, front);
        if let Ok((st1, ys)) = resolve_list(env, fuel, st, front) {
            grounded_mono(v, d.len(), r1.0.len());
            let r2 = resolve_val_settles(strict, env, fuel, st1, r1.0, v);
            if let Ok((st2, y)) = resolve_val(env, fuel, st1, v) {
                prefix_trans(d, r1.0, r2.0);
                ren_val_grows(v, d, r1.0);
                crate::goals::ren_list_grows(ys, r1.0, r2.0);
                grounded_list_mono(ys, r1.0.len(), r2.0.len());
                let zs = ys.push(y);
                assert(grounded_list(zs, r2.0.len()) && clear_list(strict, zs));
                assert(ren_list(zs, r2.0) =~= ren_list(ys, r2.0).push(ren(y, r2.0)));
                let f = max(r1.2, r2.2);
                assert forall|g: nat| g >= f implies #[trigger] settle_list(env.ops, g, rs) == Some(
                    (ren_list(zs, r2.0), r1.1 + r2.1),
                ) by {
                    assert(settle_list(env.ops, g, ren_list(front, d)) == Some(
                        (ren_list(ys, r1.0), r1.1),
                    ));
                    assert(settle_val(env.ops, g, ren(v, r1.0)) == Some((ren(y, r2.0), r2.1)));
                }
                assert(r2.0.to_set() =~= d.to_set() + (r1.1 + r2.1));
                (r2.0, r1.1 + r2.1, f)
            } else {
                r1
            }
        } else {
            r1
        }
    }
}

proof fn resolve_args_settles(
    strict: bool,
    env: Env,
    fuel: nat,
    st: State,
    d: Seq<Seq<char>>,
    xs: Seq<(Seq<char>, ValV)>,
) -> (r: (Seq<Seq<char>>, Set<Seq<char>>, nat))
    requires
        known(strict, env, st, d),
        plain_ops(strict, env.ops),
        grounded_args(xs, d.len()),
        clear_args(strict, xs),
    ensures
        resolve_args(env, fuel, st, xs) matches Ok((st1, ys)) ==> {
            &&& known(strict, env, st1, r.0)
            &&& d.is_prefix_of(r.0)
            &&& grounded_args(ys, r.0.len())
            &&& clear_args(strict, ys)
            &&& forall|g: nat|
                g >= r.2 ==> #[trigger] settle_args(env.ops, g, ren_args(xs, d)) == Some(
                    (ren_args(ys, r.0), r.1),
                )
            &&& r.0.to_set() == d.to_set() + r.1
        },
    decreases 3 * fuel + 1, xs, 0nat,
{
    let rs = ren_args(xs, d);
    assert(rs.len() == xs.len());
    if xs.len() == 0 {
        assert(rs =~= Seq::<(Seq<char>, ValV)>::empty());
        assert(ren_args(Seq::<(Seq<char>, ValV)>::empty(), d) =~= Seq::<(Seq<char>, ValV)>::empty());
        assert(d.to_set() + Set::<Seq<char>>::empty() =~= d.to_set());
        (d, Set::empty(), 0nat)
    } else {
        let front = xs.drop_last();
        let v = xs[xs.len() - 1].1;
        let k = xs[xs.len() - 1].0;
        assert(grounded_args(front, d.len()) && clear_args(strict, front));
        assert(grounded(v, d.len()) && clear(strict, v));
        assert(crate::pred_laws::writable_name(k));
        assert(rs.drop_last() =~= ren_args(front, d));
        assert(rs[rs.len() - 1] == (k, ren(v, d)));
        let r1 = resolve_args_settles(strict, env, fuel, st, d, front);
        if let Ok((st1, ys)) = resolve_args(env, fuel, st, front) {
            grounded_mono(v, d.len(), r1.0.len());
            let r2 = resolve_val_settles(strict, env, fuel, st1, r1.0, v);
            if let Ok((st2, y)) = resolve_val(env, fuel, st1, v) {
                prefix_trans(d, r1.0, r2.0);
                ren_val_grows(v, d, r1.0);
                ren_args_grows(ys, r1.0, r2.0);
                grounded_args_mono(ys, r1.0.len(), r2.0.len());
                let zs = ys.push((k, y));
                assert(grounded_args(zs, r2.0.len()) && clear_args(strict, zs));
                assert(ren_args(zs, r2.0) =~= ren_args(ys, r2.0).push((k, ren(y, r2.0))));
                let f = max(r1.2, r2.2);
                assert forall|g: nat| g >= f implies #[trigger] settle_args(env.ops, g, rs) == Some(
                    (ren_args(zs, r2.0), r1.1 + r2.1),
                ) by {
                    assert(settle_args(env.ops, g, ren_args(front, d)) == Some(
                        (ren_args(ys, r1.0), r1.1),
                    ));
                    assert(settle_val(env.ops, g, ren(v, r1.0)) == Some((ren(y, r2.0), r2.1)));
                }
                assert(r2.0.to_set() =~= d.to_set() + (r1.1 + r2.1));
                (r2.0, r1.1 + r2.1, f)
            } else {
                r1
            }
        } else {
            r1
        }
    }
}

proof fn satisfy_settles(strict: bool, env: Env, fuel: nat, st: State, d: Seq<Seq<char>>, raw: PredV) -> (r: (
    Seq<Seq<char>>,
    Set<Seq<char>>,
    nat,
))
    requires
        known(strict, env, st, d),
        plain_ops(strict, env.ops),
        fine(strict, raw, d.len()),
    ensures
        satisfy(env, fuel, st, raw) matches Ok((st1, id)) ==> {
            &&& known(strict, env, st1, r.0)
            &&& d.is_prefix_of(r.0)
            &&& named(id, r.0.len())
            &&& forall|g: nat|
                g >= r.2 ==> #[trigger] settle(env.ops, g, ren_pred(raw, d)) == Some(
                    (den(r.0, id), r.1),
                )
            &&& r.0.to_set() == d.to_set() + r.1
        },
    decreases 3 * fuel + 1, raw.args, 1nat,
{
    let nothing = (d, Set::<Seq<char>>::empty(), 0nat);
    if fuel == 0 {
        nothing
    } else {
        let r1 = resolve_args_settles(strict, env, fuel, st, d, raw.args);
        if let Ok((st1, args)) = resolve_args(env, fuel, st, raw.args) {
            let pred = PredV { entity: raw.entity, args, field: raw.field, value: raw.value };
            let key = pred_text(pred);
            let e = r1.0;
            grounded_mono(raw.value, d.len(), e.len());
            ren_val_grows(raw.value, d, e);
            assert(fine(strict, pred, e.len()));
            let p = ren_pred(pred, e);
            ren_small(env.ops, pred, pred, e);
            match last_of(st1.memo, key) {
                Some(id) => {
                    assert(noted(st1, key, id));
                    let (q, need, f) = choose|q: PredV, need: Set<Seq<char>>, f: nat|
                        note_ok(strict, env.ops, e, key, id, q, need, f);
                    texts_tell_apart(strict, q, pred);
                    let g0 = max(r1.2, f);
                    settle_from(env.ops, ren_pred(raw, d), p, r1.1, r1.2, den(e, id), need, f);
                    assert(e.to_set() =~= d.to_set() + (r1.1 + need));
                    (e, r1.1 + need, g0)
                },
                None => match known_by_ref(pred) {
                    Some(n) => {
                        grounded_lookup(args, "id"@, e.len());
                        let none = Set::<Seq<char>>::empty();
                        assert(gives(env.ops, p, den(e, n), none, 0));
                        remember_known(strict, env, st1, e, key, n, pred, none, 0);
                        settle_from(env.ops, ren_pred(raw, d), p, r1.1, r1.2, den(e, n), none, 0);
                        assert(e.to_set() =~= d.to_set() + (r1.1 + none));
                        (e, r1.1 + none, max(r1.2, 0))
                    },
                    None => {
                        let cs = candidates(env.ops, pred);
                        ren_candidates(env.ops, pred, e);
                        candidates_plain(strict, env.ops, pred);
                        assert(!e.to_set().contains(goal(p))) by {
                            if e.contains(goal(p)) {
                                let i = choose|i: int| 0 <= i < e.len() && e[i] == goal(p);
                                assert(sourced(strict, env, st1, e, i));
                                let (q, b, w, f) = choose|
                                    q: PredV,
                                    b: Seq<(Seq<char>, ValV)>,
                                    w: Way,
                                    f: nat,
                                |
                                    node_from(strict, env, st1, e, i, q, b, w, f);
                                goals_differ(ren_pred(q, e), p);
                                grounded_pred_mono(q, i as nat, e.len());
                                ren_pred_tells(q, pred, e);
                            }
                        }
                        let none = Set::<Seq<char>>::empty();
                        assert forall|g: nat| g >= 0 implies #[trigger] find_way(
                            env.ops,
                            g,
                            p,
                            candidates(env.ops, p),
                        ) == more(none, find_way(env.ops, g, p, cs)) by {
                            if let Some(w) = find_way(env.ops, g, p, cs) {
                                assert(none + w.need =~= w.need);
                            }
                        }
                        assert(e.to_set() + none =~= e.to_set());
                        let t = try_ops_settles(
                            strict,
                            env,
                            (fuel - 1) as nat,
                            st1,
                            e,
                            e,
                            none,
                            0,
                            pred,
                            cs,
                        );
                        if let Ok((st2, id)) = try_ops(env, (fuel - 1) as nat, st1, pred, cs) {
                            let all = t.1.need.insert(goal(p));
                            prefix_trans(d, e, t.0);
                            assert(gives(env.ops, p, goal(p), all, t.2 + 1)) by {
                                assert forall|g: nat| g >= t.2 + 1 implies #[trigger] reach_goal(
                                    env.ops,
                                    g,
                                    p,
                                ) == Some((goal(p), all)) by {
                                    assert(find_way(
                                        env.ops,
                                        (g - 1) as nat,
                                        p,
                                        candidates(env.ops, p),
                                    ) == Some(t.1));
                                }
                            }
                            settle_from(
                                env.ops,
                                ren_pred(raw, d),
                                p,
                                r1.1,
                                r1.2,
                                goal(p),
                                all,
                                t.2 + 1,
                            );
                            assert(t.0.to_set() =~= d.to_set() + (r1.1 + all));
                            (t.0, r1.1 + all, max(r1.2, t.2 + 1))
                        } else {
                            nothing
                        }
                    },
                },
            }
        } else {
            nothing
        }
    }
}

/// Arguments settled and then the goal reached is the whole settled.
proof fn settle_from(
    ops: Seq<OpV>,
    raw: PredV,
    p: PredV,
    need: Set<Seq<char>>,
    f: nat,
    id: Seq<char>,
    more: Set<Seq<char>>,
    h: nat,
)
    requires
        p.entity == raw.entity,
        p.field == raw.field,
        p.value == raw.value,
        forall|g: nat|
            g >= f ==> #[trigger] settle_args(ops, g, raw.args) == Some((p.args, need)),
        gives(ops, p, id, more, h),
    ensures
        forall|g: nat|
            g >= max(f, h) ==> #[trigger] settle(ops, g, raw) == Some((id, need + more)),
{
    assert forall|g: nat| g >= max(f, h) implies #[trigger] settle(ops, g, raw) == Some(
        (id, need + more),
    ) by {
        assert(settle_args(ops, g, raw.args) == Some((p.args, need)));
        assert(reach_goal(ops, g, p) == Some((id, more)));
        assert(p == PredV { entity: raw.entity, args: p.args, field: raw.field, value: raw.value });
    }
}

/// A way with what came up before it.
pub open spec fn more(acc: Set<Seq<char>>, w: Option<Way>) -> Option<Way> {
    match w {
        None => None,
        Some(w) => Some(Way { need: acc + w.need, ..w }),
    }
}

proof fn candidates_promise(ops: Seq<OpV>, pred: PredV)
    ensures
        forall|x: OpV| #[trigger] candidates(ops, pred).contains(x) ==> x.post is Some,
    decreases ops.len(),
{
    if ops.len() > 0 {
        let rest = candidates(ops.drop_last(), pred);
        candidates_promise(ops.drop_last(), pred);
        crate::naming::insert_op_has(rest, ops.last());
        push_has(rest, ops.last());
    }
}

proof fn candidates_plain(strict: bool, ops: Seq<OpV>, pred: PredV)
    requires
        plain_ops(strict, ops),
    ensures
        plain_ops(strict, candidates(ops, pred)),
        forall|i: int|
            0 <= i < candidates(ops, pred).len() ==> (#[trigger] candidates(ops, pred)[i]).post
                is Some,
{
    let cs = candidates(ops, pred);
    candidates_promise(ops, pred);
    assert forall|i: int| 0 <= i < cs.len() implies (#[trigger] cs[i]).post is Some by {
        assert(cs.contains(cs[i]));
    }
    crate::naming::candidates_declared(ops, pred);
    assert forall|i: int| 0 <= i < cs.len() implies ((#[trigger] cs[i]).post matches Some(p)
        ==> grounded_pred(p, 0)) && plain_reqs(strict, cs[i].requires_) by {
        assert(cs.contains(cs[i]));
        let k = choose|k: int| 0 <= k < ops.len() && ops[k] == cs[i];
        assert(plain_reqs(strict, ops[k].requires_));
    }
}

proof fn dens_grow(xs: Seq<Seq<char>>, d: Seq<Seq<char>>, e: Seq<Seq<char>>)
    requires
        forall|x: Seq<char>| #[trigger] xs.contains(x) ==> named(x, d.len()),
        d.is_prefix_of(e),
    ensures
        dens(xs, e) == dens(xs, d),
{
    assert forall|i: int| 0 <= i < xs.len() implies dens(xs, e)[i] == dens(xs, d)[i] by {
        assert(xs.contains(xs[i]));
        den_grows(xs[i], d, e);
    }
    assert(dens(xs, e) =~= dens(xs, d));
}

proof fn requirements_settle(
    strict: bool,
    env: Env,
    fuel: nat,
    st: State,
    d: Seq<Seq<char>>,
    reqs: Seq<PredV>,
    b: Seq<(Seq<char>, ValV)>,
) -> (r: (Seq<Seq<char>>, Set<Seq<char>>, nat))
    requires
        known(strict, env, st, d),
        plain_ops(strict, env.ops),
        plain_reqs(strict, reqs),
        grounded_args(b, d.len()),
        clear_binds(strict, b),
    ensures
        requirements(env, fuel, st, reqs, b) matches Ok((st1, deps)) ==> {
            &&& known(strict, env, st1, r.0)
            &&& d.is_prefix_of(r.0)
            &&& forall|x: Seq<char>| #[trigger] deps.contains(x) ==> named(x, r.0.len())
            &&& forall|g: nat|
                g >= r.2 ==> #[trigger] settle_all(env.ops, g, reqs, ren_args(b, d)) == Some(
                    (dens(deps, r.0), r.1),
                )
            &&& r.0.to_set() == d.to_set() + r.1
        },
    decreases 3 * fuel + 2, reqs, 0nat,
{
    let none = Set::<Seq<char>>::empty();
    let rb = ren_args(b, d);
    if reqs.len() == 0 {
        assert(dens(Seq::empty(), d) =~= Seq::<Seq<char>>::empty());
        assert(d.to_set() + none =~= d.to_set());
        (d, none, 0nat)
    } else {
        let front = reqs.drop_last();
        let req = reqs[reqs.len() - 1];
        assert(plain_reqs(strict, front));
        assert(grounded_pred(req, 0) && clear_pred(strict, req));
        let r1 = requirements_settle(strict, env, fuel, st, d, front, b);
        if let Ok((st1, deps)) = requirements(env, fuel, st, front, b) {
            let e = r1.0;
            let q = subst_pred(req, b);
            grounded_pred_mono(req, 0, d.len());
            subst_args_grounded(req.args, b, d.len());
            subst_grounded(req.value, b, d.len());
            subst_pred_clear(strict, req, b);
            ren_subst_pred(req, b, d);
            ren_pred_grows(q, d, e);
            grounded_pred_mono(q, d.len(), e.len());
            ren_small(env.ops, q, q, e);
            ren_refs_in(q.args, e);
            refs_in_named(q.args, e.len());
            let rq = ren_pred(q, e);
            assert(subst_pred(req, rb) == rq);
            if settled(q) {
                let more = deps + refs_in(q.args);
                dens_add(deps, refs_in(q.args), e);
                add_has(deps, refs_in(q.args));
                assert forall|g: nat| g >= r1.2 implies #[trigger] settle_all(
                    env.ops,
                    g,
                    reqs,
                    rb,
                ) == Some((dens(more, e), r1.1)) by {
                    assert(settle_all(env.ops, g, front, rb) == Some((dens(deps, e), r1.1)));
                }
                r1
            } else {
                let r2 = satisfy_settles(strict, env, fuel, st1, e, q);
                if let Ok((st2, id)) = satisfy(env, fuel, st1, q) {
                    let z = r2.0;
                    prefix_trans(d, e, z);
                    dens_grow(deps, e, z);
                    push_has(deps, id);
                    assert(dens(deps.push(id), z) =~= dens(deps, z).push(den(z, id)));
                    assert forall|x: Seq<char>| #[trigger] deps.push(id).contains(x) implies named(
                        x,
                        z.len(),
                    ) by {
                        if deps.contains(x) {
                            named_mono(x, e.len(), z.len());
                        }
                    }
                    let f = max(r1.2, r2.2);
                    assert forall|g: nat| g >= f implies #[trigger] settle_all(
                        env.ops,
                        g,
                        reqs,
                        rb,
                    ) == Some((dens(deps.push(id), z), r1.1 + r2.1)) by {
                        assert(settle_all(env.ops, g, front, rb) == Some((dens(deps, e), r1.1)));
                        assert(settle(env.ops, g, rq) == Some((den(z, id), r2.1)));
                    }
                    assert(z.to_set() =~= d.to_set() + (r1.1 + r2.1));
                    (z, r1.1 + r2.1, f)
                } else {
                    r1
                }
            }
        } else {
            r1
        }
    }
}

#[verifier::spinoff_prover]
#[verifier::rlimit(80)]
proof fn try_ops_settles(
    strict: bool,
    env: Env,
    fuel: nat,
    st: State,
    d0: Seq<Seq<char>>,
    d: Seq<Seq<char>>,
    acc: Set<Seq<char>>,
    f: nat,
    pred: PredV,
    cs: Seq<OpV>,
) -> (r: (Seq<Seq<char>>, Way, nat))
    requires
        known(strict, env, st, d),
        plain_ops(strict, env.ops),
        plain_ops(strict, cs),
        d0.is_prefix_of(d),
        fine(strict, pred, d0.len()),
        !d0.to_set().contains(goal(ren_pred(pred, d0))),
        d.to_set() == d0.to_set() + acc,
        known_by_ref(pred) is None,
        forall|i: int| 0 <= i < cs.len() ==> (#[trigger] cs[i]).post is Some,
        forall|g: nat|
            g >= f ==> #[trigger] find_way(
                env.ops,
                g,
                ren_pred(pred, d0),
                candidates(env.ops, ren_pred(pred, d0)),
            ) == more(acc, find_way(env.ops, g, ren_pred(pred, d0), cs)),
    ensures
        try_ops(env, fuel, st, pred, cs) matches Ok((st1, id)) ==> {
            &&& known(strict, env, st1, r.0)
            &&& d.is_prefix_of(r.0)
            &&& named(id, r.0.len())
            &&& den(r.0, id) == goal(ren_pred(pred, d0))
            &&& leads_so(env.ops, ren_pred(pred, d0), r.1, r.2)
            &&& !r.1.need.contains(goal(ren_pred(pred, d0)))
            &&& r.0.to_set() == d0.to_set() + r.1.need.insert(goal(ren_pred(pred, d0)))
        },
    decreases 3 * fuel + 3, cs, 0nat,
{
    let p = ren_pred(pred, d0);
    let none = Set::<Seq<char>>::empty();
    if cs.len() == 0 {
        (d, arbitrary(), 0nat)
    } else {
        let op = cs[0];
        let post = op.post->0;
        assert(cs[0].post is Some);
        assert(grounded_pred(post, 0) && plain_reqs(strict, op.requires_));
        grounded_pred_mono(pred, d0.len(), d.len());
        ren_pred_grows(pred, d0, d);
        ren_small(env.ops, post, pred, d);
        let look = by_id(post, pred);
        let ex = as_exists_spec(pred);
        fixed_names();
        let r1 = if look {
            satisfy_settles(strict, env, fuel, st, d, ex)
        } else {
            (d, none, 0nat)
        };
        let found: Result<(State, Option<Seq<char>>), crate::compile_model::CompileErrorV> =
            if look {
            match satisfy(env, fuel, st, ex) {
                Err(e) => Err(e),
                Ok((st1, t)) => Ok((st1, Some(t))),
            }
        } else {
            Ok((st, None))
        };
        if let Ok((st1, target)) = found {
            let e = r1.0;
            let need = r1.1;
            assert(d.is_prefix_of(e));
            assert(e.to_set() =~= d.to_set() + need);
            prefix_trans(d0, d, e);
            grounded_pred_mono(pred, d0.len(), e.len());
            ren_pred_grows(pred, d0, e);
            ren_small(env.ops, post, pred, e);
            let want = to_unify(post, pred, target);
            let rt: Option<Seq<char>> = match target {
                Some(t) => Some(den(e, t)),
                None => None,
            };
            if let Some(t) = target {
                let args = seq![("id"@, ValV::Ref(t, "id"@))];
                named_clear(t, e.len());
                assert(grounded(args[0].1, e.len()) && clear(strict, args[0].1));
                assert(grounded_args(args, e.len()) && clear_args(strict, args));
                ren_to_unify(post, pred, t, e);
            }
            assert(grounded_pred(want, e.len()));
            assert(clear_args(strict, want.args) && clear(strict, want.value));
            assert(to_unify(post, p, rt) == ren_pred(want, e));
            ren_unify(post, want, e);
            unify_grounded(post, want, e.len());
            unify_clear(strict, post, want);
            // What looking gives, for every fuel that is enough.
            assert forall|g: nat| g >= r1.2 implies looked(
                env.ops,
                #[trigger] settle(env.ops, g, as_exists_spec(p)),
                look,
                rt,
                need,
            ) by {
                if look {
                    assert(settle(env.ops, g, ren_pred(ex, d)) == Some((den(e, target->0), need)));
                }
            }
            match unify(post, want) {
                None => {
                    let rest = cs.drop_first();
                    assert(plain_ops(strict, rest)) by {
                        assert forall|i: int| 0 <= i < rest.len() implies ((
                        #[trigger] rest[i]).post matches Some(p) ==> grounded_pred(p, 0))
                            && plain_reqs(strict, rest[i].requires_) by {
                            assert(rest[i] == cs[i + 1]);
                        }
                    }
                    assert forall|i: int| 0 <= i < rest.len() implies (#[trigger] rest[i]).post
                        is Some by {
                        assert(rest[i] == cs[i + 1]);
                    }
                    let h = max(f, r1.2);
                    assert forall|g: nat| g >= h implies #[trigger] find_way(
                        env.ops,
                        g,
                        p,
                        candidates(env.ops, p),
                    ) == more(acc + need, find_way(env.ops, g, p, rest)) by {
                        assert(looked(
                            env.ops,
                            settle(env.ops, g, as_exists_spec(p)),
                            look,
                            rt,
                            need,
                        ));
                        if let Some(w) = find_way(env.ops, g, p, rest) {
                            assert(acc + (need + w.need) =~= (acc + need) + w.need);
                        }
                        assert(find_way(env.ops, g, p, cs) == more(
                            need,
                            find_way(env.ops, g, p, rest),
                        ));
                    }
                    assert(e.to_set() =~= d0.to_set() + (acc + need));
                    let r2 = try_ops_settles(
                        strict,
                        env,
                        fuel,
                        st1,
                        d0,
                        e,
                        acc + need,
                        h,
                        pred,
                        rest,
                    );
                    if try_ops(env, fuel, st1, pred, rest) is Ok {
                        prefix_trans(d, e, r2.0);
                    }
                    r2
                },
                Some(b) => {
                    let r2 = requirements_settle(strict, env, fuel, st1, e, op.requires_, b);
                    if let Ok((st2, deps)) = requirements(env, fuel, st1, op.requires_, b) {
                        let z = r2.0;
                        let rb = ren_args(b, e);
                        let w = Way {
                            op,
                            b: rb,
                            deps: dens(deps, z) + refs_in(rb),
                            need: acc + (need + r2.1),
                        };
                        let h = max(f, max(r1.2, r2.2));
                        assert(leads_so(env.ops, p, w, h)) by {
                            assert forall|g: nat| g >= h implies #[trigger] find_way(
                                env.ops,
                                g,
                                p,
                                candidates(env.ops, p),
                            ) == Some(w) by {
                                assert(looked(
                                    env.ops,
                                    settle(env.ops, g, as_exists_spec(p)),
                                    look,
                                    rt,
                                    need,
                                ));
                                assert(settle_all(env.ops, g, op.requires_, rb) == Some(
                                    (dens(deps, z), r2.1),
                                ));
                                assert(find_way(env.ops, g, p, cs) == Some(
                                    Way {
                                        op,
                                        b: rb,
                                        deps: dens(deps, z) + refs_in(rb),
                                        need: need + r2.1,
                                    },
                                ));
                            }
                        }
                        prefix_trans(d, e, z);
                        prefix_trans(d0, e, z);
                        assert(z.to_set() =~= d0.to_set() + w.need);
                        grounded_pred_mono(pred, d0.len(), z.len());
                        ren_pred_grows(pred, d0, z);
                        grounded_args_mono(b, e.len(), z.len());
                        ren_args_grows(b, e, z);
                        if let Ok((st3, id)) = build(env, fuel, st1, op, b, pred) {
                            node_is_new(strict, env, st2, z, d0, pred, w, h);
                            let args = all_args(op, b)->Ok_0;
                            let surface = node_surface(op, env.opts.surfaces)->Ok_0;
                            assert(st3 == made(env, st2, op, b, pred, args, surface, deps));
                            let out = make_known(strict, env, st2, z, op, b, pred, deps, w, h, st3, id);
                            prefix_trans(d, z, out);
                            assert(out.to_set() =~= d0.to_set() + w.need.insert(goal(p)));
                            (out, w, h)
                        } else {
                            (z, w, h)
                        }
                    } else {
                        (d, arbitrary(), 0nat)
                    }
                },
            }
        } else {
            (d, arbitrary(), 0nat)
        }
    }
}

/// What looking for the entity gives, where it is looked for.
pub open spec fn looked(
    ops: Seq<OpV>,
    s: Option<(Seq<char>, Set<Seq<char>>)>,
    look: bool,
    target: Option<Seq<char>>,
    need: Set<Seq<char>>,
) -> bool {
    if look {
        target matches Some(t) && s == Some((t, need))
    } else {
        target is None && need == Set::<Seq<char>>::empty()
    }
}

/// The node of a goal that was not noted is not there yet, nor is it needed on the way.
proof fn node_is_new(
    strict: bool,
    env: Env,
    st: State,
    z: Seq<Seq<char>>,
    d0: Seq<Seq<char>>,
    pred: PredV,
    w: Way,
    h: nat,
)
    requires
        known(strict, env, st, z),
        fine(strict, pred, z.len()),
        leads_so(env.ops, ren_pred(pred, z), w, h),
        !d0.to_set().contains(goal(ren_pred(pred, z))),
        z.to_set() == d0.to_set() + w.need,
    ensures
        !z.contains(goal(ren_pred(pred, z))),
        !w.need.contains(goal(ren_pred(pred, z))),
{
    let p = ren_pred(pred, z);
    if z.contains(goal(p)) {
        let i = choose|i: int| 0 <= i < z.len() && z[i] == goal(p);
        assert(sourced(strict, env, st, z, i));
        let (q, b, v, f) = choose|q: PredV, b: Seq<(Seq<char>, ValV)>, v: Way, f: nat|
            node_from(strict, env, st, z, i, q, b, v, f);
        goals_differ(ren_pred(q, z), p);
        let g = max(f, h);
        assert(find_way(env.ops, g, p, candidates(env.ops, p)) == Some(v));
        assert(find_way(env.ops, g, p, candidates(env.ops, p)) == Some(w));
        assert(z.to_set().contains(goal(p)));
    }
    if w.need.contains(goal(p)) {
        assert(z.to_set().contains(goal(p)));
        assert(z.contains(goal(p)));
    }
}

/// Making the node of a goal and noting it down keeps a state known.
#[verifier::spinoff_prover]
#[verifier::rlimit(60)]
proof fn make_known(
    strict: bool,
    env: Env,
    st: State,
    z: Seq<Seq<char>>,
    op: OpV,
    b: Seq<(Seq<char>, ValV)>,
    pred: PredV,
    deps: Seq<Seq<char>>,
    w: Way,
    h: nat,
    st3: State,
    id: Seq<char>,
) -> (e: Seq<Seq<char>>)
    requires
        known(strict, env, st, z),
        fine(strict, pred, z.len()),
        grounded_args(b, z.len()),
        clear_binds(strict, b),
        forall|x: Seq<char>| #[trigger] deps.contains(x) ==> named(x, z.len()),
        w.op == op,
        w.b == ren_args(b, z),
        w.deps == dens(deps, z) + refs_in(w.b),
        w.need.subset_of(z.to_set()),
        leads_so(env.ops, ren_pred(pred, z), w, h),
        known_by_ref(pred) is None,
        !z.contains(goal(ren_pred(pred, z))),
        !w.need.contains(goal(ren_pred(pred, z))),
        id == node_name(st.nodes.len()),
        exists|args: Seq<(Seq<char>, crate::plan::ArgV)>, surface: Seq<char>|
            node_surface(op, env.opts.surfaces) == Ok::<
                Seq<char>,
                crate::compile_model::CompileErrorV,
            >(surface) && st3 == made(env, st, op, b, pred, args, surface, deps),
    ensures
        known(strict, env, remember(st3, pred_text(pred), id), e),
        e == z.push(goal(ren_pred(pred, z))),
        z.is_prefix_of(e),
        named(id, e.len()),
        den(e, id) == goal(ren_pred(pred, z)),
        e.to_set() == z.to_set().insert(goal(ren_pred(pred, z))),
{
    let p = ren_pred(pred, z);
    let e = z.push(goal(p));
    let n = z.len();
    let (args, surface) = choose|
        args: Seq<(Seq<char>, crate::plan::ArgV)>,
        surface: Seq<char>,
    |
        node_surface(op, env.opts.surfaces) == Ok::<
            Seq<char>,
            crate::compile_model::CompileErrorV,
        >(surface) && st3 == made(env, st, op, b, pred, args, surface, deps);
    let node = make_node(env, st, op, b, pred, args, surface);
    let all = deps + refs_in(b);
    let edges = dep_edges(sort_dedup(all), id);
    let st4 = remember(st3, pred_text(pred), id);
    assert(z.is_prefix_of(e)) by {
        assert(z =~= e.subrange(0, z.len() as int));
    }
    assert(e.to_set() =~= z.to_set().insert(goal(p))) by {
        push_has(z, goal(p));
        assert forall|x: Seq<char>| #[trigger] e.to_set().contains(x) <==> z.to_set().insert(
            goal(p),
        ).contains(x) by {
            assert(e.contains(x) <==> z.contains(x) || x == goal(p));
        }
    }
    den_at(e, n);
    ren_pred_grows(pred, z, e);
    ren_args_grows(b, z, e);
    dep_edges_are(sort_dedup(all), id);
    sort_dedup_ok(all);
    add_has(deps, refs_in(b));
    refs_in_named(b, n);
    ren_refs_in(b, z);
    add_has(st.deps, edges);
    let key = pred_text(pred);
    let need = w.need.insert(goal(p));
    // No dependency names the new node.
    assert forall|x: Seq<char>| #[trigger] all.contains(x) implies x != id by {
        let k = choose|k: nat| k < n && x == #[trigger] node_name(k);
        crate::compile_laws::node_names_differ(k, n);
    }
    assert forall|i: int| 0 <= i < n implies (#[trigger] st.nodes[i]).id != id by {
        crate::compile_laws::node_names_differ(i as nat, n);
    }
    // The new node.
    assert(node_from(strict, env, st4, e, n as int, pred, b, w, h)) by {
        assert(st4.nodes[n as int] == node);
        assert(st4.canon.take(n as int) =~= st.canon);
        assert(st4.canon[n as int] == (id, content(st, op, pred)));
        assert(last_of(st4.memo, key) == Some(id));
        dens_grow(deps, z, e);
        assert forall|x: Seq<char>| #[trigger] st4.deps.contains((x, node.id)) <==> named(x, n)
            && w.deps.contains(den(e, x)) by {
            new_deps_are(st, z, e, deps, b, id, w, x);
        }
        assert forall|y: Seq<char>| #[trigger] w.deps.contains(y) implies exists|k: int|
            0 <= k < n && #[trigger] e[k] == y by {
            add_has(dens(deps, z), dens(refs_in(b), z));
            let x = dens_from(deps, refs_in(b), z, y);
            let k = choose|k: nat| k < n && x == #[trigger] node_name(k);
            den_at(z, k);
            assert(e[k as int] == y);
        }
    }
    // The old ones.
    assert forall|i: int| 0 <= i < e.len() implies #[trigger] sourced(strict, env, st4, e, i) by {
        if i < n {
            assert(z[i] == e[i]);
            assert(sourced(strict, env, st, z, i));
            let (q, c, v, f) = choose|q: PredV, c: Seq<(Seq<char>, ValV)>, v: Way, f: nat|
                node_from(strict, env, st, z, i, q, c, v, f);
            assert(st4.canon.take(i) =~= st.canon.take(i));
            assert(st4.memo.drop_last() =~= st.memo);
            assert forall|x: Seq<char>| #[trigger] st4.deps.contains((x, st.nodes[i].id))
                <==> st.deps.contains((x, st.nodes[i].id)) by {
                if edges.contains((x, st.nodes[i].id)) {
                    let k = choose|k: int|
                        0 <= k < edges.len() && edges[k] == (x, st.nodes[i].id);
                    assert(edges[k].1 == id);
                }
            }
            node_from_grows(strict, env, st, z, st4, e, i, q, c, v, f);
            assert(node_from(strict, env, st4, e, i, q, c, v, f));
        } else {
            assert(node_from(strict, env, st4, e, i, pred, b, w, h));
        }
    }
    // What is noted.
    assert(gives(env.ops, p, goal(p), need, h + 1)) by {
        ren_small(env.ops, pred, pred, z);
        assert forall|g: nat| g >= h + 1 implies #[trigger] reach_goal(env.ops, g, p) == Some(
            (goal(p), need),
        ) by {
            assert(find_way(env.ops, (g - 1) as nat, p, candidates(env.ops, p)) == Some(w));
        }
    }
    grounded_pred_mono(pred, n, e.len());
    assert(need.subset_of(e.to_set()));
    assert(note_ok(strict, env.ops, e, key, id, pred, need, h + 1));
    assert forall|k: Seq<char>, i: Seq<char>| #[trigger] noted(st4, k, i) implies named(i, e.len())
        && exists|q: PredV, m: Set<Seq<char>>, f: nat|
        note_ok(strict, env.ops, e, k, i, q, m, f) by {
        assert(st4.memo.drop_last() =~= st.memo);
        if k == key {
            assert(i == id);
            assert(note_ok(strict, env.ops, e, k, i, pred, need, h + 1));
        } else {
            assert(noted(st, k, i));
            let (q, m, f) = choose|q: PredV, m: Set<Seq<char>>, f: nat|
                note_ok(strict, env.ops, z, k, i, q, m, f);
            note_grows(strict, env.ops, z, e, k, i, q, m, f);
            assert(note_ok(strict, env.ops, e, k, i, q, m, f));
        }
    }
    // Names and ends of edges.
    assert(e.no_duplicates()) by {
        assert forall|i: int, j: int| 0 <= i < e.len() && 0 <= j < e.len() && i != j implies e[i]
            != e[j] by {
            if i == n {
                assert(z.contains(z[j]));
            } else if j == n {
                assert(z.contains(z[i]));
            }
        }
    }
    assert forall|k: int| 0 <= k < st4.deps.len() implies named((#[trigger] st4.deps[k]).0, e.len())
        && named(st4.deps[k].1, e.len()) by {
        if k < st.deps.len() {
            assert(st4.deps[k] == st.deps[k]);
            named_mono(st.deps[k].0, n, e.len());
            named_mono(st.deps[k].1, n, e.len());
        } else {
            let x = edges[k - st.deps.len()];
            assert(st4.deps[k] == x);
            assert(all.contains(x.0));
            named_mono(x.0, n, e.len());
        }
    }
    e
}

/// The state after a node was made.
pub open spec fn made(
    env: Env,
    st: State,
    op: OpV,
    b: Seq<(Seq<char>, ValV)>,
    want: PredV,
    args: Seq<(Seq<char>, crate::plan::ArgV)>,
    surface: Seq<char>,
    deps: Seq<Seq<char>>,
) -> State {
    let node = make_node(env, st, op, b, want, args, surface);
    State {
        nodes: st.nodes.push(node),
        memo: st.memo,
        deps: st.deps + dep_edges(sort_dedup(deps + refs_in(b)), node.id),
        canon: st.canon.push((node.id, content(st, op, want))),
    }
}

proof fn dep_edges_are(deps: Seq<Seq<char>>, id: Seq<char>)
    ensures
        forall|x: Seq<char>, y: Seq<char>| #[trigger]
            dep_edges(deps, id).contains((x, y)) <==> y == id && x != id && deps.contains(x),
        forall|i: int|
            0 <= i < dep_edges(deps, id).len() ==> (#[trigger] dep_edges(deps, id)[i]).1 == id
                && deps.contains(dep_edges(deps, id)[i].0),
    decreases deps.len(),
{
    if deps.len() > 0 {
        let front = deps.drop_last();
        dep_edges_are(front, id);
        let a = dep_edges(front, id);
        let l = deps.last();
        push_has(front, l);
        assert(front.push(l) =~= deps);
        push_has(a, (l, id));
        assert forall|x: Seq<char>, y: Seq<char>| #[trigger]
            dep_edges(deps, id).contains((x, y)) <==> y == id && x != id && deps.contains(x) by {
            assert(a.contains((x, y)) <==> y == id && x != id && front.contains(x));
            assert(deps.contains(x) <==> front.contains(x) || x == l);
        }
        assert forall|i: int| 0 <= i < dep_edges(deps, id).len() implies (#[trigger] dep_edges(
            deps,
            id,
        )[i]).1 == id && deps.contains(dep_edges(deps, id)[i].0) by {
            let e = dep_edges(deps, id)[i];
            assert(dep_edges(deps, id).contains((e.0, e.1)));
        }
    }
}

proof fn dens_has(xs: Seq<Seq<char>>, d: Seq<Seq<char>>, x: Seq<char>)
    requires
        d.no_duplicates(),
        named(x, d.len()),
        forall|y: Seq<char>| #[trigger] xs.contains(y) ==> named(y, d.len()),
    ensures
        dens(xs, d).contains(den(d, x)) <==> xs.contains(x),
{
    let ys = dens(xs, d);
    if xs.contains(x) {
        let i = choose|i: int| 0 <= i < xs.len() && xs[i] == x;
        assert(ys[i] == den(d, x));
    }
    if ys.contains(den(d, x)) {
        let i = choose|i: int| 0 <= i < ys.len() && ys[i] == den(d, x);
        assert(ys[i] == den(d, xs[i]));
        assert(xs.contains(xs[i]));
        crate::goals::den_tells(xs[i], x, d);
    }
}

proof fn dens_from(a: Seq<Seq<char>>, b: Seq<Seq<char>>, d: Seq<Seq<char>>, y: Seq<char>) -> (x: Seq<
    char,
>)
    requires
        dens(a, d).contains(y) || dens(b, d).contains(y),
        forall|x: Seq<char>| #[trigger] a.contains(x) ==> named(x, d.len()),
        forall|x: Seq<char>| #[trigger] b.contains(x) ==> named(x, d.len()),
    ensures
        named(x, d.len()),
        den(d, x) == y,
{
    if dens(a, d).contains(y) {
        let i = choose|i: int| 0 <= i < dens(a, d).len() && dens(a, d)[i] == y;
        assert(a.contains(a[i]));
        a[i]
    } else {
        let i = choose|i: int| 0 <= i < dens(b, d).len() && dens(b, d)[i] == y;
        assert(b.contains(b[i]));
        b[i]
    }
}

proof fn new_deps_are(
    st: State,
    z: Seq<Seq<char>>,
    e: Seq<Seq<char>>,
    deps: Seq<Seq<char>>,
    b: Seq<(Seq<char>, ValV)>,
    id: Seq<char>,
    w: Way,
    x: Seq<char>,
)
    requires
        z.no_duplicates(),
        z.is_prefix_of(e),
        id == node_name(z.len()),
        grounded_args(b, z.len()),
        w.b == ren_args(b, z),
        w.deps == dens(deps, z) + refs_in(w.b),
        forall|x: Seq<char>| #[trigger] deps.contains(x) ==> named(x, z.len()),
        forall|k: int| 0 <= k < st.deps.len() ==> named((#[trigger] st.deps[k]).1, z.len()),
    ensures
        (st.deps + dep_edges(sort_dedup(deps + refs_in(b)), id)).contains((x, id)) <==> named(
            x,
            z.len(),
        ) && w.deps.contains(den(e, x)),
{
    let all = deps + refs_in(b);
    let edges = dep_edges(sort_dedup(all), id);
    dep_edges_are(sort_dedup(all), id);
    sort_dedup_ok(all);
    add_has(deps, refs_in(b));
    add_has(st.deps, edges);
    refs_in_named(b, z.len());
    ren_refs_in(b, z);
    add_has(dens(deps, z), dens(refs_in(b), z));
    if st.deps.contains((x, id)) {
        let k = choose|k: int| 0 <= k < st.deps.len() && st.deps[k] == (x, id);
        assert(named(st.deps[k].1, z.len()));
        let j = choose|j: nat| j < z.len() && id == #[trigger] node_name(j);
        crate::compile_laws::node_names_differ(j, z.len());
    }
    assert(edges.contains((x, id)) <==> x != id && all.contains(x));
    if named(x, z.len()) {
        let j = choose|j: nat| j < z.len() && x == #[trigger] node_name(j);
        crate::compile_laws::node_names_differ(j, z.len());
        den_grows(x, z, e);
        dens_has(deps, z, x);
        dens_has(refs_in(b), z, x);
    }
}

// ---------- wants ----------

/// The goals that come up for predicates.
pub open spec fn settle_goals(ops: Seq<OpV>, fuel: nat, ps: Seq<PredV>) -> Option<Set<Seq<char>>>
    decreases ps.len(),
{
    if ps.len() == 0 {
        Some(Set::empty())
    } else {
        match settle_goals(ops, fuel, ps.drop_last()) {
            None => None,
            Some(need) => match settle(ops, fuel, ps.last()) {
                None => None,
                Some((_, more)) => Some(need + more),
            },
        }
    }
}

/// The goals that come up for a want.
pub open spec fn settle_want(ops: Seq<OpV>, fuel: nat, want: Seq<char>) -> Option<Set<Seq<char>>> {
    match parse_spec(want) {
        Ok(p) => settle_goals(ops, fuel, unroll_spec(p)),
        Err(_) => None,
    }
}

/// Every fuel from `f` on finds these goals for a want.
pub open spec fn want_gives(
    ops: Seq<OpV>,
    want: Seq<char>,
    need: Set<Seq<char>>,
    f: nat,
) -> bool {
    forall|g: nat| g >= f ==> #[trigger] settle_want(ops, g, want) == Some(need)
}

/// Whether a goal comes up for a want.
pub open spec fn comes_up(ops: Seq<OpV>, want: Seq<char>, x: Seq<char>) -> bool {
    exists|need: Set<Seq<char>>, f: nat| #[trigger]
        want_gives(ops, want, need, f) && need.contains(x)
}

/// Wants that refer to no node by its name and, where `strict`, hold no string written like the
/// product of one.
pub open spec fn plain_wants(strict: bool, wants: Seq<Seq<char>>) -> bool {
    forall|i: int| 0 <= i < wants.len() ==> plain_want(strict, #[trigger] wants[i])
}

pub open spec fn plain_want(strict: bool, want: Seq<char>) -> bool {
    parse_spec(want) matches Ok(p) ==> grounded_pred(p, 0) && clear_pred(strict, p)
}

proof fn satisfy_all_settles(
    strict: bool,
    env: Env,
    fuel: nat,
    st: State,
    d: Seq<Seq<char>>,
    ps: Seq<PredV>,
) -> (r: (Seq<Seq<char>>, Set<Seq<char>>, nat))
    requires
        known(strict, env, st, d),
        plain_ops(strict, env.ops),
        forall|i: int| 0 <= i < ps.len() ==> fine(strict, #[trigger] ps[i], 0),
    ensures
        satisfy_all(env, fuel, st, ps) matches Ok(st1) ==> {
            &&& known(strict, env, st1, r.0)
            &&& forall|g: nat|
                g >= r.2 ==> #[trigger] settle_goals(env.ops, g, ps) == Some(r.1)
            &&& r.0.to_set() == d.to_set() + r.1
        },
    decreases ps.len(),
{
    let none = Set::<Seq<char>>::empty();
    if ps.len() == 0 {
        assert(d.to_set() + none =~= d.to_set());
        (d, none, 0nat)
    } else {
        let front = ps.drop_last();
        let p = ps[ps.len() - 1];
        assert(fine(strict, p, 0));
        assert forall|i: int| 0 <= i < front.len() implies fine(strict, #[trigger] front[i], 0) by {
            assert(front[i] == ps[i]);
        }
        let r1 = satisfy_all_settles(strict, env, fuel, st, d, front);
        if let Ok(st1) = satisfy_all(env, fuel, st, front) {
            grounded_pred_mono(p, 0, r1.0.len());
            ren_pred_none(p, r1.0);
            let r2 = satisfy_settles(strict, env, fuel, st1, r1.0, p);
            if let Ok((st2, id)) = satisfy(env, fuel, st1, p) {
                let f = max(r1.2, r2.2);
                assert forall|g: nat| g >= f implies #[trigger] settle_goals(env.ops, g, ps)
                    == Some(r1.1 + r2.1) by {
                    assert(settle_goals(env.ops, g, front) == Some(r1.1));
                    assert(settle(env.ops, g, p) == Some((den(r2.0, id), r2.1)));
                }
                assert(r2.0.to_set() =~= d.to_set() + (r1.1 + r2.1));
                (r2.0, r1.1 + r2.1, f)
            } else {
                r1
            }
        } else {
            r1
        }
    }
}

/// The nodes of a state are exactly the goals that come up for its wants.
pub proof fn satisfy_wants_settles(strict: bool, env: Env, fuel: nat, wants: Seq<Seq<char>>) -> (d: Seq<
    Seq<char>,
>)
    requires
        plain_ops(strict, env.ops),
        plain_wants(strict, wants),
    ensures
        satisfy_wants(env, fuel, wants) matches Ok(st) ==> known(strict, env, st, d) && forall|
            x: Seq<char>,
        | #[trigger]
            d.contains(x) <==> exists|i: int|
            0 <= i < wants.len() && comes_up(env.ops, #[trigger] wants[i], x),
    decreases wants.len(),
{
    if wants.len() == 0 {
        let st = satisfy_wants(env, fuel, wants)->Ok_0;
        let none = Seq::<Seq<char>>::empty();
        assert(known(strict, env, st, none));
        none
    } else {
        let front = wants.drop_last();
        let want = wants[wants.len() - 1];
        assert(plain_want(strict, want));
        assert(plain_wants(strict, front)) by {
            assert forall|i: int| 0 <= i < front.len() implies plain_want(strict, #[trigger] front[i]) by {
                assert(front[i] == wants[i]);
            }
        }
        let d = satisfy_wants_settles(strict, env, fuel, front);
        if let Ok(st) = satisfy_wants(env, fuel, front) {
            if let Ok(p) = parse_spec(want) {
                unroll_grounded(p, 0);
                unroll_clear(strict, p);
                let r = satisfy_all_settles(strict, env, fuel, st, d, unroll_spec(p));
                if let Ok(st1) = satisfy_all(env, fuel, st, unroll_spec(p)) {
                    assert(want_gives(env.ops, want, r.1, r.2)) by {
                        assert forall|g: nat| g >= r.2 implies #[trigger] settle_want(
                            env.ops,
                            g,
                            want,
                        ) == Some(r.1) by {
                            assert(settle_goals(env.ops, g, unroll_spec(p)) == Some(r.1));
                        }
                    }
                    assert forall|x: Seq<char>| #[trigger] r.0.contains(x) <==> exists|i: int|
                        0 <= i < wants.len() && comes_up(env.ops, #[trigger] wants[i], x) by {
                        assert(r.0.contains(x) <==> r.0.to_set().contains(x));
                        assert(d.contains(x) <==> d.to_set().contains(x));
                        if d.contains(x) {
                            let i = choose|i: int|
                                0 <= i < front.len() && comes_up(env.ops, #[trigger] front[i], x);
                            assert(comes_up(env.ops, wants[i], x));
                        }
                        if r.1.contains(x) {
                            assert(comes_up(env.ops, wants[wants.len() - 1], x));
                        }
                        if exists|i: int|
                            0 <= i < wants.len() && comes_up(env.ops, #[trigger] wants[i], x) {
                            let i = choose|i: int|
                                0 <= i < wants.len() && comes_up(env.ops, #[trigger] wants[i], x);
                            if i < front.len() {
                                assert(comes_up(env.ops, front[i], x));
                            } else {
                                let (need, f) = choose|need: Set<Seq<char>>, f: nat| #[trigger]
                                    want_gives(env.ops, want, need, f) && need.contains(x);
                                let g = max(f, r.2);
                                assert(settle_want(env.ops, g, want) == Some(need));
                                assert(settle_want(env.ops, g, want) == Some(r.1));
                            }
                        }
                    }
                    r.0
                } else {
                    d
                }
            } else {
                d
            }
        } else {
            d
        }
    }
}

} // verus!
