//! Nodes by what they are for.
//!
//! A node's name says only when the node was made. Here a node is named by its goal instead, the
//! predicate that it makes true, in which every other node is again named by its goal. Such names
//! do not depend on the order in which goals come up.

use crate::code::{code, code_tells, pred_tree, pred_tree_tells};
use crate::compile_laws::node_names_differ;
use crate::compile_model::{
    by_id, candidate, candidates, covers, entity_want, known_by_ref, literal_id, node_name,
    refs_in, refs_in_list, refs_in_val, settled, to_unify, unify, unify_args, unify_list,
    unify_val,
};
use crate::naming::{
    grounded, grounded_args, grounded_list, grounded_lookup, grounded_mono, grounded_pred, named,
    unify_args_grounded, unify_list_grounded, unify_val_grounded,
};
use crate::pred::{as_exists_spec, lookup, PredV, ValV};
use crate::pred_unroll::{in_place, subst, subst_args, subst_list, subst_pred};
use crate::world::OpV;
use vstd::prelude::*;

verus! {

/// The name of a node by its goal.
pub open spec fn goal(p: PredV) -> Seq<char> {
    code(pred_tree(p))
}

/// Different goals have different names.
pub proof fn goals_differ(p: PredV, q: PredV)
    requires
        goal(p) == goal(q),
    ensures
        p == q,
{
    code_tells(pred_tree(p), pred_tree(q));
    pred_tree_tells(p, q);
}

// ---------- renaming ----------

/// The other name of a node, `d` giving it by the node's place.
pub open spec fn den(d: Seq<Seq<char>>, x: Seq<char>) -> Seq<char> {
    if named(x, d.len()) {
        d[(choose|k: nat| k < d.len() && x == #[trigger] node_name(k)) as int]
    } else {
        x
    }
}

pub proof fn den_at(d: Seq<Seq<char>>, k: nat)
    requires
        k < d.len(),
    ensures
        named(node_name(k), d.len()),
        den(d, node_name(k)) == d[k as int],
{
    let x = node_name(k);
    assert(named(x, d.len()));
    let j = choose|j: nat| j < d.len() && x == #[trigger] node_name(j);
    if j != k {
        node_names_differ(j, k);
    }
}

/// A value with its nodes renamed.
pub open spec fn ren(v: ValV, d: Seq<Seq<char>>) -> ValV
    decreases v,
{
    match v {
        ValV::Ref(x, f) => ValV::Ref(den(d, x), f),
        ValV::List(xs) => ValV::List(ren_list(xs, d)),
        ValV::Each(xs) => ValV::Each(ren_list(xs, d)),
        ValV::Entity(p) => ValV::Entity(
            Box::new(
                PredV {
                    entity: p.entity,
                    args: ren_args(p.args, d),
                    field: p.field,
                    value: ren(p.value, d),
                },
            ),
        ),
        ValV::All(x) => ValV::All(Box::new(ren(*x, d))),
        other => other,
    }
}

pub open spec fn ren_list(xs: Seq<ValV>, d: Seq<Seq<char>>) -> Seq<ValV>
    decreases xs,
{
    Seq::new(
        xs.len(),
        |j: int|
            if 0 <= j < xs.len() {
                ren(xs[j], d)
            } else {
                arbitrary()
            },
    )
}

pub open spec fn ren_args(xs: Seq<(Seq<char>, ValV)>, d: Seq<Seq<char>>) -> Seq<
    (Seq<char>, ValV),
>
    decreases xs,
{
    Seq::new(
        xs.len(),
        |j: int|
            if 0 <= j < xs.len() {
                (xs[j].0, ren(xs[j].1, d))
            } else {
                arbitrary()
            },
    )
}

pub open spec fn ren_pred(p: PredV, d: Seq<Seq<char>>) -> PredV {
    PredV { entity: p.entity, args: ren_args(p.args, d), field: p.field, value: ren(p.value, d) }
}

pub open spec fn ren_opt(o: Option<ValV>, d: Seq<Seq<char>>) -> Option<ValV> {
    match o {
        Some(v) => Some(ren(v, d)),
        None => None,
    }
}

/// Renaming does not see what was made later.
proof fn ren_grows(v: ValV, d: Seq<Seq<char>>, e: Seq<Seq<char>>)
    requires
        grounded(v, d.len()),
        d.is_prefix_of(e),
    ensures
        ren(v, e) == ren(v, d),
    decreases v, 0nat,
{
    match v {
        ValV::Ref(x, _) => den_grows(x, d, e),
        ValV::List(xs) => {
            ren_list_grows(xs, d, e);
            assert(ren(v, e) == ValV::List(ren_list(xs, e)));
        },
        ValV::Each(xs) => {
            ren_list_grows(xs, d, e);
            assert(ren(v, e) == ValV::Each(ren_list(xs, e)));
        },
        ValV::Entity(p) => {
            ren_args_grows(p.args, d, e);
            ren_grows(p.value, d, e);
        },
        ValV::All(x) => ren_grows(*x, d, e),
        _ => {},
    }
}

pub proof fn den_grows(x: Seq<char>, d: Seq<Seq<char>>, e: Seq<Seq<char>>)
    requires
        named(x, d.len()),
        d.is_prefix_of(e),
    ensures
        named(x, e.len()),
        den(e, x) == den(d, x),
{
    let k = choose|k: nat| k < d.len() && x == #[trigger] node_name(k);
    den_at(d, k);
    den_at(e, k);
}

pub proof fn ren_list_grows(xs: Seq<ValV>, d: Seq<Seq<char>>, e: Seq<Seq<char>>)
    requires
        grounded_list(xs, d.len()),
        d.is_prefix_of(e),
    ensures
        ren_list(xs, e) == ren_list(xs, d),
    decreases xs, 0nat,
{
    assert forall|j: int| 0 <= j < xs.len() implies ren_list(xs, e)[j] == ren_list(xs, d)[j] by {
        assert(grounded(xs[j], d.len()));
        ren_grows(xs[j], d, e);
    }
    assert(ren_list(xs, e) =~= ren_list(xs, d));
}

pub proof fn ren_args_grows(xs: Seq<(Seq<char>, ValV)>, d: Seq<Seq<char>>, e: Seq<Seq<char>>)
    requires
        grounded_args(xs, d.len()),
        d.is_prefix_of(e),
    ensures
        ren_args(xs, e) == ren_args(xs, d),
    decreases xs, 0nat,
{
    assert forall|j: int| 0 <= j < xs.len() implies ren_args(xs, e)[j] == ren_args(xs, d)[j] by {
        assert(grounded(xs[j].1, d.len()));
        ren_grows(xs[j].1, d, e);
    }
    assert(ren_args(xs, e) =~= ren_args(xs, d));
}

pub proof fn ren_pred_grows(p: PredV, d: Seq<Seq<char>>, e: Seq<Seq<char>>)
    requires
        grounded_pred(p, d.len()),
        d.is_prefix_of(e),
    ensures
        ren_pred(p, e) == ren_pred(p, d),
{
    ren_args_grows(p.args, d, e);
    ren_grows(p.value, d, e);
}

pub proof fn ren_val_grows(v: ValV, d: Seq<Seq<char>>, e: Seq<Seq<char>>)
    requires
        grounded(v, d.len()),
        d.is_prefix_of(e),
    ensures
        ren(v, e) == ren(v, d),
{
    ren_grows(v, d, e);
}

/// What refers to no node stays as it is.
proof fn ren_none(v: ValV, d: Seq<Seq<char>>)
    requires
        grounded(v, 0),
    ensures
        ren(v, d) == v,
    decreases v, 0nat,
{
    match v {
        ValV::List(xs) => {
            ren_list_none(xs, d);
            assert(ren(v, d) == ValV::List(ren_list(xs, d)));
        },
        ValV::Each(xs) => {
            ren_list_none(xs, d);
            assert(ren(v, d) == ValV::Each(ren_list(xs, d)));
        },
        ValV::Entity(p) => {
            ren_args_none(p.args, d);
            ren_none(p.value, d);
        },
        ValV::All(x) => ren_none(*x, d),
        _ => {},
    }
}

proof fn ren_list_none(xs: Seq<ValV>, d: Seq<Seq<char>>)
    requires
        grounded_list(xs, 0),
    ensures
        ren_list(xs, d) == xs,
    decreases xs, 0nat,
{
    assert forall|j: int| 0 <= j < xs.len() implies ren_list(xs, d)[j] == xs[j] by {
        assert(grounded(xs[j], 0));
        ren_none(xs[j], d);
    }
    assert(ren_list(xs, d) =~= xs);
}

proof fn ren_args_none(xs: Seq<(Seq<char>, ValV)>, d: Seq<Seq<char>>)
    requires
        grounded_args(xs, 0),
    ensures
        ren_args(xs, d) == xs,
    decreases xs, 0nat,
{
    assert forall|j: int| 0 <= j < xs.len() implies ren_args(xs, d)[j] == xs[j] by {
        assert(grounded(xs[j].1, 0));
        ren_none(xs[j].1, d);
    }
    assert(ren_args(xs, d) =~= xs);
}

pub proof fn ren_pred_none(p: PredV, d: Seq<Seq<char>>)
    requires
        grounded_pred(p, 0),
    ensures
        ren_pred(p, d) == p,
{
    ren_args_none(p.args, d);
    ren_none(p.value, d);
}

/// Renaming to different names can be undone.
pub proof fn ren_tells(v: ValV, w: ValV, d: Seq<Seq<char>>)
    requires
        grounded(v, d.len()),
        grounded(w, d.len()),
        d.no_duplicates(),
        ren(v, d) == ren(w, d),
    ensures
        v == w,
    decreases v, 0nat,
{
    match (v, w) {
        (ValV::Ref(x, _), ValV::Ref(y, _)) => den_tells(x, y, d),
        (ValV::List(xs), ValV::List(ys)) => {
            assert(ren(v, d) == ValV::List(ren_list(xs, d)));
            assert(ren(w, d) == ValV::List(ren_list(ys, d)));
            ren_list_tells(xs, ys, d);
        },
        (ValV::Each(xs), ValV::Each(ys)) => {
            assert(ren(v, d) == ValV::Each(ren_list(xs, d)));
            assert(ren(w, d) == ValV::Each(ren_list(ys, d)));
            ren_list_tells(xs, ys, d);
        },
        (ValV::Entity(p), ValV::Entity(q)) => {
            ren_args_tells(p.args, q.args, d);
            ren_tells(p.value, q.value, d);
        },
        (ValV::All(x), ValV::All(y)) => ren_tells(*x, *y, d),
        _ => {},
    }
}

pub proof fn den_tells(x: Seq<char>, y: Seq<char>, d: Seq<Seq<char>>)
    requires
        named(x, d.len()),
        named(y, d.len()),
        d.no_duplicates(),
        den(d, x) == den(d, y),
    ensures
        x == y,
{
    let j = choose|k: nat| k < d.len() && x == #[trigger] node_name(k);
    let k = choose|k: nat| k < d.len() && y == #[trigger] node_name(k);
    den_at(d, j);
    den_at(d, k);
}

proof fn ren_list_tells(xs: Seq<ValV>, ys: Seq<ValV>, d: Seq<Seq<char>>)
    requires
        grounded_list(xs, d.len()),
        grounded_list(ys, d.len()),
        d.no_duplicates(),
        ren_list(xs, d) == ren_list(ys, d),
    ensures
        xs == ys,
    decreases xs, 0nat,
{
    assert(ren_list(xs, d).len() == xs.len() && ren_list(ys, d).len() == ys.len());
    assert forall|j: int| 0 <= j < xs.len() implies xs[j] == ys[j] by {
        assert(grounded(xs[j], d.len()) && grounded(ys[j], d.len()));
        assert(ren_list(xs, d)[j] == ren(xs[j], d));
        assert(ren_list(ys, d)[j] == ren(ys[j], d));
        ren_tells(xs[j], ys[j], d);
    }
    assert(xs =~= ys);
}

proof fn ren_args_tells(xs: Seq<(Seq<char>, ValV)>, ys: Seq<(Seq<char>, ValV)>, d: Seq<Seq<char>>)
    requires
        grounded_args(xs, d.len()),
        grounded_args(ys, d.len()),
        d.no_duplicates(),
        ren_args(xs, d) == ren_args(ys, d),
    ensures
        xs == ys,
    decreases xs, 0nat,
{
    assert(ren_args(xs, d).len() == xs.len() && ren_args(ys, d).len() == ys.len());
    assert forall|j: int| 0 <= j < xs.len() implies xs[j] == ys[j] by {
        assert(grounded(xs[j].1, d.len()) && grounded(ys[j].1, d.len()));
        assert(ren_args(xs, d)[j] == (xs[j].0, ren(xs[j].1, d)));
        assert(ren_args(ys, d)[j] == (ys[j].0, ren(ys[j].1, d)));
        ren_tells(xs[j].1, ys[j].1, d);
    }
    assert(xs =~= ys);
}

pub proof fn ren_pred_tells(p: PredV, q: PredV, d: Seq<Seq<char>>)
    requires
        grounded_pred(p, d.len()),
        grounded_pred(q, d.len()),
        d.no_duplicates(),
        ren_pred(p, d) == ren_pred(q, d),
    ensures
        p == q,
{
    ren_args_tells(p.args, q.args, d);
    ren_tells(p.value, q.value, d);
}

// ---------- what compiling does with values, renamed ----------

pub proof fn ren_lookup(xs: Seq<(Seq<char>, ValV)>, k: Seq<char>, d: Seq<Seq<char>>)
    ensures
        lookup(ren_args(xs, d), k) == ren_opt(lookup(xs, k), d),
    decreases xs.len(),
{
    let ys = ren_args(xs, d);
    if xs.len() > 0 {
        assert(ys[0] == (xs[0].0, ren(xs[0].1, d)));
        assert(ys.drop_first() =~= ren_args(xs.drop_first(), d));
        ren_lookup(xs.drop_first(), k, d);
    }
}

/// A pattern without a node meets a renamed value exactly where it meets the value.
proof fn plain_meets(p: ValV, c: ValV, d: Seq<Seq<char>>)
    requires
        grounded(p, 0),
        grounded(c, d.len()),
        d.no_duplicates(),
    ensures
        (p == ren(c, d)) == (p == c),
{
    ren_none(p, d);
    if p == ren(c, d) {
        grounded_mono(p, 0, d.len());
        ren_tells(p, c, d);
    }
}

proof fn ren_push(b: Seq<(Seq<char>, ValV)>, x: (Seq<char>, ValV), d: Seq<Seq<char>>)
    ensures
        ren_args(b.push(x), d) == ren_args(b, d).push((x.0, ren(x.1, d))),
{
    assert(ren_args(b.push(x), d) =~= ren_args(b, d).push((x.0, ren(x.1, d))));
}

pub open spec fn ren_binds(o: Option<Seq<(Seq<char>, ValV)>>, d: Seq<Seq<char>>) -> Option<
    Seq<(Seq<char>, ValV)>,
> {
    match o {
        Some(b) => Some(ren_args(b, d)),
        None => None,
    }
}

proof fn ren_unify_val(p: ValV, c: ValV, b: Seq<(Seq<char>, ValV)>, d: Seq<Seq<char>>)
    requires
        grounded(p, 0),
        grounded(c, d.len()),
        grounded_args(b, d.len()),
        d.no_duplicates(),
    ensures
        unify_val(p, ren(c, d), ren_args(b, d)) == ren_binds(unify_val(p, c, b), d),
    decreases p, 0nat,
{
    match p {
        ValV::Var(n, _) => {
            ren_lookup(b, n, d);
            grounded_lookup(b, n, d.len());
            match lookup(b, n) {
                Some(x) => {
                    if ren(x, d) == ren(c, d) {
                        ren_tells(x, c, d);
                    }
                },
                None => {
                    ren_push(b, (n, c), d);
                },
            }
        },
        ValV::List(ps) => {
            if let ValV::List(cs) = c {
                assert(ren(c, d) == ValV::List(ren_list(cs, d)));
                assert(ren_list(cs, d).len() == cs.len());
                ren_unify_list(ps, cs, b, d);
            }
        },
        _ => {
            plain_meets(p, c, d);
        },
    }
}

proof fn ren_unify_list(
    ps: Seq<ValV>,
    cs: Seq<ValV>,
    b: Seq<(Seq<char>, ValV)>,
    d: Seq<Seq<char>>,
)
    requires
        grounded_list(ps, 0),
        grounded_list(cs, d.len()),
        grounded_args(b, d.len()),
        d.no_duplicates(),
    ensures
        unify_list(ps, ren_list(cs, d), ren_args(b, d)) == ren_binds(unify_list(ps, cs, b), d),
    decreases ps, 0nat,
{
    let rs = ren_list(cs, d);
    assert(rs.len() == cs.len());
    if ps.len() > 0 && ps.len() == cs.len() {
        let (pf, cf) = (ps.drop_last(), cs.drop_last());
        assert(rs.drop_last() =~= ren_list(cf, d));
        assert(rs[rs.len() - 1] == ren(cs[cs.len() - 1], d));
        assert(grounded(ps[ps.len() - 1], 0) && grounded(cs[cs.len() - 1], d.len()));
        assert(grounded_list(pf, 0) && grounded_list(cf, d.len()));
        ren_unify_list(pf, cf, b, d);
        unify_list_grounded(pf, cf, b, d.len());
        if let Some(b1) = unify_list(pf, cf, b) {
            ren_unify_val(ps[ps.len() - 1], cs[cs.len() - 1], b1, d);
        }
    }
}

proof fn ren_unify_args(
    ps: Seq<(Seq<char>, ValV)>,
    want: Seq<(Seq<char>, ValV)>,
    b: Seq<(Seq<char>, ValV)>,
    d: Seq<Seq<char>>,
)
    requires
        grounded_args(ps, 0),
        grounded_args(want, d.len()),
        grounded_args(b, d.len()),
        d.no_duplicates(),
    ensures
        unify_args(ps, ren_args(want, d), ren_args(b, d)) == ren_binds(unify_args(ps, want, b), d),
    decreases ps.len(),
{
    if ps.len() > 0 {
        let pf = ps.drop_last();
        assert(grounded(ps[ps.len() - 1].1, 0));
        assert(grounded_args(pf, 0));
        ren_unify_args(pf, want, b, d);
        unify_args_grounded(pf, want, b, d.len());
        ren_lookup(want, ps.last().0, d);
        grounded_lookup(want, ps.last().0, d.len());
        if let Some(b1) = unify_args(pf, want, b) {
            if let Some(w) = lookup(want, ps.last().0) {
                ren_unify_val(ps.last().1, w, b1, d);
            }
        }
    }
}

pub proof fn ren_unify(post: PredV, want: PredV, d: Seq<Seq<char>>)
    requires
        grounded_pred(post, 0),
        grounded_pred(want, d.len()),
        d.no_duplicates(),
    ensures
        unify(post, ren_pred(want, d)) == ren_binds(unify(post, want), d),
{
    let none = Seq::<(Seq<char>, ValV)>::empty();
    let rw = ren_pred(want, d);
    assert(ren_args(none, d) =~= none);
    ren_unify_val(post.value, want.value, none, d);
    unify_val_grounded(post.value, want.value, none, d.len());
    if let Some(b) = unify_val(post.value, want.value, none) {
        ren_unify_args(post.args, want.args, b, d);
    }
    assert(rw.args.len() == want.args.len());
    assert(covers(post.args, rw.args) == covers(post.args, want.args)) by {
        assert forall|i: int| 0 <= i < want.args.len() implies (#[trigger] rw.args[i]).0
            == want.args[i].0 by {}
        if covers(post.args, rw.args) {
            assert forall|i: int| 0 <= i < want.args.len() implies lookup(
                post.args,
                (#[trigger] want.args[i]).0,
            ) is Some by {
                assert(lookup(post.args, rw.args[i].0) is Some);
            }
        }
    }
}

proof fn ren_subst(v: ValV, b: Seq<(Seq<char>, ValV)>, d: Seq<Seq<char>>)
    requires
        grounded(v, 0),
    ensures
        subst(v, ren_args(b, d)) == ren(subst(v, b), d),
    decreases v, 0nat,
{
    match v {
        ValV::Var(n, _) => {
            ren_lookup(b, n, d);
        },
        ValV::List(xs) => {
            ren_subst_list(xs, b, d);
            assert(subst(v, b) == ValV::List(subst_list(xs, b)));
            assert(subst(v, ren_args(b, d)) == ValV::List(subst_list(xs, ren_args(b, d))));
        },
        ValV::Each(xs) => {
            ren_subst_list(xs, b, d);
            assert(subst(v, b) == ValV::Each(subst_list(xs, b)));
            assert(subst(v, ren_args(b, d)) == ValV::Each(subst_list(xs, ren_args(b, d))));
        },
        ValV::Entity(p) => {
            ren_subst_args(p.args, b, d);
            ren_subst(p.value, b, d);
            let (q, r) = (subst_pred(*p, b), subst_pred(*p, ren_args(b, d)));
            assert(q.args == subst_args(p.args, b) && q.value == subst(p.value, b));
            assert(r.args == subst_args(p.args, ren_args(b, d)) && r.value == subst(
                p.value,
                ren_args(b, d),
            ));
            assert(subst(v, b) == ValV::Entity(Box::new(q)));
            assert(subst(v, ren_args(b, d)) == ValV::Entity(Box::new(r)));
        },
        ValV::All(x) => ren_subst(*x, b, d),
        _ => {},
    }
}

proof fn ren_list_add(a: Seq<ValV>, b: Seq<ValV>, d: Seq<Seq<char>>)
    ensures
        ren_list(a + b, d) == ren_list(a, d) + ren_list(b, d),
{
    assert(ren_list(a + b, d) =~= ren_list(a, d) + ren_list(b, d));
}

proof fn ren_subst_list(xs: Seq<ValV>, b: Seq<(Seq<char>, ValV)>, d: Seq<Seq<char>>)
    requires
        grounded_list(xs, 0),
    ensures
        subst_list(xs, ren_args(b, d)) == ren_list(subst_list(xs, b), d),
    decreases xs, 0nat,
{
    if xs.len() == 0 {
        assert(ren_list(subst_list(xs, b), d) =~= Seq::<ValV>::empty());
    } else {
        let front = xs.drop_last();
        let v = xs[xs.len() - 1];
        let rb = ren_args(b, d);
        assert(grounded(v, 0));
        assert(grounded_list(front, 0));
        ren_subst_list(front, b, d);
        ren_subst(v, b, d);
        if let ValV::Var(n, _) = v {
            ren_lookup(b, n, d);
        }
        let (t, u) = (in_place(v, b, subst(v, b)), in_place(v, rb, subst(v, rb)));
        assert(u =~= ren_list(t, d)) by {
            if t != seq![subst(v, b)] {
                assert(lookup(b, v->Var_0) == Some(ValV::List(t)));
                assert(ren(ValV::List(t), d) == ValV::List(ren_list(t, d)));
            } else if v is Var && v->Var_1 && lookup(b, v->Var_0) is Some {
                let x = lookup(b, v->Var_0)->0;
                if let ValV::List(ys) = x {
                    assert(ys == t);
                    assert(ren(x, d) == ValV::List(ren_list(ys, d)));
                }
            }
        }
        ren_list_add(subst_list(front, b), t, d);
    }
}

proof fn ren_subst_args(xs: Seq<(Seq<char>, ValV)>, b: Seq<(Seq<char>, ValV)>, d: Seq<Seq<char>>)
    requires
        grounded_args(xs, 0),
    ensures
        subst_args(xs, ren_args(b, d)) == ren_args(subst_args(xs, b), d),
    decreases xs, 0nat,
{
    let rb = ren_args(b, d);
    assert forall|j: int| 0 <= j < xs.len() implies subst_args(xs, rb)[j] == ren_args(
        subst_args(xs, b),
        d,
    )[j] by {
        assert(grounded(xs[j].1, 0));
        ren_subst(xs[j].1, b, d);
        assert(subst_args(xs, b)[j] == (xs[j].0, subst(xs[j].1, b)));
    }
    assert(subst_args(xs, rb) =~= ren_args(subst_args(xs, b), d));
}

pub proof fn ren_subst_pred(p: PredV, b: Seq<(Seq<char>, ValV)>, d: Seq<Seq<char>>)
    requires
        grounded_pred(p, 0),
    ensures
        subst_pred(p, ren_args(b, d)) == ren_pred(subst_pred(p, b), d),
{
    ren_subst_args(p.args, b, d);
    ren_subst(p.value, b, d);
}

/// The other names of nodes.
pub open spec fn dens(xs: Seq<Seq<char>>, d: Seq<Seq<char>>) -> Seq<Seq<char>> {
    xs.map_values(|x: Seq<char>| den(d, x))
}

pub proof fn dens_add(a: Seq<Seq<char>>, b: Seq<Seq<char>>, d: Seq<Seq<char>>)
    ensures
        dens(a + b, d) == dens(a, d) + dens(b, d),
{
    assert(dens(a + b, d) =~= dens(a, d) + dens(b, d));
}

proof fn ren_refs_in_val(v: ValV, d: Seq<Seq<char>>)
    ensures
        refs_in_val(ren(v, d)) == dens(refs_in_val(v), d),
    decreases v, 0nat,
{
    match v {
        ValV::Ref(x, _) => {
            assert(dens(seq![x], d) =~= seq![den(d, x)]);
        },
        ValV::List(xs) => {
            ren_refs_in_list(xs, d);
            assert(ren(v, d) == ValV::List(ren_list(xs, d)));
            assert(refs_in_val(v) == refs_in_list(xs));
            assert(refs_in_val(ren(v, d)) == refs_in_list(ren_list(xs, d)));
        },
        _ => {
            assert(dens(Seq::empty(), d) =~= Seq::<Seq<char>>::empty());
        },
    }
}

proof fn ren_refs_in_list(xs: Seq<ValV>, d: Seq<Seq<char>>)
    ensures
        refs_in_list(ren_list(xs, d)) == dens(refs_in_list(xs), d),
    decreases xs, 0nat,
{
    let rs = ren_list(xs, d);
    if xs.len() == 0 {
        assert(dens(Seq::empty(), d) =~= Seq::<Seq<char>>::empty());
    } else {
        assert(rs.drop_last() =~= ren_list(xs.drop_last(), d));
        assert(rs[rs.len() - 1] == ren(xs[xs.len() - 1], d));
        ren_refs_in_list(xs.drop_last(), d);
        ren_refs_in_val(xs[xs.len() - 1], d);
        dens_add(refs_in_list(xs.drop_last()), refs_in_val(xs[xs.len() - 1]), d);
    }
}

pub proof fn ren_refs_in(xs: Seq<(Seq<char>, ValV)>, d: Seq<Seq<char>>)
    ensures
        refs_in(ren_args(xs, d)) == dens(refs_in(xs), d),
    decreases xs.len(),
{
    let rs = ren_args(xs, d);
    if xs.len() == 0 {
        assert(dens(Seq::empty(), d) =~= Seq::<Seq<char>>::empty());
    } else {
        assert(rs.drop_last() =~= ren_args(xs.drop_last(), d));
        assert(rs.last().1 == ren(xs.last().1, d));
        ren_refs_in(xs.drop_last(), d);
        ren_refs_in_val(xs.last().1, d);
        dens_add(refs_in(xs.drop_last()), refs_in_val(xs.last().1), d);
    }
}

pub proof fn ren_candidates(ops: Seq<OpV>, p: PredV, d: Seq<Seq<char>>)
    ensures
        candidates(ops, ren_pred(p, d)) == candidates(ops, p),
    decreases ops.len(),
{
    if ops.len() > 0 {
        ren_candidates(ops.drop_last(), p, d);
        assert(candidate(ops.last(), ren_pred(p, d)) == candidate(ops.last(), p));
    }
}

pub proof fn ren_small(ops: Seq<OpV>, post: PredV, p: PredV, d: Seq<Seq<char>>)
    ensures
        entity_want(ops, ren_pred(p, d)) == ren_pred(entity_want(ops, p), d),
        literal_id(ren_pred(p, d)) == literal_id(p),
        by_id(post, ren_pred(p, d)) == by_id(post, p),
        as_exists_spec(ren_pred(p, d)) == ren_pred(as_exists_spec(p), d),
        to_unify(post, ren_pred(p, d), None) == ren_pred(to_unify(post, p, None), d),
        settled(ren_pred(p, d)) == settled(p),
        known_by_ref(ren_pred(p, d)) == (match known_by_ref(p) {
            Some(n) => Some(den(d, n)),
            None => None,
        }),
{
    ren_lookup(p.args, "id"@, d);
    ren_refs_in(p.args, d);
    assert(ren_pred(p, d).args.len() == p.args.len());
    assert(dens(refs_in(p.args), d).len() == refs_in(p.args).len());
}

pub proof fn ren_to_unify(post: PredV, p: PredV, t: Seq<char>, d: Seq<Seq<char>>)
    ensures
        to_unify(post, ren_pred(p, d), Some(den(d, t))) == ren_pred(to_unify(post, p, Some(t)), d),
{
    let args = seq![("id"@, ValV::Ref(t, "id"@))];
    assert(ren_args(args, d) =~= seq![("id"@, ValV::Ref(den(d, t), "id"@))]);
}

} // verus!
