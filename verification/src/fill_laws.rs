//! Laws of unrolling predicates and of filling in their variables.

use crate::pred::{lookup, PredV, ValV};
use crate::pred_unroll::{
    each_len, each_len_args, each_len_list, each_len_pred, in_place, pick_pred, splice, splice_args,
    splice_each, splice_items, splice_pred, spread_item, subst, subst_args, subst_list, subst_pred,
    unroll_spec,
};
use vstd::prelude::*;

verus! {

// ---------- unrolling ----------

/// A value without `each(...)`, and without `all(...)` as an element of a list.
pub open spec fn single(v: ValV) -> bool
    decreases v,
{
    match v {
        ValV::Each(_) => false,
        ValV::List(xs) => forall|i: int|
            0 <= i < xs.len() ==> single(#[trigger] xs[i]) && !(xs[i] is All),
        ValV::Entity(p) => single(p.value) && forall|i: int|
            0 <= i < p.args.len() ==> single((#[trigger] p.args[i]).1),
        ValV::All(x) => single(*x),
        _ => true,
    }
}

/// A predicate without `each(...)`, and without `all(...)` as an element of a list.
pub open spec fn single_pred(p: PredV) -> bool {
    single(p.value) && forall|i: int| 0 <= i < p.args.len() ==> single((#[trigger] p.args[i]).1)
}

/// A value whose `each(...)` stand in no list, nor `all(...)` as an element of one.
pub open spec fn level(v: ValV) -> bool
    decreases v,
{
    match v {
        ValV::Each(xs) => forall|i: int| 0 <= i < xs.len() ==> level(#[trigger] xs[i]),
        ValV::List(xs) => forall|i: int|
            0 <= i < xs.len() ==> single(#[trigger] xs[i]) && !(xs[i] is All),
        ValV::Entity(p) => level(p.value) && forall|i: int|
            0 <= i < p.args.len() ==> level((#[trigger] p.args[i]).1),
        ValV::All(x) => level(*x),
        _ => true,
    }
}

/// A predicate whose `each(...)` stand in no list, nor `all(...)` as an element of one.
pub open spec fn level_pred(p: PredV) -> bool {
    level(p.value) && forall|i: int| 0 <= i < p.args.len() ==> level((#[trigger] p.args[i]).1)
}

proof fn single_stays(v: ValV)
    requires
        single(v),
    ensures
        splice(v) == v,
        each_len(v) is None,
    decreases v, 0nat,
{
    match v {
        ValV::List(xs) => {
            single_items_stay(xs, xs.len());
            assert(xs.take(xs.len() as int) =~= xs);
            assert(splice(v) == ValV::List(splice_items(xs)));
            assert(each_len(v) == each_len_list(xs));
        },
        ValV::Entity(p) => {
            single_stays(p.value);
            let xs = p.args;
            assert forall|i: int| 0 <= i < xs.len() implies splice((#[trigger] xs[i]).1) == xs[i].1
                && each_len(xs[i].1) is None by {
                single_stays(xs[i].1);
            }
            no_each_args(xs);
            assert(splice_args(xs) =~= xs);
            assert(splice_pred(*p) == *p);
            assert(splice(v) == ValV::Entity(Box::new(splice_pred(*p))));
            assert(each_len_pred(*p) is None);
            assert(each_len(v) == each_len_pred(*p));
        },
        ValV::All(x) => {
            single_stays(*x);
            assert(splice(v) == ValV::All(Box::new(splice(*x))));
        },
        _ => {},
    }
}

proof fn single_items_stay(xs: Seq<ValV>, n: nat)
    requires
        n <= xs.len(),
        forall|i: int| 0 <= i < xs.len() ==> single(#[trigger] xs[i]) && !(xs[i] is All),
    ensures
        splice_items(xs.take(n as int)) == xs.take(n as int),
        each_len_list(xs.take(n as int)) is None,
    decreases xs, n,
{
    let ys = xs.take(n as int);
    if n > 0 {
        single_items_stay(xs, (n - 1) as nat);
        assert(ys.drop_last() =~= xs.take(n - 1));
        let x = ys[ys.len() - 1];
        assert(x == xs[n - 1]);
        single_stays(xs[n - 1]);
        assert(spread_item(x) == seq![x]);
        assert(splice_items(ys) == splice_items(ys.drop_last()) + spread_item(splice(x)));
        assert(ys.drop_last() + seq![x] =~= ys);
    } else {
        assert(ys =~= Seq::<ValV>::empty());
    }
}

proof fn no_each_args(xs: Seq<(Seq<char>, ValV)>)
    requires
        forall|i: int| 0 <= i < xs.len() ==> each_len((#[trigger] xs[i]).1) is None,
    ensures
        each_len_args(xs) is None,
    decreases xs.len(),
{
    if xs.len() > 0 {
        let ys = xs.drop_last();
        assert forall|i: int| 0 <= i < ys.len() implies each_len((#[trigger] ys[i]).1) is None by {
            assert(ys[i] == xs[i]);
        }
        no_each_args(ys);
    }
}

proof fn level_stays(v: ValV)
    requires
        level(v),
    ensures
        splice(v) == v,
    decreases v,
{
    match v {
        ValV::List(xs) => {
            assert(single(v));
            single_stays(v);
        },
        ValV::Each(xs) => {
            assert forall|i: int| 0 <= i < xs.len() implies splice(#[trigger] xs[i]) == xs[i] by {
                level_stays(xs[i]);
            }
            assert(splice_each(xs) =~= xs);
            assert(splice(v) == ValV::Each(splice_each(xs)));
        },
        ValV::Entity(p) => {
            level_stays(p.value);
            let xs = p.args;
            assert forall|i: int| 0 <= i < xs.len() implies splice((#[trigger] xs[i]).1)
                == xs[i].1 by {
                level_stays(xs[i].1);
            }
            assert(splice_args(xs) =~= xs);
            assert(splice_pred(*p) == *p);
            assert(splice(v) == ValV::Entity(Box::new(splice_pred(*p))));
        },
        ValV::All(x) => {
            level_stays(*x);
            assert(splice(v) == ValV::All(Box::new(splice(*x))));
        },
        _ => {},
    }
}

/// A predicate without `each(...)` stands for itself alone.
pub proof fn nothing_to_unroll(p: PredV)
    requires
        single_pred(p),
    ensures
        unroll_spec(p) == seq![p],
{
    let v = ValV::Entity(Box::new(p));
    assert(single(v));
    single_stays(v);
    assert(splice(v) == ValV::Entity(Box::new(splice_pred(p))));
    assert(each_len(v) == each_len_pred(p));
}

/// A predicate whose `each(...)` stand in no list stands for its picks, in the order of the
/// elements: as many as the first `each(...)` has, and none where it has none.
pub proof fn each_fans_out(p: PredV, n: nat)
    requires
        level_pred(p),
        each_len_pred(p) == Some(n),
    ensures
        unroll_spec(p).len() == n,
        forall|i: int| 0 <= i < n ==> #[trigger] unroll_spec(p)[i] == pick_pred(p, i as nat),
{
    let v = ValV::Entity(Box::new(p));
    assert(level(v));
    level_stays(v);
    assert(splice(v) == ValV::Entity(Box::new(splice_pred(p))));
}

// ---------- filling in ----------

/// A value without variables.
pub open spec fn closed(v: ValV) -> bool
    decreases v,
{
    match v {
        ValV::Var(_, _) => false,
        ValV::List(xs) => forall|i: int| 0 <= i < xs.len() ==> closed(#[trigger] xs[i]),
        ValV::Each(xs) => forall|i: int| 0 <= i < xs.len() ==> closed(#[trigger] xs[i]),
        ValV::Entity(p) => closed(p.value) && forall|i: int|
            0 <= i < p.args.len() ==> closed((#[trigger] p.args[i]).1),
        ValV::All(x) => closed(*x),
        _ => true,
    }
}

/// Bindings to values without variables.
pub open spec fn closed_binds(b: Seq<(Seq<char>, ValV)>) -> bool {
    forall|i: int| 0 <= i < b.len() ==> closed((#[trigger] b[i]).1)
}

/// A value in which filling in changes nothing, element by element.
spec fn still(xs: Seq<ValV>, b: Seq<(Seq<char>, ValV)>) -> bool {
    forall|i: int|
        0 <= i < xs.len() ==> in_place(#[trigger] xs[i], b, subst(xs[i], b)) == seq![xs[i]]
}

proof fn still_stays(xs: Seq<ValV>, b: Seq<(Seq<char>, ValV)>)
    requires
        still(xs, b),
    ensures
        subst_list(xs, b) == xs,
    decreases xs.len(),
{
    if xs.len() > 0 {
        let ys = xs.drop_last();
        assert forall|i: int| 0 <= i < ys.len() implies in_place(
            #[trigger] ys[i],
            b,
            subst(ys[i], b),
        ) == seq![ys[i]] by {
            assert(ys[i] == xs[i]);
        }
        still_stays(ys, b);
        assert(ys + seq![xs[xs.len() - 1]] =~= xs);
    }
}

proof fn closed_stays(v: ValV, b: Seq<(Seq<char>, ValV)>)
    requires
        closed(v),
    ensures
        subst(v, b) == v,
    decreases v,
{
    match v {
        ValV::List(xs) => {
            assert forall|i: int| 0 <= i < xs.len() implies in_place(
                #[trigger] xs[i],
                b,
                subst(xs[i], b),
            ) == seq![xs[i]] by {
                closed_stays(xs[i], b);
            }
            still_stays(xs, b);
            assert(subst(v, b) == ValV::List(subst_list(xs, b)));
        },
        ValV::Each(xs) => {
            assert forall|i: int| 0 <= i < xs.len() implies in_place(
                #[trigger] xs[i],
                b,
                subst(xs[i], b),
            ) == seq![xs[i]] by {
                closed_stays(xs[i], b);
            }
            still_stays(xs, b);
            assert(subst(v, b) == ValV::Each(subst_list(xs, b)));
        },
        ValV::Entity(p) => {
            let xs = p.args;
            assert forall|i: int| 0 <= i < xs.len() implies subst((#[trigger] xs[i]).1, b)
                == xs[i].1 by {
                closed_stays(xs[i].1, b);
            }
            assert(subst_args(xs, b) =~= xs);
            closed_stays(p.value, b);
            assert(subst_pred(*p, b) == *p);
            assert(subst(v, b) == ValV::Entity(Box::new(subst_pred(*p, b))));
        },
        ValV::All(x) => {
            closed_stays(*x, b);
            assert(subst(v, b) == ValV::All(Box::new(subst(*x, b))));
        },
        _ => {},
    }
}

proof fn none_stays(v: ValV)
    ensures
        subst(v, Seq::empty()) == v,
    decreases v,
{
    let b = Seq::<(Seq<char>, ValV)>::empty();
    match v {
        ValV::List(xs) => {
            assert forall|i: int| 0 <= i < xs.len() implies in_place(
                #[trigger] xs[i],
                b,
                subst(xs[i], b),
            ) == seq![xs[i]] by {
                none_stays(xs[i]);
            }
            still_stays(xs, b);
            assert(subst(v, b) == ValV::List(subst_list(xs, b)));
        },
        ValV::Each(xs) => {
            assert forall|i: int| 0 <= i < xs.len() implies in_place(
                #[trigger] xs[i],
                b,
                subst(xs[i], b),
            ) == seq![xs[i]] by {
                none_stays(xs[i]);
            }
            still_stays(xs, b);
            assert(subst(v, b) == ValV::Each(subst_list(xs, b)));
        },
        ValV::Entity(p) => {
            let xs = p.args;
            assert forall|i: int| 0 <= i < xs.len() implies subst((#[trigger] xs[i]).1, b)
                == xs[i].1 by {
                none_stays(xs[i].1);
            }
            assert(subst_args(xs, b) =~= xs);
            none_stays(p.value);
            assert(subst_pred(*p, b) == *p);
            assert(subst(v, b) == ValV::Entity(Box::new(subst_pred(*p, b))));
        },
        ValV::All(x) => {
            none_stays(*x);
            assert(subst(v, b) == ValV::All(Box::new(subst(*x, b))));
        },
        _ => {},
    }
}

proof fn closed_lookup(b: Seq<(Seq<char>, ValV)>, k: Seq<char>)
    requires
        closed_binds(b),
    ensures
        lookup(b, k) matches Some(v) ==> closed(v),
    decreases b.len(),
{
    if b.len() > 0 && b[0].0 != k {
        let rest = b.drop_first();
        assert forall|j: int| 0 <= j < rest.len() implies closed((#[trigger] rest[j]).1) by {
            assert(rest[j] == b[j + 1]);
        }
        closed_lookup(rest, k);
    }
}

/// What an element becomes does not change again.
proof fn filled_element_is_still(v: ValV, b: Seq<(Seq<char>, ValV)>)
    requires
        closed_binds(b),
        subst(subst(v, b), b) == subst(v, b),
    ensures
        still(in_place(v, b, subst(v, b)), b),
{
    let ys = in_place(v, b, subst(v, b));
    if let ValV::Var(n, _) = v {
        closed_lookup(b, n);
    }
    assert forall|i: int| 0 <= i < ys.len() implies in_place(
        #[trigger] ys[i],
        b,
        subst(ys[i], b),
    ) == seq![ys[i]] by {
        match v {
            ValV::Var(n, spread) => match lookup(b, n) {
                Some(ValV::List(zs)) => {
                    if spread {
                        assert(ys == zs);
                        assert(closed(zs[i]));
                        closed_stays(zs[i], b);
                    }
                },
                _ => {},
            },
            _ => {},
        }
    }
}

proof fn filled_list_is_still(xs: Seq<ValV>, b: Seq<(Seq<char>, ValV)>)
    requires
        closed_binds(b),
        forall|i: int|
            0 <= i < xs.len() ==> subst(subst(#[trigger] xs[i], b), b) == subst(xs[i], b),
    ensures
        still(subst_list(xs, b), b),
    decreases xs.len(),
{
    if xs.len() > 0 {
        let ys = xs.drop_last();
        let x = xs[xs.len() - 1];
        assert forall|i: int| 0 <= i < ys.len() implies subst(subst(#[trigger] ys[i], b), b)
            == subst(ys[i], b) by {
            assert(ys[i] == xs[i]);
        }
        filled_list_is_still(ys, b);
        filled_element_is_still(x, b);
        let (a, c) = (subst_list(ys, b), in_place(x, b, subst(x, b)));
        let r = subst_list(xs, b);
        assert(r == a + c);
        assert forall|i: int| 0 <= i < r.len() implies in_place(#[trigger] r[i], b, subst(r[i], b))
            == seq![r[i]] by {
            if i < a.len() {
                assert(r[i] == a[i]);
            } else {
                assert(r[i] == c[i - a.len()]);
            }
        }
    }
}

proof fn once_is_enough(v: ValV, b: Seq<(Seq<char>, ValV)>)
    requires
        closed_binds(b),
    ensures
        subst(subst(v, b), b) == subst(v, b),
    decreases v,
{
    match v {
        ValV::Var(n, _) => {
            closed_lookup(b, n);
            if let Some(x) = lookup(b, n) {
                closed_stays(x, b);
            }
        },
        ValV::List(xs) => {
            assert forall|i: int| 0 <= i < xs.len() implies subst(subst(#[trigger] xs[i], b), b)
                == subst(xs[i], b) by {
                once_is_enough(xs[i], b);
            }
            filled_list_is_still(xs, b);
            still_stays(subst_list(xs, b), b);
            assert(subst(v, b) == ValV::List(subst_list(xs, b)));
            assert(subst(subst(v, b), b) == ValV::List(subst_list(subst_list(xs, b), b)));
        },
        ValV::Each(xs) => {
            assert forall|i: int| 0 <= i < xs.len() implies subst(subst(#[trigger] xs[i], b), b)
                == subst(xs[i], b) by {
                once_is_enough(xs[i], b);
            }
            filled_list_is_still(xs, b);
            still_stays(subst_list(xs, b), b);
            assert(subst(v, b) == ValV::Each(subst_list(xs, b)));
            assert(subst(subst(v, b), b) == ValV::Each(subst_list(subst_list(xs, b), b)));
        },
        ValV::Entity(p) => {
            let q = subst_pred(*p, b);
            assert(q.args == subst_args(p.args, b) && q.value == subst(p.value, b));
            assert forall|i: int| 0 <= i < q.args.len() implies subst((#[trigger] q.args[i]).1, b)
                == q.args[i].1 by {
                assert(q.args[i].1 == subst(p.args[i].1, b));
                once_is_enough(p.args[i].1, b);
            }
            assert(subst_args(q.args, b) =~= q.args);
            once_is_enough(p.value, b);
            assert(subst_pred(q, b) == q);
            assert(subst(v, b) == ValV::Entity(Box::new(q)));
            assert(subst(subst(v, b), b) == ValV::Entity(Box::new(subst_pred(q, b))));
        },
        ValV::All(x) => {
            once_is_enough(*x, b);
            assert(subst(v, b) == ValV::All(Box::new(subst(*x, b))));
            assert(subst(subst(v, b), b) == ValV::All(Box::new(subst(subst(*x, b), b))));
        },
        _ => {},
    }
}

/// Without bindings, filling in changes nothing.
pub proof fn no_bindings_change_nothing(p: PredV)
    ensures
        subst_pred(p, Seq::empty()) == p,
{
    let v = ValV::Entity(Box::new(p));
    none_stays(v);
    assert(subst(v, Seq::empty()) == ValV::Entity(Box::new(subst_pred(p, Seq::empty()))));
}

/// With values that hold no variables, filling in twice gives what filling in once gives.
pub proof fn filling_in_twice_is_filling_in_once(p: PredV, b: Seq<(Seq<char>, ValV)>)
    requires
        closed_binds(b),
    ensures
        subst_pred(subst_pred(p, b), b) == subst_pred(p, b),
{
    let v = ValV::Entity(Box::new(p));
    let q = subst_pred(p, b);
    once_is_enough(v, b);
    assert(subst(v, b) == ValV::Entity(Box::new(q)));
    assert(subst(subst(v, b), b) == ValV::Entity(Box::new(subst_pred(q, b))));
}

/// Filling in keeps the entity, the field, and the names of the arguments in their order.
pub proof fn filling_in_keeps_the_names(p: PredV, b: Seq<(Seq<char>, ValV)>)
    ensures
        subst_pred(p, b).entity == p.entity,
        subst_pred(p, b).field == p.field,
        subst_pred(p, b).args.len() == p.args.len(),
        forall|i: int|
            0 <= i < p.args.len() ==> (#[trigger] subst_pred(p, b).args[i]).0 == p.args[i].0,
{
    assert(subst_pred(p, b).args == subst_args(p.args, b));
}

/// An unbound variable stays as it is.
pub proof fn unbound_variables_stay(n: Seq<char>, spread: bool, b: Seq<(Seq<char>, ValV)>)
    requires
        lookup(b, n) is None,
    ensures
        subst(ValV::Var(n, spread), b) == ValV::Var(n, spread),
{
}

} // verus!
