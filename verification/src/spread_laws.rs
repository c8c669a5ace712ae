//! What a want with several values in it stands for, and how variables are filled in.

use crate::pred::{lookup, PredV, ValV};
use crate::pred_unroll::{
    each_len, each_len_args, each_len_pred, in_place, pick, pick_list, pick_pred, splice_items, spread, spread_item, subst,
    subst_list, subst_pred, unroll_spec,
};
use vstd::prelude::*;

verus! {

/// A variable becomes the value that it is bound to.
pub proof fn a_variable_becomes_its_value(
    n: Seq<char>,
    all: bool,
    b: Seq<(Seq<char>, ValV)>,
    v: ValV,
)
    ensures
        lookup(b, n) == Some(v) ==> subst(ValV::Var(n, all), b) == v,
        lookup(b, n) is None ==> subst(ValV::Var(n, all), b) == ValV::Var(n, all),
{
}

/// Arguments are filled in in their places, and so is the value.
pub proof fn a_predicate_is_filled_in_place(p: PredV, b: Seq<(Seq<char>, ValV)>, i: int)
    ensures
        subst_pred(p, b).entity == p.entity,
        subst_pred(p, b).field == p.field,
        subst_pred(p, b).value == subst(p.value, b),
        subst_pred(p, b).args.len() == p.args.len(),
        0 <= i < p.args.len() ==> subst_pred(p, b).args[i] == (p.args[i].0, subst(
            p.args[i].1,
            b,
        )),
{
}

/// In a list, a spread variable that is bound to a list becomes the elements of that list; any
/// other element is filled in in its place.
pub proof fn a_list_is_filled_in_order(
    xs: Seq<ValV>,
    v: ValV,
    n: Seq<char>,
    ys: Seq<ValV>,
    b: Seq<(Seq<char>, ValV)>,
)
    ensures
        subst_list(Seq::empty(), b).len() == 0,
        lookup(b, n) == Some(ValV::List(ys)) ==> subst_list(xs.push(ValV::Var(n, true)), b)
            == subst_list(xs, b) + ys,
        lookup(b, n) == Some(ValV::List(ys)) ==> subst_list(xs.push(ValV::Var(n, false)), b)
            == subst_list(xs, b).push(ValV::List(ys)),
        !(v is Var) ==> subst_list(xs.push(v), b) == subst_list(xs, b).push(subst(v, b)),
        subst(ValV::List(xs), b) == ValV::List(subst_list(xs, b)),
{
    let a = xs.push(ValV::Var(n, true));
    let c = xs.push(ValV::Var(n, false));
    let d = xs.push(v);
    assert(a.drop_last() =~= xs);
    assert(c.drop_last() =~= xs);
    assert(d.drop_last() =~= xs);
    let f = subst(ValV::Var(n, false), b);
    assert(in_place(ValV::Var(n, false), b, f) == seq![f]);
    assert(subst_list(c, b) =~= subst_list(xs, b).push(f));
    if !(v is Var) {
        assert(in_place(v, b, subst(v, b)) == seq![subst(v, b)]);
        assert(subst_list(d, b) =~= subst_list(xs, b).push(subst(v, b)));
    }
}

/// Each pick takes the element of its number, in place; what is none of several stays.
pub proof fn a_pick_takes_one_of_each(xs: Seq<ValV>, p: PredV, i: nat, j: int, s: Seq<char>, n: int)
    ensures
        i < xs.len() ==> pick(ValV::Each(xs), i) == xs[i as int],
        pick(ValV::Str(s), i) == ValV::Str(s),
        pick(ValV::Num(n), i) == ValV::Num(n),
        pick_pred(p, i).entity == p.entity,
        pick_pred(p, i).field == p.field,
        pick_pred(p, i).args.len() == p.args.len(),
        0 <= j < p.args.len() ==> pick_pred(p, i).args[j] == (p.args[j].0, pick(p.args[j].1, i)),
        pick_list(xs, i).len() == xs.len(),
        0 <= j < xs.len() ==> pick_list(xs, i)[j] == pick(xs[j], i),
{
}

/// In a list, an element that stands for several becomes that many, in their order.
pub proof fn an_element_is_spread(xs: Seq<ValV>, i: int)
    ensures
        spread(ValV::Each(xs)).len() == xs.len(),
        0 <= i < xs.len() ==> spread(ValV::Each(xs))[i] == xs[i],
        spread_item(ValV::All(Box::new(ValV::Each(xs)))) == spread(ValV::Each(xs)),
        splice_items(Seq::empty()).len() == 0,
{
}

/// The value holds no `each`.
pub open spec fn single_valued(v: ValV) -> bool {
    v is Str || v is Num || v is Bool || v is Var || v is Ref
}

proof fn no_each(xs: Seq<(Seq<char>, ValV)>)
    requires
        forall|j: int| 0 <= j < xs.len() ==> single_valued((#[trigger] xs[j]).1),
    ensures
        each_len_args(xs) is None,
    decreases xs.len(),
{
    if xs.len() > 0 {
        let d = xs.drop_last();
        assert forall|j: int| 0 <= j < d.len() implies single_valued((#[trigger] d[j]).1) by {
            assert(d[j] == xs[j]);
        }
        no_each(d);
        assert(single_valued(xs[xs.len() - 1].1));
        assert(each_len(xs[xs.len() - 1].1) is None);
    }
}

/// The first `each` among the arguments says how many a predicate stands for.
pub proof fn the_first_each_counts(xs: Seq<(Seq<char>, ValV)>, ys: Seq<ValV>, i: int)
    requires
        0 <= i < xs.len(),
        xs[i].1 == ValV::Each(ys),
        forall|j: int| 0 <= j < i ==> single_valued((#[trigger] xs[j]).1),
    ensures
        each_len_args(xs) == Some(ys.len()),
    decreases xs.len(),
{
    let d = xs.drop_last();
    if i < d.len() {
        assert(d[i] == xs[i]);
        assert forall|j: int| 0 <= j < i implies single_valued((#[trigger] d[j]).1) by {
            assert(d[j] == xs[j]);
        }
        the_first_each_counts(d, ys, i);
    } else {
        assert forall|j: int| 0 <= j < d.len() implies single_valued((#[trigger] d[j]).1) by {
            assert(d[j] == xs[j]);
        }
        no_each(d);
        assert(each_len(xs[i].1) == Some(ys.len()));
    }
}

/// A predicate stands for as many as its first `each` has.
pub proof fn a_want_stands_for_as_many(p: PredV)
    ensures
        each_len_pred(crate::pred_unroll::splice_pred(p)) matches Some(n) ==> unroll_spec(p).len()
            == n,
        each_len_pred(crate::pred_unroll::splice_pred(p)) is None ==> unroll_spec(p).len() == 1,
{
}

} // verus!
