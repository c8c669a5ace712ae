//! Comparing values and predicates.

use crate::pred::{args_view, vals_view, Pred, Val};
use crate::text::same;
use vstd::prelude::*;

verus! {

fn same_vals(a: &Vec<Val>, b: &Vec<Val>) -> (r: bool)
    ensures
        r == (vals_view(a@) == vals_view(b@)),
    decreases a,
{
    assert(vals_view(a@).len() == a@.len() && vals_view(b@).len() == b@.len());
    if a.len() != b.len() {
        return false;
    }
    let mut i: usize = 0;
    while i < a.len()
        invariant
            i <= a@.len() == b@.len(),
            forall|j: int| 0 <= j < i ==> vals_view(a@)[j] == vals_view(b@)[j],
        decreases a@.len() - i,
    {
        assert(vals_view(a@)[i as int] == a@[i as int]@);
        assert(vals_view(b@)[i as int] == b@[i as int]@);
        if !same_val(&a[i], &b[i]) {
            return false;
        }
        i += 1;
    }
    assert(vals_view(a@) =~= vals_view(b@));
    true
}

fn same_args(a: &Vec<(String, Val)>, b: &Vec<(String, Val)>) -> (r: bool)
    ensures
        r == (args_view(a@) == args_view(b@)),
    decreases a,
{
    assert(args_view(a@).len() == a@.len() && args_view(b@).len() == b@.len());
    if a.len() != b.len() {
        return false;
    }
    let mut i: usize = 0;
    while i < a.len()
        invariant
            i <= a@.len() == b@.len(),
            forall|j: int| 0 <= j < i ==> args_view(a@)[j] == args_view(b@)[j],
        decreases a@.len() - i,
    {
        assert(args_view(a@)[i as int] == (a@[i as int].0@, a@[i as int].1@));
        assert(args_view(b@)[i as int] == (b@[i as int].0@, b@[i as int].1@));
        if !same(a[i].0.as_str(), b[i].0.as_str()) || !same_val(&a[i].1, &b[i].1) {
            return false;
        }
        i += 1;
    }
    assert(args_view(a@) =~= args_view(b@));
    true
}

/// Whether two values are the same.
pub fn same_val(a: &Val, b: &Val) -> (r: bool)
    ensures
        r == (a@ == b@),
    decreases a,
{
    match (a, b) {
        (Val::Str(x), Val::Str(y)) => same(x.as_str(), y.as_str()),
        (Val::Num(x), Val::Num(y)) => *x == *y,
        (Val::Bool(x), Val::Bool(y)) => *x == *y,
        (Val::List(x), Val::List(y)) => same_vals(x, y),
        (Val::Var(x, s), Val::Var(y, t)) => same(x.as_str(), y.as_str()) && *s == *t,
        (Val::Ref(x, f), Val::Ref(y, g)) => same(x.as_str(), y.as_str()) && same(
            f.as_str(),
            g.as_str(),
        ),
        (Val::Entity(x), Val::Entity(y)) => same_pred(&**x, &**y),
        (Val::Each(x), Val::Each(y)) => same_vals(x, y),
        (Val::All(x), Val::All(y)) => same_val(&**x, &**y),
        _ => false,
    }
}

/// Whether two predicates are the same.
pub fn same_pred(a: &Pred, b: &Pred) -> (r: bool)
    ensures
        r == (a@ == b@),
    decreases a,
{
    same(a.entity.as_str(), b.entity.as_str()) && same_args(&a.args, &b.args) && same(
        a.field.as_str(),
        b.field.as_str(),
    ) && same_val(&a.value, &b.value)
}

} // verus!
