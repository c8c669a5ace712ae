//! Unrolling `each(...)`, spreading it inside lists, and filling in variables.

use crate::pred::{
    args_push, args_view, clone_vals, lookup, lookup_val, Pred, preds_view, PredV, Val, vals_push, vals_view, ValV,
};
use vstd::prelude::*;

verus! {

/// The length of the first `each(...)` in a value, if there is one.
pub open spec fn each_len(v: ValV) -> Option<nat>
    decreases v,
{
    match v {
        ValV::Each(xs) => Some(xs.len()),
        ValV::List(xs) => each_len_list(xs),
        ValV::Entity(p) => each_len_pred(*p),
        _ => None,
    }
}

pub open spec fn each_len_list(xs: Seq<ValV>) -> Option<nat>
    decreases xs,
{
    if xs.len() == 0 {
        None
    } else {
        match each_len_list(xs.drop_last()) {
            Some(n) => Some(n),
            None => each_len(xs[xs.len() - 1]),
        }
    }
}

pub open spec fn each_len_args(xs: Seq<(Seq<char>, ValV)>) -> Option<nat>
    decreases xs,
{
    if xs.len() == 0 {
        None
    } else {
        match each_len_args(xs.drop_last()) {
            Some(n) => Some(n),
            None => each_len(xs[xs.len() - 1].1),
        }
    }
}

/// The length of the first `each(...)` in a predicate: in its arguments, then in its value.
pub open spec fn each_len_pred(p: PredV) -> Option<nat>
    decreases p,
{
    match each_len_args(p.args) {
        Some(n) => Some(n),
        None => each_len(p.value),
    }
}

/// A value with every `each(...)` replaced by its element `i`, or by `false` where it has none.
pub open spec fn pick(v: ValV, i: nat) -> ValV
    decreases v,
{
    match v {
        ValV::Each(xs) => if i < xs.len() {
            xs[i as int]
        } else {
            ValV::Bool(false)
        },
        ValV::List(xs) => ValV::List(pick_list(xs, i)),
        ValV::Entity(p) => ValV::Entity(Box::new(pick_pred(*p, i))),
        other => other,
    }
}

pub open spec fn pick_list(xs: Seq<ValV>, i: nat) -> Seq<ValV>
    decreases xs,
{
    Seq::new(
        xs.len(),
        |j: int|
            if 0 <= j < xs.len() {
                pick(xs[j], i)
            } else {
                arbitrary()
            },
    )
}

pub open spec fn pick_args(xs: Seq<(Seq<char>, ValV)>, i: nat) -> Seq<(Seq<char>, ValV)>
    decreases xs,
{
    Seq::new(
        xs.len(),
        |j: int|
            if 0 <= j < xs.len() {
                (xs[j].0, pick(xs[j].1, i))
            } else {
                arbitrary()
            },
    )
}

/// A predicate with every `each(...)` replaced by its element `i`.
pub open spec fn pick_pred(p: PredV, i: nat) -> PredV
    decreases p,
{
    PredV {
        entity: p.entity,
        args: pick_args(p.args, i),
        field: p.field,
        value: pick(p.value, i),
    }
}

/// What an element of a list stands for: one element per element of its `each(...)`, or itself.
pub open spec fn spread(v: ValV) -> Seq<ValV> {
    match each_len(v) {
        Some(n) => Seq::new(n, |i: int| pick(v, i as nat)),
        None => seq![v],
    }
}

/// What an element of a list stands for, `all(...)` taken off.
pub open spec fn spread_item(v: ValV) -> Seq<ValV> {
    match v {
        ValV::All(x) => spread(*x),
        other => spread(other),
    }
}

/// A value with the elements of its lists spread.
pub open spec fn splice(v: ValV) -> ValV
    decreases v,
{
    match v {
        ValV::List(xs) => ValV::List(splice_items(xs)),
        ValV::Each(xs) => ValV::Each(splice_each(xs)),
        ValV::Entity(p) => ValV::Entity(Box::new(splice_pred(*p))),
        ValV::All(x) => ValV::All(Box::new(splice(*x))),
        other => other,
    }
}

pub open spec fn splice_items(xs: Seq<ValV>) -> Seq<ValV>
    decreases xs,
{
    if xs.len() == 0 {
        Seq::empty()
    } else {
        splice_items(xs.drop_last()) + spread_item(splice(xs[xs.len() - 1]))
    }
}

pub open spec fn splice_each(xs: Seq<ValV>) -> Seq<ValV>
    decreases xs,
{
    Seq::new(
        xs.len(),
        |j: int|
            if 0 <= j < xs.len() {
                splice(xs[j])
            } else {
                arbitrary()
            },
    )
}

pub open spec fn splice_args(xs: Seq<(Seq<char>, ValV)>) -> Seq<(Seq<char>, ValV)>
    decreases xs,
{
    Seq::new(
        xs.len(),
        |j: int|
            if 0 <= j < xs.len() {
                (xs[j].0, splice(xs[j].1))
            } else {
                arbitrary()
            },
    )
}

/// A predicate with the elements of its lists spread.
pub open spec fn splice_pred(p: PredV) -> PredV
    decreases p,
{
    PredV { entity: p.entity, args: splice_args(p.args), field: p.field, value: splice(p.value) }
}

/// The predicates that a predicate stands for. Inside a list, an element with an `each(...)`
/// becomes several elements; any other `each(...)` fans the whole predicate out.
pub open spec fn unroll_spec(p: PredV) -> Seq<PredV> {
    let q = splice_pred(p);
    match each_len_pred(q) {
        Some(n) => Seq::new(n, |i: int| pick_pred(q, i as nat)),
        None => seq![q],
    }
}

/// A value with its bound variables filled in. Unbound variables stay as they are.
pub open spec fn subst(v: ValV, bind: Seq<(Seq<char>, ValV)>) -> ValV
    decreases v,
{
    match v {
        ValV::Var(n, _) => match lookup(bind, n) {
            Some(x) => x,
            None => v,
        },
        ValV::List(xs) => ValV::List(subst_list(xs, bind)),
        ValV::Entity(p) => ValV::Entity(Box::new(subst_pred(*p, bind))),
        ValV::Each(xs) => ValV::Each(subst_list(xs, bind)),
        ValV::All(x) => ValV::All(Box::new(subst(*x, bind))),
        other => other,
    }
}

/// What an element of a list becomes, `filled` being the element with its variables filled in:
/// a spread variable that is bound to a list becomes the elements of that list.
pub open spec fn in_place(v: ValV, bind: Seq<(Seq<char>, ValV)>, filled: ValV) -> Seq<ValV> {
    match v {
        ValV::Var(n, true) => match lookup(bind, n) {
            Some(ValV::List(ys)) => ys,
            _ => seq![filled],
        },
        _ => seq![filled],
    }
}

/// A list with its bound variables filled in, the spread ones in their place.
pub open spec fn subst_list(xs: Seq<ValV>, bind: Seq<(Seq<char>, ValV)>) -> Seq<ValV>
    decreases xs,
{
    if xs.len() == 0 {
        Seq::empty()
    } else {
        subst_list(xs.drop_last(), bind) + in_place(
            xs[xs.len() - 1],
            bind,
            subst(xs[xs.len() - 1], bind),
        )
    }
}

pub open spec fn subst_args(xs: Seq<(Seq<char>, ValV)>, bind: Seq<(Seq<char>, ValV)>) -> Seq<
    (Seq<char>, ValV),
>
    decreases xs,
{
    Seq::new(
        xs.len(),
        |j: int|
            if 0 <= j < xs.len() {
                (xs[j].0, subst(xs[j].1, bind))
            } else {
                arbitrary()
            },
    )
}

/// A predicate with its bound variables filled in.
pub open spec fn subst_pred(p: PredV, bind: Seq<(Seq<char>, ValV)>) -> PredV
    decreases p,
{
    PredV {
        entity: p.entity,
        args: subst_args(p.args, bind),
        field: p.field,
        value: subst(p.value, bind),
    }
}

fn each_len_vals(xs: &Vec<Val>) -> (r: Option<usize>)
    ensures
        match r {
            Some(n) => each_len_list(vals_view(xs@)) == Some(n as nat),
            None => each_len_list(vals_view(xs@)) is None,
        },
    decreases xs,
{
    let ghost vs = vals_view(xs@);
    let mut i: usize = 0;
    assert(each_len_list(vs.take(0)) is None);
    while i < xs.len()
        invariant
            i <= xs@.len(),
            vs == vals_view(xs@),
            each_len_list(vs.take(i as int)) is None,
        decreases xs@.len() - i,
    {
        proof {
            let p = vs.take(i + 1);
            assert(p.drop_last() =~= vs.take(i as int));
            assert(p[p.len() - 1] == xs@[i as int]@);
        }
        let n = xs[i].each_len();
        if n.is_some() {
            proof {
                each_len_prefix(vs, i + 1);
            }
            return n;
        }
        i += 1;
    }
    assert(vs.take(i as int) =~= vs);
    None
}

proof fn each_len_prefix(xs: Seq<ValV>, k: int)
    requires
        0 <= k <= xs.len(),
        each_len_list(xs.take(k)) is Some,
    ensures
        each_len_list(xs) == each_len_list(xs.take(k)),
    decreases xs.len(),
{
    if k == xs.len() {
        assert(xs.take(k) =~= xs);
    } else {
        assert(xs.drop_last().take(k) =~= xs.take(k));
        each_len_prefix(xs.drop_last(), k);
    }
}

proof fn each_len_args_prefix(xs: Seq<(Seq<char>, ValV)>, k: int)
    requires
        0 <= k <= xs.len(),
        each_len_args(xs.take(k)) is Some,
    ensures
        each_len_args(xs) == each_len_args(xs.take(k)),
    decreases xs.len(),
{
    if k == xs.len() {
        assert(xs.take(k) =~= xs);
    } else {
        assert(xs.drop_last().take(k) =~= xs.take(k));
        each_len_args_prefix(xs.drop_last(), k);
    }
}

fn pick_vals(xs: &Vec<Val>, i: usize) -> (r: Vec<Val>)
    ensures
        vals_view(r@) == pick_list(vals_view(xs@), i as nat),
    decreases xs,
{
    let mut out: Vec<Val> = Vec::new();
    let mut j: usize = 0;
    let ghost vs = pick_list(vals_view(xs@), i as nat);
    while j < xs.len()
        invariant
            j <= xs@.len(),
            vs == pick_list(vals_view(xs@), i as nat),
            vals_view(out@) == vs.take(j as int),
        decreases xs@.len() - j,
    {
        let x = xs[j].pick(i);
        proof {
            vals_push(out@, x);
            assert(vs[j as int] == pick(xs@[j as int]@, i as nat));
        }
        out.push(x);
        j += 1;
        assert(vals_view(out@) =~= vs.take(j as int));
    }
    assert(vs.take(j as int) =~= vs);
    out
}

fn subst_vals(xs: &Vec<Val>, bind: &Vec<(String, Val)>) -> (r: Vec<Val>)
    ensures
        vals_view(r@) == subst_list(vals_view(xs@), args_view(bind@)),
    decreases xs,
{
    let mut out: Vec<Val> = Vec::new();
    let mut j: usize = 0;
    let ghost vs = vals_view(xs@);
    let ghost b = args_view(bind@);
    assert(vals_view(out@) =~= subst_list(vs.take(0), b));
    while j < xs.len()
        invariant
            j <= xs@.len(),
            vs == vals_view(xs@),
            b == args_view(bind@),
            vals_view(out@) == subst_list(vs.take(j as int), b),
        decreases xs@.len() - j,
    {
        let ghost before = vals_view(out@);
        proof {
            let p = vs.take(j + 1);
            assert(p.drop_last() =~= vs.take(j as int));
            assert(p[p.len() - 1] == xs@[j as int]@);
        }
        let spread = match &xs[j] {
            Val::Var(n, true) => lookup_val(bind, n.as_str()),
            _ => None,
        };
        match spread {
            Some(Val::List(ys)) => {
                let mut more = clone_vals(ys);
                let ghost m = vals_view(more@);
                out.append(&mut more);
                assert(vals_view(out@) =~= before + m);
            },
            _ => {
                let x = xs[j].subst(bind);
                proof {
                    vals_push(out@, x);
                }
                out.push(x);
                assert(vals_view(out@) =~= before + seq![x@]);
            },
        }
        j += 1;
    }
    assert(vs.take(j as int) =~= vs);
    out
}

impl Val {
    /// The length of the first `each(...)` found, if any.
    pub fn each_len(&self) -> (r: Option<usize>)
        ensures
            match r {
                Some(n) => each_len(self@) == Some(n as nat),
                None => each_len(self@) is None,
            },
        decreases self,
    {
        match self {
            Val::Each(xs) => {
                assert(vals_view(xs@).len() == xs@.len());
                Some(xs.len())
            },
            Val::List(xs) => each_len_vals(xs),
            Val::Entity(p) => p.each_len(),
            _ => None,
        }
    }

    /// Replace every `each(...)` with its element `i`.
    pub fn pick(&self, i: usize) -> (r: Val)
        ensures
            r@ == pick(self@, i as nat),
        decreases self,
    {
        match self {
            Val::Each(xs) => {
                assert(vals_view(xs@).len() == xs@.len());
                if i < xs.len() {
                    assert(vals_view(xs@)[i as int] == xs@[i as int]@);
                    xs[i].clone()
                } else {
                    Val::Bool(false)
                }
            },
            Val::List(xs) => Val::List(pick_vals(xs, i)),
            Val::Entity(p) => Val::Entity(Box::new(p.pick(i))),
            other => other.clone(),
        }
    }

    /// Fill in bound variables, in a list a spread one by the elements it is bound to. Unbound
    /// variables stay as they are.
    pub fn subst(&self, bind: &Vec<(String, Val)>) -> (r: Val)
        ensures
            r@ == subst(self@, args_view(bind@)),
        decreases self,
    {
        match self {
            Val::Var(n, _) => match lookup_val(bind, n.as_str()) {
                Some(x) => x.clone(),
                None => self.clone(),
            },
            Val::List(xs) => Val::List(subst_vals(xs, bind)),
            Val::Entity(p) => Val::Entity(Box::new(p.subst(bind))),
            Val::Each(xs) => Val::Each(subst_vals(xs, bind)),
            Val::All(x) => Val::All(Box::new(x.subst(bind))),
            other => other.clone(),
        }
    }
}

/// Append what an element of a list stands for.
fn push_spread(out: &mut Vec<Val>, v: Val)
    ensures
        vals_view(final(out)@) == vals_view(old(out)@) + spread(v@),
{
    let ghost before = vals_view(out@);
    match v.each_len() {
        Some(n) => {
            let mut i: usize = 0;
            let ghost all = spread(v@);
            assert(before + all.take(0) =~= before);
            while i < n
                invariant
                    i <= n,
                    all == spread(v@),
                    each_len(v@) == Some(n as nat),
                    vals_view(out@) == before + all.take(i as int),
                decreases n - i,
            {
                let x = v.pick(i);
                proof {
                    vals_push(out@, x);
                    assert(all[i as int] == x@);
                }
                out.push(x);
                i += 1;
                assert(vals_view(out@) =~= before + all.take(i as int));
            }
            assert(all.take(i as int) =~= all);
        },
        None => {
            proof {
                vals_push(out@, v);
            }
            out.push(v);
            assert(vals_view(out@) =~= before + seq![v@]);
        },
    }
}

fn splice_vals(xs: &Vec<Val>) -> (r: Vec<Val>)
    ensures
        vals_view(r@) == splice_items(vals_view(xs@)),
    decreases xs, 0nat,
{
    let ghost vs = vals_view(xs@);
    let mut out: Vec<Val> = Vec::new();
    let mut i: usize = 0;
    assert(vals_view(out@) =~= splice_items(vs.take(0)));
    while i < xs.len()
        invariant
            i <= xs@.len(),
            vs == vals_view(xs@),
            vals_view(out@) == splice_items(vs.take(i as int)),
        decreases xs@.len() - i,
    {
        let x = splice_lists(&xs[i]);
        proof {
            let p = vs.take(i + 1);
            assert(p.drop_last() =~= vs.take(i as int));
            assert(p[p.len() - 1] == xs@[i as int]@);
        }
        match x {
            Val::All(inner) => {
                push_spread(&mut out, *inner);
            },
            other => {
                push_spread(&mut out, other);
            },
        }
        i += 1;
    }
    assert(vs.take(i as int) =~= vs);
    out
}

/// Inside a list, an element carrying an `each(...)` becomes several elements.
fn splice_lists(v: &Val) -> (r: Val)
    ensures
        r@ == splice(v@),
    decreases v, 1nat,
{
    match v {
        Val::List(xs) => Val::List(splice_vals(xs)),
        Val::Each(xs) => {
            let ghost vs = splice_each(vals_view(xs@));
            let mut out: Vec<Val> = Vec::new();
            let mut i: usize = 0;
            while i < xs.len()
                invariant
                    i <= xs@.len(),
                    vs == splice_each(vals_view(xs@)),
                    vals_view(out@) == vs.take(i as int),
                    decreases_to!(v => xs),
                decreases xs@.len() - i,
            {
                let x = splice_lists(&xs[i]);
                proof {
                    vals_push(out@, x);
                    assert(vs[i as int] == splice(xs@[i as int]@));
                }
                out.push(x);
                i += 1;
                assert(vals_view(out@) =~= vs.take(i as int));
            }
            assert(vs.take(i as int) =~= vs);
            Val::Each(out)
        },
        Val::Entity(p) => Val::Entity(Box::new(splice_one(&**p))),
        Val::All(x) => Val::All(Box::new(splice_lists(&**x))),
        other => other.clone(),
    }
}

fn splice_one(p: &Pred) -> (r: Pred)
    ensures
        r@ == splice_pred(p@),
    decreases p, 0nat,
{
    let ghost xs = splice_args(args_view(p.args@));
    let mut args: Vec<(String, Val)> = Vec::new();
    let mut i: usize = 0;
    while i < p.args.len()
        invariant
            i <= p.args@.len(),
            xs == splice_args(args_view(p.args@)),
            args_view(args@) == xs.take(i as int),
        decreases p.args@.len() - i,
    {
        let x = (p.args[i].0.clone(), splice_lists(&p.args[i].1));
        proof {
            args_push(args@, x);
            assert(xs[i as int] == (p.args@[i as int].0@, splice(p.args@[i as int].1@)));
        }
        args.push(x);
        i += 1;
        assert(args_view(args@) =~= xs.take(i as int));
    }
    assert(xs.take(i as int) =~= xs);
    Pred {
        entity: p.entity.clone(),
        args,
        field: p.field.clone(),
        value: splice_lists(&p.value),
    }
}

impl Pred {
    /// The predicate with every `each(...)` replaced by its element `i`.
    pub fn pick(&self, i: usize) -> (r: Pred)
        ensures
            r@ == pick_pred(self@, i as nat),
        decreases self,
    {
        let ghost xs = pick_args(args_view(self.args@), i as nat);
        let mut args: Vec<(String, Val)> = Vec::new();
        let mut j: usize = 0;
        while j < self.args.len()
            invariant
                j <= self.args@.len(),
                xs == pick_args(args_view(self.args@), i as nat),
                args_view(args@) == xs.take(j as int),
            decreases self.args@.len() - j,
        {
            let x = (self.args[j].0.clone(), self.args[j].1.pick(i));
            proof {
                args_push(args@, x);
                assert(xs[j as int] == (
                    self.args@[j as int].0@,
                    pick(self.args@[j as int].1@, i as nat),
                ));
            }
            args.push(x);
            j += 1;
            assert(args_view(args@) =~= xs.take(j as int));
        }
        assert(xs.take(j as int) =~= xs);
        Pred {
            entity: self.entity.clone(),
            args,
            field: self.field.clone(),
            value: self.value.pick(i),
        }
    }

    /// The length of the first `each(...)` found, if any.
    pub fn each_len(&self) -> (r: Option<usize>)
        ensures
            match r {
                Some(n) => each_len_pred(self@) == Some(n as nat),
                None => each_len_pred(self@) is None,
            },
        decreases self,
    {
        let ghost vs = args_view(self.args@);
        let mut i: usize = 0;
        assert(each_len_args(vs.take(0)) is None);
        while i < self.args.len()
            invariant
                i <= self.args@.len(),
                vs == args_view(self.args@),
                each_len_args(vs.take(i as int)) is None,
            decreases self.args@.len() - i,
        {
            proof {
                let p = vs.take(i + 1);
                assert(p.drop_last() =~= vs.take(i as int));
                assert(p[p.len() - 1].1 == self.args@[i as int].1@);
            }
            let n = self.args[i].1.each_len();
            if n.is_some() {
                proof {
                    each_len_args_prefix(vs, i + 1);
                }
                return n;
            }
            i += 1;
        }
        assert(vs.take(i as int) =~= vs);
        self.value.each_len()
    }

    /// Expand every `each(...)`, with two meanings decided by position:
    ///
    /// - inside a list literal, an element containing `each` splices into that list, so
    ///   `report(invoices=[invoice(customer=each([A,B]))])` is one report over two invoices;
    /// - anywhere else, it fans the whole want out, so `invoice(customer=each([A,B]))` is two
    ///   wants.
    pub fn unroll(&self) -> (r: Vec<Pred>)
        ensures
            preds_view(r@) == unroll_spec(self@),
    {
        let spliced = splice_one(self);
        let mut out: Vec<Pred> = Vec::new();
        match spliced.each_len() {
            Some(n) => {
                let ghost all = unroll_spec(self@);
                let mut i: usize = 0;
                while i < n
                    invariant
                        i <= n,
                        all == unroll_spec(self@),
                        spliced@ == splice_pred(self@),
                        each_len_pred(spliced@) == Some(n as nat),
                        preds_view(out@) == all.take(i as int),
                        all.len() == n,
                    decreases n - i,
                {
                    let one = spliced.pick(i);
                    assert(all[i as int] == one@);
                    let ghost before = preds_view(out@);
                    out.push(one);
                    assert(preds_view(out@) =~= before.push(one@));
                    i += 1;
                    assert(preds_view(out@) =~= all.take(i as int));
                }
                assert(all.take(i as int) =~= all);
            },
            None => {
                out.push(spliced);
                assert(preds_view(out@) =~= seq![spliced@]);
            },
        }
        out
    }

    /// Fill in bound variables. Unbound variables stay as they are.
    pub fn subst(&self, bind: &Vec<(String, Val)>) -> (r: Pred)
        ensures
            r@ == subst_pred(self@, args_view(bind@)),
        decreases self,
    {
        let ghost b = args_view(bind@);
        let ghost xs = subst_args(args_view(self.args@), b);
        let mut args: Vec<(String, Val)> = Vec::new();
        let mut j: usize = 0;
        while j < self.args.len()
            invariant
                j <= self.args@.len(),
                b == args_view(bind@),
                xs == subst_args(args_view(self.args@), b),
                args_view(args@) == xs.take(j as int),
            decreases self.args@.len() - j,
        {
            let x = (self.args[j].0.clone(), self.args[j].1.subst(bind));
            proof {
                args_push(args@, x);
                assert(xs[j as int] == (
                    self.args@[j as int].0@,
                    subst(self.args@[j as int].1@, b),
                ));
            }
            args.push(x);
            j += 1;
            assert(args_view(args@) =~= xs.take(j as int));
        }
        assert(xs.take(j as int) =~= xs);
        Pred {
            entity: self.entity.clone(),
            args,
            field: self.field.clone(),
            value: self.value.subst(bind),
        }
    }
}

} // verus!
