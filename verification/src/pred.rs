//! The predicate language shared by wants, postconditions and requirements.
//!
//! ```text
//! invoice(customer=customer(name='Acme')).exists
//! invoice(id=$id).status='sent'
//! report(invoices=[invoice(customer=customer(name='Acme')), $A]).exists
//! ```
//!
//! A predicate names an entity, identifies it by arguments, and states one field.
//! `$name` is a variable bound by unification, `$name[]` spreads a list, `$A.id` refers to the
//! output of node A, and a nested `entity(...)` is a reference the compiler resolves to a node.

use crate::text::{owned, same};
use vstd::prelude::*;

verus! {

/// A value in a predicate.
#[derive(Debug, PartialEq)]
pub enum Val {
    Str(String),
    Num(i64),
    Bool(bool),
    List(Vec<Val>),
    /// `$name` or `$name[]`
    Var(String, bool),
    /// `$node.field`
    Ref(String, String),
    /// `entity(args)` used as a value: something to resolve to an id.
    Entity(Box<Pred>),
    /// `each([a,b,c])`: the want is unrolled once per element before compiling.
    Each(Vec<Val>),
    /// `all(x)`: inside a list, everything that `x` unrolls to.
    All(Box<Val>),
}

/// A predicate: an entity, the arguments that identify it, one field and its value.
#[derive(Debug, PartialEq)]
pub struct Pred {
    pub entity: String,
    pub args: Vec<(String, Val)>,
    /// Empty for a bare entity reference.
    pub field: String,
    pub value: Val,
}

/// The mathematical content of a `Val`.
pub enum ValV {
    Str(Seq<char>),
    Num(int),
    Bool(bool),
    List(Seq<ValV>),
    Var(Seq<char>, bool),
    Ref(Seq<char>, Seq<char>),
    Entity(Box<PredV>),
    Each(Seq<ValV>),
    All(Box<ValV>),
}

/// The mathematical content of a `Pred`.
pub struct PredV {
    pub entity: Seq<char>,
    pub args: Seq<(Seq<char>, ValV)>,
    pub field: Seq<char>,
    pub value: ValV,
}

pub open spec fn val_view(v: Val) -> ValV
    decreases v,
{
    match v {
        Val::Str(s) => ValV::Str(s@),
        Val::Num(n) => ValV::Num(n as int),
        Val::Bool(b) => ValV::Bool(b),
        Val::List(xs) => ValV::List(vals_view(xs@)),
        Val::Var(n, spread) => ValV::Var(n@, spread),
        Val::Ref(n, f) => ValV::Ref(n@, f@),
        Val::Entity(p) => ValV::Entity(Box::new(pred_view(*p))),
        Val::Each(xs) => ValV::Each(vals_view(xs@)),
        Val::All(x) => ValV::All(Box::new(val_view(*x))),
    }
}

pub open spec fn vals_view(xs: Seq<Val>) -> Seq<ValV>
    decreases xs,
{
    Seq::new(
        xs.len(),
        |i: int|
            if 0 <= i < xs.len() {
                val_view(xs[i])
            } else {
                arbitrary()
            },
    )
}

pub open spec fn args_view(xs: Seq<(String, Val)>) -> Seq<(Seq<char>, ValV)>
    decreases xs,
{
    Seq::new(
        xs.len(),
        |i: int|
            if 0 <= i < xs.len() {
                (xs[i].0@, val_view(xs[i].1))
            } else {
                arbitrary()
            },
    )
}

pub open spec fn pred_view(p: Pred) -> PredV
    decreases p,
{
    PredV {
        entity: p.entity@,
        args: args_view(p.args@),
        field: p.field@,
        value: val_view(p.value),
    }
}

impl View for Val {
    type V = ValV;

    open spec fn view(&self) -> ValV {
        val_view(*self)
    }
}

impl View for Pred {
    type V = PredV;

    open spec fn view(&self) -> PredV {
        pred_view(*self)
    }
}

pub proof fn vals_push(xs: Seq<Val>, x: Val)
    ensures
        vals_view(xs.push(x)) == vals_view(xs).push(x@),
{
    assert(vals_view(xs.push(x)) =~= vals_view(xs).push(x@));
}

pub proof fn args_push(xs: Seq<(String, Val)>, x: (String, Val))
    ensures
        args_view(xs.push(x)) == args_view(xs).push((x.0@, x.1@)),
{
    assert(args_view(xs.push(x)) =~= args_view(xs).push((x.0@, x.1@)));
}

/// What each predicate of a sequence is.
pub open spec fn preds_view(ps: Seq<Pred>) -> Seq<PredV> {
    ps.map_values(|p: Pred| p@)
}

/// The first value under the name `k`, if there is one.
pub open spec fn lookup(args: Seq<(Seq<char>, ValV)>, k: Seq<char>) -> Option<ValV>
    decreases args.len(),
{
    if args.len() == 0 {
        None
    } else if args[0].0 == k {
        Some(args[0].1)
    } else {
        lookup(args.drop_first(), k)
    }
}

/// A field that says only that the entity is there.
pub open spec fn existence(field: Seq<char>) -> bool {
    field == "exists"@ || field == "resolved"@
}

/// The same entity and identification, but asking only that it exists.
pub open spec fn as_exists_spec(p: PredV) -> PredV {
    PredV { entity: p.entity, args: p.args, field: "exists"@, value: ValV::Bool(true) }
}

pub proof fn lookup_skip(args: Seq<(Seq<char>, ValV)>, k: Seq<char>, i: int)
    requires
        0 <= i <= args.len(),
        forall|j: int| 0 <= j < i ==> (#[trigger] args[j]).0 != k,
    ensures
        lookup(args, k) == lookup(args.skip(i), k),
    decreases i,
{
    if i == 0 {
        assert(args.skip(0) =~= args);
    } else {
        assert(args[0].0 != k);
        let t = args.drop_first();
        assert forall|j: int| 0 <= j < i - 1 implies (#[trigger] t[j]).0 != k by {
            assert(t[j] == args[j + 1]);
        }
        lookup_skip(t, k, i - 1);
        assert(t.skip(i - 1) =~= args.skip(i));
    }
}

/// The first value under the name `k` in a list of pairs.
pub fn lookup_val<'a>(args: &'a Vec<(String, Val)>, k: &str) -> (r: Option<&'a Val>)
    ensures
        match r {
            Some(v) => lookup(args_view(args@), k@) == Some(v@),
            None => lookup(args_view(args@), k@) is None,
        },
{
    let ghost s = args_view(args@);
    let mut i: usize = 0;
    while i < args.len()
        invariant
            i <= args@.len(),
            s == args_view(args@),
            forall|j: int| 0 <= j < i ==> (#[trigger] s[j]).0 != k@,
        decreases args@.len() - i,
    {
        if same(args[i].0.as_str(), k) {
            proof {
                lookup_skip(s, k@, i as int);
                assert(s.skip(i as int)[0] == s[i as int]);
            }
            return Some(&args[i].1);
        }
        i += 1;
    }
    proof {
        lookup_skip(s, k@, i as int);
    }
    None
}

impl Clone for Val {
    fn clone(&self) -> (r: Self)
        ensures
            r@ == self@,
        decreases self,
    {
        match self {
            Val::Str(s) => Val::Str(s.clone()),
            Val::Num(n) => Val::Num(*n),
            Val::Bool(b) => Val::Bool(*b),
            Val::List(xs) => Val::List(clone_vals(xs)),
            Val::Var(n, spread) => Val::Var(n.clone(), *spread),
            Val::Ref(n, f) => Val::Ref(n.clone(), f.clone()),
            Val::Entity(p) => Val::Entity(Box::new((&**p).clone())),
            Val::Each(xs) => Val::Each(clone_vals(xs)),
            Val::All(x) => Val::All(Box::new((&**x).clone())),
        }
    }
}

impl Clone for Pred {
    fn clone(&self) -> (r: Self)
        ensures
            r@ == self@,
        decreases self,
    {
        Pred {
            entity: self.entity.clone(),
            args: clone_args(&self.args),
            field: self.field.clone(),
            value: self.value.clone(),
        }
    }
}

/// A copy of a list of values.
pub fn clone_vals(xs: &Vec<Val>) -> (r: Vec<Val>)
    ensures
        vals_view(r@) == vals_view(xs@),
    decreases xs,
{
    let mut out: Vec<Val> = Vec::new();
    let mut i: usize = 0;
    while i < xs.len()
        invariant
            i <= xs@.len(),
            vals_view(out@) == vals_view(xs@).take(i as int),
        decreases xs@.len() - i,
    {
        let x = xs[i].clone();
        proof {
            vals_push(out@, x);
        }
        out.push(x);
        i += 1;
        assert(vals_view(out@) =~= vals_view(xs@).take(i as int));
    }
    assert(vals_view(xs@).take(i as int) =~= vals_view(xs@));
    out
}

/// A copy of a list of named values.
pub fn clone_args(xs: &Vec<(String, Val)>) -> (r: Vec<(String, Val)>)
    ensures
        args_view(r@) == args_view(xs@),
    decreases xs,
{
    let mut out: Vec<(String, Val)> = Vec::new();
    let mut i: usize = 0;
    while i < xs.len()
        invariant
            i <= xs@.len(),
            args_view(out@) == args_view(xs@).take(i as int),
        decreases xs@.len() - i,
    {
        let x = (xs[i].0.clone(), xs[i].1.clone());
        proof {
            args_push(out@, x);
        }
        out.push(x);
        i += 1;
        assert(args_view(out@) =~= args_view(xs@).take(i as int));
    }
    assert(args_view(xs@).take(i as int) =~= args_view(xs@));
    out
}

impl Pred {
    /// The first argument named `k`.
    pub fn arg(&self, k: &str) -> (r: Option<&Val>)
        ensures
            match r {
                Some(v) => lookup(self@.args, k@) == Some(v@),
                None => lookup(self@.args, k@) is None,
            },
    {
        lookup_val(&self.args, k)
    }

    /// Whether the field says only that the entity is there.
    pub fn is_existence(&self) -> (r: bool)
        ensures
            r == existence(self@.field),
    {
        same(self.field.as_str(), "exists") || same(self.field.as_str(), "resolved")
    }

    /// The same entity and identification, but asking only that it exists.
    pub fn as_exists(&self) -> (r: Pred)
        ensures
            r@ == as_exists_spec(self@),
    {
        Pred {
            entity: self.entity.clone(),
            args: clone_args(&self.args),
            field: owned("exists"),
            value: Val::Bool(true),
        }
    }
}

impl Val {
    /// The string, where the value is one.
    pub fn as_str(&self) -> (r: Option<&str>)
        ensures
            match r {
                Some(s) => self@ == ValV::Str(s@),
                None => !(self@ is Str),
            },
    {
        match self {
            Val::Str(s) => Some(s.as_str()),
            _ => None,
        }
    }
}

} // verus!
