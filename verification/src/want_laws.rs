//! What is said of wants and of declarations that do not hold up.

use crate::diff::{diff, edge_text, only_in, op_named, signature};
use crate::lint::{
    args_errors, list_errors, pred_errors, val_errors, want_errors, wants_errors, LintErrorV,
};
use crate::plan::{NodeV, PlanV};
use crate::pred::{PredV, ValV};
use crate::pred_parse::{parse_spec, ParseErrorV};
use crate::text::{dec, sort_dedup_ok};
use crate::validate::{
    document_findings, kind_findings, last_entity, ordered, pair_findings, pairs_after, shared,
    validate_spec, vars_in, vars_in_args, vars_in_list, vars_in_pred, writer_findings, FindingV,
};
use crate::world::{find_entity, EntityV, OpKind, OpV, WorldV};
use vstd::prelude::*;

verus! {

proof fn in_either<A>(a: Seq<A>, b: Seq<A>, x: A)
    ensures
        (a + b).contains(x) <==> a.contains(x) || b.contains(x),
{
    if a.contains(x) {
        let k = choose|k: int| 0 <= k < a.len() && a[k] == x;
        assert((a + b)[k] == x);
    }
    if b.contains(x) {
        let k = choose|k: int| 0 <= k < b.len() && b[k] == x;
        assert((a + b)[a.len() + k] == x);
    }
    if (a + b).contains(x) {
        let k = choose|k: int| 0 <= k < (a + b).len() && (a + b)[k] == x;
        if k < a.len() {
            assert(a[k] == x);
        } else {
            assert(b[k - a.len()] == x);
        }
    }
}

// ---------- what stands in a want ----------

/// Whether a predicate stands in a value, at any depth.
pub open spec fn inside(v: ValV, q: PredV) -> bool
    decreases v,
{
    match v {
        ValV::Entity(p) => *p == q || inside_args(p.args, q),
        ValV::List(xs) => inside_list(xs, q),
        ValV::Each(xs) => inside_list(xs, q),
        ValV::All(x) => inside(*x, q),
        _ => false,
    }
}

pub open spec fn inside_list(xs: Seq<ValV>, q: PredV) -> bool
    decreases xs,
{
    xs.len() > 0 && (inside_list(xs.drop_last(), q) || inside(xs[xs.len() - 1], q))
}

pub open spec fn inside_args(xs: Seq<(Seq<char>, ValV)>, q: PredV) -> bool
    decreases xs,
{
    xs.len() > 0 && (inside_args(xs.drop_last(), q) || inside(xs[xs.len() - 1].1, q))
}

/// What stands in an argument stands in the arguments.
pub proof fn an_argument_is_inside(xs: Seq<(Seq<char>, ValV)>, i: int, q: PredV)
    requires
        0 <= i < xs.len(),
        inside(xs[i].1, q),
    ensures
        inside_args(xs, q),
    decreases xs.len(),
{
    if i < xs.len() - 1 {
        an_argument_is_inside(xs.drop_last(), i, q);
    }
}

/// No entity has that name.
pub open spec fn unheard(es: Seq<EntityV>, name: Seq<char>) -> bool {
    forall|i: int| 0 <= i < es.len() ==> (#[trigger] es[i]).name != name
}

/// One entity has that name and no other does.
pub open spec fn heard_at(es: Seq<EntityV>, name: Seq<char>, k: int) -> bool {
    &&& 0 <= k < es.len() && es[k].name == name
    &&& forall|i: int| 0 <= i < es.len() && i != k ==> (#[trigger] es[i]).name != name
}

proof fn unheard_is_not_found(es: Seq<EntityV>, name: Seq<char>)
    requires
        unheard(es, name),
    ensures
        find_entity(es, name) is None,
        last_entity(es, name) is None,
    decreases es.len(),
{
    if es.len() > 0 {
        assert(es[0].name != name);
        assert(es[es.len() - 1].name != name);
        let t = es.drop_first();
        let u = es.drop_last();
        assert forall|i: int| 0 <= i < t.len() implies (#[trigger] t[i]).name != name by {
            assert(t[i] == es[i + 1]);
        }
        assert forall|i: int| 0 <= i < u.len() implies (#[trigger] u[i]).name != name by {
            assert(u[i] == es[i]);
        }
        unheard_is_not_found(t, name);
        unheard_is_not_found(u, name);
    }
}

proof fn heard_first(es: Seq<EntityV>, name: Seq<char>, k: int)
    requires
        heard_at(es, name, k),
    ensures
        find_entity(es, name) == Some(es[k]),
    decreases es.len(),
{
    if k > 0 {
        assert(es[0].name != name);
        let t = es.drop_first();
        assert(t[k - 1] == es[k]);
        assert forall|i: int| 0 <= i < t.len() && i != k - 1 implies (#[trigger] t[i]).name
            != name by {
            assert(t[i] == es[i + 1]);
        }
        heard_first(t, name, k - 1);
    }
}

proof fn heard_last(es: Seq<EntityV>, name: Seq<char>, k: int)
    requires
        heard_at(es, name, k),
    ensures
        last_entity(es, name) == Some(es[k]),
    decreases es.len(),
{
    if k < es.len() - 1 {
        assert(es[es.len() - 1].name != name);
        let u = es.drop_last();
        assert(u[k] == es[k]);
        assert forall|i: int| 0 <= i < u.len() && i != k implies (#[trigger] u[i]).name != name by {
            assert(u[i] == es[i]);
        }
        heard_last(u, name, k);
    }
}

/// An entity is known by its name, and by nothing else.
pub proof fn an_entity_is_known_by_its_name(es: Seq<EntityV>, name: Seq<char>, k: int)
    ensures
        unheard(es, name) ==> find_entity(es, name) is None && last_entity(es, name) is None,
        heard_at(es, name, k) ==> find_entity(es, name) == Some(es[k]) && last_entity(es, name)
            == Some(es[k]),
{
    if unheard(es, name) {
        unheard_is_not_found(es, name);
    }
    if heard_at(es, name, k) {
        heard_first(es, name, k);
        heard_last(es, name, k);
    }
}

/// The predicate is about an entity that is not there.
pub open spec fn names_nothing(es: Seq<EntityV>, q: PredV) -> bool {
    unheard(es, q.entity)
}

/// The predicate asks for a field that its entity does not have.
pub open spec fn lacks_field(es: Seq<EntityV>, q: PredV) -> bool {
    &&& exists|k: int| #[trigger] heard_at(es, q.entity, k) && !es[k].fields.contains(q.field)
    &&& q.field.len() > 0 && q.field != "exists"@ && q.field != "resolved"@
}

/// The error that a predicate earns.
pub open spec fn earned(es: Seq<EntityV>, want: Seq<char>, q: PredV, e: LintErrorV) -> bool {
    ||| names_nothing(es, q) && e == LintErrorV::UnknownEntity { want, entity: q.entity }
    ||| lacks_field(es, q) && e == LintErrorV::UnknownField {
        want,
        entity: q.entity,
        field: q.field,
    }
}

proof fn earned_by_subject(es: Seq<EntityV>, want: Seq<char>, q: PredV, e: LintErrorV)
    requires
        earned(es, want, q, e),
    ensures
        pred_errors(es, want, q).contains(e),
{
    let s = crate::lint::subject_error(es, want, q);
    if names_nothing(es, q) {
        unheard_is_not_found(es, q.entity);
    }
    if lacks_field(es, q) {
        let k = choose|k: int| #[trigger]
            heard_at(es, q.entity, k) && !es[k].fields.contains(q.field);
        heard_first(es, q.entity, k);
    }
    assert(s == seq![e] && s[0] == e);
    in_either(s, args_errors(es, want, q.args), e);
}

/// A predicate that names an unknown entity or an unknown field is reported, however deep it
/// stands.
pub proof fn a_fault_inside_is_told(
    es: Seq<EntityV>,
    want: Seq<char>,
    v: ValV,
    q: PredV,
    e: LintErrorV,
)
    requires
        inside(v, q),
        earned(es, want, q, e),
    ensures
        val_errors(es, want, v).contains(e),
    decreases v,
{
    match v {
        ValV::Entity(p) => {
            assert(val_errors(es, want, v) == pred_errors(es, want, *p));
            assert(pred_errors(es, want, *p) == crate::lint::subject_error(es, want, *p)
                + args_errors(es, want, p.args));
            if *p == q {
                earned_by_subject(es, want, q, e);
            } else {
                told_of_args(es, want, p.args, q, e);
                in_either(
                    crate::lint::subject_error(es, want, *p),
                    args_errors(es, want, p.args),
                    e,
                );
            }
        },
        ValV::List(xs) => told_of_list(es, want, xs, q, e),
        ValV::Each(xs) => told_of_list(es, want, xs, q, e),
        ValV::All(x) => a_fault_inside_is_told(es, want, *x, q, e),
        _ => {},
    }
}

proof fn told_of_list(es: Seq<EntityV>, want: Seq<char>, xs: Seq<ValV>, q: PredV, e: LintErrorV)
    requires
        inside_list(xs, q),
        earned(es, want, q, e),
    ensures
        list_errors(es, want, xs).contains(e),
    decreases xs,
{
    if inside_list(xs.drop_last(), q) {
        told_of_list(es, want, xs.drop_last(), q, e);
    } else {
        a_fault_inside_is_told(es, want, xs[xs.len() - 1], q, e);
    }
    in_either(list_errors(es, want, xs.drop_last()), val_errors(es, want, xs[xs.len() - 1]), e);
}

proof fn told_of_args(
    es: Seq<EntityV>,
    want: Seq<char>,
    xs: Seq<(Seq<char>, ValV)>,
    q: PredV,
    e: LintErrorV,
)
    requires
        inside_args(xs, q),
        earned(es, want, q, e),
    ensures
        args_errors(es, want, xs).contains(e),
    decreases xs,
{
    if inside_args(xs.drop_last(), q) {
        told_of_args(es, want, xs.drop_last(), q, e);
    } else {
        a_fault_inside_is_told(es, want, xs[xs.len() - 1].1, q, e);
    }
    in_either(args_errors(es, want, xs.drop_last()), val_errors(es, want, xs[xs.len() - 1].1), e);
}

/// The entity is there once, and the field is one that it has.
pub open spec fn about_something(es: Seq<EntityV>, q: PredV) -> bool {
    exists|k: int| #[trigger]
        heard_at(es, q.entity, k) && (q.field.len() == 0 || q.field == "exists"@ || q.field
            == "resolved"@ || es[k].fields.contains(q.field))
}

proof fn nothing_to_tell(es: Seq<EntityV>, want: Seq<char>, v: ValV)
    requires
        forall|q: PredV| #[trigger] inside(v, q) ==> about_something(es, q),
    ensures
        val_errors(es, want, v).len() == 0,
    decreases v,
{
    match v {
        ValV::Entity(p) => {
            assert(inside(v, *p));
            let k = choose|k: int| #[trigger]
                heard_at(es, p.entity, k) && (p.field.len() == 0 || p.field == "exists"@ || p.field
                    == "resolved"@ || es[k].fields.contains(p.field));
            heard_first(es, p.entity, k);
            assert forall|q: PredV| #[trigger] inside_args(p.args, q) implies about_something(
                es,
                q,
            ) by {
                assert(inside(v, q));
            }
            nothing_in_args(es, want, p.args);
            assert(val_errors(es, want, v) == pred_errors(es, want, *p));
            assert(pred_errors(es, want, *p) == crate::lint::subject_error(es, want, *p)
                + args_errors(es, want, p.args));
        },
        ValV::List(xs) => {
            assert forall|q: PredV| #[trigger] inside_list(xs, q) implies about_something(
                es,
                q,
            ) by {
                assert(inside(v, q));
            }
            nothing_in_list(es, want, xs);
        },
        ValV::Each(xs) => {
            assert forall|q: PredV| #[trigger] inside_list(xs, q) implies about_something(
                es,
                q,
            ) by {
                assert(inside(v, q));
            }
            nothing_in_list(es, want, xs);
        },
        ValV::All(x) => {
            assert forall|q: PredV| #[trigger] inside(*x, q) implies about_something(es, q) by {
                assert(inside(v, q));
            }
            nothing_to_tell(es, want, *x);
        },
        _ => {},
    }
}

proof fn nothing_in_list(es: Seq<EntityV>, want: Seq<char>, xs: Seq<ValV>)
    requires
        forall|q: PredV| #[trigger] inside_list(xs, q) ==> about_something(es, q),
    ensures
        list_errors(es, want, xs).len() == 0,
    decreases xs,
{
    if xs.len() > 0 {
        let d = xs.drop_last();
        let x = xs[xs.len() - 1];
        assert forall|q: PredV| #[trigger] inside_list(d, q) implies about_something(es, q) by {
            assert(inside_list(xs, q));
        }
        assert forall|q: PredV| #[trigger] inside(x, q) implies about_something(es, q) by {
            assert(inside_list(xs, q));
        }
        nothing_in_list(es, want, d);
        nothing_to_tell(es, want, x);
    }
}

proof fn nothing_in_args(es: Seq<EntityV>, want: Seq<char>, xs: Seq<(Seq<char>, ValV)>)
    requires
        forall|q: PredV| #[trigger] inside_args(xs, q) ==> about_something(es, q),
    ensures
        args_errors(es, want, xs).len() == 0,
    decreases xs,
{
    if xs.len() > 0 {
        let d = xs.drop_last();
        let x = xs[xs.len() - 1].1;
        assert forall|q: PredV| #[trigger] inside_args(d, q) implies about_something(es, q) by {
            assert(inside_args(xs, q));
        }
        assert forall|q: PredV| #[trigger] inside(x, q) implies about_something(es, q) by {
            assert(inside_args(xs, q));
        }
        nothing_in_args(es, want, d);
        nothing_to_tell(es, want, x);
    }
}

// ---------- variables ----------

/// Whether a variable stands in a value, at any depth.
pub open spec fn mentions(v: ValV, n: Seq<char>) -> bool
    decreases v,
{
    match v {
        ValV::Var(m, _) => m == n,
        ValV::List(xs) => mentions_in_list(xs, n),
        ValV::Each(xs) => mentions_in_list(xs, n),
        ValV::All(x) => mentions(*x, n),
        ValV::Entity(p) => mentions(p.value, n) || mentions_in_args(p.args, n),
        _ => false,
    }
}

pub open spec fn mentions_in_list(xs: Seq<ValV>, n: Seq<char>) -> bool
    decreases xs,
{
    xs.len() > 0 && (mentions_in_list(xs.drop_last(), n) || mentions(xs[xs.len() - 1], n))
}

pub open spec fn mentions_in_args(xs: Seq<(Seq<char>, ValV)>, n: Seq<char>) -> bool
    decreases xs,
{
    xs.len() > 0 && (mentions_in_args(xs.drop_last(), n) || mentions(xs[xs.len() - 1].1, n))
}

/// What an argument mentions, the arguments mention.
pub proof fn an_argument_is_heard(xs: Seq<(Seq<char>, ValV)>, i: int, n: Seq<char>)
    requires
        0 <= i < xs.len(),
        mentions(xs[i].1, n),
    ensures
        mentions_in_args(xs, n),
    decreases xs.len(),
{
    if i < xs.len() - 1 {
        an_argument_is_heard(xs.drop_last(), i, n);
    }
}

/// Every variable of a value is found, and nothing else is taken for one.
pub proof fn every_variable_is_found(v: ValV, n: Seq<char>)
    ensures
        vars_in(v).contains(n) <==> mentions(v, n),
    decreases v,
{
    match v {
        ValV::Var(m, _) => {
            assert(vars_in(v) == seq![m]);
            assert(seq![m][0] == m);
            if seq![m].contains(n) {
                let k = choose|k: int| 0 <= k < seq![m].len() && seq![m][k] == n;
                assert(k == 0);
            }
        },
        ValV::List(xs) => found_in_list(xs, n),
        ValV::Each(xs) => found_in_list(xs, n),
        ValV::All(x) => every_variable_is_found(*x, n),
        ValV::Entity(p) => {
            found_in_args(p.args, n);
            every_variable_is_found(p.value, n);
            in_either(vars_in_args(p.args), vars_in(p.value), n);
            assert(vars_in(v) == vars_in_pred(*p));
            assert(vars_in_pred(*p) == vars_in_args(p.args) + vars_in(p.value));
        },
        _ => {
            assert(vars_in(v).len() == 0);
        },
    }
}

proof fn found_in_list(xs: Seq<ValV>, n: Seq<char>)
    ensures
        vars_in_list(xs).contains(n) <==> mentions_in_list(xs, n),
    decreases xs,
{
    if xs.len() > 0 {
        found_in_list(xs.drop_last(), n);
        every_variable_is_found(xs[xs.len() - 1], n);
        in_either(vars_in_list(xs.drop_last()), vars_in(xs[xs.len() - 1]), n);
    }
}

proof fn found_in_args(xs: Seq<(Seq<char>, ValV)>, n: Seq<char>)
    ensures
        vars_in_args(xs).contains(n) <==> mentions_in_args(xs, n),
    decreases xs,
{
    if xs.len() > 0 {
        found_in_args(xs.drop_last(), n);
        every_variable_is_found(xs[xs.len() - 1].1, n);
        in_either(vars_in_args(xs.drop_last()), vars_in(xs[xs.len() - 1].1), n);
    }
}

// ---------- wants ----------

/// Whether an operation finds what exists of that entity already.
pub open spec fn finder(o: OpV, entity: Seq<char>) -> bool {
    &&& o.post matches Some(p) && p.field == "resolved"@
    &&& o.produces == Some(entity)
}

/// A want is refused for each of its faults: a variable in it, a predicate about nothing, a wish
/// for what is only ever found.
pub proof fn a_want_is_refused_for_its_faults(
    w: WorldV,
    want: Seq<char>,
    p: PredV,
    n: Seq<char>,
    q: PredV,
    e: LintErrorV,
    k: int,
)
    requires
        parse_spec(want) == Ok::<PredV, ParseErrorV>(p),
    ensures
        mentions(ValV::Entity(Box::new(p)), n) ==> want_errors(w, want).contains(
            LintErrorV::VariableInWant { want },
        ),
        inside(ValV::Entity(Box::new(p)), q) && earned(w.entities, want, q, e) ==> want_errors(
            w,
            want,
        ).contains(e),
        (p.field == "exists"@ || p.field == "resolved"@) && 0 <= k < w.ops.len() && finder(
            w.ops[k],
            p.entity,
        ) ==> want_errors(w, want).contains(LintErrorV::WantsAnEntityThatAlreadyExists { want }),
{
    let v = ValV::Entity(Box::new(p));
    let x = LintErrorV::VariableInWant { want };
    let y = LintErrorV::WantsAnEntityThatAlreadyExists { want };
    let a: Seq<LintErrorV> = if vars_in_pred(p).len() > 0 {
        seq![x]
    } else {
        Seq::empty()
    };
    let b = pred_errors(w.entities, want, p);
    let c: Seq<LintErrorV> = if crate::pred::existence(p.field) && crate::lint::found_never_made(
        w.ops,
        p.entity,
    ) {
        seq![y]
    } else {
        Seq::empty()
    };
    assert(want_errors(w, want) == a + b + c);
    every_variable_is_found(v, n);
    if mentions(v, n) {
        assert(vars_in(v) == vars_in_pred(p));
        assert(vars_in_pred(p).contains(n));
        assert(a[0] == x);
    }
    if inside(v, q) && earned(w.entities, want, q, e) {
        a_fault_inside_is_told(w.entities, want, v, q, e);
    }
    if (p.field == "exists"@ || p.field == "resolved"@) && 0 <= k < w.ops.len() && finder(
        w.ops[k],
        p.entity,
    ) {
        assert(crate::lint::finds(w.ops[k], p.entity));
        assert(c[0] == y);
    }
    in_either(a, b, x);
    in_either(a + b, c, x);
    in_either(a, b, e);
    in_either(a + b, c, e);
    in_either(a + b, c, y);
}

/// A want without a fault is not refused.
pub proof fn a_sound_want_passes(w: WorldV, want: Seq<char>, p: PredV)
    requires
        parse_spec(want) == Ok::<PredV, ParseErrorV>(p),
        forall|n: Seq<char>| !#[trigger] mentions(ValV::Entity(Box::new(p)), n),
        forall|q: PredV| #[trigger]
            inside(ValV::Entity(Box::new(p)), q) ==> about_something(w.entities, q),
        p.field != "exists"@ && p.field != "resolved"@ || forall|i: int|
            0 <= i < w.ops.len() ==> !finder(#[trigger] w.ops[i], p.entity),
    ensures
        want_errors(w, want).len() == 0,
{
    let v = ValV::Entity(Box::new(p));
    nothing_to_tell(w.entities, want, v);
    assert(val_errors(w.entities, want, v) == pred_errors(w.entities, want, p));
    if vars_in_pred(p).len() > 0 {
        let n = vars_in_pred(p)[0];
        assert(vars_in(v) == vars_in_pred(p));
        assert(vars_in(v).contains(n));
        every_variable_is_found(v, n);
    }
    if crate::lint::found_never_made(w.ops, p.entity) {
        let i = choose|i: int|
            0 <= i < w.ops.len() && crate::lint::finds(#[trigger] w.ops[i], p.entity);
        assert(finder(w.ops[i], p.entity));
    }
}

#[verifier::opaque]
pub open spec fn held(w: WorldV, want: Seq<char>) -> Seq<LintErrorV> {
    want_errors(w, want)
}

#[verifier::opaque]
pub open spec fn all_held(w: WorldV, wants: Seq<Seq<char>>) -> Seq<LintErrorV> {
    wants_errors(w, wants)
}

proof fn one_more_held(w: WorldV, wants: Seq<Seq<char>>)
    ensures
        wants.len() == 0 ==> all_held(w, wants).len() == 0,
        wants.len() > 0 ==> all_held(w, wants) == all_held(w, wants.drop_last()) + held(
            w,
            wants.last(),
        ),
{
    reveal(held);
    reveal(all_held);
}

/// Whether the want at a place has that fault.
pub open spec fn faulty(w: WorldV, wants: Seq<Seq<char>>, i: int, e: LintErrorV) -> bool {
    0 <= i < wants.len() && held(w, wants[i]).contains(e)
}

proof fn held_one_by_one(w: WorldV, wants: Seq<Seq<char>>, e: LintErrorV)
    ensures
        all_held(w, wants).contains(e) <==> exists|i: int| #[trigger] faulty(w, wants, i, e),
    decreases wants.len(),
{
    one_more_held(w, wants);
    if wants.len() > 0 {
        let d = wants.drop_last();
        let n = wants.len() - 1;
        held_one_by_one(w, d, e);
        in_either(all_held(w, d), held(w, wants.last()), e);
        if all_held(w, d).contains(e) {
            let i = choose|i: int| #[trigger] faulty(w, d, i, e);
            assert(faulty(w, wants, i, e));
        }
        if held(w, wants.last()).contains(e) {
            assert(faulty(w, wants, n, e));
        }
        if exists|i: int| #[trigger] faulty(w, wants, i, e) {
            let i = choose|i: int| #[trigger] faulty(w, wants, i, e);
            if i < n {
                assert(faulty(w, d, i, e));
            }
        }
    }
}

/// What is said of wants is what is said of each of them.
pub proof fn every_want_is_held_up(w: WorldV, wants: Seq<Seq<char>>, e: LintErrorV, i: int)
    ensures
        0 <= i < wants.len() && want_errors(w, wants[i]).contains(e) ==> wants_errors(
            w,
            wants,
        ).contains(e),
        wants_errors(w, wants).contains(e) ==> exists|j: int| #[trigger] faulty(w, wants, j, e),
{
    held_one_by_one(w, wants, e);
    assert(all_held(w, wants) == wants_errors(w, wants)) by {
        reveal(all_held);
    }
    if 0 <= i < wants.len() && want_errors(w, wants[i]).contains(e) {
        assert(held(w, wants[i]) == want_errors(w, wants[i])) by {
            reveal(held);
        }
        assert(faulty(w, wants, i, e));
    }
}

/// A want that does not parse is reported with what the parser said.
pub proof fn an_unreadable_want_is_told(w: WorldV, want: Seq<char>, source: ParseErrorV)
    requires
        parse_spec(want) == Err::<PredV, ParseErrorV>(source),
    ensures
        want_errors(w, want) == seq![LintErrorV::Unparseable { want, source }],
{
}

// ---------- declarations ----------

/// A model without an entity, or in which no operation makes anything true, is faulty as a whole.
pub proof fn an_empty_model_is_told(w: WorldV)
    ensures
        w.entities.len() == 0 <==> exists|i: int|
            0 <= i < document_findings(w).len() && (#[trigger] document_findings(w)[i]).code
                == "no_entities"@,
        (forall|i: int| 0 <= i < w.ops.len() ==> (#[trigger] w.ops[i]).post is None) <==> exists|
            i: int,
        |
            0 <= i < document_findings(w).len() && (#[trigger] document_findings(w)[i]).code
                == "nothing_plannable"@,
        forall|i: int|
            0 <= i < document_findings(w).len() ==> (#[trigger] document_findings(w)[i]).fatal,
{
    reveal_strlit("no_entities");
    assert("no_entities"@.len() == 11);
    reveal_strlit("nothing_plannable");
    assert("nothing_plannable"@.len() == 17);
    let fs = document_findings(w);
    let none = forall|i: int| 0 <= i < w.ops.len() ==> (#[trigger] w.ops[i]).post is None;
    if w.entities.len() == 0 {
        assert(fs[0].code == "no_entities"@);
        if none {
            assert(fs[1].code == "nothing_plannable"@);
        }
    } else if none {
        assert(fs[0].code == "nothing_plannable"@);
    }
}

/// An operation that nothing can call is faulty; one that no want can ask for, and an event that
/// no reading confirms, are only pointed out.
pub proof fn a_kind_asks_for_its_own(o: OpV)
    ensures
        o.kind != OpKind::Event && o.surfaces.len() == 0 ==> (kind_findings(o).len() == 1
            && kind_findings(o)[0].code == "no_surfaces"@ && kind_findings(o)[0].fatal),
        o.kind == OpKind::Http && o.surfaces.len() > 0 && o.post is None ==> (kind_findings(o).len()
            == 1 && kind_findings(o)[0].code == "no_postcondition"@ && !kind_findings(o)[0].fatal),
        o.kind == OpKind::Event && o.check is None ==> (kind_findings(o).len() == 1
            && kind_findings(o)[0].code == "event_without_check"@ && !kind_findings(o)[0].fatal),
        o.kind == OpKind::Event && o.check is Some ==> kind_findings(o).len() == 0,
        o.kind != OpKind::Event && o.surfaces.len() > 0 && o.post is Some ==> kind_findings(o).len()
            == 0,
        kind_findings(o).len() > 0 ==> kind_findings(o)[0].op == o.name,
{
}

/// Both write one thing that is not new.
pub open spec fn both_write(a: OpV, b: OpV, i: int, j: int) -> bool {
    &&& 0 <= i < a.writes.len() && 0 <= j < b.writes.len()
    &&& a.writes[i] == b.writes[j]
    &&& !(":new"@.is_suffix_of(a.writes[i]))
}

proof fn shared_is_found(a: Seq<Seq<char>>, b: Seq<Seq<char>>, i: int)
    requires
        0 <= i < a.len(),
        b.contains(a[i]),
        !(":new"@.is_suffix_of(a[i])),
    ensures
        shared(a, b) is Some,
    decreases a.len(),
{
    if i > 0 {
        assert(a.drop_first()[i - 1] == a[i]);
        shared_is_found(a.drop_first(), b, i - 1);
    }
}

proof fn shared_is_shared(a: Seq<Seq<char>>, b: Seq<Seq<char>>)
    ensures
        shared(a, b) matches Some(s) ==> a.contains(s) && b.contains(s) && !(":new"@.is_suffix_of(
            s,
        )),
    decreases a.len(),
{
    if a.len() > 0 {
        let t = a.drop_first();
        shared_is_shared(t, b);
        if t.contains(shared(t, b)->0) {
            let k = choose|k: int| 0 <= k < t.len() && t[k] == shared(t, b)->0;
            assert(a[k + 1] == t[k]);
        }
    }
}

/// Two operations that write one thing, and that nothing puts in order, are pointed out, wherever
/// they stand.
pub proof fn unordered_writers_are_told(w: WorldV, x: int, y: int, i: int, j: int)
    requires
        0 <= x < y < w.ops.len(),
        both_write(w.ops[x], w.ops[y], i, j),
        !ordered(w, w.ops[x].name, w.ops[y].name),
        !ordered(w, w.ops[y].name, w.ops[x].name),
    ensures
        exists|k: int|
            0 <= k < validate_spec(w).len() && (#[trigger] validate_spec(w)[k]).code
                == "unordered_writers"@ && validate_spec(w)[k].op == w.ops[x].name + " / "@
                + w.ops[y].name,
{
    let a = w.ops[x];
    let b = w.ops[y];
    assert(b.writes.contains(a.writes[i]));
    shared_is_found(a.writes, b.writes, i);
    let f = pair_findings(w, a, b)[0];
    assert(pair_findings(w, a, b).contains(f));
    pair_is_told_after(w, x, (w.ops.len() - 1 - x) as nat, y - x, f);
    writer_is_told(w, w.ops.len(), x, f);
    let head = document_findings(w) + crate::validate::ops_findings(w, w.ops);
    in_either(head, writer_findings(w, w.ops.len()), f);
    let k = choose|k: int| 0 <= k < validate_spec(w).len() && validate_spec(w)[k] == f;
    assert(validate_spec(w)[k].code == "unordered_writers"@);
}

proof fn pair_is_told_after(w: WorldV, x: int, k: nat, d: int, f: FindingV)
    requires
        0 < d <= k,
        pair_findings(w, w.ops[x], w.ops[x + d]).contains(f),
    ensures
        pairs_after(w, x, k).contains(f),
    decreases k,
{
    if d < k {
        pair_is_told_after(w, x, (k - 1) as nat, d, f);
    }
    in_either(
        pairs_after(w, x, (k - 1) as nat),
        pair_findings(w, w.ops[x], w.ops[x + k]),
        f,
    );
}

proof fn writer_is_told(w: WorldV, n: nat, x: int, f: FindingV)
    requires
        0 <= x < n <= w.ops.len(),
        pairs_after(w, x, (w.ops.len() - 1 - x) as nat).contains(f),
    ensures
        writer_findings(w, n).contains(f),
    decreases n,
{
    if x < n - 1 {
        writer_is_told(w, (n - 1) as nat, x, f);
    }
    in_either(
        writer_findings(w, (n - 1) as nat),
        pairs_after(w, n - 1, (w.ops.len() - n) as nat),
        f,
    );
}

/// Two operations are pointed out only where both write one thing and nothing orders them.
pub proof fn ordered_writers_are_not_told(w: WorldV, a: OpV, b: OpV)
    requires
        pair_findings(w, a, b).len() > 0,
    ensures
        !ordered(w, a.name, b.name),
        !ordered(w, b.name, a.name),
        exists|s: Seq<char>| #[trigger]
            a.writes.contains(s) && b.writes.contains(s) && !(":new"@.is_suffix_of(s)),
        pair_findings(w, a, b).len() == 1,
        !pair_findings(w, a, b)[0].fatal,
{
    shared_is_shared(a.writes, b.writes);
}

// ---------- the other order ----------

/// Two plans differ in their steps, in their depth, or in an order that only one of them asks for;
/// each of these is told.
pub proof fn what_changed_is_told(a: PlanV, b: PlanV, e: (Seq<char>, Seq<char>))
    ensures
        a.nodes.len() != b.nodes.len() ==> diff(a, b).contains(
            dec(a.nodes.len()) + " "@ + "steps"@ + " one way, "@ + dec(b.nodes.len())
                + " the other"@,
        ),
        crate::plan::depth_spec(a) != crate::plan::depth_spec(b) ==> diff(a, b).contains(
            dec(crate::plan::depth_spec(a)) + " "@ + "deep"@ + " one way, "@ + dec(
                crate::plan::depth_spec(b),
            ) + " the other"@,
        ),
        a.edges.contains(e) && !signature(b).contains(edge_text(a, e)) ==> diff(a, b).contains(
            "only in the declared order: "@ + edge_text(a, e),
        ),
        b.edges.contains(e) && !signature(a).contains(edge_text(b, e)) ==> diff(a, b).contains(
            "only in the reversed order: "@ + edge_text(b, e),
        ),
{
    let s = crate::diff::unlike(a.nodes.len(), b.nodes.len(), "steps"@);
    let d = crate::diff::unlike(
        crate::plan::depth_spec(a),
        crate::plan::depth_spec(b),
        "deep"@,
    );
    let x = only_in(signature(a), signature(b), "only in the declared order: "@);
    let y = only_in(signature(b), signature(a), "only in the reversed order: "@);
    let st = dec(a.nodes.len()) + " "@ + "steps"@ + " one way, "@ + dec(b.nodes.len())
        + " the other"@;
    let dt = dec(crate::plan::depth_spec(a)) + " "@ + "deep"@ + " one way, "@ + dec(
        crate::plan::depth_spec(b),
    ) + " the other"@;
    assert(diff(a, b) == s + d + x + y);
    if a.nodes.len() != b.nodes.len() {
        assert(s[0] == st);
    }
    if crate::plan::depth_spec(a) != crate::plan::depth_spec(b) {
        assert(d[0] == dt);
    }
    let xt = "only in the declared order: "@ + edge_text(a, e);
    let yt = "only in the reversed order: "@ + edge_text(b, e);
    if a.edges.contains(e) {
        an_order_is_signed(a, e);
        kept_apart(signature(a), signature(b), "only in the declared order: "@, edge_text(a, e));
    }
    if b.edges.contains(e) {
        an_order_is_signed(b, e);
        kept_apart(signature(b), signature(a), "only in the reversed order: "@, edge_text(b, e));
    }
    in_either(s, d, st);
    in_either(s + d, x, st);
    in_either(s + d + x, y, st);
    in_either(s, d, dt);
    in_either(s + d, x, dt);
    in_either(s + d + x, y, dt);
    in_either(s + d, x, xt);
    in_either(s + d + x, y, xt);
    in_either(s + d + x, y, yt);
}

/// Every order that a plan asks for is in its signature.
pub proof fn an_order_is_signed(p: PlanV, e: (Seq<char>, Seq<char>))
    requires
        p.edges.contains(e),
    ensures
        signature(p).contains(edge_text(p, e)),
{
    let ts = p.edges.map_values(|e: (Seq<char>, Seq<char>)| edge_text(p, e));
    let k = choose|k: int| 0 <= k < p.edges.len() && p.edges[k] == e;
    assert(ts[k] == edge_text(p, e));
    sort_dedup_ok(ts);
}

/// An order is told by the operations of the nodes it joins.
pub proof fn an_order_is_of_operations(ns: Seq<NodeV>, k: int)
    requires
        0 <= k < ns.len(),
        forall|i: int| k < i < ns.len() ==> (#[trigger] ns[i]).id != ns[k].id,
    ensures
        op_named(ns, ns[k].id) == ns[k].op,
    decreases ns.len(),
{
    if k < ns.len() - 1 {
        assert(ns[ns.len() - 1].id != ns[k].id);
        let d = ns.drop_last();
        assert(d[k] == ns[k]);
        assert forall|i: int| k < i < d.len() implies (#[trigger] d[i]).id != d[k].id by {
            assert(d[i] == ns[i]);
        }
        an_order_is_of_operations(d, k);
    }
}

proof fn kept_apart(a: Seq<Seq<char>>, b: Seq<Seq<char>>, words: Seq<char>, x: Seq<char>)
    ensures
        a.contains(x) && !b.contains(x) ==> only_in(a, b, words).contains(words + x),
    decreases a.len(),
{
    if a.len() > 0 && a.contains(x) && !b.contains(x) {
        let d = a.drop_last();
        let r = only_in(d, b, words);
        if a.last() == x {
            assert(r.push(words + x)[r.len() as int] == words + x);
        } else {
            let k = choose|k: int| 0 <= k < a.len() && a[k] == x;
            assert(d[k] == x);
            kept_apart(d, b, words, x);
            let j = choose|j: int| 0 <= j < r.len() && r[j] == words + x;
            assert(only_in(a, b, words)[j] == words + x);
        }
    }
}

} // verus!
