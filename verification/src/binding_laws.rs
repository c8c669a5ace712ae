//! What a want binds, and what a node is made from it: its arguments, its question, its key, and
//! what it waits for.

use crate::code::int_dec_differs;
use crate::compile_model::{
    content, entity_want, expand, expand_args, expand_val, find_fork, make_node, node_args,
    node_fork, put_arg, resolvable, resolve_val, unify, unify_args, unify_list, unify_val,
    val_to_arg, vals_to_args, CompileErrorV, Env, State,
};
use crate::cut::replaced;
use crate::hash::hash_text;
use crate::intent::IntentForkV;
use crate::json::{entry, JsonV};
use crate::plan::ArgV;
use crate::pred::{lookup, PredV, ValV};
use crate::text::int_dec;
use crate::world::{ForkV, OpV, ParamV};
use vstd::prelude::*;

verus! {

// ---------- looking up ----------

/// A name is bound to the value of the first binding of that name.
pub proof fn the_first_binding_counts(b: Seq<(Seq<char>, ValV)>, k: Seq<char>, i: int)
    requires
        0 <= i < b.len(),
        b[i].0 == k,
        forall|j: int| 0 <= j < i ==> (#[trigger] b[j]).0 != k,
    ensures
        lookup(b, k) == Some(b[i].1),
    decreases i,
{
    if i > 0 {
        let t = b.drop_first();
        assert(b[0].0 != k);
        assert(t[i - 1] == b[i]);
        assert forall|j: int| 0 <= j < i - 1 implies (#[trigger] t[j]).0 != k by {
            assert(t[j] == b[j + 1]);
        }
        the_first_binding_counts(t, k, i - 1);
    }
}

proof fn lookup_push(b: Seq<(Seq<char>, ValV)>, n: Seq<char>, v: ValV, k: Seq<char>)
    ensures
        lookup(b, k) is Some ==> lookup(b.push((n, v)), k) == lookup(b, k),
        lookup(b, k) is None && k == n ==> lookup(b.push((n, v)), k) == Some(v),
        lookup(b, k) is None && k != n ==> lookup(b.push((n, v)), k) is None,
    decreases b.len(),
{
    let c = b.push((n, v));
    if b.len() == 0 {
        assert(c.drop_first() =~= Seq::<(Seq<char>, ValV)>::empty());
        assert(lookup(c.drop_first(), k) is None);
    } else {
        assert(c[0] == b[0]);
        assert(c.drop_first() =~= b.drop_first().push((n, v)));
        lookup_push(b.drop_first(), n, v, k);
    }
}

// ---------- unification ----------

/// What was bound stays bound to the same.
pub open spec fn keeps(b: Seq<(Seq<char>, ValV)>, c: Seq<(Seq<char>, ValV)>) -> bool {
    forall|k: Seq<char>| lookup(b, k) is Some ==> #[trigger] lookup(c, k) == lookup(b, k)
}

/// A pattern of variables, plain values and lists of them.
pub open spec fn plain_pattern(v: ValV) -> bool
    decreases v,
{
    match v {
        ValV::Var(_, spread) => true,
        ValV::List(xs) => plain_patterns(xs),
        ValV::Str(_) | ValV::Num(_) | ValV::Bool(_) | ValV::Ref(_, _) => true,
        _ => false,
    }
}

pub open spec fn plain_patterns(xs: Seq<ValV>) -> bool
    decreases xs,
{
    forall|i: int|
        #![trigger xs[i]]
        0 <= i < xs.len() ==> plain_pattern(xs[i]) && !(xs[i] matches ValV::Var(_, true))
}

proof fn subst_keeps(v: ValV, b: Seq<(Seq<char>, ValV)>, c: Seq<(Seq<char>, ValV)>, to: ValV)
    requires
        plain_pattern(v),
        keeps(b, c),
        matched(v, b, to),
    ensures
        matched(v, c, to),
    decreases v,
{
    match v {
        ValV::List(xs) => {
            if let ValV::List(ys) = to {
                assert forall|i: int| 0 <= i < xs.len() implies matched(
                    #[trigger] xs[i],
                    c,
                    ys[i],
                ) by {
                    assert(matched(xs[i], b, ys[i]));
                    subst_keeps(xs[i], b, c, ys[i]);
                }
            }
        },
        _ => {},
    }
}

/// The pattern, its variables read off the bindings, is that value: a variable is bound to it, a
/// list is as long and matches element by element, and a plain value is itself.
pub open spec fn matched(v: ValV, b: Seq<(Seq<char>, ValV)>, to: ValV) -> bool
    decreases v,
{
    match v {
        ValV::Var(n, _) => lookup(b, n) == Some(to),
        ValV::List(xs) => to matches ValV::List(ys) && ys.len() == xs.len() && forall|i: int|
            #![trigger xs[i]]
            0 <= i < xs.len() ==> matched(xs[i], b, ys[i]),
        other => to == other,
    }
}

proof fn unify_val_matches(p: ValV, c: ValV, b: Seq<(Seq<char>, ValV)>)
    requires
        plain_pattern(p),
    ensures
        unify_val(p, c, b) matches Some(b1) ==> keeps(b, b1) && matched(p, b1, c),
    decreases p, 0nat,
{
    match p {
        ValV::Var(n, _) => {
            if let Some(b1) = unify_val(p, c, b) {
                assert forall|k: Seq<char>| lookup(b, k) is Some implies #[trigger] lookup(b1, k)
                    == lookup(b, k) by {
                    lookup_push(b, n, c, k);
                }
                lookup_push(b, n, c, n);
            }
        },
        ValV::List(ps) => {
            if let ValV::List(cs) = c {
                if ps.len() == cs.len() {
                    unify_list_matches(ps, cs, b);
                }
            }
        },
        _ => {},
    }
}

proof fn unify_list_matches(ps: Seq<ValV>, cs: Seq<ValV>, b: Seq<(Seq<char>, ValV)>)
    requires
        plain_patterns(ps),
        ps.len() == cs.len(),
    ensures
        unify_list(ps, cs, b) matches Some(b1) ==> keeps(b, b1) && forall|i: int|
            #![trigger ps[i]]
            0 <= i < ps.len() ==> matched(ps[i], b1, cs[i]),
    decreases ps, 1nat,
{
    if ps.len() > 0 {
        let (d, e) = (ps.drop_last(), cs.drop_last());
        let last = ps.len() - 1;
        assert forall|i: int| #![trigger d[i]] 0 <= i < d.len() implies plain_pattern(d[i]) && !(
        d[i] matches ValV::Var(_, true)) by {
            assert(d[i] == ps[i]);
        }
        unify_list_matches(d, e, b);
        if let Some(b1) = unify_list(d, e, b) {
            assert(plain_pattern(ps[last]));
            unify_val_matches(ps[last], cs[last], b1);
            if let Some(b2) = unify_val(ps[last], cs[last], b1) {
                assert forall|i: int| #![trigger ps[i]] 0 <= i < ps.len() implies matched(
                    ps[i],
                    b2,
                    cs[i],
                ) by {
                    if i < last {
                        assert(d[i] == ps[i] && e[i] == cs[i]);
                        subst_keeps(ps[i], b1, b2, cs[i]);
                    }
                }
                assert forall|k: Seq<char>| lookup(b, k) is Some implies #[trigger] lookup(b2, k)
                    == lookup(b, k) by {
                    assert(lookup(b1, k) == lookup(b, k));
                }
            }
        }
    }
}

proof fn unify_args_match(
    ps: Seq<(Seq<char>, ValV)>,
    want: Seq<(Seq<char>, ValV)>,
    b: Seq<(Seq<char>, ValV)>,
)
    requires
        forall|i: int| 0 <= i < ps.len() ==> plain_pattern((#[trigger] ps[i]).1),
    ensures
        unify_args(ps, want, b) matches Some(b1) ==> keeps(b, b1) && forall|i: int|
            #![trigger ps[i]]
            0 <= i < ps.len() ==> match lookup(want, ps[i].0) {
                Some(w) => matched(ps[i].1, b1, w),
                None => ps[i].1 is Var,
            },
    decreases ps.len(),
{
    if ps.len() > 0 {
        let d = ps.drop_last();
        let last = ps.len() - 1;
        assert forall|i: int| 0 <= i < d.len() implies plain_pattern((#[trigger] d[i]).1) by {
            assert(d[i] == ps[i]);
        }
        unify_args_match(d, want, b);
        if let Some(b1) = unify_args(d, want, b) {
            assert(plain_pattern(ps[last].1));
            if let Some(w) = lookup(want, ps.last().0) {
                unify_val_matches(ps.last().1, w, b1);
            }
            if let Some(b2) = unify_args(ps, want, b) {
                assert(keeps(b1, b2));
                assert forall|i: int| #![trigger ps[i]] 0 <= i < ps.len() implies match lookup(
                    want,
                    ps[i].0,
                ) {
                    Some(w) => matched(ps[i].1, b2, w),
                    None => ps[i].1 is Var,
                } by {
                    if i < last {
                        assert(d[i] == ps[i]);
                        if let Some(w) = lookup(want, ps[i].0) {
                            subst_keeps(ps[i].1, b1, b2, w);
                        }
                    }
                }
                assert forall|k: Seq<char>| lookup(b, k) is Some implies #[trigger] lookup(b2, k)
                    == lookup(b, k) by {
                    assert(lookup(b1, k) == lookup(b, k));
                }
            }
        }
    }
}

/// An operation is chosen for a want only where it makes just that true: its postcondition is
/// about the same entity and the same field, with its variables bound it has the value that is
/// wanted, and every argument that the want gives it has just so.
pub proof fn a_chosen_operation_makes_the_want_true(
    post: PredV,
    want: PredV,
    b: Seq<(Seq<char>, ValV)>,
)
    requires
        unify(post, want) == Some(b),
        plain_pattern(post.value),
        forall|i: int| 0 <= i < post.args.len() ==> plain_pattern((#[trigger] post.args[i]).1),
    ensures
        post.entity == want.entity,
        post.field == want.field,
        matched(post.value, b, want.value),
        forall|i: int|
            #![trigger post.args[i]]
            0 <= i < post.args.len() ==> (lookup(want.args, post.args[i].0) matches Some(w)
                ==> matched(post.args[i].1, b, w)),
        forall|i: int|
            0 <= i < want.args.len() ==> lookup(post.args, (#[trigger] want.args[i]).0) is Some,
{
    unify_val_matches(post.value, want.value, Seq::empty());
    let b0 = unify_val(post.value, want.value, Seq::empty())->0;
    unify_args_match(post.args, want.args, b0);
    subst_keeps(post.value, b0, b, want.value);
}

// ---------- arguments ----------

/// A value is handed on as what it is: a text as a text, a number as a number, a truth as a
/// truth, a reference as a reference; a variable that nothing is bound to cannot be handed on.
pub proof fn values_are_handed_on_as_they_are(s: Seq<char>, n: int, t: bool, f: Seq<char>)
    ensures
        val_to_arg(ValV::Str(s)) == Ok::<ArgV, Seq<char>>(ArgV::Lit(JsonV::Str(s))),
        val_to_arg(ValV::Num(n)) == Ok::<ArgV, Seq<char>>(ArgV::Lit(JsonV::Int(n))),
        val_to_arg(ValV::Bool(t)) == Ok::<ArgV, Seq<char>>(ArgV::Lit(JsonV::Bool(t))),
        val_to_arg(ValV::Ref(s, f)) == Ok::<ArgV, Seq<char>>(ArgV::Ref { node: s, field: f }),
        val_to_arg(ValV::Var(s, t)) == Err::<ArgV, Seq<char>>(s),
{
}

/// A list is handed on element by element.
pub proof fn lists_are_handed_on_as_lists(xs: Seq<ValV>)
    ensures
        val_to_arg(ValV::List(xs)) matches Ok(a) ==> (a matches ArgV::List(ys) && ys.len()
            == xs.len() && forall|i: int|
            0 <= i < xs.len() ==> val_to_arg(#[trigger] xs[i]) == Ok::<ArgV, Seq<char>>(ys[i])),
        (forall|i: int| 0 <= i < xs.len() ==> val_to_arg(#[trigger] xs[i]) is Ok) ==> val_to_arg(
            ValV::List(xs),
        ) is Ok,
{
    list_args(xs);
}

proof fn list_args(xs: Seq<ValV>)
    ensures
        vals_to_args(xs) matches Ok(ys) ==> ys.len() == xs.len() && forall|i: int|
            0 <= i < xs.len() ==> val_to_arg(#[trigger] xs[i]) == Ok::<ArgV, Seq<char>>(ys[i]),
        (forall|i: int| 0 <= i < xs.len() ==> val_to_arg(#[trigger] xs[i]) is Ok) ==> vals_to_args(
            xs,
        ) is Ok,
    decreases xs.len(),
{
    if xs.len() > 0 {
        let d = xs.drop_last();
        list_args(d);
        let last = xs.len() - 1;
        if forall|i: int| 0 <= i < xs.len() ==> val_to_arg(#[trigger] xs[i]) is Ok {
            assert forall|i: int| 0 <= i < d.len() implies val_to_arg(#[trigger] d[i]) is Ok by {
                assert(d[i] == xs[i]);
            }
            assert(val_to_arg(xs[last]) is Ok);
        }
        if let Ok(ys) = vals_to_args(xs) {
            assert forall|i: int| 0 <= i < xs.len() implies val_to_arg(#[trigger] xs[i]) == Ok::<
                ArgV,
                Seq<char>,
            >(ys[i]) by {
                if i < last {
                    assert(d[i] == xs[i]);
                }
            }
        }
    }
}

/// No two arguments have one name, and they are in ascending order.
pub open spec fn in_order(args: Seq<(Seq<char>, ArgV)>) -> bool {
    forall|i: int, j: int|
        0 <= i < j < args.len() ==> crate::text::lt((#[trigger] args[i]).0, (#[trigger] args[j]).0)
}

proof fn put_once(args: Seq<(Seq<char>, ArgV)>, k: Seq<char>, a: ArgV)
    requires
        in_order(args),
    ensures
        put_arg(args, k, a).contains((k, a)),
        forall|x: (Seq<char>, ArgV)| #[trigger]
            put_arg(args, k, a).contains(x) <==> x == (k, a) || (args.contains(x) && x.0 != k),
        in_order(put_arg(args, k, a)),
    decreases args.len(),
{
    let r = put_arg(args, k, a);
    if args.len() == 0 {
        crate::seqs::push_has(args, (k, a));
    } else {
        let d = args.drop_last();
        let l = args.last();
        assert(args[args.len() - 1] == l);
        assert(d.push(l) =~= args);
        assert(in_order(d)) by {
            assert forall|i: int, j: int| 0 <= i < j < d.len() implies crate::text::lt(
                (#[trigger] d[i]).0,
                (#[trigger] d[j]).0,
            ) by {
                assert(d[i] == args[i] && d[j] == args[j]);
            }
        }
        assert forall|x: (Seq<char>, ArgV)| #[trigger] d.contains(x) implies crate::text::lt(
            x.0,
            l.0,
        ) by {
            let i = choose|i: int| 0 <= i < d.len() && d[i] == x;
            assert(args[i] == x);
        }
        crate::seqs::push_has(d, l);
        crate::text::lt_irreflexive(k);
        crate::text::lt_irreflexive(l.0);
        if crate::text::lt(l.0, k) {
            crate::seqs::push_has(args, (k, a));
            assert forall|x: (Seq<char>, ArgV)| #[trigger] args.contains(x) implies crate::text::lt(
                x.0,
                k,
            ) by {
                if d.contains(x) {
                    crate::text::lt_transitive(x.0, l.0, k);
                }
            }
            assert forall|i: int, j: int| 0 <= i < j < r.len() implies crate::text::lt(
                (#[trigger] r[i]).0,
                (#[trigger] r[j]).0,
            ) by {
                if j == args.len() {
                    assert(args.contains(args[i]));
                } else {
                    assert(r[i] == args[i] && r[j] == args[j]);
                }
            }
        } else if l.0 == k {
            crate::seqs::push_has(d, (k, a));
            assert forall|i: int, j: int| 0 <= i < j < r.len() implies crate::text::lt(
                (#[trigger] r[i]).0,
                (#[trigger] r[j]).0,
            ) by {
                assert(d.contains(d[i]));
                if j < d.len() {
                    assert(r[j] == d[j]);
                }
            }
        } else {
            put_once(d, k, a);
            let q = put_arg(d, k, a);
            crate::seqs::push_has(q, l);
            crate::text::lt_total(l.0, k);
            assert forall|i: int, j: int| 0 <= i < j < r.len() implies crate::text::lt(
                (#[trigger] r[i]).0,
                (#[trigger] r[j]).0,
            ) by {
                assert(q.contains(q[i]));
                if j < q.len() {
                    assert(r[j] == q[j] && r[i] == q[i]);
                }
            }
        }
    }
}

proof fn args_settled(op: OpV, params: Seq<ParamV>, b: Seq<(Seq<char>, ValV)>)
    ensures
        node_args(op, params, b) matches Ok(args) ==> {
            &&& in_order(args)
            &&& forall|k: Seq<char>, a: ArgV| #[trigger]
                args.contains((k, a)) <==> (exists|i: int|
                    0 <= i < params.len() && (#[trigger] params[i]).name == k) && (match lookup(
                    b,
                    k,
                ) {
                    Some(v) => val_to_arg(v) == Ok::<ArgV, Seq<char>>(a),
                    None => entry(op.defaults, k) matches Some(d) && a == ArgV::Lit(d),
                })
        },
    decreases params.len(),
{
    if params.len() > 0 {
        let d = params.drop_last();
        args_settled(op, d, b);
        if let Ok(args) = node_args(op, params, b) {
            let before = node_args(op, d, b)->Ok_0;
            let name = params.last().name;
            let last = params.len() - 1;
            assert(params[last].name == name);
            let put = lookup(b, name) is Some || entry(op.defaults, name) is Some;
            let a = match lookup(b, name) {
                Some(v) => val_to_arg(v)->Ok_0,
                None => ArgV::Lit(entry(op.defaults, name)->0),
            };
            if put {
                put_once(before, name, a);
                assert(args == put_arg(before, name, a));
            }
            assert forall|k: Seq<char>, c: ArgV| #[trigger] args.contains((k, c)) <==> (exists|
                i: int,
            | 0 <= i < params.len() && (#[trigger] params[i]).name == k) && (match lookup(b, k) {
                Some(v) => val_to_arg(v) == Ok::<ArgV, Seq<char>>(c),
                None => entry(op.defaults, k) matches Some(d) && c == ArgV::Lit(d),
            }) by {
                let x = (k, c);
                if put {
                    assert(args.contains(x) <==> x == (name, a) || (before.contains(x) && x.0
                        != name));
                }
                let e1 = exists|i: int| 0 <= i < d.len() && (#[trigger] d[i]).name == k;
                let e2 = exists|i: int| 0 <= i < params.len() && (#[trigger] params[i]).name == k;
                if e1 {
                    let i = choose|i: int| 0 <= i < d.len() && (#[trigger] d[i]).name == k;
                    assert(params[i].name == k);
                }
                if e2 {
                    let i = choose|i: int|
                        0 <= i < params.len() && (#[trigger] params[i]).name == k;
                    if i < d.len() {
                        assert(d[i].name == k);
                    }
                }
                assert(before.contains((k, c)) == before.contains(x));
            }
        }
    } else {
        assert(node_args(op, params, b)->Ok_0.len() == 0);
    }
}

/// A node has exactly the arguments of its operation that something is bound to, each with just
/// that, and those that nothing is bound to and that have a default, each with its default.
pub proof fn arguments_are_bound_or_default(op: OpV, b: Seq<(Seq<char>, ValV)>, k: Seq<char>, a: ArgV)
    requires
        node_args(op, op.params, b) is Ok,
    ensures
        node_args(op, op.params, b)->Ok_0.contains((k, a)) <==> (exists|i: int|
            0 <= i < op.params.len() && (#[trigger] op.params[i]).name == k) && (match lookup(
            b,
            k,
        ) {
            Some(v) => val_to_arg(v) == Ok::<ArgV, Seq<char>>(a),
            None => entry(op.defaults, k) matches Some(d) && a == ArgV::Lit(d),
        }),
{
    args_settled(op, op.params, b);
}

// ---------- entities ----------

/// An entity that is given by its id alone stands for that number, and nothing is looked up.
pub proof fn an_id_stands_for_itself(env: Env, fuel: nat, st: State, entity: Seq<char>, n: int)
    ensures
        ({
            let p = PredV {
                entity,
                args: seq![("id"@, ValV::Num(n))],
                field: Seq::empty(),
                value: ValV::Bool(true),
            };
            resolve_val(env, fuel, st, ValV::Entity(Box::new(p))) == Ok::<
                (State, ValV),
                CompileErrorV,
            >((st, ValV::Num(n)))
        }),
{
    the_first_binding_counts(seq![("id"@, ValV::Num(n))], "id"@, 0);
}

/// An entity that is only named is to be found where some operation finds such entities, and
/// else to be there; one that says more is wanted as it is said.
pub proof fn a_named_entity_is_found_or_made(ops: Seq<OpV>, p: PredV, i: int, q: PredV)
    ensures
        p.field.len() == 0 && 0 <= i < ops.len() && ops[i].produces == Some(p.entity)
            && ops[i].post == Some(q) && q.field == "resolved"@ ==> entity_want(ops, p).field
            == "resolved"@,
        p.field.len() == 0 && (forall|j: int|
            0 <= j < ops.len() ==> (#[trigger] ops[j]).produces != Some(p.entity)) ==> entity_want(
            ops,
            p,
        ).field == "exists"@,
        p.field.len() > 0 ==> entity_want(ops, p) == p,
        entity_want(ops, p).entity == p.entity,
        entity_want(ops, p).args == p.args,
{
    if 0 <= i < ops.len() && ops[i].produces == Some(p.entity) && ops[i].post == Some(q) && q.field
        == "resolved"@ {
        assert(resolvable(ops, p.entity));
    }
}

// ---------- questions ----------

/// A node asks what its operation asks, with the name that was looked for filled in; where the
/// intent words the question for that condition, it asks that, and the intent's rule answers it.
pub proof fn a_node_asks_as_the_intent_says(
    forks: Seq<IntentForkV>,
    f: ForkV,
    b: Seq<(Seq<char>, ValV)>,
    name: Seq<char>,
    i: int,
)
    requires
        lookup(b, "name"@) == Some(ValV::Str(name)),
    ensures
        node_fork(forks, None, b) is None,
        (forall|j: int| 0 <= j < forks.len() ==> (#[trigger] forks[j]).when != f.when)
            ==> node_fork(forks, Some(f), b) == Some(
            ForkV { when: f.when, ask: replaced(f.ask, "$name"@, name), default: f.default },
        ),
        0 <= i < forks.len() && forks[i].when == f.when && (forall|j: int|
            0 <= j < i ==> (#[trigger] forks[j]).when != f.when) ==> node_fork(forks, Some(f), b)
            == Some(
            ForkV {
                when: f.when,
                ask: replaced(forks[i].ask, "$name"@, name),
                default: forks[i].default,
            },
        ),
{
    if forall|j: int| 0 <= j < forks.len() ==> (#[trigger] forks[j]).when != f.when {
        no_fork(forks, f.when);
    }
    if 0 <= i < forks.len() && forks[i].when == f.when && (forall|j: int|
        0 <= j < i ==> (#[trigger] forks[j]).when != f.when) {
        first_fork(forks, f.when, i);
    }
}

proof fn no_fork(forks: Seq<IntentForkV>, when: Seq<char>)
    requires
        forall|j: int| 0 <= j < forks.len() ==> (#[trigger] forks[j]).when != when,
    ensures
        find_fork(forks, when) is None,
    decreases forks.len(),
{
    if forks.len() > 0 {
        let t = forks.drop_first();
        assert(forks[0].when != when);
        assert forall|j: int| 0 <= j < t.len() implies (#[trigger] t[j]).when != when by {
            assert(t[j] == forks[j + 1]);
        }
        no_fork(t, when);
    }
}

proof fn first_fork(forks: Seq<IntentForkV>, when: Seq<char>, i: int)
    requires
        0 <= i < forks.len(),
        forks[i].when == when,
        forall|j: int| 0 <= j < i ==> (#[trigger] forks[j]).when != when,
    ensures
        find_fork(forks, when) == Some(forks[i]),
    decreases i,
{
    if i > 0 {
        let t = forks.drop_first();
        assert(forks[0].when != when);
        assert(t[i - 1] == forks[i]);
        assert forall|j: int| 0 <= j < i - 1 implies (#[trigger] t[j]).when != when by {
            assert(t[j] == forks[j + 1]);
        }
        first_fork(t, when, i - 1);
    }
}

// ---------- keys ----------

proof fn middle(a: Seq<char>, x: Seq<char>, y: Seq<char>, c: Seq<char>)
    requires
        a + x + c == a + y + c,
    ensures
        x == y,
{
    let s = a + x + c;
    let t = a + y + c;
    assert(s.len() == a.len() + x.len() + c.len());
    assert(t.len() == a.len() + y.len() + c.len());
    assert forall|i: int| 0 <= i < x.len() implies x[i] == y[i] by {
        assert(s[a.len() + i] == x[i]);
        assert(t[a.len() + i] == y[i]);
    }
    assert(x =~= y);
}

/// A key is a hash of what the node does: of its operation and of its want. Two wants that differ
/// in the number that an argument has are not hashed from the same text.
pub proof fn keys_are_of_what_is_done(
    env: Env,
    st: State,
    op: OpV,
    b: Seq<(Seq<char>, ValV)>,
    want: PredV,
    args: Seq<(Seq<char>, ArgV)>,
    surface: Seq<char>,
    front: Seq<(Seq<char>, ValV)>,
    k: Seq<char>,
    x: int,
    y: int,
)
    ensures
        make_node(env, st, op, b, want, args, surface).key matches Some(key) ==> key
            == env.opts.plan_id + "/"@ + hash_text(op.name + "|"@ + expand(st.canon, want), 8),
        x != y ==> content(
            st,
            op,
            PredV { args: front.push((k, ValV::Num(x))), ..want },
        ) != content(st, op, PredV { args: front.push((k, ValV::Num(y))), ..want }),
{
    if x != y {
        let p = PredV { args: front.push((k, ValV::Num(x))), ..want };
        let q = PredV { args: front.push((k, ValV::Num(y))), ..want };
        assert(p.args.drop_last() =~= front);
        assert(q.args.drop_last() =~= front);
        let tail = ")"@ + (if want.field.len() == 0 {
            Seq::empty()
        } else {
            "."@ + want.field + "="@ + expand_val(st.canon, want.value)
        });
        let lead = if front.len() == 0 {
            Seq::<char>::empty()
        } else {
            expand_args(st.canon, front) + ","@
        };
        let head = op.name + "|"@ + (want.entity + "("@ + (lead + (k + "="@)));
        assert(expand_val(st.canon, ValV::Num(x)) == int_dec(x));
        assert(expand_val(st.canon, ValV::Num(y)) == int_dec(y));
        assert(expand_args(st.canon, p.args) =~= lead + (k + "="@) + int_dec(x));
        assert(expand_args(st.canon, q.args) =~= lead + (k + "="@) + int_dec(y));
        assert(content(st, op, p) =~= head + int_dec(x) + tail);
        assert(content(st, op, q) =~= head + int_dec(y) + tail);
        if content(st, op, p) == content(st, op, q) {
            middle(head, int_dec(x), int_dec(y), tail);
            int_dec_differs(x, y);
        }
    }
}

} // verus!
