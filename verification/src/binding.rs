//! Unification, and what bindings turn into: arguments, references and resources.

use crate::compile_model::{
    any_conflict, cheapest, conflicts, covers, list_tokens, put_arg, refs_in, refs_in_list,
    refs_in_val, resource, resources, token, unify, unify_args, unify_list, unify_val, val_to_arg,
    val_tokens, vals_to_args,
};
use crate::cut::{split_once, starts_with, trim_end_str, trim_start_char};
use crate::json::Json;
use crate::plan::{arg_list_push, arg_list_view, node_args_view, Arg, ArgV};
use crate::pred::{args_push, args_view, lookup, lookup_val, vals_view, Pred, Val, ValV};
use crate::pred_eq::same_val;
use crate::text::{concat, list_has, owned, push_int, same, str_lt, views};
use crate::world::surfaces_view;
use vstd::prelude::*;

verus! {

// ---------- unification ----------

proof fn unify_list_stuck(
    ps: Seq<ValV>,
    cs: Seq<ValV>,
    b: Seq<(Seq<char>, ValV)>,
    k: int,
)
    requires
        ps.len() == cs.len(),
        0 <= k <= ps.len(),
        unify_list(ps.take(k), cs.take(k), b) is None,
    ensures
        unify_list(ps, cs, b) is None,
    decreases ps.len(),
{
    if k == ps.len() {
        assert(ps.take(k) =~= ps);
        assert(cs.take(k) =~= cs);
    } else {
        assert(ps.drop_last().take(k) =~= ps.take(k));
        assert(cs.drop_last().take(k) =~= cs.take(k));
        unify_list_stuck(ps.drop_last(), cs.drop_last(), b, k);
    }
}

proof fn unify_args_stuck(
    ps: Seq<(Seq<char>, ValV)>,
    want: Seq<(Seq<char>, ValV)>,
    b: Seq<(Seq<char>, ValV)>,
    k: int,
)
    requires
        0 <= k <= ps.len(),
        unify_args(ps.take(k), want, b) is None,
    ensures
        unify_args(ps, want, b) is None,
    decreases ps.len(),
{
    if k == ps.len() {
        assert(ps.take(k) =~= ps);
    } else {
        assert(ps.drop_last().take(k) =~= ps.take(k));
        unify_args_stuck(ps.drop_last(), want, b, k);
    }
}

fn bind_list(ps: &Vec<Val>, cs: &Vec<Val>, b: &mut Vec<(String, Val)>) -> (r: bool)
    requires
        ps@.len() == cs@.len(),
    ensures
        match unify_list(vals_view(ps@), vals_view(cs@), args_view(old(b)@)) {
            Some(x) => r && args_view(final(b)@) == x,
            None => !r,
        },
    decreases ps,
{
    let ghost pv = vals_view(ps@);
    let ghost cv = vals_view(cs@);
    let ghost b0 = args_view(b@);
    let mut i: usize = 0;
    while i < ps.len()
        invariant
            i <= ps@.len() == cs@.len(),
            pv == vals_view(ps@),
            cv == vals_view(cs@),
            pv.len() == ps@.len(),
            cv.len() == cs@.len(),
            b0 == args_view(old(b)@),
            unify_list(pv.take(i as int), cv.take(i as int), b0) == Some(args_view(b@)),
        decreases ps@.len() - i,
    {
        proof {
            let p = pv.take(i + 1);
            let c = cv.take(i + 1);
            assert(p.drop_last() =~= pv.take(i as int));
            assert(c.drop_last() =~= cv.take(i as int));
            assert(p[p.len() - 1] == ps@[i as int]@);
            assert(c[c.len() - 1] == cs@[i as int]@);
        }
        if !bind_val(&ps[i], &cs[i], b) {
            proof {
                unify_list_stuck(pv, cv, b0, i + 1);
            }
            return false;
        }
        i += 1;
    }
    assert(pv.take(i as int) =~= pv);
    assert(cv.take(i as int) =~= cv);
    true
}

/// Bind the variables of a pattern against a value. Where it fails, the bindings are of no use.
pub fn bind_val(pattern: &Val, concrete: &Val, b: &mut Vec<(String, Val)>) -> (r: bool)
    ensures
        match unify_val(pattern@, concrete@, args_view(old(b)@)) {
            Some(x) => r && args_view(final(b)@) == x,
            None => !r,
        },
    decreases pattern,
{
    match pattern {
        Val::Var(n, _) => {
            match lookup_val(b, n.as_str()) {
                Some(x) => {
                    return same_val(x, concrete);
                },
                None => {},
            }
            let x = (n.clone(), concrete.clone());
            proof {
                args_push(b@, x);
            }
            b.push(x);
            true
        },
        Val::List(ps) => match concrete {
            Val::List(cs) => {
                assert(vals_view(ps@).len() == ps@.len() && vals_view(cs@).len() == cs@.len());
                if ps.len() == cs.len() {
                    bind_list(ps, cs, b)
                } else {
                    false
                }
            },
            _ => false,
        },
        other => same_val(other, concrete),
    }
}

/// Bind the variables of an operation's postcondition against a concrete want.
pub fn bind(post: &Pred, want: &Pred) -> (r: Option<Vec<(String, Val)>>)
    ensures
        match (r, unify(post@, want@)) {
            (Some(b), Some(x)) => args_view(b@) == x,
            (None, None) => true,
            _ => false,
        },
{
    if !same(post.entity.as_str(), want.entity.as_str()) || !same(
        post.field.as_str(),
        want.field.as_str(),
    ) {
        return None;
    }
    let mut b: Vec<(String, Val)> = Vec::new();
    assert(args_view(b@) =~= Seq::<(Seq<char>, ValV)>::empty());
    if !bind_val(&post.value, &want.value, &mut b) {
        return None;
    }
    let ghost b0 = args_view(b@);
    let ghost ps = args_view(post.args@);
    let ghost ws = args_view(want.args@);
    let mut i: usize = 0;
    assert(ps.take(0) =~= Seq::<(Seq<char>, ValV)>::empty());
    while i < post.args.len()
        invariant
            i <= post.args@.len(),
            ps == args_view(post.args@),
            ws == args_view(want.args@),
            ws == want@.args,
            unify_args(ps.take(i as int), ws, b0) == Some(args_view(b@)),
            unify(post@, want@) is Some ==> unify_args(ps, ws, b0) is Some,
        decreases post.args@.len() - i,
    {
        proof {
            let p = ps.take(i + 1);
            assert(p.drop_last() =~= ps.take(i as int));
            assert(p.last() == (post.args@[i as int].0@, post.args@[i as int].1@));
        }
        match want.arg(post.args[i].0.as_str()) {
            Some(w) => {
                if !bind_val(&post.args[i].1, w, &mut b) {
                    proof {
                        unify_args_stuck(ps, ws, b0, i + 1);
                    }
                    return None;
                }
            },
            None => {
                let open: bool = match &post.args[i].1 {
                    Val::Var(_, _) => true,
                    _ => false,
                };
                if !open {
                    proof {
                        unify_args_stuck(ps, ws, b0, i + 1);
                    }
                    return None;
                }
            },
        }
        i += 1;
    }
    assert(ps.take(i as int) =~= ps);
    let mut j: usize = 0;
    while j < want.args.len()
        invariant
            j <= want.args@.len(),
            ps == args_view(post.args@),
            ws == args_view(want.args@),
            ps == post@.args,
            forall|k: int| 0 <= k < j ==> lookup(ps, (#[trigger] ws[k]).0) is Some,
        decreases want.args@.len() - j,
    {
        assert(ws[j as int].0 == want.args@[j as int].0@);
        if post.arg(want.args[j].0.as_str()).is_none() {
            return None;
        }
        j += 1;
    }
    assert(covers(ps, ws));
    Some(b)
}

// ---------- references ----------

fn push_refs_list(xs: &Vec<Val>, out: &mut Vec<String>)
    ensures
        views(final(out)@) == views(old(out)@) + refs_in_list(vals_view(xs@)),
    decreases xs,
{
    let ghost before = views(out@);
    let ghost vs = vals_view(xs@);
    let mut i: usize = 0;
    assert(before + refs_in_list(vs.take(0)) =~= before);
    while i < xs.len()
        invariant
            i <= xs@.len(),
            vs == vals_view(xs@),
            views(out@) == before + refs_in_list(vs.take(i as int)),
        decreases xs@.len() - i,
    {
        push_refs_val(&xs[i], out);
        proof {
            let p = vs.take(i + 1);
            assert(p.drop_last() =~= vs.take(i as int));
            assert(p[p.len() - 1] == xs@[i as int]@);
        }
        i += 1;
        assert(views(out@) =~= before + refs_in_list(vs.take(i as int)));
    }
    assert(vs.take(i as int) =~= vs);
}

/// Append the nodes that a value refers to.
pub fn push_refs_val(v: &Val, out: &mut Vec<String>)
    ensures
        views(final(out)@) == views(old(out)@) + refs_in_val(v@),
    decreases v,
{
    let ghost before = views(out@);
    match v {
        Val::Ref(n, _) => {
            out.push(n.clone());
            assert(views(out@) =~= before + seq![n@]);
        },
        Val::List(xs) => {
            push_refs_list(xs, out);
        },
        _ => {
            assert(before + Seq::<Seq<char>>::empty() =~= before);
        },
    }
}

/// Append the nodes that named values refer to.
pub fn push_refs(xs: &Vec<(String, Val)>, out: &mut Vec<String>)
    ensures
        views(final(out)@) == views(old(out)@) + refs_in(args_view(xs@)),
{
    let ghost before = views(out@);
    let ghost vs = args_view(xs@);
    let mut i: usize = 0;
    assert(before + refs_in(vs.take(0)) =~= before);
    while i < xs.len()
        invariant
            i <= xs@.len(),
            vs == args_view(xs@),
            views(out@) == before + refs_in(vs.take(i as int)),
        decreases xs@.len() - i,
    {
        push_refs_val(&xs[i].1, out);
        proof {
            let p = vs.take(i + 1);
            assert(p.drop_last() =~= vs.take(i as int));
            assert(p.last() == (xs@[i as int].0@, xs@[i as int].1@));
        }
        i += 1;
        assert(views(out@) =~= before + refs_in(vs.take(i as int)));
    }
    assert(vs.take(i as int) =~= vs);
}

// ---------- arguments ----------

proof fn vals_to_args_stuck(xs: Seq<ValV>, k: int)
    requires
        0 <= k <= xs.len(),
        vals_to_args(xs.take(k)) is Err,
    ensures
        vals_to_args(xs) == vals_to_args(xs.take(k)),
    decreases xs.len(),
{
    if k == xs.len() {
        assert(xs.take(k) =~= xs);
    } else {
        assert(xs.drop_last().take(k) =~= xs.take(k));
        vals_to_args_stuck(xs.drop_last(), k);
    }
}

/// The argument that a value becomes, or what in it is not bound.
pub fn to_arg(v: &Val) -> (r: Result<Arg, String>)
    ensures
        match (r, val_to_arg(v@)) {
            (Ok(a), Ok(x)) => a@ == x,
            (Err(e), Err(f)) => e@ == f,
            _ => false,
        },
    decreases v,
{
    match v {
        Val::Str(s) => Ok(Arg::Lit(Json::Str(s.clone()))),
        Val::Num(n) => Ok(Arg::Lit(Json::Int(*n as i128))),
        Val::Bool(b) => Ok(Arg::Lit(Json::Bool(*b))),
        Val::List(xs) => {
            let ghost vs = vals_view(xs@);
            let mut out: Vec<Arg> = Vec::new();
            let mut i: usize = 0;
            assert(arg_list_view(out@) =~= Seq::<ArgV>::empty());
            assert(vs.take(0) =~= Seq::<ValV>::empty());
            while i < xs.len()
                invariant
                    i <= xs@.len(),
                    vs == vals_view(xs@),
                    v@ == ValV::List(vs),
                    vals_to_args(vs.take(i as int)) == Ok::<Seq<ArgV>, Seq<char>>(
                        arg_list_view(out@),
                    ),
                    decreases_to!(v => xs),
                decreases xs@.len() - i,
            {
                proof {
                    let p = vs.take(i + 1);
                    assert(p.drop_last() =~= vs.take(i as int));
                    assert(p[p.len() - 1] == xs@[i as int]@);
                }
                match to_arg(&xs[i]) {
                    Ok(a) => {
                        proof {
                            arg_list_push(out@, a);
                        }
                        out.push(a);
                    },
                    Err(e) => {
                        proof {
                            vals_to_args_stuck(vs, i + 1);
                        }
                        return Err(e);
                    },
                }
                i += 1;
            }
            assert(vs.take(i as int) =~= vs);
            Ok(Arg::List(out))
        },
        Val::Ref(n, f) => Ok(Arg::Ref { node: n.clone(), field: f.clone() }),
        Val::Var(n, _) => Err(n.clone()),
        Val::Entity(p) => Err(p.to_string()),
        Val::Each(_) => Err(owned("each(...) survived unrolling")),
        Val::All(_) => Err(owned("all(...) survived unrolling")),
    }
}

proof fn put_arg_at(args: Seq<(Seq<char>, ArgV)>, k: Seq<char>, a: ArgV, i: int)
    requires
        0 <= i <= args.len(),
        i > 0 ==> lt_or_same(args[i - 1].0, k),
        forall|j: int| i <= j < args.len() ==> !lt_or_same((#[trigger] args[j]).0, k),
    ensures
        put_arg(args, k, a) == (if i > 0 && args[i - 1].0 == k {
            args.update(i - 1, (k, a))
        } else {
            args.insert(i, (k, a))
        }),
    decreases args.len(),
{
    crate::text::lt_irreflexive(k);
    if i == args.len() {
        if args.len() > 0 && args.last().0 == k {
            assert(args.drop_last().push((k, a)) =~= args.update(i - 1, (k, a)));
        } else {
            assert(args.insert(i, (k, a)) =~= args.push((k, a)));
        }
    } else {
        let t = args.drop_last();
        assert(!lt_or_same(args[args.len() - 1].0, k));
        assert forall|j: int| i <= j < t.len() implies !lt_or_same((#[trigger] t[j]).0, k) by {
            assert(t[j] == args[j]);
        }
        put_arg_at(t, k, a, i);
        if i > 0 && args[i - 1].0 == k {
            assert(t.update(i - 1, (k, a)).push(args.last()) =~= args.update(i - 1, (k, a)));
        } else {
            assert(t.insert(i, (k, a)).push(args.last()) =~= args.insert(i, (k, a)));
        }
    }
}

spec fn lt_or_same(a: Seq<char>, b: Seq<char>) -> bool {
    crate::text::lt(a, b) || a == b
}

/// Store an argument, in ascending order of the names.
pub fn store_arg(args: &mut Vec<(String, Arg)>, k: &str, a: Arg)
    ensures
        node_args_view(final(args)@) == put_arg(node_args_view(old(args)@), k@, a@),
{
    let ghost s = node_args_view(args@);
    let mut i: usize = args.len();
    while i > 0 && !(str_lt(args[i - 1].0.as_str(), k) || same(args[i - 1].0.as_str(), k))
        invariant
            i <= args@.len(),
            s == node_args_view(args@),
            args@ == old(args)@,
            forall|j: int| i <= j < s.len() ==> !lt_or_same((#[trigger] s[j]).0, k@),
        decreases i,
    {
        i -= 1;
    }
    proof {
        put_arg_at(s, k@, a@, i as int);
    }
    if i > 0 && same(args[i - 1].0.as_str(), k) {
        let x = (owned(k), a);
        args.set(i - 1, x);
        assert(node_args_view(args@) =~= s.update(i - 1, (k@, a@)));
    } else {
        let x = (owned(k), a);
        args.insert(i, x);
        assert(node_args_view(args@) =~= s.insert(i as int, (k@, a@)));
    }
}

// ---------- surfaces ----------

/// The cheapest available surface.
pub fn pick_surface(surfaces: &Vec<(String, u32)>, available: &Vec<String>) -> (r: Option<usize>)
    ensures
        match r {
            Some(i) => i < surfaces@.len() && cheapest(
                surfaces_view(surfaces@),
                views(available@),
            ) == Some(surfaces_view(surfaces@)[i as int]),
            None => cheapest(surfaces_view(surfaces@), views(available@)) is None,
        },
{
    let ghost ss = surfaces_view(surfaces@);
    let mut best: Option<usize> = None;
    let mut i: usize = 0;
    assert(ss.take(0) =~= Seq::<(Seq<char>, u32)>::empty());
    while i < surfaces.len()
        invariant
            i <= surfaces@.len(),
            ss == surfaces_view(surfaces@),
            match best {
                Some(j) => j < i && cheapest(ss.take(i as int), views(available@)) == Some(
                    ss[j as int],
                ),
                None => cheapest(ss.take(i as int), views(available@)) is None,
            },
        decreases surfaces@.len() - i,
    {
        proof {
            assert(ss.take(i + 1).drop_last() =~= ss.take(i as int));
            assert(ss.take(i + 1).last() == ss[i as int]);
        }
        if list_has(available, surfaces[i].0.as_str()) {
            match best {
                None => {
                    best = Some(i);
                },
                Some(j) => {
                    if surfaces[i].1 < surfaces[j].1 {
                        best = Some(i);
                    }
                },
            }
        }
        i += 1;
    }
    assert(ss.take(i as int) =~= ss);
    best
}

// ---------- footprints ----------

fn push_list_tokens(entity: &str, xs: &Vec<Val>, out: &mut Vec<String>)
    ensures
        views(final(out)@) == views(old(out)@) + list_tokens(entity@, vals_view(xs@)),
    decreases xs,
{
    let ghost before = views(out@);
    let ghost vs = vals_view(xs@);
    let mut i: usize = 0;
    assert(before + list_tokens(entity@, vs.take(0)) =~= before);
    while i < xs.len()
        invariant
            i <= xs@.len(),
            vs == vals_view(xs@),
            views(out@) == before + list_tokens(entity@, vs.take(i as int)),
        decreases xs@.len() - i,
    {
        push_tokens(entity, &xs[i], out);
        proof {
            let p = vs.take(i + 1);
            assert(p.drop_last() =~= vs.take(i as int));
            assert(p[p.len() - 1] == xs@[i as int]@);
        }
        i += 1;
        assert(views(out@) =~= before + list_tokens(entity@, vs.take(i as int)));
    }
    assert(vs.take(i as int) =~= vs);
}

fn push_one(out: &mut Vec<String>, s: String)
    ensures
        views(final(out)@) == views(old(out)@) + seq![s@],
{
    let ghost before = views(out@);
    out.push(s);
    assert(views(out@) =~= before + seq![s@]);
}

fn push_tokens(entity: &str, v: &Val, out: &mut Vec<String>)
    ensures
        views(final(out)@) == views(old(out)@) + val_tokens(entity@, v@),
    decreases v,
{
    match v {
        Val::Ref(n, _) => {
            let mut s = concat(entity, ":@");
            s.push_str(n.as_str());
            push_one(out, s);
        },
        Val::Num(x) => {
            let mut s = concat(entity, ":");
            push_int(&mut s, *x as i128);
            push_one(out, s);
        },
        Val::Str(t) => {
            let mut s = concat(entity, ":");
            s.push_str(t.as_str());
            push_one(out, s);
        },
        Val::List(xs) => {
            push_list_tokens(entity, xs, out);
        },
        _ => {
            push_one(out, concat(entity, ":*"));
        },
    }
}

fn push_resource(spec_: &str, b: &Vec<(String, Val)>, node: &str, out: &mut Vec<String>)
    ensures
        views(final(out)@) == views(old(out)@) + resource(spec_@, args_view(b@), node@),
{
    match split_once(spec_, ':') {
        None => {
            push_one(out, owned(spec_));
        },
        Some((entity, sel)) => {
            if same(sel.as_str(), "*") {
                push_one(out, concat(entity.as_str(), ":*"));
            } else if same(sel.as_str(), "new") {
                let mut s = concat(entity.as_str(), ":@");
                s.push_str(node);
                push_one(out, s);
            } else if starts_with(sel.as_str(), "$") {
                let bare = trim_start_char(sel.as_str(), '$');
                let name = trim_end_str(bare.as_str(), "[]");
                match lookup_val(b, name.as_str()) {
                    Some(v) => {
                        push_tokens(entity.as_str(), v, out);
                    },
                    None => {
                        push_one(out, concat(entity.as_str(), ":*"));
                    },
                }
            } else {
                let mut s = concat(entity.as_str(), ":");
                s.push_str(sel.as_str());
                push_one(out, s);
            }
        },
    }
}

/// The concrete resources of a footprint.
pub fn footprint(specs: &Vec<String>, b: &Vec<(String, Val)>, node: &str) -> (r: Vec<String>)
    ensures
        views(r@) == resources(views(specs@), args_view(b@), node@),
{
    let ghost ss = views(specs@);
    let mut out: Vec<String> = Vec::new();
    let mut i: usize = 0;
    assert(views(out@) =~= resources(ss.take(0), args_view(b@), node@));
    while i < specs.len()
        invariant
            i <= specs@.len(),
            ss == views(specs@),
            views(out@) == resources(ss.take(i as int), args_view(b@), node@),
        decreases specs@.len() - i,
    {
        push_resource(specs[i].as_str(), b, node, &mut out);
        proof {
            assert(ss.take(i + 1).drop_last() =~= ss.take(i as int));
            assert(ss.take(i + 1).last() == specs@[i as int]@);
        }
        i += 1;
    }
    assert(ss.take(i as int) =~= ss);
    out
}

/// The entity and the item of each resource.
pub fn tokens(rs: &Vec<String>) -> (r: Vec<(String, String)>)
    ensures
        r@.len() == rs@.len(),
        forall|i: int|
            0 <= i < rs@.len() ==> ((#[trigger] r@[i]).0@, r@[i].1@) == token(rs@[i]@),
{
    let mut out: Vec<(String, String)> = Vec::new();
    let mut i: usize = 0;
    while i < rs.len()
        invariant
            i <= rs@.len(),
            out@.len() == i,
            forall|j: int|
                0 <= j < i ==> ((#[trigger] out@[j]).0@, out@[j].1@) == token(rs@[j]@),
        decreases rs@.len() - i,
    {
        match split_once(rs[i].as_str(), ':') {
            Some((e, x)) => {
                out.push((e, x));
            },
            None => {
                out.push((rs[i].clone(), owned("*")));
            },
        }
        i += 1;
    }
    out
}

/// Whether any two resources overlap, given what they name.
pub fn tokens_conflict(
    xs: &Vec<(String, String)>,
    ys: &Vec<(String, String)>,
    a: Ghost<Seq<Seq<char>>>,
    b: Ghost<Seq<Seq<char>>>,
) -> (r: bool)
    requires
        xs@.len() == a@.len(),
        ys@.len() == b@.len(),
        forall|i: int| 0 <= i < a@.len() ==> ((#[trigger] xs@[i]).0@, xs@[i].1@) == token(a@[i]),
        forall|i: int| 0 <= i < b@.len() ==> ((#[trigger] ys@[i]).0@, ys@[i].1@) == token(b@[i]),
    ensures
        r == any_conflict(a@, b@),
{
    let mut i: usize = 0;
    while i < xs.len()
        invariant
            i <= xs@.len() == a@.len(),
            ys@.len() == b@.len(),
            forall|k: int|
                0 <= k < a@.len() ==> ((#[trigger] xs@[k]).0@, xs@[k].1@) == token(a@[k]),
            forall|k: int|
                0 <= k < b@.len() ==> ((#[trigger] ys@[k]).0@, ys@[k].1@) == token(b@[k]),
            forall|k: int, m: int|
                0 <= k < i && 0 <= m < b@.len() ==> !conflicts(#[trigger] a@[k], #[trigger] b@[m]),
        decreases xs@.len() - i,
    {
        let mut j: usize = 0;
        while j < ys.len()
            invariant
                i < xs@.len() == a@.len(),
                j <= ys@.len() == b@.len(),
                forall|k: int|
                    0 <= k < a@.len() ==> ((#[trigger] xs@[k]).0@, xs@[k].1@) == token(a@[k]),
                forall|k: int|
                    0 <= k < b@.len() ==> ((#[trigger] ys@[k]).0@, ys@[k].1@) == token(b@[k]),
                forall|m: int| 0 <= m < j ==> !conflicts(a@[i as int], #[trigger] b@[m]),
            decreases ys@.len() - j,
        {
            assert((xs@[i as int].0@, xs@[i as int].1@) == token(a@[i as int]));
            assert((ys@[j as int].0@, ys@[j as int].1@) == token(b@[j as int]));
            if same(xs[i].0.as_str(), ys[j].0.as_str()) && (same(xs[i].1.as_str(), "*") || same(
                ys[j].1.as_str(),
                "*",
            ) || same(xs[i].1.as_str(), ys[j].1.as_str())) {
                assert(conflicts(a@[i as int], b@[j as int]));
                return true;
            }
            j += 1;
        }
        i += 1;
    }
    false
}

} // verus!
