//! What a compiled node touches: what its operation declares, filled in with what the node was
//! given.

use crate::compile_laws::overlap;
use crate::compile_model::{
    all_args, build, by_id, candidates, compiles_to, conflicts, dep_edges, depth_limit,
    entity_want, env_of, known_by_ref, last_of, list_tokens, literal_id, make_node, node_args,
    node_surface, put_arg, refs_in, refs_in_list, refs_in_val, requirements, resolve_args,
    resolve_list, resolve_val, resource, resources, satisfy, satisfy_all, satisfy_wants, settled,
    to_unify, token, try_ops, unify, val_to_arg, val_tokens, CompileErrorV, Env, OptionsV, State,
};
use crate::cut::{cut, pos_at, trim_back, trim_front};
use crate::graph::reach;
use crate::intent::IntentV;
use crate::json::{entry, JsonV};
use crate::naming::candidates_declared;
use crate::plan::{ArgV, NodeV, PlanV};
use crate::pred::{as_exists_spec, lookup, PredV, ValV};
use crate::pred_parse::parse_spec;
use crate::pred_print::pred_text;
use crate::pred_unroll::{subst_pred, unroll_spec};
use crate::races::overlapping_nodes_are_ordered;
use crate::text::{int_dec, sort_dedup, sort_dedup_ok};
use crate::world::{OpKind, OpV, ParamV, WorldV};
use vstd::prelude::*;

verus! {

/// A name as a footprint may refer to: it has no mark in front and none behind.
pub open spec fn bare(p: Seq<char>) -> bool {
    &&& p.len() > 0 ==> p[0] != '$'
    &&& !"[]"@.is_suffix_of(p)
}

proof fn cut_there(e: Seq<char>, s: Seq<char>)
    requires
        !e.contains(':'),
    ensures
        cut(e + ":"@ + s, ':') == Some((e, s)),
{
    reveal_strlit(":");
    let t = e + ":"@ + s;
    assert(t[e.len() as int] == ':');
    assert forall|j: int| 0 <= j < e.len() implies t[j] != ':' by {
        assert(t[j] == e[j]);
        assert(e.contains(e[j]));
    }
    pos_at(t, ':', e.len() as int);
    assert(t.take(e.len() as int) =~= e);
    assert(t.skip(e.len() as int + 1) =~= s);
}

proof fn bare_name(p: Seq<char>)
    requires
        bare(p),
    ensures
        trim_back(trim_front("$"@ + p, '$'), "[]"@) == p,
        trim_back(trim_front("$"@ + p + "[]"@, '$'), "[]"@) == p,
        "$"@.is_prefix_of("$"@ + p),
        "$"@.is_prefix_of("$"@ + p + "[]"@),
        "$"@ + p != "*"@,
        "$"@ + p != "new"@,
        "$"@ + p + "[]"@ != "*"@,
        "$"@ + p + "[]"@ != "new"@,
{
    reveal_strlit("$");
    reveal_strlit("[]");
    reveal_strlit("*");
    reveal_strlit("new");
    let s = "$"@ + p;
    let t = "$"@ + p + "[]"@;
    assert(s[0] == '$' && t[0] == '$');
    assert("*"@[0] == '*' && "new"@[0] == 'n');
    assert(s.drop_first() =~= p);
    assert(t.drop_first() =~= p + "[]"@);
    reveal_with_fuel(trim_front, 3);
    assert(trim_front(s, '$') == p);
    let u = p + "[]"@;
    assert(u[0] != '$') by {
        if p.len() == 0 {
            assert(u[0] == "[]"@[0]);
        } else {
            assert(u[0] == p[0]);
        }
    }
    assert(trim_front(t, '$') == u);
    assert("[]"@.is_suffix_of(u)) by {
        assert(u.subrange(u.len() - 2, u.len() as int) =~= "[]"@);
    }
    assert(u.take(u.len() - 2) =~= p);
    assert(trim_back(u, "[]"@) == trim_back(p, "[]"@));
}

/// A footprint entry stands for what its parameter is bound to: a number for the item with that
/// decimal form, a text for the item of that name, a reference for what its node produced. A
/// parameter that nothing is bound to stands for everything of its entity.
pub proof fn an_entry_stands_for_what_is_bound(
    e: Seq<char>,
    p: Seq<char>,
    b: Seq<(Seq<char>, ValV)>,
    node: Seq<char>,
)
    requires
        !e.contains(':'),
        bare(p),
    ensures
        lookup(b, p) matches Some(ValV::Num(x)) ==> resource(e + ":"@ + ("$"@ + p), b, node)
            == seq![e + ":"@ + int_dec(x)],
        lookup(b, p) matches Some(ValV::Str(s)) ==> resource(e + ":"@ + ("$"@ + p), b, node)
            == seq![e + ":"@ + s],
        lookup(b, p) matches Some(ValV::Ref(n, f)) ==> resource(e + ":"@ + ("$"@ + p), b, node)
            == seq![e + ":@"@ + n],
        lookup(b, p) is None ==> resource(e + ":"@ + ("$"@ + p), b, node) == seq![e + ":*"@],
        resource(e + ":"@ + ("$"@ + p + "[]"@), b, node) == resource(
            e + ":"@ + ("$"@ + p),
            b,
            node,
        ),
{
    cut_there(e, "$"@ + p);
    cut_there(e, "$"@ + p + "[]"@);
    bare_name(p);
}

/// A list stands for what each of its elements stands for, and for nothing else.
pub proof fn a_list_stands_for_its_elements(e: Seq<char>, xs: Seq<ValV>)
    ensures
        forall|i: int, t: Seq<char>|
            0 <= i < xs.len() && #[trigger] val_tokens(e, xs[i]).contains(t) ==> val_tokens(
                e,
                ValV::List(xs),
            ).contains(t),
        forall|t: Seq<char>| #[trigger]
            val_tokens(e, ValV::List(xs)).contains(t) ==> exists|i: int|
                0 <= i < xs.len() && #[trigger] val_tokens(e, xs[i]).contains(t),
    decreases xs.len(),
{
    if xs.len() > 0 {
        let d = xs.drop_last();
        a_list_stands_for_its_elements(e, d);
        let last = xs[xs.len() - 1];
        crate::seqs::add_has(list_tokens(e, d), val_tokens(e, last));
        assert(val_tokens(e, ValV::List(d)) == list_tokens(e, d));
        assert(val_tokens(e, ValV::List(xs)) == list_tokens(e, xs));
        assert forall|i: int, t: Seq<char>|
            0 <= i < xs.len() && #[trigger] val_tokens(e, xs[i]).contains(t) implies val_tokens(
            e,
            ValV::List(xs),
        ).contains(t) by {
            if i < d.len() {
                assert(d[i] == xs[i]);
                assert(val_tokens(e, d[i]).contains(t));
            }
        }
        assert forall|t: Seq<char>| #[trigger] val_tokens(e, ValV::List(xs)).contains(t) implies
            exists|i: int| 0 <= i < xs.len() && #[trigger] val_tokens(e, xs[i]).contains(t) by {
            if list_tokens(e, d).contains(t) {
                assert(val_tokens(e, ValV::List(d)).contains(t));
                let i = choose|i: int|
                    0 <= i < d.len() && #[trigger] val_tokens(e, d[i]).contains(t);
                assert(val_tokens(e, xs[i]).contains(t));
            } else {
                assert(val_tokens(e, xs[xs.len() - 1]).contains(t));
            }
        }
    }
}

/// An entry for everything of an entity, for what the node itself makes, for one fixed item, and
/// one that names no item, stand for just that.
pub proof fn a_fixed_entry_stands_for_itself(
    e: Seq<char>,
    item: Seq<char>,
    b: Seq<(Seq<char>, ValV)>,
    node: Seq<char>,
)
    requires
        !e.contains(':'),
    ensures
        resource(e, b, node) == seq![e],
        resource(e + ":"@ + "*"@, b, node) == seq![e + ":*"@],
        resource(e + ":"@ + "new"@, b, node) == seq![e + ":@"@ + node],
        item != "*"@ && item != "new"@ && (item.len() == 0 || item[0] != '$') ==> resource(
            e + ":"@ + item,
            b,
            node,
        ) == seq![e + ":"@ + item],
{
    cut_there(e, "*"@);
    cut_there(e, "new"@);
    cut_there(e, item);
    reveal_strlit("$");
    reveal_strlit("*");
    reveal_strlit("new");
    assert("*"@[0] == '*' && "new"@[0] == 'n');
    assert("*"@.len() == 1 && "new"@.len() == 3);
    if "$"@.is_prefix_of(item) {
        assert(item[0] == "$"@[0]);
    }
}

/// The item of a resource that is put together.
pub proof fn a_resource_names_its_item(e: Seq<char>, item: Seq<char>)
    requires
        !e.contains(':'),
    ensures
        token(e + ":"@ + item) == (e, item),
{
    cut_there(e, item);
}

proof fn resources_have(
    specs: Seq<Seq<char>>,
    b: Seq<(Seq<char>, ValV)>,
    node: Seq<char>,
    k: int,
    t: Seq<char>,
)
    requires
        0 <= k < specs.len(),
        resource(specs[k], b, node).contains(t),
    ensures
        resources(specs, b, node).contains(t),
    decreases specs.len(),
{
    let d = specs.drop_last();
    crate::seqs::add_has(resources(d, b, node), resource(specs.last(), b, node));
    if k < d.len() {
        assert(d[k] == specs[k]);
        resources_have(d, b, node, k, t);
    }
}

// ---------- arguments ----------

proof fn put_arg_has(args: Seq<(Seq<char>, ArgV)>, k: Seq<char>, a: ArgV)
    ensures
        put_arg(args, k, a).contains((k, a)),
        forall|x: (Seq<char>, ArgV)| #[trigger]
            put_arg(args, k, a).contains(x) ==> x == (k, a) || args.contains(x),
        forall|x: (Seq<char>, ArgV)| #[trigger]
            args.contains(x) && x.0 != k ==> put_arg(args, k, a).contains(x),
    decreases args.len(),
{
    let r = put_arg(args, k, a);
    if args.len() == 0 || crate::text::lt(args.last().0, k) {
        crate::seqs::push_has(args, (k, a));
    } else {
        let d = args.drop_last();
        put_arg_has(d, k, a);
        crate::seqs::push_has(d, args.last());
        assert(d.push(args.last()) =~= args);
        if args.last().0 == k {
            crate::seqs::push_has(d, (k, a));
        } else {
            crate::seqs::push_has(put_arg(d, k, a), args.last());
        }
    }
}

/// What an argument of a node comes from: what its name is bound to, or a default where nothing
/// is bound to it.
pub open spec fn comes_from(
    op: OpV,
    b: Seq<(Seq<char>, ValV)>,
    k: Seq<char>,
    a: ArgV,
) -> bool {
    match lookup(b, k) {
        Some(v) => val_to_arg(v) == Ok::<ArgV, Seq<char>>(a),
        None => entry(op.defaults, k) matches Some(d) && a == ArgV::Lit(d),
    }
}

proof fn node_args_come_from(op: OpV, params: Seq<ParamV>, b: Seq<(Seq<char>, ValV)>)
    ensures
        node_args(op, params, b) matches Ok(args) ==> {
            &&& forall|x: (Seq<char>, ArgV)| #[trigger]
                args.contains(x) ==> comes_from(op, b, x.0, x.1) && exists|i: int|
                    0 <= i < params.len() && (#[trigger] params[i]).name == x.0
            &&& forall|i: int|
                0 <= i < params.len() && (lookup(b, (#[trigger] params[i]).name) is Some || entry(
                    op.defaults,
                    params[i].name,
                ) is Some) ==> exists|a: ArgV| #[trigger] args.contains((params[i].name, a))
        },
    decreases params.len(),
{
    if params.len() > 0 {
        let d = params.drop_last();
        node_args_come_from(op, d, b);
        if let Ok(args) = node_args(op, params, b) {
            let before = node_args(op, d, b)->Ok_0;
            let name = params.last().name;
            assert(params[params.len() - 1].name == name);
            let put = lookup(b, name) is Some || entry(op.defaults, name) is Some;
            let a = match lookup(b, name) {
                Some(v) => val_to_arg(v)->Ok_0,
                None => ArgV::Lit(entry(op.defaults, name)->0),
            };
            if put {
                put_arg_has(before, name, a);
                assert(args == put_arg(before, name, a));
            } else {
                assert(args == before);
            }
            assert forall|x: (Seq<char>, ArgV)| #[trigger] args.contains(x) implies comes_from(
                op,
                b,
                x.0,
                x.1,
            ) && exists|i: int| 0 <= i < params.len() && (#[trigger] params[i]).name == x.0 by {
                if before.contains(x) {
                    let i = choose|i: int| 0 <= i < d.len() && (#[trigger] d[i]).name == x.0;
                    assert(params[i].name == x.0);
                } else {
                    assert(params[params.len() - 1].name == x.0);
                }
            }
            assert forall|i: int|
                0 <= i < params.len() && (lookup(b, (#[trigger] params[i]).name) is Some || entry(
                    op.defaults,
                    params[i].name,
                ) is Some) implies exists|a: ArgV| #[trigger] args.contains(
                (params[i].name, a),
            ) by {
                if params[i].name == name {
                    assert(args.contains((name, a)));
                } else {
                    assert(d[i] == params[i]);
                    let c = choose|c: ArgV| #[trigger] before.contains((d[i].name, c));
                    assert(before.contains((params[i].name, c)));
                    assert(args.contains((params[i].name, c)));
                }
            }
        }
    }
}

proof fn all_args_come_from(op: OpV, b: Seq<(Seq<char>, ValV)>)
    ensures
        all_args(op, b) matches Ok(args) ==> {
            &&& forall|x: (Seq<char>, ArgV)| #[trigger]
                args.contains(x) ==> comes_from(op, b, x.0, x.1)
            &&& forall|x: (Seq<char>, ArgV)| #[trigger]
                args.contains(x) ==> (op.kind == OpKind::Event && x.0 == "id"@) || exists|i: int|
                    0 <= i < op.params.len() && (#[trigger] op.params[i]).name == x.0
            &&& forall|i: int|
                0 <= i < op.params.len() && (lookup(b, (#[trigger] op.params[i]).name) is Some
                    || entry(op.defaults, op.params[i].name) is Some) ==> exists|a: ArgV| #[trigger]
                    args.contains((op.params[i].name, a))
        },
{
    node_args_come_from(op, op.params, b);
    if let Ok(args) = all_args(op, b) {
        let before = node_args(op, op.params, b)->Ok_0;
        if op.kind == OpKind::Event && lookup(b, "id"@) is Some {
            let a = val_to_arg(lookup(b, "id"@)->0)->Ok_0;
            put_arg_has(before, "id"@, a);
            assert forall|i: int|
                0 <= i < op.params.len() && (lookup(b, (#[trigger] op.params[i]).name) is Some
                    || entry(op.defaults, op.params[i].name) is Some) implies exists|a: ArgV|
                #[trigger] args.contains((op.params[i].name, a)) by {
                let c = choose|c: ArgV| #[trigger] before.contains((op.params[i].name, c));
                if op.params[i].name == "id"@ {
                    assert(args.contains((op.params[i].name, a)));
                } else {
                    assert(args.contains((op.params[i].name, c)));
                }
            }
        }
    }
}

// ---------- every node does a declared operation ----------

/// The node is that of an operation for some bindings.
pub open spec fn node_of(env: Env, op: OpV, b: Seq<(Seq<char>, ValV)>, n: NodeV) -> bool {
    &&& env.ops.contains(op)
    &&& exists|st: State, want: PredV, args: Seq<(Seq<char>, ArgV)>, surface: Seq<char>|
        #![trigger make_node(env, st, op, b, want, args, surface)]
        all_args(op, b) == Ok::<Seq<(Seq<char>, ArgV)>, CompileErrorV>(args) && node_surface(
            op,
            env.opts.surfaces,
        ) == Ok::<Seq<char>, CompileErrorV>(surface) && n == make_node(
            env,
            st,
            op,
            b,
            want,
            args,
            surface,
        )
}

/// The node of that name waits for all of these.
pub open spec fn waits_for(
    deps: Seq<(Seq<char>, Seq<char>)>,
    xs: Seq<Seq<char>>,
    id: Seq<char>,
) -> bool {
    forall|x: Seq<char>| #[trigger] xs.contains(x) && x != id ==> deps.contains((x, id))
}

/// The node is that of a declared operation, and waits for every node that its bindings refer to.
pub open spec fn declared(env: Env, deps: Seq<(Seq<char>, Seq<char>)>, n: NodeV) -> bool {
    exists|op: OpV, b: Seq<(Seq<char>, ValV)>| #[trigger]
        node_of(env, op, b, n) && waits_for(deps, refs_in(b), n.id)
}

/// Every node of a state is that of a declared operation.
pub open spec fn all_declared(env: Env, st: State) -> bool {
    forall|i: int| 0 <= i < st.nodes.len() ==> declared(env, st.deps, #[trigger] st.nodes[i])
}

proof fn still_declared(
    env: Env,
    deps: Seq<(Seq<char>, Seq<char>)>,
    more: Seq<(Seq<char>, Seq<char>)>,
    n: NodeV,
)
    requires
        declared(env, deps, n),
    ensures
        declared(env, deps + more, n),
{
    let (op, b) = choose|op: OpV, b: Seq<(Seq<char>, ValV)>| #[trigger]
        node_of(env, op, b, n) && waits_for(deps, refs_in(b), n.id);
    crate::seqs::add_has(deps, more);
    assert(node_of(env, op, b, n) && waits_for(deps + more, refs_in(b), n.id));
}

proof fn dep_edges_have(deps: Seq<Seq<char>>, id: Seq<char>, x: Seq<char>)
    requires
        deps.contains(x),
        x != id,
    ensures
        dep_edges(deps, id).contains((x, id)),
    decreases deps.len(),
{
    let d = deps.drop_last();
    let k = choose|k: int| 0 <= k < deps.len() && deps[k] == x;
    crate::seqs::push_has(dep_edges(d, id), (deps.last(), id));
    if k < d.len() {
        assert(d[k] == x);
        dep_edges_have(d, id, x);
    }
}

proof fn resolve_val_declared(env: Env, fuel: nat, st: State, v: ValV)
    requires
        all_declared(env, st),
    ensures
        resolve_val(env, fuel, st, v) matches Ok((st1, _)) ==> all_declared(env, st1),
    decreases 3 * fuel + 1, v, 0nat,
{
    match v {
        ValV::Entity(p) => {
            if literal_id(*p) is None {
                satisfy_declared(env, fuel, st, entity_want(env.ops, *p));
            }
        },
        ValV::List(xs) => {
            resolve_list_declared(env, fuel, st, xs);
        },
        _ => {},
    }
}

proof fn resolve_list_declared(env: Env, fuel: nat, st: State, xs: Seq<ValV>)
    requires
        all_declared(env, st),
    ensures
        resolve_list(env, fuel, st, xs) matches Ok((st1, _)) ==> all_declared(env, st1),
    decreases 3 * fuel + 1, xs, 0nat,
{
    if xs.len() > 0 {
        resolve_list_declared(env, fuel, st, xs.drop_last());
        if let Ok((st1, _)) = resolve_list(env, fuel, st, xs.drop_last()) {
            resolve_val_declared(env, fuel, st1, xs[xs.len() - 1]);
        }
    }
}

proof fn resolve_args_declared(env: Env, fuel: nat, st: State, xs: Seq<(Seq<char>, ValV)>)
    requires
        all_declared(env, st),
    ensures
        resolve_args(env, fuel, st, xs) matches Ok((st1, _)) ==> all_declared(env, st1),
    decreases 3 * fuel + 1, xs, 0nat,
{
    if xs.len() > 0 {
        resolve_args_declared(env, fuel, st, xs.drop_last());
        if let Ok((st1, _)) = resolve_args(env, fuel, st, xs.drop_last()) {
            resolve_val_declared(env, fuel, st1, xs[xs.len() - 1].1);
        }
    }
}

proof fn satisfy_declared(env: Env, fuel: nat, st: State, raw: PredV)
    requires
        all_declared(env, st),
    ensures
        satisfy(env, fuel, st, raw) matches Ok((st1, _)) ==> all_declared(env, st1),
    decreases 3 * fuel + 1, raw.args, 1nat,
{
    if fuel > 0 {
        resolve_args_declared(env, fuel, st, raw.args);
        if let Ok((st1, args)) = resolve_args(env, fuel, st, raw.args) {
            let pred = PredV { entity: raw.entity, args, field: raw.field, value: raw.value };
            if last_of(st1.memo, pred_text(pred)) is None && known_by_ref(pred) is None {
                let ops = candidates(env.ops, pred);
                candidates_declared(env.ops, pred);
                try_ops_declared(env, (fuel - 1) as nat, st1, pred, ops);
            }
        }
    }
}

proof fn try_ops_declared(env: Env, fuel: nat, st: State, pred: PredV, ops: Seq<OpV>)
    requires
        all_declared(env, st),
        forall|x: OpV| #[trigger] ops.contains(x) ==> env.ops.contains(x),
    ensures
        try_ops(env, fuel, st, pred, ops) matches Ok((st1, _)) ==> all_declared(env, st1),
    decreases 3 * fuel + 3, ops, 0nat,
{
    if ops.len() > 0 {
        let op = ops[0];
        assert(ops.contains(op));
        let post = op.post->0;
        let found = if by_id(post, pred) {
            match satisfy(env, fuel, st, as_exists_spec(pred)) {
                Err(e) => Err(e),
                Ok((st1, t)) => Ok((st1, Some(t))),
            }
        } else {
            Ok((st, None))
        };
        if by_id(post, pred) {
            satisfy_declared(env, fuel, st, as_exists_spec(pred));
        }
        if let Ok((st1, target)) = found {
            match unify(post, to_unify(post, pred, target)) {
                None => {
                    let rest = ops.drop_first();
                    assert forall|x: OpV| #[trigger] rest.contains(x) implies env.ops.contains(
                        x,
                    ) by {
                        let k = choose|k: int| 0 <= k < rest.len() && rest[k] == x;
                        assert(ops[k + 1] == x);
                        assert(ops.contains(x));
                    }
                    try_ops_declared(env, fuel, st1, pred, rest);
                },
                Some(b) => {
                    build_declared(env, fuel, st1, op, b, pred);
                },
            }
        }
    }
}

proof fn requirements_declared(
    env: Env,
    fuel: nat,
    st: State,
    reqs: Seq<PredV>,
    b: Seq<(Seq<char>, ValV)>,
)
    requires
        all_declared(env, st),
    ensures
        requirements(env, fuel, st, reqs, b) matches Ok((st1, _)) ==> all_declared(env, st1),
    decreases 3 * fuel + 2, reqs, 0nat,
{
    if reqs.len() > 0 {
        requirements_declared(env, fuel, st, reqs.drop_last(), b);
        if let Ok((st1, _)) = requirements(env, fuel, st, reqs.drop_last(), b) {
            let r = subst_pred(reqs.last(), b);
            if !settled(r) {
                satisfy_declared(env, fuel, st1, r);
            }
        }
    }
}

proof fn build_declared(
    env: Env,
    fuel: nat,
    st: State,
    op: OpV,
    b: Seq<(Seq<char>, ValV)>,
    want: PredV,
)
    requires
        all_declared(env, st),
        env.ops.contains(op),
    ensures
        build(env, fuel, st, op, b, want) matches Ok((st1, _)) ==> all_declared(env, st1),
    decreases 3 * fuel + 2, op.requires_, 1nat,
{
    requirements_declared(env, fuel, st, op.requires_, b);
    if let Ok((st1, deps)) = requirements(env, fuel, st, op.requires_, b) {
        if let Ok((st2, _)) = build(env, fuel, st, op, b, want) {
            let args = all_args(op, b)->Ok_0;
            let surface = node_surface(op, env.opts.surfaces)->Ok_0;
            let n = make_node(env, st1, op, b, want, args, surface);
            assert(st2.nodes == st1.nodes.push(n));
            assert(node_of(env, op, b, n));
            let all = deps + refs_in(b);
            let more = dep_edges(sort_dedup(all), n.id);
            assert(st2.deps == st1.deps + more);
            crate::seqs::add_has(st1.deps, more);
            crate::seqs::add_has(deps, refs_in(b));
            sort_dedup_ok(all);
            assert forall|x: Seq<char>| #[trigger]
                refs_in(b).contains(x) && x != n.id implies st2.deps.contains((x, n.id)) by {
                assert(all.contains(x));
                assert(sort_dedup(all).contains(x));
                dep_edges_have(sort_dedup(all), n.id, x);
            }
            assert(waits_for(st2.deps, refs_in(b), n.id));
            assert forall|i: int| 0 <= i < st2.nodes.len() implies declared(
                env,
                st2.deps,
                #[trigger] st2.nodes[i],
            ) by {
                if i < st1.nodes.len() {
                    assert(st2.nodes[i] == st1.nodes[i]);
                    still_declared(env, st1.deps, more, st1.nodes[i]);
                } else {
                    assert(node_of(env, op, b, st2.nodes[i]));
                }
            }
        }
    }
}

proof fn satisfy_all_declared(env: Env, fuel: nat, st: State, ps: Seq<PredV>)
    requires
        all_declared(env, st),
    ensures
        satisfy_all(env, fuel, st, ps) matches Ok(st1) ==> all_declared(env, st1),
    decreases ps.len(),
{
    if ps.len() > 0 {
        satisfy_all_declared(env, fuel, st, ps.drop_last());
        if let Ok(st1) = satisfy_all(env, fuel, st, ps.drop_last()) {
            satisfy_declared(env, fuel, st1, ps.last());
        }
    }
}

proof fn satisfy_wants_declared(env: Env, fuel: nat, wants: Seq<Seq<char>>)
    ensures
        satisfy_wants(env, fuel, wants) matches Ok(st) ==> all_declared(env, st),
    decreases wants.len(),
{
    if wants.len() > 0 {
        satisfy_wants_declared(env, fuel, wants.drop_last());
        if let Ok(st) = satisfy_wants(env, fuel, wants.drop_last()) {
            if let Ok(p) = parse_spec(wants.last()) {
                satisfy_all_declared(env, fuel, st, unroll_spec(p));
            }
        }
    }
}

/// An argument that is a whole number.
pub open spec fn number(x: int) -> ArgV {
    ArgV::Lit(JsonV::Int(x))
}

/// An argument that is a text.
pub open spec fn words(s: Seq<char>) -> ArgV {
    ArgV::Lit(JsonV::Str(s))
}

/// The node was given that argument.
pub open spec fn given(n: NodeV, p: Seq<char>, a: ArgV) -> bool {
    n.args.contains((p, a))
}

/// The entry is `e:$p`, for a plain name `p` that no default stands in for.
pub open spec fn about(op: OpV, text: Seq<char>, e: Seq<char>, p: Seq<char>) -> bool {
    &&& text == e + ":"@ + ("$"@ + p)
    &&& !e.contains(':')
    &&& bare(p)
    &&& entry(op.defaults, p) is None
}

/// The entry is `e:item`.
pub open spec fn entry_is(text: Seq<char>, e: Seq<char>, item: Seq<char>) -> bool {
    text == e + ":"@ + item && !e.contains(':')
}

/// A footprint covers what its entries say of the arguments. An entry `e:$p` covers the item that
/// the argument `p` gives: a number by its decimal form, a text by itself, a reference by the
/// node it refers to. Nothing here speaks of an argument that a default gives.
pub open spec fn covered_by(op: OpV, entries: Seq<Seq<char>>, n: NodeV, touched: Seq<Seq<char>>) -> bool {
    &&& forall|k: int, e: Seq<char>, p: Seq<char>, x: int|
        0 <= k < entries.len() && #[trigger] about(op, entries[k], e, p) && #[trigger] given(
            n,
            p,
            number(x),
        ) ==> touched.contains(e + ":"@ + int_dec(x))
    &&& forall|k: int, e: Seq<char>, p: Seq<char>, s: Seq<char>|
        0 <= k < entries.len() && #[trigger] about(op, entries[k], e, p) && #[trigger] given(
            n,
            p,
            words(s),
        ) ==> touched.contains(e + ":"@ + s)
    &&& forall|k: int, e: Seq<char>, p: Seq<char>, m: Seq<char>, f: Seq<char>|
        0 <= k < entries.len() && #[trigger] about(op, entries[k], e, p) && #[trigger] given(
            n,
            p,
            ArgV::Ref { node: m, field: f },
        ) ==> touched.contains(e + ":@"@ + m)
    &&& forall|k: int, e: Seq<char>|
        0 <= k < entries.len() && #[trigger] entry_is(entries[k], e, "*"@) ==> touched.contains(
            e + ":*"@,
        )
    &&& forall|k: int, e: Seq<char>|
        0 <= k < entries.len() && #[trigger] entry_is(entries[k], e, "new"@) ==> touched.contains(
            e + ":@"@ + n.id,
        )
    &&& forall|k: int|
        0 <= k < entries.len() && !(#[trigger] entries[k]).contains(':') ==> touched.contains(
            entries[k],
        )
}

/// The node does what the operation declares: it is of its kind, it touches what the operation
/// says it touches, it leaves the system where the operation does, and a write over HTTP has a
/// key.
pub open spec fn does(op: OpV, n: NodeV) -> bool {
    &&& n.op == op.name
    &&& n.kind == op.kind
    &&& n.external == op.external
    &&& n.produces == op.produces
    &&& n.ui == op.ui
    &&& n.check == op.check
    &&& n.before == op.before
    &&& covered_by(op, op.reads, n, n.reads)
    &&& covered_by(op, op.writes, n, n.writes)
    &&& op.writes.len() == 0 ==> n.writes.len() == 0 && n.key is None
    &&& op.reads.len() == 0 ==> n.reads.len() == 0
    &&& n.key is Some <==> n.kind == OpKind::Http && n.writes.len() > 0
    &&& op.kind == OpKind::Event ==> n.surface == "event"@
    &&& op.kind != OpKind::Event ==> exists|i: int|
        0 <= i < op.surfaces.len() && (#[trigger] op.surfaces[i]).0 == n.surface
    &&& forall|k: Seq<char>, a: ArgV| #[trigger]
        given(n, k, a) ==> (op.kind == OpKind::Event && k == "id"@) || exists|i: int|
            0 <= i < op.params.len() && (#[trigger] op.params[i]).name == k
    &&& forall|i: int|
        0 <= i < op.params.len() && entry(op.defaults, (#[trigger] op.params[i]).name) is Some
            ==> exists|a: ArgV| #[trigger] given(n, op.params[i].name, a)
}

proof fn bound_as(v: ValV, a: ArgV)
    requires
        val_to_arg(v) == Ok::<ArgV, Seq<char>>(a),
    ensures
        forall|x: int| a == #[trigger] number(x) ==> v == ValV::Num(x),
        forall|s: Seq<char>| a == #[trigger] words(s) ==> v == ValV::Str(s),
        a matches ArgV::Ref { node, field } ==> v == ValV::Ref(node, field),
{
}

proof fn entries_are_covered(
    op: OpV,
    entries: Seq<Seq<char>>,
    b: Seq<(Seq<char>, ValV)>,
    n: NodeV,
    touched: Seq<Seq<char>>,
)
    requires
        touched == resources(entries, b, n.id),
        forall|x: (Seq<char>, ArgV)| #[trigger]
            n.args.contains(x) ==> comes_from(op, b, x.0, x.1),
    ensures
        covered_by(op, entries, n, touched),
{
    assert forall|k: int, e: Seq<char>, p: Seq<char>, x: int|
        0 <= k < entries.len() && #[trigger] about(op, entries[k], e, p) && #[trigger] given(
            n,
            p,
            number(x),
        ) implies touched.contains(e + ":"@ + int_dec(x)) by {
        let a = number(x);
        assert(n.args.contains((p, a)));
        assert(comes_from(op, b, p, a));
        bound_as(lookup(b, p)->0, a);
        an_entry_stands_for_what_is_bound(e, p, b, n.id);
        let t = e + ":"@ + int_dec(x);
        assert(resource(entries[k], b, n.id)[0] == t);
        resources_have(entries, b, n.id, k, t);
    }
    assert forall|k: int, e: Seq<char>, p: Seq<char>, s: Seq<char>|
        0 <= k < entries.len() && #[trigger] about(op, entries[k], e, p) && #[trigger] given(
            n,
            p,
            words(s),
        ) implies touched.contains(e + ":"@ + s) by {
        let a = words(s);
        assert(n.args.contains((p, a)));
        assert(comes_from(op, b, p, a));
        bound_as(lookup(b, p)->0, a);
        an_entry_stands_for_what_is_bound(e, p, b, n.id);
        let t = e + ":"@ + s;
        assert(resource(entries[k], b, n.id)[0] == t);
        resources_have(entries, b, n.id, k, t);
    }
    assert forall|k: int, e: Seq<char>, p: Seq<char>, m: Seq<char>, f: Seq<char>|
        0 <= k < entries.len() && #[trigger] about(op, entries[k], e, p) && #[trigger] given(
            n,
            p,
            ArgV::Ref { node: m, field: f },
        ) implies touched.contains(e + ":@"@ + m) by {
        let a = ArgV::Ref { node: m, field: f };
        assert(n.args.contains((p, a)));
        assert(comes_from(op, b, p, a));
        bound_as(lookup(b, p)->0, a);
        an_entry_stands_for_what_is_bound(e, p, b, n.id);
        let t = e + ":@"@ + m;
        assert(resource(entries[k], b, n.id)[0] == t);
        resources_have(entries, b, n.id, k, t);
    }
    assert forall|k: int, e: Seq<char>|
        0 <= k < entries.len() && #[trigger] entry_is(
            entries[k],
            e,
            "*"@,
        ) implies touched.contains(e + ":*"@) by {
        a_fixed_entry_stands_for_itself(e, ""@, b, n.id);
        let t = e + ":*"@;
        assert(resource(entries[k], b, n.id)[0] == t);
        resources_have(entries, b, n.id, k, t);
    }
    assert forall|k: int, e: Seq<char>|
        0 <= k < entries.len() && #[trigger] entry_is(
            entries[k],
            e,
            "new"@,
        ) implies touched.contains(e + ":@"@ + n.id) by {
        a_fixed_entry_stands_for_itself(e, ""@, b, n.id);
        let t = e + ":@"@ + n.id;
        assert(resource(entries[k], b, n.id)[0] == t);
        resources_have(entries, b, n.id, k, t);
    }
    assert forall|k: int|
        0 <= k < entries.len() && !(#[trigger] entries[k]).contains(':') implies touched.contains(
        entries[k],
    ) by {
        let t = entries[k];
        assert(resource(entries[k], b, n.id)[0] == t);
        resources_have(entries, b, n.id, k, t);
    }
}

/// Every node of a compiled plan does an operation that the world declares, with the footprint
/// that the operation declares for the node's own arguments.
pub proof fn every_node_does_what_is_declared(
    intent: IntentV,
    world: WorldV,
    opts: OptionsV,
    p: PlanV,
    i: int,
) -> (op: OpV)
    requires
        compiles_to(intent, world, opts, Ok(p)),
        0 <= i < p.nodes.len(),
    ensures
        world.ops.contains(op),
        does(op, p.nodes[i]),
        op.kind != OpKind::Event ==> opts.surfaces.contains(p.nodes[i].surface),
{
    let env = env_of(intent, world, opts);
    satisfy_wants_declared(env, depth_limit(), intent.wants);
    let st = satisfy_wants(env, depth_limit(), intent.wants)->Ok_0;
    let n = p.nodes[i];
    assert(st.nodes[i] == n);
    assert(declared(env, st.deps, st.nodes[i]));
    let (op, b) = choose|op: OpV, b: Seq<(Seq<char>, ValV)>| #[trigger]
        node_of(env, op, b, n) && waits_for(st.deps, refs_in(b), n.id);
    made_node_does(env, op, b, n);
    op
}

proof fn made_node_does(env: Env, op: OpV, b: Seq<(Seq<char>, ValV)>, n: NodeV)
    requires
        node_of(env, op, b, n),
    ensures
        does(op, n),
        op.kind != OpKind::Event ==> env.opts.surfaces.contains(n.surface),
{
    all_args_come_from(op, b);
    let (at, want, args, surface) = choose|
        st: State,
        want: PredV,
        args: Seq<(Seq<char>, ArgV)>,
        surface: Seq<char>,
    |
        #![trigger make_node(env, st, op, b, want, args, surface)]
        all_args(op, b) == Ok::<Seq<(Seq<char>, ArgV)>, CompileErrorV>(args) && node_surface(
            op,
            env.opts.surfaces,
        ) == Ok::<Seq<char>, CompileErrorV>(surface) && n == make_node(
            env,
            st,
            op,
            b,
            want,
            args,
            surface,
        );
    assert(n.args == args && n.surface == surface);
    assert(all_args(op, b)->Ok_0 == args);
    assert forall|x: (Seq<char>, ArgV)| #[trigger] n.args.contains(x) implies comes_from(
        op,
        b,
        x.0,
        x.1,
    ) by {
        assert(args.contains(x));
    }
    assert(covered_by(op, op.reads, n, n.reads)) by {
        entries_are_covered(op, op.reads, b, n, n.reads);
    }
    assert(covered_by(op, op.writes, n, n.writes)) by {
        entries_are_covered(op, op.writes, b, n, n.writes);
    }
    crate::compile_laws::cheapest_is_best(op.surfaces, env.opts.surfaces);
    if op.kind != OpKind::Event {
        let s = crate::compile_model::cheapest(op.surfaces, env.opts.surfaces)->0;
        let k = choose|k: int| 0 <= k < op.surfaces.len() && #[trigger] op.surfaces[k] == s;
        assert(op.surfaces[k].0 == n.surface);
    }
    assert forall|k: Seq<char>, a: ArgV| #[trigger] given(n, k, a) implies (op.kind
        == OpKind::Event && k == "id"@) || exists|i: int|
        0 <= i < op.params.len() && (#[trigger] op.params[i]).name == k by {
        let x = (k, a);
        assert(args.contains(x));
    }
    assert forall|i: int|
        0 <= i < op.params.len() && entry(
            op.defaults,
            (#[trigger] op.params[i]).name,
        ) is Some implies exists|a: ArgV| #[trigger] given(n, op.params[i].name, a) by {
        let a = choose|a: ArgV| #[trigger] args.contains((op.params[i].name, a));
        assert(given(n, op.params[i].name, a));
    }
}

proof fn bound_refs(b: Seq<(Seq<char>, ValV)>, k: Seq<char>, x: Seq<char>)
    requires
        lookup(b, k) matches Some(v) && refs_in_val(v).contains(x),
    ensures
        refs_in(b).contains(x),
    decreases b.len(),
{
    if b.len() > 0 {
        let i = bound_at(b, k);
        refs_at(b, i, x);
    }
}

proof fn bound_at(b: Seq<(Seq<char>, ValV)>, k: Seq<char>) -> (i: int)
    requires
        lookup(b, k) is Some,
    ensures
        0 <= i < b.len(),
        lookup(b, k) == Some(b[i].1),
    decreases b.len(),
{
    if b[0].0 == k {
        0
    } else {
        let i = bound_at(b.drop_first(), k);
        assert(b.drop_first()[i] == b[i + 1]);
        i + 1
    }
}

proof fn refs_at(b: Seq<(Seq<char>, ValV)>, i: int, x: Seq<char>)
    requires
        0 <= i < b.len(),
        refs_in_val(b[i].1).contains(x),
    ensures
        refs_in(b).contains(x),
    decreases b.len(),
{
    let d = b.drop_last();
    crate::seqs::add_has(refs_in(d), refs_in_val(b.last().1));
    if i < d.len() {
        assert(d[i] == b[i]);
        refs_at(d, i, x);
    }
}

proof fn refs_in_element(xs: Seq<ValV>, i: int, x: Seq<char>)
    requires
        0 <= i < xs.len(),
        refs_in_val(xs[i]).contains(x),
    ensures
        refs_in_list(xs).contains(x),
    decreases xs.len(),
{
    let d = xs.drop_last();
    crate::seqs::add_has(refs_in_list(d), refs_in_val(xs[xs.len() - 1]));
    if i < d.len() {
        assert(d[i] == xs[i]);
        refs_in_element(d, i, x);
    }
}

/// The argument refers to what that node observed, itself or in its list.
pub open spec fn refers_to(a: ArgV, m: Seq<char>) -> bool {
    ||| a matches ArgV::Ref { node, field } && node == m
    ||| a matches ArgV::List(ys) && exists|i: int|
        0 <= i < ys.len() && (#[trigger] ys[i] matches ArgV::Ref { node, field } && node == m)
}

proof fn arg_refs(v: ValV, a: ArgV, m: Seq<char>)
    requires
        val_to_arg(v) == Ok::<ArgV, Seq<char>>(a),
        refers_to(a, m),
    ensures
        refs_in_val(v).contains(m),
{
    match v {
        ValV::Ref(n, f) => {
            assert(refs_in_val(v)[0] == n);
        },
        ValV::List(xs) => {
            crate::binding_laws::lists_are_handed_on_as_lists(xs);
            let ys = a->List_0;
            let i = choose|i: int|
                0 <= i < ys.len() && (#[trigger] ys[i] matches ArgV::Ref { node, field } && node
                    == m);
            assert(val_to_arg(xs[i]) == Ok::<ArgV, Seq<char>>(ys[i]));
            assert(refs_in_val(xs[i])[0] == m);
            refs_in_element(xs, i, m);
        },
        _ => {},
    }
}

/// A node waits for every node whose result its arguments refer to.
pub proof fn a_node_waits_for_what_it_refers_to(
    intent: IntentV,
    world: WorldV,
    opts: OptionsV,
    p: PlanV,
    i: int,
    k: Seq<char>,
    a: ArgV,
    m: Seq<char>,
)
    requires
        compiles_to(intent, world, opts, Ok(p)),
        0 <= i < p.nodes.len(),
        given(p.nodes[i], k, a),
        refers_to(a, m),
        m != p.nodes[i].id,
    ensures
        reach(p.edges, m, p.nodes[i].id),
{
    let env = env_of(intent, world, opts);
    satisfy_wants_declared(env, depth_limit(), intent.wants);
    let st = satisfy_wants(env, depth_limit(), intent.wants)->Ok_0;
    let n = p.nodes[i];
    assert(st.nodes[i] == n);
    assert(declared(env, st.deps, st.nodes[i]));
    let (op, b) = choose|op: OpV, b: Seq<(Seq<char>, ValV)>| #[trigger]
        node_of(env, op, b, n) && waits_for(st.deps, refs_in(b), n.id);
    all_args_come_from(op, b);
    let x = (k, a);
    let args = all_args(op, b)->Ok_0;
    assert(n.args == args);
    assert(args.contains(x));
    assert(comes_from(op, b, k, a));
    arg_refs(lookup(b, k)->0, a, m);
    bound_refs(b, k, m);
    let e = (m, n.id);
    let foot = crate::compile_model::footprint_edges(st.nodes);
    assert(st.deps.contains(e));
    crate::seqs::add_has(st.deps, foot);
    crate::reduce::dedupe_ok(st.deps + foot);
    assert(crate::compile_model::all_edges(st).contains(e));
    crate::graph::reach_edge(crate::compile_model::all_edges(st), e.0, e.1);
    crate::compile_laws::plan_keeps_every_order(intent, world, opts, p, st);
}

proof fn both_touch(a: NodeV, b: NodeV, t: Seq<char>)
    requires
        a.writes.contains(t),
        b.writes.contains(t) || b.reads.contains(t),
    ensures
        overlap(a, b),
        overlap(b, a),
{
    assert(conflicts(t, t));
    let i = choose|i: int| 0 <= i < a.writes.len() && a.writes[i] == t;
    if b.writes.contains(t) {
        let j = choose|j: int| 0 <= j < b.writes.len() && b.writes[j] == t;
        assert(conflicts(a.writes[i], b.writes[j]));
        assert(conflicts(b.writes[j], a.writes[i]));
    } else {
        let j = choose|j: int| 0 <= j < b.reads.len() && b.reads[j] == t;
        assert(conflicts(a.writes[i], b.reads[j]));
    }
}

/// Two nodes that were given the same number as the id of an entity, of which one writes that
/// entity and the other reads or writes it, are ordered: one of them waits for the other.
pub proof fn nodes_about_one_thing_are_ordered(
    intent: IntentV,
    world: WorldV,
    opts: OptionsV,
    plan: PlanV,
    i: int,
    j: int,
    a: OpV,
    b: OpV,
    e: Seq<char>,
    p: Seq<char>,
    q: Seq<char>,
    x: int,
)
    requires
        compiles_to(intent, world, opts, Ok(plan)),
        0 <= i < plan.nodes.len(),
        0 <= j < plan.nodes.len(),
        i != j,
        does(a, plan.nodes[i]),
        does(b, plan.nodes[j]),
        !e.contains(':'),
        bare(p),
        bare(q),
        entry(a.defaults, p) is None,
        entry(b.defaults, q) is None,
        a.writes.contains(e + ":"@ + ("$"@ + p)),
        b.writes.contains(e + ":"@ + ("$"@ + q)) || b.reads.contains(e + ":"@ + ("$"@ + q)),
        given(plan.nodes[i], p, number(x)),
        given(plan.nodes[j], q, number(x)),
    ensures
        plan.nodes[i].writes.contains(e + ":"@ + int_dec(x)),
        reach(plan.edges, plan.nodes[i].id, plan.nodes[j].id) || reach(
            plan.edges,
            plan.nodes[j].id,
            plan.nodes[i].id,
        ),
        a.kind == OpKind::Http ==> plan.nodes[i].key is Some,
{
    let n = plan.nodes[i];
    let m = plan.nodes[j];
    let t = e + ":"@ + int_dec(x);
    let w = e + ":"@ + ("$"@ + p);
    let k = choose|k: int| 0 <= k < a.writes.len() && a.writes[k] == w;
    assert(about(a, a.writes[k], e, p));
    assert(n.writes.contains(t));
    let r = e + ":"@ + ("$"@ + q);
    if b.writes.contains(r) {
        let l = choose|l: int| 0 <= l < b.writes.len() && b.writes[l] == r;
        assert(about(b, b.writes[l], e, q));
        assert(m.writes.contains(t));
    } else {
        let l = choose|l: int| 0 <= l < b.reads.len() && b.reads[l] == r;
        assert(about(b, b.reads[l], e, q));
        assert(m.reads.contains(t));
    }
    both_touch(n, m, t);
    if i < j {
        overlapping_nodes_are_ordered(intent, world, opts, plan, i, j);
    } else {
        overlapping_nodes_are_ordered(intent, world, opts, plan, j, i);
    }
}

/// A write over HTTP always has a key: where an operation declares that it writes one thing that
/// its arguments name, or everything of an entity, or what it makes, its node has one. Only where
/// all it declares to write is named by lists that are empty does it write nothing.
pub proof fn a_declared_write_has_a_key(
    intent: IntentV,
    world: WorldV,
    opts: OptionsV,
    plan: PlanV,
    i: int,
    op: OpV,
    k: int,
    e: Seq<char>,
    p: Seq<char>,
)
    requires
        compiles_to(intent, world, opts, Ok(plan)),
        0 <= i < plan.nodes.len(),
        does(op, plan.nodes[i]),
        op.kind == OpKind::Http,
        0 <= k < op.writes.len(),
        !e.contains(':'),
        op.writes[k] == e || op.writes[k] == e + ":"@ + "*"@ || op.writes[k] == e + ":"@ + "new"@
            || (op.writes[k] == e + ":"@ + ("$"@ + p) && bare(p) && entry(op.defaults, p) is None
            && exists|x: int| given(plan.nodes[i], p, #[trigger] number(x))),
    ensures
        plan.nodes[i].key is Some,
{
    let n = plan.nodes[i];
    if op.writes[k] == e {
        assert(n.writes.contains(op.writes[k]));
    } else if op.writes[k] == e + ":"@ + "*"@ {
        assert(entry_is(op.writes[k], e, "*"@));
        assert(n.writes.contains(e + ":*"@));
    } else if op.writes[k] == e + ":"@ + "new"@ {
        assert(entry_is(op.writes[k], e, "new"@));
        assert(n.writes.contains(e + ":@"@ + n.id));
    } else {
        let x = choose|x: int| given(plan.nodes[i], p, #[trigger] number(x));
        assert(about(op, op.writes[k], e, p));
        assert(given(n, p, number(x)));
        assert(n.writes.contains(e + ":"@ + int_dec(x)));
    }
}

} // verus!
