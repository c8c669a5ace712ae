//! What it means to compile an intent: the state that satisfying wants builds up, the edges that
//! footprints demand, and the plan that comes out.

use crate::cut::{cut, replaced, trim_back, trim_front};
use crate::graph::{acyclic, arrows, first_cycle};
use crate::hash::{hash_text, is_hex};
use crate::intent::{IntentForkV, IntentV};
use crate::json::{entry, JsonV};
use crate::plan::{ids_of, ArgV, GateKind, GateV, NodeV, PlanV};
use crate::pred::{as_exists_spec, existence, lookup, PredV, ValV};
use crate::pred_parse::{parse_spec, ParseErrorV};
use crate::pred_print::{pred_text, val_text};
use crate::pred_unroll::{subst_pred, unroll_spec};
use crate::reduce::{dedupe_spec, reduce_spec};
use crate::text::{dec, int_dec, lt, sort_dedup};
use crate::world::{ForkV, OpKind, OpV, ParamV, WorldV};
use vstd::prelude::*;

verus! {

/// The mathematical content of a `CompileError`.
pub enum CompileErrorV {
    Parse(Seq<char>, ParseErrorV),
    Unsatisfiable(Seq<char>),
    NoSurface(Seq<char>, Seq<Seq<char>>),
    Unbound(Seq<char>, Seq<char>),
    Cycle(Seq<char>),
    Empty,
}

/// The mathematical content of `CompileOptions`.
pub struct OptionsV {
    pub plan_id: Seq<char>,
    pub surfaces: Seq<Seq<char>>,
}

/// What does not change while an intent is compiled.
pub struct Env {
    pub ops: Seq<OpV>,
    pub forks: Seq<IntentForkV>,
    pub opts: OptionsV,
}

/// What satisfying wants builds up: the nodes, which node satisfies which predicate, the
/// dependencies, and each node's content address.
pub struct State {
    pub nodes: Seq<NodeV>,
    pub memo: Seq<(Seq<char>, Seq<char>)>,
    pub deps: Seq<(Seq<char>, Seq<char>)>,
    pub canon: Seq<(Seq<char>, Seq<char>)>,
}

/// The value last stored under `k`.
pub open spec fn last_of(m: Seq<(Seq<char>, Seq<char>)>, k: Seq<char>) -> Option<Seq<char>>
    decreases m.len(),
{
    if m.len() == 0 {
        None
    } else if m.last().0 == k {
        Some(m.last().1)
    } else {
        last_of(m.drop_last(), k)
    }
}

/// The name of the node at place `i`: a letter, and from the second alphabet on its number.
pub open spec fn node_name(i: nat) -> Seq<char> {
    let letter = ((65 + i % 26) as u8) as char;
    if i < 26 {
        seq![letter]
    } else {
        seq![letter] + dec(i / 26)
    }
}

// ---------- content addresses ----------

/// A value with every `$node.field` replaced by that node's content address.
pub open spec fn expand_val(canon: Seq<(Seq<char>, Seq<char>)>, v: ValV) -> Seq<char>
    decreases v,
{
    match v {
        ValV::Ref(n, f) => "@("@ + (match last_of(canon, n) {
            Some(c) => c,
            None => n,
        }) + ")."@ + f,
        ValV::List(xs) => "["@ + expand_list(canon, xs) + "]"@,
        ValV::Each(xs) => "["@ + expand_list(canon, xs) + "]"@,
        ValV::All(x) => "all("@ + expand_val(canon, *x) + ")"@,
        ValV::Entity(p) => expand(canon, *p),
        other => val_text(other),
    }
}

pub open spec fn expand_list(canon: Seq<(Seq<char>, Seq<char>)>, xs: Seq<ValV>) -> Seq<char>
    decreases xs,
{
    if xs.len() == 0 {
        Seq::empty()
    } else if xs.len() == 1 {
        expand_val(canon, xs[0])
    } else {
        expand_list(canon, xs.drop_last()) + ","@ + expand_val(canon, xs[xs.len() - 1])
    }
}

pub open spec fn expand_args(
    canon: Seq<(Seq<char>, Seq<char>)>,
    xs: Seq<(Seq<char>, ValV)>,
) -> Seq<char>
    decreases xs,
{
    if xs.len() == 0 {
        Seq::empty()
    } else {
        let one = xs[xs.len() - 1].0 + "="@ + expand_val(canon, xs[xs.len() - 1].1);
        if xs.len() == 1 {
            one
        } else {
            expand_args(canon, xs.drop_last()) + ","@ + one
        }
    }
}

/// A predicate with every `$node.field` replaced by that node's content address.
pub open spec fn expand(canon: Seq<(Seq<char>, Seq<char>)>, p: PredV) -> Seq<char>
    decreases p,
{
    p.entity + "("@ + expand_args(canon, p.args) + ")"@ + (if p.field.len() == 0 {
        Seq::empty()
    } else {
        "."@ + p.field + "="@ + expand_val(canon, p.value)
    })
}

// ---------- unification ----------

/// Bind the variables of a pattern against a value, on top of what is bound already.
pub open spec fn unify_val(p: ValV, c: ValV, b: Seq<(Seq<char>, ValV)>) -> Option<
    Seq<(Seq<char>, ValV)>,
>
    decreases p,
{
    match p {
        ValV::Var(n, _) => match lookup(b, n) {
            Some(x) => if x == c {
                Some(b)
            } else {
                None
            },
            None => Some(b.push((n, c))),
        },
        ValV::List(ps) => match c {
            ValV::List(cs) => if ps.len() == cs.len() {
                unify_list(ps, cs, b)
            } else {
                None
            },
            _ => None,
        },
        other => if other == c {
            Some(b)
        } else {
            None
        },
    }
}

/// Unify element by element.
pub open spec fn unify_list(ps: Seq<ValV>, cs: Seq<ValV>, b: Seq<(Seq<char>, ValV)>) -> Option<
    Seq<(Seq<char>, ValV)>,
>
    decreases ps,
{
    if ps.len() == 0 || ps.len() != cs.len() {
        Some(b)
    } else {
        match unify_list(ps.drop_last(), cs.drop_last(), b) {
            None => None,
            Some(b1) => unify_val(ps[ps.len() - 1], cs[cs.len() - 1], b1),
        }
    }
}

/// Unify the arguments that a postcondition names. An argument that the want leaves open must be
/// a variable.
pub open spec fn unify_args(
    ps: Seq<(Seq<char>, ValV)>,
    want: Seq<(Seq<char>, ValV)>,
    b: Seq<(Seq<char>, ValV)>,
) -> Option<Seq<(Seq<char>, ValV)>>
    decreases ps.len(),
{
    if ps.len() == 0 {
        Some(b)
    } else {
        match unify_args(ps.drop_last(), want, b) {
            None => None,
            Some(b1) => match lookup(want, ps.last().0) {
                Some(w) => unify_val(ps.last().1, w, b1),
                None => if ps.last().1 is Var {
                    Some(b1)
                } else {
                    None
                },
            },
        }
    }
}

/// Whether a postcondition names every argument of a want.
pub open spec fn covers(post: Seq<(Seq<char>, ValV)>, want: Seq<(Seq<char>, ValV)>) -> bool {
    forall|i: int| 0 <= i < want.len() ==> lookup(post, (#[trigger] want[i]).0) is Some
}

/// Bind the variables of a postcondition against a concrete want.
pub open spec fn unify(post: PredV, want: PredV) -> Option<Seq<(Seq<char>, ValV)>> {
    if post.entity != want.entity || post.field != want.field {
        None
    } else {
        match unify_val(post.value, want.value, Seq::empty()) {
            None => None,
            Some(b) => match unify_args(post.args, want.args, b) {
                None => None,
                Some(b1) => if covers(post.args, want.args) {
                    Some(b1)
                } else {
                    None
                },
            },
        }
    }
}

// ---------- references and arguments ----------

/// The nodes that a value refers to.
pub open spec fn refs_in_val(v: ValV) -> Seq<Seq<char>>
    decreases v,
{
    match v {
        ValV::Ref(n, _) => seq![n],
        ValV::List(xs) => refs_in_list(xs),
        _ => Seq::empty(),
    }
}

pub open spec fn refs_in_list(xs: Seq<ValV>) -> Seq<Seq<char>>
    decreases xs,
{
    if xs.len() == 0 {
        Seq::empty()
    } else {
        refs_in_list(xs.drop_last()) + refs_in_val(xs[xs.len() - 1])
    }
}

/// The nodes that named values refer to.
pub open spec fn refs_in(xs: Seq<(Seq<char>, ValV)>) -> Seq<Seq<char>>
    decreases xs.len(),
{
    if xs.len() == 0 {
        Seq::empty()
    } else {
        refs_in(xs.drop_last()) + refs_in_val(xs.last().1)
    }
}

/// The argument that a value becomes, or what in it is not bound.
pub open spec fn val_to_arg(v: ValV) -> Result<ArgV, Seq<char>>
    decreases v,
{
    match v {
        ValV::Str(s) => Ok(ArgV::Lit(JsonV::Str(s))),
        ValV::Num(n) => Ok(ArgV::Lit(JsonV::Int(n))),
        ValV::Bool(b) => Ok(ArgV::Lit(JsonV::Bool(b))),
        ValV::List(xs) => match vals_to_args(xs) {
            Ok(ys) => Ok(ArgV::List(ys)),
            Err(e) => Err(e),
        },
        ValV::Ref(n, f) => Ok(ArgV::Ref { node: n, field: f }),
        ValV::Var(n, _) => Err(n),
        ValV::Entity(p) => Err(pred_text(*p)),
        ValV::Each(_) => Err("each(...) survived unrolling"@),
        ValV::All(_) => Err("all(...) survived unrolling"@),
    }
}

pub open spec fn vals_to_args(xs: Seq<ValV>) -> Result<Seq<ArgV>, Seq<char>>
    decreases xs,
{
    if xs.len() == 0 {
        Ok(Seq::empty())
    } else {
        match vals_to_args(xs.drop_last()) {
            Err(e) => Err(e),
            Ok(ys) => match val_to_arg(xs[xs.len() - 1]) {
                Err(e) => Err(e),
                Ok(y) => Ok(ys.push(y)),
            },
        }
    }
}

/// `a` stored under `k` in arguments in ascending order.
pub open spec fn put_arg(
    args: Seq<(Seq<char>, ArgV)>,
    k: Seq<char>,
    a: ArgV,
) -> Seq<(Seq<char>, ArgV)>
    decreases args.len(),
{
    if args.len() == 0 || lt(args.last().0, k) {
        args.push((k, a))
    } else if args.last().0 == k {
        args.drop_last().push((k, a))
    } else {
        put_arg(args.drop_last(), k, a).push(args.last())
    }
}

/// The arguments of a node: what the bindings say, and defaults where they are silent.
pub open spec fn node_args(
    op: OpV,
    params: Seq<ParamV>,
    b: Seq<(Seq<char>, ValV)>,
) -> Result<Seq<(Seq<char>, ArgV)>, CompileErrorV>
    decreases params.len(),
{
    if params.len() == 0 {
        Ok(Seq::empty())
    } else {
        match node_args(op, params.drop_last(), b) {
            Err(e) => Err(e),
            Ok(args) => {
                let name = params.last().name;
                match lookup(b, name) {
                    Some(v) => match val_to_arg(v) {
                        Ok(a) => Ok(put_arg(args, name, a)),
                        Err(n) => Err(CompileErrorV::Unbound(n, op.name)),
                    },
                    None => match entry(op.defaults, name) {
                        Some(d) => Ok(put_arg(args, name, ArgV::Lit(d))),
                        None => Ok(args),
                    },
                }
            },
        }
    }
}

/// All arguments of a node. An event is also told which entity it waits for.
pub open spec fn all_args(op: OpV, b: Seq<(Seq<char>, ValV)>) -> Result<
    Seq<(Seq<char>, ArgV)>,
    CompileErrorV,
> {
    match node_args(op, op.params, b) {
        Err(e) => Err(e),
        Ok(args) => if op.kind == OpKind::Event {
            match lookup(b, "id"@) {
                Some(v) => match val_to_arg(v) {
                    Ok(a) => Ok(put_arg(args, "id"@, a)),
                    Err(n) => Err(CompileErrorV::Unbound(n, op.name)),
                },
                None => Ok(args),
            }
        } else {
            Ok(args)
        },
    }
}

// ---------- surfaces ----------

/// The cheapest of the surfaces that are available, the first of them where several cost the
/// same.
pub open spec fn cheapest(
    surfaces: Seq<(Seq<char>, u32)>,
    available: Seq<Seq<char>>,
) -> Option<(Seq<char>, u32)>
    decreases surfaces.len(),
{
    if surfaces.len() == 0 {
        None
    } else {
        let s = surfaces.last();
        match cheapest(surfaces.drop_last(), available) {
            None => if available.contains(s.0) {
                Some(s)
            } else {
                None
            },
            Some(t) => if available.contains(s.0) && s.1 < t.1 {
                Some(s)
            } else {
                Some(t)
            },
        }
    }
}

/// The surface that a node runs on.
pub open spec fn node_surface(op: OpV, available: Seq<Seq<char>>) -> Result<
    Seq<char>,
    CompileErrorV,
> {
    if op.kind == OpKind::Event {
        Ok("event"@)
    } else {
        match cheapest(op.surfaces, available) {
            Some(s) => Ok(s.0),
            None => Err(CompileErrorV::NoSurface(op.name, available)),
        }
    }
}

// ---------- footprints ----------

/// The resources that a value stands for.
pub open spec fn val_tokens(entity: Seq<char>, v: ValV) -> Seq<Seq<char>>
    decreases v,
{
    match v {
        ValV::Ref(n, _) => seq![entity + ":@"@ + n],
        ValV::Num(x) => seq![entity + ":"@ + int_dec(x)],
        ValV::Str(s) => seq![entity + ":"@ + s],
        ValV::List(xs) => list_tokens(entity, xs),
        _ => seq![entity + ":*"@],
    }
}

pub open spec fn list_tokens(entity: Seq<char>, xs: Seq<ValV>) -> Seq<Seq<char>>
    decreases xs,
{
    if xs.len() == 0 {
        Seq::empty()
    } else {
        list_tokens(entity, xs.drop_last()) + val_tokens(entity, xs[xs.len() - 1])
    }
}

/// `entity:selector` as concrete resources. `@X` means the entity that node X produced.
pub open spec fn resource(
    spec_: Seq<char>,
    b: Seq<(Seq<char>, ValV)>,
    node: Seq<char>,
) -> Seq<Seq<char>> {
    match cut(spec_, ':') {
        None => seq![spec_],
        Some((entity, sel)) => if sel == "*"@ {
            seq![entity + ":*"@]
        } else if sel == "new"@ {
            seq![entity + ":@"@ + node]
        } else if "$"@.is_prefix_of(sel) {
            match lookup(b, trim_back(trim_front(sel, '$'), "[]"@)) {
                Some(v) => val_tokens(entity, v),
                None => seq![entity + ":*"@],
            }
        } else {
            seq![entity + ":"@ + sel]
        },
    }
}

pub open spec fn resources(
    specs: Seq<Seq<char>>,
    b: Seq<(Seq<char>, ValV)>,
    node: Seq<char>,
) -> Seq<Seq<char>>
    decreases specs.len(),
{
    if specs.len() == 0 {
        Seq::empty()
    } else {
        resources(specs.drop_last(), b, node) + resource(specs.last(), b, node)
    }
}

/// The entity and the item that a resource names. A resource without an item is the whole entity.
pub open spec fn token(r: Seq<char>) -> (Seq<char>, Seq<char>) {
    match cut(r, ':') {
        Some((e, i)) => (e, i),
        None => (r, "*"@),
    }
}

/// Whether two resources overlap: the same entity, and the same item or all of them.
pub open spec fn conflicts(a: Seq<char>, b: Seq<char>) -> bool {
    token(a).0 == token(b).0 && (token(a).1 == "*"@ || token(b).1 == "*"@ || token(a).1 == token(
        b,
    ).1)
}

/// Whether any two resources overlap.
pub open spec fn any_conflict(xs: Seq<Seq<char>>, ys: Seq<Seq<char>>) -> bool {
    exists|i: int, j: int|
        0 <= i < xs.len() && 0 <= j < ys.len() && conflicts(#[trigger] xs[i], #[trigger] ys[j])
}

/// The edge that the footprints of two nodes demand, `a` being the earlier one:
///
/// - a writer precedes a reader, so a reader always sees the final state;
/// - two writers are ordered by the declared precedence, and only when it is silent does the
///   order in which they came decide.
///
/// Disjoint footprints demand no edge.
pub open spec fn pair_edge(a: NodeV, b: NodeV) -> Option<(Seq<char>, Seq<char>)> {
    let a_then_b = any_conflict(a.writes, b.reads);
    let b_then_a = any_conflict(b.writes, a.reads);
    if any_conflict(a.writes, b.writes) {
        if b.before.contains(a.op) {
            Some((b.id, a.id))
        } else {
            Some((a.id, b.id))
        }
    } else if a_then_b {
        Some((a.id, b.id))
    } else if b_then_a {
        Some((b.id, a.id))
    } else {
        None
    }
}

/// The edges between node `i` and the nodes from `i + 1` up to `j`.
pub open spec fn row_edges(nodes: Seq<NodeV>, i: int, j: int) -> Seq<(Seq<char>, Seq<char>)>
    decreases j - i,
{
    if j <= i + 1 {
        Seq::empty()
    } else {
        match pair_edge(nodes[i], nodes[j - 1]) {
            Some(e) => row_edges(nodes, i, j - 1).push(e),
            None => row_edges(nodes, i, j - 1),
        }
    }
}

/// The edges of the first `i` rows.
pub open spec fn rows_edges(nodes: Seq<NodeV>, i: int) -> Seq<(Seq<char>, Seq<char>)>
    decreases i,
{
    if i <= 0 {
        Seq::empty()
    } else {
        rows_edges(nodes, i - 1) + row_edges(nodes, i - 1, nodes.len() as int)
    }
}

/// The edges that the footprints of the nodes demand.
pub open spec fn footprint_edges(nodes: Seq<NodeV>) -> Seq<(Seq<char>, Seq<char>)> {
    rows_edges(nodes, nodes.len() as int)
}

// ---------- candidates ----------

/// Whether an operation's postcondition is about what the predicate is about.
pub open spec fn candidate(o: OpV, pred: PredV) -> bool {
    match o.post {
        Some(p) => {
            &&& p.entity == pred.entity
            &&& p.field == pred.field || (existence(pred.field) && existence(p.field))
            &&& existence(pred.field) ==> o.produces == Some(pred.entity)
        },
        None => false,
    }
}

/// A read-only operation goes before one that writes, and then by name.
pub open spec fn op_le(a: OpV, b: OpV) -> bool {
    let (wa, wb) = (a.writes.len() > 0, b.writes.len() > 0);
    if wa != wb {
        !wa
    } else {
        !lt(b.name, a.name)
    }
}

/// `o` added to sorted operations, behind its equals.
pub open spec fn insert_op(s: Seq<OpV>, o: OpV) -> Seq<OpV>
    decreases s.len(),
{
    if s.len() == 0 || op_le(s.last(), o) {
        s.push(o)
    } else {
        insert_op(s.drop_last(), o).push(s.last())
    }
}

/// The operations that may satisfy a predicate, in the order in which they are tried. "X exists"
/// is satisfied by finding X before it is satisfied by making X.
pub open spec fn candidates(ops: Seq<OpV>, pred: PredV) -> Seq<OpV>
    decreases ops.len(),
{
    if ops.len() == 0 {
        Seq::empty()
    } else {
        let rest = candidates(ops.drop_last(), pred);
        if !candidate(ops.last(), pred) {
            rest
        } else if existence(pred.field) {
            insert_op(rest, ops.last())
        } else {
            rest.push(ops.last())
        }
    }
}

// ---------- satisfying ----------

/// What a nested entity asks for: without a field, that it can be found, or else that it exists.
pub open spec fn entity_want(ops: Seq<OpV>, p: PredV) -> PredV {
    if p.field.len() == 0 {
        PredV {
            entity: p.entity,
            args: p.args,
            field: if resolvable(ops, p.entity) {
                "resolved"@
            } else {
                "exists"@
            },
            value: ValV::Bool(true),
        }
    } else {
        p
    }
}

/// Whether some operation finds entities of that name.
pub open spec fn resolvable(ops: Seq<OpV>, entity: Seq<char>) -> bool {
    exists|i: int|
        0 <= i < ops.len() && (#[trigger] ops[i]).produces == Some(entity) && (ops[i].post matches Some(
            p,
        ) && p.field == "resolved"@)
}

/// An entity that is given by a literal id alone.
pub open spec fn literal_id(p: PredV) -> Option<int> {
    match lookup(p.args, "id"@) {
        Some(ValV::Num(n)) => if p.args.len() == 1 {
            Some(n)
        } else {
            None
        },
        _ => None,
    }
}

/// A value with its nested entities satisfied and replaced by references.
pub open spec fn resolve_val(env: Env, fuel: nat, st: State, v: ValV) -> Result<
    (State, ValV),
    CompileErrorV,
>
    decreases 3 * fuel + 1, v, 0nat,
{
    match v {
        ValV::Entity(p) => match literal_id(*p) {
            Some(n) => Ok((st, ValV::Num(n))),
            None => match satisfy(env, fuel, st, entity_want(env.ops, *p)) {
                Err(e) => Err(e),
                Ok((st1, id)) => Ok((st1, ValV::Ref(id, "id"@))),
            },
        },
        ValV::List(xs) => match resolve_list(env, fuel, st, xs) {
            Err(e) => Err(e),
            Ok((st1, ys)) => Ok((st1, ValV::List(ys))),
        },
        other => Ok((st, other)),
    }
}

pub open spec fn resolve_list(env: Env, fuel: nat, st: State, xs: Seq<ValV>) -> Result<
    (State, Seq<ValV>),
    CompileErrorV,
>
    decreases 3 * fuel + 1, xs, 0nat,
{
    if xs.len() == 0 {
        Ok((st, Seq::empty()))
    } else {
        match resolve_list(env, fuel, st, xs.drop_last()) {
            Err(e) => Err(e),
            Ok((st1, ys)) => match resolve_val(env, fuel, st1, xs[xs.len() - 1]) {
                Err(e) => Err(e),
                Ok((st2, y)) => Ok((st2, ys.push(y))),
            },
        }
    }
}

pub open spec fn resolve_args(
    env: Env,
    fuel: nat,
    st: State,
    xs: Seq<(Seq<char>, ValV)>,
) -> Result<(State, Seq<(Seq<char>, ValV)>), CompileErrorV>
    decreases 3 * fuel + 1, xs, 0nat,
{
    if xs.len() == 0 {
        Ok((st, Seq::empty()))
    } else {
        match resolve_args(env, fuel, st, xs.drop_last()) {
            Err(e) => Err(e),
            Ok((st1, ys)) => match resolve_val(env, fuel, st1, xs[xs.len() - 1].1) {
                Err(e) => Err(e),
                Ok((st2, y)) => Ok((st2, ys.push((xs[xs.len() - 1].0, y)))),
            },
        }
    }
}

/// Find or build the node that makes a predicate true. `fuel` bounds how deep requirements may
/// be nested; a chain that is deeper is not satisfiable.
pub open spec fn satisfy(env: Env, fuel: nat, st: State, raw: PredV) -> Result<
    (State, Seq<char>),
    CompileErrorV,
>
    decreases 3 * fuel + 1, raw.args, 1nat,
{
    if fuel == 0 {
        Err(CompileErrorV::Unsatisfiable(pred_text(raw)))
    } else {
        match resolve_args(env, fuel, st, raw.args) {
            Err(e) => Err(e),
            Ok((st1, args)) => {
                let pred = PredV {
                    entity: raw.entity,
                    args,
                    field: raw.field,
                    value: raw.value,
                };
                let key = pred_text(pred);
                match last_of(st1.memo, key) {
                    Some(id) => Ok((st1, id)),
                    None => match known_by_ref(pred) {
                        Some(n) => Ok((remember(st1, key, n), n)),
                        None => try_ops(
                            env,
                            (fuel - 1) as nat,
                            st1,
                            pred,
                            candidates(env.ops, pred),
                        ),
                    },
                }
            },
        }
    }
}

/// An existence want identified by a reference is already satisfied by that node.
pub open spec fn known_by_ref(pred: PredV) -> Option<Seq<char>> {
    if existence(pred.field) {
        match lookup(pred.args, "id"@) {
            Some(ValV::Ref(n, _)) => Some(n),
            _ => None,
        }
    } else {
        None
    }
}

/// The state with a predicate's node noted down.
pub open spec fn remember(st: State, key: Seq<char>, id: Seq<char>) -> State {
    State { memo: st.memo.push((key, id)), ..st }
}

/// Whether an operation identifies the entity by id while the want identifies it otherwise.
pub open spec fn by_id(post: PredV, pred: PredV) -> bool {
    !existence(pred.field) && post.args.len() == 1 && post.args[0].0 == "id"@ && lookup(
        pred.args,
        "id"@,
    ) is None
}

/// The predicate that is unified with an operation's postcondition.
pub open spec fn to_unify(post: PredV, pred: PredV, target: Option<Seq<char>>) -> PredV {
    let p = match target {
        Some(t) => PredV {
            entity: pred.entity,
            args: seq![("id"@, ValV::Ref(t, "id"@))],
            field: pred.field,
            value: pred.value,
        },
        None => pred,
    };
    if existence(pred.field) && existence(post.field) {
        PredV { field: post.field, ..p }
    } else {
        p
    }
}

/// Try operations in turn: the first whose postcondition unifies is built.
pub open spec fn try_ops(
    env: Env,
    fuel: nat,
    st: State,
    pred: PredV,
    ops: Seq<OpV>,
) -> Result<(State, Seq<char>), CompileErrorV>
    decreases 3 * fuel + 3, ops, 0nat,
{
    if ops.len() == 0 {
        Err(CompileErrorV::Unsatisfiable(pred_text(pred)))
    } else {
        let op = ops[0];
        let post = op.post->0;
        let found = if by_id(post, pred) {
            match satisfy(env, fuel, st, as_exists_spec(pred)) {
                Err(e) => Err(e),
                Ok((st1, t)) => Ok((st1, Some(t))),
            }
        } else {
            Ok((st, None))
        };
        match found {
            Err(e) => Err(e),
            Ok((st1, target)) => match unify(post, to_unify(post, pred, target)) {
                None => try_ops(env, fuel, st1, pred, ops.drop_first()),
                Some(b) => match build(env, fuel, st1, op, b, pred) {
                    Err(e) => Err(e),
                    Ok((st2, id)) => Ok((remember(st2, pred_text(pred), id), id)),
                },
            },
        }
    }
}

/// A requirement that names its entity by reference or by a literal id needs no lookup.
pub open spec fn settled(r: PredV) -> bool {
    existence(r.field) && (refs_in(r.args).len() > 0 || (r.args.len() == 1 && (lookup(
        r.args,
        "id"@,
    ) matches Some(ValV::Num(_)))))
}

/// Satisfy the requirements of an operation: the state, and the nodes it depends on.
pub open spec fn requirements(
    env: Env,
    fuel: nat,
    st: State,
    reqs: Seq<PredV>,
    b: Seq<(Seq<char>, ValV)>,
) -> Result<(State, Seq<Seq<char>>), CompileErrorV>
    decreases 3 * fuel + 2, reqs, 0nat,
{
    if reqs.len() == 0 {
        Ok((st, Seq::empty()))
    } else {
        match requirements(env, fuel, st, reqs.drop_last(), b) {
            Err(e) => Err(e),
            Ok((st1, deps)) => {
                let r = subst_pred(reqs.last(), b);
                if settled(r) {
                    Ok((st1, deps + refs_in(r.args)))
                } else {
                    match satisfy(env, fuel, st1, r) {
                        Err(e) => Err(e),
                        Ok((st2, id)) => Ok((st2, deps.push(id))),
                    }
                }
            },
        }
    }
}

/// The first fork of an intent with that condition.
pub open spec fn find_fork(forks: Seq<IntentForkV>, when: Seq<char>) -> Option<IntentForkV>
    decreases forks.len(),
{
    if forks.len() == 0 {
        None
    } else if forks[0].when == when {
        Some(forks[0])
    } else {
        find_fork(forks.drop_first(), when)
    }
}

/// The fork of a node: the intent may word the question and declare a resolution; the name that
/// was looked for is filled in.
pub open spec fn node_fork(
    forks: Seq<IntentForkV>,
    fork: Option<ForkV>,
    b: Seq<(Seq<char>, ValV)>,
) -> Option<ForkV> {
    match fork {
        None => None,
        Some(f) => {
            let name = match lookup(b, "name"@) {
                Some(ValV::Str(s)) => s,
                _ => "?"@,
            };
            match find_fork(forks, f.when) {
                Some(x) => Some(
                    ForkV {
                        when: f.when,
                        ask: replaced(x.ask, "$name"@, name),
                        default: x.default,
                    },
                ),
                None => Some(
                    ForkV {
                        when: f.when,
                        ask: replaced(f.ask, "$name"@, name),
                        default: f.default,
                    },
                ),
            }
        },
    }
}

/// A node's content address: its operation and its want, every reference expanded.
pub open spec fn content(st: State, op: OpV, want: PredV) -> Seq<char> {
    op.name + "|"@ + expand(st.canon, want)
}

/// The idempotency key of a write over HTTP.
pub open spec fn node_key(
    opts: OptionsV,
    op: OpV,
    writes: Seq<Seq<char>>,
    canon: Seq<char>,
) -> Option<Seq<char>> {
    if op.kind == OpKind::Http && writes.len() > 0 {
        Some(opts.plan_id + "/"@ + hash_text(canon, 8))
    } else {
        None
    }
}

/// The plan id, a slash and sixteen hexadecimal digits.
pub open spec fn key_form(plan_id: Seq<char>, k: Seq<char>) -> bool {
    &&& k.len() == plan_id.len() + 17
    &&& plan_id.is_prefix_of(k)
    &&& k[plan_id.len() as int] == '/'
    &&& forall|i: int| plan_id.len() < i < k.len() ==> is_hex(#[trigger] k[i])
}

/// The edges from the dependencies of a node to it.
pub open spec fn dep_edges(deps: Seq<Seq<char>>, id: Seq<char>) -> Seq<(Seq<char>, Seq<char>)>
    decreases deps.len(),
{
    if deps.len() == 0 {
        Seq::empty()
    } else if deps.last() == id {
        dep_edges(deps.drop_last(), id)
    } else {
        dep_edges(deps.drop_last(), id).push((deps.last(), id))
    }
}

/// The node of an operation, once its requirements are satisfied.
pub open spec fn make_node(
    env: Env,
    st: State,
    op: OpV,
    b: Seq<(Seq<char>, ValV)>,
    want: PredV,
    args: Seq<(Seq<char>, ArgV)>,
    surface: Seq<char>,
) -> NodeV {
    let id = node_name(st.nodes.len());
    let writes = resources(op.writes, b, id);
    NodeV {
        id,
        op: op.name,
        kind: op.kind,
        args,
        surface,
        key: node_key(env.opts, op, writes, content(st, op, want)),
        reads: resources(op.reads, b, id),
        writes,
        external: op.external,
        produces: op.produces,
        fork: node_fork(env.forks, op.fork, b),
        ui: op.ui,
        check: op.check,
        before: op.before,
        post: match op.post {
            Some(p) => pred_text(subst_pred(p, b)),
            None => pred_text(want),
        },
    }
}

/// Build the node of an operation: its requirements first, so that what it depends on is there
/// before it.
pub open spec fn build(
    env: Env,
    fuel: nat,
    st: State,
    op: OpV,
    b: Seq<(Seq<char>, ValV)>,
    want: PredV,
) -> Result<(State, Seq<char>), CompileErrorV>
    decreases 3 * fuel + 2, op.requires_, 1nat,
{
    match requirements(env, fuel, st, op.requires_, b) {
        Err(e) => Err(e),
        Ok((st1, deps)) => match all_args(op, b) {
            Err(e) => Err(e),
            Ok(args) => match node_surface(op, env.opts.surfaces) {
                Err(e) => Err(e),
                Ok(surface) => {
                    let node = make_node(env, st1, op, b, want, args, surface);
                    let id = node.id;
                    Ok(
                        (
                            State {
                                nodes: st1.nodes.push(node),
                                memo: st1.memo,
                                deps: st1.deps + dep_edges(sort_dedup(deps + refs_in(b)), id),
                                canon: st1.canon.push((id, content(st1, op, want))),
                            },
                            id,
                        ),
                    )
                },
            },
        },
    }
}

// ---------- compiling ----------

/// Satisfy predicates in turn.
pub open spec fn satisfy_all(env: Env, fuel: nat, st: State, ps: Seq<PredV>) -> Result<
    State,
    CompileErrorV,
>
    decreases ps.len(),
{
    if ps.len() == 0 {
        Ok(st)
    } else {
        match satisfy_all(env, fuel, st, ps.drop_last()) {
            Err(e) => Err(e),
            Ok(st1) => match satisfy(env, fuel, st1, ps.last()) {
                Err(e) => Err(e),
                Ok((st2, _)) => Ok(st2),
            },
        }
    }
}

/// Satisfy wants in turn, each unrolled.
pub open spec fn satisfy_wants(env: Env, fuel: nat, wants: Seq<Seq<char>>) -> Result<
    State,
    CompileErrorV,
>
    decreases wants.len(),
{
    if wants.len() == 0 {
        Ok(
            State {
                nodes: Seq::empty(),
                memo: Seq::empty(),
                deps: Seq::empty(),
                canon: Seq::empty(),
            },
        )
    } else {
        match satisfy_wants(env, fuel, wants.drop_last()) {
            Err(e) => Err(e),
            Ok(st) => match parse_spec(wants.last()) {
                Err(e) => Err(CompileErrorV::Parse(wants.last(), e)),
                Ok(p) => satisfy_all(env, fuel, st, unroll_spec(p)),
            },
        }
    }
}

/// A gate for every node whose effect leaves the system.
pub open spec fn gates_for(nodes: Seq<NodeV>, allowed: bool) -> Seq<GateV>
    decreases nodes.len(),
{
    if nodes.len() == 0 {
        Seq::empty()
    } else if nodes.last().external {
        gates_for(nodes.drop_last(), allowed).push(
            GateV { node: nodes.last().id, kind: GateKind::External, allowed },
        )
    } else {
        gates_for(nodes.drop_last(), allowed)
    }
}

/// How deep requirements may be nested.
pub open spec fn depth_limit() -> nat {
    u64::MAX as nat
}

/// All edges between the nodes of a state: its dependencies and what footprints demand.
pub open spec fn all_edges(st: State) -> Seq<(Seq<char>, Seq<char>)> {
    dedupe_spec(st.deps + footprint_edges(st.nodes))
}

pub open spec fn env_of(intent: IntentV, world: WorldV, opts: OptionsV) -> Env {
    Env { ops: world.ops, forks: intent.forks, opts }
}

/// Whether `r` is what compiling an intent gives. A cyclic plan is refused with the cycle that is
/// met first as the reason.
pub open spec fn compiles_to(
    intent: IntentV,
    world: WorldV,
    opts: OptionsV,
    r: Result<PlanV, CompileErrorV>,
) -> bool {
    match satisfy_wants(env_of(intent, world, opts), depth_limit(), intent.wants) {
        Err(e) => r == Err::<PlanV, CompileErrorV>(e),
        Ok(st) => if st.nodes.len() == 0 {
            r == Err::<PlanV, CompileErrorV>(CompileErrorV::Empty)
        } else if acyclic(all_edges(st)) {
            r == Ok::<PlanV, CompileErrorV>(
                PlanV {
                    plan_id: opts.plan_id,
                    goal: intent.goal,
                    nodes: st.nodes,
                    edges: reduce_spec(ids_of(st.nodes), all_edges(st)),
                    gates: gates_for(st.nodes, intent.constraints.external_ok),
                },
            )
        } else {
            first_cycle(all_edges(st), ids_of(st.nodes)) matches Some(c) && r == Err::<
                PlanV,
                CompileErrorV,
            >(CompileErrorV::Cycle(arrows(c)))
        },
    }
}

} // verus!
