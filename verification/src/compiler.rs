//! Intent graph to physical plan.
//!
//! For each want, find an operation whose postcondition unifies with it, satisfy that
//! operation's requirements the same way, and record the node. Then derive edges from read and
//! write footprints, choose the cheapest available surface per node, stamp a key on every write,
//! and insert gates.

use crate::binding::{
    bind, footprint, pick_surface, push_refs, store_arg, to_arg, tokens, tokens_conflict,
};
use crate::compile_model::{
    all_args, all_edges, build, by_id, candidate, candidates, compiles_to, content, dep_edges,
    depth_limit, entity_want, env_of, expand, expand_args, expand_list, expand_val, find_fork,
    footprint_edges, gates_for, insert_op, key_form, last_of, make_node, node_args, node_fork, node_name,
    node_surface, op_le, pair_edge, refs_in, requirements, resolvable, resolve_args, resolve_list,
    resolve_val, row_edges, rows_edges, satisfy, satisfy_all, satisfy_wants, settled, to_unify,
    try_ops, CompileErrorV, Env, OptionsV, State,
};
use crate::cut::replace;
use crate::graph::{
    acyclic, cycle, edges_view, find_cycle, leads, reach, step, topological, topological_acyclic,
};
use crate::hash::{hash_prefix, is_hex};
use crate::intent::{forks_view, Intent, IntentFork};
use crate::json::get_entry;
use crate::plan::{
    gates_view, ids_of, node_args_view, nodes_view, Arg, ArgV, Gate, GateKind, Node, NodeV, Plan,
};
use crate::pred::{
    args_push, args_view, clone_args, existence, lookup_val, preds_view, vals_push, vals_view,
    Pred, PredV, Val, ValV,
};
use crate::pred_parse::ParseError;
use crate::pred_print::parse_error_text;
use crate::reduce::{dedupe, dedupe_ok, reduce, reduce_contains};
use crate::seqs::{add_has, push_has};
use crate::text::{
    clone_strings, concat, debug_list, debug_list_text, list_has, owned, push_dec, same,
    sorted_unique, str_lt, views,
};
use crate::world::{
    clone_opt, opt_fork, opt_str, ops_view, params_view, Fork, Op, OpKind, OpV, ParamV, World,
};
use vstd::prelude::*;

verus! {

/// Why an intent cannot be compiled.
#[derive(Debug)]
pub enum CompileError {
    Parse(String, ParseError),
    Unsatisfiable(String),
    NoSurface(String, Vec<String>),
    Unbound(String, String),
    Cycle(String),
    Empty,
}

impl View for CompileError {
    type V = CompileErrorV;

    open spec fn view(&self) -> CompileErrorV {
        match self {
            CompileError::Parse(w, e) => CompileErrorV::Parse(w@, e@),
            CompileError::Unsatisfiable(k) => CompileErrorV::Unsatisfiable(k@),
            CompileError::NoSurface(o, s) => CompileErrorV::NoSurface(o@, views(s@)),
            CompileError::Unbound(n, o) => CompileErrorV::Unbound(n@, o@),
            CompileError::Cycle(t) => CompileErrorV::Cycle(t@),
            CompileError::Empty => CompileErrorV::Empty,
        }
    }
}

/// The text of a compile error.
pub open spec fn compile_error_text(e: CompileErrorV) -> Seq<char> {
    match e {
        CompileErrorV::Parse(w, e) => "cannot parse want '"@ + w + "': "@ + parse_error_text(e),
        CompileErrorV::Unsatisfiable(k) => "nothing in the world model can make '"@ + k + "' true"@,
        CompileErrorV::NoSurface(o, s) => "operation "@ + o + " has no available surface among "@
            + debug_list_text(s),
        CompileErrorV::Unbound(n, o) => "argument '"@ + n + "' of "@ + o + " is unbound"@,
        CompileErrorV::Cycle(t) => "the plan has a cycle: "@ + t,
        CompileErrorV::Empty => "the intent compiles to no work at all"@,
    }
}

impl CompileError {
    /// The error in words.
    pub fn to_string(&self) -> (r: String)
        ensures
            r@ == compile_error_text(self@),
    {
        let mut out = String::new();
        match self {
            CompileError::Parse(w, e) => {
                out.push_str("cannot parse want '");
                out.push_str(w.as_str());
                out.push_str("': ");
                out.push_str(e.to_string().as_str());
            },
            CompileError::Unsatisfiable(k) => {
                out.push_str("nothing in the world model can make '");
                out.push_str(k.as_str());
                out.push_str("' true");
            },
            CompileError::NoSurface(o, s) => {
                out.push_str("operation ");
                out.push_str(o.as_str());
                out.push_str(" has no available surface among ");
                out.push_str(debug_list(s).as_str());
            },
            CompileError::Unbound(n, o) => {
                out.push_str("argument '");
                out.push_str(n.as_str());
                out.push_str("' of ");
                out.push_str(o.as_str());
                out.push_str(" is unbound");
            },
            CompileError::Cycle(t) => {
                out.push_str("the plan has a cycle: ");
                out.push_str(t.as_str());
            },
            CompileError::Empty => {
                out.push_str("the intent compiles to no work at all");
            },
        }
        assert(out@ =~= compile_error_text(self@));
        out
    }
}

/// Under which name and on which surfaces a plan runs.
#[derive(Debug)]
pub struct CompileOptions {
    pub plan_id: String,
    /// Surfaces this run may use, e.g. `api` alone, or `api`, `mcp` and `a11y`.
    pub surfaces: Vec<String>,
}

impl View for CompileOptions {
    type V = OptionsV;

    open spec fn view(&self) -> OptionsV {
        OptionsV { plan_id: self.plan_id@, surfaces: views(self.surfaces@) }
    }
}

impl Default for CompileOptions {
    fn default() -> (r: Self)
        ensures
            r@.plan_id == "plan"@,
            r@.surfaces == seq!["api"@],
    {
        let mut surfaces: Vec<String> = Vec::new();
        surfaces.push(owned("api"));
        assert(views(surfaces@) =~= seq!["api"@]);
        CompileOptions { plan_id: owned("plan"), surfaces }
    }
}

struct Compiler<'a> {
    world: &'a World,
    intent: &'a Intent,
    opts: &'a CompileOptions,
    nodes: Vec<Node>,
    memo: Vec<(String, String)>,
    deps: Vec<(String, String)>,
    /// Each node's content address: its operation and its want with every reference expanded
    /// into the referenced node's own address. Stable under renumbering and reordering.
    canon: Vec<(String, String)>,
}

spec fn pairs_view(m: Seq<(String, String)>) -> Seq<(Seq<char>, Seq<char>)> {
    m.map_values(|e: (String, String)| (e.0@, e.1@))
}

/// The value last stored under `k`.
fn find_last<'b>(m: &'b Vec<(String, String)>, k: &str) -> (r: Option<&'b String>)
    ensures
        match r {
            Some(v) => last_of(pairs_view(m@), k@) == Some(v@),
            None => last_of(pairs_view(m@), k@) is None,
        },
{
    let ghost s = pairs_view(m@);
    let mut i: usize = m.len();
    assert(s.take(i as int) =~= s);
    while i > 0
        invariant
            i <= m@.len(),
            s == pairs_view(m@),
            last_of(s, k@) == last_of(s.take(i as int), k@),
        decreases i,
    {
        proof {
            let t = s.take(i as int);
            assert(t.last() == (m@[i - 1].0@, m@[i - 1].1@));
            assert(t.drop_last() =~= s.take(i - 1));
        }
        if same(m[i - 1].0.as_str(), k) {
            return Some(&m[i - 1].1);
        }
        i -= 1;
    }
    None
}

fn push_pair(m: &mut Vec<(String, String)>, k: String, v: String)
    ensures
        pairs_view(final(m)@) == pairs_view(old(m)@).push((k@, v@)),
{
    let ghost s = pairs_view(m@);
    m.push((k, v));
    assert(pairs_view(m@) =~= s.push((k@, v@)));
}

// ---------- facts about failing half-way ----------

proof fn resolve_list_stuck(env: Env, fuel: nat, st: State, xs: Seq<ValV>, k: int)
    requires
        0 <= k <= xs.len(),
        resolve_list(env, fuel, st, xs.take(k)) is Err,
    ensures
        resolve_list(env, fuel, st, xs) is Err,
        resolve_list(env, fuel, st, xs)->Err_0 == resolve_list(env, fuel, st, xs.take(k))->Err_0,
    decreases xs.len(),
{
    if k == xs.len() {
        assert(xs.take(k) =~= xs);
    } else {
        assert(xs.drop_last().take(k) =~= xs.take(k));
        resolve_list_stuck(env, fuel, st, xs.drop_last(), k);
    }
}

proof fn resolve_args_stuck(
    env: Env,
    fuel: nat,
    st: State,
    xs: Seq<(Seq<char>, ValV)>,
    k: int,
)
    requires
        0 <= k <= xs.len(),
        resolve_args(env, fuel, st, xs.take(k)) is Err,
    ensures
        resolve_args(env, fuel, st, xs) is Err,
        resolve_args(env, fuel, st, xs)->Err_0 == resolve_args(env, fuel, st, xs.take(k))->Err_0,
    decreases xs.len(),
{
    if k == xs.len() {
        assert(xs.take(k) =~= xs);
    } else {
        assert(xs.drop_last().take(k) =~= xs.take(k));
        resolve_args_stuck(env, fuel, st, xs.drop_last(), k);
    }
}

proof fn requirements_stuck(
    env: Env,
    fuel: nat,
    st: State,
    xs: Seq<PredV>,
    b: Seq<(Seq<char>, ValV)>,
    k: int,
)
    requires
        0 <= k <= xs.len(),
        requirements(env, fuel, st, xs.take(k), b) is Err,
    ensures
        requirements(env, fuel, st, xs, b) is Err,
        requirements(env, fuel, st, xs, b)->Err_0 == requirements(
            env,
            fuel,
            st,
            xs.take(k),
            b,
        )->Err_0,
    decreases xs.len(),
{
    if k == xs.len() {
        assert(xs.take(k) =~= xs);
    } else {
        assert(xs.drop_last().take(k) =~= xs.take(k));
        requirements_stuck(env, fuel, st, xs.drop_last(), b, k);
    }
}

proof fn node_args_stuck(op: OpV, ps: Seq<ParamV>, b: Seq<(Seq<char>, ValV)>, k: int)
    requires
        0 <= k <= ps.len(),
        node_args(op, ps.take(k), b) is Err,
    ensures
        node_args(op, ps, b) is Err,
        node_args(op, ps, b)->Err_0 == node_args(op, ps.take(k), b)->Err_0,
    decreases ps.len(),
{
    if k == ps.len() {
        assert(ps.take(k) =~= ps);
    } else {
        assert(ps.drop_last().take(k) =~= ps.take(k));
        node_args_stuck(op, ps.drop_last(), b, k);
    }
}

proof fn satisfy_all_stuck(env: Env, fuel: nat, st: State, ps: Seq<PredV>, k: int)
    requires
        0 <= k <= ps.len(),
        satisfy_all(env, fuel, st, ps.take(k)) is Err,
    ensures
        satisfy_all(env, fuel, st, ps) == satisfy_all(env, fuel, st, ps.take(k)),
    decreases ps.len(),
{
    if k == ps.len() {
        assert(ps.take(k) =~= ps);
    } else {
        assert(ps.drop_last().take(k) =~= ps.take(k));
        satisfy_all_stuck(env, fuel, st, ps.drop_last(), k);
    }
}

proof fn satisfy_wants_stuck(env: Env, fuel: nat, ws: Seq<Seq<char>>, k: int)
    requires
        0 <= k <= ws.len(),
        satisfy_wants(env, fuel, ws.take(k)) is Err,
    ensures
        satisfy_wants(env, fuel, ws) == satisfy_wants(env, fuel, ws.take(k)),
    decreases ws.len(),
{
    if k == ws.len() {
        assert(ws.take(k) =~= ws);
    } else {
        assert(ws.drop_last().take(k) =~= ws.take(k));
        satisfy_wants_stuck(env, fuel, ws.drop_last(), k);
    }
}

// ---------- content addresses ----------

fn push_expanded_list(canon: &Vec<(String, String)>, xs: &Vec<Val>, out: &mut String)
    ensures
        final(out)@ == old(out)@ + expand_list(pairs_view(canon@), vals_view(xs@)),
    decreases xs,
{
    let ghost c = pairs_view(canon@);
    let ghost vs = vals_view(xs@);
    let mut i: usize = 0;
    assert(out@ =~= old(out)@ + expand_list(c, vs.take(0)));
    while i < xs.len()
        invariant
            i <= xs@.len(),
            c == pairs_view(canon@),
            vs == vals_view(xs@),
            out@ == old(out)@ + expand_list(c, vs.take(i as int)),
        decreases xs@.len() - i,
    {
        if i > 0 {
            out.push_str(",");
        }
        push_expanded_val(canon, &xs[i], out);
        proof {
            let p = vs.take(i + 1);
            assert(p.drop_last() =~= vs.take(i as int));
            assert(p[p.len() - 1] == xs@[i as int]@);
        }
        i += 1;
        assert(out@ =~= old(out)@ + expand_list(c, vs.take(i as int)));
    }
    assert(vs.take(i as int) =~= vs);
}

fn push_expanded_val(canon: &Vec<(String, String)>, v: &Val, out: &mut String)
    ensures
        final(out)@ == old(out)@ + expand_val(pairs_view(canon@), v@),
    decreases v,
{
    let ghost before = out@;
    match v {
        Val::Ref(n, f) => {
            out.push_str("@(");
            match find_last(canon, n.as_str()) {
                Some(c) => {
                    out.push_str(c.as_str());
                },
                None => {
                    out.push_str(n.as_str());
                },
            }
            out.push_str(").");
            out.push_str(f.as_str());
        },
        Val::List(xs) => {
            out.push_str("[");
            push_expanded_list(canon, xs, out);
            out.push_str("]");
        },
        Val::Each(xs) => {
            out.push_str("[");
            push_expanded_list(canon, xs, out);
            out.push_str("]");
        },
        Val::All(x) => {
            out.push_str("all(");
            push_expanded_val(canon, &**x, out);
            out.push_str(")");
        },
        Val::Entity(p) => {
            push_expanded(canon, &**p, out);
        },
        other => {
            other.write_to(out);
        },
    }
    assert(out@ =~= before + expand_val(pairs_view(canon@), v@));
}

/// Append a predicate with every `$node.field` replaced by that node's content address.
fn push_expanded(canon: &Vec<(String, String)>, p: &Pred, out: &mut String)
    ensures
        final(out)@ == old(out)@ + expand(pairs_view(canon@), p@),
    decreases p,
{
    let ghost before = out@;
    let ghost c = pairs_view(canon@);
    let ghost xs = args_view(p.args@);
    out.push_str(p.entity.as_str());
    out.push_str("(");
    let ghost head = out@;
    let mut i: usize = 0;
    assert(out@ =~= head + expand_args(c, xs.take(0)));
    while i < p.args.len()
        invariant
            i <= p.args@.len(),
            c == pairs_view(canon@),
            xs == args_view(p.args@),
            out@ == head + expand_args(c, xs.take(i as int)),
        decreases p.args@.len() - i,
    {
        if i > 0 {
            out.push_str(",");
        }
        out.push_str(p.args[i].0.as_str());
        out.push_str("=");
        push_expanded_val(canon, &p.args[i].1, out);
        proof {
            let q = xs.take(i + 1);
            assert(q.drop_last() =~= xs.take(i as int));
            assert(q[q.len() - 1] == (p.args@[i as int].0@, p.args@[i as int].1@));
        }
        i += 1;
        assert(out@ =~= head + expand_args(c, xs.take(i as int)));
    }
    assert(xs.take(i as int) =~= xs);
    out.push_str(")");
    if !p.field.as_str().is_empty() {
        out.push_str(".");
        out.push_str(p.field.as_str());
        out.push_str("=");
        push_expanded_val(canon, &p.value, out);
    }
    assert(out@ =~= before + expand(c, p@));
}

// ---------- candidates ----------

fn is_candidate(o: &Op, pred: &Pred) -> (r: bool)
    ensures
        r == candidate(o@, pred@),
{
    match &o.post {
        Some(p) => {
            if !same(p.entity.as_str(), pred.entity.as_str()) {
                return false;
            }
            let exists_want: bool = pred.is_existence();
            if !(same(p.field.as_str(), pred.field.as_str()) || (exists_want && p.is_existence())) {
                return false;
            }
            if !exists_want {
                return true;
            }
            match &o.produces {
                Some(e) => same(e.as_str(), pred.entity.as_str()),
                None => false,
            }
        },
        None => false,
    }
}

fn op_before(a: &Op, b: &Op) -> (r: bool)
    ensures
        r == op_le(a@, b@),
{
    let wa: bool = a.is_write();
    let wb: bool = b.is_write();
    if wa != wb {
        !wa
    } else {
        !str_lt(b.name.as_str(), a.name.as_str())
    }
}

/// The operations at these places.
spec fn at_places(ops: Seq<OpV>, places: Seq<usize>) -> Seq<OpV> {
    places.map_values(|i: usize| ops[i as int])
}

proof fn insert_op_at(s: Seq<OpV>, o: OpV, k: int)
    requires
        0 <= k <= s.len(),
        k > 0 ==> op_le(s[k - 1], o),
        forall|j: int| k <= j < s.len() ==> !op_le(#[trigger] s[j], o),
    ensures
        insert_op(s, o) == s.insert(k, o),
    decreases s.len(),
{
    if k == s.len() {
        assert(s.insert(k, o) =~= s.push(o));
    } else {
        let t = s.drop_last();
        assert(!op_le(s[s.len() - 1], o));
        assert forall|j: int| k <= j < t.len() implies !op_le(#[trigger] t[j], o) by {
            assert(t[j] == s[j]);
        }
        insert_op_at(t, o, k);
        assert(s.insert(k, o) =~= t.insert(k, o).push(s.last()));
    }
}

/// The places of the operations that may satisfy a predicate, in the order in which to try them.
fn find_candidates(ops: &Vec<Op>, pred: &Pred) -> (r: Vec<usize>)
    ensures
        forall|i: int| 0 <= i < r@.len() ==> #[trigger] r@[i] < ops@.len(),
        at_places(ops_view(ops@), r@) == candidates(ops_view(ops@), pred@),
        forall|i: int|
            0 <= i < r@.len() ==> ops_view(ops@)[#[trigger] r@[i] as int].post is Some,
{
    let ghost os = ops_view(ops@);
    let mut out: Vec<usize> = Vec::new();
    let mut i: usize = 0;
    let sorted: bool = pred.is_existence();
    assert(at_places(os, out@) =~= candidates(os.take(0), pred@));
    while i < ops.len()
        invariant
            i <= ops@.len(),
            os == ops_view(ops@),
            sorted == existence(pred@.field),
            forall|j: int| 0 <= j < out@.len() ==> #[trigger] out@[j] < i,
            forall|j: int| 0 <= j < out@.len() ==> os[#[trigger] out@[j] as int].post is Some,
            at_places(os, out@) == candidates(os.take(i as int), pred@),
        decreases ops@.len() - i,
    {
        let ghost s = at_places(os, out@);
        proof {
            assert(os.take(i + 1).drop_last() =~= os.take(i as int));
            assert(os.take(i + 1).last() == ops@[i as int]@);
        }
        if is_candidate(&ops[i], pred) {
            let mut k: usize = out.len();
            if sorted {
                while k > 0 && !op_before(&ops[out[k - 1]], &ops[i])
                    invariant
                        k <= out@.len(),
                        i < ops@.len(),
                        os == ops_view(ops@),
                        s == at_places(os, out@),
                        forall|j: int| 0 <= j < out@.len() ==> #[trigger] out@[j] < i,
                        forall|j: int| k <= j < s.len() ==> !op_le(#[trigger] s[j], os[i as int]),
                    decreases k,
                {
                    assert(s[k - 1] == os[out@[k - 1] as int]);
                    k -= 1;
                }
                proof {
                    if k > 0 {
                        assert(s[k - 1] == os[out@[k - 1] as int]);
                    }
                    insert_op_at(s, os[i as int], k as int);
                }
            }
            out.insert(k, i);
            proof {
                assert(at_places(os, out@) =~= s.insert(k as int, os[i as int]));
                if !sorted {
                    assert(s.insert(k as int, os[i as int]) =~= s.push(os[i as int]));
                }
            }
        }
        i += 1;
    }
    assert(os.take(i as int) =~= os);
    out
}

fn is_resolvable(ops: &Vec<Op>, entity: &str) -> (r: bool)
    ensures
        r == resolvable(ops_view(ops@), entity@),
{
    let ghost os = ops_view(ops@);
    let mut i: usize = 0;
    while i < ops.len()
        invariant
            i <= ops@.len(),
            os == ops_view(ops@),
            forall|j: int|
                0 <= j < i ==> !((#[trigger] os[j]).produces == Some(entity@) && (
                os[j].post matches Some(p) && p.field == "resolved"@)),
        decreases ops@.len() - i,
    {
        assert(os[i as int] == ops@[i as int]@);
        let produces: bool = match &ops[i].produces {
            Some(e) => same(e.as_str(), entity),
            None => false,
        };
        let resolves: bool = match &ops[i].post {
            Some(p) => same(p.field.as_str(), "resolved"),
            None => false,
        };
        if produces && resolves {
            assert(os[i as int].produces == Some(entity@));
            return true;
        }
        i += 1;
    }
    false
}

fn find_intent_fork<'b>(forks: &'b Vec<IntentFork>, when: &str) -> (r: Option<&'b IntentFork>)
    ensures
        match r {
            Some(f) => find_fork(forks_view(forks@), when@) == Some(f@),
            None => find_fork(forks_view(forks@), when@) is None,
        },
{
    let ghost s = forks_view(forks@);
    let mut i: usize = 0;
    assert(s.skip(0) =~= s);
    while i < forks.len()
        invariant
            i <= forks@.len(),
            s == forks_view(forks@),
            find_fork(s, when@) == find_fork(s.skip(i as int), when@),
        decreases forks@.len() - i,
    {
        assert(s.skip(i as int)[0] == forks@[i as int]@);
        assert(s.skip(i as int).drop_first() =~= s.skip(i + 1));
        if same(forks[i].when.as_str(), when) {
            return Some(&forks[i]);
        }
        i += 1;
    }
    None
}

fn fork_for(forks: &Vec<IntentFork>, fork: &Option<Fork>, b: &Vec<(String, Val)>) -> (r: Option<
    Fork,
>)
    ensures
        opt_fork(r) == node_fork(forks_view(forks@), opt_fork(*fork), args_view(b@)),
{
    match fork {
        None => None,
        Some(f) => {
            let name: &str = match lookup_val(b, "name") {
                Some(v) => match v.as_str() {
                    Some(s) => s,
                    None => "?",
                },
                None => "?",
            };
            match find_intent_fork(forks, f.when.as_str()) {
                Some(x) => Some(
                    Fork {
                        when: f.when.clone(),
                        ask: replace(x.ask.as_str(), "$name", name),
                        default: clone_opt(&x.default),
                    },
                ),
                None => Some(
                    Fork {
                        when: f.when.clone(),
                        ask: replace(f.ask.as_str(), "$name", name),
                        default: clone_opt(&f.default),
                    },
                ),
            }
        },
    }
}

/// The name of the node at place `i`.
fn name_of(i: usize) -> (r: String)
    ensures
        r@ == node_name(i as nat),
{
    let mut out = String::new();
    let letter: u8 = 65 + (i % 26) as u8;
    out.push(letter as char);
    if i >= 26 {
        push_dec(&mut out, (i / 26) as u128);
    }
    assert(out@ =~= node_name(i as nat));
    out
}

fn push_dep_edges(deps: &Vec<String>, id: &str, out: &mut Vec<(String, String)>)
    ensures
        pairs_view(final(out)@) == pairs_view(old(out)@) + dep_edges(views(deps@), id@),
{
    let ghost before = pairs_view(out@);
    let ghost ds = views(deps@);
    let mut i: usize = 0;
    assert(before + dep_edges(ds.take(0), id@) =~= before);
    while i < deps.len()
        invariant
            i <= deps@.len(),
            ds == views(deps@),
            pairs_view(out@) == before + dep_edges(ds.take(i as int), id@),
        decreases deps@.len() - i,
    {
        proof {
            assert(ds.take(i + 1).drop_last() =~= ds.take(i as int));
            assert(ds.take(i + 1).last() == deps@[i as int]@);
        }
        if !same(deps[i].as_str(), id) {
            push_pair(out, deps[i].clone(), owned(id));
        }
        i += 1;
        assert(pairs_view(out@) =~= before + dep_edges(ds.take(i as int), id@));
    }
    assert(ds.take(i as int) =~= ds);
}

proof fn dep_edges_targets(deps: Seq<Seq<char>>, id: Seq<char>)
    ensures
        forall|k: int|
            0 <= k < dep_edges(deps, id).len() ==> (#[trigger] dep_edges(deps, id)[k]).1 == id,
    decreases deps.len(),
{
    if deps.len() > 0 {
        let p = dep_edges(deps.drop_last(), id);
        dep_edges_targets(deps.drop_last(), id);
        assert forall|k: int| 0 <= k < dep_edges(deps, id).len() implies (#[trigger] dep_edges(
            deps,
            id,
        )[k]).1 == id by {
            if k < p.len() {
                assert(dep_edges(deps, id)[k] == p[k]);
            }
        }
    }
}

/// The arguments of a node.
fn args_for(op: &Op, b: &Vec<(String, Val)>) -> (r: Result<Vec<(String, Arg)>, CompileError>)
    ensures
        match (r, all_args(op@, args_view(b@))) {
            (Ok(a), Ok(x)) => node_args_view(a@) == x,
            (Err(e), Err(f)) => e@ == f,
            _ => false,
        },
{
    let ghost bv = args_view(b@);
    let ghost ps = params_view(op.params@);
    let mut args: Vec<(String, Arg)> = Vec::new();
    let mut i: usize = 0;
    assert(node_args_view(args@) =~= Seq::<(Seq<char>, ArgV)>::empty());
    assert(ps.take(0) =~= Seq::<ParamV>::empty());
    while i < op.params.len()
        invariant
            i <= op.params@.len(),
            bv == args_view(b@),
            ps == params_view(op.params@),
            ps == op@.params,
            node_args(op@, ps.take(i as int), bv) == Ok::<Seq<(Seq<char>, ArgV)>, CompileErrorV>(
                node_args_view(args@),
            ),
        decreases op.params@.len() - i,
    {
        proof {
            assert(ps.take(i + 1).drop_last() =~= ps.take(i as int));
            assert(ps.take(i + 1).last() == op.params@[i as int]@);
        }
        let name: &str = op.params[i].name.as_str();
        match lookup_val(b, name) {
            Some(v) => match to_arg(v) {
                Ok(a) => {
                    store_arg(&mut args, name, a);
                },
                Err(n) => {
                    proof {
                        node_args_stuck(op@, ps, bv, i + 1);
                    }
                    return Err(CompileError::Unbound(n, op.name.clone()));
                },
            },
            None => match get_entry(&op.defaults, name) {
                Some(d) => {
                    store_arg(&mut args, name, Arg::Lit(d.clone()));
                },
                None => {},
            },
        }
        i += 1;
    }
    assert(ps.take(i as int) =~= ps);
    if op.kind == OpKind::Event {
        match lookup_val(b, "id") {
            Some(v) => match to_arg(v) {
                Ok(a) => {
                    store_arg(&mut args, "id", a);
                },
                Err(n) => {
                    return Err(CompileError::Unbound(n, op.name.clone()));
                },
            },
            None => {},
        }
    }
    Ok(args)
}

/// The surface of a node.
fn surface_for(op: &Op, available: &Vec<String>) -> (r: Result<String, CompileError>)
    ensures
        match (r, node_surface(op@, views(available@))) {
            (Ok(s), Ok(x)) => s@ == x,
            (Err(e), Err(f)) => e@ == f,
            _ => false,
        },
{
    if op.kind == OpKind::Event {
        return Ok(owned("event"));
    }
    match pick_surface(&op.surfaces, available) {
        Some(i) => Ok(op.surfaces[i].0.clone()),
        None => Err(CompileError::NoSurface(op.name.clone(), clone_strings(available))),
    }
}

impl<'a> Compiler<'a> {
    spec fn env(self) -> Env {
        env_of(self.intent@, self.world@, self.opts@)
    }

    spec fn state(self) -> State {
        State {
            nodes: nodes_view(self.nodes@),
            memo: pairs_view(self.memo@),
            deps: pairs_view(self.deps@),
            canon: pairs_view(self.canon@),
        }
    }

    /// Nodes are named by their place and carry keys of one form, and every dependency ends at a
    /// node.
    spec fn ok(self) -> bool {
        &&& forall|i: int|
            0 <= i < self.nodes@.len() ==> (#[trigger] self.nodes@[i]).id@ == node_name(i as nat)
        &&& forall|i: int|
            0 <= i < self.nodes@.len() ==> ((#[trigger] self.nodes@[i]).key matches Some(k)
                ==> key_form(self.opts.plan_id@, k@))
        &&& forall|k: int|
            0 <= k < self.deps@.len() ==> ids_of(nodes_view(self.nodes@)).contains(
                (#[trigger] pairs_view(self.deps@)[k]).1,
            )
    }

    spec fn same_input(self, other: Self) -> bool {
        self.world == other.world && self.intent == other.intent && self.opts == other.opts
    }

    fn resolve_vals(&mut self, fuel: u64, xs: &Vec<Val>) -> (r: Result<Vec<Val>, CompileError>)
        requires
            old(self).ok(),
        ensures
            final(self).same_input(*old(self)),
            match (
                r,
                resolve_list(old(self).env(), fuel as nat, old(self).state(), vals_view(xs@)),
            ) {
                (Ok(ys), Ok((st, ws))) => vals_view(ys@) == ws && final(self).state() == st
                    && final(self).ok(),
                (Err(e), Err(f)) => e@ == f,
                _ => false,
            },
        decreases 3 * (fuel as nat) + 1, vals_view(xs@), 0nat,
    {
        let ghost env = self.env();
        let ghost st0 = self.state();
        let ghost vs = vals_view(xs@);
        let mut out: Vec<Val> = Vec::new();
        let mut i: usize = 0;
        assert(vals_view(out@) =~= Seq::<ValV>::empty());
        assert(vs.take(0) =~= Seq::<ValV>::empty());
        while i < xs.len()
            invariant
                i <= xs@.len(),
                self.ok(),
                self.same_input(*old(self)),
                env == old(self).env(),
                st0 == old(self).state(),
                vs == vals_view(xs@),
                resolve_list(env, fuel as nat, st0, vs.take(i as int)) == Ok::<
                    (State, Seq<ValV>),
                    CompileErrorV,
                >((self.state(), vals_view(out@))),
            decreases xs@.len() - i,
        {
            proof {
                let p = vs.take(i + 1);
                assert(p.drop_last() =~= vs.take(i as int));
                assert(p[p.len() - 1] == xs@[i as int]@);
                assert(vs[i as int] == xs@[i as int]@);
                assert(decreases_to!(vs => vs[i as int]));
            }
            match self.resolve_val(fuel, &xs[i]) {
                Ok(y) => {
                    proof {
                        vals_push(out@, y);
                    }
                    out.push(y);
                },
                Err(e) => {
                    proof {
                        resolve_list_stuck(env, fuel as nat, st0, vs, i + 1);
                    }
                    return Err(e);
                },
            }
            i += 1;
        }
        assert(vs.take(i as int) =~= vs);
        Ok(out)
    }

    /// Nested entity references become `$node.id` by satisfying the reference first.
    fn resolve_val(&mut self, fuel: u64, v: &Val) -> (r: Result<Val, CompileError>)
        requires
            old(self).ok(),
        ensures
            final(self).same_input(*old(self)),
            match (r, resolve_val(old(self).env(), fuel as nat, old(self).state(), v@)) {
                (Ok(y), Ok((st, w))) => y@ == w && final(self).state() == st && final(self).ok(),
                (Err(e), Err(f)) => e@ == f,
                _ => false,
            },
        decreases 3 * (fuel as nat) + 1, v@, 0nat,
    {
        match v {
            Val::Entity(p) => {
                let literal: Option<i64> = match p.arg("id") {
                    Some(Val::Num(n)) => if p.args.len() == 1 {
                        Some(*n)
                    } else {
                        None
                    },
                    _ => None,
                };
                assert(args_view(p.args@).len() == p.args@.len());
                match literal {
                    Some(n) => {
                        return Ok(Val::Num(n));
                    },
                    None => {},
                }
                let inner: Pred = if p.field.as_str().is_empty() {
                    let field = if is_resolvable(&self.world.ops, p.entity.as_str()) {
                        owned("resolved")
                    } else {
                        owned("exists")
                    };
                    Pred {
                        entity: p.entity.clone(),
                        args: clone_args(&p.args),
                        field,
                        value: Val::Bool(true),
                    }
                } else {
                    (&**p).clone()
                };
                proof {
                    assert(inner@ == entity_want(self.env().ops, p@));
                    assert(inner@.args == v@->Entity_0.args);
                }
                let id = self.satisfy(fuel, &inner)?;
                Ok(Val::Ref(id, owned("id")))
            },
            Val::List(xs) => {
                let ys = self.resolve_vals(fuel, xs)?;
                Ok(Val::List(ys))
            },
            other => Ok(other.clone()),
        }
    }

    fn resolve_refs(&mut self, fuel: u64, args: &Vec<(String, Val)>) -> (r: Result<
        Vec<(String, Val)>,
        CompileError,
    >)
        requires
            old(self).ok(),
        ensures
            final(self).same_input(*old(self)),
            match (
                r,
                resolve_args(old(self).env(), fuel as nat, old(self).state(), args_view(args@)),
            ) {
                (Ok(ys), Ok((st, ws))) => args_view(ys@) == ws && final(self).state() == st
                    && final(self).ok(),
                (Err(e), Err(f)) => e@ == f,
                _ => false,
            },
        decreases 3 * (fuel as nat) + 1, args_view(args@), 0nat,
    {
        let ghost env = self.env();
        let ghost st0 = self.state();
        let ghost vs = args_view(args@);
        let mut out: Vec<(String, Val)> = Vec::new();
        let mut i: usize = 0;
        assert(args_view(out@) =~= Seq::<(Seq<char>, ValV)>::empty());
        assert(vs.take(0) =~= Seq::<(Seq<char>, ValV)>::empty());
        while i < args.len()
            invariant
                i <= args@.len(),
                self.ok(),
                self.same_input(*old(self)),
                env == old(self).env(),
                st0 == old(self).state(),
                vs == args_view(args@),
                resolve_args(env, fuel as nat, st0, vs.take(i as int)) == Ok::<
                    (State, Seq<(Seq<char>, ValV)>),
                    CompileErrorV,
                >((self.state(), args_view(out@))),
            decreases args@.len() - i,
        {
            proof {
                let p = vs.take(i + 1);
                assert(p.drop_last() =~= vs.take(i as int));
                assert(p[p.len() - 1] == (args@[i as int].0@, args@[i as int].1@));
                assert(vs[i as int] == (args@[i as int].0@, args@[i as int].1@));
                assert(decreases_to!(vs => vs[i as int]));
                assert(decreases_to!(vs[i as int] => vs[i as int].1));
            }
            match self.resolve_val(fuel, &args[i].1) {
                Ok(y) => {
                    let x = (args[i].0.clone(), y);
                    proof {
                        args_push(out@, x);
                    }
                    out.push(x);
                },
                Err(e) => {
                    proof {
                        resolve_args_stuck(env, fuel as nat, st0, vs, i + 1);
                    }
                    return Err(e);
                },
            }
            i += 1;
        }
        assert(vs.take(i as int) =~= vs);
        Ok(out)
    }

    /// Find or build the node that makes a predicate true.
    fn satisfy(&mut self, fuel: u64, raw: &Pred) -> (r: Result<String, CompileError>)
        requires
            old(self).ok(),
        ensures
            final(self).same_input(*old(self)),
            match (r, satisfy(old(self).env(), fuel as nat, old(self).state(), raw@)) {
                (Ok(id), Ok((st, w))) => id@ == w && final(self).state() == st && final(self).ok(),
                (Err(e), Err(f)) => e@ == f,
                _ => false,
            },
        decreases 3 * (fuel as nat) + 1, raw@.args, 1nat,
    {
        if fuel == 0 {
            return Err(CompileError::Unsatisfiable(raw.to_string()));
        }
        let args = self.resolve_refs(fuel, &raw.args)?;
        let pred = Pred {
            entity: raw.entity.clone(),
            args,
            field: raw.field.clone(),
            value: raw.value.clone(),
        };
        let key = pred.to_string();
        match find_last(&self.memo, key.as_str()) {
            Some(id) => {
                return Ok(id.clone());
            },
            None => {},
        }
        if pred.is_existence() {
            match pred.arg("id") {
                Some(Val::Ref(n, _)) => {
                    let id = n.clone();
                    push_pair(&mut self.memo, key, id.clone());
                    return Ok(id);
                },
                _ => {},
            }
        }
        let places = find_candidates(&self.world.ops, &pred);
        self.try_places(fuel - 1, &pred, &places)
    }

    fn try_places(&mut self, fuel: u64, pred: &Pred, places: &Vec<usize>) -> (r: Result<
        String,
        CompileError,
    >)
        requires
            old(self).ok(),
            forall|i: int| 0 <= i < places@.len() ==> #[trigger] places@[i] < old(self).world.ops@.len(),
            forall|i: int|
                0 <= i < places@.len() ==> ops_view(old(self).world.ops@)[#[trigger] places@[i] as int].post is Some,
        ensures
            final(self).same_input(*old(self)),
            match (
                r,
                try_ops(
                    old(self).env(),
                    fuel as nat,
                    old(self).state(),
                    pred@,
                    at_places(ops_view(old(self).world.ops@), places@),
                ),
            ) {
                (Ok(id), Ok((st, w))) => id@ == w && final(self).state() == st && final(self).ok(),
                (Err(e), Err(f)) => e@ == f,
                _ => false,
            },
        decreases 3 * (fuel as nat) + 3, at_places(ops_view(old(self).world.ops@), places@), 0nat,
    {
        let ghost env = self.env();
        let ghost st0 = self.state();
        let ghost os = ops_view(self.world.ops@);
        let ghost all = at_places(os, places@);
        let world: &World = self.world;
        let mut i: usize = 0;
        assert(all.skip(0) =~= all);
        while i < places.len()
            invariant
                i <= places@.len(),
                self.ok(),
                self.same_input(*old(self)),
                world == self.world,
                env == old(self).env(),
                st0 == old(self).state(),
                os == ops_view(world.ops@),
                os == ops_view(old(self).world.ops@),
                all == at_places(os, places@),
                forall|j: int| 0 <= j < places@.len() ==> #[trigger] places@[j] < world.ops@.len(),
                forall|j: int|
                    0 <= j < places@.len() ==> os[#[trigger] places@[j] as int].post is Some,
                try_ops(env, fuel as nat, st0, pred@, all) == try_ops(
                    env,
                    fuel as nat,
                    self.state(),
                    pred@,
                    all.skip(i as int),
                ),
            decreases places@.len() - i,
        {
            let op: &Op = &world.ops[places[i]];
            let ghost rest = all.skip(i as int);
            proof {
                assert(rest[0] == op@);
                assert(rest.drop_first() =~= all.skip(i + 1));
            }
            match &op.post {
                None => {},
                Some(post) => {
                    let mut target: Option<String> = None;
                    assert(args_view(post.args@).len() == post.args@.len());
                    if !pred.is_existence() && post.args.len() == 1 && same(
                        post.args[0].0.as_str(),
                        "id",
                    ) && pred.arg("id").is_none() {
                        // The op identifies the entity by id; the want identifies it otherwise.
                        assert(by_id(post@, pred@));
                        let found = pred.as_exists();
                        let t = self.satisfy(fuel, &found)?;
                        target = Some(t);
                    } else {
                        assert(!by_id(post@, pred@));
                    }
                    let mut goal: Pred = match &target {
                        Some(t) => {
                            let mut one: Vec<(String, Val)> = Vec::new();
                            let x = (owned("id"), Val::Ref(t.clone(), owned("id")));
                            proof {
                                args_push(one@, x);
                                assert(args_view(one@) =~= Seq::<(Seq<char>, ValV)>::empty());
                            }
                            one.push(x);
                            assert(args_view(one@) =~= seq![
                                ("id"@, ValV::Ref(t@, "id"@)),
                            ]);
                            Pred {
                                entity: pred.entity.clone(),
                                args: one,
                                field: pred.field.clone(),
                                value: pred.value.clone(),
                            }
                        },
                        None => pred.clone(),
                    };
                    if pred.is_existence() && post.is_existence() {
                        goal.field = post.field.clone();
                    }
                    assert(goal@ == to_unify(post@, pred@, opt_str(target)));
                    match bind(post, &goal) {
                        Some(b) => {
                            let id = self.build(fuel, op, &b, pred)?;
                            push_pair(&mut self.memo, pred.to_string(), id.clone());
                            return Ok(id);
                        },
                        None => {},
                    }
                },
            }
            i += 1;
        }
        assert(all.skip(i as int).len() == 0);
        Err(CompileError::Unsatisfiable(pred.to_string()))
    }

    /// Satisfy the requirements of an operation: the nodes it depends on.
    fn satisfy_requirements(
        &mut self,
        fuel: u64,
        reqs: &Vec<Pred>,
        b: &Vec<(String, Val)>,
    ) -> (r: Result<Vec<String>, CompileError>)
        requires
            old(self).ok(),
        ensures
            final(self).same_input(*old(self)),
            match (
                r,
                requirements(
                    old(self).env(),
                    fuel as nat,
                    old(self).state(),
                    preds_view(reqs@),
                    args_view(b@),
                ),
            ) {
                (Ok(ds), Ok((st, ws))) => views(ds@) == ws && final(self).state() == st
                    && final(self).ok(),
                (Err(e), Err(f)) => e@ == f,
                _ => false,
            },
        decreases 3 * (fuel as nat) + 2, preds_view(reqs@), 0nat,
    {
        let ghost env = self.env();
        let ghost st0 = self.state();
        let ghost rs = preds_view(reqs@);
        let ghost bv = args_view(b@);
        let mut deps: Vec<String> = Vec::new();
        let mut i: usize = 0;
        assert(views(deps@) =~= Seq::<Seq<char>>::empty());
        assert(rs.take(0) =~= Seq::<PredV>::empty());
        while i < reqs.len()
            invariant
                i <= reqs@.len(),
                self.ok(),
                self.same_input(*old(self)),
                env == old(self).env(),
                st0 == old(self).state(),
                rs == preds_view(reqs@),
                bv == args_view(b@),
                requirements(env, fuel as nat, st0, rs.take(i as int), bv) == Ok::<
                    (State, Seq<Seq<char>>),
                    CompileErrorV,
                >((self.state(), views(deps@))),
            decreases reqs@.len() - i,
        {
            proof {
                assert(rs.take(i + 1).drop_last() =~= rs.take(i as int));
                assert(rs.take(i + 1).last() == reqs@[i as int]@);
            }
            let q = reqs[i].subst(b);
            let mut refs: Vec<String> = Vec::new();
            push_refs(&q.args, &mut refs);
            assert(views(refs@) =~= refs_in(q@.args));
            assert(args_view(q.args@).len() == q.args@.len());
            let literal: bool = q.args.len() == 1 && match q.arg("id") {
                Some(Val::Num(_)) => true,
                _ => false,
            };
            if q.is_existence() && (refs.len() > 0 || literal) {
                assert(settled(q@));
                let ghost d = views(deps@);
                let ghost n = views(refs@);
                deps.append(&mut refs);
                assert(views(deps@) =~= d + n);
            } else {
                assert(!settled(q@));
                match self.satisfy(fuel, &q) {
                    Ok(id) => {
                        let ghost d = views(deps@);
                        deps.push(id);
                        assert(views(deps@) =~= d.push(id@));
                    },
                    Err(e) => {
                        proof {
                            requirements_stuck(env, fuel as nat, st0, rs, bv, i + 1);
                        }
                        return Err(e);
                    },
                }
            }
            i += 1;
        }
        assert(rs.take(i as int) =~= rs);
        Ok(deps)
    }

    fn node_for(
        &self,
        op: &Op,
        b: &Vec<(String, Val)>,
        want: &Pred,
        args: Vec<(String, Arg)>,
        surface: String,
        canon: &str,
    ) -> (r: Node)
        requires
            canon@ == content(self.state(), op@, want@),
        ensures
            r@ == make_node(
                self.env(),
                self.state(),
                op@,
                args_view(b@),
                want@,
                node_args_view(args@),
                surface@,
            ),
            r.key matches Some(k) ==> key_form(self.opts.plan_id@, k@),
    {
        let id = name_of(self.nodes.len());
        assert(nodes_view(self.nodes@).len() == self.nodes@.len());
        let writes = footprint(&op.writes, b, id.as_str());
        let reads = footprint(&op.reads, b, id.as_str());
        assert(views(writes@).len() == writes@.len());
        let key: Option<String> = if op.kind == OpKind::Http && writes.len() > 0 {
            let mut k = concat(self.opts.plan_id.as_str(), "/");
            let h = hash_prefix(canon, 8);
            k.push_str(h.as_str());
            proof {
                let id = self.opts.plan_id@;
                reveal_strlit("/");
                assert(k@ =~= id + "/"@ + h@);
                assert(id =~= k@.subrange(0, id.len() as int));
                assert forall|i: int| id.len() < i < k@.len() implies is_hex(#[trigger] k@[i]) by {
                    assert(k@[i] == h@[i - id.len() - 1]);
                }
            }
            Some(k)
        } else {
            None
        };
        let post: String = match &op.post {
            Some(p) => p.subst(b).to_string(),
            None => want.to_string(),
        };
        Node {
            id,
            op: op.name.clone(),
            kind: op.kind,
            args,
            surface,
            key,
            reads,
            writes,
            external: op.external,
            produces: clone_opt(&op.produces),
            fork: fork_for(&self.intent.forks, &op.fork, b),
            ui: match &op.ui {
                Some(u) => Some(u.clone()),
                None => None,
            },
            check: match &op.check {
                Some(c) => Some(c.clone()),
                None => None,
            },
            before: clone_strings(&op.before),
            post,
        }
    }

    /// Build the node of an operation, its requirements first.
    fn build(&mut self, fuel: u64, op: &Op, b: &Vec<(String, Val)>, want: &Pred) -> (r: Result<
        String,
        CompileError,
    >)
        requires
            old(self).ok(),
        ensures
            final(self).same_input(*old(self)),
            match (
                r,
                build(
                    old(self).env(),
                    fuel as nat,
                    old(self).state(),
                    op@,
                    args_view(b@),
                    want@,
                ),
            ) {
                (Ok(id), Ok((st, w))) => id@ == w && final(self).state() == st && final(self).ok(),
                (Err(e), Err(f)) => e@ == f,
                _ => false,
            },
        decreases 3 * (fuel as nat) + 2, op@.requires_, 1nat,
    {
        let mut deps = self.satisfy_requirements(fuel, &op.requires_, b)?;
        let ghost st1 = self.state();
        let ghost d1 = views(deps@);
        push_refs(b, &mut deps);
        let args = args_for(op, b)?;
        let surface = surface_for(op, &self.opts.surfaces)?;
        let mut canon = concat(op.name.as_str(), "|");
        push_expanded(&self.canon, want, &mut canon);
        assert(canon@ =~= content(st1, op@, want@));
        let node = self.node_for(op, b, want, args, surface, canon.as_str());
        let id = node.id.clone();
        let sorted = sorted_unique(&deps);
        let ghost nv = node@;
        let ghost added = dep_edges(views(sorted@), id@);
        push_pair(&mut self.canon, id.clone(), canon);
        push_dep_edges(&sorted, id.as_str(), &mut self.deps);
        assert(pairs_view(self.deps@) == st1.deps + added);
        let ghost ids0 = ids_of(nodes_view(self.nodes@));
        self.nodes.push(node);
        proof {
            assert(nodes_view(self.nodes@) =~= st1.nodes.push(nv));
            assert(ids_of(nodes_view(self.nodes@)) =~= ids0.push(id@));
            push_has(ids0, id@);
            dep_edges_targets(views(sorted@), id@);
            assert forall|k: int| 0 <= k < self.deps@.len() implies ids_of(
                nodes_view(self.nodes@),
            ).contains((#[trigger] pairs_view(self.deps@)[k]).1) by {
                if k < st1.deps.len() {
                    assert(pairs_view(self.deps@)[k] == st1.deps[k]);
                } else {
                    assert(pairs_view(self.deps@)[k] == added[k - st1.deps.len()]);
                }
            }
        }
        Ok(id)
    }
}

// ---------- edges ----------

fn push_pair_edge(
    a: &Node,
    b: &Node,
    aw: &Vec<(String, String)>,
    ar: &Vec<(String, String)>,
    bw: &Vec<(String, String)>,
    br: &Vec<(String, String)>,
    out: &mut Vec<(String, String)>,
)
    requires
        tokens_of(aw@, a@.writes),
        tokens_of(ar@, a@.reads),
        tokens_of(bw@, b@.writes),
        tokens_of(br@, b@.reads),
    ensures
        pairs_view(final(out)@) == (match pair_edge(a@, b@) {
            Some(e) => pairs_view(old(out)@).push(e),
            None => pairs_view(old(out)@),
        }),
{
    if tokens_conflict(aw, bw, Ghost(a@.writes), Ghost(b@.writes)) {
        if list_has(&b.before, a.op.as_str()) {
            push_pair(out, b.id.clone(), a.id.clone());
        } else {
            push_pair(out, a.id.clone(), b.id.clone());
        }
    } else if tokens_conflict(aw, br, Ghost(a@.writes), Ghost(b@.reads)) {
        push_pair(out, a.id.clone(), b.id.clone());
    } else if tokens_conflict(bw, ar, Ghost(b@.writes), Ghost(a@.reads)) {
        push_pair(out, b.id.clone(), a.id.clone());
    }
}

spec fn tokens_of(ts: Seq<(String, String)>, rs: Seq<Seq<char>>) -> bool {
    ts.len() == rs.len() && forall|i: int|
        0 <= i < rs.len() ==> ((#[trigger] ts[i]).0@, ts[i].1@) == crate::compile_model::token(rs[i])
}

fn node_tokens(rs: &Vec<String>) -> (r: Vec<(String, String)>)
    ensures
        tokens_of(r@, views(rs@)),
{
    let r = tokens(rs);
    assert forall|i: int| 0 <= i < views(rs@).len() implies ((#[trigger] r@[i]).0@, r@[i].1@)
        == crate::compile_model::token(views(rs@)[i]) by {
        assert(views(rs@)[i] == rs@[i]@);
    }
    r
}

/// The edges that footprints demand.
fn edges_of_footprints(nodes: &Vec<Node>) -> (r: Vec<(String, String)>)
    ensures
        pairs_view(r@) == footprint_edges(nodes_view(nodes@)),
{
    let ghost ns = nodes_view(nodes@);
    let n: usize = nodes.len();
    let mut reads: Vec<Vec<(String, String)>> = Vec::new();
    let mut writes: Vec<Vec<(String, String)>> = Vec::new();
    let mut t: usize = 0;
    while t < n
        invariant
            t <= n == nodes@.len(),
            reads@.len() == t,
            writes@.len() == t,
            ns == nodes_view(nodes@),
            forall|k: int| 0 <= k < t ==> tokens_of((#[trigger] reads@[k])@, ns[k].reads),
            forall|k: int| 0 <= k < t ==> tokens_of((#[trigger] writes@[k])@, ns[k].writes),
        decreases n - t,
    {
        assert(ns[t as int] == nodes@[t as int]@);
        reads.push(node_tokens(&nodes[t].reads));
        writes.push(node_tokens(&nodes[t].writes));
        t += 1;
    }
    let mut out: Vec<(String, String)> = Vec::new();
    let mut i: usize = 0;
    assert(pairs_view(out@) =~= rows_edges(ns, 0));
    while i < n
        invariant
            i <= n == nodes@.len(),
            reads@.len() == n,
            writes@.len() == n,
            ns == nodes_view(nodes@),
            forall|k: int| 0 <= k < n ==> tokens_of((#[trigger] reads@[k])@, ns[k].reads),
            forall|k: int| 0 <= k < n ==> tokens_of((#[trigger] writes@[k])@, ns[k].writes),
            pairs_view(out@) == rows_edges(ns, i as int),
        decreases n - i,
    {
        let ghost before = pairs_view(out@);
        let mut j: usize = i + 1;
        assert(before + row_edges(ns, i as int, i + 1) =~= before);
        while j < n
            invariant
                i < j <= n == nodes@.len(),
                reads@.len() == n,
                writes@.len() == n,
                ns == nodes_view(nodes@),
                forall|k: int| 0 <= k < n ==> tokens_of((#[trigger] reads@[k])@, ns[k].reads),
                forall|k: int| 0 <= k < n ==> tokens_of((#[trigger] writes@[k])@, ns[k].writes),
                pairs_view(out@) == before + row_edges(ns, i as int, j as int),
            decreases n - j,
        {
            assert(ns[i as int] == nodes@[i as int]@);
            assert(ns[j as int] == nodes@[j as int]@);
            assert(tokens_of(reads@[i as int]@, ns[i as int].reads));
            assert(tokens_of(reads@[j as int]@, ns[j as int].reads));
            assert(tokens_of(writes@[i as int]@, ns[i as int].writes));
            assert(tokens_of(writes@[j as int]@, ns[j as int].writes));
            push_pair_edge(
                &nodes[i],
                &nodes[j],
                &writes[i],
                &reads[i],
                &writes[j],
                &reads[j],
                &mut out,
            );
            j += 1;
            assert(pairs_view(out@) =~= before + row_edges(ns, i as int, j as int));
        }
        i += 1;
    }
    out
}

proof fn row_edges_targets(ns: Seq<NodeV>, i: int, j: int)
    requires
        0 <= i < ns.len(),
        j <= ns.len(),
    ensures
        forall|k: int|
            0 <= k < row_edges(ns, i, j).len() ==> ids_of(ns).contains(
                (#[trigger] row_edges(ns, i, j)[k]).1,
            ) && ids_of(ns).contains(row_edges(ns, i, j)[k].0),
    decreases j - i,
{
    if j > i + 1 {
        row_edges_targets(ns, i, j - 1);
        let p = row_edges(ns, i, j - 1);
        assert(ids_of(ns)[i] == ns[i].id);
        assert(ids_of(ns)[j - 1] == ns[j - 1].id);
        assert forall|k: int| 0 <= k < row_edges(ns, i, j).len() implies ids_of(ns).contains(
            (#[trigger] row_edges(ns, i, j)[k]).1,
        ) && ids_of(ns).contains(row_edges(ns, i, j)[k].0) by {
            if k < p.len() {
                assert(row_edges(ns, i, j)[k] == p[k]);
            }
        }
    }
}

/// Every footprint edge joins two nodes.
pub proof fn footprint_edges_join_nodes(ns: Seq<NodeV>)
    ensures
        forall|k: int|
            0 <= k < footprint_edges(ns).len() ==> ids_of(ns).contains(
                (#[trigger] footprint_edges(ns)[k]).1,
            ) && ids_of(ns).contains(footprint_edges(ns)[k].0),
{
    rows_edges_targets(ns, ns.len() as int);
}

proof fn rows_edges_targets(ns: Seq<NodeV>, i: int)
    requires
        i <= ns.len(),
    ensures
        forall|k: int|
            0 <= k < rows_edges(ns, i).len() ==> ids_of(ns).contains(
                (#[trigger] rows_edges(ns, i)[k]).1,
            ) && ids_of(ns).contains(rows_edges(ns, i)[k].0),
    decreases i,
{
    if i > 0 {
        rows_edges_targets(ns, i - 1);
        row_edges_targets(ns, i - 1, ns.len() as int);
        let a = rows_edges(ns, i - 1);
        let b = row_edges(ns, i - 1, ns.len() as int);
        assert forall|k: int| 0 <= k < rows_edges(ns, i).len() implies ids_of(ns).contains(
            (#[trigger] rows_edges(ns, i)[k]).1,
        ) && ids_of(ns).contains(rows_edges(ns, i)[k].0) by {
            if k < a.len() {
                assert(rows_edges(ns, i)[k] == a[k]);
            } else {
                assert(rows_edges(ns, i)[k] == b[k - a.len()]);
            }
        }
    }
}

fn ids_list(nodes: &Vec<Node>) -> (r: Vec<String>)
    ensures
        views(r@) == ids_of(nodes_view(nodes@)),
{
    let ghost ids = ids_of(nodes_view(nodes@));
    let mut out: Vec<String> = Vec::new();
    let mut i: usize = 0;
    while i < nodes.len()
        invariant
            i <= nodes@.len(),
            ids == ids_of(nodes_view(nodes@)),
            views(out@) == ids.take(i as int),
        decreases nodes@.len() - i,
    {
        let ghost o = views(out@);
        out.push(nodes[i].id.clone());
        assert(views(out@) =~= o.push(nodes@[i as int].id@));
        i += 1;
        assert(views(out@) =~= ids.take(i as int));
    }
    assert(ids.take(i as int) =~= ids);
    out
}

fn gates_of(nodes: &Vec<Node>, allowed: bool) -> (r: Vec<Gate>)
    ensures
        gates_view(r@) == gates_for(nodes_view(nodes@), allowed),
{
    let ghost ns = nodes_view(nodes@);
    let mut out: Vec<Gate> = Vec::new();
    let mut i: usize = 0;
    assert(gates_view(out@) =~= gates_for(ns.take(0), allowed));
    while i < nodes.len()
        invariant
            i <= nodes@.len(),
            ns == nodes_view(nodes@),
            gates_view(out@) == gates_for(ns.take(i as int), allowed),
        decreases nodes@.len() - i,
    {
        proof {
            assert(ns.take(i + 1).drop_last() =~= ns.take(i as int));
            assert(ns.take(i + 1).last() == nodes@[i as int]@);
        }
        if nodes[i].external {
            let g = Gate { node: nodes[i].id.clone(), kind: GateKind::External, allowed };
            let ghost o = gates_view(out@);
            out.push(g);
            assert(gates_view(out@) =~= o.push(g@));
        }
        i += 1;
    }
    assert(ns.take(i as int) =~= ns);
    out
}

/// Edges that all end in a topological order have no cycle.
proof fn targets_ordered_acyclic(es: Seq<(Seq<char>, Seq<char>)>, order: Seq<Seq<char>>)
    requires
        topological(es, order),
        forall|e: (Seq<char>, Seq<char>)| #[trigger] es.contains(e) ==> order.contains(e.1),
    ensures
        acyclic(es),
{
    assert forall|a: Seq<char>| !reach(es, a, a) by {
        if reach(es, a, a) {
            let p = choose|p: Seq<Seq<char>>| leads(es, p, a, a);
            assert(step(es, p, p.len() - 2));
            assert(es.contains((p[p.len() - 2], p[p.len() - 2 + 1])));
            assert(order.contains(a));
            topological_acyclic(es, order, a);
        }
    }
}

/// A cycle is a node that leads back to itself.
proof fn cycle_not_acyclic(es: Seq<(Seq<char>, Seq<char>)>, c: Seq<Seq<char>>)
    requires
        cycle(es, c),
    ensures
        !acyclic(es),
{
    assert(leads(es, c, c[0], c[0]));
    assert(reach(es, c[0], c[0]));
}

/// Compile an intent into a plan.
pub fn compile(intent: &Intent, world: &World, opts: &CompileOptions) -> (r: Result<
    Plan,
    CompileError,
>)
    ensures
        compiles_to(
            intent@,
            world@,
            opts@,
            match r {
                Ok(p) => Ok(p@),
                Err(e) => Err(e@),
            },
        ),
        r matches Ok(p) ==> forall|i: int|
            0 <= i < p@.nodes.len() ==> (#[trigger] p@.nodes[i]).id == node_name(i as nat),
        r matches Ok(p) ==> forall|i: int|
            0 <= i < p@.edges.len() ==> ids_of(p@.nodes).contains((#[trigger] p@.edges[i]).1),
        r matches Ok(p) ==> forall|i: int|
            0 <= i < p@.nodes.len() ==> ((#[trigger] p@.nodes[i]).key matches Some(k) ==> key_form(
                opts@.plan_id,
                k,
            )),
{
    let mut c = Compiler {
        world,
        intent,
        opts,
        nodes: Vec::new(),
        memo: Vec::new(),
        deps: Vec::new(),
        canon: Vec::new(),
    };
    let ghost env = c.env();
    let ghost ws = views(intent.wants@);
    let limit: u64 = 0xFFFF_FFFF_FFFF_FFFF;
    proof {
        assert(limit as nat == depth_limit());
        let st = c.state();
        assert(st.nodes =~= Seq::<NodeV>::empty());
        assert(st.memo =~= Seq::<(Seq<char>, Seq<char>)>::empty());
        assert(st.deps =~= Seq::<(Seq<char>, Seq<char>)>::empty());
        assert(st.canon =~= Seq::<(Seq<char>, Seq<char>)>::empty());
        assert(ws.take(0) =~= Seq::<Seq<char>>::empty());
    }
    let ghost c0 = c;
    let mut i: usize = 0;
    while i < intent.wants.len()
        invariant
            i <= intent.wants@.len(),
            limit as nat == depth_limit(),
            c.ok(),
            c.same_input(c0),
            env == c0.env(),
            env == env_of(intent@, world@, opts@),
            ws == views(intent.wants@),
            ws == intent@.wants,
            satisfy_wants(env, depth_limit(), ws.take(i as int)) == Ok::<State, CompileErrorV>(
                c.state(),
            ),
        decreases intent.wants@.len() - i,
    {
        proof {
            assert(ws.take(i + 1).drop_last() =~= ws.take(i as int));
            assert(ws.take(i + 1).last() == intent.wants@[i as int]@);
        }
        let pred = match Pred::parse(intent.wants[i].as_str()) {
            Ok(p) => p,
            Err(e) => {
                proof {
                    satisfy_wants_stuck(env, depth_limit(), ws, i + 1);
                }
                return Err(CompileError::Parse(intent.wants[i].clone(), e));
            },
        };
        let ones = pred.unroll();
        let ghost st0 = c.state();
        let ghost os = preds_view(ones@);
        let mut j: usize = 0;
        assert(os.take(0) =~= Seq::<PredV>::empty());
        while j < ones.len()
            invariant
                j <= ones@.len(),
                i < intent.wants@.len(),
                limit as nat == depth_limit(),
                c.ok(),
                c.same_input(c0),
                env == c0.env(),
                env == env_of(intent@, world@, opts@),
                ws == views(intent.wants@),
                ws == intent@.wants,
                os == preds_view(ones@),
                satisfy_all(env, depth_limit(), st0, os.take(j as int)) == Ok::<
                    State,
                    CompileErrorV,
                >(c.state()),
                satisfy_wants(env, depth_limit(), ws.take(i + 1)) == satisfy_all(
                    env,
                    depth_limit(),
                    st0,
                    os,
                ),
            decreases ones@.len() - j,
        {
            proof {
                assert(os.take(j + 1).drop_last() =~= os.take(j as int));
                assert(os.take(j + 1).last() == ones@[j as int]@);
            }
            match c.satisfy(limit, &ones[j]) {
                Ok(_) => {},
                Err(e) => {
                    proof {
                        satisfy_all_stuck(env, depth_limit(), st0, os, j + 1);
                        satisfy_wants_stuck(env, depth_limit(), ws, i + 1);
                    }
                    return Err(e);
                },
            }
            j += 1;
        }
        assert(os.take(j as int) =~= os);
        i += 1;
    }
    assert(ws.take(i as int) =~= ws);
    let ghost st = c.state();
    assert(nodes_view(c.nodes@).len() == c.nodes@.len());
    if c.nodes.len() == 0 {
        return Err(CompileError::Empty);
    }
    let ids = ids_list(&c.nodes);
    let mut demanded = edges_of_footprints(&c.nodes);
    let mut edges: Vec<(String, String)> = Vec::new();
    edges.append(&mut c.deps);
    edges.append(&mut demanded);
    proof {
        assert(pairs_view(edges@) =~= st.deps + footprint_edges(st.nodes));
        assert(edges_view(edges@) =~= pairs_view(edges@));
    }
    let edges = dedupe(&edges);
    let ghost es = edges_view(edges@);
    assert(es == all_edges(st));
    proof {
        footprint_edges_join_nodes(st.nodes);
        dedupe_ok(st.deps + footprint_edges(st.nodes));
        add_has(st.deps, footprint_edges(st.nodes));
        assert forall|e: (Seq<char>, Seq<char>)| #[trigger]
            es.contains(e) implies ids_of(st.nodes).contains(e.1) by {
            if st.deps.contains(e) {
                let k = choose|k: int| 0 <= k < st.deps.len() && st.deps[k] == e;
                assert(ids_of(st.nodes).contains(st.deps[k].1));
            } else {
                let f = footprint_edges(st.nodes);
                let k = choose|k: int| 0 <= k < f.len() && f[k] == e;
                assert(ids_of(st.nodes).contains(f[k].1));
            }
        }
    }
    match find_cycle(&ids, &edges) {
        Some(t) => {
            proof {
                let w = choose|w: Seq<Seq<char>>| #[trigger]
                    cycle(es, w) && t@ == crate::graph::arrows(w);
                cycle_not_acyclic(es, w);
            }
            Err(CompileError::Cycle(t))
        },
        None => {
            proof {
                let order = choose|order: Seq<Seq<char>>| #[trigger]
                    topological(es, order) && forall|v: Seq<char>| #[trigger]
                        views(ids@).contains(v) ==> order.contains(v);
                targets_ordered_acyclic(es, order);
            }
            let kept = reduce(&edges, &ids);
            proof {
                let ks = edges_view(kept@);
                reduce_contains(views(ids@), es);
                assert forall|i: int| 0 <= i < ks.len() implies ids_of(st.nodes).contains(
                    (#[trigger] ks[i]).1,
                ) by {
                    assert(ks.contains(ks[i]));
                    assert(es.contains(ks[i]));
                }
            }
            let gates = gates_of(&c.nodes, intent.constraints.external_ok);
            Ok(
                Plan {
                    plan_id: opts.plan_id.clone(),
                    goal: intent.goal.clone(),
                    nodes: c.nodes,
                    edges: kept,
                    gates,
                },
            )
        },
    }
}

} // verus!
