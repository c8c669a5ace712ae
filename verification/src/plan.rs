//! The physical plan: what the compiler emits and the scheduler runs.

use crate::cut::joined;
use crate::graph::edges_view;
use crate::json::{Json, JsonV};
use crate::text::{chars_of, clone_strings, dec, push_dec, same, views};
use crate::world::{
    clone_opt, opt_check, opt_fork, opt_str, opt_ui, Check, CheckV, Fork, ForkV, OpKind, UiSpec, UiSpecV,
};
use vstd::prelude::*;

verus! {

/// An argument of a step: a literal, the field of another node's output, or a list.
#[derive(Debug, PartialEq)]
pub enum Arg {
    Lit(Json),
    /// The field of another node's output.
    Ref { node: String, field: String },
    List(Vec<Arg>),
}

/// The mathematical content of an `Arg`.
pub enum ArgV {
    Lit(JsonV),
    Ref { node: Seq<char>, field: Seq<char> },
    List(Seq<ArgV>),
}

pub open spec fn arg_view(a: Arg) -> ArgV
    decreases a,
{
    match a {
        Arg::Lit(v) => ArgV::Lit(v@),
        Arg::Ref { node, field } => ArgV::Ref { node: node@, field: field@ },
        Arg::List(xs) => ArgV::List(arg_list_view(xs@)),
    }
}

pub open spec fn arg_list_view(xs: Seq<Arg>) -> Seq<ArgV>
    decreases xs,
{
    Seq::new(
        xs.len(),
        |i: int|
            if 0 <= i < xs.len() {
                arg_view(xs[i])
            } else {
                arbitrary()
            },
    )
}

pub open spec fn node_args_view(xs: Seq<(String, Arg)>) -> Seq<(Seq<char>, ArgV)> {
    xs.map_values(|x: (String, Arg)| (x.0@, arg_view(x.1)))
}

impl View for Arg {
    type V = ArgV;

    open spec fn view(&self) -> ArgV {
        arg_view(*self)
    }
}

pub proof fn arg_list_push(xs: Seq<Arg>, x: Arg)
    ensures
        arg_list_view(xs.push(x)) == arg_list_view(xs).push(x@),
{
    assert(arg_list_view(xs.push(x)) =~= arg_list_view(xs).push(x@));
}

/// The nodes that an argument refers to, in order.
pub open spec fn arg_refs(a: ArgV) -> Seq<Seq<char>>
    decreases a,
{
    match a {
        ArgV::Lit(_) => Seq::empty(),
        ArgV::Ref { node, field: _ } => seq![node],
        ArgV::List(xs) => arg_list_refs(xs),
    }
}

pub open spec fn arg_list_refs(xs: Seq<ArgV>) -> Seq<Seq<char>>
    decreases xs,
{
    if xs.len() == 0 {
        Seq::empty()
    } else {
        arg_list_refs(xs.drop_last()) + arg_refs(xs[xs.len() - 1])
    }
}

fn push_arg_refs(a: &Arg, out: &mut Vec<String>)
    ensures
        views(final(out)@) == views(old(out)@) + arg_refs(a@),
    decreases a,
{
    let ghost before = views(out@);
    match a {
        Arg::Lit(_) => {
            assert(before + Seq::<Seq<char>>::empty() =~= before);
        },
        Arg::Ref { node, field: _ } => {
            out.push(node.clone());
            assert(views(out@) =~= before + seq![node@]);
        },
        Arg::List(xs) => {
            let ghost vs = arg_list_view(xs@);
            let mut i: usize = 0;
            assert(before + arg_list_refs(vs.take(0)) =~= before);
            while i < xs.len()
                invariant
                    i <= xs@.len(),
                    vs == arg_list_view(xs@),
                    views(out@) == before + arg_list_refs(vs.take(i as int)),
                    decreases_to!(a => xs),
                decreases xs@.len() - i,
            {
                push_arg_refs(&xs[i], out);
                proof {
                    let p = vs.take(i + 1);
                    assert(p.drop_last() =~= vs.take(i as int));
                    assert(p[p.len() - 1] == xs@[i as int]@);
                }
                i += 1;
                assert(views(out@) =~= before + arg_list_refs(vs.take(i as int)));
            }
            assert(vs.take(i as int) =~= vs);
        },
    }
}

impl Arg {
    /// The nodes that the argument refers to, in order.
    pub fn refs(&self) -> (r: Vec<String>)
        ensures
            views(r@) == arg_refs(self@),
    {
        let mut out: Vec<String> = Vec::new();
        push_arg_refs(self, &mut out);
        assert(views(out@) =~= arg_refs(self@));
        out
    }
}

impl Clone for Arg {
    fn clone(&self) -> (r: Self)
        ensures
            r@ == self@,
        decreases self,
    {
        match self {
            Arg::Lit(v) => Arg::Lit(v.clone()),
            Arg::Ref { node, field } => Arg::Ref { node: node.clone(), field: field.clone() },
            Arg::List(xs) => {
                let mut out: Vec<Arg> = Vec::new();
                let mut i: usize = 0;
                while i < xs.len()
                    invariant
                        i <= xs@.len(),
                        arg_list_view(out@) == arg_list_view(xs@).take(i as int),
                        decreases_to!(self => xs),
                    decreases xs@.len() - i,
                {
                    let x = xs[i].clone();
                    proof {
                        arg_list_push(out@, x);
                    }
                    out.push(x);
                    i += 1;
                    assert(arg_list_view(out@) =~= arg_list_view(xs@).take(i as int));
                }
                assert(arg_list_view(xs@).take(i as int) =~= arg_list_view(xs@));
                Arg::List(out)
            },
        }
    }
}

/// A step of a plan.
#[derive(Debug)]
pub struct Node {
    pub id: String,
    pub op: String,
    pub kind: OpKind,
    /// The arguments, in ascending order of their names.
    pub args: Vec<(String, Arg)>,
    pub surface: String,
    pub key: Option<String>,
    pub reads: Vec<String>,
    pub writes: Vec<String>,
    pub external: bool,
    pub produces: Option<String>,
    pub fork: Option<Fork>,
    pub ui: Option<UiSpec>,
    /// For a wait: how to confirm the fact by reading, if the event never arrives.
    pub check: Option<Check>,
    /// Operations this node must precede when both write the same entity.
    pub before: Vec<String>,
    /// What this node makes true, for the receipt and for humans.
    pub post: String,
}

pub struct NodeV {
    pub id: Seq<char>,
    pub op: Seq<char>,
    pub kind: OpKind,
    pub args: Seq<(Seq<char>, ArgV)>,
    pub surface: Seq<char>,
    pub key: Option<Seq<char>>,
    pub reads: Seq<Seq<char>>,
    pub writes: Seq<Seq<char>>,
    pub external: bool,
    pub produces: Option<Seq<char>>,
    pub fork: Option<ForkV>,
    pub ui: Option<UiSpecV>,
    pub check: Option<CheckV>,
    pub before: Seq<Seq<char>>,
    pub post: Seq<char>,
}

impl View for Node {
    type V = NodeV;

    open spec fn view(&self) -> NodeV {
        NodeV {
            id: self.id@,
            op: self.op@,
            kind: self.kind,
            args: node_args_view(self.args@),
            surface: self.surface@,
            key: opt_str(self.key),
            reads: views(self.reads@),
            writes: views(self.writes@),
            external: self.external,
            produces: opt_str(self.produces),
            fork: opt_fork(self.fork),
            ui: opt_ui(self.ui),
            check: opt_check(self.check),
            before: views(self.before@),
            post: self.post@,
        }
    }
}

impl Clone for Node {
    fn clone(&self) -> (r: Self)
        ensures
            r@ == self@,
    {
        let ghost all = node_args_view(self.args@);
        let mut args: Vec<(String, Arg)> = Vec::new();
        let mut i: usize = 0;
        while i < self.args.len()
            invariant
                i <= self.args@.len() == all.len(),
                all == node_args_view(self.args@),
                node_args_view(args@) == all.take(i as int),
            decreases self.args@.len() - i,
        {
            let x = (self.args[i].0.clone(), self.args[i].1.clone());
            let ghost before = node_args_view(args@);
            args.push(x);
            assert(node_args_view(args@) =~= before.push((x.0@, x.1@)));
            i += 1;
            assert(node_args_view(args@) =~= all.take(i as int));
        }
        assert(all.take(i as int) =~= all);
        Node {
            id: self.id.clone(),
            op: self.op.clone(),
            kind: self.kind,
            args,
            surface: self.surface.clone(),
            key: clone_opt(&self.key),
            reads: clone_strings(&self.reads),
            writes: clone_strings(&self.writes),
            external: self.external,
            produces: clone_opt(&self.produces),
            fork: match &self.fork {
                Some(f) => Some(f.clone()),
                None => None,
            },
            ui: match &self.ui {
                Some(u) => Some(u.clone()),
                None => None,
            },
            check: match &self.check {
                Some(c) => Some(c.clone()),
                None => None,
            },
            before: clone_strings(&self.before),
            post: self.post.clone(),
        }
    }
}

pub open spec fn nodes_view(ns: Seq<Node>) -> Seq<NodeV> {
    ns.map_values(|n: Node| n@)
}

/// The names of the nodes.
pub open spec fn ids_of(ns: Seq<NodeV>) -> Seq<Seq<char>> {
    ns.map_values(|n: NodeV| n.id)
}

/// What a gate guards.
#[derive(Clone, Copy, Debug, PartialEq, Eq, Structural)]
pub enum GateKind {
    External,
    Spend,
}

/// A gate in front of a node.
#[derive(Debug)]
pub struct Gate {
    pub node: String,
    pub kind: GateKind,
    pub allowed: bool,
}

pub struct GateV {
    pub node: Seq<char>,
    pub kind: GateKind,
    pub allowed: bool,
}

impl View for Gate {
    type V = GateV;

    open spec fn view(&self) -> GateV {
        GateV { node: self.node@, kind: self.kind, allowed: self.allowed }
    }
}

pub open spec fn gates_view(gs: Seq<Gate>) -> Seq<GateV> {
    gs.map_values(|g: Gate| g@)
}

/// A plan: its steps, the edges between them, and its gates.
#[derive(Debug)]
pub struct Plan {
    pub plan_id: String,
    pub goal: String,
    pub nodes: Vec<Node>,
    pub edges: Vec<(String, String)>,
    pub gates: Vec<Gate>,
}

pub struct PlanV {
    pub plan_id: Seq<char>,
    pub goal: Seq<char>,
    pub nodes: Seq<NodeV>,
    pub edges: Seq<(Seq<char>, Seq<char>)>,
    pub gates: Seq<GateV>,
}

impl View for Plan {
    type V = PlanV;

    open spec fn view(&self) -> PlanV {
        PlanV {
            plan_id: self.plan_id@,
            goal: self.goal@,
            nodes: nodes_view(self.nodes@),
            edges: edges_view(self.edges@),
            gates: gates_view(self.gates@),
        }
    }
}

/// The first node of that name.
pub open spec fn find_node(ns: Seq<NodeV>, id: Seq<char>) -> Option<NodeV>
    decreases ns.len(),
{
    if ns.len() == 0 {
        None
    } else if ns[0].id == id {
        Some(ns[0])
    } else {
        find_node(ns.drop_first(), id)
    }
}

proof fn find_node_skip(ns: Seq<NodeV>, id: Seq<char>, i: int)
    requires
        0 <= i <= ns.len(),
        forall|j: int| 0 <= j < i ==> (#[trigger] ns[j]).id != id,
    ensures
        find_node(ns, id) == find_node(ns.skip(i), id),
    decreases i,
{
    if i == 0 {
        assert(ns.skip(0) =~= ns);
    } else {
        assert(ns[0].id != id);
        let t = ns.drop_first();
        assert forall|j: int| 0 <= j < i - 1 implies (#[trigger] t[j]).id != id by {
            assert(t[j] == ns[j + 1]);
        }
        find_node_skip(t, id, i - 1);
        assert(t.skip(i - 1) =~= ns.skip(i));
    }
}

/// The sources of the edges into `id`, in order.
pub open spec fn sources(es: Seq<(Seq<char>, Seq<char>)>, id: Seq<char>) -> Seq<Seq<char>>
    decreases es.len(),
{
    if es.len() == 0 {
        Seq::empty()
    } else if es.last().1 == id {
        sources(es.drop_last(), id).push(es.last().0)
    } else {
        sources(es.drop_last(), id)
    }
}

/// What each borrowed string of a sequence holds.
pub open spec fn str_views(v: Seq<&str>) -> Seq<Seq<char>> {
    v.map_values(|s: &str| s@)
}

// ---------- depth ----------

/// The number of nodes on the longest walk that ends at `v` and has at most `k` nodes.
pub open spec fn longest(es: Seq<(Seq<char>, Seq<char>)>, v: Seq<char>, k: nat) -> nat
    decreases k, 0nat,
{
    if k == 0 {
        0
    } else {
        1 + longest_in(es, es.len(), v, (k - 1) as nat)
    }
}

/// The most that `longest` gives for the sources of the first `n` edges, as far as they end at
/// `v`.
pub open spec fn longest_in(
    es: Seq<(Seq<char>, Seq<char>)>,
    n: nat,
    v: Seq<char>,
    k: nat,
) -> nat
    decreases k, n + 1,
{
    if n == 0 || n > es.len() {
        0
    } else {
        let rest = longest_in(es, (n - 1) as nat, v, k);
        let e = es[n - 1];
        if e.1 == v && longest(es, e.0, k) > rest {
            longest(es, e.0, k)
        } else {
            rest
        }
    }
}

/// The most that `longest` gives for the first `n` names.
pub open spec fn deepest(
    es: Seq<(Seq<char>, Seq<char>)>,
    ids: Seq<Seq<char>>,
    k: nat,
) -> nat
    decreases ids.len(),
{
    if ids.len() == 0 {
        0
    } else {
        let rest = deepest(es, ids.drop_last(), k);
        if longest(es, ids.last(), k) > rest {
            longest(es, ids.last(), k)
        } else {
            rest
        }
    }
}

/// How deep a plan is: the number of nodes on its longest walk. (A walk without repetition has at
/// most one node more than there are edges.)
pub open spec fn depth_spec(p: PlanV) -> nat {
    deepest(p.edges, ids_of(p.nodes), p.edges.len() + 1)
}

proof fn longest_bound(es: Seq<(Seq<char>, Seq<char>)>, v: Seq<char>, k: nat)
    ensures
        longest(es, v, k) <= k,
    decreases k, 0nat,
{
    if k > 0 {
        longest_in_bound(es, es.len(), v, (k - 1) as nat);
    }
}

proof fn longest_in_bound(es: Seq<(Seq<char>, Seq<char>)>, n: nat, v: Seq<char>, k: nat)
    ensures
        longest_in(es, n, v, k) <= k,
    decreases k, n + 1,
{
    if n > 0 && n <= es.len() {
        longest_in_bound(es, (n - 1) as nat, v, k);
        longest_bound(es, es[n - 1].0, k);
    }
}

proof fn longest_in_same(es: Seq<(Seq<char>, Seq<char>)>, n: nat, v: Seq<char>, a: nat, b: nat)
    requires
        forall|i: int|
            0 <= i < es.len() ==> longest(es, (#[trigger] es[i]).0, a) == longest(es, es[i].0, b),
    ensures
        longest_in(es, n, v, a) == longest_in(es, n, v, b),
    decreases n,
{
    if n > 0 && n <= es.len() {
        longest_in_same(es, (n - 1) as nat, v, a, b);
        assert(longest(es, es[n - 1].0, a) == longest(es, es[n - 1].0, b));
    }
}

/// Once another round changes nothing, no further round does.
proof fn longest_stable(es: Seq<(Seq<char>, Seq<char>)>, k: nat, m: nat)
    requires
        k <= m,
        forall|i: int|
            0 <= i < es.len() ==> longest(es, (#[trigger] es[i]).0, k) == longest(
                es,
                es[i].0,
                k + 1,
            ),
    ensures
        forall|i: int|
            0 <= i < es.len() ==> longest(es, (#[trigger] es[i]).0, k) == longest(es, es[i].0, m),
    decreases m - k,
{
    if m > k + 1 {
        longest_stable(es, k, (m - 1) as nat);
        assert forall|i: int| 0 <= i < es.len() implies longest(es, (#[trigger] es[i]).0, k)
            == longest(es, es[i].0, m) by {
            longest_in_same(es, es.len(), es[i].0, k, (m - 1) as nat);
            assert(longest(es, es[i].0, k) == longest(es, es[i].0, k + 1));
        }
    }
}

/// The most of `vals` at the edges into `v`, with what `vals` says of each edge's source.
fn best_into(edges: &Vec<(String, String)>, vals: &Vec<usize>, v: &str, k: Ghost<nat>) -> (r: usize)
    requires
        vals@.len() == edges@.len(),
        forall|i: int|
            0 <= i < vals@.len() ==> #[trigger] vals@[i] == longest(
                edges_view(edges@),
                edges_view(edges@)[i].0,
                k@,
            ),
    ensures
        r == longest_in(edges_view(edges@), edges@.len(), v@, k@),
{
    let ghost es = edges_view(edges@);
    let mut best: usize = 0;
    let mut i: usize = 0;
    while i < edges.len()
        invariant
            i <= edges@.len() == vals@.len(),
            es == edges_view(edges@),
            forall|j: int|
                0 <= j < vals@.len() ==> #[trigger] vals@[j] == longest(es, es[j].0, k@),
            best == longest_in(es, i as nat, v@, k@),
        decreases edges@.len() - i,
    {
        assert(es[i as int] == (edges@[i as int].0@, edges@[i as int].1@));
        assert(vals@[i as int] == longest(es, es[i as int].0, k@));
        if same(edges[i].1.as_str(), v) && vals[i] > best {
            best = vals[i];
        }
        i += 1;
    }
    best
}

/// The indices of the edges that end where edge `f` starts.
fn edges_behind(edges: &Vec<(String, String)>, f: usize) -> (r: Vec<usize>)
    requires
        f < edges@.len(),
    ensures
        forall|j: int| 0 <= j < r@.len() ==> #[trigger] r@[j] < edges@.len(),
        forall|i: int|
            0 <= i < edges@.len() ==> (r@.contains(i as usize) <==> #[trigger] edges@[i].1@
                == edges@[f as int].0@),
{
    let mut out: Vec<usize> = Vec::new();
    let mut i: usize = 0;
    while i < edges.len()
        invariant
            i <= edges@.len(),
            f < edges@.len(),
            forall|j: int| 0 <= j < out@.len() ==> #[trigger] out@[j] < i,
            forall|k: int|
                0 <= k < i ==> (out@.contains(k as usize) <==> #[trigger] edges@[k].1@
                    == edges@[f as int].0@),
        decreases edges@.len() - i,
    {
        let ghost o = out@;
        if same(edges[i].1.as_str(), edges[f].0.as_str()) {
            out.push(i);
            proof {
                crate::seqs::push_has(o, i);
            }
        }
        assert forall|k: int| 0 <= k < i + 1 implies (out@.contains(k as usize)
            <==> #[trigger] edges@[k].1@ == edges@[f as int].0@) by {
            if k == i && o.contains(i) {
                let j = choose|j: int| 0 <= j < o.len() && o[j] == i;
                assert(o[j] < i);
            }
        }
        i += 1;
    }
    out
}

proof fn longest_in_upper(es: Seq<(Seq<char>, Seq<char>)>, n: nat, v: Seq<char>, k: nat, m: nat)
    requires
        n <= es.len(),
        forall|i: int|
            0 <= i < n && (#[trigger] es[i]).1 == v ==> longest(es, es[i].0, k) <= m,
        m == 0 || exists|i: int|
            0 <= i < n && (#[trigger] es[i]).1 == v && longest(es, es[i].0, k) == m,
    ensures
        longest_in(es, n, v, k) == m,
    decreases n,
{
    if n > 0 {
        let e = es[n - 1];
        let rest = longest_in(es, (n - 1) as nat, v, k);
        longest_in_sub(es, (n - 1) as nat, v, k, m);
        if m > 0 {
            let i = choose|i: int|
                0 <= i < n && (#[trigger] es[i]).1 == v && longest(es, es[i].0, k) == m;
            if i < n - 1 {
                longest_in_at(es, (n - 1) as nat, v, k, i);
            }
        }
    }
}

proof fn longest_in_sub(es: Seq<(Seq<char>, Seq<char>)>, n: nat, v: Seq<char>, k: nat, m: nat)
    requires
        n <= es.len(),
        forall|i: int|
            0 <= i < n && (#[trigger] es[i]).1 == v ==> longest(es, es[i].0, k) <= m,
    ensures
        longest_in(es, n, v, k) <= m,
    decreases n,
{
    if n > 0 {
        longest_in_sub(es, (n - 1) as nat, v, k, m);
    }
}

proof fn longest_in_at(es: Seq<(Seq<char>, Seq<char>)>, n: nat, v: Seq<char>, k: nat, i: int)
    requires
        n <= es.len(),
        0 <= i < n,
        es[i].1 == v,
    ensures
        longest_in(es, n, v, k) >= longest(es, es[i].0, k),
    decreases n,
{
    if i < n - 1 {
        longest_in_at(es, (n - 1) as nat, v, k, i);
    }
}

/// What `longest` gives for the source of every edge, with as many nodes as there are edges.
fn settled(edges: &Vec<(String, String)>) -> (r: Vec<usize>)
    requires
        edges@.len() < usize::MAX,
    ensures
        r@.len() == edges@.len(),
        forall|i: int|
            0 <= i < r@.len() ==> #[trigger] r@[i] == longest(
                edges_view(edges@),
                edges_view(edges@)[i].0,
                edges@.len(),
            ),
{
    let ghost es = edges_view(edges@);
    let n: usize = edges.len();
    let mut behind: Vec<Vec<usize>> = Vec::new();
    let mut vals: Vec<usize> = Vec::new();
    let mut f: usize = 0;
    while f < n
        invariant
            f <= n == edges@.len(),
            behind@.len() == f,
            vals@.len() == f,
            forall|g: int, j: int|
                0 <= g < f && 0 <= j < behind@[g]@.len() ==> #[trigger] behind@[g]@[j] < n,
            forall|g: int, i: int|
                0 <= g < f && 0 <= i < n ==> (#[trigger] behind@[g]@.contains(i as usize)
                    <==> #[trigger] edges@[i].1@ == edges@[g].0@),
            forall|g: int| 0 <= g < f ==> #[trigger] vals@[g] == 0,
        decreases n - f,
    {
        behind.push(edges_behind(edges, f));
        vals.push(0);
        f += 1;
    }
    let mut k: usize = 0;
    while k < n
        invariant
            k <= n == edges@.len() < usize::MAX,
            es == edges_view(edges@),
            behind@.len() == n,
            vals@.len() == n,
            forall|g: int, j: int|
                0 <= g < n && 0 <= j < behind@[g]@.len() ==> #[trigger] behind@[g]@[j] < n,
            forall|g: int, i: int|
                0 <= g < n && 0 <= i < n ==> (#[trigger] behind@[g]@.contains(i as usize)
                    <==> #[trigger] edges@[i].1@ == edges@[g].0@),
            forall|g: int|
                0 <= g < n ==> #[trigger] vals@[g] == longest(es, es[g].0, k as nat),
        decreases n - k,
    {
        let mut next: Vec<usize> = Vec::new();
        let mut changed: bool = false;
        let mut g: usize = 0;
        while g < n
            invariant
                g <= n == edges@.len() < usize::MAX,
                k < n,
                es == edges_view(edges@),
                behind@.len() == n,
                vals@.len() == n,
                next@.len() == g,
                forall|h: int, j: int|
                    0 <= h < n && 0 <= j < behind@[h]@.len() ==> #[trigger] behind@[h]@[j] < n,
                forall|h: int, i: int|
                    0 <= h < n && 0 <= i < n ==> (#[trigger] behind@[h]@.contains(i as usize)
                        <==> #[trigger] edges@[i].1@ == edges@[h].0@),
                forall|h: int|
                    0 <= h < n ==> #[trigger] vals@[h] == longest(es, es[h].0, k as nat),
                forall|h: int|
                    0 <= h < g ==> #[trigger] next@[h] == longest(es, es[h].0, (k + 1) as nat),
                !changed ==> forall|h: int| 0 <= h < g ==> #[trigger] next@[h] == vals@[h],
            decreases n - g,
        {
            let mut best: usize = 0;
            let mut j: usize = 0;
            while j < behind[g].len()
                invariant
                    g < n == edges@.len() < usize::MAX,
                    k < n,
                    es == edges_view(edges@),
                    behind@.len() == n,
                    vals@.len() == n,
                    j <= behind@[g as int]@.len(),
                    forall|h: int, j: int|
                        0 <= h < n && 0 <= j < behind@[h]@.len() ==> #[trigger] behind@[h]@[j] < n,
                    forall|h: int|
                        0 <= h < n ==> #[trigger] vals@[h] == longest(es, es[h].0, k as nat),
                    best <= k,
                    forall|m: int|
                        0 <= m < j ==> vals@[#[trigger] behind@[g as int]@[m] as int] <= best,
                    best == 0 || exists|m: int|
                        0 <= m < j && vals@[#[trigger] behind@[g as int]@[m] as int] == best,
                decreases behind@[g as int]@.len() - j,
            {
                let e: usize = behind[g][j];
                assert(behind@[g as int]@[j as int] < n);
                proof {
                    longest_bound(es, es[e as int].0, k as nat);
                }
                assert(vals@[e as int] == longest(es, es[e as int].0, k as nat));
                if vals[e] > best {
                    best = vals[e];
                    assert(vals@[behind@[g as int]@[j as int] as int] == best);
                }
                j += 1;
            }
            proof {
                let v = es[g as int].0;
                let b = behind@[g as int]@;
                assert forall|i: int| 0 <= i < n && (#[trigger] es[i]).1 == v implies longest(
                    es,
                    es[i].0,
                    k as nat,
                ) <= best by {
                    assert(edges@[i].1@ == edges@[g as int].0@);
                    assert(b.contains(i as usize));
                    let m = choose|m: int| 0 <= m < b.len() && b[m] == i as usize;
                    assert(vals@[b[m] as int] <= best);
                }
                if best > 0 {
                    let m = choose|m: int|
                        0 <= m < b.len() && vals@[#[trigger] b[m] as int] == best;
                    let i = b[m] as int;
                    assert(b.contains(i as usize));
                    assert(edges@[i].1@ == edges@[g as int].0@);
                    assert(es[i].1 == v);
                    assert(longest(es, es[i].0, k as nat) == best);
                }
                longest_in_upper(es, n as nat, v, k as nat, best as nat);
            }
            next.push(best + 1);
            if best + 1 != vals[g] {
                changed = true;
            }
            g += 1;
        }
        if !changed {
            proof {
                assert forall|i: int| 0 <= i < es.len() implies longest(
                    es,
                    (#[trigger] es[i]).0,
                    k as nat,
                ) == longest(es, es[i].0, (k + 1) as nat) by {
                    assert(next@[i] == vals@[i]);
                }
                longest_stable(es, k as nat, n as nat);
                assert forall|i: int| 0 <= i < n implies #[trigger] vals@[i] == longest(
                    es,
                    es[i].0,
                    n as nat,
                ) by {
                    assert(longest(es, es[i].0, k as nat) == longest(es, es[i].0, n as nat));
                }
            }
            return vals;
        }
        vals = next;
        k += 1;
    }
    vals
}

// ---------- rendering ----------

/// `n` spaces.
pub open spec fn spaces(n: nat) -> Seq<char> {
    Seq::new(n, |i: int| ' ')
}

/// `s` filled up with spaces to at least `n` characters.
pub open spec fn padded(s: Seq<char>, n: nat) -> Seq<char> {
    if s.len() < n {
        s + spaces((n - s.len()) as nat)
    } else {
        s
    }
}

/// `s` with spaces in front of it, at least `n` characters in all.
pub open spec fn padded_left(s: Seq<char>, n: nat) -> Seq<char> {
    if s.len() < n {
        spaces((n - s.len()) as nat) + s
    } else {
        s
    }
}

fn push_spaces(out: &mut String, n: usize)
    ensures
        final(out)@ == old(out)@ + spaces(n as nat),
{
    let ghost before = out@;
    let mut i: usize = 0;
    assert(before + spaces(0) =~= before);
    while i < n
        invariant
            i <= n,
            out@ == before + spaces(i as nat),
        decreases n - i,
    {
        out.push(' ');
        i += 1;
        assert(out@ =~= before + spaces(i as nat));
    }
}

/// Append `s`, filled up with spaces.
pub fn push_padded(out: &mut String, s: &str, n: usize)
    ensures
        final(out)@ == old(out)@ + padded(s@, n as nat),
{
    let ghost before = out@;
    let len: usize = chars_of(s).len();
    out.push_str(s);
    if len < n {
        push_spaces(out, n - len);
    }
    assert(out@ =~= before + padded(s@, n as nat));
}

/// Append `s`, with spaces in front of it.
pub fn push_padded_left(out: &mut String, s: &str, n: usize)
    ensures
        final(out)@ == old(out)@ + padded_left(s@, n as nat),
{
    let ghost before = out@;
    let len: usize = chars_of(s).len();
    if len < n {
        push_spaces(out, n - len);
    }
    out.push_str(s);
    assert(out@ =~= before + padded_left(s@, n as nat));
}

/// The line of a node.
pub open spec fn node_line(es: Seq<(Seq<char>, Seq<char>)>, n: NodeV) -> Seq<char> {
    "  "@ + padded(n.id, 4) + " "@ + padded(n.op, 16) + " "@ + padded(n.surface, 8) + " "@ + n.post
        + (if sources(es, n.id).len() == 0 {
        Seq::empty()
    } else {
        "  after "@ + joined(sources(es, n.id), ","@)
    }) + (match n.key {
        Some(k) => "  key "@ + k,
        None => Seq::empty(),
    }) + "\n"@
}

pub open spec fn node_lines(es: Seq<(Seq<char>, Seq<char>)>, ns: Seq<NodeV>) -> Seq<char>
    decreases ns.len(),
{
    if ns.len() == 0 {
        Seq::empty()
    } else {
        node_lines(es, ns.drop_last()) + node_line(es, ns.last())
    }
}

/// A plan on one screen.
pub open spec fn render_text(p: PlanV) -> Seq<char> {
    "plan "@ + p.plan_id + "  ("@ + dec(p.nodes.len()) + " nodes, depth "@ + dec(depth_spec(p))
        + ")\n"@ + node_lines(p.edges, p.nodes)
}

fn join_strs(parts: &Vec<&str>, sep: &str) -> (r: String)
    ensures
        r@ == joined(str_views(parts@), sep@),
{
    let ghost ps = str_views(parts@);
    let mut out = String::new();
    let mut i: usize = 0;
    assert(out@ =~= joined(ps.take(0), sep@));
    while i < parts.len()
        invariant
            i <= parts@.len(),
            ps == str_views(parts@),
            out@ == joined(ps.take(i as int), sep@),
        decreases parts@.len() - i,
    {
        proof {
            let t = ps.take(i + 1);
            assert(t.drop_last() =~= ps.take(i as int));
            assert(t.last() == parts@[i as int]@);
        }
        if i > 0 {
            out.push_str(sep);
        }
        out.push_str(parts[i]);
        i += 1;
        assert(out@ =~= joined(ps.take(i as int), sep@));
    }
    assert(ps.take(i as int) =~= ps);
    out
}

impl Plan {
    /// The first node of that name.
    pub fn node(&self, id: &str) -> (r: Option<&Node>)
        ensures
            match r {
                Some(n) => find_node(self@.nodes, id@) == Some(n@),
                None => find_node(self@.nodes, id@) is None,
            },
    {
        let ghost s = self@.nodes;
        let mut i: usize = 0;
        while i < self.nodes.len()
            invariant
                i <= self.nodes@.len(),
                s == nodes_view(self.nodes@),
                forall|j: int| 0 <= j < i ==> (#[trigger] s[j]).id != id@,
            decreases self.nodes@.len() - i,
        {
            if same(self.nodes[i].id.as_str(), id) {
                proof {
                    find_node_skip(s, id@, i as int);
                    assert(s.skip(i as int)[0] == s[i as int]);
                }
                return Some(&self.nodes[i]);
            }
            i += 1;
        }
        proof {
            find_node_skip(s, id@, i as int);
        }
        None
    }

    /// The nodes with an edge to `id`.
    pub fn preds_of(&self, id: &str) -> (r: Vec<&str>)
        ensures
            str_views(r@) == sources(self@.edges, id@),
    {
        let ghost es = self@.edges;
        let mut out: Vec<&str> = Vec::new();
        let mut i: usize = 0;
        assert(str_views(out@) =~= sources(es.take(0), id@));
        while i < self.edges.len()
            invariant
                i <= self.edges@.len(),
                es == edges_view(self.edges@),
                str_views(out@) == sources(es.take(i as int), id@),
            decreases self.edges@.len() - i,
        {
            proof {
                assert(es.take(i + 1).drop_last() =~= es.take(i as int));
                assert(es.take(i + 1).last() == (self.edges@[i as int].0@, self.edges@[i as int].1@));
            }
            if same(self.edges[i].1.as_str(), id) {
                let ghost o = str_views(out@);
                out.push(self.edges[i].0.as_str());
                assert(str_views(out@) =~= o.push(self.edges@[i as int].0@));
            }
            i += 1;
        }
        assert(es.take(i as int) =~= es);
        out
    }

    /// Longest path in nodes: how deep the plan is.
    pub fn depth(&self) -> (r: usize)
        requires
            self.edges@.len() < usize::MAX,
        ensures
            r == depth_spec(self@),
    {
        let ghost es = self@.edges;
        let ghost ids = ids_of(self@.nodes);
        let n: usize = self.edges.len();
        let vals = settled(&self.edges);
        let mut best: usize = 0;
        let mut i: usize = 0;
        while i < self.nodes.len()
            invariant
                i <= self.nodes@.len(),
                n == self.edges@.len() < usize::MAX,
                es == edges_view(self.edges@),
                ids == ids_of(nodes_view(self.nodes@)),
                vals@.len() == n,
                forall|j: int|
                    0 <= j < vals@.len() ==> #[trigger] vals@[j] == longest(es, es[j].0, n as nat),
                best == deepest(es, ids.take(i as int), (n + 1) as nat),
            decreases self.nodes@.len() - i,
        {
            let d: usize = best_into(&self.edges, &vals, self.nodes[i].id.as_str(), Ghost(n as nat));
            proof {
                longest_in_bound(es, n as nat, self.nodes@[i as int].id@, n as nat);
                assert(ids.take(i + 1).drop_last() =~= ids.take(i as int));
                assert(ids.take(i + 1).last() == self.nodes@[i as int].id@);
            }
            if d + 1 > best {
                best = d + 1;
            }
            i += 1;
        }
        assert(ids.take(i as int) =~= ids);
        best
    }

    fn push_line(&self, n: &Node, out: &mut String)
        ensures
            final(out)@ == old(out)@ + node_line(self@.edges, n@),
    {
        let ghost before = out@;
        let ghost es = self@.edges;
        let preds = self.preds_of(n.id.as_str());
        out.push_str("  ");
        push_padded(out, n.id.as_str(), 4);
        out.push_str(" ");
        push_padded(out, n.op.as_str(), 16);
        out.push_str(" ");
        push_padded(out, n.surface.as_str(), 8);
        out.push_str(" ");
        out.push_str(n.post.as_str());
        let ghost head = out@;
        assert(head =~= before + ("  "@ + padded(n@.id, 4) + " "@ + padded(n@.op, 16) + " "@ + padded(
            n@.surface,
            8,
        ) + " "@ + n@.post));
        assert(str_views(preds@).len() == preds@.len());
        if preds.len() > 0 {
            out.push_str("  after ");
            out.push_str(join_strs(&preds, ",").as_str());
        }
        let ghost mid = out@;
        assert(mid =~= head + (if sources(es, n@.id).len() == 0 {
            Seq::empty()
        } else {
            "  after "@ + joined(sources(es, n@.id), ","@)
        }));
        match &n.key {
            Some(k) => {
                out.push_str("  key ");
                out.push_str(k.as_str());
            },
            None => {},
        }
        assert(out@ =~= mid + (match n@.key {
            Some(k) => "  key "@ + k,
            None => Seq::empty(),
        }));
        out.push_str("\n");
        assert(out@ =~= before + node_line(es, n@));
    }

    /// A one-screen rendering for logs and the report.
    pub fn render(&self) -> (r: String)
        requires
            self.edges@.len() < usize::MAX,
        ensures
            r@ == render_text(self@),
    {
        let mut out = String::new();
        out.push_str("plan ");
        out.push_str(self.plan_id.as_str());
        out.push_str("  (");
        push_dec(&mut out, self.nodes.len() as u128);
        out.push_str(" nodes, depth ");
        push_dec(&mut out, self.depth() as u128);
        out.push_str(")\n");
        let ghost head = out@;
        let ghost es = self@.edges;
        let ghost ns = self@.nodes;
        let mut i: usize = 0;
        assert(out@ =~= head + node_lines(es, ns.take(0)));
        while i < self.nodes.len()
            invariant
                i <= self.nodes@.len(),
                es == self@.edges,
                ns == nodes_view(self.nodes@),
                out@ == head + node_lines(es, ns.take(i as int)),
            decreases self.nodes@.len() - i,
        {
            let n = &self.nodes[i];
            self.push_line(n, &mut out);
            proof {
                assert(ns.take(i + 1).drop_last() =~= ns.take(i as int));
                assert(ns.take(i + 1).last() == n@);
            }
            i += 1;
            assert(out@ =~= head + node_lines(es, ns.take(i as int)));
        }
        assert(ns.take(i as int) =~= ns);
        assert(out@ =~= render_text(self@));
        out
    }
}

} // verus!
