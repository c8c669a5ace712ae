//! What changed between two plans of the same wants.

use crate::compile_model::{compiles_to, OptionsV};
use crate::compiler::{compile, CompileError, CompileOptions};
use crate::intent::{clone_forks, Intent, IntentV};
use crate::plan::{depth_spec, nodes_view, Node, NodeV, Plan, PlanV};
use crate::text::{
    dec, dec_string, list_has, owned, push_dec, same, sort_dedup, sorted_unique, views,
};
use crate::world::{World, WorldV};
use vstd::prelude::*;

verus! {

/// The operation of the node with an id, or a question mark.
pub open spec fn op_named(ns: Seq<NodeV>, id: Seq<char>) -> Seq<char>
    decreases ns.len(),
{
    if ns.len() == 0 {
        "?"@
    } else if ns.last().id == id {
        ns.last().op
    } else {
        op_named(ns.drop_last(), id)
    }
}

/// An edge by the operations it joins. Node ids differ from one compilation to the next; what is
/// done does not.
pub open spec fn edge_text(p: PlanV, e: (Seq<char>, Seq<char>)) -> Seq<char> {
    op_named(p.nodes, e.0) + " -> "@ + op_named(p.nodes, e.1)
}

/// The order that a plan asks for, each pair of operations once.
pub open spec fn signature(p: PlanV) -> Seq<Seq<char>> {
    sort_dedup(p.edges.map_values(|e: (Seq<char>, Seq<char>)| edge_text(p, e)))
}

/// What stands in one list and not in another, with words before it.
pub open spec fn only_in(a: Seq<Seq<char>>, b: Seq<Seq<char>>, words: Seq<char>) -> Seq<Seq<char>>
    decreases a.len(),
{
    if a.len() == 0 {
        Seq::empty()
    } else if b.contains(a.last()) {
        only_in(a.drop_last(), b, words)
    } else {
        only_in(a.drop_last(), b, words).push(words + a.last())
    }
}

/// Two numbers that differ, in words.
pub open spec fn unlike(a: nat, b: nat, what: Seq<char>) -> Seq<Seq<char>> {
    if a == b {
        Seq::empty()
    } else {
        seq![dec(a) + " "@ + what + " one way, "@ + dec(b) + " the other"@]
    }
}

/// What changed between two plans of the same wants.
pub open spec fn diff(a: PlanV, b: PlanV) -> Seq<Seq<char>> {
    unlike(a.nodes.len(), b.nodes.len(), "steps"@) + unlike(
        depth_spec(a),
        depth_spec(b),
        "deep"@,
    ) + only_in(signature(a), signature(b), "only in the declared order: "@) + only_in(
        signature(b),
        signature(a),
        "only in the reversed order: "@,
    )
}

fn find_op(nodes: &Vec<Node>, id: &str) -> (r: String)
    ensures
        r@ == op_named(nodes_view(nodes@), id@),
{
    let ghost ns = nodes_view(nodes@);
    let mut i: usize = nodes.len();
    assert(ns.take(i as int) =~= ns);
    while i > 0
        invariant
            i <= nodes@.len() == ns.len(),
            ns == nodes_view(nodes@),
            op_named(ns, id@) == op_named(ns.take(i as int), id@),
        decreases i,
    {
        assert(ns.take(i as int).last() == nodes@[i - 1]@);
        assert(ns.take(i as int).drop_last() =~= ns.take(i - 1));
        if same(nodes[i - 1].id.as_str(), id) {
            return nodes[i - 1].op.clone();
        }
        i -= 1;
    }
    owned("?")
}

fn sign(p: &Plan) -> (r: Vec<String>)
    ensures
        views(r@) == signature(p@),
{
    let ghost es = p@.edges;
    let ghost all = es.map_values(|e: (Seq<char>, Seq<char>)| edge_text(p@, e));
    let mut out: Vec<String> = Vec::new();
    let mut i: usize = 0;
    assert(es.len() == p.edges@.len());
    assert(views(out@) =~= all.take(0));
    while i < p.edges.len()
        invariant
            i <= p.edges@.len() == es.len(),
            es.len() == all.len(),
            es == p@.edges,
            all == es.map_values(|e: (Seq<char>, Seq<char>)| edge_text(p@, e)),
            views(out@) == all.take(i as int),
        decreases p.edges@.len() - i,
    {
        let mut t = find_op(&p.nodes, p.edges[i].0.as_str());
        t.push_str(" -> ");
        let to = find_op(&p.nodes, p.edges[i].1.as_str());
        t.push_str(to.as_str());
        proof {
            assert(es[i as int] == (p.edges@[i as int].0@, p.edges@[i as int].1@));
            assert(all[i as int] == t@);
        }
        let ghost o = views(out@);
        out.push(t);
        i += 1;
        assert(views(out@) =~= o.push(t@));
        assert(views(out@) =~= all.take(i as int));
    }
    assert(all.take(i as int) =~= all);
    sorted_unique(&out)
}

fn push_only(out: &mut Vec<String>, a: &Vec<String>, b: &Vec<String>, words: &str)
    ensures
        views(final(out)@) == views(old(out)@) + only_in(views(a@), views(b@), words@),
{
    let ghost before = views(out@);
    let ghost av = views(a@);
    let ghost bv = views(b@);
    let mut i: usize = 0;
    assert(views(out@) =~= before + only_in(av.take(0), bv, words@));
    while i < a.len()
        invariant
            i <= a@.len() == av.len(),
            av == views(a@),
            bv == views(b@),
            views(out@) == before + only_in(av.take(i as int), bv, words@),
        decreases a@.len() - i,
    {
        proof {
            assert(av.take(i + 1).drop_last() =~= av.take(i as int));
            assert(av.take(i + 1).last() == a@[i as int]@);
        }
        let ghost o = views(out@);
        if !list_has(b, a[i].as_str()) {
            let mut t = owned(words);
            t.push_str(a[i].as_str());
            out.push(t);
            assert(views(out@) =~= o.push(t@));
        }
        i += 1;
        assert(views(out@) =~= before + only_in(av.take(i as int), bv, words@));
    }
    assert(av.take(i as int) =~= av);
}

fn push_unlike(out: &mut Vec<String>, a: usize, b: usize, what: &str)
    ensures
        views(final(out)@) == views(old(out)@) + unlike(a as nat, b as nat, what@),
{
    let ghost before = views(out@);
    if a != b {
        let mut t = dec_string(a as u128);
        t.push_str(" ");
        t.push_str(what);
        t.push_str(" one way, ");
        push_dec(&mut t, b as u128);
        t.push_str(" the other");
        out.push(t);
        assert(views(out@) =~= before + seq![t@]);
    } else {
        assert(before + Seq::<Seq<char>>::empty() =~= before);
    }
}

/// What changed between two compilations of the same wants. Keys are content-addressed, so the
/// same work has the same key whatever order it was found in; node ids are not.
pub fn plan_diff(a: &Plan, b: &Plan) -> (r: Vec<String>)
    requires
        a.edges@.len() < usize::MAX,
        b.edges@.len() < usize::MAX,
    ensures
        views(r@) == diff(a@, b@),
{
    let mut out: Vec<String> = Vec::new();
    assert(a@.nodes.len() == a.nodes@.len() && b@.nodes.len() == b.nodes@.len());
    assert(views(out@) =~= Seq::<Seq<char>>::empty());
    push_unlike(&mut out, a.nodes.len(), b.nodes.len(), "steps");
    assert(views(out@) =~= unlike(a@.nodes.len(), b@.nodes.len(), "steps"@));
    push_unlike(&mut out, a.depth(), b.depth(), "deep");
    let sa = sign(a);
    let sb = sign(b);
    push_only(&mut out, &sa, &sb, "only in the declared order: ");
    push_only(&mut out, &sb, &sa, "only in the reversed order: ");
    out
}

// ---------- trying the other order ----------

/// The same intent with its wants the other way round.
pub open spec fn reversed(i: IntentV) -> IntentV {
    IntentV { wants: i.wants.reverse(), ..i }
}

/// The same intent with its wants the other way round.
pub fn reverse_wants(i: &Intent) -> (r: Intent)
    ensures
        r@ == reversed(i@),
{
    let ghost ws = views(i.wants@);
    let mut out: Vec<String> = Vec::new();
    let mut k: usize = i.wants.len();
    assert(views(out@) =~= ws.skip(k as int).reverse());
    while k > 0
        invariant
            k <= i.wants@.len() == ws.len(),
            ws == views(i.wants@),
            views(out@) == ws.skip(k as int).reverse(),
        decreases k,
    {
        let w = i.wants[k - 1].clone();
        let ghost o = views(out@);
        out.push(w);
        proof {
            assert(ws[k - 1] == w@);
            assert(views(out@) =~= o.push(w@));
            assert(ws.skip(k - 1).reverse() =~= ws.skip(k as int).reverse().push(w@));
        }
        k -= 1;
    }
    assert(ws.skip(0) =~= ws);
    Intent {
        goal: i.goal.clone(),
        wants: out,
        constraints: i.constraints,
        forks: clone_forks(&i.forks),
    }
}

/// What trying the other order showed.
pub enum Tried {
    /// The wants do not compile as they are.
    Refused(CompileError),
    /// The wants do not compile the other way round.
    RefusedReversed(CompileError),
    /// Both compile: the first plan, and what changed.
    Compared(Plan, Vec<String>),
}

/// Whether this is what trying the other order shows.
pub open spec fn shows(i: IntentV, w: WorldV, o: OptionsV, r: Tried) -> bool {
    match r {
        Tried::Refused(e) => compiles_to(i, w, o, Err(e@)),
        Tried::RefusedReversed(e) => (exists|a: PlanV| #[trigger]
            compiles_to(i, w, o, Ok(a))) && compiles_to(reversed(i), w, o, Err(e@)),
        Tried::Compared(a, d) => compiles_to(i, w, o, Ok(a@)) && exists|b: PlanV|
            {
                &&& #[trigger] compiles_to(reversed(i), w, o, Ok(b))
                &&& views(d@) == diff(a@, b)
            },
    }
}

/// Whether an intent compiles to a plan with more edges than can be counted up to.
pub open spec fn too_wide(i: IntentV, w: WorldV, o: OptionsV) -> bool {
    exists|p: PlanV| #[trigger] compiles_to(i, w, o, Ok(p)) && p.edges.len() >= usize::MAX
}

/// Compile the wants, compile them reversed, and compare. A plan that changes when the wants are
/// listed in a different order is a plan that depends on typing order. None where a plan is too
/// wide to be measured.
pub fn try_order(intent: &Intent, world: &World, opts: &CompileOptions) -> (r: Option<Tried>)
    ensures
        r matches Some(t) ==> shows(intent@, world@, opts@, t),
        r is None ==> too_wide(intent@, world@, opts@) || too_wide(
            reversed(intent@),
            world@,
            opts@,
        ),
{
    let a = match compile(intent, world, opts) {
        Ok(p) => p,
        Err(e) => {
            return Some(Tried::Refused(e));
        },
    };
    let other = reverse_wants(intent);
    let b = match compile(&other, world, opts) {
        Ok(p) => p,
        Err(e) => {
            return Some(Tried::RefusedReversed(e));
        },
    };
    assert(a@.edges.len() == a.edges@.len() && b@.edges.len() == b.edges@.len());
    if a.edges.len() == usize::MAX || b.edges.len() == usize::MAX {
        assert(compiles_to(intent@, world@, opts@, Ok(a@)));
        assert(compiles_to(reversed(intent@), world@, opts@, Ok(b@)));
        return None;
    }
    let d = plan_diff(&a, &b);
    assert(compiles_to(reversed(intent@), world@, opts@, Ok(b@)));
    Some(Tried::Compared(a, d))
}

/// A plan does not differ from itself.
pub proof fn a_plan_is_like_itself(p: PlanV)
    ensures
        diff(p, p).len() == 0,
{
    nothing_new(signature(p), signature(p), "only in the declared order: "@);
    nothing_new(signature(p), signature(p), "only in the reversed order: "@);
}

pub proof fn nothing_new(a: Seq<Seq<char>>, b: Seq<Seq<char>>, words: Seq<char>)
    requires
        forall|i: int| 0 <= i < a.len() ==> b.contains(#[trigger] a[i]),
    ensures
        only_in(a, b, words).len() == 0,
    decreases a.len(),
{
    if a.len() > 0 {
        let d = a.drop_last();
        assert forall|i: int| 0 <= i < d.len() implies b.contains(#[trigger] d[i]) by {
            assert(d[i] == a[i]);
        }
        assert(b.contains(a[a.len() - 1]));
        nothing_new(d, b, words);
    }
}

/// Two plans without a difference have as many steps, are as deep, and ask for the same order of
/// operations.
pub proof fn alike_plans_agree(a: PlanV, b: PlanV)
    requires
        diff(a, b).len() == 0,
    ensures
        a.nodes.len() == b.nodes.len(),
        depth_spec(a) == depth_spec(b),
        forall|s: Seq<char>| #[trigger] signature(a).contains(s) <==> signature(b).contains(s),
{
    let x = only_in(signature(a), signature(b), "only in the declared order: "@);
    let y = only_in(signature(b), signature(a), "only in the reversed order: "@);
    assert(diff(a, b).len() == unlike(a.nodes.len(), b.nodes.len(), "steps"@).len() + unlike(
        depth_spec(a),
        depth_spec(b),
        "deep"@,
    ).len() + x.len() + y.len());
    nothing_missing(signature(a), signature(b), "only in the declared order: "@);
    nothing_missing(signature(b), signature(a), "only in the reversed order: "@);
}

proof fn nothing_missing(a: Seq<Seq<char>>, b: Seq<Seq<char>>, words: Seq<char>)
    requires
        only_in(a, b, words).len() == 0,
    ensures
        forall|s: Seq<char>| #[trigger] a.contains(s) ==> b.contains(s),
    decreases a.len(),
{
    if a.len() > 0 {
        let d = a.drop_last();
        nothing_missing(d, b, words);
        assert forall|s: Seq<char>| #[trigger] a.contains(s) implies b.contains(s) by {
            let i = choose|i: int| 0 <= i < a.len() && a[i] == s;
            if i < d.len() {
                assert(d[i] == s);
                assert(d.contains(s));
            }
        }
    }
}

} // verus!
