//! What is written down of a run and of a plan.

use crate::cut::occurs;
use crate::effect::{tool_answer, tool_reply, EffectErrorV, ReplyV};
use crate::json::{json_of, member, JsonV};
use crate::ledger::{EffectSummaryV, ReceiptV, Status};
use crate::lookup_laws::the_first_entry_counts;
use crate::measured::{effect_json, ledger_json, receipt_json};
use crate::plan::{node_line, node_lines, padded, padded_left, render_text, sources, NodeV, PlanV};
use crate::quarters::quarters_text;
use crate::tables::{by_depth, depth_in, place_task};
use crate::text::dec;
use crate::text_laws::a_text_occurs_where_it_stands;
use vstd::prelude::*;

verus! {

// ---------- receipts ----------

proof fn receipt_keys_differ(r: ReceiptV, xs: Seq<(Seq<char>, JsonV)>)
    requires
        receipt_json(r) == JsonV::Obj(xs),
    ensures
        forall|i: int, j: int|
            0 <= i < j < xs.len() ==> (#[trigger] xs[i]).0 != (#[trigger] xs[j]).0,
{
    reveal_strlit("busy_ms");
    reveal_strlit("depth");
    reveal_strlit("effects");
    reveal_strlit("error");
    reveal_strlit("evidence");
    reveal_strlit("forks_taken");
    reveal_strlit("ledger");
    reveal_strlit("max_parallel");
    reveal_strlit("max_parallel_by_surface");
    reveal_strlit("nodes");
    reveal_strlit("plan");
    reveal_strlit("plan_id");
    reveal_strlit("plan_ms");
    reveal_strlit("run_ms");
    reveal_strlit("samples");
    reveal_strlit("status");
    reveal_strlit("tokens_in");
    reveal_strlit("tokens_out");
    reveal_strlit("wall_ms");
    reveal_strlit("yield_reason");
    assert("busy_ms"@.len() == 7);
    assert("depth"@.len() == 5);
    assert("effects"@.len() == 7);
    assert("error"@.len() == 5);
    assert("evidence"@.len() == 8);
    assert("forks_taken"@.len() == 11);
    assert("ledger"@.len() == 6);
    assert("max_parallel"@.len() == 12);
    assert("max_parallel_by_surface"@.len() == 23);
    assert("nodes"@.len() == 5);
    assert("plan"@.len() == 4);
    assert("plan_id"@.len() == 7);
    assert("plan_ms"@.len() == 7);
    assert("run_ms"@.len() == 6);
    assert("samples"@.len() == 7);
    assert("status"@.len() == 6);
    assert("tokens_in"@.len() == 9);
    assert("tokens_out"@.len() == 10);
    assert("wall_ms"@.len() == 7);
    assert("yield_reason"@.len() == 12);
    assert("busy_ms"@[0] != "effects"@[0]);
    assert("busy_ms"@[0] != "plan_id"@[0]);
    assert("effects"@[0] != "plan_id"@[0]);
    assert("busy_ms"@[0] != "plan_ms"@[0]);
    assert("effects"@[0] != "plan_ms"@[0]);
    assert("plan_id"@[5] != "plan_ms"@[5]);
    assert("busy_ms"@[0] != "samples"@[0]);
    assert("effects"@[0] != "samples"@[0]);
    assert("plan_id"@[0] != "samples"@[0]);
    assert("plan_ms"@[0] != "samples"@[0]);
    assert("busy_ms"@[0] != "wall_ms"@[0]);
    assert("effects"@[0] != "wall_ms"@[0]);
    assert("plan_id"@[0] != "wall_ms"@[0]);
    assert("plan_ms"@[0] != "wall_ms"@[0]);
    assert("samples"@[0] != "wall_ms"@[0]);
    assert("depth"@[0] != "error"@[0]);
    assert("depth"@[0] != "nodes"@[0]);
    assert("error"@[0] != "nodes"@[0]);
    assert("ledger"@[0] != "run_ms"@[0]);
    assert("ledger"@[0] != "status"@[0]);
    assert("run_ms"@[0] != "status"@[0]);
    assert("max_parallel"@[0] != "yield_reason"@[0]);
}

/// A receipt is written down as it is.
pub proof fn a_receipt_is_written_down(r: ReceiptV)
    ensures
        member(receipt_json(r), "busy_ms"@) == Some(JsonV::Int(r.busy_ms as int)),
        member(receipt_json(r), "depth"@) == Some(JsonV::Int(r.depth as int)),
        member(receipt_json(r), "effects"@) == Some(JsonV::List(r.effects.map_values(|e: EffectSummaryV| effect_json(e)))),
        member(receipt_json(r), "forks_taken"@) == Some(JsonV::Int(r.forks_taken as int)),
        member(receipt_json(r), "ledger"@) == Some(ledger_json(r.ledger)),
        member(receipt_json(r), "max_parallel"@) == Some(JsonV::Int(r.max_parallel as int)),
        member(receipt_json(r), "nodes"@) == Some(JsonV::Int(r.nodes as int)),
        member(receipt_json(r), "plan"@) == Some(JsonV::Str(r.plan)),
        member(receipt_json(r), "plan_id"@) == Some(JsonV::Str(r.plan_id)),
        member(receipt_json(r), "plan_ms"@) == Some(JsonV::Int(r.plan_ms as int)),
        member(receipt_json(r), "run_ms"@) == Some(JsonV::Int(r.run_ms as int)),
        member(receipt_json(r), "samples"@) == Some(JsonV::Int(r.samples as int)),
        member(receipt_json(r), "tokens_in"@) == Some(JsonV::Int(r.tokens_in as int)),
        member(receipt_json(r), "tokens_out"@) == Some(JsonV::Int(r.tokens_out as int)),
        member(receipt_json(r), "wall_ms"@) == Some(JsonV::Int(r.wall_ms as int)),
        r.error matches Some(e) ==> member(receipt_json(r), "error"@) == Some(JsonV::Str(e)),
        r.error is None ==> member(receipt_json(r), "error"@) == Some(JsonV::Null),
        member(receipt_json(r), "status"@) == Some(
            JsonV::Str(
                match r.status {
                    Status::Committed => "committed"@,
                    Status::NeedThink => "need_think"@,
                    Status::Error => "error"@,
                },
            ),
        ),
{
    let xs = receipt_json(r)->Obj_0;
    receipt_keys_differ(r, xs);
    the_first_entry_counts(xs, "busy_ms"@, 0);
    the_first_entry_counts(xs, "depth"@, 1);
    the_first_entry_counts(xs, "effects"@, 2);
    the_first_entry_counts(xs, "error"@, 3);
    the_first_entry_counts(xs, "forks_taken"@, 5);
    the_first_entry_counts(xs, "ledger"@, 6);
    the_first_entry_counts(xs, "max_parallel"@, 7);
    the_first_entry_counts(xs, "nodes"@, 9);
    the_first_entry_counts(xs, "plan"@, 10);
    the_first_entry_counts(xs, "plan_id"@, 11);
    the_first_entry_counts(xs, "plan_ms"@, 12);
    the_first_entry_counts(xs, "run_ms"@, 13);
    the_first_entry_counts(xs, "samples"@, 14);
    the_first_entry_counts(xs, "status"@, 15);
    the_first_entry_counts(xs, "tokens_in"@, 16);
    the_first_entry_counts(xs, "tokens_out"@, 17);
    the_first_entry_counts(xs, "wall_ms"@, 18);
}

// ---------- plans ----------

/// A node comes after the nodes whose edges end at it.
pub proof fn a_node_comes_after_its_sources(es: Seq<(Seq<char>, Seq<char>)>, id: Seq<char>)
    ensures
        sources(es, id) == es.filter(|e: (Seq<char>, Seq<char>)| e.1 == id).map_values(
            |e: (Seq<char>, Seq<char>)| e.0,
        ),
    decreases es.len(),
{
    reveal(Seq::filter);
    let p = |e: (Seq<char>, Seq<char>)| e.1 == id;
    let f = |e: (Seq<char>, Seq<char>)| e.0;
    if es.len() > 0 {
        let d = es.drop_last();
        a_node_comes_after_its_sources(d, id);
        if es.last().1 == id {
            assert(es.filter(p) == d.filter(p).push(es.last()));
            assert(d.filter(p).push(es.last()).map_values(f) =~= d.filter(p).map_values(f).push(
                es.last().0,
            ));
        }
    } else {
        assert(es.filter(p).map_values(f) =~= Seq::<Seq<char>>::empty());
    }
}

proof fn line_stands(es: Seq<(Seq<char>, Seq<char>)>, ns: Seq<NodeV>, i: int) -> (r: (
    Seq<char>,
    Seq<char>,
))
    requires
        0 <= i < ns.len(),
    ensures
        node_lines(es, ns) == r.0 + node_line(es, ns[i]) + r.1,
    decreases ns.len(),
{
    let d = ns.drop_last();
    let l = node_line(es, ns[i]);
    if i < d.len() {
        let (a, b) = line_stands(es, d, i);
        let last = node_line(es, ns.last());
        assert(a + l + b + last =~= a + l + (b + last));
        (a, b + last)
    } else {
        let e = Seq::<char>::empty();
        assert(node_lines(es, d) + l =~= node_lines(es, d) + l + e);
        (node_lines(es, d), e)
    }
}

proof fn stands_behind(x: Seq<char>, a: Seq<char>, l: Seq<char>, b: Seq<char>)
    ensures
        occurs(x + (a + l + b), l),
{
    assert(x + (a + l + b) =~= (x + a) + l + b);
    a_text_occurs_where_it_stands(x + a, l, b);
}

/// A plan shows every one of its nodes.
pub proof fn a_plan_shows_every_node(p: PlanV, i: int)
    requires
        0 <= i < p.nodes.len(),
    ensures
        occurs(render_text(p), node_line(p.edges, p.nodes[i])),
{
    let (a, b) = line_stands(p.edges, p.nodes, i);
    let x = "plan "@ + p.plan_id + "  ("@ + dec(p.nodes.len()) + " nodes, depth "@ + dec(
        crate::plan::depth_spec(p),
    ) + ")\n"@;
    stands_behind(x, a, node_line(p.edges, p.nodes[i]), b);
    assert(render_text(p) == x + node_lines(p.edges, p.nodes));
}

/// Padding adds spaces, on one side, up to a width; nothing is cut off.
pub proof fn padding_only_adds_spaces(s: Seq<char>, n: nat, i: int)
    ensures
        s.is_prefix_of(padded(s, n)),
        s.is_suffix_of(padded_left(s, n)),
        padded(s, n).len() == if s.len() < n { n } else { s.len() },
        padded_left(s, n).len() == if s.len() < n { n } else { s.len() },
        s.len() <= i < padded(s, n).len() ==> padded(s, n)[i] == ' ',
        0 <= i < padded_left(s, n).len() - s.len() ==> padded_left(s, n)[i] == ' ',
{
    let a = padded(s, n);
    let b = padded_left(s, n);
    assert(a.subrange(0, s.len() as int) =~= s);
    assert(b.subrange(b.len() - s.len(), b.len() as int) =~= s);
}

/// A number of quarters is told exactly.
pub proof fn quarters_are_told_exactly(n: nat)
    ensures
        n % 4 == 0 ==> quarters_text(n) == dec(n / 4),
        n % 4 == 1 ==> quarters_text(n) == dec(n / 4) + ".25"@,
        n % 4 == 2 ==> quarters_text(n) == dec(n / 4) + ".5"@,
        n % 4 == 3 ==> quarters_text(n) == dec(n / 4) + ".75"@,
{
    reveal_strlit("");
    assert(""@.len() == 0);
    assert(n % 4 == 0 ==> quarters_text(n) =~= dec(n / 4));
}

// ---------- replies ----------

/// A tool's value is the answer, a text that is JSON is read, any other text stands for itself,
/// and a failure stays one.
pub proof fn a_tool_answer_is_what_it_says(v: JsonV, x: JsonV, t: Seq<char>, e: EffectErrorV)
    ensures
        tool_reply(v) == ReplyV::Value(x) ==> tool_answer(v) == Ok::<JsonV, EffectErrorV>(x),
        tool_reply(v) == ReplyV::Text(t) && json_of(t) == Ok::<JsonV, Seq<char>>(x) ==> tool_answer(
            v,
        ) == Ok::<JsonV, EffectErrorV>(x),
        tool_reply(v) == ReplyV::Text(t) && json_of(t) is Err ==> tool_answer(v) == Ok::<
            JsonV,
            EffectErrorV,
        >(JsonV::Str(t)),
        tool_reply(v) == ReplyV::Failed(e) ==> tool_answer(v) == Err::<JsonV, EffectErrorV>(e),
{
}

// ---------- tasks by depth ----------

/// From the shallow to the deep.
pub open spec fn deepening(s: Seq<Seq<char>>, depths: Seq<(Seq<char>, u32)>) -> bool {
    forall|i: int, j: int|
        0 <= i < j < s.len() ==> depth_in(depths, #[trigger] s[i]) <= depth_in(
            depths,
            #[trigger] s[j],
        )
}

proof fn placing_keeps_depth(s: Seq<Seq<char>>, x: Seq<char>, depths: Seq<(Seq<char>, u32)>)
    requires
        deepening(s, depths),
    ensures
        deepening(place_task(s, x, depths), depths),
        place_task(s, x, depths).to_multiset() == s.to_multiset().insert(x),
    decreases s.len(),
{
    broadcast use vstd::seq_lib::group_to_multiset_ensures;

    let p = place_task(s, x, depths);
    if s.len() == 0 || depth_in(depths, s.last()) <= depth_in(depths, x) {
        assert forall|i: int, j: int| 0 <= i < j < p.len() implies depth_in(
            depths,
            #[trigger] p[i],
        ) <= depth_in(depths, #[trigger] p[j]) by {
            if j == s.len() {
                if i < s.len() - 1 {
                    assert(depth_in(depths, s[i]) <= depth_in(depths, s[s.len() - 1]));
                }
            }
        }
    } else {
        let d = s.drop_last();
        let y = s.last();
        assert forall|i: int, j: int| 0 <= i < j < d.len() implies depth_in(
            depths,
            #[trigger] d[i],
        ) <= depth_in(depths, #[trigger] d[j]) by {
            assert(d[i] == s[i] && d[j] == s[j]);
        }
        placing_keeps_depth(d, x, depths);
        let q = place_task(d, x, depths);
        assert(p == q.push(y));
        assert forall|i: int, j: int| 0 <= i < j < p.len() implies depth_in(
            depths,
            #[trigger] p[i],
        ) <= depth_in(depths, #[trigger] p[j]) by {
            if j == q.len() {
                assert(q.contains(q[i]));
                assert(q.to_multiset().count(q[i]) > 0);
                if q[i] != x {
                    assert(d.to_multiset().count(q[i]) > 0);
                    assert(d.contains(q[i]));
                    let k = choose|k: int| 0 <= k < d.len() && d[k] == q[i];
                    assert(depth_in(depths, s[k]) <= depth_in(depths, s[s.len() - 1]));
                }
            } else {
                assert(p[j] == q[j] && p[i] == q[i]);
            }
        }
        assert(s =~= d.push(y));
        assert(p.to_multiset() =~= s.to_multiset().insert(x));
    }
}

/// Tasks are told from the shallow to the deep; none is lost and none added.
pub proof fn tasks_are_told_by_depth(xs: Seq<Seq<char>>, depths: Seq<(Seq<char>, u32)>)
    ensures
        deepening(by_depth(xs, depths), depths),
        by_depth(xs, depths).to_multiset() == xs.to_multiset(),
    decreases xs.len(),
{
    broadcast use vstd::seq_lib::group_to_multiset_ensures;

    if xs.len() > 0 {
        let d = xs.drop_last();
        tasks_are_told_by_depth(d, depths);
        placing_keeps_depth(by_depth(d, depths), xs.last(), depths);
        assert(xs =~= d.push(xs.last()));
    } else {
        assert(xs =~= Seq::<Seq<char>>::empty());
    }
}

} // verus!
