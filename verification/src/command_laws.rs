//! What a command says yes to, how it ends, and what is kept of a run.

use crate::cli::{
    absent, answered, around, fail_json, leaving, leaving_ops, lint_fail, mentioned, missing_fail,
    obstacle, offered, on_screen, stands_in, surface_fail, verdict, waiting, FailV,
};
use crate::config::RunOpts;
use crate::cut::{occurs, replaced, trimmed};
use crate::json::{member, JsonV};
use crate::ledger::{ReceiptV, Status};
use crate::lint::{lint_code, LintErrorV};
use crate::lookup_laws::the_first_entry_counts;
use crate::measured::{made_of, receipt_json, result_view_of};
use crate::object::{keys_ascend, put, put_ok};
use crate::plan::{NodeV, PlanV};
use crate::report::{before, place_run, runs_in_order, MadeV, RunResultV};
use crate::tasks::Expect;
use crate::text::{lt, lt_irreflexive, lt_total, lt_transitive, sort_dedup_ok};
use crate::world::{OpKind, OpV, WorldV};
use vstd::prelude::*;

verus! {

// ---------- before a run ----------

proof fn first_has(xs: Seq<(Seq<char>, u32)>, s: Seq<char>, j: int)
    requires
        0 <= j < xs.len(),
        xs[j].0 == s,
    ensures
        crate::cli::first_of(xs).contains(s),
{
    assert(crate::cli::first_of(xs)[j] == s);
}

proof fn mentioned_has(os: Seq<OpV>, i: int, s: Seq<char>)
    requires
        0 <= i < os.len(),
        crate::cli::first_of(os[i].surfaces).contains(s),
    ensures
        mentioned(os).contains(s),
    decreases os.len(),
{
    let d = os.drop_last();
    let a = mentioned(d);
    let b = crate::cli::first_of(os.last().surfaces);
    if i < d.len() {
        mentioned_has(d, i, s);
        let k = choose|k: int| 0 <= k < a.len() && a[k] == s;
        assert((a + b)[k] == s);
    } else {
        let k = choose|k: int| 0 <= k < b.len() && b[k] == s;
        assert((a + b)[a.len() + k] == s);
    }
}

proof fn mentioned_only(os: Seq<OpV>, s: Seq<char>) -> (r: (int, int))
    requires
        mentioned(os).contains(s),
    ensures
        0 <= r.0 < os.len(),
        0 <= r.1 < os[r.0].surfaces.len(),
        os[r.0].surfaces[r.1].0 == s,
    decreases os.len(),
{
    if os.len() == 0 {
        (0, 0)
    } else {
        let d = os.drop_last();
        let a = mentioned(d);
        let b = crate::cli::first_of(os.last().surfaces);
        let k = choose|k: int| 0 <= k < (a + b).len() && (a + b)[k] == s;
        if k < a.len() {
            assert(a[k] == s);
            let (i, j) = mentioned_only(d, s);
            (i, j)
        } else {
            assert(b[k - a.len()] == s);
            (os.len() - 1, k - a.len())
        }
    }
}

/// An app offers the surfaces that its operations are on, and no others.
pub proof fn an_app_offers_what_its_operations_are_on(w: WorldV, s: Seq<char>, i: int, j: int)
    ensures
        0 <= i < w.ops.len() && 0 <= j < w.ops[i].surfaces.len() && w.ops[i].surfaces[j].0 == s
            ==> offered(w).contains(s),
        offered(w).contains(s) ==> exists|x: int, y: int|
            0 <= x < w.ops.len() && 0 <= y < w.ops[x].surfaces.len() && (
            #[trigger] w.ops[x].surfaces[y]).0 == s,
{
    sort_dedup_ok(mentioned(w.ops));
    if 0 <= i < w.ops.len() && 0 <= j < w.ops[i].surfaces.len() && w.ops[i].surfaces[j].0 == s {
        first_has(w.ops[i].surfaces, s, j);
        mentioned_has(w.ops, i, s);
    }
    if offered(w).contains(s) {
        let (x, y) = mentioned_only(w.ops, s);
        assert(w.ops[x].surfaces[y].0 == s);
    }
}

/// What is asked for and not there is told, in the order it was asked for.
pub proof fn what_is_not_there_is_told(asked: Seq<Seq<char>>, there: Seq<Seq<char>>)
    ensures
        absent(asked, there) == asked.filter(|s: Seq<char>| !there.contains(s)),
    decreases asked.len(),
{
    reveal(Seq::filter);
    if asked.len() > 0 {
        what_is_not_there_is_told(asked.drop_last(), there);
    }
}

/// A refusal says what was not there and what is.
pub proof fn a_refusal_of_surfaces_names_them(unknown: Seq<Seq<char>>, there: Seq<Seq<char>>)
    ensures
        surface_fail(unknown, there).exit is WantsRejected,
        surface_fail(unknown, there).code == "unknown_surface"@,
        member(surface_fail(unknown, there).detail, "available"@) == Some(
            JsonV::List(there.map_values(|x: Seq<char>| JsonV::Str(x))),
        ),
        member(surface_fail(unknown, there).detail, "unknown"@) == Some(
            JsonV::List(unknown.map_values(|x: Seq<char>| JsonV::Str(x))),
        ),
        missing_fail(unknown).exit is WantsRejected,
        missing_fail(unknown).code == "missing_parameters"@,
        member(missing_fail(unknown).detail, "params"@) == Some(
            JsonV::List(unknown.map_values(|x: Seq<char>| JsonV::Str(x))),
        ),
{
    reveal_strlit("available");
    reveal_strlit("unknown");
    assert("available"@.len() == 9 && "unknown"@.len() == 7);
    let xs = seq![
        ("available"@, crate::cli::words_json(there)),
        ("unknown"@, crate::cli::words_json(unknown)),
    ];
    the_first_entry_counts(xs, "available"@, 0);
    the_first_entry_counts(xs, "unknown"@, 1);
    let ys = seq![("params"@, crate::cli::words_json(unknown))];
    the_first_entry_counts(ys, "params"@, 0);
}

/// A refusal of wants gives the code of each error, in their order.
pub proof fn a_refusal_of_wants_gives_every_code(es: Seq<LintErrorV>, i: int)
    ensures
        lint_fail(es).exit is WantsRejected,
        lint_fail(es).code == "wants_rejected"@,
        member(lint_fail(es).detail, "codes"@) matches Some(JsonV::List(cs)) && cs.len() == es.len()
            && (0 <= i < es.len() ==> cs[i] == JsonV::Str(lint_code(es[i]))),
        member(lint_fail(es).detail, "errors"@) matches Some(JsonV::List(cs)) && cs.len()
            == es.len() && (0 <= i < es.len() ==> cs[i] == crate::cli::lint_entry(es[i])),
{
    reveal_strlit("codes");
    reveal_strlit("errors");
    assert("codes"@.len() == 5 && "errors"@.len() == 6);
    let xs = seq![
        ("codes"@, crate::cli::words_json(es.map_values(|e: LintErrorV| lint_code(e)))),
        ("errors"@, JsonV::List(es.map_values(|e: LintErrorV| crate::cli::lint_entry(e)))),
    ];
    the_first_entry_counts(xs, "codes"@, 0);
    the_first_entry_counts(xs, "errors"@, 1);
}

/// What is read before saying yes counts the steps that leave, those that wait, and those that
/// need a screen.
pub proof fn the_steps_are_counted(ns: Seq<NodeV>)
    ensures
        leaving(ns) == ns.filter(|n: NodeV| n.external).len(),
        leaving_ops(ns) == ns.filter(|n: NodeV| n.external).map_values(|n: NodeV| n.op),
        waiting(ns) == ns.filter(|n: NodeV| n.kind == OpKind::Event).len(),
        on_screen(ns) == ns.filter(
            |n: NodeV| n.surface == "a11y"@ || n.surface == "pixels"@,
        ).len(),
    decreases ns.len(),
{
    reveal(Seq::filter);
    let p = |n: NodeV| n.external;
    let f = |n: NodeV| n.op;
    if ns.len() > 0 {
        let d = ns.drop_last();
        the_steps_are_counted(d);
        if ns.last().external {
            assert(ns.filter(p) == d.filter(p).push(ns.last()));
            assert(d.filter(p).push(ns.last()).map_values(f) =~= d.filter(p).map_values(f).push(
                ns.last().op,
            ));
        }
    } else {
        assert(ns.filter(p).map_values(f) =~= Seq::<Seq<char>>::empty());
    }
}

proof fn none_leave(ns: Seq<NodeV>)
    requires
        forall|i: int| 0 <= i < ns.len() ==> !(#[trigger] ns[i]).external,
    ensures
        leaving(ns) == 0,
    decreases ns.len(),
{
    if ns.len() > 0 {
        let d = ns.drop_last();
        assert forall|i: int| 0 <= i < d.len() implies !(#[trigger] d[i]).external by {
            assert(d[i] == ns[i]);
        }
        assert(!ns[ns.len() - 1].external);
        none_leave(d);
    }
}

proof fn one_leaves(ns: Seq<NodeV>, i: int)
    requires
        0 <= i < ns.len(),
        ns[i].external,
    ensures
        leaving(ns) > 0,
    decreases ns.len(),
{
    if i < ns.len() - 1 {
        one_leaves(ns.drop_last(), i);
    }
}

/// A plan may run where there is something to run against and either nobody outside is touched or
/// somebody said yes; a plan that leaves the system unasked is refused, and one without an app
/// cannot be reached.
pub proof fn when_a_plan_may_run(offline: bool, yes: bool, p: PlanV, i: int)
    ensures
        offline ==> (obstacle(offline, yes, p) matches Some(f) && f.exit is Unreachable),
        !offline && yes ==> obstacle(offline, yes, p) is None,
        !offline && !yes && 0 <= i < p.nodes.len() && p.nodes[i].external ==> (obstacle(
            offline,
            yes,
            p,
        ) matches Some(f) && f.exit is Refused && f.code == "needs_confirmation"@),
        !offline && (forall|k: int| 0 <= k < p.nodes.len() ==> !(#[trigger] p.nodes[k]).external)
            ==> obstacle(offline, yes, p) is None,
{
    if 0 <= i < p.nodes.len() && p.nodes[i].external {
        one_leaves(p.nodes, i);
    }
    if forall|k: int| 0 <= k < p.nodes.len() ==> !(#[trigger] p.nodes[k]).external {
        none_leave(p.nodes);
    }
}

// ---------- answers ----------

/// The text stands nowhere in the first with the separator behind it.
pub open spec fn first_at(a: Seq<char>, t: Seq<char>, b: Seq<char>) -> bool {
    forall|j: int|
        0 <= j < a.len() ==> !(#[trigger] t.is_prefix_of((a + t + b).skip(j)))
}

proof fn around_first(a: Seq<char>, t: Seq<char>, b: Seq<char>)
    requires
        t.len() > 0,
        first_at(a, t, b),
    ensures
        around(a + t + b, t) == Some((a, b)),
    decreases a.len(),
{
    let s = a + t + b;
    if a.len() == 0 {
        assert(s.subrange(0, t.len() as int) =~= t);
        assert(s.skip(t.len() as int) =~= b);
        assert(a =~= Seq::<char>::empty());
    } else {
        assert(s.skip(0) =~= s);
        assert(!t.is_prefix_of(s.skip(0)));
        let c = a.drop_first();
        assert(s.drop_first() =~= c + t + b);
        assert forall|j: int| 0 <= j < c.len() implies !(#[trigger] t.is_prefix_of(
            (c + t + b).skip(j),
        )) by {
            assert((c + t + b).skip(j) =~= s.skip(j + 1));
            assert(!t.is_prefix_of(s.skip(j + 1)));
        }
        around_first(c, t, b);
        assert(seq![s[0]] + c =~= a);
    }
}

/// An answer puts the new in the place of the old, in every want; where no want holds the old, it
/// is refused, and so is what is no answer at all.
pub proof fn an_answer_replaces_the_old(
    wants: Seq<Seq<char>>,
    a: Seq<char>,
    b: Seq<char>,
    i: int,
    k: int,
)
    requires
        first_at(a, "=>"@, b),
    ensures
        0 <= k < wants.len() && occurs(wants[k], trimmed(a)) ==> (answered(
            wants,
            seq![a + "=>"@ + b],
        ) matches Ok(ws) && ws.len() == wants.len() && (0 <= i < wants.len() ==> ws[i] == replaced(
            wants[i],
            trimmed(a),
            trimmed(b),
        ))),
        (forall|j: int| 0 <= j < wants.len() ==> !occurs(#[trigger] wants[j], trimmed(a)))
            ==> answered(wants, seq![a + "=>"@ + b]) is Err,
        answered(wants, Seq::empty()) == Ok::<Seq<Seq<char>>, FailV>(wants),
{
    reveal_strlit("=>");
    assert("=>"@.len() == 2);
    let s = a + "=>"@ + b;
    around_first(a, "=>"@, b);
    assert(seq![s].drop_last() =~= Seq::<Seq<char>>::empty());
    assert(seq![s].last() == s);
    assert(answered(wants, seq![s].drop_last()) == Ok::<Seq<Seq<char>>, FailV>(wants));
    if 0 <= k < wants.len() && occurs(wants[k], trimmed(a)) {
        assert(stands_in(wants, trimmed(a)));
    }
}

// ---------- the end ----------

/// A failure says that it is one, which, and why; what else there is to say stands beside it.
pub proof fn a_failure_says_which(f: FailV, own: Seq<(Seq<char>, JsonV)>, other: Seq<char>)
    requires
        f.body == Some(JsonV::Obj(own)) || (f.body is None && own.len() == 0),
        keys_ascend(own),
    ensures
        member(fail_json(f), "ok"@) == Some(JsonV::Bool(false)),
        member(fail_json(f), "code"@) == Some(JsonV::Str(f.code)),
        member(fail_json(f), "message"@) == Some(JsonV::Str(f.message)),
        !(f.detail is Null) ==> member(fail_json(f), "detail"@) == Some(f.detail),
        other != "ok"@ && other != "code"@ && other != "message"@ && other != "detail"@ ==> member(
            fail_json(f),
            other,
        ) == crate::json::entry(own, other),
{
    reveal_strlit("ok");
    reveal_strlit("code");
    reveal_strlit("message");
    reveal_strlit("detail");
    assert("ok"@.len() == 2 && "code"@.len() == 4 && "message"@.len() == 7 && "detail"@.len() == 6);
    assert(own =~= match f.body {
        Some(JsonV::Obj(xs)) => xs,
        _ => Seq::empty(),
    });
    let no = JsonV::Bool(false);
    let code = JsonV::Str(f.code);
    let msg = JsonV::Str(f.message);
    let a = put(own, "ok"@, no);
    let b = put(a, "code"@, code);
    let c = put(b, "message"@, msg);
    put_ok(own, "ok"@, no, other);
    put_ok(a, "code"@, code, "ok"@);
    put_ok(a, "code"@, code, other);
    put_ok(b, "message"@, msg, "ok"@);
    put_ok(b, "message"@, msg, "code"@);
    put_ok(b, "message"@, msg, other);
    put_ok(c, "detail"@, f.detail, "ok"@);
    put_ok(c, "detail"@, f.detail, "code"@);
    put_ok(c, "detail"@, f.detail, "message"@);
    put_ok(c, "detail"@, f.detail, other);
}

/// A run ends a command as its status says, with its own words.
pub proof fn a_run_ends_as_its_status_says(r: ReceiptV)
    ensures
        r.status is Committed <==> verdict(r) is Ok,
        r.status is NeedThink ==> (verdict(r) matches Err(f) && f.exit is NeedsAnswer && (
        r.yield_reason matches Some(t) ==> f.message == t)),
        r.status is Error ==> (verdict(r) matches Err(f) && f.exit is RunFailed && (r.error
            matches Some(t) ==> f.message == t)),
{
}

// ---------- what is kept ----------

/// What is kept of a run is what its receipt says and what was found in the world.
pub proof fn a_result_is_of_its_receipt(
    task: Seq<char>,
    expect: Expect,
    arm: Seq<char>,
    run: u32,
    r: ReceiptV,
    snapshot: JsonV,
    double_sends: usize,
    made: MadeV,
)
    ensures
        ({
            let k = result_view_of(task, expect, arm, run, r, snapshot, double_sends, made);
            &&& k.task == task && k.arm == arm && k.run == run && k.made == made
            &&& k.status == (match r.status {
                Status::Committed => "committed"@,
                Status::NeedThink => "need_think"@,
                Status::Error => "error"@,
            })
            &&& k.samples == r.samples && k.error == r.error
            &&& r.tokens_in <= u64::MAX ==> k.tokens_in == r.tokens_in
            &&& r.tokens_out <= u64::MAX ==> k.tokens_out == r.tokens_out
            &&& r.wall_ms <= u128::MAX ==> k.wall_ms == r.wall_ms
            &&& r.plan_ms <= u128::MAX ==> k.plan_ms == r.plan_ms
            &&& r.run_ms <= u128::MAX ==> k.run_ms == r.run_ms
            &&& r.busy_ms <= u128::MAX ==> (k.busy_ms matches Some(b) && b == r.busy_ms)
            &&& r.max_parallel <= usize::MAX ==> k.max_parallel == r.max_parallel
            &&& k.max_parallel_by_surface == r.max_parallel_by_surface
            &&& r.forks_taken <= usize::MAX ==> k.forks == r.forks_taken
            &&& k.double_sends == double_sends && k.snapshot == snapshot
            &&& k.receipt == receipt_json(r)
            &&& k.correct <==> forall|i: int|
                0 <= i < k.checks.len() ==> (#[trigger] k.checks[i]).ok
        }),
{
}

/// A run is labelled with the planner that it had, and names a model only where it used one.
pub proof fn a_run_names_the_model_it_used(
    title: Seq<char>,
    arm: Seq<char>,
    r: ReceiptV,
    intent: JsonV,
    cache_hit: bool,
    opts: RunOpts,
    base_url: Seq<char>,
)
    ensures
        ({
            let m = made_of(title, arm, r, intent, cache_hit, opts, base_url);
            &&& m.task_title == title && m.intent == intent && m.base_url == base_url
            &&& m.latency_ms == opts.latency_ms && m.yield_reason == r.yield_reason
            &&& r.nodes <= usize::MAX ==> m.nodes == r.nodes
            &&& r.depth <= usize::MAX ==> m.depth == r.depth
            &&& arm == "E"@ ==> m.planner == "none"@ && m.model == ""@ && m.effort == ""@
            &&& arm == "D"@ && cache_hit ==> m.planner == "cached-intent"@
            &&& arm == "D"@ && !cache_hit ==> m.planner == opts.planner@ + "-intent"@
            &&& arm == "D"@ && opts.planner@ != "model"@ ==> m.model == ""@ && m.effort == ""@
            &&& arm != "E"@ && arm != "D"@ ==> m.planner == opts.model@ + "@"@ + opts.effort@
                && m.model == opts.model@ && m.effort == opts.effort@
        }),
{
    reveal_strlit("D");
    reveal_strlit("E");
    assert("D"@[0] != "E"@[0]);
}

// ---------- the order of runs ----------

proof fn before_orders(a: RunResultV, b: RunResultV, c: RunResultV)
    ensures
        !before(a, b) && !before(b, c) ==> !before(a, c),
        !before(a, b) || !before(b, a),
{
    lt_total(a.task, b.task);
    lt_total(b.task, c.task);
    lt_total(a.task, c.task);
    lt_total(a.arm, b.arm);
    lt_total(b.arm, c.arm);
    lt_total(a.arm, c.arm);
    lt_irreflexive(a.task);
    lt_irreflexive(a.arm);
    lt_irreflexive(b.task);
    lt_irreflexive(b.arm);
    lt_irreflexive(c.task);
    lt_irreflexive(c.arm);
    if lt(a.task, b.task) && lt(b.task, a.task) {
        lt_transitive(a.task, b.task, a.task);
    }
    if lt(a.arm, b.arm) && lt(b.arm, a.arm) {
        lt_transitive(a.arm, b.arm, a.arm);
    }
    if lt(c.task, b.task) && lt(b.task, a.task) {
        lt_transitive(c.task, b.task, a.task);
    }
    if lt(c.arm, b.arm) && lt(b.arm, a.arm) {
        lt_transitive(c.arm, b.arm, a.arm);
    }
    if lt(a.task, c.task) && lt(c.task, b.task) {
        lt_transitive(a.task, c.task, b.task);
    }
    if lt(b.task, a.task) && lt(a.task, c.task) {
        lt_transitive(b.task, a.task, c.task);
    }
    if lt(b.arm, a.arm) && lt(a.arm, c.arm) {
        lt_transitive(b.arm, a.arm, c.arm);
    }
    if lt(a.arm, c.arm) && lt(c.arm, b.arm) {
        lt_transitive(a.arm, c.arm, b.arm);
    }
    if lt(a.arm, c.arm) && lt(c.arm, a.arm) {
        lt_transitive(a.arm, c.arm, a.arm);
    }
    if lt(a.task, c.task) && lt(c.task, a.task) {
        lt_transitive(a.task, c.task, a.task);
    }
}

/// No run stands before one that comes earlier.
pub open spec fn in_order(rs: Seq<RunResultV>) -> bool {
    forall|i: int, j: int| 0 <= i < j < rs.len() ==> !before(#[trigger] rs[j], #[trigger] rs[i])
}

proof fn placing_keeps_order(s: Seq<RunResultV>, r: RunResultV)
    requires
        in_order(s),
    ensures
        in_order(place_run(s, r)),
        place_run(s, r).to_multiset() == s.to_multiset().insert(r),
        place_run(s, r).len() == s.len() + 1,
    decreases s.len(),
{
    broadcast use vstd::seq_lib::group_to_multiset_ensures;

    let p = place_run(s, r);
    if s.len() == 0 || !before(r, s.last()) {
        assert forall|i: int, j: int| 0 <= i < j < p.len() implies !before(
            #[trigger] p[j],
            #[trigger] p[i],
        ) by {
            if j == s.len() && i < s.len() - 1 {
                before_orders(r, s.last(), s[i]);
                assert(!before(s[s.len() - 1], s[i]));
            }
        }
    } else {
        let d = s.drop_last();
        let x = s.last();
        assert forall|i: int, j: int| 0 <= i < j < d.len() implies !before(
            #[trigger] d[j],
            #[trigger] d[i],
        ) by {
            assert(d[i] == s[i] && d[j] == s[j]);
        }
        placing_keeps_order(d, r);
        let q = place_run(d, r);
        assert(p == q.push(x));
        assert forall|i: int, j: int| 0 <= i < j < p.len() implies !before(
            #[trigger] p[j],
            #[trigger] p[i],
        ) by {
            if j == q.len() {
                assert(q.to_multiset().count(q[i]) > 0) by {
                    assert(q.contains(q[i]));
                }
                if q[i] == r {
                    before_orders(x, r, x);
                } else {
                    assert(d.to_multiset().count(q[i]) > 0);
                    assert(d.contains(q[i]));
                    let k = choose|k: int| 0 <= k < d.len() && d[k] == q[i];
                    assert(!before(s[s.len() - 1], s[k]));
                }
            } else {
                assert(p[j] == q[j] && p[i] == q[i]);
            }
        }
        assert(s =~= d.push(x));
        assert(p.to_multiset() =~= s.to_multiset().insert(r));
    }
}

/// Runs stand by task, then by arm, then by number; none is lost and none added.
pub proof fn runs_stand_in_order(rs: Seq<RunResultV>)
    ensures
        in_order(runs_in_order(rs)),
        runs_in_order(rs).to_multiset() == rs.to_multiset(),
    decreases rs.len(),
{
    broadcast use vstd::seq_lib::group_to_multiset_ensures;

    if rs.len() > 0 {
        let d = rs.drop_last();
        runs_stand_in_order(d);
        placing_keeps_order(runs_in_order(d), rs.last());
        assert(rs =~= d.push(rs.last()));
    } else {
        assert(rs =~= Seq::<RunResultV>::empty());
    }
}

} // verus!
