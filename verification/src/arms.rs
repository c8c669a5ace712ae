//! What the arms of the benchmark decide round their runs.

use crate::compile_model::{compiles_to, CompileErrorV, OptionsV};
use crate::compiler::{compile, compile_error_text, CompileOptions};
use crate::cut::{join, joined};
use crate::events::{AppEvent, AppEventV};
use crate::intent::{Intent, IntentV};
use crate::json::json_text;
use crate::loops::no_plan;
use crate::plan::{padded, padded_left, push_padded, push_padded_left, Plan, PlanV};
use crate::report::{RunResult, RunResultV};
use crate::tasks::{checks_view, Check, CheckV};
use crate::text::{dec, dec_string, owned, push_dec, same, views};
use crate::world::{World, WorldV};
use vstd::prelude::*;

verus! {

// ---------- the planned arm ----------

/// The name of a plan for a task.
pub fn plan_name(task: &str, run_id: &str) -> (r: String)
    ensures
        r@ == task@ + "-"@ + run_id@,
{
    let mut t = owned(task);
    t.push_str("-");
    t.push_str(run_id);
    t
}

/// The plan of nothing under a name.
pub open spec fn bare(plan_id: Seq<char>, goal: Seq<char>) -> PlanV {
    PlanV { plan_id, goal, nodes: Seq::empty(), edges: Seq::empty(), gates: Seq::empty() }
}

/// How an arm ends before anything ran: under which plan, and why.
pub struct Unrun {
    pub plan: Plan,
    pub error: String,
}

/// Whether this is what an intent comes to: its compiled plan, or an empty one and what the
/// compiler said.
pub open spec fn readied(i: IntentV, w: WorldV, o: OptionsV, r: Result<Plan, Unrun>) -> bool {
    match r {
        Ok(p) => compiles_to(i, w, o, Ok(p@)),
        Err(u) => u.plan@ == bare(o.plan_id, i.goal) && exists|e: CompileErrorV| #[trigger]
            compiles_to(i, w, o, Err(e)) && u.error@ == "compile: "@ + compile_error_text(e),
    }
}

/// Compile an intent for a run of the planned arm.
pub fn ready(intent: &Intent, world: &World, opts: &CompileOptions) -> (r: Result<Plan, Unrun>)
    ensures
        readied(intent@, world@, opts@, r),
{
    match compile(intent, world, opts) {
        Ok(p) => Ok(p),
        Err(e) => {
            assert(compiles_to(intent@, world@, opts@, Err(e@)));
            let mut t = owned("compile: ");
            t.push_str(e.to_string().as_str());
            Err(
                Unrun {
                    plan: no_plan(opts.plan_id.clone(), intent.goal.as_str()),
                    error: t,
                },
            )
        },
    }
}

/// How the planned arm ends where the planner gave no usable intent. The task's own wants do not
/// stand in for it.
pub fn unplanned(plan_id: &str, goal: &str, error: &str) -> (r: Unrun)
    ensures
        r.plan@ == bare(plan_id@, goal@),
        r.error@ == "planner: "@ + error@,
{
    let mut t = owned("planner: ");
    t.push_str(error);
    Unrun { plan: no_plan(owned(plan_id), goal), error: t }
}

/// How an arm ends that nothing here can run.
pub fn unwired(task: &str, goal: &str, arm: &str) -> (r: Unrun)
    ensures
        r.plan@ == bare(task@ + "-"@ + arm@, goal@),
        r.error@ == "arm "@ + arm@ + " is not wired in this build (needs a model client)"@,
{
    let mut t = owned("arm ");
    t.push_str(arm);
    t.push_str(" is not wired in this build (needs a model client)");
    Unrun { plan: no_plan(plan_name(task, arm), goal), error: t }
}

/// What follows the planner's answer to a question that a run stopped with.
pub enum Onward {
    /// Run the rest of this plan.
    Resume(Plan),
    /// The question stays open, for this reason.
    Open(String),
    /// The answer does not compile.
    Broken(String),
}

/// Whether this is what follows an answer.
pub open spec fn follows(
    answer: Result<IntentV, Seq<char>>,
    w: WorldV,
    o: OptionsV,
    r: Onward,
) -> bool {
    match (answer, r) {
        (Err(e), Onward::Open(t)) => t@ == "fork answer: "@ + e,
        (Ok(i), Onward::Resume(p)) => compiles_to(i, w, o, Ok(p@)),
        (Ok(i), Onward::Broken(t)) => exists|e: CompileErrorV| #[trigger]
            compiles_to(i, w, o, Err(e)) && t@ == "compile: "@ + compile_error_text(e),
        _ => false,
    }
}

pub open spec fn answer_view(a: Result<Intent, String>) -> Result<IntentV, Seq<char>> {
    match a {
        Ok(i) => Ok(i@),
        Err(e) => Err(e@),
    }
}

/// What follows the planner's answer: the same wants with the ambiguity resolved are compiled
/// again under the same name, so that what is done keeps its keys; a failed answer leaves the
/// question open.
pub fn after_answer(
    answer: &Result<Intent, String>,
    world: &World,
    opts: &CompileOptions,
) -> (r: Onward)
    ensures
        follows(answer_view(*answer), world@, opts@, r),
{
    match answer {
        Err(e) => {
            let mut t = owned("fork answer: ");
            t.push_str(e.as_str());
            Onward::Open(t)
        },
        Ok(i) => match ready(i, world, opts) {
            Ok(p) => Onward::Resume(p),
            Err(u) => Onward::Broken(u.error),
        },
    }
}

// ---------- the payer ----------

/// The ids to pay after some events: every invoice that appeared, once.
pub open spec fn owing(es: Seq<AppEventV>, paid: Seq<u64>) -> Seq<u64>
    decreases es.len(),
{
    if es.len() == 0 {
        Seq::empty()
    } else {
        let before = owing(es.drop_last(), paid);
        let e = es.last();
        if e.kind == "invoice.created"@ && !paid.contains(e.id) && !before.contains(e.id) {
            before.push(e.id)
        } else {
            before
        }
    }
}

pub open spec fn app_events_view(es: Seq<AppEvent>) -> Seq<AppEventV> {
    es.map_values(|e: AppEvent| e@)
}

/// The outside world: every invoice that appears gets paid.
pub struct Payer {
    pub paid: Vec<u64>,
}

fn among(xs: &Vec<u64>, x: u64) -> (r: bool)
    ensures
        r == xs@.contains(x),
{
    let mut i: usize = 0;
    while i < xs.len()
        invariant
            i <= xs@.len(),
            forall|j: int| 0 <= j < i ==> xs@[j] != x,
        decreases xs@.len() - i,
    {
        if xs[i] == x {
            assert(xs@.contains(x));
            return true;
        }
        i += 1;
    }
    false
}

impl Payer {
    pub fn new() -> (r: Payer)
        ensures
            r.paid@ == Seq::<u64>::empty(),
    {
        Payer { paid: Vec::new() }
    }

    /// The invoices to pay now, given everything that has happened so far. They count as paid
    /// from here on.
    pub fn due(&mut self, events: &Vec<AppEvent>) -> (r: Vec<u64>)
        ensures
            r@ == owing(app_events_view(events@), old(self).paid@),
            final(self).paid@ == old(self).paid@ + r@,
    {
        let ghost es = app_events_view(events@);
        let ghost was = self.paid@;
        let mut out: Vec<u64> = Vec::new();
        let mut i: usize = 0;
        assert(out@ =~= owing(es.take(0), was));
        assert(self.paid@ =~= was + out@);
        while i < events.len()
            invariant
                i <= events@.len() == es.len(),
                es == app_events_view(events@),
                out@ == owing(es.take(i as int), was),
                self.paid@ == was + out@,
            decreases events@.len() - i,
        {
            proof {
                assert(es.take(i + 1).drop_last() =~= es.take(i as int));
                assert(es.take(i + 1).last() == events@[i as int]@);
                lemma_in_either(was, out@, events@[i as int].id);
            }
            if same(events[i].kind.as_str(), "invoice.created") && !among(
                &self.paid,
                events[i].id,
            ) {
                let ghost o = out@;
                out.push(events[i].id);
                self.paid.push(events[i].id);
                assert(self.paid@ =~= was + out@);
            }
            i += 1;
        }
        assert(es.take(i as int) =~= es);
        out
    }
}

proof fn lemma_in_either(a: Seq<u64>, b: Seq<u64>, x: u64)
    ensures
        (a + b).contains(x) <==> a.contains(x) || b.contains(x),
{
    if a.contains(x) {
        let k = choose|k: int| 0 <= k < a.len() && a[k] == x;
        assert((a + b)[k] == x);
    }
    if b.contains(x) {
        let k = choose|k: int| 0 <= k < b.len() && b[k] == x;
        assert((a + b)[a.len() + k] == x);
    }
    if (a + b).contains(x) {
        let k = choose|k: int| 0 <= k < (a + b).len() && (a + b)[k] == x;
        if k < a.len() {
            assert(a[k] == x);
        } else {
            assert(b[k - a.len()] == x);
        }
    }
}

/// An invoice is paid at most once: none is owed that was paid, none is owed twice, and what was
/// just paid is not owed again however often the same events are looked at.
pub proof fn invoices_are_paid_once(es: Seq<AppEventV>, paid: Seq<u64>)
    ensures
        forall|i: int|
            0 <= i < owing(es, paid).len() ==> !paid.contains(#[trigger] owing(es, paid)[i]),
        forall|i: int, j: int|
            0 <= i < j < owing(es, paid).len() ==> owing(es, paid)[i] != owing(es, paid)[j],
        owing(es, paid + owing(es, paid)).len() == 0,
    decreases es.len(),
{
    lemma_owed_once(es, paid);
    lemma_nothing_left(es, paid, owing(es, paid));
}

proof fn lemma_owed_once(es: Seq<AppEventV>, paid: Seq<u64>)
    ensures
        forall|i: int|
            0 <= i < owing(es, paid).len() ==> !paid.contains(#[trigger] owing(es, paid)[i]),
        forall|i: int, j: int|
            0 <= i < j < owing(es, paid).len() ==> owing(es, paid)[i] != owing(es, paid)[j],
        forall|k: int|
            0 <= k < es.len() && es[k].kind == "invoice.created"@ ==> paid.contains(
                (#[trigger] es[k]).id,
            ) || owing(es, paid).contains(es[k].id),
    decreases es.len(),
{
    if es.len() > 0 {
        let rest = es.drop_last();
        lemma_owed_once(rest, paid);
        let before = owing(rest, paid);
        let all = owing(es, paid);
        assert forall|k: int| 0 <= k < es.len() && es[k].kind == "invoice.created"@ implies paid.contains(
            (#[trigger] es[k]).id,
        ) || all.contains(es[k].id) by {
            if k < rest.len() {
                assert(es[k] == rest[k]);
                if before.contains(es[k].id) {
                    let m = choose|m: int| 0 <= m < before.len() && before[m] == es[k].id;
                    assert(all[m] == es[k].id);
                }
            } else if !paid.contains(es[k].id) {
                if before.contains(es[k].id) {
                    assert(all == before);
                } else {
                    assert(all.last() == es[k].id);
                }
            }
        }
    }
}

proof fn lemma_nothing_left(es: Seq<AppEventV>, paid: Seq<u64>, all: Seq<u64>)
    requires
        forall|k: int|
            0 <= k < es.len() && es[k].kind == "invoice.created"@ ==> paid.contains(
                (#[trigger] es[k]).id,
            ) || all.contains(es[k].id),
    ensures
        owing(es, paid + all).len() == 0,
    decreases es.len(),
{
    if es.len() > 0 {
        let rest = es.drop_last();
        assert forall|k: int|
            0 <= k < rest.len() && rest[k].kind == "invoice.created"@ implies paid.contains(
            (#[trigger] rest[k]).id,
        ) || all.contains(rest[k].id) by {
            assert(rest[k] == es[k]);
        }
        lemma_nothing_left(rest, paid, all);
        let e = es.last();
        assert(e == es[es.len() - 1]);
        lemma_in_either(paid, all, e.id);
    }
}

// ---------- what is said of a run ----------

pub open spec fn failed_check(c: CheckV) -> Seq<char> {
    c.name + ": want "@ + json_text(c.expected) + " got "@ + json_text(c.actual)
}

pub open spec fn failed_checks(cs: Seq<CheckV>) -> Seq<Seq<char>>
    decreases cs.len(),
{
    if cs.len() == 0 {
        Seq::empty()
    } else if cs.last().ok {
        failed_checks(cs.drop_last())
    } else {
        failed_checks(cs.drop_last()).push(failed_check(cs.last()))
    }
}

pub open spec fn judgement(r: RunResultV) -> Seq<char> {
    if r.correct {
        "correct"@
    } else {
        "WRONG ["@ + joined(failed_checks(r.checks), "; "@) + "]"@
    }
}

pub open spec fn trailing_error(e: Option<Seq<char>>) -> Seq<char> {
    match e {
        Some(t) => " · "@ + t,
        None => ""@,
    }
}

/// The line that tells how a run went.
pub open spec fn run_line(r: RunResultV) -> Seq<char> {
    ""@ + padded(r.task, 3) + " "@ + padded(r.arm, 2) + " run "@ + dec(r.run as nat) + " · "@
        + padded(r.status, 10) + " · "@ + padded_left(dec(r.wall_ms as nat), 6) + " ms · max_par "@
        + dec(r.max_parallel as nat) + " · "@ + judgement(r) + trailing_error(r.error)
}

fn failures(cs: &Vec<Check>) -> (r: Vec<String>)
    ensures
        views(r@) == failed_checks(checks_view(cs@)),
{
    let ghost vs = checks_view(cs@);
    let mut out: Vec<String> = Vec::new();
    let mut i: usize = 0;
    assert(views(out@) =~= failed_checks(vs.take(0)));
    while i < cs.len()
        invariant
            i <= cs@.len() == vs.len(),
            vs == checks_view(cs@),
            views(out@) == failed_checks(vs.take(i as int)),
        decreases cs@.len() - i,
    {
        proof {
            assert(vs.take(i + 1).drop_last() =~= vs.take(i as int));
            assert(vs.take(i + 1).last() == cs@[i as int]@);
        }
        if !cs[i].ok {
            let mut t = owned(cs[i].name.as_str());
            t.push_str(": want ");
            t.push_str(cs[i].expected.to_string().as_str());
            t.push_str(" got ");
            t.push_str(cs[i].actual.to_string().as_str());
            let ghost o = views(out@);
            let ghost x = t@;
            out.push(t);
            assert(views(out@) =~= o.push(x));
        }
        i += 1;
    }
    assert(vs.take(i as int) =~= vs);
    out
}

/// The line that tells how a run went.
pub fn progress(r: &RunResult) -> (t: String)
    ensures
        t@ == run_line(r@),
{
    let mut t = owned("");
    push_padded(&mut t, r.task.as_str(), 3);
    t.push_str(" ");
    push_padded(&mut t, r.arm.as_str(), 2);
    t.push_str(" run ");
    push_dec(&mut t, r.run as u128);
    t.push_str(" · ");
    push_padded(&mut t, r.status.as_str(), 10);
    t.push_str(" · ");
    push_padded_left(&mut t, dec_string(r.wall_ms).as_str(), 6);
    t.push_str(" ms · max_par ");
    push_dec(&mut t, r.max_parallel as u128);
    t.push_str(" · ");
    let j = if r.correct {
        owned("correct")
    } else {
        let mut w = owned("WRONG [");
        w.push_str(join(&failures(&r.checks), "; ").as_str());
        w.push_str("]");
        w
    };
    t.push_str(j.as_str());
    let e = match &r.error {
        Some(x) => {
            let mut w = owned(" · ");
            w.push_str(x.as_str());
            w
        },
        None => owned(""),
    };
    t.push_str(e.as_str());
    t
}

} // verus!
