//! A run, written down: its receipt as JSON, and the result that is kept of it.

use crate::api::{key_json, show_list, shown_list, Shown};
use crate::config::RunOpts;
use crate::cut::{join, joined, pieces};
use crate::json::{obj_view, Json, JsonV};
use crate::ledger::{
    peaks_view, EffectSummary, EffectSummaryV, Ledger, LedgerV, Receipt, ReceiptV, Row, RowV,
    Sample, SampleKind, SampleV,
};
use crate::object::{no_entries, push_entry, text_json};
use crate::report::{MadeV, RunResult, RunResultV};
use crate::tasks::{
    all_ok, all_passed, answered, check, checks_of, defaulted, ledger_list, resumed_after_fork,
    status_name, status_word, Expect, Task,
};
use crate::text::{owned, same};
use crate::world::{clone_opt, opt_str};
use vstd::prelude::*;

verus! {

// ---------- the ledger as JSON ----------

/// A time that can be written down.
pub open spec fn writable(t: int) -> bool {
    0 <= t <= u64::MAX
}

pub open spec fn row_fits(r: RowV) -> bool {
    writable(r.started_us as int) && writable(r.ended_us as int)
}

pub open spec fn sample_fits(s: SampleV) -> bool {
    writable(s.started_us as int) && writable(s.ended_us as int)
}

pub open spec fn row_json(r: RowV) -> JsonV {
    JsonV::Obj(
        seq![
            ("attempt"@, JsonV::Int(r.attempt as int)),
            ("ended_us"@, JsonV::Int(r.ended_us as int)),
            ("error"@, key_json(r.error)),
            ("key"@, key_json(r.key)),
            ("node"@, JsonV::Str(r.node)),
            ("observed"@, r.observed),
            ("ok"@, JsonV::Bool(r.ok)),
            ("op"@, JsonV::Str(r.op)),
            ("started_us"@, JsonV::Int(r.started_us as int)),
            ("surface"@, JsonV::Str(r.surface)),
            ("write"@, JsonV::Bool(r.write)),
        ],
    )
}

fn show_opt(k: &Option<String>) -> (r: Json)
    ensures
        r@ == key_json(opt_str(*k)),
{
    match k {
        Some(t) => Json::Str(t.clone()),
        None => Json::Null,
    }
}

impl Shown for Row {
    open spec fn fits(&self) -> bool {
        row_fits(self@)
    }

    open spec fn shown(&self) -> JsonV {
        row_json(self@)
    }

    fn show(&self) -> (r: Json) {
        let mut o = no_entries();
        push_entry(&mut o, "attempt", Json::Int(self.attempt as i128));
        push_entry(&mut o, "ended_us", Json::Int(self.ended_us as i128));
        push_entry(&mut o, "error", show_opt(&self.error));
        push_entry(&mut o, "key", show_opt(&self.key));
        push_entry(&mut o, "node", Json::Str(self.node.clone()));
        push_entry(&mut o, "observed", self.observed.clone());
        push_entry(&mut o, "ok", Json::Bool(self.ok));
        push_entry(&mut o, "op", Json::Str(self.op.clone()));
        push_entry(&mut o, "started_us", Json::Int(self.started_us as i128));
        push_entry(&mut o, "surface", Json::Str(self.surface.clone()));
        push_entry(&mut o, "write", Json::Bool(self.write));
        assert(obj_view(o@) =~= row_json(self@)->Obj_0);
        Json::Obj(o)
    }
}

/// The name of what a sample was for.
pub open spec fn kind_word(k: SampleKind) -> Seq<char> {
    match k {
        SampleKind::Plan => "plan"@,
        SampleKind::Lint => "lint"@,
        SampleKind::Turn => "turn"@,
        SampleKind::ForkAnswer => "fork_answer"@,
    }
}

fn kind_name(k: SampleKind) -> (r: &'static str)
    ensures
        r@ == kind_word(k),
{
    match k {
        SampleKind::Plan => "plan",
        SampleKind::Lint => "lint",
        SampleKind::Turn => "turn",
        SampleKind::ForkAnswer => "fork_answer",
    }
}

pub open spec fn sample_json(s: SampleV) -> JsonV {
    JsonV::Obj(
        seq![
            ("effort"@, JsonV::Str(s.effort)),
            ("ended_us"@, JsonV::Int(s.ended_us as int)),
            ("kind"@, JsonV::Str(kind_word(s.kind))),
            ("model"@, JsonV::Str(s.model)),
            ("seq"@, JsonV::Int(s.seq as int)),
            ("started_us"@, JsonV::Int(s.started_us as int)),
            ("tokens_in"@, JsonV::Int(s.tokens_in as int)),
            ("tokens_out"@, JsonV::Int(s.tokens_out as int)),
        ],
    )
}

impl Shown for Sample {
    open spec fn fits(&self) -> bool {
        sample_fits(self@)
    }

    open spec fn shown(&self) -> JsonV {
        sample_json(self@)
    }

    fn show(&self) -> (r: Json) {
        let mut o = no_entries();
        push_entry(&mut o, "effort", Json::Str(self.effort.clone()));
        push_entry(&mut o, "ended_us", Json::Int(self.ended_us as i128));
        push_entry(&mut o, "kind", text_json(kind_name(self.kind)));
        push_entry(&mut o, "model", Json::Str(self.model.clone()));
        push_entry(&mut o, "seq", Json::Int(self.seq as i128));
        push_entry(&mut o, "started_us", Json::Int(self.started_us as i128));
        push_entry(&mut o, "tokens_in", Json::Int(self.tokens_in as i128));
        push_entry(&mut o, "tokens_out", Json::Int(self.tokens_out as i128));
        assert(obj_view(o@) =~= sample_json(self@)->Obj_0);
        Json::Obj(o)
    }
}

pub open spec fn effect_json(e: EffectSummaryV) -> JsonV {
    JsonV::Obj(
        seq![
            ("attempts"@, JsonV::Int(e.attempts as int)),
            ("key"@, key_json(e.key)),
            ("node"@, JsonV::Str(e.node)),
            ("observed"@, e.observed),
            ("ok"@, JsonV::Bool(e.ok)),
            ("op"@, JsonV::Str(e.op)),
        ],
    )
}

impl Shown for EffectSummary {
    open spec fn fits(&self) -> bool {
        true
    }

    open spec fn shown(&self) -> JsonV {
        effect_json(self@)
    }

    fn show(&self) -> (r: Json) {
        let mut o = no_entries();
        push_entry(&mut o, "attempts", Json::Int(self.attempts as i128));
        push_entry(&mut o, "key", show_opt(&self.key));
        push_entry(&mut o, "node", Json::Str(self.node.clone()));
        push_entry(&mut o, "observed", self.observed.clone());
        push_entry(&mut o, "ok", Json::Bool(self.ok));
        push_entry(&mut o, "op", Json::Str(self.op.clone()));
        assert(obj_view(o@) =~= effect_json(self@)->Obj_0);
        Json::Obj(o)
    }
}

pub open spec fn rows_json(rs: Seq<RowV>) -> Seq<JsonV> {
    rs.map_values(|r: RowV| row_json(r))
}

pub open spec fn samples_json(ss: Seq<SampleV>) -> Seq<JsonV> {
    ss.map_values(|s: SampleV| sample_json(s))
}

pub open spec fn effects_json(es: Seq<EffectSummaryV>) -> Seq<JsonV> {
    es.map_values(|e: EffectSummaryV| effect_json(e))
}

pub open spec fn ledger_json(l: LedgerV) -> JsonV {
    JsonV::Obj(
        seq![
            ("ended_ms"@, JsonV::Int(l.ended_ms as int)),
            ("forks"@, JsonV::List(l.forks)),
            ("notes"@, JsonV::List(l.notes)),
            ("rows"@, JsonV::List(rows_json(l.rows))),
            ("samples"@, JsonV::List(samples_json(l.samples))),
            ("started_ms"@, JsonV::Int(l.started_ms as int)),
        ],
    )
}

/// Whether every time of a ledger can be written down.
pub open spec fn ledger_fits(l: LedgerV) -> bool {
    &&& writable(l.started_ms as int) && writable(l.ended_ms as int)
    &&& forall|i: int| 0 <= i < l.rows.len() ==> row_fits(#[trigger] l.rows[i])
    &&& forall|i: int| 0 <= i < l.samples.len() ==> sample_fits(#[trigger] l.samples[i])
}

impl Ledger {
    /// Whether every time of the ledger can be written down.
    pub fn times_fit(&self) -> (r: bool)
        ensures
            r == ledger_fits(self@),
    {
        let top: u128 = 0xFFFF_FFFF_FFFF_FFFF;
        let ghost l = self@;
        if self.started_ms > top || self.ended_ms > top {
            return false;
        }
        let mut i: usize = 0;
        while i < self.rows.len()
            invariant
                i <= self.rows@.len(),
                l == self@,
                top == u64::MAX,
                forall|j: int| 0 <= j < i ==> row_fits(#[trigger] l.rows[j]),
            decreases self.rows@.len() - i,
        {
            assert(l.rows[i as int] == self.rows@[i as int]@);
            if self.rows[i].started_us > top || self.rows[i].ended_us > top {
                return false;
            }
            i += 1;
        }
        let mut k: usize = 0;
        while k < self.samples.len()
            invariant
                k <= self.samples@.len(),
                l == self@,
                top == u64::MAX,
                forall|j: int| 0 <= j < k ==> sample_fits(#[trigger] l.samples[j]),
            decreases self.samples@.len() - k,
        {
            assert(l.samples[k as int] == self.samples@[k as int]@);
            if self.samples[k].started_us > top || self.samples[k].ended_us > top {
                return false;
            }
            k += 1;
        }
        true
    }

    /// The ledger as it is written down.
    pub fn to_json(&self) -> (r: Json)
        requires
            ledger_fits(self@),
        ensures
            r@ == ledger_json(self@),
    {
        proof {
            assert forall|i: int| 0 <= i < self.rows@.len() implies (
            #[trigger] self.rows@[i]).fits() by {
                assert(self@.rows[i] == self.rows@[i]@);
            }
            assert forall|i: int| 0 <= i < self.samples@.len() implies (
            #[trigger] self.samples@[i]).fits() by {
                assert(self@.samples[i] == self.samples@[i]@);
            }
        }
        let forks = crate::json::clone_list(&self.forks);
        let notes = crate::json::clone_list(&self.notes);
        let rows = show_list(&self.rows);
        let samples = show_list(&self.samples);
        proof {
            assert(shown_list(self.rows@) =~= rows_json(self@.rows));
            assert(shown_list(self.samples@) =~= samples_json(self@.samples));
        }
        let mut o = no_entries();
        push_entry(&mut o, "ended_ms", Json::Int(self.ended_ms as i128));
        push_entry(&mut o, "forks", Json::List(forks));
        push_entry(&mut o, "notes", Json::List(notes));
        push_entry(&mut o, "rows", rows);
        push_entry(&mut o, "samples", samples);
        push_entry(&mut o, "started_ms", Json::Int(self.started_ms as i128));
        assert(obj_view(o@) =~= ledger_json(self@)->Obj_0);
        Json::Obj(o)
    }
}

// ---------- the receipt as JSON ----------

pub open spec fn widths_json(ws: Seq<(Seq<char>, nat)>) -> Seq<(Seq<char>, JsonV)> {
    ws.map_values(|w: (Seq<char>, nat)| (w.0, JsonV::Int(w.1 as int)))
}

pub open spec fn value_json(v: Option<JsonV>) -> JsonV {
    match v {
        Some(x) => x,
        None => JsonV::Null,
    }
}

pub open spec fn receipt_json(r: ReceiptV) -> JsonV {
    JsonV::Obj(
        seq![
            ("busy_ms"@, JsonV::Int(r.busy_ms as int)),
            ("depth"@, JsonV::Int(r.depth as int)),
            ("effects"@, JsonV::List(effects_json(r.effects))),
            ("error"@, key_json(r.error)),
            ("evidence"@, value_json(r.evidence)),
            ("forks_taken"@, JsonV::Int(r.forks_taken as int)),
            ("ledger"@, ledger_json(r.ledger)),
            ("max_parallel"@, JsonV::Int(r.max_parallel as int)),
            (
                "max_parallel_by_surface"@,
                JsonV::Obj(widths_json(r.max_parallel_by_surface)),
            ),
            ("nodes"@, JsonV::Int(r.nodes as int)),
            ("plan"@, JsonV::Str(r.plan)),
            ("plan_id"@, JsonV::Str(r.plan_id)),
            ("plan_ms"@, JsonV::Int(r.plan_ms as int)),
            ("run_ms"@, JsonV::Int(r.run_ms as int)),
            ("samples"@, JsonV::Int(r.samples as int)),
            ("status"@, JsonV::Str(status_word(r.status))),
            ("tokens_in"@, JsonV::Int(r.tokens_in as int)),
            ("tokens_out"@, JsonV::Int(r.tokens_out as int)),
            ("wall_ms"@, JsonV::Int(r.wall_ms as int)),
            ("yield_reason"@, key_json(r.yield_reason)),
        ],
    )
}

/// Whether every time of a receipt can be written down.
pub open spec fn receipt_fits(r: ReceiptV) -> bool {
    &&& ledger_fits(r.ledger)
    &&& writable(r.wall_ms as int) && writable(r.plan_ms as int) && writable(r.run_ms as int)
        && writable(r.busy_ms as int)
}

fn widths_of(ws: &Vec<(String, usize)>) -> (r: Vec<(String, Json)>)
    ensures
        obj_view(r@) == widths_json(peaks_view(ws@)),
{
    let ghost all = widths_json(peaks_view(ws@));
    let mut out = no_entries();
    let mut i: usize = 0;
    assert(obj_view(out@) =~= all.take(0));
    while i < ws.len()
        invariant
            i <= ws@.len() == all.len(),
            all == widths_json(peaks_view(ws@)),
            obj_view(out@) == all.take(i as int),
        decreases ws@.len() - i,
    {
        push_entry(&mut out, ws[i].0.as_str(), Json::Int(ws[i].1 as i128));
        assert(peaks_view(ws@)[i as int] == (ws@[i as int].0@, ws@[i as int].1 as nat));
        i += 1;
        assert(obj_view(out@) =~= all.take(i as int));
    }
    assert(all.take(i as int) =~= all);
    out
}

impl Receipt {
    /// Whether every time of the receipt can be written down.
    pub fn times_fit(&self) -> (r: bool)
        ensures
            r == receipt_fits(self@),
    {
        let top: u128 = 0xFFFF_FFFF_FFFF_FFFF;
        self.ledger.times_fit() && self.wall_ms <= top && self.plan_ms <= top && self.run_ms <= top
            && self.busy_ms <= top
    }

    /// The receipt as it is written down.
    pub fn to_json(&self) -> (r: Json)
        requires
            receipt_fits(self@),
        ensures
            r@ == receipt_json(self@),
    {
        let effects = show_list(&self.effects);
        assert(shown_list(self.effects@) =~= effects_json(self@.effects));
        let widths = widths_of(&self.max_parallel_by_surface);
        let evidence = match &self.evidence {
            Some(v) => v.clone(),
            None => Json::Null,
        };
        let mut o = no_entries();
        push_entry(&mut o, "busy_ms", Json::Int(self.busy_ms as i128));
        push_entry(&mut o, "depth", Json::Int(self.depth as i128));
        push_entry(&mut o, "effects", effects);
        push_entry(&mut o, "error", show_opt(&self.error));
        push_entry(&mut o, "evidence", evidence);
        push_entry(&mut o, "forks_taken", Json::Int(self.forks_taken as i128));
        push_entry(&mut o, "ledger", self.ledger.to_json());
        push_entry(&mut o, "max_parallel", Json::Int(self.max_parallel as i128));
        push_entry(&mut o, "max_parallel_by_surface", Json::Obj(widths));
        push_entry(&mut o, "nodes", Json::Int(self.nodes as i128));
        push_entry(&mut o, "plan", Json::Str(self.plan.clone()));
        push_entry(&mut o, "plan_id", Json::Str(self.plan_id.clone()));
        push_entry(&mut o, "plan_ms", Json::Int(self.plan_ms as i128));
        push_entry(&mut o, "run_ms", Json::Int(self.run_ms as i128));
        push_entry(&mut o, "samples", Json::Int(self.samples as i128));
        push_entry(&mut o, "status", text_json(status_name(self.status)));
        push_entry(&mut o, "tokens_in", Json::Int(self.tokens_in as i128));
        push_entry(&mut o, "tokens_out", Json::Int(self.tokens_out as i128));
        push_entry(&mut o, "wall_ms", Json::Int(self.wall_ms as i128));
        push_entry(&mut o, "yield_reason", show_opt(&self.yield_reason));
        assert(obj_view(o@) =~= receipt_json(self@)->Obj_0);
        Json::Obj(o)
    }
}

// ---------- the result ----------

/// Where the plan of a run came from.
pub open spec fn planner_label(
    arm: Seq<char>,
    cache_hit: bool,
    planner: Seq<char>,
    model: Seq<char>,
    effort: Seq<char>,
) -> Seq<char> {
    if arm == "D"@ && cache_hit {
        "cached-intent"@
    } else if arm == "D"@ {
        planner + "-intent"@
    } else if arm == "E"@ {
        "none"@
    } else {
        model + "@"@ + effort
    }
}

/// Whether an arm was run without a model.
pub open spec fn modelless(arm: Seq<char>, planner: Seq<char>) -> bool {
    arm == "E"@ || (arm == "D"@ && planner != "model"@)
}

/// The expectation that applies to a receipt.
pub open spec fn own_expect(e: Expect, receipt: JsonV) -> Expect {
    let resumed = answered(ledger_list(receipt, "samples"@)) || defaulted(
        ledger_list(receipt, "forks"@),
    );
    match (e.after_resume, resumed) {
        (Some(a), true) => *a,
        _ => e,
    }
}

/// What is kept of a run.
pub open spec fn result_view_of(
    task: Seq<char>,
    expect: Expect,
    arm: Seq<char>,
    run: u32,
    r: ReceiptV,
    snapshot: JsonV,
    double_sends: usize,
    made: MadeV,
) -> RunResultV {
    let receipt = receipt_json(r);
    let checks = checks_of(
        own_expect(expect, receipt),
        status_word(r.status),
        r.forks_taken,
        snapshot,
        double_sends as nat,
    );
    RunResultV {
        task,
        arm,
        run,
        status: status_word(r.status),
        samples: r.samples,
        tokens_in: r.tokens_in as u64,
        tokens_out: r.tokens_out as u64,
        wall_ms: r.wall_ms as u128,
        plan_ms: r.plan_ms as u128,
        run_ms: r.run_ms as u128,
        busy_ms: Some(r.busy_ms as u128),
        max_parallel: r.max_parallel as usize,
        max_parallel_by_surface: r.max_parallel_by_surface,
        correct: all_ok(checks),
        checks,
        double_sends,
        forks: r.forks_taken as usize,
        error: r.error,
        snapshot,
        receipt,
        made,
    }
}

/// How a run was produced, by the options of the benchmark.
pub open spec fn made_of(
    title: Seq<char>,
    arm: Seq<char>,
    r: ReceiptV,
    intent: JsonV,
    cache_hit: bool,
    opts: RunOpts,
    base_url: Seq<char>,
) -> MadeV {
    let none = modelless(arm, opts.planner@);
    MadeV {
        task_title: title,
        planner: planner_label(arm, cache_hit, opts.planner@, opts.model@, opts.effort@),
        nodes: r.nodes as usize,
        depth: r.depth as usize,
        yield_reason: r.yield_reason,
        intent,
        model: if none {
            ""@
        } else {
            opts.model@
        },
        effort: if none {
            ""@
        } else {
            opts.effort@
        },
        base_url,
        latency_ms: opts.latency_ms,
        surfaces: joined(
            crate::config::present(crate::config::names_in(pieces(opts.surfaces@, ','))),
            ","@,
        ),
    }
}

fn label(arm: &str, cache_hit: bool, opts: &RunOpts) -> (r: String)
    ensures
        r@ == planner_label(arm@, cache_hit, opts.planner@, opts.model@, opts.effort@),
{
    if same(arm, "D") && cache_hit {
        owned("cached-intent")
    } else if same(arm, "D") {
        let mut t = opts.planner.clone();
        t.push_str("-intent");
        t
    } else if same(arm, "E") {
        owned("none")
    } else {
        let mut t = opts.model.clone();
        t.push_str("@");
        t.push_str(opts.effort.as_str());
        t
    }
}

fn copy_widths(ws: &Vec<(String, usize)>) -> (r: Vec<(String, usize)>)
    ensures
        peaks_view(r@) == peaks_view(ws@),
{
    let ghost all = peaks_view(ws@);
    let mut out: Vec<(String, usize)> = Vec::new();
    let mut i: usize = 0;
    assert(peaks_view(out@) =~= all.take(0));
    while i < ws.len()
        invariant
            i <= ws@.len() == all.len(),
            all == peaks_view(ws@),
            peaks_view(out@) == all.take(i as int),
        decreases ws@.len() - i,
    {
        let x = (ws[i].0.clone(), ws[i].1);
        let ghost o = peaks_view(out@);
        out.push(x);
        i += 1;
        assert(peaks_view(out@) =~= o.push((x.0@, x.1 as nat)));
        assert(peaks_view(out@) =~= all.take(i as int));
    }
    assert(all.take(i as int) =~= all);
    out
}

/// What is kept of a run.
pub fn result_of(
    task: &Task,
    arm: &str,
    run: u32,
    receipt: &Receipt,
    snapshot: Json,
    double_sends: usize,
    intent: Json,
    cache_hit: bool,
    opts: &RunOpts,
    base_url: &str,
) -> (r: RunResult)
    requires
        receipt_fits(receipt@),
    ensures
        r@ == result_view_of(
            task.id@,
            task.expect,
            arm@,
            run,
            receipt@,
            snapshot@,
            double_sends,
            made_of(task.title@, arm@, receipt@, intent@, cache_hit, *opts, base_url@),
        ),
{
    let json = receipt.to_json();
    let status = status_name(receipt.status);
    let expect = task.expect.applicable(resumed_after_fork(&json));
    let checks = check(expect, status, receipt.forks_taken, &snapshot, double_sends);
    let correct = all_passed(&checks);
    let none = same(arm, "E") || (same(arm, "D") && !same(opts.planner.as_str(), "model"));
    let surfaces = opts.surface_list();
    RunResult {
        task: task.id.clone(),
        task_title: task.title.clone(),
        arm: owned(arm),
        run,
        status: owned(status),
        planner: label(arm, cache_hit, opts),
        samples: receipt.samples,
        tokens_in: receipt.tokens_in,
        tokens_out: receipt.tokens_out,
        wall_ms: receipt.wall_ms,
        plan_ms: receipt.plan_ms,
        run_ms: receipt.run_ms,
        busy_ms: Some(receipt.busy_ms),
        max_parallel: receipt.max_parallel,
        max_parallel_by_surface: copy_widths(&receipt.max_parallel_by_surface),
        nodes: receipt.nodes,
        depth: receipt.depth,
        correct,
        checks,
        double_sends,
        forks: receipt.forks_taken,
        yield_reason: clone_opt(&receipt.yield_reason),
        error: clone_opt(&receipt.error),
        snapshot,
        receipt: json,
        intent,
        model: if none {
            owned("")
        } else {
            opts.model.clone()
        },
        effort: if none {
            owned("")
        } else {
            opts.effort.clone()
        },
        base_url: owned(base_url),
        latency_ms: opts.latency_ms,
        surfaces: join(&surfaces, ","),
    }
}

} // verus!
