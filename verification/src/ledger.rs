//! Append-only record of every attempt. The receipt is a view of this, never a claim.

use crate::json::{clone_list, list_view, Json, JsonV};
use crate::outputs::Outputs;
use crate::plan::{depth_spec, render_text, Node, NodeV, Plan, PlanV};
use crate::spans::{covered, max_overlap, peak, union_length};
use crate::text::{same, sort_dedup, sorted_unique, views};
use crate::world::{clone_opt, opt_str};
use vstd::prelude::*;

verus! {

/// One attempt.
#[derive(Debug)]
pub struct Row {
    pub node: String,
    pub op: String,
    pub surface: String,
    pub key: Option<String>,
    pub attempt: u32,
    pub started_us: u128,
    pub ended_us: u128,
    pub ok: bool,
    /// True for rows that changed the world (or tried to). Waits and reads are false.
    pub write: bool,
    pub error: Option<String>,
    pub observed: Json,
}

pub struct RowV {
    pub node: Seq<char>,
    pub op: Seq<char>,
    pub surface: Seq<char>,
    pub key: Option<Seq<char>>,
    pub attempt: u32,
    pub started_us: u128,
    pub ended_us: u128,
    pub ok: bool,
    pub write: bool,
    pub error: Option<Seq<char>>,
    pub observed: JsonV,
}

impl View for Row {
    type V = RowV;

    open spec fn view(&self) -> RowV {
        RowV {
            node: self.node@,
            op: self.op@,
            surface: self.surface@,
            key: opt_str(self.key),
            attempt: self.attempt,
            started_us: self.started_us,
            ended_us: self.ended_us,
            ok: self.ok,
            write: self.write,
            error: opt_str(self.error),
            observed: self.observed@,
        }
    }
}

impl Clone for Row {
    fn clone(&self) -> (r: Self)
        ensures
            r@ == self@,
    {
        Row {
            node: self.node.clone(),
            op: self.op.clone(),
            surface: self.surface.clone(),
            key: clone_opt(&self.key),
            attempt: self.attempt,
            started_us: self.started_us,
            ended_us: self.ended_us,
            ok: self.ok,
            write: self.write,
            error: clone_opt(&self.error),
            observed: self.observed.clone(),
        }
    }
}

pub open spec fn rows_view(rs: Seq<Row>) -> Seq<RowV> {
    rs.map_values(|r: Row| r@)
}

/// How a run ended.
#[derive(Clone, Copy, Debug, PartialEq, Eq, Structural)]
pub enum Status {
    Committed,
    NeedThink,
    Error,
}

/// What a model call was for.
#[derive(Clone, Copy, Debug, PartialEq, Eq, Structural)]
pub enum SampleKind {
    /// The planner turning a goal into an intent.
    Plan,
    /// The planner re-asked after lint errors.
    Lint,
    /// One turn of an agent loop.
    Turn,
    /// The planner answering a fork.
    ForkAnswer,
}

/// One model call. Samples are rows too, so cost and thinking time are recomputed, never claimed.
#[derive(Debug)]
pub struct Sample {
    pub seq: u32,
    pub kind: SampleKind,
    pub started_us: u128,
    pub ended_us: u128,
    pub tokens_in: u64,
    pub tokens_out: u64,
    pub model: String,
    pub effort: String,
}

pub struct SampleV {
    pub seq: u32,
    pub kind: SampleKind,
    pub started_us: u128,
    pub ended_us: u128,
    pub tokens_in: u64,
    pub tokens_out: u64,
    pub model: Seq<char>,
    pub effort: Seq<char>,
}

impl View for Sample {
    type V = SampleV;

    open spec fn view(&self) -> SampleV {
        SampleV {
            seq: self.seq,
            kind: self.kind,
            started_us: self.started_us,
            ended_us: self.ended_us,
            tokens_in: self.tokens_in,
            tokens_out: self.tokens_out,
            model: self.model@,
            effort: self.effort@,
        }
    }
}

impl Clone for Sample {
    fn clone(&self) -> (r: Self)
        ensures
            r@ == self@,
    {
        Sample {
            seq: self.seq,
            kind: self.kind,
            started_us: self.started_us,
            ended_us: self.ended_us,
            tokens_in: self.tokens_in,
            tokens_out: self.tokens_out,
            model: self.model.clone(),
            effort: self.effort.clone(),
        }
    }
}

pub open spec fn samples_view(ss: Seq<Sample>) -> Seq<SampleV> {
    ss.map_values(|s: Sample| s@)
}

/// Everything a run did.
#[derive(Debug)]
pub struct Ledger {
    pub rows: Vec<Row>,
    pub samples: Vec<Sample>,
    pub forks: Vec<Json>,
    /// Anything worth reading later that is not an effect or a sample: lint errors, rejected
    /// answers.
    pub notes: Vec<Json>,
    pub started_ms: u128,
    pub ended_ms: u128,
}

pub struct LedgerV {
    pub rows: Seq<RowV>,
    pub samples: Seq<SampleV>,
    pub forks: Seq<JsonV>,
    pub notes: Seq<JsonV>,
    pub started_ms: u128,
    pub ended_ms: u128,
}

impl View for Ledger {
    type V = LedgerV;

    open spec fn view(&self) -> LedgerV {
        LedgerV {
            rows: rows_view(self.rows@),
            samples: samples_view(self.samples@),
            forks: list_view(self.forks@),
            notes: list_view(self.notes@),
            started_ms: self.started_ms,
            ended_ms: self.ended_ms,
        }
    }
}

/// A copy of rows.
pub fn clone_rows(rs: &Vec<Row>) -> (r: Vec<Row>)
    ensures
        rows_view(r@) == rows_view(rs@),
{
    let mut out: Vec<Row> = Vec::new();
    let mut i: usize = 0;
    while i < rs.len()
        invariant
            i <= rs@.len(),
            rows_view(out@) == rows_view(rs@).take(i as int),
        decreases rs@.len() - i,
    {
        let x = rs[i].clone();
        let ghost o = rows_view(out@);
        out.push(x);
        assert(rows_view(out@) =~= o.push(x@));
        i += 1;
        assert(rows_view(out@) =~= rows_view(rs@).take(i as int));
    }
    assert(rows_view(rs@).take(i as int) =~= rows_view(rs@));
    out
}

fn clone_samples(ss: &Vec<Sample>) -> (r: Vec<Sample>)
    ensures
        samples_view(r@) == samples_view(ss@),
{
    let mut out: Vec<Sample> = Vec::new();
    let mut i: usize = 0;
    while i < ss.len()
        invariant
            i <= ss@.len(),
            samples_view(out@) == samples_view(ss@).take(i as int),
        decreases ss@.len() - i,
    {
        let x = ss[i].clone();
        let ghost o = samples_view(out@);
        out.push(x);
        assert(samples_view(out@) =~= o.push(x@));
        i += 1;
        assert(samples_view(out@) =~= samples_view(ss@).take(i as int));
    }
    assert(samples_view(ss@).take(i as int) =~= samples_view(ss@));
    out
}

impl Clone for Ledger {
    fn clone(&self) -> (r: Self)
        ensures
            r@ == self@,
    {
        Ledger {
            rows: clone_rows(&self.rows),
            samples: clone_samples(&self.samples),
            forks: clone_list(&self.forks),
            notes: clone_list(&self.notes),
            started_ms: self.started_ms,
            ended_ms: self.ended_ms,
        }
    }
}

// ---------- spans ----------

/// Whether a row executed against a surface, rather than waited for the outside world.
pub open spec fn is_call(r: RowV) -> bool {
    r.surface != "event"@
}

/// The spans of the rows that executed against a surface.
pub open spec fn call_spans(rs: Seq<RowV>) -> Seq<(u128, u128)>
    decreases rs.len(),
{
    if rs.len() == 0 {
        Seq::empty()
    } else if is_call(rs.last()) {
        call_spans(rs.drop_last()).push((rs.last().started_us, rs.last().ended_us))
    } else {
        call_spans(rs.drop_last())
    }
}

/// The spans of the rows of one surface.
pub open spec fn surface_spans(rs: Seq<RowV>, surface: Seq<char>) -> Seq<(u128, u128)>
    decreases rs.len(),
{
    if rs.len() == 0 {
        Seq::empty()
    } else if rs.last().surface == surface {
        surface_spans(rs.drop_last(), surface).push((rs.last().started_us, rs.last().ended_us))
    } else {
        surface_spans(rs.drop_last(), surface)
    }
}

/// The surfaces of the rows that executed against one, in the order of the rows.
pub open spec fn call_surfaces(rs: Seq<RowV>) -> Seq<Seq<char>>
    decreases rs.len(),
{
    if rs.len() == 0 {
        Seq::empty()
    } else if is_call(rs.last()) {
        call_surfaces(rs.drop_last()).push(rs.last().surface)
    } else {
        call_surfaces(rs.drop_last())
    }
}

/// The spans of samples.
pub open spec fn sample_spans(ss: Seq<SampleV>) -> Seq<(u128, u128)> {
    ss.map_values(|s: SampleV| (s.started_us, s.ended_us))
}

/// Each surface, in ascending order, and the most of its calls in flight at one instant.
pub open spec fn surface_peaks(rs: Seq<RowV>) -> Seq<(Seq<char>, nat)> {
    sort_dedup(call_surfaces(rs)).map_values(|s: Seq<char>| (s, peak(surface_spans(rs, s))))
}

pub open spec fn peaks_view(xs: Seq<(String, usize)>) -> Seq<(Seq<char>, nat)> {
    xs.map_values(|x: (String, usize)| (x.0@, x.1 as nat))
}

/// The earliest start of some rows.
pub open spec fn first_start(rs: Seq<RowV>) -> u128
    decreases rs.len(),
{
    if rs.len() <= 1 {
        rs[0].started_us
    } else if rs.last().started_us < first_start(rs.drop_last()) {
        rs.last().started_us
    } else {
        first_start(rs.drop_last())
    }
}

/// The latest end of some rows.
pub open spec fn last_end(rs: Seq<RowV>) -> u128
    decreases rs.len(),
{
    if rs.len() <= 1 {
        rs[0].ended_us
    } else if rs.last().ended_us > last_end(rs.drop_last()) {
        rs.last().ended_us
    } else {
        last_end(rs.drop_last())
    }
}

/// From the first start to the last end, gaps included.
pub open spec fn run_length(rs: Seq<RowV>) -> nat {
    if rs.len() == 0 || last_end(rs) < first_start(rs) {
        0
    } else {
        (last_end(rs) - first_start(rs)) as nat
    }
}

/// The tokens that samples took in.
pub open spec fn tokens_in_of(ss: Seq<SampleV>) -> nat
    decreases ss.len(),
{
    if ss.len() == 0 {
        0
    } else {
        tokens_in_of(ss.drop_last()) + ss.last().tokens_in as nat
    }
}

/// The tokens that samples gave out.
pub open spec fn tokens_out_of(ss: Seq<SampleV>) -> nat
    decreases ss.len(),
{
    if ss.len() == 0 {
        0
    } else {
        tokens_out_of(ss.drop_last()) + ss.last().tokens_out as nat
    }
}

proof fn tokens_grow(ss: Seq<SampleV>, k: int)
    requires
        0 <= k <= ss.len(),
    ensures
        tokens_in_of(ss.take(k)) <= tokens_in_of(ss),
        tokens_out_of(ss.take(k)) <= tokens_out_of(ss),
    decreases ss.len(),
{
    if k == ss.len() {
        assert(ss.take(k) =~= ss);
    } else {
        assert(ss.drop_last().take(k) =~= ss.take(k));
        tokens_grow(ss.drop_last(), k);
    }
}

// ---------- what is done ----------

/// The latest row that succeeded under a key.
pub open spec fn committed(rs: Seq<RowV>, key: Seq<char>) -> Option<RowV>
    decreases rs.len(),
{
    if rs.len() == 0 {
        None
    } else if rs.last().ok && rs.last().key == Some(key) {
        Some(rs.last())
    } else {
        committed(rs.drop_last(), key)
    }
}

/// The nodes that the rows prove done, and what each observed: a keyed node whose key has a row
/// that succeeded. Nodes without a key are never done.
pub open spec fn completed_of(rs: Seq<RowV>, ns: Seq<NodeV>) -> Map<Seq<char>, JsonV>
    decreases ns.len(),
{
    if ns.len() == 0 {
        Map::empty()
    } else {
        let rest = completed_of(rs, ns.drop_last());
        match ns.last().key {
            None => rest,
            Some(k) => match committed(rs, k) {
                Some(r) => rest.insert(ns.last().id, r.observed),
                None => rest,
            },
        }
    }
}

// ---------- the receipt ----------

/// What became of a node.
#[derive(Debug)]
pub struct EffectSummary {
    pub node: String,
    pub op: String,
    pub key: Option<String>,
    pub attempts: u32,
    pub ok: bool,
    pub observed: Json,
}

pub struct EffectSummaryV {
    pub node: Seq<char>,
    pub op: Seq<char>,
    pub key: Option<Seq<char>>,
    pub attempts: u32,
    pub ok: bool,
    pub observed: JsonV,
}

impl View for EffectSummary {
    type V = EffectSummaryV;

    open spec fn view(&self) -> EffectSummaryV {
        EffectSummaryV {
            node: self.node@,
            op: self.op@,
            key: opt_str(self.key),
            attempts: self.attempts,
            ok: self.ok,
            observed: self.observed@,
        }
    }
}

pub open spec fn effects_view(es: Seq<EffectSummary>) -> Seq<EffectSummaryV> {
    es.map_values(|e: EffectSummary| e@)
}

/// The rows of a node.
pub open spec fn rows_of(rs: Seq<RowV>, node: Seq<char>) -> Seq<RowV>
    decreases rs.len(),
{
    if rs.len() == 0 {
        Seq::empty()
    } else if rs.last().node == node {
        rows_of(rs.drop_last(), node).push(rs.last())
    } else {
        rows_of(rs.drop_last(), node)
    }
}

/// What became of each node that was tried, in the order of the plan: how often it was tried, and
/// how the last attempt went.
pub open spec fn effects_of(rs: Seq<RowV>, ns: Seq<NodeV>) -> Seq<EffectSummaryV>
    decreases ns.len(),
{
    if ns.len() == 0 {
        Seq::empty()
    } else {
        let rest = effects_of(rs, ns.drop_last());
        let mine = rows_of(rs, ns.last().id);
        if mine.len() == 0 {
            rest
        } else {
            rest.push(
                EffectSummaryV {
                    node: ns.last().id,
                    op: ns.last().op,
                    key: ns.last().key,
                    attempts: mine.len() as u32,
                    ok: mine.last().ok,
                    observed: mine.last().observed,
                },
            )
        }
    }
}

/// What a run amounts to.
#[derive(Debug)]
pub struct Receipt {
    pub plan_id: String,
    pub status: Status,
    pub samples: u32,
    pub tokens_in: u64,
    pub tokens_out: u64,
    pub wall_ms: u128,
    /// Time the model was thinking: the union of sample spans.
    pub plan_ms: u128,
    /// First effect start to last effect end, including any gaps.
    pub run_ms: u128,
    /// Time at least one call was actually in flight.
    pub busy_ms: u128,
    pub max_parallel: usize,
    /// The same sweep per surface: the screen pool should read 1 while the API stays wide.
    pub max_parallel_by_surface: Vec<(String, usize)>,
    pub nodes: usize,
    pub depth: usize,
    pub effects: Vec<EffectSummary>,
    pub forks_taken: usize,
    pub yield_reason: Option<String>,
    pub evidence: Option<Json>,
    pub error: Option<String>,
    pub plan: String,
    pub ledger: Ledger,
}

pub struct ReceiptV {
    pub plan_id: Seq<char>,
    pub status: Status,
    pub samples: u32,
    pub tokens_in: nat,
    pub tokens_out: nat,
    pub wall_ms: nat,
    pub plan_ms: nat,
    pub run_ms: nat,
    pub busy_ms: nat,
    pub max_parallel: nat,
    pub max_parallel_by_surface: Seq<(Seq<char>, nat)>,
    pub nodes: nat,
    pub depth: nat,
    pub effects: Seq<EffectSummaryV>,
    pub forks_taken: nat,
    pub yield_reason: Option<Seq<char>>,
    pub evidence: Option<JsonV>,
    pub error: Option<Seq<char>>,
    pub plan: Seq<char>,
    pub ledger: LedgerV,
}

pub open spec fn opt_json(o: Option<Json>) -> Option<JsonV> {
    match o {
        Some(v) => Some(v@),
        None => None,
    }
}

impl View for Receipt {
    type V = ReceiptV;

    open spec fn view(&self) -> ReceiptV {
        ReceiptV {
            plan_id: self.plan_id@,
            status: self.status,
            samples: self.samples,
            tokens_in: self.tokens_in as nat,
            tokens_out: self.tokens_out as nat,
            wall_ms: self.wall_ms as nat,
            plan_ms: self.plan_ms as nat,
            run_ms: self.run_ms as nat,
            busy_ms: self.busy_ms as nat,
            max_parallel: self.max_parallel as nat,
            max_parallel_by_surface: peaks_view(self.max_parallel_by_surface@),
            nodes: self.nodes as nat,
            depth: self.depth as nat,
            effects: effects_view(self.effects@),
            forks_taken: self.forks_taken as nat,
            yield_reason: opt_str(self.yield_reason),
            evidence: opt_json(self.evidence),
            error: opt_str(self.error),
            plan: self.plan@,
            ledger: self.ledger@,
        }
    }
}

/// The receipt of a run, computed from its ledger alone. A ledger that was not closed is read at
/// `now_ms`.
pub open spec fn receipt_of(
    l: LedgerV,
    p: PlanV,
    status: Status,
    yield_reason: Option<Seq<char>>,
    evidence: Option<JsonV>,
    error: Option<Seq<char>>,
    now_ms: u128,
) -> ReceiptV {
    let ended = if l.ended_ms == 0 {
        now_ms
    } else {
        l.ended_ms
    };
    ReceiptV {
        plan_id: p.plan_id,
        status,
        samples: l.samples.len() as u32,
        tokens_in: tokens_in_of(l.samples),
        tokens_out: tokens_out_of(l.samples),
        wall_ms: if ended < l.started_ms {
            0
        } else {
            (ended - l.started_ms) as nat
        },
        plan_ms: covered(sample_spans(l.samples)).len() / 1000,
        run_ms: run_length(l.rows) / 1000,
        busy_ms: covered(call_spans(l.rows)).len() / 1000,
        max_parallel: peak(call_spans(l.rows)),
        max_parallel_by_surface: surface_peaks(l.rows),
        nodes: p.nodes.len(),
        depth: depth_spec(p),
        effects: effects_of(l.rows, p.nodes),
        forks_taken: l.forks.len(),
        yield_reason,
        evidence,
        error,
        plan: render_text(p),
        ledger: l,
    }
}

impl Ledger {
    /// An empty ledger, opened at `now_ms`.
    pub fn new(now_ms: u128) -> (r: Ledger)
        ensures
            r@.rows.len() == 0,
            r@.samples.len() == 0,
            r@.forks.len() == 0,
            r@.notes.len() == 0,
            r@.started_ms == now_ms,
            r@.ended_ms == 0,
    {
        let r = Ledger {
            rows: Vec::new(),
            samples: Vec::new(),
            forks: Vec::new(),
            notes: Vec::new(),
            started_ms: now_ms,
            ended_ms: 0,
        };
        r
    }

    fn calls(&self) -> (r: Vec<(u128, u128)>)
        ensures
            r@ == call_spans(self@.rows),
    {
        let ghost rs = self@.rows;
        let mut out: Vec<(u128, u128)> = Vec::new();
        let mut i: usize = 0;
        assert(out@ =~= call_spans(rs.take(0)));
        while i < self.rows.len()
            invariant
                i <= self.rows@.len(),
                rs == self@.rows,
                out@ == call_spans(rs.take(i as int)),
            decreases self.rows@.len() - i,
        {
            proof {
                assert(rs.take(i + 1).drop_last() =~= rs.take(i as int));
                assert(rs.take(i + 1).last() == self.rows@[i as int]@);
            }
            if !same(self.rows[i].surface.as_str(), "event") {
                out.push((self.rows[i].started_us, self.rows[i].ended_us));
            }
            i += 1;
        }
        assert(rs.take(i as int) =~= rs);
        out
    }

    fn calls_on(&self, surface: &str) -> (r: Vec<(u128, u128)>)
        ensures
            r@ == surface_spans(self@.rows, surface@),
    {
        let ghost rs = self@.rows;
        let mut out: Vec<(u128, u128)> = Vec::new();
        let mut i: usize = 0;
        assert(out@ =~= surface_spans(rs.take(0), surface@));
        while i < self.rows.len()
            invariant
                i <= self.rows@.len(),
                rs == self@.rows,
                out@ == surface_spans(rs.take(i as int), surface@),
            decreases self.rows@.len() - i,
        {
            proof {
                assert(rs.take(i + 1).drop_last() =~= rs.take(i as int));
                assert(rs.take(i + 1).last() == self.rows@[i as int]@);
            }
            if same(self.rows[i].surface.as_str(), surface) {
                out.push((self.rows[i].started_us, self.rows[i].ended_us));
            }
            i += 1;
        }
        assert(rs.take(i as int) =~= rs);
        out
    }

    /// The largest number of calls in flight at one instant, waits excluded. Reads count, so this
    /// is concurrency, not writes.
    pub fn max_parallel(&self) -> (r: usize)
        ensures
            r == peak(call_spans(self@.rows)),
    {
        let spans = self.calls();
        max_overlap(&spans)
    }

    /// The same for each surface, in ascending order of the surfaces.
    pub fn max_parallel_by_surface(&self) -> (r: Vec<(String, usize)>)
        ensures
            peaks_view(r@) == surface_peaks(self@.rows),
    {
        let ghost rs = self@.rows;
        let mut names: Vec<String> = Vec::new();
        let mut i: usize = 0;
        assert(views(names@) =~= call_surfaces(rs.take(0)));
        while i < self.rows.len()
            invariant
                i <= self.rows@.len(),
                rs == self@.rows,
                views(names@) == call_surfaces(rs.take(i as int)),
            decreases self.rows@.len() - i,
        {
            proof {
                assert(rs.take(i + 1).drop_last() =~= rs.take(i as int));
                assert(rs.take(i + 1).last() == self.rows@[i as int]@);
            }
            if !same(self.rows[i].surface.as_str(), "event") {
                let ghost o = views(names@);
                names.push(self.rows[i].surface.clone());
                assert(views(names@) =~= o.push(self.rows@[i as int].surface@));
            }
            i += 1;
        }
        assert(rs.take(i as int) =~= rs);
        let unique = sorted_unique(&names);
        let ghost all = surface_peaks(rs);
        let mut out: Vec<(String, usize)> = Vec::new();
        let mut j: usize = 0;
        assert(all.len() == unique@.len());
        assert(peaks_view(out@) =~= all.take(0));
        while j < unique.len()
            invariant
                j <= unique@.len() == all.len(),
                rs == self@.rows,
                all == surface_peaks(rs),
                views(unique@) == sort_dedup(call_surfaces(rs)),
                peaks_view(out@) == all.take(j as int),
            decreases unique@.len() - j,
        {
            let spans = self.calls_on(unique[j].as_str());
            let n = max_overlap(&spans);
            let ghost o = peaks_view(out@);
            out.push((unique[j].clone(), n));
            assert(peaks_view(out@) =~= o.push((unique@[j as int]@, n as nat)));
            assert(views(unique@)[j as int] == unique@[j as int]@);
            assert(all[j as int] == (unique@[j as int]@, n as nat));
            j += 1;
            assert(peaks_view(out@) =~= all.take(j as int));
        }
        assert(all.take(j as int) =~= all);
        out
    }

    /// Append a sample; its `seq` is assigned here.
    pub fn record_sample(&mut self, sample: Sample)
        requires
            old(self)@.samples.len() < u32::MAX,
        ensures
            final(self)@ == (LedgerV {
                samples: old(self)@.samples.push(
                    SampleV { seq: (old(self)@.samples.len() + 1) as u32, ..sample@ },
                ),
                ..old(self)@
            }),
    {
        assert(self@.samples.len() == self.samples@.len());
        let n: u32 = self.samples.len() as u32 + 1;
        let ghost before = self@.samples;
        let s = Sample {
            seq: n,
            kind: sample.kind,
            started_us: sample.started_us,
            ended_us: sample.ended_us,
            tokens_in: sample.tokens_in,
            tokens_out: sample.tokens_out,
            model: sample.model,
            effort: sample.effort,
        };
        self.samples.push(s);
        assert(self@.samples =~= before.push(s@));
    }

    pub fn sample_count(&self) -> (r: u32)
        ensures
            r == self@.samples.len() as u32,
    {
        assert(self@.samples.len() == self.samples@.len());
        self.samples.len() as u32
    }

    /// The tokens taken in and given out by all samples.
    pub fn tokens(&self) -> (r: (u64, u64))
        requires
            tokens_in_of(self@.samples) <= u64::MAX,
            tokens_out_of(self@.samples) <= u64::MAX,
        ensures
            r.0 == tokens_in_of(self@.samples),
            r.1 == tokens_out_of(self@.samples),
    {
        let ghost ss = self@.samples;
        let mut a: u64 = 0;
        let mut b: u64 = 0;
        let mut i: usize = 0;
        while i < self.samples.len()
            invariant
                i <= self.samples@.len(),
                ss == self@.samples,
                a == tokens_in_of(ss.take(i as int)),
                b == tokens_out_of(ss.take(i as int)),
                tokens_in_of(ss) <= u64::MAX,
                tokens_out_of(ss) <= u64::MAX,
            decreases self.samples@.len() - i,
        {
            proof {
                assert(ss.take(i + 1).drop_last() =~= ss.take(i as int));
                assert(ss.take(i + 1).last() == self.samples@[i as int]@);
                tokens_grow(ss, i + 1);
            }
            a = a + self.samples[i].tokens_in;
            b = b + self.samples[i].tokens_out;
            i += 1;
        }
        assert(ss.take(i as int) =~= ss);
        (a, b)
    }

    /// Microseconds the model was thinking: the union of sample spans, so overlapping samples are
    /// not double counted.
    pub fn plan_us(&self) -> (r: u128)
        ensures
            r == covered(sample_spans(self@.samples)).len(),
    {
        let ghost all = sample_spans(self@.samples);
        let mut out: Vec<(u128, u128)> = Vec::new();
        let mut i: usize = 0;
        assert(out@ =~= all.take(0));
        while i < self.samples.len()
            invariant
                i <= self.samples@.len() == all.len(),
                all == sample_spans(samples_view(self.samples@)),
                out@ == all.take(i as int),
            decreases self.samples@.len() - i,
        {
            out.push((self.samples[i].started_us, self.samples[i].ended_us));
            assert(all[i as int] == out@.last());
            i += 1;
            assert(out@ =~= all.take(i as int));
        }
        assert(all.take(i as int) =~= all);
        union_length(&out)
    }

    fn find_committed(&self, key: &str) -> (r: Option<&Row>)
        ensures
            match r {
                Some(x) => committed(self@.rows, key@) == Some(x@),
                None => committed(self@.rows, key@) is None,
            },
    {
        let ghost rs = self@.rows;
        let mut i: usize = self.rows.len();
        assert(rs.take(i as int) =~= rs);
        while i > 0
            invariant
                i <= self.rows@.len(),
                rs == self@.rows,
                committed(rs, key@) == committed(rs.take(i as int), key@),
            decreases i,
        {
            proof {
                assert(rs.take(i as int).drop_last() =~= rs.take(i - 1));
                assert(rs.take(i as int).last() == self.rows@[i - 1]@);
            }
            i -= 1;
            let row = &self.rows[i];
            let mine = match &row.key {
                Some(k) => same(k.as_str(), key),
                None => false,
            };
            if row.ok && mine {
                return Some(row);
            }
        }
        None
    }

    /// Nodes of `plan` this ledger already proves done: a keyed node whose key has an ok row.
    /// Nodes without a key (reads, waits) are never done; they re-run on resume, which is
    /// harmless.
    pub fn completed(&self, plan: &Plan) -> (r: Outputs)
        ensures
            r@ == completed_of(self@.rows, plan@.nodes),
    {
        let ghost ns = plan@.nodes;
        let ghost rs = self@.rows;
        let mut done = Outputs::new();
        let mut i: usize = 0;
        while i < plan.nodes.len()
            invariant
                i <= plan.nodes@.len(),
                ns == plan@.nodes,
                rs == self@.rows,
                done@ == completed_of(rs, ns.take(i as int)),
            decreases plan.nodes@.len() - i,
        {
            let n = &plan.nodes[i];
            proof {
                assert(ns.take(i + 1).drop_last() =~= ns.take(i as int));
                assert(ns.take(i + 1).last() == n@);
            }
            match &n.key {
                None => {},
                Some(k) => match self.find_committed(k.as_str()) {
                    Some(row) => done.insert(n.id.clone(), row.observed.clone()),
                    None => {},
                },
            }
            i += 1;
        }
        assert(ns.take(i as int) =~= ns);
        done
    }

    /// Microseconds in which at least one call was in flight. Unlike `run_us` this excludes the
    /// gaps an agent loop spends thinking between tool calls, so arms are comparable.
    pub fn busy_us(&self) -> (r: u128)
        ensures
            r == covered(call_spans(self@.rows)).len(),
    {
        let spans = self.calls();
        union_length(&spans)
    }

    /// Microseconds from the first effect starting to the last effect ending, gaps included.
    pub fn run_us(&self) -> (r: u128)
        ensures
            r == run_length(self@.rows),
    {
        let ghost rs = self@.rows;
        if self.rows.len() == 0 {
            return 0;
        }
        assert(rs[0] == self.rows@[0]@);
        assert(rs.take(1)[0] == rs[0]);
        let mut start: u128 = self.rows[0].started_us;
        let mut end: u128 = self.rows[0].ended_us;
        let mut i: usize = 1;
        while i < self.rows.len()
            invariant
                1 <= i <= self.rows@.len(),
                rs == self@.rows,
                start == first_start(rs.take(i as int)),
                end == last_end(rs.take(i as int)),
            decreases self.rows@.len() - i,
        {
            proof {
                assert(rs.take(i + 1).drop_last() =~= rs.take(i as int));
                assert(rs.take(i + 1).last() == self.rows@[i as int]@);
            }
            if self.rows[i].started_us < start {
                start = self.rows[i].started_us;
            }
            if self.rows[i].ended_us > end {
                end = self.rows[i].ended_us;
            }
            i += 1;
        }
        assert(rs.take(i as int) =~= rs);
        if end < start {
            0
        } else {
            end - start
        }
    }

    fn summary_of(&self, n: &Node) -> (r: Option<EffectSummary>)
        ensures
            match r {
                None => rows_of(self@.rows, n@.id).len() == 0,
                Some(e) => {
                    let mine = rows_of(self@.rows, n@.id);
                    mine.len() > 0 && e@ == (EffectSummaryV {
                        node: n@.id,
                        op: n@.op,
                        key: n@.key,
                        attempts: mine.len() as u32,
                        ok: mine.last().ok,
                        observed: mine.last().observed,
                    })
                },
            },
    {
        let ghost rs = self@.rows;
        let mut count: usize = 0;
        let mut last: usize = 0;
        let mut i: usize = 0;
        while i < self.rows.len()
            invariant
                i <= self.rows@.len(),
                rs == self@.rows,
                count <= i,
                count == rows_of(rs.take(i as int), n@.id).len(),
                count > 0 ==> last < i && rows_of(rs.take(i as int), n@.id).last() == rs[last as int],
            decreases self.rows@.len() - i,
        {
            proof {
                assert(rs.take(i + 1).drop_last() =~= rs.take(i as int));
                assert(rs.take(i + 1).last() == self.rows@[i as int]@);
            }
            if same(self.rows[i].node.as_str(), n.id.as_str()) {
                count += 1;
                last = i;
            }
            i += 1;
        }
        assert(rs.take(i as int) =~= rs);
        if count == 0 {
            None
        } else {
            assert(rs[last as int] == self.rows@[last as int]@);
            Some(
                EffectSummary {
                    node: n.id.clone(),
                    op: n.op.clone(),
                    key: clone_opt(&n.key),
                    attempts: count as u32,
                    ok: self.rows[last].ok,
                    observed: self.rows[last].observed.clone(),
                },
            )
        }
    }

    fn effects(&self, plan: &Plan) -> (r: Vec<EffectSummary>)
        ensures
            effects_view(r@) == effects_of(self@.rows, plan@.nodes),
    {
        let ghost ns = plan@.nodes;
        let ghost rs = self@.rows;
        let mut out: Vec<EffectSummary> = Vec::new();
        let mut i: usize = 0;
        assert(effects_view(out@) =~= effects_of(rs, ns.take(0)));
        while i < plan.nodes.len()
            invariant
                i <= plan.nodes@.len(),
                ns == plan@.nodes,
                rs == self@.rows,
                effects_view(out@) == effects_of(rs, ns.take(i as int)),
            decreases plan.nodes@.len() - i,
        {
            proof {
                assert(ns.take(i + 1).drop_last() =~= ns.take(i as int));
                assert(ns.take(i + 1).last() == plan.nodes@[i as int]@);
            }
            match self.summary_of(&plan.nodes[i]) {
                None => {},
                Some(e) => {
                    let ghost o = effects_view(out@);
                    out.push(e);
                    assert(effects_view(out@) =~= o.push(e@));
                },
            }
            i += 1;
        }
        assert(ns.take(i as int) =~= ns);
        out
    }

    /// The receipt of a run, computed from the rows and samples. A ledger that was not closed is
    /// read at `now_ms`.
    pub fn receipt(
        &self,
        plan: &Plan,
        status: Status,
        yield_reason: Option<String>,
        evidence: Option<Json>,
        error: Option<String>,
        now_ms: u128,
    ) -> (r: Receipt)
        requires
            plan.edges@.len() < usize::MAX,
            tokens_in_of(self@.samples) <= u64::MAX,
            tokens_out_of(self@.samples) <= u64::MAX,
        ensures
            r@ == receipt_of(
                self@,
                plan@,
                status,
                opt_str(yield_reason),
                opt_json(evidence),
                opt_str(error),
                now_ms,
            ),
    {
        let ended: u128 = if self.ended_ms == 0 {
            now_ms
        } else {
            self.ended_ms
        };
        let wall_ms: u128 = if ended < self.started_ms {
            0
        } else {
            ended - self.started_ms
        };
        let (tokens_in, tokens_out) = self.tokens();
        assert(plan@.nodes.len() == plan.nodes@.len());
        assert(self@.forks.len() == self.forks@.len());
        Receipt {
            plan_id: plan.plan_id.clone(),
            status,
            samples: self.sample_count(),
            tokens_in,
            tokens_out,
            wall_ms,
            plan_ms: self.plan_us() / 1000,
            run_ms: self.run_us() / 1000,
            busy_ms: self.busy_us() / 1000,
            max_parallel: self.max_parallel(),
            max_parallel_by_surface: self.max_parallel_by_surface(),
            nodes: plan.nodes.len(),
            depth: plan.depth(),
            effects: self.effects(plan),
            forks_taken: self.forks.len(),
            yield_reason,
            evidence,
            error,
            plan: plan.render(),
            ledger: self.clone(),
        }
    }
}

// ---------- what a ledger keeps ----------

/// Only a key proves a node done: a node is done exactly when some node of that name has a key
/// under which a row succeeded.
pub proof fn only_keys_prove_done(rs: Seq<RowV>, ns: Seq<NodeV>, id: Seq<char>)
    ensures
        completed_of(rs, ns).contains_key(id) <==> exists|i: int|
            0 <= i < ns.len() && (#[trigger] ns[i]).id == id && (ns[i].key matches Some(k)
                && committed(rs, k) is Some),
    decreases ns.len(),
{
    if ns.len() > 0 {
        let t = ns.drop_last();
        only_keys_prove_done(rs, t, id);
        let done = completed_of(rs, t).contains_key(id);
        if done {
            let i = choose|i: int|
                0 <= i < t.len() && (#[trigger] t[i]).id == id && (t[i].key matches Some(k)
                    && committed(rs, k) is Some);
            assert(ns[i] == t[i]);
        }
        if exists|i: int|
            0 <= i < ns.len() && (#[trigger] ns[i]).id == id && (ns[i].key matches Some(k)
                && committed(rs, k) is Some) {
            let i = choose|i: int|
                0 <= i < ns.len() && (#[trigger] ns[i]).id == id && (ns[i].key matches Some(k)
                    && committed(rs, k) is Some);
            if i < t.len() {
                assert(t[i] == ns[i]);
            }
        }
    }
}

proof fn committed_stays(rs: Seq<RowV>, more: Seq<RowV>, key: Seq<char>)
    requires
        committed(rs, key) is Some,
    ensures
        committed(rs + more, key) is Some,
    decreases more.len(),
{
    if more.len() == 0 {
        assert(rs + more =~= rs);
    } else {
        committed_stays(rs, more.drop_last(), key);
        assert((rs + more).drop_last() =~= rs + more.drop_last());
    }
}

/// Rows are only appended, so what a ledger proves done stays done.
pub proof fn done_stays_done(rs: Seq<RowV>, more: Seq<RowV>, ns: Seq<NodeV>, id: Seq<char>)
    requires
        completed_of(rs, ns).contains_key(id),
    ensures
        completed_of(rs + more, ns).contains_key(id),
{
    only_keys_prove_done(rs, ns, id);
    only_keys_prove_done(rs + more, ns, id);
    let i = choose|i: int|
        0 <= i < ns.len() && (#[trigger] ns[i]).id == id && (ns[i].key matches Some(k)
            && committed(rs, k) is Some);
    committed_stays(rs, more, ns[i].key->0);
}

/// A committed key is never taken from a row that failed or carries another key.
pub proof fn committed_is_ok(rs: Seq<RowV>, key: Seq<char>)
    ensures
        committed(rs, key) matches Some(r) ==> r.ok && r.key == Some(key) && rs.contains(r),
    decreases rs.len(),
{
    if rs.len() > 0 {
        committed_is_ok(rs.drop_last(), key);
        if committed(rs, key) is Some {
            let r = committed(rs, key)->0;
            if rs.last().ok && rs.last().key == Some(key) {
                assert(rs[rs.len() - 1] == r);
            } else {
                let t = rs.drop_last();
                let k = choose|k: int| 0 <= k < t.len() && t[k] == r;
                assert(rs[k] == r);
            }
        }
    }
}

} // verus!
