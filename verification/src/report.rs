//! What many runs come to: one cell for each task and arm.

use crate::json::{Json, JsonV};
use crate::ledger::peaks_view;
use crate::quarters::{all_small, median, median_of, quantile, quantile_of, small, Quarters};
use crate::tasks::{checks_view, Check, CheckV};
use crate::text::{lt, owned, same, sort_dedup, sorted_unique, str_lt, views};
use crate::world::opt_str;
use vstd::prelude::*;

verus! {

/// One run of an arm on a task.
#[derive(Debug)]
pub struct RunResult {
    pub task: String,
    pub task_title: String,
    pub arm: String,
    pub run: u32,
    pub status: String,
    pub planner: String,
    pub samples: u32,
    pub tokens_in: u64,
    pub tokens_out: u64,
    pub wall_ms: u128,
    pub plan_ms: u128,
    pub run_ms: u128,
    /// Time at least one call was in flight, where it was measured.
    pub busy_ms: Option<u128>,
    pub max_parallel: usize,
    pub max_parallel_by_surface: Vec<(String, usize)>,
    pub nodes: usize,
    pub depth: usize,
    pub correct: bool,
    pub checks: Vec<Check>,
    pub double_sends: usize,
    pub forks: usize,
    pub yield_reason: Option<String>,
    pub error: Option<String>,
    pub snapshot: Json,
    pub receipt: Json,
    /// The intent arm D compiled, whether hand-written or a planner sample.
    pub intent: Json,
    /// How this run was produced. Empty model and effort mean no model was involved.
    pub model: String,
    pub effort: String,
    pub base_url: String,
    pub latency_ms: u64,
    pub surfaces: String,
}

/// How a run was produced, and what it was about.
pub struct MadeV {
    pub task_title: Seq<char>,
    pub planner: Seq<char>,
    pub nodes: usize,
    pub depth: usize,
    pub yield_reason: Option<Seq<char>>,
    pub intent: JsonV,
    pub model: Seq<char>,
    pub effort: Seq<char>,
    pub base_url: Seq<char>,
    pub latency_ms: u64,
    pub surfaces: Seq<char>,
}

pub struct RunResultV {
    pub task: Seq<char>,
    pub arm: Seq<char>,
    pub run: u32,
    pub status: Seq<char>,
    pub samples: u32,
    pub tokens_in: u64,
    pub tokens_out: u64,
    pub wall_ms: u128,
    pub plan_ms: u128,
    pub run_ms: u128,
    pub busy_ms: Option<u128>,
    pub max_parallel: usize,
    pub max_parallel_by_surface: Seq<(Seq<char>, nat)>,
    pub correct: bool,
    pub checks: Seq<CheckV>,
    pub double_sends: usize,
    pub forks: usize,
    pub error: Option<Seq<char>>,
    pub snapshot: JsonV,
    pub receipt: JsonV,
    pub made: MadeV,
}

impl View for RunResult {
    type V = RunResultV;

    open spec fn view(&self) -> RunResultV {
        RunResultV {
            task: self.task@,
            arm: self.arm@,
            run: self.run,
            status: self.status@,
            samples: self.samples,
            tokens_in: self.tokens_in,
            tokens_out: self.tokens_out,
            wall_ms: self.wall_ms,
            plan_ms: self.plan_ms,
            run_ms: self.run_ms,
            busy_ms: self.busy_ms,
            max_parallel: self.max_parallel,
            max_parallel_by_surface: peaks_view(self.max_parallel_by_surface@),
            correct: self.correct,
            checks: checks_view(self.checks@),
            double_sends: self.double_sends,
            forks: self.forks,
            error: opt_str(self.error),
            snapshot: self.snapshot@,
            receipt: self.receipt@,
            made: MadeV {
                task_title: self.task_title@,
                planner: self.planner@,
                nodes: self.nodes,
                depth: self.depth,
                yield_reason: opt_str(self.yield_reason),
                intent: self.intent@,
                model: self.model@,
                effort: self.effort@,
                base_url: self.base_url@,
                latency_ms: self.latency_ms,
                surfaces: self.surfaces@,
            },
        }
    }
}

pub open spec fn results_view(rs: Seq<RunResult>) -> Seq<RunResultV> {
    rs.map_values(|r: RunResult| r@)
}

/// The runs of an arm on a task, in numbers.
#[derive(Debug)]
pub struct Cell {
    pub task: String,
    pub arm: String,
    pub runs: usize,
    pub correct: usize,
    pub samples_median: Quarters,
    pub tokens_median: Quarters,
    pub wall_ms_median: Quarters,
    pub wall_ms_min: u128,
    pub wall_ms_max: u128,
    pub plan_ms_median: Quarters,
    pub run_ms_median: Quarters,
    pub busy_ms_median: Quarters,
    pub samples_p25: Quarters,
    pub samples_p75: Quarters,
    pub wall_ms_p25: Quarters,
    pub wall_ms_p75: Quarters,
    pub run_ms_p25: Quarters,
    pub run_ms_p75: Quarters,
    pub max_parallel_median: Quarters,
    pub max_parallel_max: u128,
    pub double_sends_total: u128,
    pub forks_total: u128,
    pub errors: Vec<String>,
}

pub struct CellV {
    pub task: Seq<char>,
    pub arm: Seq<char>,
    pub runs: nat,
    pub correct: nat,
    pub samples_median: int,
    pub tokens_median: int,
    pub wall_ms_median: int,
    pub wall_ms_min: u128,
    pub wall_ms_max: u128,
    pub plan_ms_median: int,
    pub run_ms_median: int,
    pub busy_ms_median: int,
    pub samples_p25: int,
    pub samples_p75: int,
    pub wall_ms_p25: int,
    pub wall_ms_p75: int,
    pub run_ms_p25: int,
    pub run_ms_p75: int,
    pub max_parallel_median: int,
    pub max_parallel_max: u128,
    pub double_sends_total: nat,
    pub forks_total: nat,
    pub errors: Seq<Seq<char>>,
}

impl View for Cell {
    type V = CellV;

    open spec fn view(&self) -> CellV {
        CellV {
            task: self.task@,
            arm: self.arm@,
            runs: self.runs as nat,
            correct: self.correct as nat,
            samples_median: self.samples_median.0 as int,
            tokens_median: self.tokens_median.0 as int,
            wall_ms_median: self.wall_ms_median.0 as int,
            wall_ms_min: self.wall_ms_min,
            wall_ms_max: self.wall_ms_max,
            plan_ms_median: self.plan_ms_median.0 as int,
            run_ms_median: self.run_ms_median.0 as int,
            busy_ms_median: self.busy_ms_median.0 as int,
            samples_p25: self.samples_p25.0 as int,
            samples_p75: self.samples_p75.0 as int,
            wall_ms_p25: self.wall_ms_p25.0 as int,
            wall_ms_p75: self.wall_ms_p75.0 as int,
            run_ms_p25: self.run_ms_p25.0 as int,
            run_ms_p75: self.run_ms_p75.0 as int,
            max_parallel_median: self.max_parallel_median.0 as int,
            max_parallel_max: self.max_parallel_max,
            double_sends_total: self.double_sends_total as nat,
            forks_total: self.forks_total as nat,
            errors: views(self.errors@),
        }
    }
}

pub open spec fn cells_view(cs: Seq<Cell>) -> Seq<CellV> {
    cs.map_values(|c: Cell| c@)
}

// ---------- columns ----------

/// A number of a run.
#[derive(Clone, Copy, Debug, PartialEq, Eq, Structural)]
pub enum Field {
    Samples,
    Tokens,
    Wall,
    Plan,
    Run,
    Busy,
    Parallel,
    Doubles,
    Forks,
}

/// A number of a run. Where the busy time was not measured, the run time stands for it.
pub open spec fn number(r: RunResultV, f: Field) -> u128 {
    match f {
        Field::Samples => r.samples as u128,
        Field::Tokens => (r.tokens_in + r.tokens_out) as u128,
        Field::Wall => r.wall_ms,
        Field::Plan => r.plan_ms,
        Field::Run => r.run_ms,
        Field::Busy => match r.busy_ms {
            Some(b) => b,
            None => r.run_ms,
        },
        Field::Parallel => r.max_parallel as u128,
        Field::Doubles => r.double_sends as u128,
        Field::Forks => r.forks as u128,
    }
}

/// Whether a run belongs to a cell.
pub open spec fn of_cell(r: RunResultV, task: Seq<char>, arm: Seq<char>) -> bool {
    r.task == task && r.arm == arm
}

/// The runs of a cell.
pub open spec fn cell_runs(rs: Seq<RunResultV>, task: Seq<char>, arm: Seq<char>) -> Seq<RunResultV>
    decreases rs.len(),
{
    if rs.len() == 0 {
        Seq::empty()
    } else if of_cell(rs.last(), task, arm) {
        cell_runs(rs.drop_last(), task, arm).push(rs.last())
    } else {
        cell_runs(rs.drop_last(), task, arm)
    }
}

/// A number of each run.
pub open spec fn column(rs: Seq<RunResultV>, f: Field) -> Seq<u128> {
    rs.map_values(|r: RunResultV| number(r, f))
}

/// The least number, or nought.
pub open spec fn least(xs: Seq<u128>) -> u128
    decreases xs.len(),
{
    if xs.len() == 0 {
        0
    } else if xs.len() == 1 || xs.last() < least(xs.drop_last()) {
        xs.last()
    } else {
        least(xs.drop_last())
    }
}

/// The greatest number, or nought.
pub open spec fn greatest(xs: Seq<u128>) -> u128
    decreases xs.len(),
{
    if xs.len() == 0 {
        0
    } else if xs.len() == 1 || xs.last() > greatest(xs.drop_last()) {
        xs.last()
    } else {
        greatest(xs.drop_last())
    }
}

/// The sum of numbers.
pub open spec fn total(xs: Seq<u128>) -> nat
    decreases xs.len(),
{
    if xs.len() == 0 {
        0
    } else {
        total(xs.drop_last()) + xs.last() as nat
    }
}

/// How many runs are correct.
pub open spec fn correct_runs(rs: Seq<RunResultV>) -> nat
    decreases rs.len(),
{
    if rs.len() == 0 {
        0
    } else {
        correct_runs(rs.drop_last()) + if rs.last().correct {
            1nat
        } else {
            0
        }
    }
}

/// What went wrong in the runs that did.
pub open spec fn run_errors(rs: Seq<RunResultV>) -> Seq<Seq<char>>
    decreases rs.len(),
{
    if rs.len() == 0 {
        Seq::empty()
    } else {
        match rs.last().error {
            Some(e) => run_errors(rs.drop_last()).push(e),
            None => run_errors(rs.drop_last()),
        }
    }
}

/// The cell of a task and an arm.
pub open spec fn cell_of(all: Seq<RunResultV>, task: Seq<char>, arm: Seq<char>) -> CellV {
    let rs = cell_runs(all, task, arm);
    CellV {
        task,
        arm,
        runs: rs.len(),
        correct: correct_runs(rs),
        samples_median: median_of(column(rs, Field::Samples)),
        tokens_median: median_of(column(rs, Field::Tokens)),
        wall_ms_median: median_of(column(rs, Field::Wall)),
        wall_ms_min: least(column(rs, Field::Wall)),
        wall_ms_max: greatest(column(rs, Field::Wall)),
        plan_ms_median: median_of(column(rs, Field::Plan)),
        run_ms_median: median_of(column(rs, Field::Run)),
        busy_ms_median: median_of(column(rs, Field::Busy)),
        samples_p25: quantile_of(column(rs, Field::Samples), 1),
        samples_p75: quantile_of(column(rs, Field::Samples), 3),
        wall_ms_p25: quantile_of(column(rs, Field::Wall), 1),
        wall_ms_p75: quantile_of(column(rs, Field::Wall), 3),
        run_ms_p25: quantile_of(column(rs, Field::Run), 1),
        run_ms_p75: quantile_of(column(rs, Field::Run), 3),
        max_parallel_median: median_of(column(rs, Field::Parallel)),
        max_parallel_max: greatest(column(rs, Field::Parallel)),
        double_sends_total: total(column(rs, Field::Doubles)),
        forks_total: total(column(rs, Field::Forks)),
        errors: run_errors(rs),
    }
}

/// The tasks of some runs.
pub open spec fn tasks_of(rs: Seq<RunResultV>) -> Seq<Seq<char>> {
    rs.map_values(|r: RunResultV| r.task)
}

/// The arms that ran a task.
pub open spec fn arms_of(rs: Seq<RunResultV>, task: Seq<char>) -> Seq<Seq<char>>
    decreases rs.len(),
{
    if rs.len() == 0 {
        Seq::empty()
    } else if rs.last().task == task {
        arms_of(rs.drop_last(), task).push(rs.last().arm)
    } else {
        arms_of(rs.drop_last(), task)
    }
}

/// The cells of a task, by arm.
pub open spec fn task_cells(rs: Seq<RunResultV>, task: Seq<char>) -> Seq<CellV> {
    sort_dedup(arms_of(rs, task)).map_values(|a: Seq<char>| cell_of(rs, task, a))
}

/// The cells of some tasks.
pub open spec fn cells_of(rs: Seq<RunResultV>, tasks: Seq<Seq<char>>) -> Seq<CellV>
    decreases tasks.len(),
{
    if tasks.len() == 0 {
        Seq::empty()
    } else {
        cells_of(rs, tasks.drop_last()) + task_cells(rs, tasks.last())
    }
}

/// The cells of all runs: by task, then by arm.
pub open spec fn summary(rs: Seq<RunResultV>) -> Seq<CellV> {
    cells_of(rs, sort_dedup(tasks_of(rs)))
}

/// The times of a run can be counted in quarters.
pub open spec fn times_small(r: RunResultV) -> bool {
    small(r.wall_ms) && small(r.plan_ms) && small(r.run_ms) && (r.busy_ms matches Some(b) ==> small(
        b,
    ))
}

pub open spec fn all_times_small(rs: Seq<RunResultV>) -> bool {
    forall|i: int| 0 <= i < rs.len() ==> times_small(#[trigger] rs[i])
}

proof fn cell_runs_small(rs: Seq<RunResultV>, task: Seq<char>, arm: Seq<char>, f: Field)
    requires
        all_times_small(rs),
    ensures
        all_small(column(cell_runs(rs, task, arm), f)),
    decreases rs.len(),
{
    if rs.len() > 0 {
        let d = rs.drop_last();
        assert forall|i: int| 0 <= i < d.len() implies times_small(#[trigger] d[i]) by {
            assert(d[i] == rs[i]);
        }
        cell_runs_small(d, task, arm, f);
        assert(times_small(rs[rs.len() - 1]));
        let c = column(cell_runs(rs, task, arm), f);
        let p = column(cell_runs(d, task, arm), f);
        assert forall|i: int| 0 <= i < c.len() implies small(#[trigger] c[i]) by {
            if i < p.len() {
                assert(c[i] == p[i]);
            }
        }
    }
}

fn number_in(r: &RunResult, f: Field) -> (n: u128)
    ensures
        n == number(r@, f),
{
    match f {
        Field::Samples => r.samples as u128,
        Field::Tokens => r.tokens_in as u128 + r.tokens_out as u128,
        Field::Wall => r.wall_ms,
        Field::Plan => r.plan_ms,
        Field::Run => r.run_ms,
        Field::Busy => match r.busy_ms {
            Some(b) => b,
            None => r.run_ms,
        },
        Field::Parallel => r.max_parallel as u128,
        Field::Doubles => r.double_sends as u128,
        Field::Forks => r.forks as u128,
    }
}

fn cell_column(rs: &Vec<RunResult>, task: &str, arm: &str, f: Field) -> (r: Vec<u128>)
    ensures
        r@ == column(cell_runs(results_view(rs@), task@, arm@), f),
{
    let ghost vs = results_view(rs@);
    let mut out: Vec<u128> = Vec::new();
    let mut i: usize = 0;
    assert(out@ =~= column(cell_runs(vs.take(0), task@, arm@), f));
    while i < rs.len()
        invariant
            i <= rs@.len() == vs.len(),
            vs == results_view(rs@),
            out@ == column(cell_runs(vs.take(i as int), task@, arm@), f),
        decreases rs@.len() - i,
    {
        proof {
            assert(vs.take(i + 1).drop_last() =~= vs.take(i as int));
            assert(vs.take(i + 1).last() == rs@[i as int]@);
        }
        if same(rs[i].task.as_str(), task) && same(rs[i].arm.as_str(), arm) {
            let n = number_in(&rs[i], f);
            let ghost o = out@;
            out.push(n);
            assert(out@ =~= column(cell_runs(vs.take(i + 1), task@, arm@), f));
        }
        i += 1;
    }
    assert(vs.take(i as int) =~= vs);
    out
}

fn least_in(xs: &Vec<u128>) -> (r: u128)
    ensures
        r == least(xs@),
{
    if xs.len() == 0 {
        return 0;
    }
    let mut m = xs[0];
    let mut i: usize = 1;
    assert(xs@.take(1).last() == xs@[0]);
    while i < xs.len()
        invariant
            1 <= i <= xs@.len(),
            m == least(xs@.take(i as int)),
        decreases xs@.len() - i,
    {
        assert(xs@.take(i + 1).drop_last() =~= xs@.take(i as int));
        if xs[i] < m {
            m = xs[i];
        }
        i += 1;
    }
    assert(xs@.take(i as int) =~= xs@);
    m
}

fn greatest_in(xs: &Vec<u128>) -> (r: u128)
    ensures
        r == greatest(xs@),
{
    if xs.len() == 0 {
        return 0;
    }
    let mut m = xs[0];
    let mut i: usize = 1;
    assert(xs@.take(1).last() == xs@[0]);
    while i < xs.len()
        invariant
            1 <= i <= xs@.len(),
            m == greatest(xs@.take(i as int)),
        decreases xs@.len() - i,
    {
        assert(xs@.take(i + 1).drop_last() =~= xs@.take(i as int));
        if xs[i] > m {
            m = xs[i];
        }
        i += 1;
    }
    assert(xs@.take(i as int) =~= xs@);
    m
}

fn total_in(xs: &Vec<u128>) -> (r: u128)
    requires
        forall|i: int| 0 <= i < xs@.len() ==> #[trigger] xs@[i] <= usize::MAX,
    ensures
        r == total(xs@),
{
    let mut t: u128 = 0;
    let mut i: usize = 0;
    while i < xs.len()
        invariant
            i <= xs@.len(),
            forall|i: int| 0 <= i < xs@.len() ==> #[trigger] xs@[i] <= usize::MAX,
            t == total(xs@.take(i as int)),
            t <= i * 0xFFFF_FFFF_FFFF_FFFF,
        decreases xs@.len() - i,
    {
        assert(xs@.take(i + 1).drop_last() =~= xs@.take(i as int));
        assert(xs@[i as int] <= usize::MAX);
        t = t + xs[i];
        i += 1;
    }
    assert(xs@.take(i as int) =~= xs@);
    t
}

proof fn counts_fit(rs: Seq<RunResultV>, f: Field)
    requires
        f == Field::Doubles || f == Field::Forks,
    ensures
        forall|i: int| 0 <= i < column(rs, f).len() ==> #[trigger] column(rs, f)[i] <= usize::MAX,
{
}

fn count_correct(rs: &Vec<RunResult>, task: &str, arm: &str) -> (r: (usize, usize))
    ensures
        r.0 == cell_runs(results_view(rs@), task@, arm@).len(),
        r.1 == correct_runs(cell_runs(results_view(rs@), task@, arm@)),
{
    let ghost vs = results_view(rs@);
    let mut n: usize = 0;
    let mut c: usize = 0;
    let mut i: usize = 0;
    while i < rs.len()
        invariant
            i <= rs@.len() == vs.len(),
            vs == results_view(rs@),
            c <= n <= i,
            n == cell_runs(vs.take(i as int), task@, arm@).len(),
            c == correct_runs(cell_runs(vs.take(i as int), task@, arm@)),
        decreases rs@.len() - i,
    {
        let len = rs.len();
        assert(i < len);
        proof {
            assert(vs.take(i + 1).drop_last() =~= vs.take(i as int));
            assert(vs.take(i + 1).last() == rs@[i as int]@);
            let p = cell_runs(vs.take(i as int), task@, arm@);
            assert(p.push(rs@[i as int]@).drop_last() =~= p);
        }
        if same(rs[i].task.as_str(), task) && same(rs[i].arm.as_str(), arm) {
            n += 1;
            if rs[i].correct {
                c += 1;
            }
        }
        i += 1;
    }
    assert(vs.take(i as int) =~= vs);
    (n, c)
}

fn errors_in(rs: &Vec<RunResult>, task: &str, arm: &str) -> (r: Vec<String>)
    ensures
        views(r@) == run_errors(cell_runs(results_view(rs@), task@, arm@)),
{
    let ghost vs = results_view(rs@);
    let mut out: Vec<String> = Vec::new();
    let mut i: usize = 0;
    assert(views(out@) =~= run_errors(cell_runs(vs.take(0), task@, arm@)));
    while i < rs.len()
        invariant
            i <= rs@.len() == vs.len(),
            vs == results_view(rs@),
            views(out@) == run_errors(cell_runs(vs.take(i as int), task@, arm@)),
        decreases rs@.len() - i,
    {
        proof {
            assert(vs.take(i + 1).drop_last() =~= vs.take(i as int));
            assert(vs.take(i + 1).last() == rs@[i as int]@);
            let p = cell_runs(vs.take(i as int), task@, arm@);
            assert(p.push(rs@[i as int]@).drop_last() =~= p);
        }
        if same(rs[i].task.as_str(), task) && same(rs[i].arm.as_str(), arm) {
            match &rs[i].error {
                Some(e) => {
                    let x = e.clone();
                    let ghost o = views(out@);
                    out.push(x);
                    assert(views(out@) =~= o.push(x@));
                },
                None => {},
            }
        }
        i += 1;
    }
    assert(vs.take(i as int) =~= vs);
    out
}

fn make_cell(rs: &Vec<RunResult>, task: &str, arm: &str) -> (c: Cell)
    requires
        all_times_small(results_view(rs@)),
    ensures
        c@ == cell_of(results_view(rs@), task@, arm@),
{
    let ghost vs = results_view(rs@);
    let ghost own = cell_runs(vs, task@, arm@);
    proof {
        assert forall|f: Field| #[trigger] all_small(column(own, f)) by {
            cell_runs_small(vs, task@, arm@, f);
        }
        counts_fit(own, Field::Doubles);
        counts_fit(own, Field::Forks);
    }
    let (runs, correct) = count_correct(rs, task, arm);
    let samples = cell_column(rs, task, arm, Field::Samples);
    let tokens = cell_column(rs, task, arm, Field::Tokens);
    let wall = cell_column(rs, task, arm, Field::Wall);
    let plan = cell_column(rs, task, arm, Field::Plan);
    let run = cell_column(rs, task, arm, Field::Run);
    let busy = cell_column(rs, task, arm, Field::Busy);
    let parallel = cell_column(rs, task, arm, Field::Parallel);
    let doubles = cell_column(rs, task, arm, Field::Doubles);
    let forks = cell_column(rs, task, arm, Field::Forks);
    Cell {
        task: owned(task),
        arm: owned(arm),
        runs,
        correct,
        samples_median: median(&samples),
        tokens_median: median(&tokens),
        wall_ms_median: median(&wall),
        wall_ms_min: least_in(&wall),
        wall_ms_max: greatest_in(&wall),
        plan_ms_median: median(&plan),
        run_ms_median: median(&run),
        busy_ms_median: median(&busy),
        samples_p25: quantile(&samples, 1),
        samples_p75: quantile(&samples, 3),
        wall_ms_p25: quantile(&wall, 1),
        wall_ms_p75: quantile(&wall, 3),
        run_ms_p25: quantile(&run, 1),
        run_ms_p75: quantile(&run, 3),
        max_parallel_median: median(&parallel),
        max_parallel_max: greatest_in(&parallel),
        double_sends_total: total_in(&doubles),
        forks_total: total_in(&forks),
        errors: errors_in(rs, task, arm),
    }
}

fn task_names(rs: &Vec<RunResult>) -> (r: Vec<String>)
    ensures
        views(r@) == tasks_of(results_view(rs@)),
{
    let ghost all = tasks_of(results_view(rs@));
    let mut out: Vec<String> = Vec::new();
    let mut i: usize = 0;
    assert(views(out@) =~= all.take(0));
    while i < rs.len()
        invariant
            i <= rs@.len() == all.len(),
            all == tasks_of(results_view(rs@)),
            views(out@) == all.take(i as int),
        decreases rs@.len() - i,
    {
        let x = rs[i].task.clone();
        let ghost o = views(out@);
        out.push(x);
        assert(results_view(rs@)[i as int] == rs@[i as int]@);
        i += 1;
        assert(views(out@) =~= o.push(x@));
        assert(views(out@) =~= all.take(i as int));
    }
    assert(all.take(i as int) =~= all);
    out
}

fn arm_names_of(rs: &Vec<RunResult>, task: &str) -> (r: Vec<String>)
    ensures
        views(r@) == arms_of(results_view(rs@), task@),
{
    let ghost vs = results_view(rs@);
    let mut out: Vec<String> = Vec::new();
    let mut i: usize = 0;
    assert(views(out@) =~= arms_of(vs.take(0), task@));
    while i < rs.len()
        invariant
            i <= rs@.len() == vs.len(),
            vs == results_view(rs@),
            views(out@) == arms_of(vs.take(i as int), task@),
        decreases rs@.len() - i,
    {
        proof {
            assert(vs.take(i + 1).drop_last() =~= vs.take(i as int));
            assert(vs.take(i + 1).last() == rs@[i as int]@);
        }
        if same(rs[i].task.as_str(), task) {
            let x = rs[i].arm.clone();
            let ghost o = views(out@);
            out.push(x);
            assert(views(out@) =~= o.push(x@));
        }
        i += 1;
    }
    assert(vs.take(i as int) =~= vs);
    out
}

fn push_task(rs: &Vec<RunResult>, task: &str, out: &mut Vec<Cell>)
    requires
        all_times_small(results_view(rs@)),
    ensures
        cells_view(final(out)@) == cells_view(old(out)@) + task_cells(results_view(rs@), task@),
{
    let ghost vs = results_view(rs@);
    let ghost before = cells_view(out@);
    let ghost all = task_cells(vs, task@);
    let names = arm_names_of(rs, task);
    let arms = sorted_unique(&names);
    assert(views(arms@).len() == arms@.len());
    let mut i: usize = 0;
    assert(cells_view(out@) =~= before + all.take(0));
    while i < arms.len()
        invariant
            i <= arms@.len() == all.len(),
            vs == results_view(rs@),
            all_times_small(vs),
            all == task_cells(vs, task@),
            views(arms@) == sort_dedup(arms_of(vs, task@)),
            cells_view(out@) == before + all.take(i as int),
        decreases arms@.len() - i,
    {
        let c = make_cell(rs, task, arms[i].as_str());
        let ghost o = cells_view(out@);
        proof {
            assert(views(arms@)[i as int] == arms@[i as int]@);
            assert(all[i as int] == cell_of(vs, task@, arms@[i as int]@));
        }
        out.push(c);
        i += 1;
        assert(cells_view(out@) =~= o.push(c@));
        assert(cells_view(out@) =~= before + all.take(i as int));
    }
    assert(all.take(i as int) =~= all);
}

/// The cells of all runs: by task, then by arm.
pub fn summarize(results: &Vec<RunResult>) -> (r: Vec<Cell>)
    requires
        all_times_small(results_view(results@)),
    ensures
        cells_view(r@) == summary(results_view(results@)),
{
    let ghost vs = results_view(results@);
    let names = task_names(results);
    let tasks = sorted_unique(&names);
    let ghost ts = views(tasks@);
    assert(ts.len() == tasks@.len());
    let mut out: Vec<Cell> = Vec::new();
    let mut i: usize = 0;
    assert(cells_view(out@) =~= cells_of(vs, ts.take(0)));
    while i < tasks.len()
        invariant
            i <= tasks@.len() == ts.len(),
            ts == views(tasks@),
            vs == results_view(results@),
            all_times_small(vs),
            cells_view(out@) == cells_of(vs, ts.take(i as int)),
        decreases tasks@.len() - i,
    {
        proof {
            assert(ts.take(i + 1).drop_last() =~= ts.take(i as int));
            assert(ts.take(i + 1).last() == tasks@[i as int]@);
        }
        push_task(results, tasks[i].as_str(), &mut out);
        i += 1;
    }
    assert(ts.take(i as int) =~= ts);
    out
}

/// Whether the times of every run can be counted in quarters.
pub fn times_fit(results: &Vec<RunResult>) -> (r: bool)
    ensures
        r == all_times_small(results_view(results@)),
{
    let ghost vs = results_view(results@);
    let top: u128 = 0x0FFF_FFFF_FFFF_FFFF_FFFF_FFFF_FFFF_FFFF;
    let mut i: usize = 0;
    while i < results.len()
        invariant
            i <= results@.len() == vs.len(),
            vs == results_view(results@),
            top == 0x0FFF_FFFF_FFFF_FFFF_FFFF_FFFF_FFFF_FFFF,
            forall|j: int| 0 <= j < i ==> times_small(#[trigger] vs[j]),
        decreases results@.len() - i,
    {
        assert(vs[i as int] == results@[i as int]@);
        let r = &results[i];
        let busy = match r.busy_ms {
            Some(b) => b <= top,
            None => true,
        };
        if !(r.wall_ms <= top && r.plan_ms <= top && r.run_ms <= top && busy) {
            return false;
        }
        i += 1;
    }
    true
}

// ---------- laws ----------

proof fn cell_runs_has(rs: Seq<RunResultV>, task: Seq<char>, arm: Seq<char>, i: int)
    requires
        0 <= i < rs.len(),
        of_cell(rs[i], task, arm),
    ensures
        cell_runs(rs, task, arm).len() > 0,
    decreases rs.len(),
{
    if i < rs.len() - 1 {
        cell_runs_has(rs.drop_last(), task, arm, i);
    }
}

proof fn arms_of_has(rs: Seq<RunResultV>, i: int)
    requires
        0 <= i < rs.len(),
    ensures
        arms_of(rs, rs[i].task).contains(rs[i].arm),
    decreases rs.len(),
{
    let task = rs[i].task;
    if i < rs.len() - 1 {
        arms_of_has(rs.drop_last(), i);
        let p = arms_of(rs.drop_last(), task);
        let k = choose|k: int| 0 <= k < p.len() && p[k] == rs[i].arm;
        assert(arms_of(rs, task)[k] == rs[i].arm);
    } else {
        let p = arms_of(rs.drop_last(), task);
        assert(arms_of(rs, task)[p.len() as int] == rs[i].arm);
    }
}

proof fn cells_of_has(rs: Seq<RunResultV>, tasks: Seq<Seq<char>>, task: Seq<char>, arm: Seq<char>)
    requires
        tasks.contains(task),
        sort_dedup(arms_of(rs, task)).contains(arm),
    ensures
        cells_of(rs, tasks).contains(cell_of(rs, task, arm)),
    decreases tasks.len(),
{
    let c = cell_of(rs, task, arm);
    let a = cells_of(rs, tasks.drop_last());
    let b = task_cells(rs, tasks.last());
    let i = choose|i: int| 0 <= i < tasks.len() && tasks[i] == task;
    if i == tasks.len() - 1 {
        let arms = sort_dedup(arms_of(rs, task));
        let k = choose|k: int| 0 <= k < arms.len() && arms[k] == arm;
        assert(b[k] == c);
        assert((a + b)[a.len() + k] == c);
    } else {
        assert(tasks.drop_last()[i] == task);
        cells_of_has(rs, tasks.drop_last(), task, arm);
        let k = choose|k: int| 0 <= k < a.len() && a[k] == c;
        assert((a + b)[k] == c);
    }
}

/// No run is left out: every run is in the cell of its task and arm, and that cell is in the
/// summary.
pub proof fn every_run_is_in_the_summary(rs: Seq<RunResultV>, i: int)
    requires
        0 <= i < rs.len(),
    ensures
        summary(rs).contains(cell_of(rs, rs[i].task, rs[i].arm)),
        cell_of(rs, rs[i].task, rs[i].arm).runs > 0,
{
    let task = rs[i].task;
    let arm = rs[i].arm;
    cell_runs_has(rs, task, arm, i);
    arms_of_has(rs, i);
    crate::text::sort_dedup_ok(arms_of(rs, task));
    crate::text::sort_dedup_ok(tasks_of(rs));
    assert(tasks_of(rs)[i] == task);
    assert(tasks_of(rs).contains(task));
    cells_of_has(rs, sort_dedup(tasks_of(rs)), task, arm);
}

/// A cell counts no more correct runs than runs.
pub proof fn no_more_correct_than_run(rs: Seq<RunResultV>, task: Seq<char>, arm: Seq<char>)
    ensures
        cell_of(rs, task, arm).correct <= cell_of(rs, task, arm).runs,
{
    correct_at_most(cell_runs(rs, task, arm));
}

proof fn correct_at_most(rs: Seq<RunResultV>)
    ensures
        correct_runs(rs) <= rs.len(),
    decreases rs.len(),
{
    if rs.len() > 0 {
        correct_at_most(rs.drop_last());
    }
}

// ---------- the order of results ----------

/// Whether a run stands before another: by task, then arm, then number.
pub open spec fn before(a: RunResultV, b: RunResultV) -> bool {
    lt(a.task, b.task) || (a.task == b.task && (lt(a.arm, b.arm) || (a.arm == b.arm && a.run
        < b.run)))
}

/// A run put in its place, behind those that it does not stand before.
pub open spec fn place_run(s: Seq<RunResultV>, r: RunResultV) -> Seq<RunResultV>
    decreases s.len(),
{
    if s.len() == 0 || !before(r, s.last()) {
        s.push(r)
    } else {
        place_run(s.drop_last(), r).push(s.last())
    }
}

/// Runs in order.
pub open spec fn runs_in_order(rs: Seq<RunResultV>) -> Seq<RunResultV>
    decreases rs.len(),
{
    if rs.len() == 0 {
        Seq::empty()
    } else {
        place_run(runs_in_order(rs.drop_last()), rs.last())
    }
}

proof fn place_run_at(s: Seq<RunResultV>, r: RunResultV, i: int)
    requires
        0 <= i <= s.len(),
        forall|j: int| i <= j < s.len() ==> before(r, #[trigger] s[j]),
        i > 0 ==> !before(r, s[i - 1]),
    ensures
        place_run(s, r) == s.insert(i, r),
    decreases s.len(),
{
    if i == s.len() {
        assert(s.insert(i, r) =~= s.push(r));
    } else {
        let d = s.drop_last();
        assert(before(r, s[s.len() - 1]));
        assert forall|j: int| i <= j < d.len() implies before(r, #[trigger] d[j]) by {
            assert(d[j] == s[j]);
        }
        place_run_at(d, r, i);
        assert(d.insert(i, r).push(s.last()) =~= s.insert(i, r));
    }
}

fn stands_before(a: &RunResult, b: &RunResult) -> (r: bool)
    ensures
        r == before(a@, b@),
{
    if str_lt(a.task.as_str(), b.task.as_str()) {
        return true;
    }
    if !same(a.task.as_str(), b.task.as_str()) {
        return false;
    }
    str_lt(a.arm.as_str(), b.arm.as_str()) || (same(a.arm.as_str(), b.arm.as_str()) && a.run
        < b.run)
}

/// Put results in order: by task, then arm, then number; equal ones as they come.
pub fn sort_results(rs: Vec<RunResult>) -> (r: Vec<RunResult>)
    ensures
        results_view(r@) == runs_in_order(results_view(rs@)),
        r@.to_multiset() == rs@.to_multiset(),
{
    let ghost vs = results_view(rs@);
    let ghost all = rs@.to_multiset();
    let mut rest = rs;
    let mut back: Vec<RunResult> = Vec::new();
    proof {
        broadcast use vstd::seq_lib::group_to_multiset_ensures;

        assert(all =~= rest@.to_multiset().add(back@.to_multiset()));
    }
    // Taken from the end, so the last is the first to be taken back.
    let ghost n = rest@.len();
    while rest.len() > 0
        invariant
            n == vs.len(),
            rest@.len() + back@.len() == n,
            results_view(rest@) == vs.take(rest@.len() as int),
            results_view(back@) == vs.skip(rest@.len() as int).reverse(),
            all == rest@.to_multiset().add(back@.to_multiset()),
        decreases rest@.len(),
    {
        let ghost (r0, b0) = (rest@, back@);
        let ghost m = rest@.len();
        let ghost rv = results_view(rest@);
        let ghost bv = results_view(back@);
        match rest.pop() {
            Some(x) => {
                let ghost xv = x@;
                proof {
                    assert(rv[m - 1] == xv);
                    assert(vs[m - 1] == xv);
                }
                back.push(x);
                proof {
                    broadcast use vstd::seq_lib::group_to_multiset_ensures;

                    assert(r0 =~= rest@.push(x));
                    assert(all =~= rest@.to_multiset().add(back@.to_multiset()));
                    assert(results_view(rest@) =~= vs.take(m - 1));
                    assert(results_view(back@) =~= bv.push(xv));
                    assert(vs.skip(m - 1).reverse() =~= vs.skip(m as int).reverse().push(xv));
                }
            },
            None => {},
        }
    }
    let mut out: Vec<RunResult> = Vec::new();
    proof {
        assert(vs.skip(0) =~= vs);
        assert(results_view(out@) =~= runs_in_order(vs.take(0)));
        broadcast use vstd::seq_lib::group_to_multiset_ensures;

        assert(rest@ =~= Seq::<RunResult>::empty());
        assert(all =~= out@.to_multiset().add(back@.to_multiset()));
    }
    while back.len() > 0
        invariant
            all == out@.to_multiset().add(back@.to_multiset()),
            n == vs.len(),
            back@.len() <= n,
            results_view(back@) == vs.skip(n - back@.len()).reverse(),
            results_view(out@) == runs_in_order(vs.take(n - back@.len())),
        decreases back@.len(),
    {
        let ghost m = back@.len();
        let ghost (o0, b0) = (out@, back@);
        let ghost bv = results_view(back@);
        let ghost ov = results_view(out@);
        match back.pop() {
            Some(x) => {
                let ghost xv = x@;
                proof {
                    assert(bv[m - 1] == xv);
                    assert(vs.skip(n - m).reverse()[m - 1] == vs[n - m]);
                    assert(results_view(back@) =~= bv.drop_last());
                    let r = vs.skip(n - m + 1).reverse();
                    assert forall|i: int| 0 <= i < m - 1 implies bv.drop_last()[i] == r[i] by {
                        assert(bv[i] == vs[n - 1 - i]);
                        assert(r[i] == vs[n - 1 - i]);
                    }
                    assert(bv.drop_last() =~= r);
                    assert(vs.take(n - m + 1).drop_last() =~= vs.take(n - m));
                    assert(vs.take(n - m + 1).last() == xv);
                }
                let mut k: usize = out.len();
                while k > 0 && stands_before(&x, &out[k - 1])
                    invariant
                        k <= out@.len(),
                        out@ == o0,
                        ov == results_view(out@),
                        xv == x@,
                        forall|j: int| k <= j < ov.len() ==> before(xv, #[trigger] ov[j]),
                    decreases k,
                {
                    assert(ov[k - 1] == out@[k - 1]@);
                    k -= 1;
                }
                proof {
                    if k > 0 {
                        assert(ov[k - 1] == out@[k - 1]@);
                    }
                    place_run_at(ov, xv, k as int);
                }
                out.insert(k, x);
                assert(results_view(out@) =~= ov.insert(k as int, xv));
                proof {
                    broadcast use vstd::seq_lib::group_to_multiset_ensures;

                    assert(b0 =~= back@.push(x));
                    assert(out@ =~= o0.insert(k as int, x));
                    vstd::seq_lib::to_multiset_insert(o0, k as int, x);
                    assert(all =~= out@.to_multiset().add(back@.to_multiset()));
                }
            },
            None => {},
        }
    }
    assert(vs.take(n as int) =~= vs);
    proof {
        broadcast use vstd::seq_lib::group_to_multiset_ensures;

        assert(back@ =~= Seq::<RunResult>::empty());
        assert(out@.to_multiset() =~= all);
    }
    out
}

/// Whether a file of a run directory holds a result.
pub fn is_result_file(name: &str) -> (r: bool)
    ensures
        r == (crate::cut::without_suffix(name@, ".json"@) matches Some(stem) && stem.len() > 0 && name@
            != "summary.json"@ && name@ != "config.json"@),
{
    match crate::cut::strip_suffix(name, ".json") {
        None => false,
        Some(stem) => {
            proof {
                reveal_strlit("");
                if stem@.len() == 0 {
                    assert(stem@ =~= ""@);
                }
            }
            !same(stem.as_str(), "") && !same(name, "summary.json") && !same(name, "config.json")
        },
    }
}

} // verus!
