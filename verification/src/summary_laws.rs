//! What a summary says of the runs it sums up, and what an audit recomputes.

use crate::audit::{correct_for, problems_of, sum_at};
use crate::json::{member, JsonV};
use crate::quarters::{ascend, ascend_ok, median_of, quantile_of};
use crate::report::{
    cell_of, cell_runs, column, correct_runs, greatest, least, run_errors, Field, RunResultV,
};
use crate::tasks::{all_ok, checks_of, ledger_list, Expect};
use vstd::prelude::*;

verus! {

proof fn cell_is_filtered(all: Seq<RunResultV>, task: Seq<char>, arm: Seq<char>)
    ensures
        cell_runs(all, task, arm) == all.filter(|r: RunResultV| r.task == task && r.arm == arm),
    decreases all.len(),
{
    reveal(Seq::filter);
    if all.len() > 0 {
        cell_is_filtered(all.drop_last(), task, arm);
    }
}

proof fn correct_is_filtered(rs: Seq<RunResultV>)
    ensures
        correct_runs(rs) == rs.filter(|r: RunResultV| r.correct).len(),
    decreases rs.len(),
{
    reveal(Seq::filter);
    if rs.len() > 0 {
        correct_is_filtered(rs.drop_last());
    }
}

proof fn errors_are_filtered(rs: Seq<RunResultV>)
    ensures
        run_errors(rs) == rs.filter(|r: RunResultV| r.error is Some).map_values(
            |r: RunResultV| r.error->0,
        ),
    decreases rs.len(),
{
    reveal(Seq::filter);
    let p = |r: RunResultV| r.error is Some;
    let f = |r: RunResultV| r.error->0;
    if rs.len() > 0 {
        let d = rs.drop_last();
        errors_are_filtered(d);
        if p(rs.last()) {
            assert(d.filter(p).push(rs.last()).map_values(f) =~= d.filter(p).map_values(f).push(
                f(rs.last()),
            ));
        }
    }
    assert(run_errors(rs) =~= rs.filter(p).map_values(f));
}

proof fn least_and_greatest(xs: Seq<u128>)
    requires
        xs.len() > 0,
    ensures
        forall|i: int| 0 <= i < xs.len() ==> least(xs) <= #[trigger] xs[i] <= greatest(xs),
        xs.contains(least(xs)),
        xs.contains(greatest(xs)),
    decreases xs.len(),
{
    let last = xs.len() - 1;
    assert(xs[last] == xs.last());
    if xs.len() > 1 {
        let d = xs.drop_last();
        least_and_greatest(d);
        let a = choose|a: int| 0 <= a < d.len() && d[a] == least(d);
        let b = choose|b: int| 0 <= b < d.len() && d[b] == greatest(d);
        assert(xs[a] == d[a] && xs[b] == d[b]);
        assert forall|i: int| 0 <= i < xs.len() implies least(xs) <= #[trigger] xs[i]
            <= greatest(xs) by {
            if i < d.len() {
                assert(d[i] == xs[i]);
            }
        }
    }
}

/// A cell is of the runs of its task and its arm and of no others: it counts them, it counts
/// those that are correct, it keeps what went wrong, its extremes are among their numbers and no
/// number lies beyond them, and its medians and quartiles are of their own columns.
#[verifier::rlimit(40)]
pub proof fn a_cell_is_of_its_runs(all: Seq<RunResultV>, task: Seq<char>, arm: Seq<char>)
    ensures
        ({
            let c = cell_of(all, task, arm);
            let mine = all.filter(|r: RunResultV| r.task == task && r.arm == arm);
            &&& c.task == task && c.arm == arm
            &&& c.runs == mine.len()
            &&& c.correct == mine.filter(|r: RunResultV| r.correct).len()
            &&& c.errors == mine.filter(|r: RunResultV| r.error is Some).map_values(
                |r: RunResultV| r.error->0,
            )
            &&& forall|i: int|
                0 <= i < mine.len() ==> c.wall_ms_min <= (#[trigger] mine[i]).wall_ms
                    <= c.wall_ms_max && mine[i].max_parallel <= c.max_parallel_max
            &&& mine.len() > 0 ==> (exists|i: int|
                0 <= i < mine.len() && (#[trigger] mine[i]).wall_ms == c.wall_ms_min) && (exists|
                i: int,
            | 0 <= i < mine.len() && (#[trigger] mine[i]).wall_ms == c.wall_ms_max) && (exists|
                i: int,
            | 0 <= i < mine.len() && (#[trigger] mine[i]).max_parallel == c.max_parallel_max)
            &&& c.samples_median == median_of(mine.map_values(|r: RunResultV| r.samples as u128))
            &&& c.tokens_median == median_of(
                mine.map_values(|r: RunResultV| (r.tokens_in + r.tokens_out) as u128),
            )
            &&& c.wall_ms_median == median_of(mine.map_values(|r: RunResultV| r.wall_ms))
            &&& c.plan_ms_median == median_of(mine.map_values(|r: RunResultV| r.plan_ms))
            &&& c.run_ms_median == median_of(mine.map_values(|r: RunResultV| r.run_ms))
            &&& c.max_parallel_median == median_of(
                mine.map_values(|r: RunResultV| r.max_parallel as u128),
            )
            &&& c.samples_p25 == quantile_of(
                mine.map_values(|r: RunResultV| r.samples as u128),
                1,
            )
            &&& c.samples_p75 == quantile_of(
                mine.map_values(|r: RunResultV| r.samples as u128),
                3,
            )
            &&& c.wall_ms_p25 == quantile_of(mine.map_values(|r: RunResultV| r.wall_ms), 1)
            &&& c.wall_ms_p75 == quantile_of(mine.map_values(|r: RunResultV| r.wall_ms), 3)
            &&& c.run_ms_p25 == quantile_of(mine.map_values(|r: RunResultV| r.run_ms), 1)
            &&& c.run_ms_p75 == quantile_of(mine.map_values(|r: RunResultV| r.run_ms), 3)
            &&& (forall|i: int| 0 <= i < mine.len() ==> (#[trigger] mine[i]).busy_ms is Some)
                ==> c.busy_ms_median == median_of(
                mine.map_values(|r: RunResultV| r.busy_ms->0),
            )
        }),
{
    let c = cell_of(all, task, arm);
    let mine = all.filter(|r: RunResultV| r.task == task && r.arm == arm);
    cell_is_filtered(all, task, arm);
    correct_is_filtered(mine);
    errors_are_filtered(mine);
    let wall = column(mine, Field::Wall);
    let par = column(mine, Field::Parallel);
    assert(wall =~= mine.map_values(|r: RunResultV| r.wall_ms));
    assert(par =~= mine.map_values(|r: RunResultV| r.max_parallel as u128));
    assert(column(mine, Field::Samples) =~= mine.map_values(|r: RunResultV| r.samples as u128));
    assert(column(mine, Field::Tokens) =~= mine.map_values(
        |r: RunResultV| (r.tokens_in + r.tokens_out) as u128,
    ));
    assert(column(mine, Field::Plan) =~= mine.map_values(|r: RunResultV| r.plan_ms));
    assert(column(mine, Field::Run) =~= mine.map_values(|r: RunResultV| r.run_ms));
    if forall|i: int| 0 <= i < mine.len() ==> (#[trigger] mine[i]).busy_ms is Some {
        assert(column(mine, Field::Busy) =~= mine.map_values(|r: RunResultV| r.busy_ms->0));
    }
    if mine.len() > 0 {
        least_and_greatest(wall);
        least_and_greatest(par);
        let a = choose|a: int| 0 <= a < wall.len() && wall[a] == least(wall);
        let b = choose|b: int| 0 <= b < wall.len() && wall[b] == greatest(wall);
        let d = choose|d: int| 0 <= d < par.len() && par[d] == greatest(par);
        assert(mine[a].wall_ms == c.wall_ms_min);
        assert(mine[b].wall_ms == c.wall_ms_max);
        assert(mine[d].max_parallel == c.max_parallel_max);
        assert forall|i: int| 0 <= i < mine.len() implies c.wall_ms_min <= (
        #[trigger] mine[i]).wall_ms <= c.wall_ms_max && mine[i].max_parallel
            <= c.max_parallel_max by {
            assert(wall[i] == mine[i].wall_ms);
            assert(par[i] == mine[i].max_parallel as u128);
        }
    }
}

/// One more run adds what was sent twice in it, and its forks, to the cell it belongs to, and
/// nothing to any other; no runs come to nothing.
pub proof fn one_more_run_adds_its_own(
    all: Seq<RunResultV>,
    r: RunResultV,
    task: Seq<char>,
    arm: Seq<char>,
)
    ensures
        ({
            let c = cell_of(all, task, arm);
            let n = cell_of(all.push(r), task, arm);
            &&& r.task == task && r.arm == arm ==> n.double_sends_total == c.double_sends_total
                + r.double_sends && n.forks_total == c.forks_total + r.forks && n.runs == c.runs + 1
                && n.correct == c.correct + (if r.correct {
                1nat
            } else {
                0nat
            })
            &&& r.task != task || r.arm != arm ==> n == c
        }),
        cell_of(Seq::empty(), task, arm).double_sends_total == 0,
        cell_of(Seq::empty(), task, arm).forks_total == 0,
        cell_of(Seq::empty(), task, arm).runs == 0,
        cell_of(Seq::empty(), task, arm).correct == 0,
{
    assert(all.push(r).drop_last() =~= all);
    let rs = cell_runs(all, task, arm);
    if r.task == task && r.arm == arm {
        let more = cell_runs(all.push(r), task, arm);
        assert(more == rs.push(r));
        assert(more.drop_last() =~= rs);
        assert(column(more, Field::Doubles).drop_last() =~= column(rs, Field::Doubles));
        assert(column(more, Field::Forks).drop_last() =~= column(rs, Field::Forks));
    }
    assert(cell_runs(Seq::empty(), task, arm).len() == 0);
}

/// A median lies in the middle: of an odd number it is one of them, of an even number the mean of
/// the two in the middle, in quarters of a unit; as many of the numbers in order come before as
/// after.
pub proof fn a_median_is_in_the_middle(xs: Seq<u128>, s: Seq<u128>)
    requires
        xs.len() > 0,
        s.to_multiset() == xs.to_multiset(),
        forall|i: int, j: int| 0 <= i <= j < s.len() ==> s[i] <= s[j],
    ensures
        s.len() % 2 == 1 ==> median_of(xs) == 4 * s[s.len() as int / 2],
        s.len() % 2 == 0 ==> median_of(xs) == 2 * (s[s.len() as int / 2 - 1]
            + s[s.len() as int / 2]),
        quantile_of(xs, 0) == 4 * s[0],
        quantile_of(xs, 4) == 4 * s.last(),
        s.len() % 4 == 1 ==> quantile_of(xs, 1) == 4 * s[(s.len() as int - 1) / 4] && quantile_of(
            xs,
            3,
        ) == 4 * s[3 * ((s.len() as int - 1) / 4)],
{
    let t = ascend(xs);
    ascend_ok(xs);
    assert(t.to_multiset() == s.to_multiset());
    let leq = |a: u128, b: u128| a <= b;
    assert(vstd::relations::total_ordering(leq));
    assert(vstd::relations::sorted_by(s, leq));
    assert(vstd::relations::sorted_by(t, leq));
    vstd::seq_lib::lemma_sorted_unique(s, t, leq);
    xs.to_multiset_ensures();
    s.to_multiset_ensures();
    let n = s.len() as int;
    assert(0 * (n - 1) == 0);
    if n % 4 == 1 {
        let q = (n - 1) / 4;
        assert(n - 1 == 4 * q);
        assert(1 * (n - 1) == 4 * q);
        assert(3 * (n - 1) == 4 * (3 * q));
        assert((4 * q) / 4 == q && (4 * q) % 4 == 0);
        assert((4 * (3 * q)) / 4 == 3 * q && (4 * (3 * q)) % 4 == 0);
    }
    assert((4 * (n - 1)) / 4 == n - 1 && (4 * (n - 1)) % 4 == 0);
}

// ---------- audits ----------

/// A result is told wrong wherever a number it claims is not what its ledger gives: as many
/// samples as there are, what they took in and gave out, as many forks as there are.
pub proof fn an_audit_recounts_the_cost(r: RunResultV, e: Option<Expect>)
    requires
        problems_of(r, e).len() == 0,
    ensures
        r.samples == ledger_list(r.receipt, "samples"@).len(),
        r.forks == ledger_list(r.receipt, "forks"@).len(),
        r.tokens_in == sum_at(ledger_list(r.receipt, "samples"@), "tokens_in"@),
        r.tokens_out == sum_at(ledger_list(r.receipt, "samples"@), "tokens_out"@),
        e matches Some(x) ==> r.correct == correct_for(r, x),
{
    crate::audit::problems_are_what_is_not_honest(r, e);
}

/// What stands under a key is summed item by item, and what is no number counts nothing.
pub proof fn sums_are_of_what_stands_there(xs: Seq<JsonV>, k: Seq<char>, x: JsonV, n: u64)
    ensures
        sum_at(Seq::empty(), k) == 0,
        member(x, k) == Some(JsonV::Int(n as int)) ==> sum_at(xs.push(x), k) == sum_at(xs, k) + n,
        !(member(x, k) matches Some(JsonV::Int(_))) ==> sum_at(xs.push(x), k) == sum_at(xs, k),
{
    assert(xs.push(x).drop_last() =~= xs);
}

/// A result whose fork was answered is held to what is expected after that, where the task says
/// what that is; any other is held to the task's first expectation.
pub proof fn a_resumed_run_is_held_to_its_own_expectation(
    r: RunResultV,
    e: Expect,
    after: Expect,
    s: int,
)
    requires
        e.after_resume == Some(Box::new(after)),
    ensures
        0 <= s < ledger_list(r.receipt, "samples"@).len() && member(
            ledger_list(r.receipt, "samples"@)[s],
            "kind"@,
        ) == Some(JsonV::Str("fork_answer"@)) ==> correct_for(r, e) == all_ok(
            checks_of(after, r.status, r.forks as nat, r.snapshot, r.double_sends as nat),
        ),
        ledger_list(r.receipt, "samples"@).len() == 0 && ledger_list(r.receipt, "forks"@).len() == 0
            ==> correct_for(r, e) == all_ok(
            checks_of(e, r.status, r.forks as nat, r.snapshot, r.double_sends as nat),
        ),
{
    let ss = ledger_list(r.receipt, "samples"@);
    if 0 <= s < ss.len() && member(ss[s], "kind"@) == Some(JsonV::Str("fork_answer"@)) {
        assert(crate::json::str_of(member(ss[s], "kind"@)) == Some("fork_answer"@));
        assert(crate::tasks::answered(ss));
    }
}

} // verus!
