//! The report of many runs, as text and as a page.

use crate::cut::{replace, replaced};
use crate::json::{as_str, member, str_of};
use crate::plan::{padded, padded_left, push_padded, push_padded_left};
use crate::quarters::quarters_text;
use crate::report::{
    cells_view, results_view, Cell, CellV, RunResult, RunResultV,
};
use crate::text::{dec, dec_string, owned, push_dec, same, sort_dedup, sorted_unique, views};
use vstd::prelude::*;

verus! {

// ---------- the arms ----------

/// The names of the arms.
pub open spec fn title_of(arm: Seq<char>) -> Seq<char> {
    if arm == "A"@ {
        "CUA click loop"@
    } else if arm == "B"@ {
        "MCP loop, one call per turn"@
    } else if arm == "B2"@ {
        "MCP loop, parallel tool calls"@
    } else if arm == "C"@ {
        "WebMCP loop"@
    } else if arm == "D"@ {
        "ours: planned graph"@
    } else if arm == "E"@ {
        "script ceiling, no model"@
    } else {
        ""@
    }
}

/// What an arm is.
pub fn arm_title(arm: &str) -> (r: &'static str)
    ensures
        r@ == title_of(arm@),
{
    if same(arm, "A") {
        "CUA click loop"
    } else if same(arm, "B") {
        "MCP loop, one call per turn"
    } else if same(arm, "B2") {
        "MCP loop, parallel tool calls"
    } else if same(arm, "C") {
        "WebMCP loop"
    } else if same(arm, "D") {
        "ours: planned graph"
    } else if same(arm, "E") {
        "script ceiling, no model"
    } else {
        ""
    }
}

/// Every arm, and what it is.
pub fn arm_names() -> (r: Vec<(&'static str, &'static str)>)
    ensures
        r@.len() == 6,
        r@[0].0@ == "A"@ && r@[1].0@ == "B"@ && r@[2].0@ == "B2"@ && r@[3].0@ == "C"@ && r@[4].0@
            == "D"@ && r@[5].0@ == "E"@,
        forall|i: int| 0 <= i < 6 ==> (#[trigger] r@[i]).1@ == title_of(r@[i].0@),
{
    let mut v: Vec<(&'static str, &'static str)> = Vec::new();
    v.push(("A", arm_title("A")));
    v.push(("B", arm_title("B")));
    v.push(("B2", arm_title("B2")));
    v.push(("C", arm_title("C")));
    v.push(("D", arm_title("D")));
    v.push(("E", arm_title("E")));
    v
}

// ---------- the table ----------

/// A line of ten columns.
pub open spec fn line(
    a: Seq<char>,
    b: Seq<char>,
    c: Seq<char>,
    d: Seq<char>,
    e: Seq<char>,
    f: Seq<char>,
    g: Seq<char>,
    h: Seq<char>,
    i: Seq<char>,
    j: Seq<char>,
) -> Seq<char> {
    ""@ + padded(a, 4) + " "@ + padded(b, 3) + " "@ + padded_left(c, 5) + " "@ + padded_left(d, 8) + " "@ + padded_left(
        e,
        9,
    ) + " "@ + padded_left(f, 8) + " "@ + padded_left(g, 8) + " "@ + padded_left(h, 10) + " "@ + padded_left(i, 7) + " "@
        + padded_left(j, 6) + "\n"@
}

fn make_line(
    a: &str,
    b: &str,
    c: &str,
    d: &str,
    e: &str,
    f: &str,
    g: &str,
    h: &str,
    i: &str,
    j: &str,
) -> (r: String)
    ensures
        r@ == line(a@, b@, c@, d@, e@, f@, g@, h@, i@, j@),
{
    let mut t = owned("");
    push_padded(&mut t, a, 4);
    t.push_str(" ");
    push_padded(&mut t, b, 3);
    t.push_str(" ");
    push_padded_left(&mut t, c, 5);
    t.push_str(" ");
    push_padded_left(&mut t, d, 8);
    t.push_str(" ");
    push_padded_left(&mut t, e, 9);
    t.push_str(" ");
    push_padded_left(&mut t, f, 8);
    t.push_str(" ");
    push_padded_left(&mut t, g, 8);
    t.push_str(" ");
    push_padded_left(&mut t, h, 10);
    t.push_str(" ");
    push_padded_left(&mut t, i, 7);
    t.push_str(" ");
    push_padded_left(&mut t, j, 6);
    t.push_str("\n");
    t
}

/// What is correct, of how many.
pub open spec fn share(c: CellV) -> Seq<char> {
    dec(c.correct) + "/"@ + dec(c.runs)
}

fn share_of(c: &Cell) -> (r: String)
    ensures
        r@ == share(c@),
{
    let mut t = dec_string(c.correct as u128);
    t.push_str("/");
    push_dec(&mut t, c.runs as u128);
    t
}

/// A number that is exact to a quarter.
pub open spec fn shown(n: int) -> Seq<char> {
    quarters_text(n as nat)
}

/// The line of a cell.
pub open spec fn cell_line(c: CellV) -> Seq<char> {
    line(
        c.task,
        c.arm,
        dec(c.runs),
        share(c),
        shown(c.samples_median),
        shown(c.plan_ms_median),
        shown(c.run_ms_median),
        shown(c.max_parallel_median),
        dec(c.double_sends_total),
        dec(c.forks_total),
    )
}

/// The lines of cells.
pub open spec fn cell_lines(cs: Seq<CellV>) -> Seq<char>
    decreases cs.len(),
{
    if cs.len() == 0 {
        Seq::empty()
    } else {
        cell_lines(cs.drop_last()) + cell_line(cs.last())
    }
}

/// The head of the table.
pub open spec fn head_line() -> Seq<char> {
    line(
        "task"@,
        "arm"@,
        "runs"@,
        "correct"@,
        "samples"@,
        "plan_ms"@,
        "run_ms"@,
        "max_par"@,
        "double"@,
        "forks"@,
    )
}

/// The cells as a table.
pub fn text_table(cells: &Vec<Cell>) -> (r: String)
    ensures
        r@ == head_line() + cell_lines(cells_view(cells@)),
{
    let ghost cs = cells_view(cells@);
    let mut s = make_line(
        "task",
        "arm",
        "runs",
        "correct",
        "samples",
        "plan_ms",
        "run_ms",
        "max_par",
        "double",
        "forks",
    );
    let mut i: usize = 0;
    assert(s@ =~= head_line() + cell_lines(cs.take(0)));
    while i < cells.len()
        invariant
            i <= cells@.len() == cs.len(),
            cs == cells_view(cells@),
            s@ == head_line() + cell_lines(cs.take(i as int)),
        decreases cells@.len() - i,
    {
        let c = &cells[i];
        let l = make_line(
            c.task.as_str(),
            c.arm.as_str(),
            dec_string(c.runs as u128).as_str(),
            share_of(c).as_str(),
            c.samples_median.to_string().as_str(),
            c.plan_ms_median.to_string().as_str(),
            c.run_ms_median.to_string().as_str(),
            c.max_parallel_median.to_string().as_str(),
            dec_string(c.double_sends_total).as_str(),
            dec_string(c.forks_total).as_str(),
        );
        proof {
            assert(cs.take(i + 1).drop_last() =~= cs.take(i as int));
            assert(cs.take(i + 1).last() == cells@[i as int]@);
            assert(l@ == cell_line(cells@[i as int]@));
        }
        s.push_str(l.as_str());
        i += 1;
        assert(s@ =~= head_line() + cell_lines(cs.take(i as int)));
    }
    assert(cs.take(i as int) =~= cs);
    s
}

// ---------- samples against depth ----------

/// The depth that is known of a task, or nought.
pub open spec fn depth_in(depths: Seq<(Seq<char>, u32)>, task: Seq<char>) -> u32
    decreases depths.len(),
{
    if depths.len() == 0 {
        0
    } else if depths[0].0 == task {
        depths[0].1
    } else {
        depth_in(depths.drop_first(), task)
    }
}

pub open spec fn depths_view(ds: Seq<(String, u32)>) -> Seq<(Seq<char>, u32)> {
    ds.map_values(|d: (String, u32)| (d.0@, d.1))
}

proof fn depth_skip(ds: Seq<(Seq<char>, u32)>, task: Seq<char>, i: int)
    requires
        0 <= i <= ds.len(),
        forall|j: int| 0 <= j < i ==> (#[trigger] ds[j]).0 != task,
    ensures
        depth_in(ds, task) == depth_in(ds.skip(i), task),
    decreases i,
{
    if i == 0 {
        assert(ds.skip(0) =~= ds);
    } else {
        assert(ds[0].0 != task);
        let t = ds.drop_first();
        assert forall|j: int| 0 <= j < i - 1 implies (#[trigger] t[j]).0 != task by {
            assert(t[j] == ds[j + 1]);
        }
        depth_skip(t, task, i - 1);
        assert(t.skip(i - 1) =~= ds.skip(i));
    }
}

fn find_depth(depths: &Vec<(String, u32)>, task: &str) -> (r: u32)
    ensures
        r == depth_in(depths_view(depths@), task@),
{
    let ghost ds = depths_view(depths@);
    let mut i: usize = 0;
    while i < depths.len()
        invariant
            i <= depths@.len() == ds.len(),
            ds == depths_view(depths@),
            forall|j: int| 0 <= j < i ==> (#[trigger] ds[j]).0 != task@,
        decreases depths@.len() - i,
    {
        assert(ds[i as int] == (depths@[i as int].0@, depths@[i as int].1));
        if same(depths[i].0.as_str(), task) {
            proof {
                depth_skip(ds, task@, i as int);
                assert(ds.skip(i as int)[0] == ds[i as int]);
            }
            return depths[i].1;
        }
        i += 1;
    }
    proof {
        depth_skip(ds, task@, i as int);
    }
    0
}

/// A task put in its place, behind those that are no deeper.
pub open spec fn place_task(
    s: Seq<Seq<char>>,
    x: Seq<char>,
    depths: Seq<(Seq<char>, u32)>,
) -> Seq<Seq<char>>
    decreases s.len(),
{
    if s.len() == 0 || depth_in(depths, s.last()) <= depth_in(depths, x) {
        s.push(x)
    } else {
        place_task(s.drop_last(), x, depths).push(s.last())
    }
}

/// Tasks from the shallow to the deep; equally deep ones as they come.
pub open spec fn by_depth(xs: Seq<Seq<char>>, depths: Seq<(Seq<char>, u32)>) -> Seq<Seq<char>>
    decreases xs.len(),
{
    if xs.len() == 0 {
        Seq::empty()
    } else {
        place_task(by_depth(xs.drop_last(), depths), xs.last(), depths)
    }
}

proof fn place_task_at(s: Seq<Seq<char>>, x: Seq<char>, depths: Seq<(Seq<char>, u32)>, i: int)
    requires
        0 <= i <= s.len(),
        forall|j: int|
            i <= j < s.len() ==> depth_in(depths, #[trigger] s[j]) > depth_in(depths, x),
        i > 0 ==> depth_in(depths, s[i - 1]) <= depth_in(depths, x),
    ensures
        place_task(s, x, depths) == s.insert(i, x),
    decreases s.len(),
{
    if i == s.len() {
        assert(s.insert(i, x) =~= s.push(x));
    } else {
        let d = s.drop_last();
        assert(depth_in(depths, s[s.len() - 1]) > depth_in(depths, x));
        assert forall|j: int| i <= j < d.len() implies depth_in(depths, #[trigger] d[j])
            > depth_in(depths, x) by {
            assert(d[j] == s[j]);
        }
        place_task_at(d, x, depths, i);
        assert(d.insert(i, x).push(s.last()) =~= s.insert(i, x));
    }
}

fn sort_by_depth(xs: &Vec<String>, depths: &Vec<(String, u32)>) -> (r: Vec<String>)
    ensures
        views(r@) == by_depth(views(xs@), depths_view(depths@)),
{
    let ghost vs = views(xs@);
    let ghost ds = depths_view(depths@);
    let mut out: Vec<String> = Vec::new();
    let mut i: usize = 0;
    assert(views(out@) =~= by_depth(vs.take(0), ds));
    while i < xs.len()
        invariant
            i <= xs@.len() == vs.len(),
            vs == views(xs@),
            ds == depths_view(depths@),
            views(out@) == by_depth(vs.take(i as int), ds),
        decreases xs@.len() - i,
    {
        let x = xs[i].clone();
        let ghost xv = x@;
        let ghost ov = views(out@);
        let own = find_depth(depths, x.as_str());
        let mut k: usize = out.len();
        while k > 0 && find_depth(depths, out[k - 1].as_str()) > own
            invariant
                k <= out@.len(),
                ov == views(out@),
                ds == depths_view(depths@),
                own == depth_in(ds, xv),
                forall|j: int|
                    k <= j < ov.len() ==> depth_in(ds, #[trigger] ov[j]) > depth_in(ds, xv),
            decreases k,
        {
            assert(ov[k - 1] == out@[k - 1]@);
            k -= 1;
        }
        proof {
            if k > 0 {
                assert(ov[k - 1] == out@[k - 1]@);
            }
            place_task_at(ov, xv, ds, k as int);
            assert(vs.take(i + 1).drop_last() =~= vs.take(i as int));
            assert(vs.take(i + 1).last() == xv);
        }
        out.insert(k, x);
        assert(views(out@) =~= ov.insert(k as int, xv));
        i += 1;
    }
    assert(vs.take(i as int) =~= vs);
    out
}

pub open spec fn cell_arms(cs: Seq<CellV>) -> Seq<Seq<char>> {
    cs.map_values(|c: CellV| c.arm)
}

pub open spec fn cell_tasks(cs: Seq<CellV>) -> Seq<Seq<char>> {
    cs.map_values(|c: CellV| c.task)
}

fn arms_in(cells: &Vec<Cell>) -> (r: Vec<String>)
    ensures
        views(r@) == cell_arms(cells_view(cells@)),
{
    let ghost all = cell_arms(cells_view(cells@));
    let mut out: Vec<String> = Vec::new();
    let mut i: usize = 0;
    assert(views(out@) =~= all.take(0));
    while i < cells.len()
        invariant
            i <= cells@.len() == all.len(),
            all == cell_arms(cells_view(cells@)),
            views(out@) == all.take(i as int),
        decreases cells@.len() - i,
    {
        let x = cells[i].arm.clone();
        let ghost o = views(out@);
        out.push(x);
        assert(cells_view(cells@)[i as int] == cells@[i as int]@);
        i += 1;
        assert(views(out@) =~= o.push(x@));
        assert(views(out@) =~= all.take(i as int));
    }
    assert(all.take(i as int) =~= all);
    out
}

fn tasks_in(cells: &Vec<Cell>) -> (r: Vec<String>)
    ensures
        views(r@) == cell_tasks(cells_view(cells@)),
{
    let ghost all = cell_tasks(cells_view(cells@));
    let mut out: Vec<String> = Vec::new();
    let mut i: usize = 0;
    assert(views(out@) =~= all.take(0));
    while i < cells.len()
        invariant
            i <= cells@.len() == all.len(),
            all == cell_tasks(cells_view(cells@)),
            views(out@) == all.take(i as int),
        decreases cells@.len() - i,
    {
        let x = cells[i].task.clone();
        let ghost o = views(out@);
        out.push(x);
        assert(cells_view(cells@)[i as int] == cells@[i as int]@);
        i += 1;
        assert(views(out@) =~= o.push(x@));
        assert(views(out@) =~= all.take(i as int));
    }
    assert(all.take(i as int) =~= all);
    out
}

/// The first cell of a task and an arm.
pub open spec fn cell_at(cs: Seq<CellV>, task: Seq<char>, arm: Seq<char>) -> Option<CellV>
    decreases cs.len(),
{
    if cs.len() == 0 {
        None
    } else if cs[0].task == task && cs[0].arm == arm {
        Some(cs[0])
    } else {
        cell_at(cs.drop_first(), task, arm)
    }
}

proof fn cell_skip(cs: Seq<CellV>, task: Seq<char>, arm: Seq<char>, i: int)
    requires
        0 <= i <= cs.len(),
        forall|j: int|
            0 <= j < i ==> !((#[trigger] cs[j]).task == task && cs[j].arm == arm),
    ensures
        cell_at(cs, task, arm) == cell_at(cs.skip(i), task, arm),
    decreases i,
{
    if i == 0 {
        assert(cs.skip(0) =~= cs);
    } else {
        assert(!(cs[0].task == task && cs[0].arm == arm));
        let t = cs.drop_first();
        assert forall|j: int| 0 <= j < i - 1 implies !((#[trigger] t[j]).task == task && t[j].arm
            == arm) by {
            assert(t[j] == cs[j + 1]);
        }
        cell_skip(t, task, arm, i - 1);
        assert(t.skip(i - 1) =~= cs.skip(i));
    }
}

/// What stands in the table for a task and an arm.
pub open spec fn samples_at(cs: Seq<CellV>, task: Seq<char>, arm: Seq<char>) -> Seq<char> {
    match cell_at(cs, task, arm) {
        Some(c) => shown(c.samples_median),
        None => "-"@,
    }
}

fn samples_text(cells: &Vec<Cell>, task: &str, arm: &str) -> (r: String)
    ensures
        r@ == samples_at(cells_view(cells@), task@, arm@),
{
    let ghost cs = cells_view(cells@);
    let mut i: usize = 0;
    while i < cells.len()
        invariant
            i <= cells@.len() == cs.len(),
            cs == cells_view(cells@),
            forall|j: int|
                0 <= j < i ==> !((#[trigger] cs[j]).task == task@ && cs[j].arm == arm@),
        decreases cells@.len() - i,
    {
        assert(cs[i as int] == cells@[i as int]@);
        if same(cells[i].task.as_str(), task) && same(cells[i].arm.as_str(), arm) {
            proof {
                cell_skip(cs, task@, arm@, i as int);
                assert(cs.skip(i as int)[0] == cs[i as int]);
            }
            return cells[i].samples_median.to_string();
        }
        i += 1;
    }
    proof {
        cell_skip(cs, task@, arm@, i as int);
    }
    owned("-")
}

/// The heads of the arms.
pub open spec fn arm_heads(arms: Seq<Seq<char>>) -> Seq<char>
    decreases arms.len(),
{
    if arms.len() == 0 {
        Seq::empty()
    } else {
        arm_heads(arms.drop_last()) + " "@ + padded_left(arms.last() + " samples"@, 10)
    }
}

/// The numbers of a task.
pub open spec fn arm_numbers(cs: Seq<CellV>, task: Seq<char>, arms: Seq<Seq<char>>) -> Seq<char>
    decreases arms.len(),
{
    if arms.len() == 0 {
        Seq::empty()
    } else {
        arm_numbers(cs, task, arms.drop_last()) + " "@ + padded_left(
            samples_at(cs, task, arms.last()),
            10,
        )
    }
}

/// The lines of tasks.
pub open spec fn depth_lines(
    cs: Seq<CellV>,
    tasks: Seq<Seq<char>>,
    arms: Seq<Seq<char>>,
    depths: Seq<(Seq<char>, u32)>,
) -> Seq<char>
    decreases tasks.len(),
{
    if tasks.len() == 0 {
        Seq::empty()
    } else {
        let t = tasks.last();
        depth_lines(cs, tasks.drop_last(), arms, depths) + (padded(t, 4) + " "@ + padded_left(
            dec(depth_in(depths, t) as nat),
            5,
        ) + arm_numbers(cs, t, arms) + "\n"@)
    }
}

/// Samples against the depth of a task: one line per task from the shallow to the deep, one
/// column per arm.
pub open spec fn depth_text(cs: Seq<CellV>, depths: Seq<(Seq<char>, u32)>) -> Seq<char> {
    let arms = sort_dedup(cell_arms(cs));
    let tasks = by_depth(sort_dedup(cell_tasks(cs)), depths);
    padded("task"@, 4) + " "@ + padded_left("depth"@, 5) + arm_heads(arms) + "\n"@ + depth_lines(
        cs,
        tasks,
        arms,
        depths,
    )
}

fn push_heads(out: &mut String, arms: &Vec<String>)
    ensures
        final(out)@ == old(out)@ + arm_heads(views(arms@)),
{
    let ghost before = out@;
    let ghost vs = views(arms@);
    let mut i: usize = 0;
    assert(out@ =~= before + arm_heads(vs.take(0)));
    while i < arms.len()
        invariant
            i <= arms@.len() == vs.len(),
            vs == views(arms@),
            out@ == before + arm_heads(vs.take(i as int)),
        decreases arms@.len() - i,
    {
        let mut h = arms[i].clone();
        h.push_str(" samples");
        proof {
            assert(vs.take(i + 1).drop_last() =~= vs.take(i as int));
            assert(vs.take(i + 1).last() == arms@[i as int]@);
        }
        out.push_str(" ");
        push_padded_left(out, h.as_str(), 10);
        i += 1;
        assert(out@ =~= before + arm_heads(vs.take(i as int)));
    }
    assert(vs.take(i as int) =~= vs);
}

fn push_numbers(out: &mut String, cells: &Vec<Cell>, task: &str, arms: &Vec<String>)
    ensures
        final(out)@ == old(out)@ + arm_numbers(cells_view(cells@), task@, views(arms@)),
{
    let ghost before = out@;
    let ghost cs = cells_view(cells@);
    let ghost vs = views(arms@);
    let mut i: usize = 0;
    assert(out@ =~= before + arm_numbers(cs, task@, vs.take(0)));
    while i < arms.len()
        invariant
            i <= arms@.len() == vs.len(),
            vs == views(arms@),
            cs == cells_view(cells@),
            out@ == before + arm_numbers(cs, task@, vs.take(i as int)),
        decreases arms@.len() - i,
    {
        let t = samples_text(cells, task, arms[i].as_str());
        proof {
            assert(vs.take(i + 1).drop_last() =~= vs.take(i as int));
            assert(vs.take(i + 1).last() == arms@[i as int]@);
        }
        out.push_str(" ");
        push_padded_left(out, t.as_str(), 10);
        i += 1;
        assert(out@ =~= before + arm_numbers(cs, task@, vs.take(i as int)));
    }
    assert(vs.take(i as int) =~= vs);
}

/// Samples against the depth of a task.
pub fn depth_table(cells: &Vec<Cell>, depths: &Vec<(String, u32)>) -> (r: String)
    ensures
        r@ == depth_text(cells_view(cells@), depths_view(depths@)),
{
    let ghost cs = cells_view(cells@);
    let ghost ds = depths_view(depths@);
    let all_arms = arms_in(cells);
    let arms = sorted_unique(&all_arms);
    let all_tasks = tasks_in(cells);
    let some_tasks = sorted_unique(&all_tasks);
    let tasks = sort_by_depth(&some_tasks, depths);
    let ghost ts = views(tasks@);
    let ghost av = views(arms@);
    let mut s = String::new();
    push_padded(&mut s, "task", 4);
    s.push_str(" ");
    push_padded_left(&mut s, "depth", 5);
    push_heads(&mut s, &arms);
    s.push_str("\n");
    let ghost head = padded("task"@, 4) + " "@ + padded_left("depth"@, 5) + arm_heads(av) + "\n"@;
    assert(s@ =~= head);
    let mut i: usize = 0;
    assert(s@ =~= head + depth_lines(cs, ts.take(0), av, ds));
    while i < tasks.len()
        invariant
            i <= tasks@.len() == ts.len(),
            ts == views(tasks@),
            av == views(arms@),
            cs == cells_view(cells@),
            ds == depths_view(depths@),
            s@ == head + depth_lines(cs, ts.take(i as int), av, ds),
        decreases tasks@.len() - i,
    {
        let t = tasks[i].as_str();
        let d = find_depth(depths, t);
        let mut l = String::new();
        push_padded(&mut l, t, 4);
        l.push_str(" ");
        let dt = dec_string(d as u128);
        push_padded_left(&mut l, dt.as_str(), 5);
        push_numbers(&mut l, cells, t, &arms);
        l.push_str("\n");
        proof {
            assert(ts.take(i + 1).drop_last() =~= ts.take(i as int));
            assert(ts.take(i + 1).last() == tasks@[i as int]@);
            assert(l@ =~= padded(t@, 4) + " "@ + padded_left(dec(d as nat), 5) + arm_numbers(cs, t@, av)
                + "\n"@);
        }
        s.push_str(l.as_str());
        i += 1;
        assert(s@ =~= head + depth_lines(cs, ts.take(i as int), av, ds));
    }
    assert(ts.take(i as int) =~= ts);
    s
}

// ---------- the page ----------

/// Text made safe for a page.
pub open spec fn escaped(s: Seq<char>) -> Seq<char> {
    replaced(
        replaced(replaced(s, "&"@, "&amp;"@), "<"@, "&lt;"@),
        ">"@,
        "&gt;"@,
    )
}

/// Text made safe for a page.
pub fn html_escape(s: &str) -> (r: String)
    ensures
        r@ == escaped(s@),
{
    let a = replace(s, "&", "&amp;");
    let b = replace(a.as_str(), "<", "&lt;");
    replace(b.as_str(), ">", "&gt;")
}

/// How the page looks.
pub const STYLE: &'static str = "body{font:15px/1.5 system-ui,sans-serif;margin:0;padding:32px;background:#f3f5f2;color:#1a2321;max-width:1100px}h1{font-size:26px;margin:0 0 4px}h2{font-size:18px;margin:32px 0 8px}p{color:#4b5955;max-width:70ch}table{border-collapse:collapse;width:100%;background:#fff;font-variant-numeric:tabular-nums;font-size:14px}th,td{padding:7px 10px;border-bottom:1px solid #d5dcd7;text-align:left}th{font-size:11px;text-transform:uppercase;letter-spacing:.08em;color:#4b5955;background:#e9eeea}td.ok{color:#2f7d4f;font-weight:600}td.bad{color:#b23a2e;font-weight:600}td.hot{background:#dceef0;font-weight:600}code{font-family:ui-monospace,monospace;background:#eef2ef;padding:1px 5px;border-radius:4px}details{margin-top:10px}pre{font-size:12px;background:#eef2ef;padding:10px;overflow-x:auto;border-radius:6px}";

/// The head of the table of a task.
pub const TABLE_HEAD: &'static str = "<table><thead><tr><th>arm</th><th>what</th><th>runs</th><th>correct</th><th>model samples</th><th>tokens</th><th>plan ms</th><th>run ms</th><th>wall ms (median)</th><th>wall p25–p75</th><th>max parallel</th><th>double-sends</th><th>forks</th></tr></thead><tbody>";

/// The class of the cell that says how many runs were correct.
pub open spec fn ok_class(c: CellV) -> Seq<char> {
    if c.correct == c.runs && c.runs > 0 {
        "ok"@
    } else {
        "bad"@
    }
}

pub open spec fn hot_class(c: CellV) -> Seq<char> {
    if c.max_parallel_max > 1 {
        "hot"@
    } else {
        ""@
    }
}

pub open spec fn double_class(c: CellV) -> Seq<char> {
    if c.double_sends_total > 0 {
        "bad"@
    } else {
        ""@
    }
}

/// The row of a cell.
pub open spec fn row_html(c: CellV) -> Seq<char> {
    "<tr><td><b>"@ + c.arm + "</b></td><td>"@ + title_of(c.arm) + "</td><td>"@ + dec(c.runs)
        + "</td><td class=\""@ + ok_class(c) + "\">"@ + share(c) + "</td><td>"@ + shown(
        c.samples_median,
    ) + "</td><td>"@ + shown(c.tokens_median) + "</td><td>"@ + shown(c.plan_ms_median)
        + "</td><td>"@ + shown(c.run_ms_median) + "</td><td>"@ + shown(c.wall_ms_median)
        + "</td><td>"@ + shown(c.wall_ms_p25) + "–"@ + shown(c.wall_ms_p75)
        + "</td><td class=\""@ + hot_class(c) + "\">"@ + shown(c.max_parallel_median)
        + "</td><td class=\""@ + double_class(c) + "\">"@ + dec(c.double_sends_total)
        + "</td><td>"@ + dec(c.forks_total) + "</td></tr>"@
}

fn make_row(c: &Cell) -> (r: String)
    ensures
        r@ == row_html(c@),
{
    let mut t = owned("<tr><td><b>");
    t.push_str(c.arm.as_str());
    t.push_str("</b></td><td>");
    t.push_str(arm_title(c.arm.as_str()));
    t.push_str("</td><td>");
    t.push_str(dec_string(c.runs as u128).as_str());
    t.push_str("</td><td class=\"");
    t.push_str(
        if c.correct == c.runs && c.runs > 0 {
            "ok"
        } else {
            "bad"
        },
    );
    t.push_str("\">");
    t.push_str(share_of(c).as_str());
    t.push_str("</td><td>");
    t.push_str(c.samples_median.to_string().as_str());
    t.push_str("</td><td>");
    t.push_str(c.tokens_median.to_string().as_str());
    t.push_str("</td><td>");
    t.push_str(c.plan_ms_median.to_string().as_str());
    t.push_str("</td><td>");
    t.push_str(c.run_ms_median.to_string().as_str());
    t.push_str("</td><td>");
    t.push_str(c.wall_ms_median.to_string().as_str());
    t.push_str("</td><td>");
    t.push_str(c.wall_ms_p25.to_string().as_str());
    t.push_str("–");
    t.push_str(c.wall_ms_p75.to_string().as_str());
    t.push_str("</td><td class=\"");
    t.push_str(
        if c.max_parallel_max > 1 {
            "hot"
        } else {
            ""
        },
    );
    t.push_str("\">");
    t.push_str(c.max_parallel_median.to_string().as_str());
    t.push_str("</td><td class=\"");
    t.push_str(
        if c.double_sends_total > 0 {
            "bad"
        } else {
            ""
        },
    );
    t.push_str("\">");
    t.push_str(dec_string(c.double_sends_total).as_str());
    t.push_str("</td><td>");
    t.push_str(dec_string(c.forks_total).as_str());
    t.push_str("</td></tr>");
    t
}

/// The rows of a task.
pub open spec fn rows_html(cs: Seq<CellV>, task: Seq<char>) -> Seq<char>
    decreases cs.len(),
{
    if cs.len() == 0 {
        Seq::empty()
    } else if cs.last().task == task {
        rows_html(cs.drop_last(), task) + row_html(cs.last())
    } else {
        rows_html(cs.drop_last(), task)
    }
}

/// Lines of text, made safe.
pub open spec fn escaped_lines(xs: Seq<Seq<char>>) -> Seq<char>
    decreases xs.len(),
{
    if xs.len() == 0 {
        Seq::empty()
    } else {
        escaped_lines(xs.drop_last()) + escaped(xs.last()) + "\n"@
    }
}

/// What went wrong in the runs of a task.
pub open spec fn task_errors(cs: Seq<CellV>, task: Seq<char>) -> Seq<Seq<char>>
    decreases cs.len(),
{
    if cs.len() == 0 {
        Seq::empty()
    } else if cs.last().task == task {
        task_errors(cs.drop_last(), task) + cs.last().errors
    } else {
        task_errors(cs.drop_last(), task)
    }
}

/// What went wrong, to be unfolded.
pub open spec fn errors_html(errs: Seq<Seq<char>>) -> Seq<char> {
    if errs.len() == 0 {
        ""@
    } else {
        "<details><summary>errors</summary><pre>"@ + escaped_lines(errs) + "</pre></details>"@
    }
}

/// The first run of arm D on a task.
pub open spec fn first_planned(rs: Seq<RunResultV>, task: Seq<char>) -> Option<RunResultV>
    decreases rs.len(),
{
    if rs.len() == 0 {
        None
    } else if rs[0].task == task && rs[0].arm == "D"@ {
        Some(rs[0])
    } else {
        first_planned(rs.drop_first(), task)
    }
}

/// The plan of that run, to be unfolded.
pub open spec fn plan_html(rs: Seq<RunResultV>, task: Seq<char>) -> Seq<char> {
    match first_planned(rs, task) {
        None => ""@,
        Some(r) => match str_of(member(r.receipt, "plan"@)) {
            None => ""@,
            Some(p) => "<details><summary>plan (arm D, run "@ + dec(r.run as nat)
                + ")</summary><pre>"@ + escaped(p) + "</pre></details>"@,
        },
    }
}

/// The title of a task, or nothing.
pub open spec fn title_in(titles: Seq<(Seq<char>, Seq<char>)>, task: Seq<char>) -> Seq<char>
    decreases titles.len(),
{
    if titles.len() == 0 {
        ""@
    } else if titles[0].0 == task {
        titles[0].1
    } else {
        title_in(titles.drop_first(), task)
    }
}

/// The part of the page on a task.
pub open spec fn task_html(
    cs: Seq<CellV>,
    rs: Seq<RunResultV>,
    titles: Seq<(Seq<char>, Seq<char>)>,
    task: Seq<char>,
) -> Seq<char> {
    "<h2>"@ + task + " · "@ + title_in(titles, task) + "</h2>"@ + TABLE_HEAD@ + rows_html(cs, task)
        + "</tbody></table>"@ + errors_html(task_errors(cs, task)) + plan_html(rs, task)
}

/// The parts of the page on tasks.
pub open spec fn tasks_html(
    cs: Seq<CellV>,
    rs: Seq<RunResultV>,
    titles: Seq<(Seq<char>, Seq<char>)>,
    tasks: Seq<Seq<char>>,
) -> Seq<char>
    decreases tasks.len(),
{
    if tasks.len() == 0 {
        Seq::empty()
    } else {
        tasks_html(cs, rs, titles, tasks.drop_last()) + task_html(cs, rs, titles, tasks.last())
    }
}

/// Names without those that repeat the one before.
pub open spec fn runs_of_names(xs: Seq<Seq<char>>) -> Seq<Seq<char>>
    decreases xs.len(),
{
    if xs.len() == 0 {
        Seq::empty()
    } else if xs.len() > 1 && xs[xs.len() - 2] == xs.last() {
        runs_of_names(xs.drop_last())
    } else {
        runs_of_names(xs.drop_last()).push(xs.last())
    }
}

/// The whole page.
pub open spec fn page_html(
    dir: Seq<char>,
    cs: Seq<CellV>,
    rs: Seq<RunResultV>,
    titles: Seq<(Seq<char>, Seq<char>)>,
    depths: Seq<(Seq<char>, u32)>,
) -> Seq<char> {
    "<!doctype html><html lang=\"en\"><head><meta charset=\"utf-8\"><title>chiffon bench</title><style>"@
        + STYLE@ + "</style></head><body>"@
        + "<h1>chiffon bench</h1><p>run directory <code>"@ + dir
        + "</code>. Every figure is recomputed from the stored ledgers and oracle snapshots. The decisive column is <b>max parallel</b>: the largest number of effects in flight at one instant.</p>"@
        + tasks_html(cs, rs, titles, runs_of_names(cell_tasks(cs)))
        + "<h2>samples against depth</h2><p>A loop pays a thought per dependency level. A plan pays one thought regardless. This is the column that separates the arms.</p><pre>"@
        + escaped(depth_text(cs, depths)) + "</pre></body></html>"@
}

pub open spec fn titles_view(ts: Seq<(String, String)>) -> Seq<(Seq<char>, Seq<char>)> {
    ts.map_values(|t: (String, String)| (t.0@, t.1@))
}

proof fn title_skip(ts: Seq<(Seq<char>, Seq<char>)>, task: Seq<char>, i: int)
    requires
        0 <= i <= ts.len(),
        forall|j: int| 0 <= j < i ==> (#[trigger] ts[j]).0 != task,
    ensures
        title_in(ts, task) == title_in(ts.skip(i), task),
    decreases i,
{
    if i == 0 {
        assert(ts.skip(0) =~= ts);
    } else {
        assert(ts[0].0 != task);
        let t = ts.drop_first();
        assert forall|j: int| 0 <= j < i - 1 implies (#[trigger] t[j]).0 != task by {
            assert(t[j] == ts[j + 1]);
        }
        title_skip(t, task, i - 1);
        assert(t.skip(i - 1) =~= ts.skip(i));
    }
}

fn find_title(titles: &Vec<(String, String)>, task: &str) -> (r: String)
    ensures
        r@ == title_in(titles_view(titles@), task@),
{
    let ghost ts = titles_view(titles@);
    let mut i: usize = 0;
    while i < titles.len()
        invariant
            i <= titles@.len() == ts.len(),
            ts == titles_view(titles@),
            forall|j: int| 0 <= j < i ==> (#[trigger] ts[j]).0 != task@,
        decreases titles@.len() - i,
    {
        assert(ts[i as int] == (titles@[i as int].0@, titles@[i as int].1@));
        if same(titles[i].0.as_str(), task) {
            proof {
                title_skip(ts, task@, i as int);
                assert(ts.skip(i as int)[0] == ts[i as int]);
            }
            return titles[i].1.clone();
        }
        i += 1;
    }
    proof {
        title_skip(ts, task@, i as int);
    }
    owned("")
}

fn make_rows(cells: &Vec<Cell>, task: &str) -> (r: String)
    ensures
        r@ == rows_html(cells_view(cells@), task@),
{
    let ghost cs = cells_view(cells@);
    let mut s = String::new();
    let mut i: usize = 0;
    assert(s@ =~= rows_html(cs.take(0), task@));
    while i < cells.len()
        invariant
            i <= cells@.len() == cs.len(),
            cs == cells_view(cells@),
            s@ == rows_html(cs.take(i as int), task@),
        decreases cells@.len() - i,
    {
        proof {
            assert(cs.take(i + 1).drop_last() =~= cs.take(i as int));
            assert(cs.take(i + 1).last() == cells@[i as int]@);
        }
        if same(cells[i].task.as_str(), task) {
            let row = make_row(&cells[i]);
            s.push_str(row.as_str());
        }
        i += 1;
    }
    assert(cs.take(i as int) =~= cs);
    s
}

fn errors_of(cells: &Vec<Cell>, task: &str) -> (r: Vec<String>)
    ensures
        views(r@) == task_errors(cells_view(cells@), task@),
{
    let ghost cs = cells_view(cells@);
    let mut out: Vec<String> = Vec::new();
    let mut i: usize = 0;
    assert(views(out@) =~= task_errors(cs.take(0), task@));
    while i < cells.len()
        invariant
            i <= cells@.len() == cs.len(),
            cs == cells_view(cells@),
            views(out@) == task_errors(cs.take(i as int), task@),
        decreases cells@.len() - i,
    {
        proof {
            assert(cs.take(i + 1).drop_last() =~= cs.take(i as int));
            assert(cs.take(i + 1).last() == cells@[i as int]@);
        }
        if same(cells[i].task.as_str(), task) {
            let mut own = crate::text::clone_strings(&cells[i].errors);
            let ghost o = views(out@);
            let ghost n = views(own@);
            out.append(&mut own);
            assert(views(out@) =~= o + n);
        }
        i += 1;
    }
    assert(cs.take(i as int) =~= cs);
    out
}

fn make_errors(errs: &Vec<String>) -> (r: String)
    ensures
        r@ == errors_html(views(errs@)),
{
    let ghost vs = views(errs@);
    assert(vs.len() == errs@.len());
    if errs.len() == 0 {
        return owned("");
    }
    let mut lines = String::new();
    let mut i: usize = 0;
    assert(lines@ =~= escaped_lines(vs.take(0)));
    while i < errs.len()
        invariant
            i <= errs@.len() == vs.len(),
            vs == views(errs@),
            lines@ == escaped_lines(vs.take(i as int)),
        decreases errs@.len() - i,
    {
        proof {
            assert(vs.take(i + 1).drop_last() =~= vs.take(i as int));
            assert(vs.take(i + 1).last() == errs@[i as int]@);
        }
        let e = html_escape(errs[i].as_str());
        lines.push_str(e.as_str());
        lines.push_str("\n");
        i += 1;
    }
    assert(vs.take(i as int) =~= vs);
    let mut s = owned("<details><summary>errors</summary><pre>");
    s.push_str(lines.as_str());
    s.push_str("</pre></details>");
    s
}

proof fn planned_skip(rs: Seq<RunResultV>, task: Seq<char>, i: int)
    requires
        0 <= i <= rs.len(),
        forall|j: int| 0 <= j < i ==> !((#[trigger] rs[j]).task == task && rs[j].arm == "D"@),
    ensures
        first_planned(rs, task) == first_planned(rs.skip(i), task),
    decreases i,
{
    if i == 0 {
        assert(rs.skip(0) =~= rs);
    } else {
        assert(!(rs[0].task == task && rs[0].arm == "D"@));
        let t = rs.drop_first();
        assert forall|j: int| 0 <= j < i - 1 implies !((#[trigger] t[j]).task == task && t[j].arm
            == "D"@) by {
            assert(t[j] == rs[j + 1]);
        }
        planned_skip(t, task, i - 1);
        assert(t.skip(i - 1) =~= rs.skip(i));
    }
}

fn make_plan(results: &Vec<RunResult>, task: &str) -> (r: String)
    ensures
        r@ == plan_html(results_view(results@), task@),
{
    let ghost rs = results_view(results@);
    let mut i: usize = 0;
    while i < results.len()
        invariant
            i <= results@.len() == rs.len(),
            rs == results_view(results@),
            forall|j: int|
                0 <= j < i ==> !((#[trigger] rs[j]).task == task@ && rs[j].arm == "D"@),
        decreases results@.len() - i,
    {
        assert(rs[i as int] == results@[i as int]@);
        if same(results[i].task.as_str(), task) && same(results[i].arm.as_str(), "D") {
            proof {
                planned_skip(rs, task@, i as int);
                assert(rs.skip(i as int)[0] == rs[i as int]);
            }
            return match as_str(results[i].receipt.get("plan")) {
                None => owned(""),
                Some(p) => {
                    let mut s = owned("<details><summary>plan (arm D, run ");
                    push_dec(&mut s, results[i].run as u128);
                    s.push_str(")</summary><pre>");
                    s.push_str(html_escape(p).as_str());
                    s.push_str("</pre></details>");
                    s
                },
            };
        }
        i += 1;
    }
    proof {
        planned_skip(rs, task@, i as int);
    }
    owned("")
}

fn make_task(
    cells: &Vec<Cell>,
    results: &Vec<RunResult>,
    titles: &Vec<(String, String)>,
    task: &str,
) -> (r: String)
    ensures
        r@ == task_html(
            cells_view(cells@),
            results_view(results@),
            titles_view(titles@),
            task@,
        ),
{
    let mut s = owned("<h2>");
    s.push_str(task);
    s.push_str(" · ");
    s.push_str(find_title(titles, task).as_str());
    s.push_str("</h2>");
    s.push_str(TABLE_HEAD);
    s.push_str(make_rows(cells, task).as_str());
    s.push_str("</tbody></table>");
    let errs = errors_of(cells, task);
    s.push_str(make_errors(&errs).as_str());
    s.push_str(make_plan(results, task).as_str());
    s
}

fn without_repeats(xs: &Vec<String>) -> (r: Vec<String>)
    ensures
        views(r@) == runs_of_names(views(xs@)),
{
    let ghost vs = views(xs@);
    let mut out: Vec<String> = Vec::new();
    let mut i: usize = 0;
    assert(views(out@) =~= runs_of_names(vs.take(0)));
    while i < xs.len()
        invariant
            i <= xs@.len() == vs.len(),
            vs == views(xs@),
            views(out@) == runs_of_names(vs.take(i as int)),
        decreases xs@.len() - i,
    {
        proof {
            assert(vs.take(i + 1).drop_last() =~= vs.take(i as int));
            assert(vs.take(i + 1).last() == xs@[i as int]@);
            if i > 0 {
                assert(vs.take(i + 1)[i - 1] == xs@[i - 1]@);
            }
        }
        if !(i > 0 && same(xs[i - 1].as_str(), xs[i].as_str())) {
            let x = xs[i].clone();
            let ghost o = views(out@);
            out.push(x);
            assert(views(out@) =~= o.push(x@));
        }
        i += 1;
    }
    assert(vs.take(i as int) =~= vs);
    out
}

/// The whole page.
pub fn page(
    dir: &str,
    cells: &Vec<Cell>,
    results: &Vec<RunResult>,
    titles: &Vec<(String, String)>,
    depths: &Vec<(String, u32)>,
) -> (r: String)
    ensures
        r@ == page_html(
            dir@,
            cells_view(cells@),
            results_view(results@),
            titles_view(titles@),
            depths_view(depths@),
        ),
{
    let ghost cs = cells_view(cells@);
    let ghost rs = results_view(results@);
    let ghost tv = titles_view(titles@);
    let all = tasks_in(cells);
    let tasks = without_repeats(&all);
    let ghost ts = views(tasks@);
    assert(ts.len() == tasks@.len());
    let mut parts = String::new();
    let mut i: usize = 0;
    assert(parts@ =~= tasks_html(cs, rs, tv, ts.take(0)));
    while i < tasks.len()
        invariant
            i <= tasks@.len() == ts.len(),
            ts == views(tasks@),
            cs == cells_view(cells@),
            rs == results_view(results@),
            tv == titles_view(titles@),
            parts@ == tasks_html(cs, rs, tv, ts.take(i as int)),
        decreases tasks@.len() - i,
    {
        proof {
            assert(ts.take(i + 1).drop_last() =~= ts.take(i as int));
            assert(ts.take(i + 1).last() == tasks@[i as int]@);
        }
        let t = make_task(cells, results, titles, tasks[i].as_str());
        parts.push_str(t.as_str());
        i += 1;
    }
    assert(ts.take(i as int) =~= ts);
    let mut s = owned(
        "<!doctype html><html lang=\"en\"><head><meta charset=\"utf-8\"><title>chiffon bench</title><style>",
    );
    s.push_str(STYLE);
    s.push_str("</style></head><body>");
    s.push_str("<h1>chiffon bench</h1><p>run directory <code>");
    s.push_str(dir);
    s.push_str(
        "</code>. Every figure is recomputed from the stored ledgers and oracle snapshots. The decisive column is <b>max parallel</b>: the largest number of effects in flight at one instant.</p>",
    );
    s.push_str(parts.as_str());
    s.push_str(
        "<h2>samples against depth</h2><p>A loop pays a thought per dependency level. A plan pays one thought regardless. This is the column that separates the arms.</p><pre>",
    );
    let d = depth_table(cells, depths);
    s.push_str(html_escape(d.as_str()).as_str());
    s.push_str("</pre></body></html>");
    s
}

} // verus!
