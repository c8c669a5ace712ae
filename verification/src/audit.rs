//! Recompute every headline number of a result from its raw ledger and snapshot. Whatever is
//! stored and disagrees is a problem: this is what makes a result a measurement rather than a
//! claim.

use crate::invoicing::opt_text;
use crate::json::{as_list, as_str, as_u64, get_in, list_view, member, str_of, u64_of, Json, JsonV};
use crate::report::{RunResult, RunResultV};
use crate::spans::{covered, max_overlap, peak, union_length};
use crate::tasks::{
    all_ok, all_passed, answered, check, checks_of, defaulted, items_at, ledger_list,
    resumed_after_fork, Expect, Task,
};
use crate::text::{dec, dec_string, owned, push_dec, same, views};
use vstd::prelude::*;

verus! {

// ---------- spans ----------

/// The number under a key, or nought.
pub open spec fn number_at(x: JsonV, k: Seq<char>) -> u64 {
    match u64_of(member(x, k)) {
        Some(n) => n,
        None => 0,
    }
}

fn read_number(x: &Json, k: &str) -> (r: u64)
    ensures
        r == number_at(x@, k@),
{
    match as_u64(x.get(k)) {
        Some(n) => n,
        None => 0,
    }
}

/// Whether a row is looked at: any, all but the waits for the outside world, or those of one
/// surface.
pub open spec fn looked_at(x: JsonV, skip_events: bool, surface: Option<Seq<char>>) -> bool {
    let s = str_of(member(x, "surface"@));
    &&& skip_events ==> s != Some("event"@)
    &&& surface is Some ==> s == surface
}

/// When a row ran.
pub open spec fn span_at(x: JsonV) -> (u128, u128) {
    (number_at(x, "started_us"@) as u128, number_at(x, "ended_us"@) as u128)
}

/// When the rows that are looked at ran.
pub open spec fn spans_at(rows: Seq<JsonV>, skip_events: bool, surface: Option<Seq<char>>) -> Seq<
    (u128, u128),
>
    decreases rows.len(),
{
    if rows.len() == 0 {
        Seq::empty()
    } else if looked_at(rows.last(), skip_events, surface) {
        spans_at(rows.drop_last(), skip_events, surface).push(span_at(rows.last()))
    } else {
        spans_at(rows.drop_last(), skip_events, surface)
    }
}

fn look(x: &Json, skip_events: bool, surface: Option<&str>) -> (r: bool)
    ensures
        r == looked_at(x@, skip_events, opt_text(surface)),
{
    let s = as_str(x.get("surface"));
    if skip_events {
        match s {
            Some(t) => {
                if same(t, "event") {
                    return false;
                }
            },
            None => {},
        }
    }
    match (surface, s) {
        (None, _) => true,
        (Some(a), Some(b)) => same(a, b),
        (Some(_), None) => false,
    }
}

fn spans_in(rows: &Vec<Json>, skip_events: bool, surface: Option<&str>) -> (r: Vec<(u128, u128)>)
    ensures
        r@ == spans_at(list_view(rows@), skip_events, opt_text(surface)),
{
    let ghost vs = list_view(rows@);
    assert(vs.len() == rows@.len());
    let mut out: Vec<(u128, u128)> = Vec::new();
    let mut i: usize = 0;
    assert(out@ =~= spans_at(vs.take(0), skip_events, opt_text(surface)));
    while i < rows.len()
        invariant
            i <= rows@.len() == vs.len(),
            vs == list_view(rows@),
            out@ == spans_at(vs.take(i as int), skip_events, opt_text(surface)),
        decreases rows@.len() - i,
    {
        proof {
            assert(vs.take(i + 1).drop_last() =~= vs.take(i as int));
            assert(vs.take(i + 1).last() == rows@[i as int]@);
        }
        if look(&rows[i], skip_events, surface) {
            out.push(
                (
                    read_number(&rows[i], "started_us") as u128,
                    read_number(&rows[i], "ended_us") as u128,
                ),
            );
        }
        i += 1;
    }
    assert(vs.take(i as int) =~= vs);
    out
}

/// The least number that stands under a key.
pub open spec fn least_at(rows: Seq<JsonV>, k: Seq<char>) -> Option<u64>
    decreases rows.len(),
{
    if rows.len() == 0 {
        None
    } else {
        match (least_at(rows.drop_last(), k), u64_of(member(rows.last(), k))) {
            (Some(a), Some(b)) => Some(
                if b < a {
                    b
                } else {
                    a
                },
            ),
            (Some(a), None) => Some(a),
            (None, b) => b,
        }
    }
}

/// The greatest number that stands under a key.
pub open spec fn greatest_at(rows: Seq<JsonV>, k: Seq<char>) -> Option<u64>
    decreases rows.len(),
{
    if rows.len() == 0 {
        None
    } else {
        match (greatest_at(rows.drop_last(), k), u64_of(member(rows.last(), k))) {
            (Some(a), Some(b)) => Some(
                if b > a {
                    b
                } else {
                    a
                },
            ),
            (Some(a), None) => Some(a),
            (None, b) => b,
        }
    }
}

/// From the first start to the last end, in milliseconds.
pub open spec fn run_ms_of(rows: Seq<JsonV>) -> nat {
    match (least_at(rows, "started_us"@), greatest_at(rows, "ended_us"@)) {
        (Some(s), Some(e)) => if e < s {
            0
        } else {
            ((e - s) / 1000) as nat
        },
        _ => 0,
    }
}

fn run_ms_in(rows: &Vec<Json>) -> (r: u128)
    ensures
        r == run_ms_of(list_view(rows@)),
{
    let ghost vs = list_view(rows@);
    assert(vs.len() == rows@.len());
    let mut first: Option<u64> = None;
    let mut last: Option<u64> = None;
    let mut i: usize = 0;
    while i < rows.len()
        invariant
            i <= rows@.len() == vs.len(),
            vs == list_view(rows@),
            first == least_at(vs.take(i as int), "started_us"@),
            last == greatest_at(vs.take(i as int), "ended_us"@),
        decreases rows@.len() - i,
    {
        proof {
            assert(vs.take(i + 1).drop_last() =~= vs.take(i as int));
            assert(vs.take(i + 1).last() == rows@[i as int]@);
        }
        first = match (first, as_u64(rows[i].get("started_us"))) {
            (Some(a), Some(b)) => Some(
                if b < a {
                    b
                } else {
                    a
                },
            ),
            (Some(a), None) => Some(a),
            (None, b) => b,
        };
        last = match (last, as_u64(rows[i].get("ended_us"))) {
            (Some(a), Some(b)) => Some(
                if b > a {
                    b
                } else {
                    a
                },
            ),
            (Some(a), None) => Some(a),
            (None, b) => b,
        };
        i += 1;
    }
    assert(vs.take(i as int) =~= vs);
    match (first, last) {
        (Some(s), Some(e)) => if e < s {
            0
        } else {
            ((e - s) / 1000) as u128
        },
        _ => 0,
    }
}

/// The sum of the numbers under a key.
pub open spec fn sum_at(xs: Seq<JsonV>, k: Seq<char>) -> nat
    decreases xs.len(),
{
    if xs.len() == 0 {
        0
    } else {
        sum_at(xs.drop_last(), k) + number_at(xs.last(), k) as nat
    }
}

fn sum_in(xs: &Vec<Json>, k: &str) -> (r: u128)
    ensures
        r == sum_at(list_view(xs@), k@),
{
    let ghost vs = list_view(xs@);
    assert(vs.len() == xs@.len());
    let mut t: u128 = 0;
    let mut i: usize = 0;
    while i < xs.len()
        invariant
            i <= xs@.len() == vs.len(),
            vs == list_view(xs@),
            t == sum_at(vs.take(i as int), k@),
            t <= i * 0xFFFF_FFFF_FFFF_FFFF,
        decreases xs@.len() - i,
    {
        proof {
            assert(vs.take(i + 1).drop_last() =~= vs.take(i as int));
            assert(vs.take(i + 1).last() == xs@[i as int]@);
        }
        t = t + read_number(&xs[i], k) as u128;
        i += 1;
    }
    assert(vs.take(i as int) =~= vs);
    t
}

// ---------- the outbox ----------

/// Whether two messages are of the same kind about the same invoice.
pub open spec fn same_message(a: JsonV, b: JsonV) -> bool {
    number_at(a, "invoice_id"@) == number_at(b, "invoice_id"@) && kind_at(a) == kind_at(b)
}

pub open spec fn kind_at(m: JsonV) -> Seq<char> {
    match str_of(member(m, "kind"@)) {
        Some(k) => k,
        None => ""@,
    }
}

pub open spec fn repeats_at(ms: Seq<JsonV>, i: int) -> bool {
    exists|j: int| 0 <= j < i && same_message(#[trigger] ms[j], ms[i])
}

/// How many of the first `n` messages repeat an earlier one.
pub open spec fn doubles_of(ms: Seq<JsonV>, n: nat) -> nat
    decreases n,
{
    if n == 0 {
        0
    } else {
        doubles_of(ms, (n - 1) as nat) + if repeats_at(ms, n - 1) {
            1nat
        } else {
            0
        }
    }
}

fn same_two(a: &Json, b: &Json) -> (r: bool)
    ensures
        r == same_message(a@, b@),
{
    let ka = match as_str(a.get("kind")) {
        Some(k) => k,
        None => "",
    };
    let kb = match as_str(b.get("kind")) {
        Some(k) => k,
        None => "",
    };
    read_number(a, "invoice_id") == read_number(b, "invoice_id") && same(ka, kb)
}

fn doubles_in(ms: &Vec<Json>) -> (r: usize)
    ensures
        r == doubles_of(list_view(ms@), list_view(ms@).len()),
{
    let ghost vs = list_view(ms@);
    assert(vs.len() == ms@.len());
    let mut n: usize = 0;
    let mut i: usize = 0;
    while i < ms.len()
        invariant
            i <= ms@.len() == vs.len(),
            vs == list_view(ms@),
            n <= i,
            n == doubles_of(vs, i as nat),
        decreases ms@.len() - i,
    {
        let mut again = false;
        let mut j: usize = 0;
        assert(vs[i as int] == ms@[i as int]@);
        while j < i
            invariant
                j <= i < ms@.len() == vs.len(),
                vs == list_view(ms@),
                vs[i as int] == ms@[i as int]@,
                again == exists|k: int|
                    0 <= k < j && same_message(#[trigger] vs[k], vs[i as int]),
            decreases i - j,
        {
            assert(vs[j as int] == ms@[j as int]@);
            if same_two(&ms[j], &ms[i]) {
                again = true;
            }
            j += 1;
        }
        if again {
            n += 1;
        }
        i += 1;
    }
    n
}

// ---------- problems ----------

/// One disagreement in words.
pub open spec fn complaint(
    who: Seq<char>,
    what: Seq<char>,
    stored: Seq<char>,
    recomputed: Seq<char>,
) -> Seq<char> {
    who + ": "@ + what + " stored "@ + stored + " recomputed "@ + recomputed
}

/// A disagreement, where there is one.
pub open spec fn unless(
    agreed: bool,
    who: Seq<char>,
    what: Seq<char>,
    stored: Seq<char>,
    recomputed: Seq<char>,
) -> Seq<Seq<char>> {
    if agreed {
        Seq::empty()
    } else {
        seq![complaint(who, what, stored, recomputed)]
    }
}

/// Who is complained about.
pub open spec fn who_of(r: RunResultV) -> Seq<char> {
    r.task + " "@ + r.arm + " run "@ + dec(r.run as nat)
}

/// What is wrong with the widths of the surfaces.
pub open spec fn surface_problems(
    who: Seq<char>,
    stored: Seq<(Seq<char>, nat)>,
    rows: Seq<JsonV>,
) -> Seq<Seq<char>>
    decreases stored.len(),
{
    if stored.len() == 0 {
        Seq::empty()
    } else {
        let (surface, n) = stored.last();
        let got = peak(spans_at(rows, false, Some(surface)));
        surface_problems(who, stored.drop_last(), rows) + unless(
            got == n,
            who,
            "max_parallel["@ + surface + "]"@,
            dec(n),
            dec(got),
        )
    }
}

pub open spec fn yes_no(b: bool) -> Seq<char> {
    if b {
        "true"@
    } else {
        "false"@
    }
}

/// What the oracle says of a result.
pub open spec fn correct_for(r: RunResultV, e: Expect) -> bool {
    let resumed = answered(ledger_list(r.receipt, "samples"@)) || defaulted(
        ledger_list(r.receipt, "forks"@),
    );
    let own = match (e.after_resume, resumed) {
        (Some(a), true) => *a,
        _ => e,
    };
    all_ok(checks_of(own, r.status, r.forks as nat, r.snapshot, r.double_sends as nat))
}

pub open spec fn correctness_problems(r: RunResultV, e: Option<Expect>) -> Seq<Seq<char>> {
    match e {
        Some(e) => unless(
            correct_for(r, e) == r.correct,
            who_of(r),
            "correctness"@,
            yes_no(r.correct),
            yes_no(correct_for(r, e)),
        ),
        None => Seq::empty(),
    }
}

pub open spec fn busy_problems(r: RunResultV, rows: Seq<JsonV>) -> Seq<Seq<char>> {
    match r.busy_ms {
        Some(b) => {
            let got = covered(spans_at(rows, true, None)).len() / 1000;
            unless(got == b, who_of(r), "busy_ms"@, dec(b as nat), dec(got))
        },
        None => Seq::empty(),
    }
}

/// What is wrong with the widths of a result.
pub open spec fn width_problems(r: RunResultV, rows: Seq<JsonV>) -> Seq<Seq<char>> {
    let width = peak(spans_at(rows, true, None));
    unless(
        width == r.max_parallel,
        who_of(r),
        "max_parallel"@,
        dec(r.max_parallel as nat),
        dec(width),
    ) + surface_problems(who_of(r), r.max_parallel_by_surface, rows)
}

/// What is wrong with the times of a result.
pub open spec fn time_problems(r: RunResultV, rows: Seq<JsonV>, samples: Seq<JsonV>) -> Seq<
    Seq<char>,
> {
    let plan_ms = covered(spans_at(samples, false, None)).len() / 1000;
    unless(
        run_ms_of(rows) == r.run_ms,
        who_of(r),
        "run_ms"@,
        dec(r.run_ms as nat),
        dec(run_ms_of(rows)),
    ) + busy_problems(r, rows) + unless(
        plan_ms == r.plan_ms,
        who_of(r),
        "plan_ms"@,
        dec(r.plan_ms as nat),
        dec(plan_ms),
    )
}

/// What is wrong with what a result says it cost.
pub open spec fn cost_problems(r: RunResultV, samples: Seq<JsonV>, forks: nat) -> Seq<Seq<char>> {
    let tin = sum_at(samples, "tokens_in"@);
    let tout = sum_at(samples, "tokens_out"@);
    unless(
        samples.len() == r.samples,
        who_of(r),
        "samples"@,
        dec(r.samples as nat),
        dec(samples.len()),
    ) + unless(
        tin == r.tokens_in && tout == r.tokens_out,
        who_of(r),
        "tokens"@,
        dec(r.tokens_in as nat) + "/"@ + dec(r.tokens_out as nat),
        dec(tin) + "/"@ + dec(tout),
    ) + unless(forks == r.forks, who_of(r), "forks"@, dec(r.forks as nat), dec(forks))
}

/// What is wrong with what a result says was sent twice: the outbox is the second witness.
pub open spec fn double_problems(r: RunResultV) -> Seq<Seq<char>> {
    let outbox = items_at(r.snapshot, "outbox"@);
    let doubles = doubles_of(outbox, outbox.len());
    unless(
        doubles == r.double_sends,
        who_of(r),
        "double_sends"@,
        dec(r.double_sends as nat),
        dec(doubles),
    )
}

/// Every disagreement of a result with its raw ledger and snapshot.
pub open spec fn problems_of(r: RunResultV, e: Option<Expect>) -> Seq<Seq<char>> {
    let rows = ledger_list(r.receipt, "rows"@);
    let samples = ledger_list(r.receipt, "samples"@);
    width_problems(r, rows) + time_problems(r, rows, samples) + cost_problems(
        r,
        samples,
        ledger_list(r.receipt, "forks"@).len(),
    ) + correctness_problems(r, e) + double_problems(r)
}

fn complain(
    out: &mut Vec<String>,
    agreed: bool,
    who: &str,
    what: &str,
    stored: &str,
    recomputed: &str,
)
    ensures
        views(final(out)@) == views(old(out)@) + unless(agreed, who@, what@, stored@, recomputed@),
{
    let ghost before = views(out@);
    if !agreed {
        let mut t = owned(who);
        t.push_str(": ");
        t.push_str(what);
        t.push_str(" stored ");
        t.push_str(stored);
        t.push_str(" recomputed ");
        t.push_str(recomputed);
        let ghost tv = t@;
        out.push(t);
        assert(views(out@) =~= before + seq![tv]);
    } else {
        assert(before + Seq::<Seq<char>>::empty() =~= before);
    }
}

fn slash(a: u128, b: u128) -> (r: String)
    ensures
        r@ == dec(a as nat) + "/"@ + dec(b as nat),
{
    let mut t = dec_string(a);
    t.push_str("/");
    push_dec(&mut t, b);
    t
}

fn word(b: bool) -> (r: &'static str)
    ensures
        r@ == yes_no(b),
{
    if b {
        "true"
    } else {
        "false"
    }
}

fn complain_of_surfaces(
    out: &mut Vec<String>,
    who: &str,
    stored: &Vec<(String, usize)>,
    rows: &Vec<Json>,
)
    ensures
        views(final(out)@) == views(old(out)@) + surface_problems(
            who@,
            crate::ledger::peaks_view(stored@),
            list_view(rows@),
        ),
{
    let ghost before = views(out@);
    let ghost ps = crate::ledger::peaks_view(stored@);
    let ghost rv = list_view(rows@);
    let mut i: usize = 0;
    assert(views(out@) =~= before + surface_problems(who@, ps.take(0), rv));
    while i < stored.len()
        invariant
            i <= stored@.len() == ps.len(),
            ps == crate::ledger::peaks_view(stored@),
            rv == list_view(rows@),
            views(out@) == before + surface_problems(who@, ps.take(i as int), rv),
        decreases stored@.len() - i,
    {
        proof {
            assert(ps.take(i + 1).drop_last() =~= ps.take(i as int));
            assert(ps.take(i + 1).last() == (stored@[i as int].0@, stored@[i as int].1 as nat));
        }
        let own = spans_in(rows, false, Some(stored[i].0.as_str()));
        let got = max_overlap(&own);
        let mut what = owned("max_parallel[");
        what.push_str(stored[i].0.as_str());
        what.push_str("]");
        complain(
            out,
            got == stored[i].1,
            who,
            what.as_str(),
            dec_string(stored[i].1 as u128).as_str(),
            dec_string(got as u128).as_str(),
        );
        i += 1;
        assert(views(out@) =~= before + surface_problems(who@, ps.take(i as int), rv));
    }
    assert(ps.take(i as int) =~= ps);
}

pub open spec fn expect_of(t: Option<&Task>) -> Option<Expect> {
    match t {
        Some(t) => Some(t.expect),
        None => None,
    }
}

fn name_of(r: &RunResult) -> (o: String)
    ensures
        o@ == who_of(r@),
{
    let mut who = r.task.clone();
    who.push_str(" ");
    who.push_str(r.arm.as_str());
    who.push_str(" run ");
    push_dec(&mut who, r.run as u128);
    who
}

fn complain_of_widths(
    out: &mut Vec<String>,
    r: &RunResult,
    rows: &Vec<Json>,
    calls: &Vec<(u128, u128)>,
)
    requires
        calls@ == spans_at(list_view(rows@), true, None),
    ensures
        views(final(out)@) == views(old(out)@) + width_problems(r@, list_view(rows@)),
{
    let ghost before = views(out@);
    let who = name_of(r);
    let width = max_overlap(calls);
    complain(
        out,
        width == r.max_parallel,
        who.as_str(),
        "max_parallel",
        dec_string(r.max_parallel as u128).as_str(),
        dec_string(width as u128).as_str(),
    );
    complain_of_surfaces(out, who.as_str(), &r.max_parallel_by_surface, rows);
    assert(views(out@) =~= before + width_problems(r@, list_view(rows@)));
}

fn complain_of_times(
    out: &mut Vec<String>,
    r: &RunResult,
    rows: &Vec<Json>,
    samples: &Vec<Json>,
    calls: &Vec<(u128, u128)>,
)
    requires
        calls@ == spans_at(list_view(rows@), true, None),
    ensures
        views(final(out)@) == views(old(out)@) + time_problems(
            r@,
            list_view(rows@),
            list_view(samples@),
        ),
{
    let ghost before = views(out@);
    let who = name_of(r);
    let run_ms = run_ms_in(rows);
    complain(
        out,
        run_ms == r.run_ms,
        who.as_str(),
        "run_ms",
        dec_string(r.run_ms).as_str(),
        dec_string(run_ms).as_str(),
    );
    let ghost mid = views(out@);
    match r.busy_ms {
        Some(b) => {
            let got = union_length(calls) / 1000;
            complain(
                out,
                got == b,
                who.as_str(),
                "busy_ms",
                dec_string(b).as_str(),
                dec_string(got).as_str(),
            );
        },
        None => {},
    }
    assert(views(out@) =~= mid + busy_problems(r@, list_view(rows@)));
    let thinking = spans_in(samples, false, None);
    let plan_ms = union_length(&thinking) / 1000;
    complain(
        out,
        plan_ms == r.plan_ms,
        who.as_str(),
        "plan_ms",
        dec_string(r.plan_ms).as_str(),
        dec_string(plan_ms).as_str(),
    );
    assert(views(out@) =~= before + time_problems(r@, list_view(rows@), list_view(samples@)));
}

fn complain_of_costs(out: &mut Vec<String>, r: &RunResult, samples: &Vec<Json>, forks: usize)
    ensures
        views(final(out)@) == views(old(out)@) + cost_problems(
            r@,
            list_view(samples@),
            forks as nat,
        ),
{
    let ghost before = views(out@);
    assert(list_view(samples@).len() == samples@.len());
    let who = name_of(r);
    complain(
        out,
        samples.len() as u64 == r.samples as u64,
        who.as_str(),
        "samples",
        dec_string(r.samples as u128).as_str(),
        dec_string(samples.len() as u128).as_str(),
    );
    let tin = sum_in(samples, "tokens_in");
    let tout = sum_in(samples, "tokens_out");
    complain(
        out,
        tin == r.tokens_in as u128 && tout == r.tokens_out as u128,
        who.as_str(),
        "tokens",
        slash(r.tokens_in as u128, r.tokens_out as u128).as_str(),
        slash(tin, tout).as_str(),
    );
    complain(
        out,
        forks == r.forks,
        who.as_str(),
        "forks",
        dec_string(r.forks as u128).as_str(),
        dec_string(forks as u128).as_str(),
    );
    assert(views(out@) =~= before + cost_problems(r@, list_view(samples@), forks as nat));
}

fn complain_of_correctness(out: &mut Vec<String>, r: &RunResult, task: Option<&Task>)
    ensures
        views(final(out)@) == views(old(out)@) + correctness_problems(r@, expect_of(task)),
{
    let ghost before = views(out@);
    match task {
        Some(t) => {
            let who = name_of(r);
            let expect = t.expect.applicable(resumed_after_fork(&r.receipt));
            let checks = check(expect, r.status.as_str(), r.forks, &r.snapshot, r.double_sends);
            let correct = all_passed(&checks);
            complain(
                out,
                correct == r.correct,
                who.as_str(),
                "correctness",
                word(r.correct),
                word(correct),
            );
        },
        None => {},
    }
    assert(views(out@) =~= before + correctness_problems(r@, expect_of(task)));
}

fn complain_of_doubles(out: &mut Vec<String>, r: &RunResult)
    ensures
        views(final(out)@) == views(old(out)@) + double_problems(r@),
{
    let none: Vec<Json> = Vec::new();
    assert(list_view(none@) =~= Seq::<JsonV>::empty());
    let outbox: &Vec<Json> = match as_list(r.snapshot.get("outbox")) {
        Some(xs) => xs,
        None => &none,
    };
    assert(list_view(outbox@) == items_at(r@.snapshot, "outbox"@));
    let who = name_of(r);
    let doubles = doubles_in(outbox);
    complain(
        out,
        doubles == r.double_sends,
        who.as_str(),
        "double_sends",
        dec_string(r.double_sends as u128).as_str(),
        dec_string(doubles as u128).as_str(),
    );
}

/// Every disagreement of a result with its raw ledger and snapshot, as lines to read.
pub fn problems_for(r: &RunResult, task: Option<&Task>) -> (o: Vec<String>)
    ensures
        views(o@) == problems_of(r@, expect_of(task)),
{
    let none: Vec<Json> = Vec::new();
    assert(list_view(none@) =~= Seq::<JsonV>::empty());
    let rows: &Vec<Json> = match as_list(get_in(r.receipt.get("ledger"), "rows")) {
        Some(xs) => xs,
        None => &none,
    };
    let samples: &Vec<Json> = match as_list(get_in(r.receipt.get("ledger"), "samples")) {
        Some(xs) => xs,
        None => &none,
    };
    let forks: &Vec<Json> = match as_list(get_in(r.receipt.get("ledger"), "forks")) {
        Some(xs) => xs,
        None => &none,
    };
    assert(list_view(rows@) == ledger_list(r@.receipt, "rows"@));
    assert(list_view(samples@) == ledger_list(r@.receipt, "samples"@));
    assert(list_view(forks@) == ledger_list(r@.receipt, "forks"@));
    assert(list_view(forks@).len() == forks@.len());
    let calls = spans_in(rows, true, None);
    let mut out: Vec<String> = Vec::new();
    assert(views(out@) =~= Seq::<Seq<char>>::empty());
    complain_of_widths(&mut out, r, rows, &calls);
    assert(views(out@) =~= width_problems(r@, list_view(rows@)));
    complain_of_times(&mut out, r, rows, samples, &calls);
    complain_of_costs(&mut out, r, samples, forks.len());
    complain_of_correctness(&mut out, r, task);
    complain_of_doubles(&mut out, r);
    out
}

// ---------- laws ----------

/// Whether the width of each surface is what its rows show.
pub open spec fn widths_agree(stored: Seq<(Seq<char>, nat)>, rows: Seq<JsonV>) -> bool {
    forall|i: int|
        0 <= i < stored.len() ==> peak(spans_at(rows, false, Some((#[trigger] stored[i]).0)))
            == stored[i].1
}

proof fn surfaces_agree(who: Seq<char>, stored: Seq<(Seq<char>, nat)>, rows: Seq<JsonV>)
    ensures
        surface_problems(who, stored, rows).len() == 0 <==> widths_agree(stored, rows),
    decreases stored.len(),
{
    if stored.len() > 0 {
        let d = stored.drop_last();
        surfaces_agree(who, d, rows);
        let last = stored.len() - 1;
        assert(stored[last] == stored.last());
        if widths_agree(stored, rows) {
            assert forall|i: int| 0 <= i < d.len() implies peak(
                spans_at(rows, false, Some((#[trigger] d[i]).0)),
            ) == d[i].1 by {
                assert(d[i] == stored[i]);
            }
            assert(peak(spans_at(rows, false, Some(stored[last].0))) == stored[last].1);
        }
        if surface_problems(who, stored, rows).len() == 0 {
            assert(surface_problems(who, d, rows).len() == 0);
            assert forall|i: int| 0 <= i < stored.len() implies peak(
                spans_at(rows, false, Some((#[trigger] stored[i]).0)),
            ) == stored[i].1 by {
                if i < last {
                    assert(d[i] == stored[i]);
                }
            }
        }
    }
}

/// Whether every headline number of a result is the one its raw ledger and snapshot give.
pub open spec fn honest(r: RunResultV, e: Option<Expect>) -> bool {
    let rows = ledger_list(r.receipt, "rows"@);
    let samples = ledger_list(r.receipt, "samples"@);
    let outbox = items_at(r.snapshot, "outbox"@);
    &&& r.max_parallel == peak(spans_at(rows, true, None))
    &&& widths_agree(r.max_parallel_by_surface, rows)
    &&& r.run_ms == run_ms_of(rows)
    &&& r.busy_ms matches Some(b) ==> b == covered(spans_at(rows, true, None)).len() / 1000
    &&& r.plan_ms == covered(spans_at(samples, false, None)).len() / 1000
    &&& r.samples == samples.len()
    &&& r.tokens_in == sum_at(samples, "tokens_in"@)
    &&& r.tokens_out == sum_at(samples, "tokens_out"@)
    &&& r.forks == ledger_list(r.receipt, "forks"@).len()
    &&& e matches Some(x) ==> r.correct == correct_for(r, x)
    &&& r.double_sends == doubles_of(outbox, outbox.len())
}

/// An honest result has no problems, and every doctored number is one.
pub proof fn problems_are_what_is_not_honest(r: RunResultV, e: Option<Expect>)
    ensures
        problems_of(r, e).len() == 0 <==> honest(r, e),
{
    let rows = ledger_list(r.receipt, "rows"@);
    let samples = ledger_list(r.receipt, "samples"@);
    surfaces_agree(who_of(r), r.max_parallel_by_surface, rows);
    let forks = ledger_list(r.receipt, "forks"@).len();
    let a = width_problems(r, rows);
    let b = time_problems(r, rows, samples);
    let c = cost_problems(r, samples, forks);
    let d = correctness_problems(r, e);
    let f = double_problems(r);
    assert(problems_of(r, e).len() == a.len() + b.len() + c.len() + d.len() + f.len());
}

/// The outbox of a snapshot counts the same doubles as the world does.
pub proof fn both_witnesses_agree(w: crate::invoicing::WorldV, chaos: JsonV, n: nat)
    requires
        n <= w.outbox.len(),
    ensures
        doubles_of(items_at(crate::api::snapshot_json(w, chaos), "outbox"@), n)
            == crate::writes::repeat_count(w.outbox, n),
    decreases n,
{
    let snapshot = crate::api::snapshot_json(w, chaos);
    let ms = items_at(snapshot, "outbox"@);
    outbox_is_shown(w, chaos);
    if n > 0 {
        both_witnesses_agree(w, chaos, (n - 1) as nat);
        let i = n - 1;
        assert forall|j: int| 0 <= j < n implies number_at(#[trigger] ms[j], "invoice_id"@)
            == w.outbox[j].invoice_id && kind_at(ms[j]) == w.outbox[j].kind by {
            message_is_shown(w.outbox[j]);
        }
        if repeats_at(ms, i) {
            let j = choose|j: int| 0 <= j < i && same_message(#[trigger] ms[j], ms[i]);
            assert(w.outbox[j].invoice_id == w.outbox[i].invoice_id);
            assert(crate::writes::repeats(w.outbox, i));
        }
        if crate::writes::repeats(w.outbox, i) {
            let j = choose|j: int|
                0 <= j < i && (#[trigger] w.outbox[j]).invoice_id == w.outbox[i].invoice_id
                    && w.outbox[j].kind == w.outbox[i].kind;
            assert(same_message(ms[j], ms[i]));
        }
    }
}

proof fn outbox_is_shown(w: crate::invoicing::WorldV, chaos: JsonV)
    ensures
        items_at(crate::api::snapshot_json(w, chaos), "outbox"@) == Seq::new(
            w.outbox.len(),
            |i: int| crate::api::outbox_json(w.outbox[i]),
        ),
{
    reveal_strlit("chaos");
    reveal_strlit("customers");
    reveal_strlit("invoices");
    reveal_strlit("outbox");
    reveal_with_fuel(crate::json::entry, 5);
    let xs = crate::api::snapshot_json(w, chaos)->Obj_0;
    assert("chaos"@.len() != "outbox"@.len());
    assert("customers"@.len() != "outbox"@.len());
    assert("invoices"@.len() != "outbox"@.len());
    assert(xs.drop_first()[0] == xs[1]);
    assert(xs.drop_first().drop_first()[0] == xs[2]);
    assert(xs.drop_first().drop_first().drop_first()[0] == xs[3]);
}

proof fn message_is_shown(m: crate::domain::OutboxMessageV)
    ensures
        number_at(crate::api::outbox_json(m), "invoice_id"@) == m.invoice_id,
        kind_at(crate::api::outbox_json(m)) == m.kind,
{
    reveal_strlit("id");
    reveal_strlit("invoice_id");
    reveal_strlit("key");
    reveal_strlit("kind");
    reveal_with_fuel(crate::json::entry, 5);
    let xs = crate::api::outbox_json(m)->Obj_0;
    assert("id"@.len() != "invoice_id"@.len());
    assert("id"@.len() != "kind"@.len());
    assert("invoice_id"@.len() != "kind"@.len());
    assert("key"@.len() != "kind"@.len());
    assert(xs.drop_first()[0] == xs[1]);
    assert(xs.drop_first().drop_first()[0] == xs[2]);
    assert(xs.drop_first().drop_first().drop_first()[0] == xs[3]);
}

} // verus!
