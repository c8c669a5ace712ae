//! What is measured is what is kept: a result that was made of a ledger stands up to being
//! recomputed from it.

use crate::audit::{
    doubles_of, greatest_at, honest, least_at, problems_are_what_is_not_honest, problems_of,
    run_ms_of, spans_at, sum_at,
};
use crate::json::{entry, member, str_of, u64_of, JsonV};
use crate::ledger::{
    call_spans, first_start, last_end, receipt_of, run_length, sample_spans, surface_peaks,
    surface_spans, tokens_in_of, tokens_out_of, LedgerV, ReceiptV, RowV, SampleV, Status,
};
use crate::measured::{
    kind_word, ledger_json, receipt_fits, receipt_json, result_view_of, row_fits, row_json,
    rows_json, sample_fits, sample_json, samples_json,
};
use crate::plan::PlanV;
use crate::report::MadeV;
use crate::spans::peak;
use crate::tasks::{items_at, ledger_list, Expect};
use vstd::prelude::*;

verus! {

proof fn entry_at(xs: Seq<(Seq<char>, JsonV)>, k: Seq<char>, i: int)
    requires
        0 <= i < xs.len(),
        xs[i].0 == k,
        forall|j: int| 0 <= j < i ==> (#[trigger] xs[j]).0 != k,
    ensures
        entry(xs, k) == Some(xs[i].1),
    decreases i,
{
    if i > 0 {
        assert(xs[0].0 != k);
        let t = xs.drop_first();
        assert forall|j: int| 0 <= j < i - 1 implies (#[trigger] t[j]).0 != k by {
            assert(t[j] == xs[j + 1]);
        }
        entry_at(t, k, i - 1);
    }
}

/// What the row of a ledger says, it says when it is written down.
pub proof fn rows_are_kept(r: RowV)
    requires
        row_fits(r),
    ensures
        str_of(member(row_json(r), "surface"@)) == Some(r.surface),
        u64_of(member(row_json(r), "started_us"@)) == Some(r.started_us as u64),
        u64_of(member(row_json(r), "ended_us"@)) == Some(r.ended_us as u64),
{
    reveal_strlit("attempt");
    reveal_strlit("ended_us");
    reveal_strlit("error");
    reveal_strlit("key");
    reveal_strlit("node");
    reveal_strlit("observed");
    reveal_strlit("ok");
    reveal_strlit("op");
    reveal_strlit("started_us");
    reveal_strlit("surface");
    let xs = row_json(r)->Obj_0;
    assert("attempt"@[0] != "surface"@[0]);
    assert forall|j: int| 0 <= j < 9 implies (#[trigger] xs[j]).0 != "surface"@ by {
        if j > 0 {
            assert(xs[j].0.len() != "surface"@.len());
        }
    }
    entry_at(xs, "surface"@, 9);
    assert forall|j: int| 0 <= j < 8 implies (#[trigger] xs[j]).0 != "started_us"@ by {
        assert(xs[j].0.len() != "started_us"@.len());
    }
    entry_at(xs, "started_us"@, 8);
    assert("attempt"@.len() != "ended_us"@.len());
    entry_at(xs, "ended_us"@, 1);
}

/// What a sample of a ledger says, it says when it is written down.
pub proof fn samples_are_kept(s: SampleV)
    requires
        sample_fits(s),
    ensures
        str_of(member(sample_json(s), "kind"@)) == Some(kind_word(s.kind)),
        u64_of(member(sample_json(s), "started_us"@)) == Some(s.started_us as u64),
        u64_of(member(sample_json(s), "ended_us"@)) == Some(s.ended_us as u64),
        u64_of(member(sample_json(s), "tokens_in"@)) == Some(s.tokens_in),
        u64_of(member(sample_json(s), "tokens_out"@)) == Some(s.tokens_out),
{
    reveal_strlit("effort");
    reveal_strlit("ended_us");
    reveal_strlit("kind");
    reveal_strlit("model");
    reveal_strlit("seq");
    reveal_strlit("started_us");
    reveal_strlit("tokens_in");
    reveal_strlit("tokens_out");
    let xs = sample_json(s)->Obj_0;
    assert("effort"@.len() != "ended_us"@.len());
    entry_at(xs, "ended_us"@, 1);
    assert forall|j: int| 0 <= j < 2 implies (#[trigger] xs[j]).0 != "kind"@ by {
        assert(xs[j].0.len() != "kind"@.len());
    }
    entry_at(xs, "kind"@, 2);
    assert forall|j: int| 0 <= j < 5 implies (#[trigger] xs[j]).0 != "started_us"@ by {
        assert(xs[j].0.len() != "started_us"@.len());
    }
    entry_at(xs, "started_us"@, 5);
    assert forall|j: int| 0 <= j < 6 implies (#[trigger] xs[j]).0 != "tokens_in"@ by {
        assert(xs[j].0.len() != "tokens_in"@.len());
    }
    entry_at(xs, "tokens_in"@, 6);
    assert("started_us"@[0] != "tokens_out"@[0]);
    assert forall|j: int| 0 <= j < 7 implies (#[trigger] xs[j]).0 != "tokens_out"@ by {
        if j != 5 {
            assert(xs[j].0.len() != "tokens_out"@.len());
        }
    }
    entry_at(xs, "tokens_out"@, 7);
}

/// The lists of a ledger stand in the receipt as it is written down.
pub proof fn ledgers_are_kept(r: ReceiptV)
    ensures
        ledger_list(receipt_json(r), "rows"@) == rows_json(r.ledger.rows),
        ledger_list(receipt_json(r), "samples"@) == samples_json(r.ledger.samples),
        ledger_list(receipt_json(r), "forks"@) == r.ledger.forks,
{
    reveal_strlit("busy_ms");
    reveal_strlit("depth");
    reveal_strlit("effects");
    reveal_strlit("error");
    reveal_strlit("evidence");
    reveal_strlit("forks_taken");
    reveal_strlit("ledger");
    let xs = receipt_json(r)->Obj_0;
    assert forall|j: int| 0 <= j < 6 implies (#[trigger] xs[j]).0 != "ledger"@ by {
        assert(xs[j].0.len() != "ledger"@.len());
    }
    entry_at(xs, "ledger"@, 6);
    reveal_strlit("ended_ms");
    reveal_strlit("forks");
    reveal_strlit("notes");
    reveal_strlit("rows");
    reveal_strlit("samples");
    let ys = ledger_json(r.ledger)->Obj_0;
    assert("ended_ms"@.len() != "forks"@.len());
    entry_at(ys, "forks"@, 1);
    assert forall|j: int| 0 <= j < 3 implies (#[trigger] ys[j]).0 != "rows"@ by {
        assert(ys[j].0.len() != "rows"@.len());
    }
    entry_at(ys, "rows"@, 3);
    assert forall|j: int| 0 <= j < 4 implies (#[trigger] ys[j]).0 != "samples"@ by {
        assert(ys[j].0.len() != "samples"@.len());
    }
    entry_at(ys, "samples"@, 4);
}

pub open spec fn rows_fit(rs: Seq<RowV>) -> bool {
    forall|i: int| 0 <= i < rs.len() ==> row_fits(#[trigger] rs[i])
}

pub open spec fn samples_fit(ss: Seq<SampleV>) -> bool {
    forall|i: int| 0 <= i < ss.len() ==> sample_fits(#[trigger] ss[i])
}

proof fn rows_step(rs: Seq<RowV>)
    requires
        rows_fit(rs),
        rs.len() > 0,
    ensures
        rows_fit(rs.drop_last()),
        row_fits(rs.last()),
        rows_json(rs).drop_last() == rows_json(rs.drop_last()),
        rows_json(rs).last() == row_json(rs.last()),
{
    let d = rs.drop_last();
    assert forall|i: int| 0 <= i < d.len() implies row_fits(#[trigger] d[i]) by {
        assert(d[i] == rs[i]);
    }
    assert(row_fits(rs[rs.len() - 1]));
    assert(rows_json(rs).drop_last() =~= rows_json(d));
}

proof fn samples_step(ss: Seq<SampleV>)
    requires
        samples_fit(ss),
        ss.len() > 0,
    ensures
        samples_fit(ss.drop_last()),
        sample_fits(ss.last()),
        samples_json(ss).drop_last() == samples_json(ss.drop_last()),
        samples_json(ss).last() == sample_json(ss.last()),
{
    let d = ss.drop_last();
    assert forall|i: int| 0 <= i < d.len() implies sample_fits(#[trigger] d[i]) by {
        assert(d[i] == ss[i]);
    }
    assert(sample_fits(ss[ss.len() - 1]));
    assert(samples_json(ss).drop_last() =~= samples_json(d));
}

proof fn calls_are_kept(rs: Seq<RowV>)
    requires
        rows_fit(rs),
    ensures
        spans_at(rows_json(rs), true, None) == call_spans(rs),
    decreases rs.len(),
{
    if rs.len() > 0 {
        rows_step(rs);
        calls_are_kept(rs.drop_last());
        rows_are_kept(rs.last());
    }
}

proof fn surfaces_are_kept(rs: Seq<RowV>, s: Seq<char>)
    requires
        rows_fit(rs),
    ensures
        spans_at(rows_json(rs), false, Some(s)) == surface_spans(rs, s),
    decreases rs.len(),
{
    if rs.len() > 0 {
        rows_step(rs);
        surfaces_are_kept(rs.drop_last(), s);
        rows_are_kept(rs.last());
    }
}

proof fn ends_are_kept(rs: Seq<RowV>)
    requires
        rows_fit(rs),
        rs.len() > 0,
    ensures
        least_at(rows_json(rs), "started_us"@) == Some(first_start(rs) as u64),
        greatest_at(rows_json(rs), "ended_us"@) == Some(last_end(rs) as u64),
        first_start(rs) <= u64::MAX,
        last_end(rs) <= u64::MAX,
    decreases rs.len(),
{
    rows_step(rs);
    rows_are_kept(rs.last());
    if rs.len() > 1 {
        ends_are_kept(rs.drop_last());
    } else {
        assert(rows_json(rs.drop_last()).len() == 0);
        assert(rs.last() == rs[0]);
    }
}

proof fn thinking_is_kept(ss: Seq<SampleV>)
    requires
        samples_fit(ss),
    ensures
        spans_at(samples_json(ss), false, None) == sample_spans(ss),
        sum_at(samples_json(ss), "tokens_in"@) == tokens_in_of(ss),
        sum_at(samples_json(ss), "tokens_out"@) == tokens_out_of(ss),
    decreases ss.len(),
{
    if ss.len() > 0 {
        samples_step(ss);
        thinking_is_kept(ss.drop_last());
        samples_are_kept(ss.last());
        assert(sample_spans(ss) =~= sample_spans(ss.drop_last()).push(
            (ss.last().started_us, ss.last().ended_us),
        ));
    } else {
        assert(sample_spans(ss) =~= Seq::<(u128, u128)>::empty());
        assert(spans_at(samples_json(ss), false, None) =~= Seq::<(u128, u128)>::empty());
    }
}

/// A result that was made of a ledger has no problems: each of its numbers is the one that comes
/// out when it is recomputed from the ledger and the snapshot that stand in it.
pub proof fn measured_results_are_honest(
    l: LedgerV,
    p: PlanV,
    status: Status,
    yield_reason: Option<Seq<char>>,
    evidence: Option<JsonV>,
    error: Option<Seq<char>>,
    now_ms: u128,
    task: Seq<char>,
    expect: Expect,
    arm: Seq<char>,
    run: u32,
    snapshot: JsonV,
    double_sends: usize,
    made: MadeV,
)
    requires
        receipt_fits(receipt_of(l, p, status, yield_reason, evidence, error, now_ms)),
        l.samples.len() <= u32::MAX,
        l.forks.len() <= usize::MAX,
        peak(call_spans(l.rows)) <= usize::MAX,
        tokens_in_of(l.samples) <= u64::MAX,
        tokens_out_of(l.samples) <= u64::MAX,
        double_sends == doubles_of(
            items_at(snapshot, "outbox"@),
            items_at(snapshot, "outbox"@).len(),
        ),
    ensures
        problems_of(
            result_view_of(
                task,
                expect,
                arm,
                run,
                receipt_of(l, p, status, yield_reason, evidence, error, now_ms),
                snapshot,
                double_sends,
                made,
            ),
            Some(expect),
        ).len() == 0,
{
    let c = receipt_of(l, p, status, yield_reason, evidence, error, now_ms);
    let r = result_view_of(task, expect, arm, run, c, snapshot, double_sends, made);
    ledgers_are_kept(c);
    calls_are_kept(l.rows);
    thinking_is_kept(l.samples);
    if l.rows.len() > 0 {
        ends_are_kept(l.rows);
    } else {
        assert(rows_json(l.rows).len() == 0);
    }
    assert(run_ms_of(rows_json(l.rows)) == run_length(l.rows) / 1000);
    let peaks = surface_peaks(l.rows);
    assert forall|i: int| 0 <= i < peaks.len() implies peak(
        spans_at(rows_json(l.rows), false, Some((#[trigger] peaks[i]).0)),
    ) == peaks[i].1 by {
        surfaces_are_kept(l.rows, peaks[i].0);
    }
    problems_are_what_is_not_honest(r, Some(expect));
    assert(honest(r, Some(expect)));
}

} // verus!
