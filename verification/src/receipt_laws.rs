//! What a receipt says of a run: every node that was tried, every call that was in flight, every
//! sample that was paid for.

use crate::json::JsonV;
use crate::ledger::{
    call_spans, call_surfaces, committed, completed_of, effects_of, first_start, last_end,
    receipt_of, rows_of, run_length, surface_peaks, surface_spans, EffectSummaryV, LedgerV, RowV,
    SampleV, Status,
};
use crate::plan::{NodeV, PlanV};
use crate::spans::{covered, in_flight, peak, peak_is_greatest};
use crate::text::sort_dedup_ok;
use vstd::prelude::*;

verus! {

/// The rows of a node, in the order in which they were written.
pub open spec fn tries(rows: Seq<RowV>, node: Seq<char>) -> Seq<RowV> {
    rows.filter(|r: RowV| r.node == node)
}

/// Whether some row is about the node.
pub open spec fn tried(rows: Seq<RowV>, node: Seq<char>) -> bool {
    exists|i: int| 0 <= i < rows.len() && (#[trigger] rows[i]).node == node
}

proof fn rows_are_tries(rows: Seq<RowV>, node: Seq<char>)
    ensures
        rows_of(rows, node) == tries(rows, node),
        tried(rows, node) <==> tries(rows, node).len() > 0,
    decreases rows.len(),
{
    reveal(Seq::filter);
    if rows.len() > 0 {
        let d = rows.drop_last();
        rows_are_tries(d, node);
        if tried(d, node) {
            let i = choose|i: int| 0 <= i < d.len() && (#[trigger] d[i]).node == node;
            assert(rows[i] == d[i]);
        }
        if tried(rows, node) {
            let i = choose|i: int| 0 <= i < rows.len() && (#[trigger] rows[i]).node == node;
            if i < d.len() {
                assert(d[i] == rows[i]);
            }
        }
        if rows.last().node == node {
            assert(rows[rows.len() - 1].node == node);
        }
    }
}

/// What a receipt says of a node that was tried.
pub open spec fn fate(rows: Seq<RowV>, n: NodeV) -> EffectSummaryV {
    EffectSummaryV {
        node: n.id,
        op: n.op,
        key: n.key,
        attempts: tries(rows, n.id).len() as u32,
        ok: tries(rows, n.id).last().ok,
        observed: tries(rows, n.id).last().observed,
    }
}

proof fn fates(rows: Seq<RowV>, ns: Seq<NodeV>)
    ensures
        effects_of(rows, ns) == ns.filter(|n: NodeV| tried(rows, n.id)).map_values(
            |n: NodeV| fate(rows, n),
        ),
    decreases ns.len(),
{
    reveal(Seq::filter);
    let p = |n: NodeV| tried(rows, n.id);
    let f = |n: NodeV| fate(rows, n);
    if ns.len() > 0 {
        let d = ns.drop_last();
        fates(rows, d);
        rows_are_tries(rows, ns.last().id);
        if p(ns.last()) {
            assert(d.filter(p).push(ns.last()).map_values(f) =~= d.filter(p).map_values(f).push(
                f(ns.last()),
            ));
        }
    }
    assert(effects_of(rows, ns) =~= ns.filter(p).map_values(f));
}

/// Every node of the plan that has a row in the ledger has one effect in the receipt, and no other
/// node has one; they come in the order of the plan. An effect says how many rows the node has,
/// and how the last of them went, whether that is well or not.
pub proof fn every_node_that_was_tried_is_told(
    l: LedgerV,
    p: PlanV,
    status: Status,
    why: Option<Seq<char>>,
    evidence: Option<JsonV>,
    error: Option<Seq<char>>,
    now: u128,
)
    ensures
        receipt_of(l, p, status, why, evidence, error, now).effects == p.nodes.filter(
            |n: NodeV|
                exists|i: int| 0 <= i < l.rows.len() && (#[trigger] l.rows[i]).node == n.id,
        ).map_values(
            |n: NodeV|
                EffectSummaryV {
                    node: n.id,
                    op: n.op,
                    key: n.key,
                    attempts: l.rows.filter(|r: RowV| r.node == n.id).len() as u32,
                    ok: l.rows.filter(|r: RowV| r.node == n.id).last().ok,
                    observed: l.rows.filter(|r: RowV| r.node == n.id).last().observed,
                },
        ),
{
    fates(l.rows, p.nodes);
    let p1 = |n: NodeV| tried(l.rows, n.id);
    let p2 = |n: NodeV|
        exists|i: int| 0 <= i < l.rows.len() && (#[trigger] l.rows[i]).node == n.id;
    let f1 = |n: NodeV| fate(l.rows, n);
    let f2 = |n: NodeV|
        EffectSummaryV {
            node: n.id,
            op: n.op,
            key: n.key,
            attempts: l.rows.filter(|r: RowV| r.node == n.id).len() as u32,
            ok: l.rows.filter(|r: RowV| r.node == n.id).last().ok,
            observed: l.rows.filter(|r: RowV| r.node == n.id).last().observed,
        };
    assert(p1 =~= p2);
    assert(f1 =~= f2);
}

/// A node of the plan that has a row, whatever became of it, is among the effects; where the ids
/// of the plan are distinct, it is there once.
pub proof fn a_tried_node_is_told_once(
    l: LedgerV,
    p: PlanV,
    status: Status,
    why: Option<Seq<char>>,
    evidence: Option<JsonV>,
    error: Option<Seq<char>>,
    now: u128,
    k: int,
    i: int,
)
    requires
        0 <= k < p.nodes.len(),
        0 <= i < l.rows.len(),
        l.rows[i].node == p.nodes[k].id,
        forall|j: int| i < j < l.rows.len() ==> (#[trigger] l.rows[j]).node != p.nodes[k].id,
        forall|a: int, b: int|
            0 <= a < b < p.nodes.len() ==> (#[trigger] p.nodes[a]).id != (
            #[trigger] p.nodes[b]).id,
    ensures
        ({
            let es = receipt_of(l, p, status, why, evidence, error, now).effects;
            exists|e: int|
                {
                    &&& 0 <= e < es.len()
                    &&& (#[trigger] es[e]).node == p.nodes[k].id
                    &&& es[e].op == p.nodes[k].op
                    &&& es[e].key == p.nodes[k].key
                    &&& es[e].ok == l.rows[i].ok
                    &&& es[e].observed == l.rows[i].observed
                    &&& forall|o: int|
                        0 <= o < es.len() && (#[trigger] es[o]).node == p.nodes[k].id ==> o == e
                }
        }),
{
    let es = receipt_of(l, p, status, why, evidence, error, now).effects;
    let e = told_once(l.rows, p.nodes, k);
    last_try(l.rows, p.nodes[k].id, i);
    assert(es == effects_of(l.rows, p.nodes));
    assert(es[e] == fate(l.rows, p.nodes[k]));
    assert(forall|o: int|
        0 <= o < es.len() && (#[trigger] es[o]).node == p.nodes[k].id ==> o == e);
}

proof fn last_try(rows: Seq<RowV>, node: Seq<char>, i: int)
    requires
        0 <= i < rows.len(),
        rows[i].node == node,
        forall|j: int| i < j < rows.len() ==> (#[trigger] rows[j]).node != node,
    ensures
        tries(rows, node).len() > 0,
        tries(rows, node).last() == rows[i],
    decreases rows.len(),
{
    reveal(Seq::filter);
    let d = rows.drop_last();
    if i < d.len() {
        assert(rows[rows.len() - 1].node != node);
        assert forall|j: int| i < j < d.len() implies (#[trigger] d[j]).node != node by {
            assert(d[j] == rows[j]);
        }
        last_try(d, node, i);
    }
}

proof fn told_once(rows: Seq<RowV>, ns: Seq<NodeV>, k: int) -> (e: int)
    requires
        0 <= k < ns.len(),
        tried(rows, ns[k].id),
        forall|a: int, b: int|
            0 <= a < b < ns.len() ==> (#[trigger] ns[a]).id != (#[trigger] ns[b]).id,
    ensures
        0 <= e < effects_of(rows, ns).len(),
        effects_of(rows, ns)[e] == fate(rows, ns[k]),
        forall|o: int|
            0 <= o < effects_of(rows, ns).len() && (#[trigger] effects_of(rows, ns)[o]).node
                == ns[k].id ==> o == e,
    decreases ns.len(),
{
    let d = ns.drop_last();
    let es = effects_of(rows, ns);
    let ds = effects_of(rows, d);
    rows_are_tries(rows, ns.last().id);
    assert(forall|a: int| 0 <= a < d.len() ==> d[a] == ns[a]);
    if k < d.len() {
        let e = told_once(rows, d, k);
        assert(ns[ns.len() - 1].id != ns[k].id);
        assert forall|o: int| 0 <= o < es.len() && (#[trigger] es[o]).node == ns[k].id implies o
            == e by {
            if o < ds.len() {
                assert(es[o] == ds[o]);
            }
        }
        e
    } else {
        named_among(rows, d);
        assert forall|o: int| 0 <= o < es.len() && (#[trigger] es[o]).node == ns[k].id implies o
            == ds.len() by {
            if o < ds.len() {
                assert(es[o] == ds[o]);
                let a = choose|a: int| 0 <= a < d.len() && (#[trigger] d[a]).id == ds[o].node;
                assert(ns[a].id == ns[k].id);
            }
        }
        ds.len() as int
    }
}

proof fn named_among(rows: Seq<RowV>, ns: Seq<NodeV>)
    ensures
        forall|o: int|
            0 <= o < effects_of(rows, ns).len() ==> exists|a: int|
                0 <= a < ns.len() && (#[trigger] ns[a]).id == (#[trigger] effects_of(
                    rows,
                    ns,
                )[o]).node,
    decreases ns.len(),
{
    if ns.len() > 0 {
        let d = ns.drop_last();
        named_among(rows, d);
        let es = effects_of(rows, ns);
        let ds = effects_of(rows, d);
        assert forall|o: int| 0 <= o < es.len() implies exists|a: int|
            0 <= a < ns.len() && (#[trigger] ns[a]).id == (#[trigger] es[o]).node by {
            if o < ds.len() {
                assert(es[o] == ds[o]);
                let a = choose|a: int| 0 <= a < d.len() && (#[trigger] d[a]).id == ds[o].node;
                assert(ns[a].id == es[o].node);
            } else {
                assert(ns[ns.len() - 1].id == es[o].node);
            }
        }
    }
}

// ---------- width ----------

proof fn calls_are_filtered(rows: Seq<RowV>)
    ensures
        call_spans(rows) == rows.filter(|r: RowV| r.surface != "event"@).map_values(
            |r: RowV| (r.started_us, r.ended_us),
        ),
        call_surfaces(rows) == rows.filter(|r: RowV| r.surface != "event"@).map_values(
            |r: RowV| r.surface,
        ),
    decreases rows.len(),
{
    reveal(Seq::filter);
    let p = |r: RowV| r.surface != "event"@;
    let f = |r: RowV| (r.started_us, r.ended_us);
    let g = |r: RowV| r.surface;
    if rows.len() > 0 {
        let d = rows.drop_last();
        calls_are_filtered(d);
        if p(rows.last()) {
            assert(d.filter(p).push(rows.last()).map_values(f) =~= d.filter(p).map_values(f).push(
                f(rows.last()),
            ));
            assert(d.filter(p).push(rows.last()).map_values(g) =~= d.filter(p).map_values(g).push(
                g(rows.last()),
            ));
        }
    }
    assert(call_spans(rows) =~= rows.filter(p).map_values(f));
    assert(call_surfaces(rows) =~= rows.filter(p).map_values(g));
}

proof fn surface_is_filtered(rows: Seq<RowV>, surface: Seq<char>)
    ensures
        surface_spans(rows, surface) == rows.filter(|r: RowV| r.surface == surface).map_values(
            |r: RowV| (r.started_us, r.ended_us),
        ),
    decreases rows.len(),
{
    reveal(Seq::filter);
    let p = |r: RowV| r.surface == surface;
    let f = |r: RowV| (r.started_us, r.ended_us);
    if rows.len() > 0 {
        let d = rows.drop_last();
        surface_is_filtered(d, surface);
        if p(rows.last()) {
            assert(d.filter(p).push(rows.last()).map_values(f) =~= d.filter(p).map_values(f).push(
                f(rows.last()),
            ));
        }
    }
    assert(surface_spans(rows, surface) =~= rows.filter(p).map_values(f));
}

/// How many calls of some rows were under way at an instant. A call too short to measure was
/// under way at its start.
pub open spec fn under_way(rows: Seq<RowV>, t: int) -> nat {
    rows.filter(
        |r: RowV| r.started_us <= t && (t < r.ended_us || t == r.started_us),
    ).len()
}

proof fn spans_under_way(rows: Seq<RowV>, t: int)
    ensures
        in_flight(rows.map_values(|r: RowV| (r.started_us, r.ended_us)), t) == under_way(rows, t),
    decreases rows.len(),
{
    reveal(Seq::filter);
    let f = |r: RowV| (r.started_us, r.ended_us);
    if rows.len() > 0 {
        let d = rows.drop_last();
        spans_under_way(d, t);
        assert(rows.map_values(f).drop_last() =~= d.map_values(f));
    }
}

/// The width of a run is the most calls that were under way at one instant: at no instant were
/// more, and at some instant that many were. Waits for an event are no calls; reads are.
pub proof fn the_width_is_what_was_under_way(
    l: LedgerV,
    p: PlanV,
    status: Status,
    why: Option<Seq<char>>,
    evidence: Option<JsonV>,
    error: Option<Seq<char>>,
    now: u128,
)
    ensures
        ({
            let r = receipt_of(l, p, status, why, evidence, error, now);
            let calls = l.rows.filter(|r: RowV| r.surface != "event"@);
            &&& forall|t: int| #[trigger] under_way(calls, t) <= r.max_parallel
            &&& exists|t: int| #[trigger] under_way(calls, t) == r.max_parallel
        }),
{
    let calls = l.rows.filter(|r: RowV| r.surface != "event"@);
    let spans = call_spans(l.rows);
    calls_are_filtered(l.rows);
    peak_is_greatest(spans);
    assert forall|t: int| #[trigger] under_way(calls, t) <= peak(spans) by {
        spans_under_way(calls, t);
        assert(in_flight(spans, t) <= peak(spans));
    }
    let t = choose|t: int| #[trigger] in_flight(spans, t) == peak(spans);
    spans_under_way(calls, t);
    assert(under_way(calls, t) == peak(spans));
}

/// The rows of one surface.
pub open spec fn calls_over(rows: Seq<RowV>, surface: Seq<char>) -> Seq<RowV> {
    rows.filter(|r: RowV| r.surface == surface)
}

/// At no instant are more of the calls under way than that, and at some instant that many are.
pub open spec fn width_of(calls: Seq<RowV>, n: nat) -> bool {
    &&& forall|t: int| #[trigger] under_way(calls, t) <= n
    &&& exists|t: int| #[trigger] under_way(calls, t) == n
}

/// Each surface that some call went over has its own width, and only such a surface has one.
pub proof fn each_surface_has_its_width(
    l: LedgerV,
    p: PlanV,
    status: Status,
    why: Option<Seq<char>>,
    evidence: Option<JsonV>,
    error: Option<Seq<char>>,
    now: u128,
)
    ensures
        ({
            let ws = receipt_of(
                l,
                p,
                status,
                why,
                evidence,
                error,
                now,
            ).max_parallel_by_surface;
            &&& forall|i: int|
                0 <= i < ws.len() ==> (#[trigger] ws[i]).0 != "event"@ && width_of(
                    calls_over(l.rows, ws[i].0),
                    ws[i].1,
                )
            &&& forall|k: int|
                0 <= k < l.rows.len() && (#[trigger] l.rows[k]).surface != "event"@ ==> exists|
                    i: int,
                |
                    0 <= i < ws.len() && (#[trigger] ws[i]).0 == l.rows[k].surface
        }),
{
    let ws = receipt_of(l, p, status, why, evidence, error, now).max_parallel_by_surface;
    assert(ws == surface_peaks(l.rows));
    let names = crate::text::sort_dedup(call_surfaces(l.rows));
    let q = |r: RowV| r.surface != "event"@;
    let called = l.rows.filter(q);
    calls_are_filtered(l.rows);
    sort_dedup_ok(call_surfaces(l.rows));
    assert forall|i: int| 0 <= i < ws.len() implies (#[trigger] ws[i]).0 != "event"@ && width_of(
        calls_over(l.rows, ws[i].0),
        ws[i].1,
    ) by {
        let s = names[i];
        assert(names.contains(s));
        assert(ws[i] == (s, peak(surface_spans(l.rows, s))));
        let k = choose|k: int| 0 <= k < call_surfaces(l.rows).len() && call_surfaces(l.rows)[k] == s;
        l.rows.lemma_filter_pred(q, k);
        let calls = calls_over(l.rows, s);
        let spans = surface_spans(l.rows, s);
        surface_is_filtered(l.rows, s);
        peak_is_greatest(spans);
        assert forall|t: int| #[trigger] under_way(calls, t) <= ws[i].1 by {
            spans_under_way(calls, t);
            assert(in_flight(spans, t) <= peak(spans));
        }
        let t = choose|t: int| #[trigger] in_flight(spans, t) == peak(spans);
        spans_under_way(calls, t);
        assert(under_way(calls, t) == ws[i].1);
    }
    assert forall|k: int|
        0 <= k < l.rows.len() && (#[trigger] l.rows[k]).surface != "event"@ implies exists|i: int|
        0 <= i < ws.len() && (#[trigger] ws[i]).0 == l.rows[k].surface by {
        l.rows.lemma_filter_contains(q, k);
        let m = choose|m: int| 0 <= m < called.len() && called[m] == l.rows[k];
        assert(call_surfaces(l.rows)[m] == l.rows[k].surface);
        assert(names.contains(l.rows[k].surface));
        let i = choose|i: int| 0 <= i < names.len() && names[i] == l.rows[k].surface;
        assert(ws[i].0 == l.rows[k].surface);
    }
}

// ---------- time ----------

proof fn bounds(rows: Seq<RowV>)
    requires
        rows.len() > 0,
    ensures
        forall|i: int| 0 <= i < rows.len() ==> first_start(rows) <= (#[trigger] rows[i]).started_us,
        forall|i: int| 0 <= i < rows.len() ==> (#[trigger] rows[i]).ended_us <= last_end(rows),
        exists|i: int| 0 <= i < rows.len() && (#[trigger] rows[i]).started_us == first_start(rows),
        exists|i: int| 0 <= i < rows.len() && (#[trigger] rows[i]).ended_us == last_end(rows),
    decreases rows.len(),
{
    assert(rows[rows.len() - 1] == rows.last());
    assert(rows[0].started_us == rows[0].started_us);
    if rows.len() > 1 {
        let d = rows.drop_last();
        bounds(d);
        let a = choose|i: int| 0 <= i < d.len() && (#[trigger] d[i]).started_us == first_start(d);
        let b = choose|i: int| 0 <= i < d.len() && (#[trigger] d[i]).ended_us == last_end(d);
        assert(rows[a] == d[a] && rows[b] == d[b]);
        let last = rows.len() - 1;
        assert(rows[a].started_us == first_start(rows) || rows[last].started_us == first_start(
            rows,
        ));
        assert(rows[b].ended_us == last_end(rows) || rows[last].ended_us == last_end(rows));
        assert forall|i: int| 0 <= i < rows.len() implies first_start(rows) <= (
        #[trigger] rows[i]).started_us by {
            if i < d.len() {
                assert(d[i] == rows[i]);
            }
        }
        assert forall|i: int| 0 <= i < rows.len() implies (#[trigger] rows[i]).ended_us
            <= last_end(rows) by {
            if i < d.len() {
                assert(d[i] == rows[i]);
            }
        }
    }
}

/// The run lasts, in whole milliseconds, from the first start of a row to the last end of one: it
/// is as long as from any start to any end, and some start and some end are that far apart. Waits
/// count here.
pub proof fn the_run_lasts_from_the_first_start_to_the_last_end(
    l: LedgerV,
    p: PlanV,
    status: Status,
    why: Option<Seq<char>>,
    evidence: Option<JsonV>,
    error: Option<Seq<char>>,
    now: u128,
)
    requires
        forall|i: int|
            0 <= i < l.rows.len() ==> (#[trigger] l.rows[i]).started_us <= l.rows[i].ended_us,
    ensures
        ({
            let r = receipt_of(l, p, status, why, evidence, error, now);
            &&& l.rows.len() == 0 ==> r.run_ms == 0
            &&& forall|i: int, j: int|
                0 <= i < l.rows.len() && 0 <= j < l.rows.len() ==> (
                (#[trigger] l.rows[j]).ended_us - (#[trigger] l.rows[i]).started_us) / 1000
                    <= r.run_ms
            &&& l.rows.len() > 0 ==> exists|i: int, j: int|
                0 <= i < l.rows.len() && 0 <= j < l.rows.len() && r.run_ms == ((
                #[trigger] l.rows[j]).ended_us - (#[trigger] l.rows[i]).started_us) / 1000
        }),
{
    let rows = l.rows;
    if rows.len() > 0 {
        bounds(rows);
        let a = choose|i: int|
            0 <= i < rows.len() && (#[trigger] rows[i]).started_us == first_start(rows);
        let b = choose|i: int|
            0 <= i < rows.len() && (#[trigger] rows[i]).ended_us == last_end(rows);
        assert(rows[b].ended_us >= rows[a].ended_us >= rows[a].started_us);
        assert(run_length(rows) == rows[b].ended_us - rows[a].started_us);
    }
}

/// Time is busy where a call was under way, and each instant counts once; thinking is where a
/// sample was. The clock on the wall runs from the opening of the ledger to its closing, or to
/// now where it is still open.
pub proof fn time_is_counted_once(
    l: LedgerV,
    p: PlanV,
    status: Status,
    why: Option<Seq<char>>,
    evidence: Option<JsonV>,
    error: Option<Seq<char>>,
    now: u128,
)
    ensures
        ({
            let r = receipt_of(l, p, status, why, evidence, error, now);
            &&& r.busy_ms == Set::new(
                |t: int|
                    exists|i: int|
                        0 <= i < l.rows.len() && (#[trigger] l.rows[i]).surface != "event"@
                            && l.rows[i].started_us <= t < l.rows[i].ended_us,
            ).len() / 1000
            &&& r.plan_ms == Set::new(
                |t: int|
                    exists|i: int|
                        0 <= i < l.samples.len() && (#[trigger] l.samples[i]).started_us <= t
                            < l.samples[i].ended_us,
            ).len() / 1000
            &&& l.ended_ms != 0 && l.started_ms <= l.ended_ms ==> r.wall_ms == l.ended_ms
                - l.started_ms
            &&& l.ended_ms == 0 && l.started_ms <= now ==> r.wall_ms == now - l.started_ms
        }),
{
    let busy = Set::new(
        |t: int|
            exists|i: int|
                0 <= i < l.rows.len() && (#[trigger] l.rows[i]).surface != "event"@
                    && l.rows[i].started_us <= t < l.rows[i].ended_us,
    );
    let thinking = Set::new(
        |t: int|
            exists|i: int|
                0 <= i < l.samples.len() && (#[trigger] l.samples[i]).started_us <= t
                    < l.samples[i].ended_us,
    );
    let q = |r: RowV| r.surface != "event"@;
    let calls = l.rows.filter(q);
    let spans = call_spans(l.rows);
    calls_are_filtered(l.rows);
    assert forall|t: int| covered(spans).contains(t) == busy.contains(t) by {
        if covered(spans).contains(t) {
            let k = choose|k: int|
                0 <= k < spans.len() && crate::spans::covers(#[trigger] spans[k], t);
            assert(calls.contains(calls[k]));
            crate::seqs::filter_has(l.rows, q, calls[k]);
            let i = choose|i: int| 0 <= i < l.rows.len() && l.rows[i] == calls[k];
            assert(l.rows[i].surface != "event"@);
        }
        if busy.contains(t) {
            let i = choose|i: int|
                0 <= i < l.rows.len() && (#[trigger] l.rows[i]).surface != "event"@
                    && l.rows[i].started_us <= t < l.rows[i].ended_us;
            l.rows.lemma_filter_contains(q, i);
            let k = choose|k: int| 0 <= k < calls.len() && calls[k] == l.rows[i];
            assert(crate::spans::covers(spans[k], t));
        }
    }
    assert(covered(spans) =~= busy);
    let ss = crate::ledger::sample_spans(l.samples);
    assert forall|t: int| covered(ss).contains(t) == thinking.contains(t) by {
        if covered(ss).contains(t) {
            let k = choose|k: int| 0 <= k < ss.len() && crate::spans::covers(#[trigger] ss[k], t);
            assert(l.samples[k].started_us <= t < l.samples[k].ended_us);
        }
        if thinking.contains(t) {
            let i = choose|i: int|
                0 <= i < l.samples.len() && (#[trigger] l.samples[i]).started_us <= t
                    < l.samples[i].ended_us;
            assert(crate::spans::covers(ss[i], t));
        }
    }
    assert(covered(ss) =~= thinking);
}

// ---------- cost, and the rest ----------

/// One more sample costs what it took in and gave out, and is one more sample; a ledger without
/// samples cost nothing.
pub proof fn every_sample_is_paid_for(
    l: LedgerV,
    s: SampleV,
    p: PlanV,
    status: Status,
    why: Option<Seq<char>>,
    evidence: Option<JsonV>,
    error: Option<Seq<char>>,
    now: u128,
)
    requires
        l.samples.len() < u32::MAX,
    ensures
        ({
            let r = receipt_of(l, p, status, why, evidence, error, now);
            let more = LedgerV { samples: l.samples.push(s), ..l };
            let n = receipt_of(more, p, status, why, evidence, error, now);
            &&& n.tokens_in == r.tokens_in + s.tokens_in
            &&& n.tokens_out == r.tokens_out + s.tokens_out
            &&& n.samples == r.samples + 1
            &&& l.samples.len() == 0 ==> r.tokens_in == 0 && r.tokens_out == 0 && r.samples == 0
        }),
{
    assert(l.samples.push(s).drop_last() =~= l.samples);
}

/// A receipt is of its plan and its run: it has the plan's id and as many nodes as the plan, as
/// many forks as the ledger, the ledger itself, and how the run ended as it was told.
pub proof fn a_receipt_is_of_its_run(
    l: LedgerV,
    p: PlanV,
    status: Status,
    why: Option<Seq<char>>,
    evidence: Option<JsonV>,
    error: Option<Seq<char>>,
    now: u128,
)
    ensures
        ({
            let r = receipt_of(l, p, status, why, evidence, error, now);
            &&& r.plan_id == p.plan_id
            &&& r.nodes == p.nodes.len()
            &&& r.depth == crate::plan::depth_spec(p)
            &&& r.forks_taken == l.forks.len()
            &&& r.ledger == l
            &&& r.status == status
            &&& r.yield_reason == why
            &&& r.evidence == evidence
            &&& r.error == error
            &&& r.plan == crate::plan::render_text(p)
        }),
{
}

/// What a resumed run takes as done is what the last row that succeeded under that key observed;
/// a node without a key, and one whose key no row succeeded under, is not done.
pub proof fn done_is_the_last_success(rows: Seq<RowV>, ns: Seq<NodeV>, k: int, i: int, key: Seq<char>)
    requires
        0 <= k < ns.len(),
        ns[k].key == Some(key),
        0 <= i < rows.len(),
        rows[i].ok,
        rows[i].key == Some(key),
        forall|j: int|
            i < j < rows.len() ==> !((#[trigger] rows[j]).ok && rows[j].key == Some(key)),
        forall|a: int, b: int|
            0 <= a < b < ns.len() ==> (#[trigger] ns[a]).id != (#[trigger] ns[b]).id,
    ensures
        completed_of(rows, ns).contains_key(ns[k].id),
        completed_of(rows, ns)[ns[k].id] == rows[i].observed,
    decreases ns.len(),
{
    last_committed(rows, key, i);
    let d = ns.drop_last();
    assert(forall|a: int| 0 <= a < d.len() ==> d[a] == ns[a]);
    if k < d.len() {
        done_is_the_last_success(rows, d, k, i, key);
        assert(ns[ns.len() - 1].id != ns[k].id);
    }
}

proof fn last_committed(rows: Seq<RowV>, key: Seq<char>, i: int)
    requires
        0 <= i < rows.len(),
        rows[i].ok,
        rows[i].key == Some(key),
        forall|j: int|
            i < j < rows.len() ==> !((#[trigger] rows[j]).ok && rows[j].key == Some(key)),
    ensures
        committed(rows, key) == Some(rows[i]),
    decreases rows.len(),
{
    let d = rows.drop_last();
    if i < d.len() {
        assert(!(rows[rows.len() - 1].ok && rows[rows.len() - 1].key == Some(key)));
        assert forall|j: int| i < j < d.len() implies !((#[trigger] d[j]).ok && d[j].key == Some(
            key,
        )) by {
            assert(d[j] == rows[j]);
        }
        last_committed(d, key, i);
    }
}

} // verus!
