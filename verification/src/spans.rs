//! Spans of time: how much they cover together, and how many are open at once.
//!
//! A span `(s, e)` starts at `s` and ends before `e`. One that ends before it starts covers
//! nothing; an instant at its start it is still open, so that a call too short to measure counts
//! as a call.

use vstd::prelude::*;
use vstd::set_lib::*;

verus! {

/// Whether a span covers an instant.
pub open spec fn covers(span: (u128, u128), t: int) -> bool {
    span.0 <= t < span.1
}

/// The instants that some span covers.
pub open spec fn covered(spans: Seq<(u128, u128)>) -> Set<int> {
    Set::new(|t: int| exists|i: int| 0 <= i < spans.len() && covers(#[trigger] spans[i], t))
}

/// Whether a span is open at an instant: from its start to its end, and at its start at least.
pub open spec fn open_at(span: (u128, u128), t: int) -> bool {
    span.0 <= t && (t < span.1 || t == span.0)
}

/// How many spans are open at an instant.
pub open spec fn in_flight(spans: Seq<(u128, u128)>, t: int) -> nat
    decreases spans.len(),
{
    if spans.len() == 0 {
        0
    } else {
        in_flight(spans.drop_last(), t) + if open_at(spans.last(), t) {
            1nat
        } else {
            0
        }
    }
}

/// The most spans open at the start of one of the first `n`.
pub open spec fn peak_of(spans: Seq<(u128, u128)>, n: nat) -> nat
    decreases n,
{
    if n == 0 {
        0
    } else {
        let rest = peak_of(spans, (n - 1) as nat);
        let here = in_flight(spans, spans[n - 1].0 as int);
        if here > rest {
            here
        } else {
            rest
        }
    }
}

/// The most spans open at one instant.
pub open spec fn peak(spans: Seq<(u128, u128)>) -> nat {
    peak_of(spans, spans.len())
}

proof fn in_flight_mono(spans: Seq<(u128, u128)>, t: int, u: int)
    requires
        forall|i: int|
            0 <= i < spans.len() && open_at(#[trigger] spans[i], t) ==> open_at(spans[i], u),
    ensures
        in_flight(spans, t) <= in_flight(spans, u),
    decreases spans.len(),
{
    if spans.len() > 0 {
        let r = spans.drop_last();
        assert forall|i: int| 0 <= i < r.len() && open_at(#[trigger] r[i], t) implies open_at(
            r[i],
            u,
        ) by {
            assert(r[i] == spans[i]);
        }
        in_flight_mono(r, t, u);
        assert(open_at(spans[spans.len() - 1], t) ==> open_at(spans[spans.len() - 1], u));
    }
}

proof fn in_flight_none(spans: Seq<(u128, u128)>, t: int)
    requires
        forall|i: int| 0 <= i < spans.len() ==> !open_at(#[trigger] spans[i], t),
    ensures
        in_flight(spans, t) == 0,
    decreases spans.len(),
{
    if spans.len() > 0 {
        let r = spans.drop_last();
        assert forall|i: int| 0 <= i < r.len() implies !open_at(#[trigger] r[i], t) by {
            assert(r[i] == spans[i]);
        }
        in_flight_none(r, t);
        assert(!open_at(spans[spans.len() - 1], t));
    }
}

/// Of the first `n` spans that are open at `t`, the one that starts last.
proof fn latest(spans: Seq<(u128, u128)>, t: int, n: int) -> (k: int)
    requires
        0 <= n <= spans.len(),
    ensures
        k == -1 ==> forall|i: int| 0 <= i < n ==> !open_at(#[trigger] spans[i], t),
        k != -1 ==> 0 <= k < n && open_at(spans[k], t) && forall|i: int|
            0 <= i < n && open_at(#[trigger] spans[i], t) ==> spans[i].0 <= spans[k].0,
    decreases n,
{
    if n == 0 {
        -1
    } else {
        let k = latest(spans, t, n - 1);
        if !open_at(spans[n - 1], t) {
            k
        } else if k == -1 || spans[k].0 <= spans[n - 1].0 {
            n - 1
        } else {
            k
        }
    }
}

proof fn peak_of_at(spans: Seq<(u128, u128)>, n: nat, k: int)
    requires
        0 <= k < n <= spans.len(),
    ensures
        in_flight(spans, spans[k].0 as int) <= peak_of(spans, n),
    decreases n,
{
    if k < n - 1 {
        peak_of_at(spans, (n - 1) as nat, k);
    }
}

proof fn peak_of_attained(spans: Seq<(u128, u128)>, n: nat)
    requires
        n <= spans.len(),
    ensures
        peak_of(spans, n) == 0 || exists|t: int| #[trigger]
            in_flight(spans, t) == peak_of(spans, n),
    decreases n,
{
    if n > 0 {
        peak_of_attained(spans, (n - 1) as nat);
    }
}

/// At no instant are more spans open than the peak says, and at some instant that many are.
pub proof fn peak_is_greatest(spans: Seq<(u128, u128)>)
    ensures
        forall|t: int| #[trigger] in_flight(spans, t) <= peak(spans),
        exists|t: int| #[trigger] in_flight(spans, t) == peak(spans),
{
    assert forall|t: int| #[trigger] in_flight(spans, t) <= peak(spans) by {
        let k = latest(spans, t, spans.len() as int);
        if k == -1 {
            in_flight_none(spans, t);
        } else {
            in_flight_mono(spans, t, spans[k].0 as int);
            peak_of_at(spans, spans.len(), k);
        }
    }
    peak_of_attained(spans, spans.len());
    if peak(spans) == 0 {
        assert(in_flight(spans, 0) <= 0);
    }
}

/// Spans that only touch are never open together.
pub proof fn touching_spans_do_not_overlap(a: u128, b: u128, c: u128)
    requires
        a < b < c,
    ensures
        peak(seq![(a, b), (b, c)]) == 1,
{
    let s = seq![(a, b), (b, c)];
    peak_is_greatest(s);
    assert forall|t: int| #[trigger] in_flight(s, t) <= 1 by {
        reveal_with_fuel(in_flight, 3);
        assert(s.drop_last() =~= seq![(a, b)]);
        assert(s.drop_last().drop_last() =~= Seq::<(u128, u128)>::empty());
    }
    assert(in_flight(s, a as int) == 1) by {
        reveal_with_fuel(in_flight, 3);
        assert(s.drop_last() =~= seq![(a, b)]);
        assert(s.drop_last().drop_last() =~= Seq::<(u128, u128)>::empty());
    }
}

fn open_count(spans: &Vec<(u128, u128)>, t: u128) -> (r: usize)
    ensures
        r == in_flight(spans@, t as int),
        r <= spans@.len(),
{
    let mut n: usize = 0;
    let mut i: usize = 0;
    while i < spans.len()
        invariant
            i <= spans@.len(),
            n <= i,
            n == in_flight(spans@.take(i as int), t as int),
        decreases spans@.len() - i,
    {
        proof {
            assert(spans@.take(i + 1).drop_last() =~= spans@.take(i as int));
        }
        let (s, e) = spans[i];
        if s <= t && (t < e || t == s) {
            n += 1;
        }
        i += 1;
    }
    assert(spans@.take(i as int) =~= spans@);
    n
}

/// The most spans open at one instant. One ends before another starts at the same instant, so
/// touching spans do not count as overlapping.
pub fn max_overlap(spans: &Vec<(u128, u128)>) -> (r: usize)
    ensures
        r == peak(spans@),
        forall|t: int| #[trigger] in_flight(spans@, t) <= r,
        exists|t: int| #[trigger] in_flight(spans@, t) == r,
{
    let mut best: usize = 0;
    let mut i: usize = 0;
    while i < spans.len()
        invariant
            i <= spans@.len(),
            best == peak_of(spans@, i as nat),
        decreases spans@.len() - i,
    {
        let n = open_count(spans, spans[i].0);
        if n > best {
            best = n;
        }
        i += 1;
    }
    proof {
        peak_is_greatest(spans@);
    }
    best
}

// ---------- the union ----------

/// In the order of their starts.
spec fn by_start(v: Seq<(u128, u128)>) -> bool {
    forall|i: int, j: int| 0 <= i < j < v.len() ==> (#[trigger] v[i]).0 <= (#[trigger] v[j]).0
}

fn sorted_spans(spans: &Vec<(u128, u128)>) -> (r: Vec<(u128, u128)>)
    ensures
        by_start(r@),
        covered(r@) == covered(spans@),
        forall|i: int| 0 <= i < r@.len() ==> (#[trigger] r@[i]).0 <= r@[i].1,
{
    let mut out: Vec<(u128, u128)> = Vec::new();
    let mut i: usize = 0;
    assert(covered(out@) =~= covered(spans@.take(0)));
    while i < spans.len()
        invariant
            i <= spans@.len(),
            by_start(out@),
            covered(out@) == covered(spans@.take(i as int)),
            forall|j: int| 0 <= j < out@.len() ==> (#[trigger] out@[j]).0 <= out@[j].1,
        decreases spans@.len() - i,
    {
        let (s, e0) = spans[i];
        let e: u128 = if e0 < s {
            s
        } else {
            e0
        };
        let mut k: usize = out.len();
        while k > 0 && s < out[k - 1].0
            invariant
                k <= out@.len(),
                forall|j: int| k <= j < out@.len() ==> s < (#[trigger] out@[j]).0,
            decreases k,
        {
            k -= 1;
        }
        let ghost before = out@;
        out.insert(k, (s, e));
        proof {
            let v = out@;
            assert forall|a: int, b: int| 0 <= a < b < v.len() implies (#[trigger] v[a]).0 <= (
            #[trigger] v[b]).0 by {
                let a0 = if a < k {
                    a
                } else {
                    a - 1
                };
                let b0 = if b < k {
                    b
                } else {
                    b - 1
                };
                if a != k && b != k {
                    assert(v[a] == before[a0] && v[b] == before[b0]);
                } else if b == k {
                    assert(v[a] == before[a]);
                    if a < k - 1 {
                        assert(before[a].0 <= before[k - 1].0);
                    }
                } else {
                    assert(v[b] == before[b - 1]);
                }
            }
            let p = spans@.take(i + 1);
            assert forall|t: int| covered(v).contains(t) == covered(p).contains(t) by {
                if covered(v).contains(t) {
                    let j = choose|j: int| 0 <= j < v.len() && covers(#[trigger] v[j], t);
                    if j == k {
                        assert(covers(p[i as int], t));
                    } else {
                        let j0 = if j < k {
                            j
                        } else {
                            j - 1
                        };
                        assert(covers(before[j0], t));
                        assert(covered(spans@.take(i as int)).contains(t));
                        let m = choose|m: int|
                            0 <= m < spans@.take(i as int).len() && covers(
                                #[trigger] spans@.take(i as int)[m],
                                t,
                            );
                        assert(covers(p[m], t));
                    }
                }
                if covered(p).contains(t) {
                    let m = choose|m: int| 0 <= m < p.len() && covers(#[trigger] p[m], t);
                    if m == i {
                        assert(covers(v[k as int], t));
                    } else {
                        assert(covers(spans@.take(i as int)[m], t));
                        assert(covered(before).contains(t));
                        let j = choose|j: int| 0 <= j < before.len() && covers(#[trigger] before[j], t);
                        if j < k {
                            assert(covers(v[j], t));
                        } else {
                            assert(v[j + 1] == before[j]);
                            assert(covers(v[j + 1], t));
                        }
                    }
                }
            }
            assert(covered(v) =~= covered(p));
        }
        i += 1;
    }
    assert(spans@.take(i as int) =~= spans@);
    out
}

/// The total length that spans cover, overlaps counted once.
pub fn union_length(spans: &Vec<(u128, u128)>) -> (r: u128)
    ensures
        covered(spans@).finite(),
        r == covered(spans@).len(),
{
    let v = sorted_spans(spans);
    if v.len() == 0 {
        assert(covered(v@) =~= Set::<int>::empty());
        return 0;
    }
    let mut total: u128 = 0;
    let mut cs: u128 = v[0].0;
    let mut ce: u128 = v[0].1;
    let mut i: usize = 1;
    let ghost mut done = Set::<int>::empty();
    proof {
        assert forall|t: int| covered(v@.take(1)).contains(t) == set_int_range(
            cs as int,
            ce as int,
        ).contains(t) by {
            if set_int_range(cs as int, ce as int).contains(t) {
                assert(covers(v@.take(1)[0], t));
            }
        }
        assert(covered(v@.take(1)) =~= done.union(set_int_range(cs as int, ce as int)));
    }
    while i < v.len()
        invariant
            1 <= i <= v@.len(),
            by_start(v@),
            forall|j: int| 0 <= j < v@.len() ==> (#[trigger] v@[j]).0 <= v@[j].1,
            cs <= ce,
            cs <= v@[i - 1].0,
            done.finite(),
            done.len() == total,
            total <= cs,
            forall|t: int| #[trigger] done.contains(t) ==> 0 <= t < cs,
            covered(v@.take(i as int)) == done.union(set_int_range(cs as int, ce as int)),
        decreases v@.len() - i,
    {
        let (s, e) = v[i];
        let ghost p = v@.take(i as int);
        let ghost q = v@.take(i + 1);
        assert(v@[i - 1].0 <= v@[i as int].0);
        proof {
            assert forall|t: int| covered(q).contains(t) == (covered(p).contains(t) || covers(
                (s, e),
                t,
            )) by {
                if covered(q).contains(t) {
                    let j = choose|j: int| 0 <= j < q.len() && covers(#[trigger] q[j], t);
                    if j < i {
                        assert(covers(p[j], t));
                    }
                }
                if covered(p).contains(t) {
                    let j = choose|j: int| 0 <= j < p.len() && covers(#[trigger] p[j], t);
                    assert(covers(q[j], t));
                }
                if covers((s, e), t) {
                    assert(covers(q[i as int], t));
                }
            }
        }
        if s <= ce {
            if e > ce {
                ce = e;
            }
            assert(covered(q) =~= done.union(set_int_range(cs as int, ce as int)));
        } else {
            let ghost part = set_int_range(cs as int, ce as int);
            proof {
                lemma_int_range(cs as int, ce as int);
                assert(done.disjoint(part));
                lemma_set_disjoint_lens(done, part);
                done = done.union(part);
                assert(done.len() == total + (ce - cs));
            }
            total = total + (ce - cs);
            cs = s;
            ce = e;
            assert(covered(q) =~= done.union(set_int_range(cs as int, ce as int)));
        }
        i += 1;
    }
    proof {
        assert(v@.take(i as int) =~= v@);
        let part = set_int_range(cs as int, ce as int);
        lemma_int_range(cs as int, ce as int);
        assert(done.disjoint(part));
        lemma_set_disjoint_lens(done, part);
    }
    total + (ce - cs)
}

} // verus!
