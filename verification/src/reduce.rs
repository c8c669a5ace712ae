//! Dropping the edges that carry no information.

use crate::graph::{acyclic, edges_view, leads, reach, reach_mono, reachable, step, walk, walk_part};
use crate::seqs::filter_has;
use crate::text::{same, views};
use vstd::prelude::*;

verus! {

/// The edges without those from a node to itself, each once, in the order of their first
/// occurrence.
pub open spec fn dedupe_spec(es: Seq<(Seq<char>, Seq<char>)>) -> Seq<(Seq<char>, Seq<char>)>
    decreases es.len(),
{
    if es.len() == 0 {
        Seq::empty()
    } else {
        let d = dedupe_spec(es.drop_last());
        let e = es.last();
        if e.0 == e.1 || d.contains(e) {
            d
        } else {
            d.push(e)
        }
    }
}

/// What `dedupe_spec` keeps: every edge between two different nodes, once.
pub proof fn dedupe_ok(es: Seq<(Seq<char>, Seq<char>)>)
    ensures
        dedupe_spec(es).no_duplicates(),
        forall|e: (Seq<char>, Seq<char>)| #[trigger]
            dedupe_spec(es).contains(e) <==> es.contains(e) && e.0 != e.1,
    decreases es.len(),
{
    if es.len() > 0 {
        let fs = es.drop_last();
        let d = dedupe_spec(fs);
        let l = es.last();
        dedupe_ok(fs);
        assert forall|e: (Seq<char>, Seq<char>)| #[trigger]
            dedupe_spec(es).contains(e) <==> es.contains(e) && e.0 != e.1 by {
            if es.contains(e) {
                let k = choose|k: int| 0 <= k < es.len() && es[k] == e;
                if k < fs.len() {
                    assert(fs[k] == e);
                }
            }
            if fs.contains(e) {
                let k = choose|k: int| 0 <= k < fs.len() && fs[k] == e;
                assert(es[k] == e);
            }
            if d.contains(e) {
                let k = choose|k: int| 0 <= k < d.len() && d[k] == e;
                assert(d.push(l)[k] == e);
            }
            assert(es[es.len() - 1] == l);
            assert(d.push(l)[d.len() as int] == l);
            if d.push(l).contains(e) {
                let k = choose|k: int| 0 <= k < d.push(l).len() && d.push(l)[k] == e;
                if k < d.len() {
                    assert(d[k] == e);
                }
            }
        }
        if !(l.0 == l.1 || d.contains(l)) {
            let r = d.push(l);
            assert forall|i: int, j: int| 0 <= i < r.len() && 0 <= j < r.len() && i != j implies r[i]
                != r[j] by {
                if i < d.len() && j < d.len() {
                } else if i < d.len() {
                    assert(d.contains(d[i]));
                } else {
                    assert(d.contains(d[j]));
                }
            }
        }
    }
}

fn has_edge(es: &Vec<(String, String)>, a: &str, b: &str) -> (r: bool)
    ensures
        r == edges_view(es@).contains((a@, b@)),
{
    let mut i: usize = 0;
    while i < es.len()
        invariant
            i <= es@.len(),
            forall|j: int| 0 <= j < i ==> edges_view(es@)[j] != (a@, b@),
        decreases es@.len() - i,
    {
        assert(edges_view(es@)[i as int] == (es@[i as int].0@, es@[i as int].1@));
        if same(es[i].0.as_str(), a) && same(es[i].1.as_str(), b) {
            return true;
        }
        i += 1;
    }
    false
}

/// Drop edges from a node to itself and all but the first of equal edges.
pub fn dedupe(edges: &Vec<(String, String)>) -> (r: Vec<(String, String)>)
    ensures
        edges_view(r@) == dedupe_spec(edges_view(edges@)),
{
    let ghost es = edges_view(edges@);
    let mut out: Vec<(String, String)> = Vec::new();
    let mut i: usize = 0;
    assert(edges_view(out@) =~= dedupe_spec(es.take(0)));
    while i < edges.len()
        invariant
            i <= edges@.len(),
            es == edges_view(edges@),
            edges_view(out@) == dedupe_spec(es.take(i as int)),
        decreases edges@.len() - i,
    {
        proof {
            assert(es.take(i + 1).drop_last() =~= es.take(i as int));
            assert(es.take(i + 1).last() == (edges@[i as int].0@, edges@[i as int].1@));
        }
        let (a, b) = (&edges[i].0, &edges[i].1);
        if !same(a.as_str(), b.as_str()) && !has_edge(&out, a.as_str(), b.as_str()) {
            let ghost o = edges_view(out@);
            out.push((a.clone(), b.clone()));
            assert(edges_view(out@) =~= o.push((a@, b@)));
        }
        i += 1;
    }
    assert(es.take(i as int) =~= es);
    out
}

// ---------- order ----------

/// The place of a name in `ids`, counted from one; zero for a name that is not there.
pub open spec fn rank(ids: Seq<Seq<char>>, n: Seq<char>) -> nat
    decreases ids.len(),
{
    if ids.len() == 0 {
        0
    } else if ids.last() == n {
        ids.len()
    } else {
        rank(ids.drop_last(), n)
    }
}

/// Edges are ordered by the place of their target, then by the place of their source.
pub open spec fn edge_le(
    ids: Seq<Seq<char>>,
    e: (Seq<char>, Seq<char>),
    f: (Seq<char>, Seq<char>),
) -> bool {
    rank(ids, e.1) < rank(ids, f.1) || (rank(ids, e.1) == rank(ids, f.1) && rank(ids, e.0) <= rank(
        ids,
        f.0,
    ))
}

/// `e` added to a sorted sequence, behind its equals.
pub open spec fn insert_edge(
    ids: Seq<Seq<char>>,
    s: Seq<(Seq<char>, Seq<char>)>,
    e: (Seq<char>, Seq<char>),
) -> Seq<(Seq<char>, Seq<char>)>
    decreases s.len(),
{
    if s.len() == 0 || edge_le(ids, s.last(), e) {
        s.push(e)
    } else {
        insert_edge(ids, s.drop_last(), e).push(s.last())
    }
}

/// The edges in order, equals as they came.
pub open spec fn sort_edges(ids: Seq<Seq<char>>, es: Seq<(Seq<char>, Seq<char>)>) -> Seq<
    (Seq<char>, Seq<char>),
>
    decreases es.len(),
{
    if es.len() == 0 {
        Seq::empty()
    } else {
        insert_edge(ids, sort_edges(ids, es.drop_last()), es.last())
    }
}

pub open spec fn differs(e: (Seq<char>, Seq<char>)) -> spec_fn((Seq<char>, Seq<char>)) -> bool {
    |f: (Seq<char>, Seq<char>)| f != e
}

/// The edges other than `e`.
pub open spec fn others(es: Seq<(Seq<char>, Seq<char>)>, e: (Seq<char>, Seq<char>)) -> Seq<
    (Seq<char>, Seq<char>),
> {
    es.filter(differs(e))
}

/// An edge whose target can be reached without it.
pub open spec fn redundant(
    es: Seq<(Seq<char>, Seq<char>)>,
    e: (Seq<char>, Seq<char>),
) -> bool {
    reach(others(es, e), e.0, e.1)
}

pub open spec fn needed(es: Seq<(Seq<char>, Seq<char>)>) -> spec_fn(
    (Seq<char>, Seq<char>),
) -> bool {
    |e: (Seq<char>, Seq<char>)| !redundant(es, e)
}

/// The transitive reduction: the edges in order, without the redundant ones.
pub open spec fn reduce_spec(ids: Seq<Seq<char>>, es: Seq<(Seq<char>, Seq<char>)>) -> Seq<
    (Seq<char>, Seq<char>),
> {
    let s = sort_edges(ids, es);
    s.filter(needed(s))
}

fn rank_of(ids: &Vec<String>, n: &str) -> (r: usize)
    ensures
        r == rank(views(ids@), n@),
{
    let ghost s = views(ids@);
    let mut i: usize = ids.len();
    assert(s.take(i as int) =~= s);
    while i > 0
        invariant
            i <= ids@.len(),
            s == views(ids@),
            rank(s, n@) == rank(s.take(i as int), n@),
        decreases i,
    {
        proof {
            assert(s.take(i as int).last() == ids@[i - 1]@);
            assert(s.take(i as int).drop_last() =~= s.take(i - 1));
        }
        if same(ids[i - 1].as_str(), n) {
            return i;
        }
        i -= 1;
    }
    0
}

proof fn insert_edge_at(
    ids: Seq<Seq<char>>,
    s: Seq<(Seq<char>, Seq<char>)>,
    e: (Seq<char>, Seq<char>),
    k: int,
)
    requires
        0 <= k <= s.len(),
        k > 0 ==> edge_le(ids, s[k - 1], e),
        forall|j: int| k <= j < s.len() ==> !edge_le(ids, #[trigger] s[j], e),
    ensures
        insert_edge(ids, s, e) == s.insert(k, e),
    decreases s.len(),
{
    if k == s.len() {
        assert(s.insert(k, e) =~= s.push(e));
    } else {
        let t = s.drop_last();
        assert(!edge_le(ids, s[s.len() - 1], e));
        assert forall|j: int| k <= j < t.len() implies !edge_le(ids, #[trigger] t[j], e) by {
            assert(t[j] == s[j]);
        }
        insert_edge_at(ids, t, e, k);
        assert(s.insert(k, e) =~= t.insert(k, e).push(s.last()));
    }
}

fn sorted_edges(edges: &Vec<(String, String)>, ids: &Vec<String>) -> (r: Vec<(String, String)>)
    ensures
        edges_view(r@) == sort_edges(views(ids@), edges_view(edges@)),
{
    let ghost es = edges_view(edges@);
    let ghost names = views(ids@);
    let mut out: Vec<(String, String)> = Vec::new();
    let mut keys: Vec<(usize, usize)> = Vec::new();
    let mut i: usize = 0;
    assert(edges_view(out@) =~= sort_edges(names, es.take(0)));
    while i < edges.len()
        invariant
            i <= edges@.len(),
            es == edges_view(edges@),
            names == views(ids@),
            edges_view(out@) == sort_edges(names, es.take(i as int)),
            keys@.len() == out@.len(),
            forall|j: int|
                #![trigger keys@[j]]
                0 <= j < keys@.len() ==> keys@[j].0 == rank(names, edges_view(out@)[j].1)
                    && keys@[j].1 == rank(names, edges_view(out@)[j].0),
        decreases edges@.len() - i,
    {
        let ghost s = edges_view(out@);
        let ghost e = (edges@[i as int].0@, edges@[i as int].1@);
        let kb: usize = rank_of(ids, edges[i].1.as_str());
        let ka: usize = rank_of(ids, edges[i].0.as_str());
        let mut k: usize = out.len();
        while k > 0 && !(keys[k - 1].0 < kb || (keys[k - 1].0 == kb && keys[k - 1].1 <= ka))
            invariant
                k <= out@.len() == keys@.len(),
                s == edges_view(out@),
                kb == rank(names, e.1),
                ka == rank(names, e.0),
                forall|j: int|
                    #![trigger keys@[j]]
                    0 <= j < keys@.len() ==> keys@[j].0 == rank(names, s[j].1) && keys@[j].1
                        == rank(names, s[j].0),
                forall|j: int| k <= j < s.len() ==> !edge_le(names, #[trigger] s[j], e),
            decreases k,
        {
            k -= 1;
        }
        proof {
            assert(es.take(i + 1).drop_last() =~= es.take(i as int));
            assert(es.take(i + 1).last() == e);
            insert_edge_at(names, s, e, k as int);
        }
        out.insert(k, (edges[i].0.clone(), edges[i].1.clone()));
        keys.insert(k, (kb, ka));
        assert(edges_view(out@) =~= s.insert(k as int, e));
        i += 1;
    }
    assert(es.take(i as int) =~= es);
    out
}

fn without(edges: &Vec<(String, String)>, a: &str, b: &str) -> (r: Vec<(String, String)>)
    ensures
        edges_view(r@) == others(edges_view(edges@), (a@, b@)),
{
    let ghost es = edges_view(edges@);
    let ghost keep = differs((a@, b@));
    let mut out: Vec<(String, String)> = Vec::new();
    let mut i: usize = 0;
    assert(es.take(0).filter(keep) =~= Seq::<(Seq<char>, Seq<char>)>::empty()) by {
        reveal(Seq::filter);
    }
    assert(edges_view(out@) =~= es.take(0).filter(keep));
    while i < edges.len()
        invariant
            i <= edges@.len(),
            es == edges_view(edges@),
            keep == differs((a@, b@)),
            edges_view(out@) == es.take(i as int).filter(keep),
        decreases edges@.len() - i,
    {
        let ghost e = (edges@[i as int].0@, edges@[i as int].1@);
        proof {
            assert(es.take(i + 1) =~= es.take(i as int).push(e));
            es.take(i as int).lemma_filter_push(e, keep);
        }
        if !(same(edges[i].0.as_str(), a) && same(edges[i].1.as_str(), b)) {
            let ghost o = edges_view(out@);
            out.push((edges[i].0.clone(), edges[i].1.clone()));
            assert(edges_view(out@) =~= o.push(e));
        }
        i += 1;
    }
    assert(es.take(i as int) =~= es);
    out
}

/// Transitive reduction, so the plan shows only the edges that carry information.
pub fn reduce(edges: &Vec<(String, String)>, ids: &Vec<String>) -> (r: Vec<(String, String)>)
    ensures
        edges_view(r@) == reduce_spec(views(ids@), edges_view(edges@)),
{
    let sorted = sorted_edges(edges, ids);
    let ghost s = edges_view(sorted@);
    let ghost keep = needed(s);
    let mut kept: Vec<(String, String)> = Vec::new();
    let mut i: usize = 0;
    assert(s.take(0).filter(keep) =~= Seq::<(Seq<char>, Seq<char>)>::empty()) by {
        reveal(Seq::filter);
    }
    assert(edges_view(kept@) =~= s.take(0).filter(keep));
    while i < sorted.len()
        invariant
            i <= sorted@.len(),
            s == edges_view(sorted@),
            keep == needed(s),
            edges_view(kept@) == s.take(i as int).filter(keep),
        decreases sorted@.len() - i,
    {
        let ghost e = (sorted@[i as int].0@, sorted@[i as int].1@);
        proof {
            assert(s.take(i + 1) =~= s.take(i as int).push(e));
            s.take(i as int).lemma_filter_push(e, keep);
        }
        let (a, b) = (&sorted[i].0, &sorted[i].1);
        let rest = without(&sorted, a.as_str(), b.as_str());
        if !reachable(a.as_str(), b.as_str(), &rest) {
            let ghost o = edges_view(kept@);
            kept.push((a.clone(), b.clone()));
            assert(edges_view(kept@) =~= o.push(e));
        }
        i += 1;
    }
    assert(s.take(i as int) =~= s);
    kept
}

// ---------- laws ----------

proof fn insert_edge_contains(
    ids: Seq<Seq<char>>,
    s: Seq<(Seq<char>, Seq<char>)>,
    x: (Seq<char>, Seq<char>),
)
    ensures
        forall|e: (Seq<char>, Seq<char>)| #[trigger]
            insert_edge(ids, s, x).contains(e) <==> s.contains(e) || e == x,
    decreases s.len(),
{
    let r = insert_edge(ids, s, x);
    if s.len() == 0 || edge_le(ids, s.last(), x) {
        push_edge_contains(s, x);
    } else {
        let t = s.drop_last();
        insert_edge_contains(ids, t, x);
        push_edge_contains(insert_edge(ids, t, x), s.last());
        push_edge_contains(t, s.last());
        assert(t.push(s.last()) =~= s);
    }
}

proof fn push_edge_contains(s: Seq<(Seq<char>, Seq<char>)>, x: (Seq<char>, Seq<char>))
    ensures
        forall|e: (Seq<char>, Seq<char>)| #[trigger]
            s.push(x).contains(e) <==> s.contains(e) || e == x,
{
    assert forall|e: (Seq<char>, Seq<char>)| #[trigger]
        s.push(x).contains(e) <==> s.contains(e) || e == x by {
        if s.contains(e) {
            let k = choose|k: int| 0 <= k < s.len() && s[k] == e;
            assert(s.push(x)[k] == e);
        }
        assert(s.push(x)[s.len() as int] == x);
        if s.push(x).contains(e) {
            let k = choose|k: int| 0 <= k < s.push(x).len() && s.push(x)[k] == e;
            if k < s.len() {
                assert(s[k] == e);
            }
        }
    }
}

/// Sorting keeps exactly the edges.
pub proof fn sort_edges_contains(ids: Seq<Seq<char>>, es: Seq<(Seq<char>, Seq<char>)>)
    ensures
        forall|e: (Seq<char>, Seq<char>)| #[trigger]
            sort_edges(ids, es).contains(e) <==> es.contains(e),
        sort_edges(ids, es).len() == es.len(),
    decreases es.len(),
{
    if es.len() > 0 {
        let t = es.drop_last();
        sort_edges_contains(ids, t);
        insert_edge_contains(ids, sort_edges(ids, t), es.last());
        insert_edge_len(ids, sort_edges(ids, t), es.last());
        push_edge_contains(t, es.last());
        assert(t.push(es.last()) =~= es);
    }
}

proof fn insert_edge_len(
    ids: Seq<Seq<char>>,
    s: Seq<(Seq<char>, Seq<char>)>,
    x: (Seq<char>, Seq<char>),
)
    ensures
        insert_edge(ids, s, x).len() == s.len() + 1,
    decreases s.len(),
{
    if !(s.len() == 0 || edge_le(ids, s.last(), x)) {
        insert_edge_len(ids, s.drop_last(), x);
    }
}

proof fn others_contains(es: Seq<(Seq<char>, Seq<char>)>, e: (Seq<char>, Seq<char>))
    ensures
        forall|f: (Seq<char>, Seq<char>)| #[trigger]
            others(es, e).contains(f) <==> es.contains(f) && f != e,
{
    assert forall|f: (Seq<char>, Seq<char>)| #[trigger]
        others(es, e).contains(f) <==> es.contains(f) && f != e by {
        filter_has(es, differs(e), f);
    }
}

/// An edge is kept exactly when it is no detour's shortcut.
pub proof fn reduce_contains(ids: Seq<Seq<char>>, es: Seq<(Seq<char>, Seq<char>)>)
    ensures
        forall|e: (Seq<char>, Seq<char>)| #[trigger]
            reduce_spec(ids, es).contains(e) <==> es.contains(e) && !redundant(es, e),
{
    let s = sort_edges(ids, es);
    sort_edges_contains(ids, es);
    assert forall|e: (Seq<char>, Seq<char>)| #[trigger]
        reduce_spec(ids, es).contains(e) <==> es.contains(e) && !redundant(es, e) by {
        others_contains(s, e);
        others_contains(es, e);
        assert(redundant(s, e) == redundant(es, e)) by {
            if redundant(s, e) {
                reach_mono(others(s, e), others(es, e), e.0, e.1);
            }
            if redundant(es, e) {
                reach_mono(others(es, e), others(s, e), e.0, e.1);
            }
        }
        filter_has(s, needed(s), e);
    }
}

/// Without cycles a walk is no longer than there are edges.
pub proof fn walk_bound(es: Seq<(Seq<char>, Seq<char>)>, p: Seq<Seq<char>>)
    requires
        acyclic(es),
        walk(es, p),
    ensures
        p.len() <= es.len() + 1,
{
    let q = Seq::new((p.len() - 1) as nat, |i: int| (p[i], p[i + 1]));
    assert forall|i: int, j: int| 0 <= i < q.len() && 0 <= j < q.len() && i != j implies q[i]
        != q[j] by {
        if q[i] == q[j] {
            let (a, b) = if i < j {
                (i, j)
            } else {
                (j, i)
            };
            assert(p[a] == p[b]);
            walk_part(es, p, a, b + 1);
            let c = p.subrange(a, b + 1);
            assert(leads(es, c, p[a], p[a]));
            assert(reach(es, p[a], p[a]));
        }
    }
    assert(q.no_duplicates());
    q.unique_seq_to_set();
    assert(q.to_set().subset_of(es.to_set())) by {
        assert forall|e: (Seq<char>, Seq<char>)| #[trigger]
            q.to_set().contains(e) implies es.to_set().contains(e) by {
            let i = choose|i: int| 0 <= i < q.len() && q[i] == e;
            assert(step(es, p, i));
        }
    }
    es.lemma_cardinality_of_set();
    vstd::set_lib::lemma_len_subset(q.to_set(), es.to_set());
}

proof fn detour(
    es: Seq<(Seq<char>, Seq<char>)>,
    kept: Seq<(Seq<char>, Seq<char>)>,
    p: Seq<Seq<char>>,
    a: Seq<char>,
    b: Seq<char>,
)
    requires
        acyclic(es),
        leads(es, p, a, b),
        forall|e: (Seq<char>, Seq<char>)| #[trigger]
            kept.contains(e) <==> es.contains(e) && !redundant(es, e),
    ensures
        reach(kept, a, b),
    decreases es.len() + 1 - p.len(),
{
    walk_bound(es, p);
    if forall|i: int| 0 <= i < p.len() - 1 ==> #[trigger] step(kept, p, i) {
        assert(leads(kept, p, a, b));
    } else {
        let i = choose|i: int| 0 <= i < p.len() - 1 && !#[trigger] step(kept, p, i);
        let e = (p[i], p[i + 1]);
        assert(step(es, p, i));
        let o = others(es, e);
        others_contains(es, e);
        let q = choose|q: Seq<Seq<char>>| leads(o, q, e.0, e.1);
        assert(q.len() > 2) by {
            if q.len() == 2 {
                assert(step(o, q, 0));
            }
        }
        let r = p.take(i + 1) + q.subrange(1, q.len() - 1) + p.skip(i + 1);
        let m = q.len() - 2;
        assert forall|k: int| 0 <= k < r.len() - 1 implies #[trigger] step(es, r, k) by {
            if k < i {
                assert(step(es, p, k));
                assert(r[k] == p[k] && r[k + 1] == p[k + 1]);
            } else if k < i + m + 1 {
                assert(step(o, q, k - i));
                assert(r[k] == q[k - i]);
                assert(r[k + 1] == q[k - i + 1]);
            } else {
                assert(step(es, p, k - m));
                assert(r[k] == p[k - m]);
                assert(r[k + 1] == p[k - m + 1]);
            }
        }
        assert(r[0] == a);
        assert(r.last() == b) by {
            assert(r.last() == p.skip(i + 1).last());
        }
        assert(leads(es, r, a, b));
        walk_bound(es, r);
        detour(es, kept, r, a, b);
    }
}

/// The reduction of a graph without cycles reaches exactly what the graph reaches.
pub proof fn reduce_keeps_reach(ids: Seq<Seq<char>>, es: Seq<(Seq<char>, Seq<char>)>)
    requires
        acyclic(es),
    ensures
        forall|a: Seq<char>, b: Seq<char>|
            reach(reduce_spec(ids, es), a, b) <==> #[trigger] reach(es, a, b),
{
    let kept = reduce_spec(ids, es);
    reduce_contains(ids, es);
    assert forall|a: Seq<char>, b: Seq<char>| reach(kept, a, b) <==> #[trigger] reach(
        es,
        a,
        b,
    ) by {
        if reach(kept, a, b) {
            reach_mono(kept, es, a, b);
        }
        if reach(es, a, b) {
            let p = choose|p: Seq<Seq<char>>| leads(es, p, a, b);
            detour(es, kept, p, a, b);
        }
    }
}

/// In the reduction every edge carries information: without it, its target is not reached.
pub proof fn reduce_is_minimal(
    ids: Seq<Seq<char>>,
    es: Seq<(Seq<char>, Seq<char>)>,
    e: (Seq<char>, Seq<char>),
)
    requires
        reduce_spec(ids, es).contains(e),
    ensures
        !reach(others(reduce_spec(ids, es), e), e.0, e.1),
{
    let kept = reduce_spec(ids, es);
    reduce_contains(ids, es);
    others_contains(kept, e);
    others_contains(es, e);
    if reach(others(kept, e), e.0, e.1) {
        reach_mono(others(kept, e), others(es, e), e.0, e.1);
    }
}

} // verus!
