//! Directed graphs over names: reachability, cycles, and the transitive reduction.

use crate::text::{list_has, same, views};
use vstd::prelude::*;

verus! {

/// What each edge of a sequence connects.
pub open spec fn edges_view(es: Seq<(String, String)>) -> Seq<(Seq<char>, Seq<char>)> {
    es.map_values(|e: (String, String)| (e.0@, e.1@))
}

/// Whether an edge leads from `p[i]` to the node behind it.
pub open spec fn step(es: Seq<(Seq<char>, Seq<char>)>, p: Seq<Seq<char>>, i: int) -> bool {
    es.contains((p[i], p[i + 1]))
}

/// A walk along edges, of at least one node.
pub open spec fn walk(es: Seq<(Seq<char>, Seq<char>)>, p: Seq<Seq<char>>) -> bool {
    p.len() > 0 && forall|i: int| 0 <= i < p.len() - 1 ==> #[trigger] step(es, p, i)
}

/// A walk of at least one edge from `a` to `b`.
pub open spec fn leads(
    es: Seq<(Seq<char>, Seq<char>)>,
    p: Seq<Seq<char>>,
    a: Seq<char>,
    b: Seq<char>,
) -> bool {
    walk(es, p) && p.len() >= 2 && p[0] == a && p.last() == b
}

/// Whether some walk of at least one edge leads from `a` to `b`.
pub open spec fn reach(es: Seq<(Seq<char>, Seq<char>)>, a: Seq<char>, b: Seq<char>) -> bool {
    exists|p: Seq<Seq<char>>| leads(es, p, a, b)
}

/// No node leads back to itself.
pub open spec fn acyclic(es: Seq<(Seq<char>, Seq<char>)>) -> bool {
    forall|a: Seq<char>| !reach(es, a, a)
}

/// A walk that ends where it starts.
pub open spec fn cycle(es: Seq<(Seq<char>, Seq<char>)>, c: Seq<Seq<char>>) -> bool {
    walk(es, c) && c.len() >= 2 && c[0] == c.last()
}

/// One edge leads from its source to its target.
pub proof fn reach_edge(es: Seq<(Seq<char>, Seq<char>)>, a: Seq<char>, b: Seq<char>)
    requires
        es.contains((a, b)),
    ensures
        reach(es, a, b),
{
    let p = seq![a, b];
    assert forall|i: int| 0 <= i < p.len() - 1 implies #[trigger] step(es, p, i) by {}
    assert(leads(es, p, a, b));
}

/// Walks can be put one behind the other.
pub proof fn reach_trans(
    es: Seq<(Seq<char>, Seq<char>)>,
    a: Seq<char>,
    b: Seq<char>,
    c: Seq<char>,
)
    requires
        reach(es, a, b),
        reach(es, b, c),
    ensures
        reach(es, a, c),
{
    let p = choose|p: Seq<Seq<char>>| leads(es, p, a, b);
    let q = choose|q: Seq<Seq<char>>| leads(es, q, b, c);
    let r = p + q.drop_first();
    assert forall|i: int| 0 <= i < r.len() - 1 implies #[trigger] step(es, r, i) by {
        if i < p.len() - 1 {
            assert(step(es, p, i));
        } else {
            let k = i - (p.len() - 1);
            assert(r[i] == q[k]);
            assert(r[i + 1] == q[k + 1]);
            assert(step(es, q, k));
        }
    }
    assert(r.last() == q.last());
    assert(leads(es, r, a, c));
}

/// More edges reach at least as far.
pub proof fn reach_mono(
    es: Seq<(Seq<char>, Seq<char>)>,
    fs: Seq<(Seq<char>, Seq<char>)>,
    a: Seq<char>,
    b: Seq<char>,
)
    requires
        forall|e: (Seq<char>, Seq<char>)| es.contains(e) ==> #[trigger] fs.contains(e),
        reach(es, a, b),
    ensures
        reach(fs, a, b),
{
    let p = choose|p: Seq<Seq<char>>| leads(es, p, a, b);
    assert forall|i: int| 0 <= i < p.len() - 1 implies #[trigger] step(fs, p, i) by {
        assert(step(es, p, i));
    }
    assert(leads(fs, p, a, b));
}

/// A part of a walk is a walk.
pub proof fn walk_part(es: Seq<(Seq<char>, Seq<char>)>, p: Seq<Seq<char>>, i: int, j: int)
    requires
        walk(es, p),
        0 <= i < j <= p.len(),
    ensures
        walk(es, p.subrange(i, j)),
{
    let q = p.subrange(i, j);
    assert forall|k: int| 0 <= k < q.len() - 1 implies #[trigger] step(es, q, k) by {
        assert(step(es, p, i + k));
    }
}

// ---------- reachability ----------

/// Every edge out of a node of `done` ends in `seen`.
spec fn closed(es: Seq<(Seq<char>, Seq<char>)>, from: Seq<char>, seen: Seq<Seq<char>>) -> bool {
    forall|v: Seq<char>, w: Seq<char>|
        #![trigger es.contains((v, w))]
        (v == from || seen.contains(v)) && es.contains((v, w)) ==> seen.contains(w)
}

proof fn closed_walk(
    es: Seq<(Seq<char>, Seq<char>)>,
    from: Seq<char>,
    seen: Seq<Seq<char>>,
    p: Seq<Seq<char>>,
    k: int,
)
    requires
        closed(es, from, seen),
        walk(es, p),
        p[0] == from,
        0 < k < p.len(),
    ensures
        seen.contains(p[k]),
    decreases k,
{
    if k > 1 {
        closed_walk(es, from, seen, p, k - 1);
    }
    assert(step(es, p, k - 1));
}

/// How many edges end outside `seen`.
spec fn unseen(es: Seq<(Seq<char>, Seq<char>)>, seen: Seq<Seq<char>>) -> nat
    decreases es.len(),
{
    if es.len() == 0 {
        0
    } else {
        unseen(es.drop_last(), seen) + (if seen.contains(es.last().1) {
            0nat
        } else {
            1
        })
    }
}

proof fn unseen_push(es: Seq<(Seq<char>, Seq<char>)>, seen: Seq<Seq<char>>, w: Seq<char>)
    ensures
        unseen(es, seen.push(w)) <= unseen(es, seen),
        forall|j: int|
            0 <= j < es.len() && (#[trigger] es[j]).1 == w && !seen.contains(w) ==> unseen(
                es,
                seen.push(w),
            ) < unseen(es, seen),
    decreases es.len(),
{
    if es.len() > 0 {
        let fs = es.drop_last();
        unseen_push(fs, seen, w);
        let t = es.last().1;
        if seen.contains(t) {
            let k = choose|k: int| 0 <= k < seen.len() && seen[k] == t;
            assert(seen.push(w)[k] == t);
        }
        assert forall|j: int|
            0 <= j < es.len() && (#[trigger] es[j]).1 == w && !seen.contains(w) implies unseen(
            es,
            seen.push(w),
        ) < unseen(es, seen) by {
            if j < fs.len() {
                assert(fs[j] == es[j]);
            } else {
                assert(seen.push(w)[seen.len() as int] == w);
                assert(seen.push(w).contains(t));
            }
        }
    }
}

/// Whether some walk of at least one edge leads from `from` to `to`.
pub fn reachable(from: &str, to: &str, edges: &Vec<(String, String)>) -> (r: bool)
    ensures
        r == reach(edges_view(edges@), from@, to@),
{
    let ghost es = edges_view(edges@);
    let mut seen: Vec<String> = Vec::new();
    let mut stack: Vec<String> = Vec::new();
    stack.push(crate::text::owned(from));
    assert(views(stack@)[0] == from@);
    while stack.len() > 0
        invariant
            es == edges_view(edges@),
            forall|v: Seq<char>| #[trigger]
                views(stack@).contains(v) ==> v == from@ || views(seen@).contains(v),
            forall|v: Seq<char>| #[trigger] views(seen@).contains(v) ==> reach(es, from@, v),
            !views(seen@).contains(to@),
            forall|v: Seq<char>, w: Seq<char>|
                #![trigger es.contains((v, w))]
                (v == from@ || views(seen@).contains(v)) && !views(stack@).contains(v)
                    && es.contains((v, w)) ==> views(seen@).contains(w),
        decreases unseen(es, views(seen@)), stack@.len(),
    {
        let ghost stack0 = views(stack@);
        let ghost seen0 = views(seen@);
        let ghost n0 = stack@.len();
        let x: String = match stack.pop() {
            Some(x) => x,
            None => String::new(),
        };
        proof {
            assert(stack0[n0 - 1] == x@);
            assert(stack0.contains(x@));
            assert(views(stack@) =~= stack0.drop_last());
            assert forall|v: Seq<char>| #[trigger] stack0.contains(v) implies v == x@ || views(
                stack@,
            ).contains(v) by {
                let k = choose|k: int| 0 <= k < stack0.len() && stack0[k] == v;
                if k < n0 - 1 {
                    assert(views(stack@)[k] == v);
                }
            }
            assert forall|v: Seq<char>| #[trigger] views(stack@).contains(v) implies stack0.contains(
                v,
            ) by {
                let k = choose|k: int| 0 <= k < views(stack@).len() && views(stack@)[k] == v;
                assert(stack0[k] == v);
            }
        }
        let mut j: usize = 0;
        while j < edges.len()
            invariant
                j <= edges@.len(),
                es == edges_view(edges@),
                x@ == from@ || views(seen@).contains(x@),
                forall|v: Seq<char>| #[trigger]
                    views(stack@).contains(v) ==> v == from@ || views(seen@).contains(v),
                forall|v: Seq<char>| #[trigger] views(seen@).contains(v) ==> reach(es, from@, v),
                !views(seen@).contains(to@),
                forall|v: Seq<char>, w: Seq<char>|
                    #![trigger es.contains((v, w))]
                    v != x@ && (v == from@ || views(seen@).contains(v)) && !views(stack@).contains(v)
                        && es.contains((v, w)) ==> views(seen@).contains(w),
                forall|k: int|
                    0 <= k < j && (#[trigger] es[k]).0 == x@ ==> views(seen@).contains(es[k].1),
                unseen(es, views(seen@)) <= unseen(es, seen0),
                unseen(es, views(seen@)) == unseen(es, seen0) ==> stack@.len() == n0 - 1,
            decreases edges@.len() - j,
        {
            assert(es[j as int] == (edges@[j as int].0@, edges@[j as int].1@));
            if same(edges[j].0.as_str(), x.as_str()) && !list_has(&seen, edges[j].1.as_str()) {
                let ghost w = edges@[j as int].1@;
                let ghost s1 = views(seen@);
                let ghost t1 = views(stack@);
                proof {
                    assert(es.contains((x@, w)));
                    reach_edge(es, x@, w);
                    if x@ != from@ {
                        reach_trans(es, from@, x@, w);
                    }
                    unseen_push(es, s1, w);
                }
                if same(edges[j].1.as_str(), to) {
                    return true;
                }
                seen.push(edges[j].1.clone());
                stack.push(edges[j].1.clone());
                proof {
                    assert(views(seen@) =~= s1.push(w));
                    assert(views(stack@) =~= t1.push(w));
                    assert(s1.push(w)[s1.len() as int] == w);
                    assert(t1.push(w)[t1.len() as int] == w);
                    assert forall|v: Seq<char>| #[trigger] s1.contains(v) implies s1.push(
                        w,
                    ).contains(v) by {
                        let k = choose|k: int| 0 <= k < s1.len() && s1[k] == v;
                        assert(s1.push(w)[k] == v);
                    }
                    assert forall|v: Seq<char>| #[trigger] t1.contains(v) implies t1.push(
                        w,
                    ).contains(v) by {
                        let k = choose|k: int| 0 <= k < t1.len() && t1[k] == v;
                        assert(t1.push(w)[k] == v);
                    }
                    assert forall|v: Seq<char>| #[trigger]
                        s1.push(w).contains(v) implies s1.contains(v) || v == w by {
                        let k = choose|k: int| 0 <= k < s1.push(w).len() && s1.push(w)[k] == v;
                        if k < s1.len() {
                            assert(s1[k] == v);
                        }
                    }
                    assert forall|v: Seq<char>| #[trigger]
                        t1.push(w).contains(v) implies t1.contains(v) || v == w by {
                        let k = choose|k: int| 0 <= k < t1.push(w).len() && t1.push(w)[k] == v;
                        if k < t1.len() {
                            assert(t1[k] == v);
                        }
                    }
                }
            }
            j += 1;
        }
        proof {
            assert forall|v: Seq<char>, w: Seq<char>|
                #![trigger es.contains((v, w))]
                (v == from@ || views(seen@).contains(v)) && !views(stack@).contains(v)
                    && es.contains((v, w)) implies views(seen@).contains(w) by {
                if v == x@ {
                    let k = choose|k: int| 0 <= k < es.len() && es[k] == (v, w);
                    assert(es[k].0 == x@);
                }
            }
        }
    }
    proof {
        assert(views(stack@).len() == 0);
        assert(closed(es, from@, views(seen@)));
        if reach(es, from@, to@) {
            let p = choose|p: Seq<Seq<char>>| leads(es, p, from@, to@);
            closed_walk(es, from@, views(seen@), p, p.len() - 1);
        }
    }
    false
}

// ---------- cycles ----------

/// An order of nodes in which every edge out of a node ends at an earlier one.
pub open spec fn topological(es: Seq<(Seq<char>, Seq<char>)>, order: Seq<Seq<char>>) -> bool {
    forall|i: int, w: Seq<char>|
        #![trigger es.contains((order[i], w))]
        0 <= i < order.len() && es.contains((order[i], w)) ==> order.take(i).contains(w)
}

proof fn topological_walk(
    es: Seq<(Seq<char>, Seq<char>)>,
    order: Seq<Seq<char>>,
    p: Seq<Seq<char>>,
    i: int,
    k: int,
) -> (j: int)
    requires
        topological(es, order),
        walk(es, p),
        0 <= i < order.len(),
        order[i] == p[0],
        0 <= k < p.len(),
    ensures
        0 <= j <= i - k,
        j < order.len(),
        order[j] == p[k],
    decreases k,
{
    if k == 0 {
        i
    } else {
        let m = topological_walk(es, order, p, i, k - 1);
        assert(step(es, p, k - 1));
        assert(es.contains((order[m], p[k])));
        let pre = order.take(m);
        let j = choose|j: int| 0 <= j < pre.len() && pre[j] == p[k];
        assert(order[j] == p[k]);
        j
    }
}

proof fn first_occurrence(order: Seq<Seq<char>>, x: Seq<char>) -> (i: int)
    requires
        order.contains(x),
    ensures
        0 <= i < order.len(),
        order[i] == x,
        !order.take(i).contains(x),
{
    order.index_of_first_ensures(x);
    let i = order.index_of_first(x)->0;
    if order.take(i).contains(x) {
        let k = choose|k: int| 0 <= k < order.take(i).len() && order.take(i)[k] == x;
        assert(order[k] == x);
    }
    i
}

/// Nothing in a topological order leads back to itself.
pub proof fn topological_acyclic(
    es: Seq<(Seq<char>, Seq<char>)>,
    order: Seq<Seq<char>>,
    a: Seq<char>,
)
    requires
        topological(es, order),
        order.contains(a),
    ensures
        !reach(es, a, a),
{
    if reach(es, a, a) {
        let p = choose|p: Seq<Seq<char>>| leads(es, p, a, a);
        let i = first_occurrence(order, a);
        let j = topological_walk(es, order, p, i, p.len() - 1);
        assert(order.take(i)[j] == a);
        assert(order.take(i).contains(a));
    }
}

/// How many edges start outside `a` and `d`.
pub open spec fn uncovered(es: Seq<(Seq<char>, Seq<char>)>, a: Seq<Seq<char>>, d: Seq<Seq<char>>) -> nat
    decreases es.len(),
{
    if es.len() == 0 {
        0
    } else {
        uncovered(es.drop_last(), a, d) + (if a.contains(es.last().0) || d.contains(es.last().0) {
            0nat
        } else {
            1
        })
    }
}

proof fn uncovered_mono(
    es: Seq<(Seq<char>, Seq<char>)>,
    a: Seq<Seq<char>>,
    d: Seq<Seq<char>>,
    a2: Seq<Seq<char>>,
    d2: Seq<Seq<char>>,
)
    requires
        forall|v: Seq<char>|
            #![trigger a.contains(v)]
            #![trigger d.contains(v)]
            a.contains(v) || d.contains(v) ==> a2.contains(v) || d2.contains(v),
    ensures
        uncovered(es, a2, d2) <= uncovered(es, a, d),
        forall|j: int|
            0 <= j < es.len() && !a.contains((#[trigger] es[j]).0) && !d.contains(es[j].0) && (
            a2.contains(es[j].0) || d2.contains(es[j].0)) ==> uncovered(es, a2, d2) < uncovered(
                es,
                a,
                d,
            ),
    decreases es.len(),
{
    if es.len() > 0 {
        let fs = es.drop_last();
        uncovered_mono(fs, a, d, a2, d2);
        let t = es.last().0;
        assert(a.contains(t) || d.contains(t) ==> a2.contains(t) || d2.contains(t));
        assert forall|j: int|
            0 <= j < es.len() && !a.contains((#[trigger] es[j]).0) && !d.contains(es[j].0) && (
            a2.contains(es[j].0) || d2.contains(es[j].0)) implies uncovered(es, a2, d2) < uncovered(
            es,
            a,
            d,
        ) by {
            if j < fs.len() {
                assert(fs[j] == es[j]);
            }
        }
    }
}

/// The names of `p`, with arrows between them.
pub open spec fn arrows(p: Seq<Seq<char>>) -> Seq<char>
    decreases p.len(),
{
    if p.len() == 0 {
        Seq::empty()
    } else if p.len() == 1 {
        p[0]
    } else {
        arrows(p.drop_last()) + " → "@ + p.last()
    }
}

fn arrow_text(p: &Vec<String>, from: usize, last: &str) -> (r: String)
    requires
        from <= p@.len(),
    ensures
        r@ == arrows(views(p@).skip(from as int).push(last@)),
{
    let ghost q = views(p@).skip(from as int);
    let mut out = String::new();
    let mut i: usize = from;
    assert(q.take(0) =~= Seq::<Seq<char>>::empty());
    while i < p.len()
        invariant
            from <= i <= p@.len(),
            q == views(p@).skip(from as int),
            out@ == arrows(q.take(i - from)),
        decreases p@.len() - i,
    {
        proof {
            let t = q.take(i + 1 - from);
            assert(t.drop_last() =~= q.take(i - from));
            assert(t.last() == p@[i as int]@);
        }
        if i > from {
            out.push_str(" → ");
        }
        out.push_str(p[i].as_str());
        assert(out@ =~= arrows(q.take(i + 1 - from)));
        i += 1;
    }
    assert(q.take(i - from) =~= q);
    proof {
        let t = q.push(last@);
        assert(t.drop_last() =~= q);
    }
    if p.len() > from {
        out.push_str(" → ");
    }
    out.push_str(last);
    assert(out@ =~= arrows(q.push(last@)));
    out
}

proof fn push_contains(s: Seq<Seq<char>>, x: Seq<char>)
    ensures
        forall|v: Seq<char>| #[trigger] s.push(x).contains(v) <==> s.contains(v) || v == x,
{
    assert forall|v: Seq<char>| #[trigger] s.push(x).contains(v) <==> s.contains(v) || v == x by {
        if s.contains(v) {
            let k = choose|k: int| 0 <= k < s.len() && s[k] == v;
            assert(s.push(x)[k] == v);
        }
        if v == x {
            assert(s.push(x)[s.len() as int] == v);
        }
        if s.push(x).contains(v) {
            let k = choose|k: int| 0 <= k < s.push(x).len() && s.push(x)[k] == v;
            if k < s.len() {
                assert(s[k] == v);
            }
        }
    }
}

/// The first place of `x`.
pub open spec fn first_at(p: Seq<Seq<char>>, x: Seq<char>) -> int {
    choose|i: int|
        0 <= i < p.len() && (#[trigger] p[i]) == x && forall|j: int| 0 <= j < i ==> p[j] != x
}

/// Where a walk first meets itself, when it is taken on along the edges in their order and back
/// where it ends: the part that leads back, or none.
pub open spec fn meets(es: Seq<(Seq<char>, Seq<char>)>, p: Seq<Seq<char>>) -> Option<
    Seq<Seq<char>>,
>
    decreases uncovered(es, p.drop_last(), Seq::empty()), es.len() + 1,
{
    if p.len() == 0 {
        None
    } else if p.drop_last().contains(p.last()) {
        Some(p.skip(first_at(p, p.last())))
    } else {
        meets_from(es, p, 0)
    }
}

/// The same, along the edges from the `j`-th on.
pub open spec fn meets_from(
    es: Seq<(Seq<char>, Seq<char>)>,
    p: Seq<Seq<char>>,
    j: nat,
) -> Option<Seq<Seq<char>>>
    decreases uncovered(es, p.drop_last(), Seq::empty()), es.len() - j,
{
    if j >= es.len() || p.len() == 0 {
        None
    } else if es[j as int].0 == p.last() && !p.drop_last().contains(p.last()) {
        proof {
            one_step_covers(es, p, j as int);
        }
        match meets(es, p.push(es[j as int].1)) {
            Some(c) => Some(c),
            None => meets_from(es, p, j + 1),
        }
    } else {
        meets_from(es, p, j + 1)
    }
}

/// The cycle that is met first, from the nodes in their order.
pub open spec fn first_cycle(es: Seq<(Seq<char>, Seq<char>)>, nodes: Seq<Seq<char>>) -> Option<
    Seq<Seq<char>>,
>
    decreases nodes.len(),
{
    if nodes.len() == 0 {
        None
    } else {
        match first_cycle(es, nodes.drop_last()) {
            Some(c) => Some(c),
            None => meets(es, seq![nodes.last()]),
        }
    }
}

/// A walk that goes on covers the edges of its last node.
pub proof fn one_step_covers(es: Seq<(Seq<char>, Seq<char>)>, p: Seq<Seq<char>>, j: int)
    requires
        p.len() > 0,
        0 <= j < es.len(),
        es[j].0 == p.last(),
        !p.drop_last().contains(p.last()),
    ensures
        forall|w: Seq<char>|
            uncovered(es, (#[trigger] p.push(w)).drop_last(), Seq::empty()) < uncovered(
                es,
                p.drop_last(),
                Seq::empty(),
            ),
{
    let none = Seq::<Seq<char>>::empty();
    let q = p.drop_last();
    assert forall|v: Seq<char>|
        #![trigger q.contains(v)]
        #![trigger none.contains(v)]
        q.contains(v) || none.contains(v) implies p.contains(v) || none.contains(v) by {
        let k = choose|k: int| 0 <= k < q.len() && q[k] == v;
        assert(p[k] == v);
    }
    uncovered_mono(es, q, none, p, none);
    assert(p[p.len() - 1] == es[j].0);
    assert(p.contains(es[j].0));
    assert forall|w: Seq<char>| uncovered(es, (#[trigger] p.push(w)).drop_last(), none) < uncovered(
        es,
        q,
        none,
    ) by {
        assert(p.push(w).drop_last() =~= p);
    }
}

proof fn first_at_is(p: Seq<Seq<char>>, x: Seq<char>, i: int)
    requires
        0 <= i < p.len(),
        p[i] == x,
        forall|j: int| 0 <= j < i ==> p[j] != x,
    ensures
        first_at(p, x) == i,
{
    let k = first_at(p, x);
    assert(0 <= k < p.len() && p[k] == x && forall|j: int| 0 <= j < k ==> p[j] != x);
    if k < i {
        assert(p[k] != x);
    }
    if i < k {
        assert(p[i] != x);
    }
}

/// What a walk meets is a cycle.
pub proof fn what_is_met_is_a_cycle(es: Seq<(Seq<char>, Seq<char>)>, p: Seq<Seq<char>>)
    requires
        walk(es, p),
    ensures
        meets(es, p) matches Some(c) ==> cycle(es, c),
    decreases uncovered(es, p.drop_last(), Seq::empty()), es.len() + 1,
{
    if p.drop_last().contains(p.last()) {
        let q = p.drop_last();
        let k = choose|k: int| 0 <= k < q.len() && q[k] == p.last();
        let i = first_place(p, p.last(), k);
        first_at_is(p, p.last(), i);
        walk_part(es, p, i, p.len() as int);
        assert(p.skip(i) =~= p.subrange(i, p.len() as int));
    } else {
        what_is_met_from_is_a_cycle(es, p, 0);
    }
}

proof fn what_is_met_from_is_a_cycle(
    es: Seq<(Seq<char>, Seq<char>)>,
    p: Seq<Seq<char>>,
    j: nat,
)
    requires
        walk(es, p),
    ensures
        meets_from(es, p, j) matches Some(c) ==> cycle(es, c),
    decreases uncovered(es, p.drop_last(), Seq::empty()), es.len() - j,
{
    if j < es.len() {
        if es[j as int].0 == p.last() && !p.drop_last().contains(p.last()) {
            let q = p.push(es[j as int].1);
            one_step_covers(es, p, j as int);
            walk_on(es, p, j as int);
            what_is_met_is_a_cycle(es, q);
        }
        what_is_met_from_is_a_cycle(es, p, j + 1);
    }
}

/// A walk goes on along an edge of its last node.
proof fn walk_on(es: Seq<(Seq<char>, Seq<char>)>, p: Seq<Seq<char>>, j: int)
    requires
        walk(es, p),
        0 <= j < es.len(),
        es[j].0 == p.last(),
    ensures
        walk(es, p.push(es[j].1)),
{
    let q = p.push(es[j].1);
    assert(es.contains((p.last(), es[j].1))) by {
        assert(es[j] == (p.last(), es[j].1));
    }
    assert forall|k: int| 0 <= k < q.len() - 1 implies #[trigger] step(es, q, k) by {
        if k < p.len() - 1 {
            assert(step(es, p, k));
        }
    }
}

proof fn first_place(p: Seq<Seq<char>>, x: Seq<char>, k: int) -> (i: int)
    requires
        0 <= k < p.len(),
        p[k] == x,
    ensures
        0 <= i <= k,
        p[i] == x,
        forall|j: int| 0 <= j < i ==> p[j] != x,
    decreases k,
{
    if forall|j: int| 0 <= j < k ==> p[j] != x {
        k
    } else {
        let j = choose|j: int| 0 <= j < k && p[j] == x;
        first_place(p, x, j)
    }
}

/// The first cycle is one.
pub proof fn first_cycle_is_a_cycle(es: Seq<(Seq<char>, Seq<char>)>, nodes: Seq<Seq<char>>)
    ensures
        first_cycle(es, nodes) matches Some(c) ==> cycle(es, c),
    decreases nodes.len(),
{
    if nodes.len() > 0 {
        first_cycle_is_a_cycle(es, nodes.drop_last());
        what_is_met_is_a_cycle(es, seq![nodes.last()]);
    }
}

/// From what is ordered and apart from the walk so far, nothing leads back.
proof fn ordered_meets_nothing(
    es: Seq<(Seq<char>, Seq<char>)>,
    d: Seq<Seq<char>>,
    k: int,
    p: Seq<Seq<char>>,
)
    requires
        topological(es, d),
        d.no_duplicates(),
        0 <= k < d.len(),
        p.len() > 0,
        p.last() == d[k],
        forall|i: int| 0 <= i < p.len() - 1 ==> !d.take(k + 1).contains(#[trigger] p[i]),
    ensures
        meets(es, p) is None,
    decreases k, es.len() + 1,
{
    assert(d.take(k + 1)[k] == d[k]);
    assert(d.take(k + 1).contains(d[k]));
    let q = p.drop_last();
    assert(!q.contains(p.last())) by {
        if q.contains(p.last()) {
            let i = choose|i: int| 0 <= i < q.len() && q[i] == p.last();
            assert(p[i] == d[k]);
        }
    }
    ordered_meets_nothing_from(es, d, k, p, 0);
}

proof fn ordered_meets_nothing_from(
    es: Seq<(Seq<char>, Seq<char>)>,
    d: Seq<Seq<char>>,
    k: int,
    p: Seq<Seq<char>>,
    j: nat,
)
    requires
        topological(es, d),
        d.no_duplicates(),
        0 <= k < d.len(),
        p.len() > 0,
        p.last() == d[k],
        forall|i: int| 0 <= i < p.len() - 1 ==> !d.take(k + 1).contains(#[trigger] p[i]),
    ensures
        meets_from(es, p, j) is None,
    decreases k, es.len() - j,
{
    if j < es.len() {
        if es[j as int].0 == p.last() && !p.drop_last().contains(p.last()) {
            let w = es[j as int].1;
            assert(es[j as int] == (d[k], w));
            assert(es.contains((d[k], w)));
            assert(d.take(k).contains(w));
            let before = d.take(k);
            let m = choose|m: int| 0 <= m < before.len() && before[m] == w;
            assert(d[m] == w);
            let q = p.push(w);
            assert forall|i: int| 0 <= i < q.len() - 1 implies !d.take(m + 1).contains(
                #[trigger] q[i],
            ) by {
                if d.take(m + 1).contains(q[i]) {
                    let t = d.take(m + 1);
                    let x = choose|x: int| 0 <= x < t.len() && t[x] == q[i];
                    assert(d[x] == q[i]);
                    if i < p.len() - 1 {
                        assert(d.take(k + 1)[x] == p[i]);
                        assert(d.take(k + 1).contains(p[i]));
                    } else {
                        assert(d[x] == d[k]);
                    }
                }
            }
            ordered_meets_nothing(es, d, m, q);
        }
        ordered_meets_nothing_from(es, d, k, p, j + 1);
    }
}

/// Visit `n` and everything behind it: the text of a cycle that was met, or none, and then all of
/// it is in `done`.
fn visit(
    n: &str,
    edges: &Vec<(String, String)>,
    active: &mut Vec<String>,
    done: &mut Vec<String>,
) -> (r: Option<String>)
    requires
        topological(edges_view(edges@), views(old(done)@)),
        views(old(done)@).no_duplicates(),
        forall|v: Seq<char>| #[trigger]
            views(old(done)@).contains(v) ==> !views(old(active)@).contains(v),
    ensures
        match r {
            Some(t) => meets(edges_view(edges@), views(old(active)@).push(n@)) matches Some(c)
                && t@ == arrows(c),
            None => {
                &&& meets(edges_view(edges@), views(old(active)@).push(n@)) is None
                &&& topological(edges_view(edges@), views(final(done)@))
                &&& views(final(done)@).no_duplicates()
                &&& views(final(active)@) == views(old(active)@)
                &&& views(final(done)@).contains(n@)
                &&& forall|v: Seq<char>| #[trigger]
                    views(old(done)@).contains(v) ==> views(final(done)@).contains(v)
                &&& forall|v: Seq<char>| #[trigger]
                    views(final(done)@).contains(v) ==> !views(final(active)@).contains(v)
            },
        },
    decreases uncovered(edges_view(edges@), views(old(active)@), views(old(done)@)),
{
    let ghost es = edges_view(edges@);
    let ghost a0 = views(active@);
    let ghost d0 = views(done@);
    let ghost p = a0.push(n@);
    assert(p.drop_last() =~= a0);
    let mut i: usize = 0;
    while i < active.len()
        invariant
            i <= active@.len(),
            a0 == views(active@),
            es == edges_view(edges@),
            p == a0.push(n@),
            p.drop_last() == a0,
            forall|j: int| 0 <= j < i ==> a0[j] != n@,
        decreases active@.len() - i,
    {
        if same(active[i].as_str(), n) {
            let t = arrow_text(active, i, n);
            proof {
                assert(a0[i as int] == n@);
                assert(a0.contains(p.last()));
                assert forall|j: int| 0 <= j < i implies p[j] != n@ by {
                    assert(p[j] == a0[j]);
                }
                first_at_is(p, n@, i as int);
                assert(p.skip(i as int) =~= a0.skip(i as int).push(n@));
            }
            return Some(t);
        }
        i += 1;
    }
    assert(!a0.contains(n@));
    assert(p.last() == n@);
    assert(meets(es, p) == meets_from(es, p, 0));
    if list_has(done, n) {
        proof {
            let k = choose|k: int| 0 <= k < d0.len() && d0[k] == n@;
            assert forall|i: int| 0 <= i < p.len() - 1 implies !d0.take(k + 1).contains(
                #[trigger] p[i],
            ) by {
                assert(p[i] == a0[i]);
                assert(a0.contains(a0[i]));
                if d0.take(k + 1).contains(p[i]) {
                    let t = d0.take(k + 1);
                    let x = choose|x: int| 0 <= x < t.len() && t[x] == p[i];
                    assert(d0[x] == p[i]);
                    assert(d0.contains(p[i]));
                }
            }
            ordered_meets_nothing(es, d0, k, p);
        }
        return None;
    }
    active.push(crate::text::owned(n));
    assert(views(active@) =~= a0.push(n@));
    proof {
        push_contains(a0, n@);
    }
    let mut j: usize = 0;
    while j < edges.len()
        invariant
            j <= edges@.len(),
            es == edges_view(edges@),
            views(active@) == a0.push(n@),
            p == a0.push(n@),
            p.drop_last() == a0,
            meets(es, p) == meets_from(es, p, j as nat),
            !a0.contains(n@),
            !d0.contains(n@),
            topological(es, views(done@)),
            views(done@).no_duplicates(),
            forall|v: Seq<char>| #[trigger]
                a0.push(n@).contains(v) <==> a0.contains(v) || v == n@,
            forall|v: Seq<char>| #[trigger] d0.contains(v) ==> views(done@).contains(v),
            forall|v: Seq<char>| #[trigger]
                views(done@).contains(v) ==> !views(active@).contains(v),
            forall|k: int|
                0 <= k < j && (#[trigger] es[k]).0 == n@ ==> views(done@).contains(es[k].1),
            a0 == views(old(active)@),
            d0 == views(old(done)@),
        decreases edges@.len() - j,
    {
        assert(es[j as int] == (edges@[j as int].0@, edges@[j as int].1@));
        if same(edges[j].0.as_str(), n) {
            let ghost m = edges@[j as int].1@;
            proof {
                assert(p.last() == n@);
                uncovered_mono(es, a0, d0, views(active@), views(done@));
                assert(es[j as int].0 == n@);
                assert(a0.push(n@).contains(n@));
            }
            let ghost d1 = views(done@);
            match visit(edges[j].1.as_str(), edges, active, done) {
                Some(t) => {
                    return Some(t);
                },
                None => {},
            }
            proof {
                assert forall|k: int| 0 <= k < j + 1 && (#[trigger] es[k]).0 == n@ implies views(
                    done@,
                ).contains(es[k].1) by {
                    if k < j {
                        assert(d1.contains(es[k].1));
                    }
                }
            }
        }
        j += 1;
    }
    let ghost d2 = views(done@);
    let ghost a2 = views(active@);
    active.pop();
    assert(views(active@) =~= a2.drop_last());
    assert(a2.drop_last() =~= a0);
    done.push(crate::text::owned(n));
    assert(views(done@) =~= d2.push(n@));
    proof {
        push_contains(d2, n@);
        let o = d2.push(n@);
        assert(a2.contains(n@));
        assert(!d2.contains(n@));
        assert(o.no_duplicates()) by {
            assert forall|i: int, j: int|
                0 <= i < o.len() && 0 <= j < o.len() && i != j implies o[i] != o[j] by {
                if i == d2.len() {
                    assert(d2.contains(d2[j]));
                } else if j == d2.len() {
                    assert(d2.contains(d2[i]));
                }
            }
        }
        assert forall|i: int, w: Seq<char>|
            #![trigger es.contains((o[i], w))]
            0 <= i < o.len() && es.contains((o[i], w)) implies o.take(i).contains(w) by {
            if i < d2.len() {
                assert(o[i] == d2[i]);
                assert(es.contains((d2[i], w)));
                assert(o.take(i) =~= d2.take(i));
            } else {
                assert(o.take(i) =~= d2);
                let k = choose|k: int| 0 <= k < es.len() && es[k] == (o[i], w);
                assert(es[k].0 == n@);
            }
        }
    }
    None
}

/// A cycle that was met stays the first, whatever nodes follow.
proof fn first_cycle_stays(es: Seq<(Seq<char>, Seq<char>)>, ns: Seq<Seq<char>>, k: int)
    requires
        0 <= k <= ns.len(),
        first_cycle(es, ns.take(k)) is Some,
    ensures
        first_cycle(es, ns) == first_cycle(es, ns.take(k)),
    decreases ns.len() - k,
{
    if k == ns.len() {
        assert(ns.take(k) =~= ns);
    } else {
        assert(ns.take(k + 1).drop_last() =~= ns.take(k));
        first_cycle_stays(es, ns, k + 1);
    }
}

/// The first cycle found from the nodes on, as a readable path, or none. Without one, no node
/// that can be reached from `nodes` leads back to itself.
pub fn find_cycle(nodes: &Vec<String>, edges: &Vec<(String, String)>) -> (r: Option<String>)
    ensures
        match first_cycle(edges_view(edges@), views(nodes@)) {
            Some(c) => r matches Some(t) && t@ == arrows(c),
            None => r is None,
        },
        match r {
            Some(t) => exists|c: Seq<Seq<char>>| #[trigger]
                cycle(edges_view(edges@), c) && t@ == arrows(c),
            None => exists|order: Seq<Seq<char>>| #[trigger]
                topological(edges_view(edges@), order) && forall|v: Seq<char>| #[trigger]
                    views(nodes@).contains(v) ==> order.contains(v),
        },
{
    let ghost es = edges_view(edges@);
    let mut active: Vec<String> = Vec::new();
    let mut done: Vec<String> = Vec::new();
    let ghost ns = views(nodes@);
    let mut i: usize = 0;
    assert(ns.take(0) =~= Seq::<Seq<char>>::empty());
    while i < nodes.len()
        invariant
            i <= nodes@.len(),
            es == edges_view(edges@),
            ns == views(nodes@),
            first_cycle(es, ns.take(i as int)) is None,
            views(active@).len() == 0,
            topological(es, views(done@)),
            views(done@).no_duplicates(),
            forall|k: int| 0 <= k < i ==> views(done@).contains(#[trigger] views(nodes@)[k]),
        decreases nodes@.len() - i,
    {
        let ghost d1 = views(done@);
        proof {
            assert(views(active@).push(nodes@[i as int]@) =~= seq![ns[i as int]]);
            assert(ns.take(i + 1).drop_last() =~= ns.take(i as int));
            assert(ns.take(i + 1).last() == ns[i as int]);
        }
        match visit(nodes[i].as_str(), edges, &mut active, &mut done) {
            Some(t) => {
                proof {
                    first_cycle_stays(es, ns, i + 1);
                    first_cycle_is_a_cycle(es, ns);
                }
                return Some(t);
            },
            None => {},
        }
        proof {
            assert forall|k: int| 0 <= k < i + 1 implies views(done@).contains(
                #[trigger] views(nodes@)[k],
            ) by {
                if k < i {
                    assert(d1.contains(views(nodes@)[k]));
                }
            }
        }
        i += 1;
    }
    proof {
        assert(ns.take(i as int) =~= ns);
        let order = views(done@);
        assert forall|v: Seq<char>| #[trigger] views(nodes@).contains(v) implies order.contains(
            v,
        ) by {
            let k = choose|k: int| 0 <= k < views(nodes@).len() && views(nodes@)[k] == v;
            assert(order.contains(views(nodes@)[k]));
        }
        assert(topological(es, order));
    }
    None
}

} // verus!
