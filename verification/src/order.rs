//! Stable sorting by text.

use crate::text::{lt, lt_irreflexive, lt_total, lt_transitive, str_lt, views};
use vstd::prelude::*;

verus! {

/// `x` put behind everything that is not greater.
pub open spec fn place(s: Seq<Seq<char>>, x: Seq<char>) -> Seq<Seq<char>>
    decreases s.len(),
{
    if s.len() == 0 {
        seq![x]
    } else if lt(x, s.last()) {
        place(s.drop_last(), x).push(s.last())
    } else {
        s.push(x)
    }
}

/// The strings in ascending order.
pub open spec fn sorted(xs: Seq<Seq<char>>) -> Seq<Seq<char>>
    decreases xs.len(),
{
    if xs.len() == 0 {
        Seq::empty()
    } else {
        place(sorted(xs.drop_last()), xs.last())
    }
}

/// Not greater, in the order of texts.
pub open spec fn at_most(a: Seq<char>, b: Seq<char>) -> bool {
    !lt(b, a)
}

/// No string is greater than a later one.
pub open spec fn in_order(s: Seq<Seq<char>>) -> bool {
    forall|i: int, j: int| 0 <= i < j < s.len() ==> at_most(#[trigger] s[i], #[trigger] s[j])
}

proof fn at_most_trans(a: Seq<char>, b: Seq<char>, c: Seq<char>)
    requires
        at_most(a, b),
        at_most(b, c),
    ensures
        at_most(a, c),
{
    if lt(c, a) {
        lt_total(a, b);
        if a != b {
            lt_transitive(c, a, b);
        }
    }
}

proof fn place_ok(s: Seq<Seq<char>>, x: Seq<char>)
    requires
        in_order(s),
    ensures
        in_order(place(s, x)),
        place(s, x).to_multiset() == s.to_multiset().insert(x),
    decreases s.len(),
{
    broadcast use vstd::seq_lib::group_to_multiset_ensures;

    if s.len() == 0 {
        assert(seq![x] =~= s.push(x));
        assert(s.push(x).to_multiset() =~= s.to_multiset().insert(x));
    } else if lt(x, s.last()) {
        let t = s.drop_last();
        let l = s.last();
        assert(in_order(t)) by {
            assert forall|i: int, j: int| 0 <= i < j < t.len() implies at_most(
                #[trigger] t[i],
                #[trigger] t[j],
            ) by {
                assert(t[i] == s[i] && t[j] == s[j]);
            }
        }
        place_ok(t, x);
        let p = place(t, x);
        let r = p.push(l);
        assert(s =~= t.push(l));
        assert(s.to_multiset() =~= t.to_multiset().insert(l));
        assert(r.to_multiset() =~= p.to_multiset().insert(l));
        assert(r.to_multiset() =~= s.to_multiset().insert(x));
        assert forall|i: int, j: int| 0 <= i < j < r.len() implies at_most(
            #[trigger] r[i],
            #[trigger] r[j],
        ) by {
            if j < p.len() {
                assert(r[i] == p[i] && r[j] == p[j]);
            } else {
                assert(r[i] == p[i]);
                assert(p.to_multiset().count(p[i]) > 0);
                assert(p.contains(p[i]));
                if p[i] == x {
                    if lt(l, x) {
                        lt_transitive(x, l, x);
                        lt_irreflexive(x);
                    }
                } else {
                    assert(t.to_multiset().count(p[i]) > 0);
                    assert(t.contains(p[i]));
                    let k = choose|k: int| 0 <= k < t.len() && t[k] == p[i];
                    assert(s[k] == t[k]);
                    assert(at_most(s[k], s[s.len() - 1]));
                }
            }
        }
    } else {
        let r = s.push(x);
        assert(r.to_multiset() =~= s.to_multiset().insert(x));
        assert forall|i: int, j: int| 0 <= i < j < r.len() implies at_most(
            #[trigger] r[i],
            #[trigger] r[j],
        ) by {
            if j < s.len() {
                assert(r[i] == s[i] && r[j] == s[j]);
            } else if i < s.len() - 1 {
                assert(at_most(s[i], s[s.len() - 1]));
                at_most_trans(s[i], s.last(), x);
            }
        }
    }
}

/// Sorting keeps what is there, as often as it is there, and puts it in order.
pub proof fn sorted_ok(xs: Seq<Seq<char>>)
    ensures
        in_order(sorted(xs)),
        sorted(xs).to_multiset() == xs.to_multiset(),
    decreases xs.len(),
{
    broadcast use vstd::seq_lib::group_to_multiset_ensures;

    if xs.len() > 0 {
        sorted_ok(xs.drop_last());
        place_ok(sorted(xs.drop_last()), xs.last());
        assert(xs =~= xs.drop_last().push(xs.last()));
    } else {
        assert(sorted(xs) =~= xs);
    }
}

/// The order in which strings are listed does not show once they are sorted.
pub proof fn sorted_ignores_order(a: Seq<Seq<char>>, b: Seq<Seq<char>>)
    requires
        a.to_multiset() == b.to_multiset(),
    ensures
        sorted(a) == sorted(b),
{
    sorted_ok(a);
    sorted_ok(b);
    let leq = |x: Seq<char>, y: Seq<char>| at_most(x, y);
    assert(vstd::relations::total_ordering(leq)) by {
        assert forall|x: Seq<char>| #[trigger] leq(x, x) by {
            lt_irreflexive(x);
        }
        assert forall|x: Seq<char>, y: Seq<char>| #[trigger] leq(x, y) && #[trigger] leq(y, x) implies x
            == y by {
            lt_total(x, y);
        }
        assert forall|x: Seq<char>, y: Seq<char>, z: Seq<char>| #[trigger]
            leq(x, y) && #[trigger] leq(y, z) implies leq(x, z) by {
            at_most_trans(x, y, z);
        }
        assert forall|x: Seq<char>, y: Seq<char>| #[trigger] leq(x, y) || #[trigger] leq(y, x) by {
            if lt(x, y) && lt(y, x) {
                lt_transitive(x, y, x);
                lt_irreflexive(x);
            }
        }
    }
    assert(vstd::relations::sorted_by(sorted(a), leq));
    assert(vstd::relations::sorted_by(sorted(b), leq));
    vstd::seq_lib::lemma_sorted_unique(sorted(a), sorted(b), leq);
}

proof fn place_at(s: Seq<Seq<char>>, x: Seq<char>, k: int)
    requires
        0 <= k <= s.len(),
        k > 0 ==> !lt(x, s[k - 1]),
        forall|j: int| k <= j < s.len() ==> lt(x, #[trigger] s[j]),
    ensures
        place(s, x) == s.insert(k, x),
    decreases s.len(),
{
    if k == s.len() {
        assert(s.insert(k, x) =~= s.push(x));
    } else {
        let t = s.drop_last();
        assert(lt(x, s[s.len() - 1]));
        assert forall|j: int| k <= j < t.len() implies lt(x, #[trigger] t[j]) by {
            assert(t[j] == s[j]);
        }
        place_at(t, x, k);
        assert(s.insert(k, x) =~= t.insert(k, x).push(s.last()));
    }
}

/// The strings in ascending order.
pub fn sort_strings(xs: &Vec<String>) -> (r: Vec<String>)
    ensures
        views(r@) == sorted(views(xs@)),
{
    let ghost vs = views(xs@);
    let mut out: Vec<String> = Vec::new();
    let mut i: usize = 0;
    assert(views(out@) =~= sorted(vs.take(0)));
    while i < xs.len()
        invariant
            i <= xs@.len(),
            vs == views(xs@),
            views(out@) == sorted(vs.take(i as int)),
        decreases xs@.len() - i,
    {
        let ghost s = views(out@);
        let mut k: usize = out.len();
        while k > 0 && str_lt(xs[i].as_str(), out[k - 1].as_str())
            invariant
                i < xs@.len(),
                k <= out@.len(),
                s == views(out@),
                forall|j: int| k <= j < s.len() ==> lt(xs@[i as int]@, #[trigger] s[j]),
            decreases k,
        {
            k -= 1;
        }
        proof {
            place_at(s, xs@[i as int]@, k as int);
            assert(vs.take(i + 1).drop_last() =~= vs.take(i as int));
            assert(vs.take(i + 1).last() == xs@[i as int]@);
        }
        out.insert(k, xs[i].clone());
        assert(views(out@) =~= s.insert(k as int, xs@[i as int]@));
        i += 1;
    }
    assert(vs.take(i as int) =~= vs);
    out
}

} // verus!
