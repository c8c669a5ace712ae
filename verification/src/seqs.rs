//! Facts about sequences.

use vstd::prelude::*;

verus! {

/// A filtered sequence holds what the sequence holds and the filter lets through.
pub proof fn filter_has<A>(s: Seq<A>, p: spec_fn(A) -> bool, x: A)
    ensures
        s.filter(p).contains(x) <==> s.contains(x) && p(x),
{
    if s.filter(p).contains(x) {
        s.lemma_filter_contains_rev(p, x);
        let k = choose|k: int| 0 <= k < s.filter(p).len() && s.filter(p)[k] == x;
        s.lemma_filter_pred(p, k);
    }
    if s.contains(x) && p(x) {
        let k = choose|k: int| 0 <= k < s.len() && s[k] == x;
        s.lemma_filter_contains(p, k);
    }
}

/// A pushed element is held, and nothing else is new.
pub proof fn push_has<A>(s: Seq<A>, x: A)
    ensures
        forall|v: A| #[trigger] s.push(x).contains(v) <==> s.contains(v) || v == x,
{
    assert forall|v: A| #[trigger] s.push(x).contains(v) <==> s.contains(v) || v == x by {
        if s.contains(v) {
            let k = choose|k: int| 0 <= k < s.len() && s[k] == v;
            assert(s.push(x)[k] == v);
        }
        if v == x {
            assert(s.push(x)[s.len() as int] == v);
        }
        if s.push(x).contains(v) {
            let k = choose|k: int| 0 <= k < s.push(x).len() && s.push(x)[k] == v;
            if k < s.len() {
                assert(s[k] == v);
            }
        }
    }
}

/// What two sequences hold together.
pub proof fn add_has<A>(s: Seq<A>, t: Seq<A>)
    ensures
        forall|v: A| #[trigger] (s + t).contains(v) <==> s.contains(v) || t.contains(v),
{
    assert forall|v: A| #[trigger] (s + t).contains(v) <==> s.contains(v) || t.contains(v) by {
        if s.contains(v) {
            let k = choose|k: int| 0 <= k < s.len() && s[k] == v;
            assert((s + t)[k] == v);
        }
        if t.contains(v) {
            let k = choose|k: int| 0 <= k < t.len() && t[k] == v;
            assert((s + t)[s.len() + k] == v);
        }
        if (s + t).contains(v) {
            let k = choose|k: int| 0 <= k < (s + t).len() && (s + t)[k] == v;
            if k < s.len() {
                assert(s[k] == v);
            } else {
                assert(t[k - s.len()] == v);
            }
        }
    }
}

} // verus!
