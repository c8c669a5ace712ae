//! Building JSON objects. The entries of an object stand in ascending order of their keys.

use crate::json::{entry, list_push, list_view, obj_push, obj_view, Json, JsonV};
use crate::text::{lt, lt_irreflexive, lt_total, lt_transitive, owned, same, str_lt};
use vstd::prelude::*;

verus! {

/// `v` stored under `k`, at its place in the order of the keys.
pub open spec fn put(xs: Seq<(Seq<char>, JsonV)>, k: Seq<char>, v: JsonV) -> Seq<
    (Seq<char>, JsonV),
>
    decreases xs.len(),
{
    if xs.len() == 0 || lt(xs.last().0, k) {
        xs.push((k, v))
    } else if xs.last().0 == k {
        xs.drop_last().push((k, v))
    } else {
        put(xs.drop_last(), k, v).push(xs.last())
    }
}

/// The keys ascend, so none occurs twice.
pub open spec fn keys_ascend(xs: Seq<(Seq<char>, JsonV)>) -> bool {
    forall|i: int, j: int| 0 <= i < j < xs.len() ==> lt((#[trigger] xs[i]).0, (#[trigger] xs[j]).0)
}

proof fn entry_at(xs: Seq<(Seq<char>, JsonV)>, i: int)
    requires
        keys_ascend(xs),
        0 <= i < xs.len(),
    ensures
        entry(xs, xs[i].0) == Some(xs[i].1),
    decreases xs.len(),
{
    if i > 0 {
        assert(lt(xs[0].0, xs[i].0));
        lt_irreflexive(xs[0].0);
        let t = xs.drop_first();
        assert(keys_ascend(t)) by {
            assert forall|a: int, b: int| 0 <= a < b < t.len() implies lt(
                (#[trigger] t[a]).0,
                (#[trigger] t[b]).0,
            ) by {
                assert(t[a] == xs[a + 1] && t[b] == xs[b + 1]);
            }
        }
        assert(t[i - 1] == xs[i]);
        entry_at(t, i - 1);
    }
}

proof fn entry_none(xs: Seq<(Seq<char>, JsonV)>, k: Seq<char>)
    requires
        forall|i: int| 0 <= i < xs.len() ==> (#[trigger] xs[i]).0 != k,
    ensures
        entry(xs, k) is None,
    decreases xs.len(),
{
    if xs.len() > 0 {
        assert(xs[0].0 != k);
        let t = xs.drop_first();
        assert forall|i: int| 0 <= i < t.len() implies (#[trigger] t[i]).0 != k by {
            assert(t[i] == xs[i + 1]);
        }
        entry_none(t, k);
    }
}

proof fn put_keys(xs: Seq<(Seq<char>, JsonV)>, k: Seq<char>, v: JsonV)
    requires
        keys_ascend(xs),
    ensures
        keys_ascend(put(xs, k, v)),
        forall|e: (Seq<char>, JsonV)| #[trigger]
            put(xs, k, v).contains(e) <==> (e == (k, v) || (xs.contains(e) && e.0 != k)),
    decreases xs.len(),
{
    let r = put(xs, k, v);
    if xs.len() == 0 || lt(xs.last().0, k) {
        assert forall|i: int, j: int| 0 <= i < j < r.len() implies lt(
            (#[trigger] r[i]).0,
            (#[trigger] r[j]).0,
        ) by {
            if j < xs.len() {
                assert(r[i] == xs[i] && r[j] == xs[j]);
            } else if i < xs.len() - 1 {
                assert(lt(xs[i].0, xs[xs.len() - 1].0));
                lt_transitive(xs[i].0, xs.last().0, k);
            }
        }
        assert forall|e: (Seq<char>, JsonV)| #[trigger] r.contains(e) <==> (e == (k, v) || (
        xs.contains(e) && e.0 != k)) by {
            if xs.contains(e) {
                let i = choose|i: int| 0 <= i < xs.len() && xs[i] == e;
                assert(r[i] == e);
                lt_irreflexive(k);
                if e.0 == k && i < xs.len() - 1 {
                    assert(lt(xs[i].0, xs[xs.len() - 1].0));
                    lt_transitive(k, xs.last().0, k);
                }
            }
            assert(r[xs.len() as int] == (k, v));
            if r.contains(e) {
                let i = choose|i: int| 0 <= i < r.len() && r[i] == e;
                if i < xs.len() {
                    assert(xs[i] == e);
                }
            }
        }
    } else {
        let t = xs.drop_last();
        let l = xs.last();
        assert(keys_ascend(t)) by {
            assert forall|a: int, b: int| 0 <= a < b < t.len() implies lt(
                (#[trigger] t[a]).0,
                (#[trigger] t[b]).0,
            ) by {
                assert(t[a] == xs[a] && t[b] == xs[b]);
            }
        }
        lt_irreflexive(k);
        if l.0 == k {
            assert forall|i: int, j: int| 0 <= i < j < r.len() implies lt(
                (#[trigger] r[i]).0,
                (#[trigger] r[j]).0,
            ) by {
                assert(r[i].0 == xs[i].0 && r[j].0 == xs[j].0);
            }
            assert forall|e: (Seq<char>, JsonV)| #[trigger] r.contains(e) <==> (e == (k, v) || (
            xs.contains(e) && e.0 != k)) by {
                assert(r[t.len() as int] == (k, v));
                if xs.contains(e) && e.0 != k {
                    let i = choose|i: int| 0 <= i < xs.len() && xs[i] == e;
                    assert(r[i] == e);
                }
                if r.contains(e) && e != (k, v) {
                    let i = choose|i: int| 0 <= i < r.len() && r[i] == e;
                    assert(xs[i] == e);
                    assert(lt(xs[i].0, xs[xs.len() - 1].0));
                }
            }
        } else {
            lt_total(l.0, k);
            put_keys(t, k, v);
            let p = put(t, k, v);
            assert forall|i: int, j: int| 0 <= i < j < r.len() implies lt(
                (#[trigger] r[i]).0,
                (#[trigger] r[j]).0,
            ) by {
                assert(r[i] == p[i]);
                if j < p.len() {
                    assert(r[j] == p[j]);
                } else {
                    assert(p.contains(p[i]));
                    if p[i] != (k, v) {
                        let m = choose|m: int| 0 <= m < t.len() && t[m] == p[i];
                        assert(lt(xs[m].0, xs[xs.len() - 1].0));
                    }
                }
            }
            assert forall|e: (Seq<char>, JsonV)| #[trigger] r.contains(e) <==> (e == (k, v) || (
            xs.contains(e) && e.0 != k)) by {
                if xs.contains(e) && e.0 != k {
                    let i = choose|i: int| 0 <= i < xs.len() && xs[i] == e;
                    if i < t.len() {
                        assert(t[i] == e);
                        assert(t.contains(e));
                        assert(p.contains(e));
                        let m = choose|m: int| 0 <= m < p.len() && p[m] == e;
                        assert(r[m] == e);
                    } else {
                        assert(r[p.len() as int] == e);
                    }
                }
                if e == (k, v) {
                    assert(p.contains(e));
                    let m = choose|m: int| 0 <= m < p.len() && p[m] == e;
                    assert(r[m] == e);
                }
                if r.contains(e) && e != (k, v) {
                    let i = choose|i: int| 0 <= i < r.len() && r[i] == e;
                    if i < p.len() {
                        assert(p.contains(e));
                        let m = choose|m: int| 0 <= m < t.len() && t[m] == e;
                        assert(xs[m] == e);
                    } else {
                        assert(xs[t.len() as int] == e);
                    }
                }
            }
        }
    }
}

/// Storing under a key keeps the order of the keys, gives back what was stored, and leaves what
/// is under other keys as it was.
pub proof fn put_ok(xs: Seq<(Seq<char>, JsonV)>, k: Seq<char>, v: JsonV, other: Seq<char>)
    requires
        keys_ascend(xs),
    ensures
        keys_ascend(put(xs, k, v)),
        entry(put(xs, k, v), k) == Some(v),
        other != k ==> entry(put(xs, k, v), other) == entry(xs, other),
{
    put_keys(xs, k, v);
    let r = put(xs, k, v);
    assert(r.contains((k, v)));
    let i = choose|i: int| 0 <= i < r.len() && r[i] == (k, v);
    entry_at(r, i);
    if other != k {
        if exists|j: int| 0 <= j < xs.len() && (#[trigger] xs[j]).0 == other {
            let j = choose|j: int| 0 <= j < xs.len() && (#[trigger] xs[j]).0 == other;
            entry_at(xs, j);
            assert(xs.contains(xs[j]));
            assert(r.contains(xs[j]));
            let m = choose|m: int| 0 <= m < r.len() && r[m] == xs[j];
            entry_at(r, m);
        } else {
            entry_none(xs, other);
            assert forall|j: int| 0 <= j < r.len() implies (#[trigger] r[j]).0 != other by {
                assert(r.contains(r[j]));
                if r[j] != (k, v) {
                    let m = choose|m: int| 0 <= m < xs.len() && xs[m] == r[j];
                    assert(xs[m].0 != other);
                }
            }
            entry_none(r, other);
        }
    }
}

proof fn put_at(xs: Seq<(Seq<char>, JsonV)>, k: Seq<char>, v: JsonV, i: int)
    requires
        0 <= i <= xs.len(),
        i > 0 ==> lt(xs[i - 1].0, k) || xs[i - 1].0 == k,
        forall|j: int|
            i <= j < xs.len() ==> !lt((#[trigger] xs[j]).0, k) && xs[j].0 != k,
    ensures
        put(xs, k, v) == (if i > 0 && xs[i - 1].0 == k {
            xs.update(i - 1, (k, v))
        } else {
            xs.insert(i, (k, v))
        }),
    decreases xs.len(),
{
    lt_irreflexive(k);
    if i == xs.len() {
        if xs.len() > 0 && xs.last().0 == k {
            assert(xs.drop_last().push((k, v)) =~= xs.update(i - 1, (k, v)));
        } else {
            assert(xs.insert(i, (k, v)) =~= xs.push((k, v)));
        }
    } else {
        let t = xs.drop_last();
        assert(!lt(xs[xs.len() - 1].0, k));
        assert forall|j: int| i <= j < t.len() implies !lt((#[trigger] t[j]).0, k) && t[j].0
            != k by {
            assert(t[j] == xs[j]);
        }
        put_at(t, k, v, i);
        if i > 0 && xs[i - 1].0 == k {
            assert(t.update(i - 1, (k, v)).push(xs.last()) =~= xs.update(i - 1, (k, v)));
        } else {
            assert(t.insert(i, (k, v)).push(xs.last()) =~= xs.insert(i, (k, v)));
        }
    }
}

/// Store a value under a key.
pub fn put_entry(xs: &mut Vec<(String, Json)>, k: &str, v: Json)
    ensures
        obj_view(final(xs)@) == put(obj_view(old(xs)@), k@, v@),
{
    let ghost s = obj_view(xs@);
    let mut i: usize = xs.len();
    while i > 0 && !(str_lt(xs[i - 1].0.as_str(), k) || same(xs[i - 1].0.as_str(), k))
        invariant
            i <= xs@.len(),
            s == obj_view(xs@),
            xs@ == old(xs)@,
            forall|j: int|
                i <= j < s.len() ==> !lt((#[trigger] s[j]).0, k@) && s[j].0 != k@,
        decreases i,
    {
        i -= 1;
    }
    proof {
        put_at(s, k@, v@, i as int);
    }
    let x = (owned(k), v);
    if i > 0 && same(xs[i - 1].0.as_str(), k) {
        xs.set(i - 1, x);
        assert(obj_view(xs@) =~= s.update(i - 1, (k@, v@)));
    } else {
        xs.insert(i, x);
        assert(obj_view(xs@) =~= s.insert(i as int, (k@, v@)));
    }
}

/// Append an entry. The caller keeps the keys in order.
pub fn push_entry(xs: &mut Vec<(String, Json)>, k: &str, v: Json)
    ensures
        obj_view(final(xs)@) == obj_view(old(xs)@).push((k@, v@)),
{
    let x = (owned(k), v);
    proof {
        obj_push(xs@, x);
    }
    xs.push(x);
}

/// An empty list of entries.
pub fn no_entries() -> (r: Vec<(String, Json)>)
    ensures
        obj_view(r@) == Seq::<(Seq<char>, JsonV)>::empty(),
{
    let r: Vec<(String, Json)> = Vec::new();
    assert(obj_view(r@) =~= Seq::<(Seq<char>, JsonV)>::empty());
    r
}

/// An object with one entry.
pub fn one_entry(k: &str, v: Json) -> (r: Json)
    ensures
        r@ == JsonV::Obj(seq![(k@, v@)]),
{
    let ghost vv = v@;
    let mut o = no_entries();
    push_entry(&mut o, k, v);
    let r = Json::Obj(o);
    assert(obj_view(o@) =~= seq![(k@, vv)]);
    r
}

/// A string.
pub fn text_json(s: &str) -> (r: Json)
    ensures
        r@ == JsonV::Str(s@),
{
    Json::Str(owned(s))
}

/// An object with two entries, in order.
pub fn two_entries(a: &str, x: Json, b: &str, y: Json) -> (r: Json)
    ensures
        r@ == JsonV::Obj(seq![(a@, x@), (b@, y@)]),
{
    let ghost (xv, yv) = (x@, y@);
    let mut o = no_entries();
    push_entry(&mut o, a, x);
    push_entry(&mut o, b, y);
    let r = Json::Obj(o);
    assert(obj_view(o@) =~= seq![(a@, xv), (b@, yv)]);
    r
}

/// An object with three entries, in order.
pub fn three_entries(a: &str, x: Json, b: &str, y: Json, c: &str, z: Json) -> (r: Json)
    ensures
        r@ == JsonV::Obj(seq![(a@, x@), (b@, y@), (c@, z@)]),
{
    let ghost (xv, yv, zv) = (x@, y@, z@);
    let mut o = no_entries();
    push_entry(&mut o, a, x);
    push_entry(&mut o, b, y);
    push_entry(&mut o, c, z);
    let r = Json::Obj(o);
    assert(obj_view(o@) =~= seq![(a@, xv), (b@, yv), (c@, zv)]);
    r
}

/// An object with four entries, in order.
pub fn four_entries(a: &str, x: Json, b: &str, y: Json, c: &str, z: Json, d: &str, w: Json) -> (r: Json)
    ensures
        r@ == JsonV::Obj(seq![(a@, x@), (b@, y@), (c@, z@), (d@, w@)]),
{
    let ghost (xv, yv, zv, wv) = (x@, y@, z@, w@);
    let mut o = no_entries();
    push_entry(&mut o, a, x);
    push_entry(&mut o, b, y);
    push_entry(&mut o, c, z);
    push_entry(&mut o, d, w);
    let r = Json::Obj(o);
    assert(obj_view(o@) =~= seq![(a@, xv), (b@, yv), (c@, zv), (d@, wv)]);
    r
}

/// A list of one.
pub fn one_item(x: Json) -> (r: Json)
    ensures
        r@ == JsonV::List(seq![x@]),
{
    let ghost xv = x@;
    let mut l: Vec<Json> = Vec::new();
    proof {
        list_push(l@, x);
    }
    l.push(x);
    let r = Json::List(l);
    assert(list_view(l@) =~= seq![xv]);
    r
}

/// A list of two.
pub fn two_items(x: Json, y: Json) -> (r: Json)
    ensures
        r@ == JsonV::List(seq![x@, y@]),
{
    let ghost (xv, yv) = (x@, y@);
    let mut l: Vec<Json> = Vec::new();
    l.push(x);
    l.push(y);
    let r = Json::List(l);
    assert(list_view(l@) =~= seq![xv, yv]);
    r
}

} // verus!
