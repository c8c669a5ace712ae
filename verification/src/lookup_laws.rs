//! What looking up a name gives: the first entry that has it, and nothing where none has.

use crate::json::{entry, member, JsonV};
use vstd::prelude::*;

verus! {

/// A member of an object is the value of the first entry with that key.
pub proof fn the_first_entry_counts(xs: Seq<(Seq<char>, JsonV)>, k: Seq<char>, i: int)
    requires
        0 <= i < xs.len(),
        xs[i].0 == k,
        forall|j: int| 0 <= j < i ==> (#[trigger] xs[j]).0 != k,
    ensures
        entry(xs, k) == Some(xs[i].1),
        member(JsonV::Obj(xs), k) == Some(xs[i].1),
    decreases i,
{
    if i > 0 {
        let t = xs.drop_first();
        assert(xs[0].0 != k);
        assert(t[i - 1] == xs[i]);
        assert forall|j: int| 0 <= j < i - 1 implies (#[trigger] t[j]).0 != k by {
            assert(t[j] == xs[j + 1]);
        }
        the_first_entry_counts(t, k, i - 1);
    }
}

/// A key that no entry has gives nothing, and so does every value that is no object.
pub proof fn a_missing_entry_is_none(v: JsonV, k: Seq<char>)
    requires
        v matches JsonV::Obj(xs) ==> forall|j: int| 0 <= j < xs.len() ==> (#[trigger] xs[j]).0 != k,
    ensures
        member(v, k) is None,
{
    if let JsonV::Obj(xs) = v {
        no_entry(xs, k);
    }
}

proof fn no_entry(xs: Seq<(Seq<char>, JsonV)>, k: Seq<char>)
    requires
        forall|j: int| 0 <= j < xs.len() ==> (#[trigger] xs[j]).0 != k,
    ensures
        entry(xs, k) is None,
    decreases xs.len(),
{
    if xs.len() > 0 {
        let t = xs.drop_first();
        assert(xs[0].0 != k);
        assert forall|j: int| 0 <= j < t.len() implies (#[trigger] t[j]).0 != k by {
            assert(t[j] == xs[j + 1]);
        }
        no_entry(t, k);
    }
}

/// A member that is there is the value of some entry with that key, and no entry before it has
/// the key.
pub proof fn a_member_has_an_entry(xs: Seq<(Seq<char>, JsonV)>, k: Seq<char>) -> (i: int)
    requires
        member(JsonV::Obj(xs), k) is Some,
    ensures
        0 <= i < xs.len(),
        xs[i].0 == k,
        member(JsonV::Obj(xs), k) == Some(xs[i].1),
        forall|j: int| 0 <= j < i ==> (#[trigger] xs[j]).0 != k,
    decreases xs.len(),
{
    if xs.len() == 0 {
        assert(false);
        0
    } else if xs[0].0 == k {
        0
    } else {
        let t = xs.drop_first();
        let i = a_member_has_an_entry(t, k);
        assert(t[i] == xs[i + 1]);
        assert forall|j: int| 0 <= j < i + 1 implies (#[trigger] xs[j]).0 != k by {
            if j > 0 {
                assert(t[j - 1] == xs[j]);
            }
        }
        i + 1
    }
}

} // verus!
