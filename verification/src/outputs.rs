//! What each finished node observed, by the node's name.

use crate::json::{Json, JsonV};
use crate::text::same;
use vstd::prelude::*;

verus! {

/// What a list of pairs maps: of pairs with one name, the last counts.
pub open spec fn map_of(xs: Seq<(Seq<char>, JsonV)>) -> Map<Seq<char>, JsonV>
    decreases xs.len(),
{
    if xs.len() == 0 {
        Map::empty()
    } else {
        map_of(xs.drop_last()).insert(xs.last().0, xs.last().1)
    }
}

pub open spec fn pairs_view(xs: Seq<(String, Json)>) -> Seq<(Seq<char>, JsonV)> {
    xs.map_values(|x: (String, Json)| (x.0@, x.1@))
}

/// No name occurs twice.
pub open spec fn names_differ(xs: Seq<(Seq<char>, JsonV)>) -> bool {
    forall|i: int, j: int| 0 <= i < j < xs.len() ==> (#[trigger] xs[i]).0 != (#[trigger] xs[j]).0
}

/// What each finished node observed.
#[derive(Debug)]
pub struct Outputs {
    entries: Vec<(String, Json)>,
}

impl View for Outputs {
    type V = Map<Seq<char>, JsonV>;

    closed spec fn view(&self) -> Map<Seq<char>, JsonV> {
        map_of(pairs_view(self.entries@))
    }
}

proof fn map_of_entry(xs: Seq<(Seq<char>, JsonV)>, i: int)
    requires
        names_differ(xs),
        0 <= i < xs.len(),
    ensures
        map_of(xs).contains_key(xs[i].0),
        map_of(xs)[xs[i].0] == xs[i].1,
    decreases xs.len(),
{
    let t = xs.drop_last();
    if i < t.len() {
        assert(names_differ(t)) by {
            assert forall|a: int, b: int| 0 <= a < b < t.len() implies (#[trigger] t[a]).0 != (
            #[trigger] t[b]).0 by {
                assert(t[a] == xs[a] && t[b] == xs[b]);
            }
        }
        assert(t[i] == xs[i]);
        map_of_entry(t, i);
        assert(xs[i].0 != xs[xs.len() - 1].0);
    }
}

proof fn map_of_key(xs: Seq<(Seq<char>, JsonV)>, k: Seq<char>)
    ensures
        map_of(xs).contains_key(k) <==> exists|i: int| 0 <= i < xs.len() && (#[trigger] xs[i]).0 == k,
    decreases xs.len(),
{
    if xs.len() > 0 {
        let t = xs.drop_last();
        map_of_key(t, k);
        if map_of(xs).contains_key(k) {
            if xs.last().0 == k {
                assert(xs[xs.len() - 1].0 == k);
            } else {
                let i = choose|i: int| 0 <= i < t.len() && (#[trigger] t[i]).0 == k;
                assert(xs[i].0 == k);
            }
        }
        if exists|i: int| 0 <= i < xs.len() && (#[trigger] xs[i]).0 == k {
            let i = choose|i: int| 0 <= i < xs.len() && (#[trigger] xs[i]).0 == k;
            if i < t.len() {
                assert(t[i].0 == k);
            }
        }
    }
}

proof fn map_of_len(xs: Seq<(Seq<char>, JsonV)>)
    requires
        names_differ(xs),
    ensures
        map_of(xs).dom().finite(),
        map_of(xs).dom().len() == xs.len(),
    decreases xs.len(),
{
    if xs.len() > 0 {
        let t = xs.drop_last();
        assert(names_differ(t)) by {
            assert forall|a: int, b: int| 0 <= a < b < t.len() implies (#[trigger] t[a]).0 != (
            #[trigger] t[b]).0 by {
                assert(t[a] == xs[a] && t[b] == xs[b]);
            }
        }
        map_of_len(t);
        map_of_key(t, xs.last().0);
        assert(!map_of(t).contains_key(xs.last().0)) by {
            if map_of(t).contains_key(xs.last().0) {
                let i = choose|i: int| 0 <= i < t.len() && (#[trigger] t[i]).0 == xs.last().0;
                assert(xs[i].0 == xs[xs.len() - 1].0);
            }
        }
        assert(map_of(xs).dom() =~= map_of(t).dom().insert(xs.last().0));
    } else {
        assert(map_of(xs).dom() =~= Set::<Seq<char>>::empty());
    }
}

proof fn map_of_update(xs: Seq<(Seq<char>, JsonV)>, i: int, v: JsonV)
    requires
        names_differ(xs),
        0 <= i < xs.len(),
    ensures
        names_differ(xs.update(i, (xs[i].0, v))),
        map_of(xs.update(i, (xs[i].0, v))) == map_of(xs).insert(xs[i].0, v),
{
    let ys = xs.update(i, (xs[i].0, v));
    assert forall|a: int, b: int| 0 <= a < b < ys.len() implies (#[trigger] ys[a]).0 != (
    #[trigger] ys[b]).0 by {
        assert(ys[a].0 == xs[a].0 && ys[b].0 == xs[b].0);
    }
    let m = map_of(xs).insert(xs[i].0, v);
    assert forall|k: Seq<char>| map_of(ys).contains_key(k) == m.contains_key(k) by {
        map_of_key(xs, k);
        map_of_key(ys, k);
        if exists|j: int| 0 <= j < xs.len() && (#[trigger] xs[j]).0 == k {
            let j = choose|j: int| 0 <= j < xs.len() && (#[trigger] xs[j]).0 == k;
            assert(ys[j].0 == k);
        }
        if exists|j: int| 0 <= j < ys.len() && (#[trigger] ys[j]).0 == k {
            let j = choose|j: int| 0 <= j < ys.len() && (#[trigger] ys[j]).0 == k;
            assert(xs[j].0 == k);
        }
        if k == xs[i].0 {
            assert(ys[i].0 == k);
        }
    }
    assert forall|k: Seq<char>| map_of(ys).contains_key(k) implies map_of(ys)[k] == m[k] by {
        map_of_key(ys, k);
        let j = choose|j: int| 0 <= j < ys.len() && (#[trigger] ys[j]).0 == k;
        map_of_entry(ys, j);
        map_of_entry(xs, j);
        if j != i {
            assert(xs[j].0 != xs[i].0) by {
                if j < i {
                    assert(xs[j].0 != xs[i].0);
                } else {
                    assert(xs[i].0 != xs[j].0);
                }
            }
        }
    }
    assert(map_of(ys) =~= m);
}

impl Outputs {
    #[verifier::type_invariant]
    spec fn distinct(self) -> bool {
        names_differ(pairs_view(self.entries@))
    }

    pub fn new() -> (r: Outputs)
        ensures
            r@ == Map::<Seq<char>, JsonV>::empty(),
    {
        let r = Outputs { entries: Vec::new() };
        assert(pairs_view(r.entries@).len() == 0);
        r
    }

    fn find(&self, node: &str) -> (r: Option<usize>)
        ensures
            match r {
                Some(i) => i < self.entries@.len() && self.entries@[i as int].0@ == node@,
                None => forall|i: int|
                    0 <= i < self.entries@.len() ==> (#[trigger] self.entries@[i]).0@ != node@,
            },
    {
        let mut i: usize = 0;
        while i < self.entries.len()
            invariant
                i <= self.entries@.len(),
                forall|j: int| 0 <= j < i ==> (#[trigger] self.entries@[j]).0@ != node@,
            decreases self.entries@.len() - i,
        {
            if same(self.entries[i].0.as_str(), node) {
                return Some(i);
            }
            i += 1;
        }
        None
    }

    /// Store what a node observed, in place of what it observed before.
    pub fn insert(&mut self, node: String, observed: Json)
        ensures
            final(self)@ == old(self)@.insert(node@, observed@),
    {
        proof {
            use_type_invariant(&*self);
        }
        let ghost before = pairs_view(self.entries@);
        let at = self.find(node.as_str());
        let mut entries: Vec<(String, Json)> = Vec::new();
        std::mem::swap(&mut entries, &mut self.entries);
        match at {
            Some(i) => {
                let ghost x = (node@, observed@);
                entries.set(i, (node, observed));
                proof {
                    map_of_update(before, i as int, x.1);
                    assert(pairs_view(entries@) =~= before.update(i as int, x));
                }
            },
            None => {
                let ghost x = (node@, observed@);
                entries.push((node, observed));
                proof {
                    let now = pairs_view(entries@);
                    assert(now =~= before.push(x));
                    assert(now.drop_last() =~= before);
                    assert(names_differ(now)) by {
                        assert forall|a: int, b: int| 0 <= a < b < now.len() implies (
                        #[trigger] now[a]).0 != (#[trigger] now[b]).0 by {
                            assert(now[a] == before[a]);
                            if b < before.len() {
                                assert(now[b] == before[b]);
                            }
                        }
                    }
                }
            },
        }
        self.entries = entries;
    }

    /// What a node observed.
    pub fn get(&self, node: &str) -> (r: Option<&Json>)
        ensures
            match r {
                Some(v) => self@.contains_key(node@) && self@[node@] == v@,
                None => !self@.contains_key(node@),
            },
    {
        proof {
            use_type_invariant(self);
        }
        let ghost all = pairs_view(self.entries@);
        match self.find(node) {
            Some(i) => {
                proof {
                    assert(all[i as int] == (self.entries@[i as int].0@, self.entries@[i as int].1@));
                    map_of_entry(all, i as int);
                }
                Some(&self.entries[i].1)
            },
            None => {
                proof {
                    map_of_key(all, node@);
                    assert forall|i: int| 0 <= i < all.len() implies (#[trigger] all[i]).0
                        != node@ by {
                        assert(all[i].0 == self.entries@[i].0@);
                    }
                }
                None
            },
        }
    }

    /// Whether a node has finished.
    pub fn has(&self, node: &str) -> (r: bool)
        ensures
            r == self@.contains_key(node@),
    {
        self.get(node).is_some()
    }

    /// How many nodes have finished.
    pub fn len(&self) -> (r: usize)
        ensures
            self@.dom().finite(),
            r == self@.dom().len(),
    {
        proof {
            use_type_invariant(self);
            map_of_len(pairs_view(self.entries@));
        }
        self.entries.len()
    }
}

} // verus!
