//! Naming many things in few words: "Acme, Globex, and 300 named 'Customer 001' … 'Customer 300'
//! (prefix 'Customer ')".

use crate::cut::{join, joined};
use crate::text::{
    chars_of, dec, owned, push_dec, same, sort_dedup, sort_dedup_ok,
    sorted_unique, string_of, views,
};
use vstd::prelude::*;

verus! {

pub open spec fn decimal(c: char) -> bool {
    '0' <= c && c <= '9'
}

/// Whether a text is digits from a place on, and there is at least one.
pub open spec fn digits_from(s: Seq<char>, i: int) -> bool {
    i < s.len() && forall|j: int| i <= j < s.len() ==> decimal(#[trigger] s[j])
}

/// What stands before the number of a numbered name, the space included: nothing where a name is
/// not numbered.
pub open spec fn prefix_of(n: Seq<char>) -> Seq<char> {
    if exists|i: int| 0 <= i < n.len() && #[trigger] n[i] == ' ' && digits_from(n, i + 1) {
        let i = choose|i: int| 0 <= i < n.len() && #[trigger] n[i] == ' ' && digits_from(n, i + 1);
        n.take(i + 1)
    } else {
        Seq::empty()
    }
}

/// The names with a prefix.
pub open spec fn group(names: Seq<Seq<char>>, p: Seq<char>) -> Seq<Seq<char>>
    decreases names.len(),
{
    if names.len() == 0 {
        Seq::empty()
    } else if prefix_of(names.last()) == p {
        group(names.drop_last(), p).push(names.last())
    } else {
        group(names.drop_last(), p)
    }
}

/// Whether a prefix has so many names that they are summarised.
pub open spec fn long_run(names: Seq<Seq<char>>, p: Seq<char>) -> bool {
    p.len() > 0 && group(names, p).len() >= 20
}

/// The names that are not summarised.
pub open spec fn spelled_out(all: Seq<Seq<char>>, names: Seq<Seq<char>>) -> Seq<Seq<char>>
    decreases names.len(),
{
    if names.len() == 0 {
        Seq::empty()
    } else if long_run(all, prefix_of(names.last())) {
        spelled_out(all, names.drop_last())
    } else {
        spelled_out(all, names.drop_last()).push(names.last())
    }
}

/// The prefixes of the names that are summarised, one for each name.
pub open spec fn run_prefixes(all: Seq<Seq<char>>, names: Seq<Seq<char>>) -> Seq<Seq<char>>
    decreases names.len(),
{
    if names.len() == 0 {
        Seq::empty()
    } else if long_run(all, prefix_of(names.last())) {
        run_prefixes(all, names.drop_last()).push(prefix_of(names.last()))
    } else {
        run_prefixes(all, names.drop_last())
    }
}

/// The words for a run of names.
pub open spec fn run_text(names: Seq<Seq<char>>, p: Seq<char>) -> Seq<char> {
    let g = group(names, p);
    "and "@ + dec(g.len()) + " named '"@ + g[0] + "' … '"@ + g.last() + "' (prefix '"@ + p + "')"@
}

pub open spec fn run_texts(names: Seq<Seq<char>>, ps: Seq<Seq<char>>) -> Seq<Seq<char>> {
    ps.map_values(|p: Seq<char>| run_text(names, p))
}

/// Names in few words: those of a long run are summarised, behind the others.
pub open spec fn summary_of(names: Seq<Seq<char>>) -> Seq<char> {
    joined(
        spelled_out(names, names) + run_texts(names, sort_dedup(run_prefixes(names, names))),
        ", "@,
    )
}

proof fn prefix_at(n: Seq<char>, i: int)
    requires
        0 <= i < n.len(),
        n[i] == ' ',
        digits_from(n, i + 1),
    ensures
        prefix_of(n) == n.take(i + 1),
{
    let k = choose|k: int| 0 <= k < n.len() && #[trigger] n[k] == ' ' && digits_from(n, k + 1);
    if k < i {
        assert(decimal(n[i]));
    } else if i < k {
        assert(decimal(n[k]));
    }
}

fn read_prefix(n: &str) -> (r: String)
    ensures
        r@ == prefix_of(n@),
{
    let cs = chars_of(n);
    let mut i: usize = cs.len();
    while i > 0 && '0' <= cs[i - 1] && cs[i - 1] <= '9'
        invariant
            i <= cs@.len(),
            cs@ == n@,
            forall|j: int| i <= j < n@.len() ==> decimal(#[trigger] n@[j]),
        decreases i,
    {
        i -= 1;
    }
    if i > 0 && i < cs.len() && cs[i - 1] == ' ' {
        proof {
            prefix_at(n@, i - 1);
        }
        let r = string_of(&cs, 0, i);
        assert(r@ =~= n@.take(i as int));
        r
    } else {
        proof {
            assert forall|k: int| 0 <= k < n@.len() && #[trigger] n@[k] == ' ' implies !digits_from(
                n@,
                k + 1,
            ) by {
                if digits_from(n@, k + 1) {
                    if k < i - 1 {
                        assert(decimal(n@[i - 1]));
                    } else if k >= i {
                        assert(decimal(n@[k]));
                    }
                }
            }
        }
        String::new()
    }
}

fn prefixes(names: &Vec<String>) -> (r: Vec<String>)
    ensures
        r@.len() == names@.len(),
        forall|i: int| 0 <= i < r@.len() ==> (#[trigger] r@[i])@ == prefix_of(names@[i]@),
{
    let mut out: Vec<String> = Vec::new();
    let mut i: usize = 0;
    while i < names.len()
        invariant
            i <= names@.len(),
            out@.len() == i,
            forall|j: int| 0 <= j < i ==> (#[trigger] out@[j])@ == prefix_of(names@[j]@),
        decreases names@.len() - i,
    {
        out.push(read_prefix(names[i].as_str()));
        i += 1;
    }
    out
}

/// The size of a group, and the places of its first and its last name.
fn measure(names: &Vec<String>, ps: &Vec<String>, p: &str) -> (r: (usize, usize, usize))
    requires
        ps@.len() == names@.len(),
        forall|i: int| 0 <= i < ps@.len() ==> (#[trigger] ps@[i])@ == prefix_of(names@[i]@),
    ensures
        r.0 == group(views(names@), p@).len(),
        r.0 > 0 ==> r.1 < names@.len() && r.2 < names@.len() && group(views(names@), p@)[0]
            == names@[r.1 as int]@ && group(views(names@), p@).last() == names@[r.2 as int]@,
{
    let ghost vs = views(names@);
    let mut n: usize = 0;
    let mut a: usize = 0;
    let mut b: usize = 0;
    let mut i: usize = 0;
    while i < names.len()
        invariant
            i <= names@.len() == ps@.len(),
            vs == views(names@),
            forall|j: int| 0 <= j < ps@.len() ==> (#[trigger] ps@[j])@ == prefix_of(names@[j]@),
            n <= i,
            n == group(vs.take(i as int), p@).len(),
            n > 0 ==> a < i && b < i && group(vs.take(i as int), p@)[0] == names@[a as int]@
                && group(vs.take(i as int), p@).last() == names@[b as int]@,
        decreases names@.len() - i,
    {
        proof {
            assert(vs.take(i + 1).drop_last() =~= vs.take(i as int));
            assert(vs.take(i + 1).last() == names@[i as int]@);
        }
        if same(ps[i].as_str(), p) {
            if n == 0 {
                a = i;
            }
            b = i;
            n += 1;
        }
        i += 1;
    }
    assert(vs.take(i as int) =~= vs);
    (n, a, b)
}

fn is_long(names: &Vec<String>, ps: &Vec<String>, p: &str) -> (r: bool)
    requires
        ps@.len() == names@.len(),
        forall|i: int| 0 <= i < ps@.len() ==> (#[trigger] ps@[i])@ == prefix_of(names@[i]@),
    ensures
        r == long_run(views(names@), p@),
{
    proof {
        reveal_strlit("");
        if p@.len() == 0 {
            assert(p@ =~= ""@);
        }
    }
    if same(p, "") {
        false
    } else {
        let (n, _, _) = measure(names, ps, p);
        n >= 20
    }
}

proof fn run_prefixes_long(all: Seq<Seq<char>>, names: Seq<Seq<char>>)
    ensures
        forall|i: int|
            0 <= i < run_prefixes(all, names).len() ==> long_run(
                all,
                #[trigger] run_prefixes(all, names)[i],
            ),
    decreases names.len(),
{
    if names.len() > 0 {
        let t = run_prefixes(all, names.drop_last());
        run_prefixes_long(all, names.drop_last());
        let r = run_prefixes(all, names);
        assert forall|i: int| 0 <= i < r.len() implies long_run(all, #[trigger] r[i]) by {
            if i < t.len() {
                assert(r[i] == t[i]);
            }
        }
    }
}

/// Names in few words.
pub fn summarise_names(names: &Vec<String>) -> (r: String)
    ensures
        r@ == summary_of(views(names@)),
{
    let ghost vs = views(names@);
    let ps = prefixes(names);
    let mut parts: Vec<String> = Vec::new();
    let mut big: Vec<String> = Vec::new();
    let mut i: usize = 0;
    assert(views(parts@) =~= spelled_out(vs, vs.take(0)));
    assert(views(big@) =~= run_prefixes(vs, vs.take(0)));
    while i < names.len()
        invariant
            i <= names@.len() == ps@.len(),
            vs == views(names@),
            forall|j: int| 0 <= j < ps@.len() ==> (#[trigger] ps@[j])@ == prefix_of(names@[j]@),
            views(parts@) == spelled_out(vs, vs.take(i as int)),
            views(big@) == run_prefixes(vs, vs.take(i as int)),
        decreases names@.len() - i,
    {
        proof {
            assert(vs.take(i + 1).drop_last() =~= vs.take(i as int));
            assert(vs.take(i + 1).last() == names@[i as int]@);
        }
        if is_long(names, &ps, ps[i].as_str()) {
            let ghost o = views(big@);
            big.push(ps[i].clone());
            assert(views(big@) =~= o.push(prefix_of(names@[i as int]@)));
        } else {
            let ghost o = views(parts@);
            parts.push(names[i].clone());
            assert(views(parts@) =~= o.push(names@[i as int]@));
        }
        i += 1;
    }
    assert(vs.take(i as int) =~= vs);
    let runs = sorted_unique(&big);
    let ghost first = views(parts@);
    let ghost rest = run_texts(vs, views(runs@));
    proof {
        run_prefixes_long(vs, vs);
        sort_dedup_ok(views(big@));
    }
    let mut j: usize = 0;
    assert(first + rest.take(0) =~= first);
    while j < runs.len()
        invariant
            j <= runs@.len() == rest.len(),
            vs == views(names@),
            ps@.len() == names@.len(),
            forall|k: int| 0 <= k < ps@.len() ==> (#[trigger] ps@[k])@ == prefix_of(names@[k]@),
            rest == run_texts(vs, views(runs@)),
            views(runs@) == sort_dedup(run_prefixes(vs, vs)),
            forall|x: Seq<char>| #[trigger]
                sort_dedup(run_prefixes(vs, vs)).contains(x) <==> run_prefixes(vs, vs).contains(x),
            forall|k: int|
                0 <= k < run_prefixes(vs, vs).len() ==> long_run(
                    vs,
                    #[trigger] run_prefixes(vs, vs)[k],
                ),
            views(parts@) == first + rest.take(j as int),
        decreases runs@.len() - j,
    {
        let p = runs[j].as_str();
        proof {
            let x = views(runs@)[j as int];
            assert(x == p@);
            assert(views(runs@).contains(x));
            let k = choose|k: int|
                0 <= k < run_prefixes(vs, vs).len() && run_prefixes(vs, vs)[k] == x;
            assert(long_run(vs, x));
        }
        let (n, a, b) = measure(names, &ps, p);
        let mut t = owned("and ");
        push_dec(&mut t, n as u128);
        t.push_str(" named '");
        t.push_str(names[a].as_str());
        t.push_str("' … '");
        t.push_str(names[b].as_str());
        t.push_str("' (prefix '");
        t.push_str(p);
        t.push_str("')");
        assert(t@ == run_text(vs, p@));
        let ghost o = views(parts@);
        let ghost tv = t@;
        parts.push(t);
        assert(views(parts@) =~= o.push(tv));
        assert(rest[j as int] == run_text(vs, views(runs@)[j as int]));
        j += 1;
        assert(views(parts@) =~= first + rest.take(j as int));
    }
    assert(rest.take(j as int) =~= rest);
    join(&parts, ", ")
}

} // verus!
