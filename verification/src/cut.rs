//! Finding, cutting, joining and replacing inside strings.

use crate::text::{chars_of, owned, string_of, views};
use vstd::prelude::*;

verus! {

// ---------- one character ----------

/// The place of the first `c` in `s`, or the length of `s` where there is none.
pub open spec fn pos(s: Seq<char>, c: char) -> nat
    decreases s.len(),
{
    if s.len() == 0 || s[0] == c {
        0
    } else {
        1 + pos(s.drop_first(), c)
    }
}

pub proof fn pos_at(s: Seq<char>, c: char, i: int)
    requires
        0 <= i <= s.len(),
        forall|j: int| 0 <= j < i ==> s[j] != c,
        i < s.len() ==> s[i] == c,
    ensures
        pos(s, c) == i,
        s.contains(c) <==> i < s.len(),
    decreases s.len(),
{
    if i > 0 {
        assert(s[0] != c);
        let t = s.drop_first();
        assert forall|j: int| 0 <= j < i - 1 implies t[j] != c by {
            assert(t[j] == s[j + 1]);
        }
        pos_at(t, c, i - 1);
    }
}

/// The place of the first `c` from `from` on, or the length.
fn find_from(cs: &Vec<char>, c: char, from: usize) -> (i: usize)
    requires
        from <= cs@.len(),
    ensures
        from <= i <= cs@.len(),
        forall|j: int| from <= j < i ==> cs@[j] != c,
        i < cs@.len() ==> cs@[i as int] == c,
{
    let mut i: usize = from;
    while i < cs.len() && cs[i] != c
        invariant
            from <= i <= cs@.len(),
            forall|j: int| from <= j < i ==> cs@[j] != c,
        decreases cs@.len() - i,
    {
        i += 1;
    }
    i
}

/// What stands before and behind the first `c`.
pub open spec fn cut(s: Seq<char>, c: char) -> Option<(Seq<char>, Seq<char>)> {
    if s.contains(c) {
        Some((s.take(pos(s, c) as int), s.skip(pos(s, c) as int + 1)))
    } else {
        None
    }
}

/// Cut a string at the first `c`.
pub fn split_once(s: &str, c: char) -> (r: Option<(String, String)>)
    ensures
        match r {
            Some((a, b)) => cut(s@, c) == Some((a@, b@)),
            None => cut(s@, c) is None,
        },
{
    let cs = chars_of(s);
    let i: usize = find_from(&cs, c, 0);
    proof {
        pos_at(s@, c, i as int);
    }
    if i == cs.len() {
        return None;
    }
    let a = string_of(&cs, 0, i);
    let b = string_of(&cs, i + 1, cs.len());
    assert(a@ =~= s@.take(i as int));
    assert(b@ =~= s@.skip(i + 1));
    Some((a, b))
}

/// The pieces of `s` between the occurrences of `c`.
pub open spec fn pieces(s: Seq<char>, c: char) -> Seq<Seq<char>>
    decreases s.len(),
{
    if s.contains(c) && pos(s, c) < s.len() {
        seq![s.take(pos(s, c) as int)] + pieces(s.skip(pos(s, c) as int + 1), c)
    } else {
        seq![s]
    }
}

/// Split a string at every `c`.
pub fn split(s: &str, c: char) -> (r: Vec<String>)
    ensures
        views(r@) == pieces(s@, c),
{
    let cs = chars_of(s);
    let mut out: Vec<String> = Vec::new();
    let mut from: usize = 0;
    assert(s@.skip(0) =~= s@);
    assert(views(out@) + pieces(s@.skip(0), c) =~= pieces(s@, c));
    loop
        invariant
            from <= cs@.len(),
            cs@ == s@,
            views(out@) + pieces(s@.skip(from as int), c) == pieces(s@, c),
        decreases cs@.len() - from,
    {
        let i: usize = find_from(&cs, c, from);
        let ghost t = s@.skip(from as int);
        proof {
            assert forall|j: int| 0 <= j < i - from implies t[j] != c by {
                assert(t[j] == s@[from + j]);
            }
            pos_at(t, c, i - from);
        }
        let piece = string_of(&cs, from, i);
        let ghost o = views(out@);
        out.push(piece);
        assert(views(out@) =~= o.push(piece@));
        if i == cs.len() {
            assert(piece@ =~= t);
            assert(o + seq![t] =~= o.push(t));
            return out;
        }
        proof {
            assert(piece@ =~= t.take(i - from));
            assert(t.skip(i - from + 1) =~= s@.skip(i + 1));
            assert(o + (seq![t.take(i - from)] + pieces(s@.skip(i + 1), c)) =~= o.push(
                t.take(i - from),
            ) + pieces(s@.skip(i + 1), c));
        }
        from = i + 1;
    }
}

// ---------- ends ----------

/// `s` without `p` in front of it, where it starts with `p`.
pub open spec fn without_prefix(s: Seq<char>, p: Seq<char>) -> Option<Seq<char>> {
    if p.is_prefix_of(s) {
        Some(s.skip(p.len() as int))
    } else {
        None
    }
}

/// `s` without `p` behind it, where it ends with `p`.
pub open spec fn without_suffix(s: Seq<char>, p: Seq<char>) -> Option<Seq<char>> {
    if p.is_suffix_of(s) {
        Some(s.take(s.len() - p.len()))
    } else {
        None
    }
}

fn matches_at(cs: &Vec<char>, p: &Vec<char>, i: usize) -> (r: bool)
    requires
        i <= cs@.len(),
    ensures
        r == (i + p@.len() <= cs@.len() && cs@.subrange(i as int, i + p@.len()) == p@),
{
    let n: usize = cs.len();
    if n - i < p.len() {
        return false;
    }
    let mut j: usize = 0;
    while j < p.len()
        invariant
            j <= p@.len(),
            n == cs@.len(),
            i + p@.len() <= n,
            forall|k: int| 0 <= k < j ==> cs@[i + k] == p@[k],
        decreases p@.len() - j,
    {
        if cs[i + j] != p[j] {
            assert(cs@.subrange(i as int, i + p@.len())[j as int] != p@[j as int]);
            return false;
        }
        j += 1;
    }
    assert(cs@.subrange(i as int, i + p@.len()) =~= p@);
    true
}

/// Take `p` off the front.
pub fn strip_prefix(s: &str, p: &str) -> (r: Option<String>)
    ensures
        match r {
            Some(t) => without_prefix(s@, p@) == Some(t@),
            None => without_prefix(s@, p@) is None,
        },
{
    let cs = chars_of(s);
    let ps = chars_of(p);
    if matches_at(&cs, &ps, 0) {
        let t = string_of(&cs, ps.len(), cs.len());
        assert(t@ =~= s@.skip(p@.len() as int));
        Some(t)
    } else {
        None
    }
}

/// Take `p` off the end.
pub fn strip_suffix(s: &str, p: &str) -> (r: Option<String>)
    ensures
        match r {
            Some(t) => without_suffix(s@, p@) == Some(t@),
            None => without_suffix(s@, p@) is None,
        },
{
    let cs = chars_of(s);
    let ps = chars_of(p);
    if ps.len() <= cs.len() && matches_at(&cs, &ps, cs.len() - ps.len()) {
        let t = string_of(&cs, 0, cs.len() - ps.len());
        assert(t@ =~= s@.take(s@.len() - p@.len()));
        Some(t)
    } else {
        None
    }
}

/// Whether `s` starts with `p`.
pub fn starts_with(s: &str, p: &str) -> (r: bool)
    ensures
        r == p@.is_prefix_of(s@),
{
    let cs = chars_of(s);
    let ps = chars_of(p);
    let r = matches_at(&cs, &ps, 0);
    r
}

/// Whether `s` ends with `p`.
pub fn ends_with(s: &str, p: &str) -> (r: bool)
    ensures
        r == p@.is_suffix_of(s@),
{
    let cs = chars_of(s);
    let ps = chars_of(p);
    ps.len() <= cs.len() && matches_at(&cs, &ps, cs.len() - ps.len())
}

/// `s` without any `c` in front of it.
pub open spec fn trim_front(s: Seq<char>, c: char) -> Seq<char>
    decreases s.len(),
{
    if s.len() > 0 && s[0] == c {
        trim_front(s.drop_first(), c)
    } else {
        s
    }
}

/// `s` without any `p` behind it.
pub open spec fn trim_back(s: Seq<char>, p: Seq<char>) -> Seq<char>
    decreases s.len(),
{
    if p.len() > 0 && p.is_suffix_of(s) {
        trim_back(s.take(s.len() - p.len()), p)
    } else {
        s
    }
}

/// Take every `c` off the front.
pub fn trim_start_char(s: &str, c: char) -> (r: String)
    ensures
        r@ == trim_front(s@, c),
{
    let cs = chars_of(s);
    let mut i: usize = 0;
    assert(s@.skip(0) =~= s@);
    while i < cs.len() && cs[i] == c
        invariant
            i <= cs@.len(),
            cs@ == s@,
            trim_front(s@.skip(i as int), c) == trim_front(s@, c),
        decreases cs@.len() - i,
    {
        assert(s@.skip(i as int).drop_first() =~= s@.skip(i + 1));
        i += 1;
    }
    let r = string_of(&cs, i, cs.len());
    assert(r@ =~= s@.skip(i as int));
    r
}

/// Take every `p` off the end.
pub fn trim_end_str(s: &str, p: &str) -> (r: String)
    ensures
        r@ == trim_back(s@, p@),
{
    let cs = chars_of(s);
    let ps = chars_of(p);
    if ps.len() == 0 {
        return owned(s);
    }
    let mut n: usize = cs.len();
    assert(s@.take(n as int) =~= s@);
    while ps.len() <= n && matches_at(&cs, &ps, n - ps.len())
        invariant
            n <= cs@.len(),
            cs@ == s@,
            ps@ == p@,
            ps@.len() > 0,
            trim_back(s@.take(n as int), p@) == trim_back(s@, p@),
        decreases n,
    {
        proof {
            let t = s@.take(n as int);
            assert(t.subrange(t.len() - p@.len(), t.len() as int) =~= s@.subrange(
                n - p@.len(),
                n as int,
            ));
            assert(t.take(t.len() - p@.len()) =~= s@.take(n - p@.len()));
        }
        n -= ps.len();
    }
    proof {
        let t = s@.take(n as int);
        if p@.is_suffix_of(t) {
            assert(s@.subrange(n - p@.len(), n as int) =~= p@);
        }
    }
    let r = string_of(&cs, 0, n);
    assert(r@ =~= s@.take(n as int));
    r
}

/// Unicode whitespace.
pub open spec fn space(c: char) -> bool {
    let u = c as u32;
    9 <= u <= 13 || u == 32 || u == 0x85 || u == 0xA0 || u == 0x1680 || 0x2000 <= u <= 0x200A || u
        == 0x2028 || u == 0x2029 || u == 0x202F || u == 0x205F || u == 0x3000
}

/// Whether a character is Unicode whitespace.
pub fn is_space(c: char) -> (r: bool)
    ensures
        r == space(c),
{
    let u: u32 = c as u32;
    (9 <= u && u <= 13) || u == 32 || u == 0x85 || u == 0xA0 || u == 0x1680 || (0x2000 <= u && u
        <= 0x200A) || u == 0x2028 || u == 0x2029 || u == 0x202F || u == 0x205F || u == 0x3000
}

/// `s` without the whitespace around it.
pub open spec fn trimmed(s: Seq<char>) -> Seq<char>
    decreases s.len(),
{
    if s.len() == 0 {
        s
    } else if space(s[0]) {
        trimmed(s.drop_first())
    } else if space(s.last()) {
        trimmed(s.drop_last())
    } else {
        s
    }
}

/// Take the whitespace off both ends.
pub fn trim(s: &str) -> (r: String)
    ensures
        r@ == trimmed(s@),
{
    let cs = chars_of(s);
    let mut a: usize = 0;
    let mut b: usize = cs.len();
    assert(s@.subrange(0, b as int) =~= s@);
    while a < b && is_space(cs[a])
        invariant
            a <= b == cs@.len(),
            cs@ == s@,
            trimmed(s@.subrange(a as int, b as int)) == trimmed(s@),
        decreases b - a,
    {
        assert(s@.subrange(a as int, b as int).drop_first() =~= s@.subrange(a + 1, b as int));
        a += 1;
    }
    while a < b && is_space(cs[b - 1])
        invariant
            a <= b <= cs@.len(),
            cs@ == s@,
            a < b ==> !space(s@[a as int]),
            trimmed(s@.subrange(a as int, b as int)) == trimmed(s@),
        decreases b - a,
    {
        assert(s@.subrange(a as int, b as int).drop_last() =~= s@.subrange(a as int, b - 1));
        b -= 1;
    }
    let r = string_of(&cs, a, b);
    r
}

/// `s` without any `c` behind it.
pub open spec fn trim_tail(s: Seq<char>, c: char) -> Seq<char>
    decreases s.len(),
{
    if s.len() > 0 && s.last() == c {
        trim_tail(s.drop_last(), c)
    } else {
        s
    }
}

/// Take every `c` off the end.
pub fn trim_end_char(s: &str, c: char) -> (r: String)
    ensures
        r@ == trim_tail(s@, c),
{
    let cs = chars_of(s);
    let mut n: usize = cs.len();
    assert(s@.take(n as int) =~= s@);
    while n > 0 && cs[n - 1] == c
        invariant
            n <= cs@.len(),
            cs@ == s@,
            trim_tail(s@.take(n as int), c) == trim_tail(s@, c),
        decreases n,
    {
        assert(s@.take(n as int).drop_last() =~= s@.take(n - 1));
        n -= 1;
    }
    let r = string_of(&cs, 0, n);
    assert(r@ =~= s@.take(n as int));
    r
}

// ---------- substrings ----------

/// Whether `t` occurs in `s`.
pub open spec fn occurs(s: Seq<char>, t: Seq<char>) -> bool
    decreases s.len(),
{
    t.is_prefix_of(s) || (s.len() > 0 && occurs(s.drop_first(), t))
}

/// Whether `t` occurs in `s`.
pub fn contains_str(s: &str, t: &str) -> (r: bool)
    ensures
        r == occurs(s@, t@),
{
    let cs = chars_of(s);
    let ts = chars_of(t);
    let mut i: usize = 0;
    assert(s@.skip(0) =~= s@);
    while i <= cs.len()
        invariant
            i <= cs@.len() + 1,
            cs@ == s@,
            ts@ == t@,
            i <= cs@.len() ==> occurs(s@, t@) == occurs(s@.skip(i as int), t@),
            i == cs@.len() + 1 ==> !occurs(s@, t@),
        decreases cs@.len() + 1 - i,
    {
        proof {
            let u = s@.skip(i as int);
            if i + t@.len() <= s@.len() {
                assert(u.subrange(0, t@.len() as int) =~= s@.subrange(i as int, i + t@.len()));
            }
            assert(u.len() > 0 ==> u.drop_first() =~= s@.skip(i + 1));
        }
        if matches_at(&cs, &ts, i) {
            return true;
        }
        if i == cs.len() {
            return false;
        }
        i += 1;
    }
    false
}

/// `s` with every occurrence of `from`, from the front on, replaced by `to`. An empty `from`
/// occurs before every character and at the end.
pub open spec fn replaced(s: Seq<char>, from: Seq<char>, to: Seq<char>) -> Seq<char>
    decreases s.len(),
{
    if from.len() == 0 {
        if s.len() == 0 {
            to
        } else {
            to + seq![s[0]] + replaced(s.drop_first(), from, to)
        }
    } else if from.is_prefix_of(s) {
        to + replaced(s.skip(from.len() as int), from, to)
    } else if s.len() == 0 {
        s
    } else {
        seq![s[0]] + replaced(s.drop_first(), from, to)
    }
}

/// Replace every occurrence of `from` by `to`.
pub fn replace(s: &str, from: &str, to: &str) -> (r: String)
    ensures
        r@ == replaced(s@, from@, to@),
{
    let cs = chars_of(s);
    let fs = chars_of(from);
    let mut out = String::new();
    let mut i: usize = 0;
    assert(s@.skip(0) =~= s@);
    assert(out@ + replaced(s@, from@, to@) =~= replaced(s@, from@, to@));
    while i < cs.len()
        invariant
            i <= cs@.len(),
            cs@ == s@,
            fs@ == from@,
            out@ + replaced(s@.skip(i as int), from@, to@) == replaced(s@, from@, to@),
        decreases cs@.len() - i,
    {
        let ghost u = s@.skip(i as int);
        let ghost o = out@;
        proof {
            if i + from@.len() <= s@.len() {
                assert(u.subrange(0, from@.len() as int) =~= s@.subrange(
                    i as int,
                    i + from@.len(),
                ));
                assert(u.skip(from@.len() as int) =~= s@.skip(i + from@.len()));
            }
            assert(u.drop_first() =~= s@.skip(i + 1));
        }
        if fs.len() == 0 {
            out.push_str(to);
            out.push(cs[i]);
            i += 1;
            assert(out@ + replaced(s@.skip(i as int), from@, to@) =~= o + replaced(u, from@, to@));
        } else if matches_at(&cs, &fs, i) {
            out.push_str(to);
            i += fs.len();
            assert(out@ + replaced(s@.skip(i as int), from@, to@) =~= o + replaced(u, from@, to@));
        } else {
            out.push(cs[i]);
            i += 1;
            assert(out@ + replaced(s@.skip(i as int), from@, to@) =~= o + replaced(u, from@, to@));
        }
    }
    let ghost o = out@;
    assert(s@.skip(i as int).len() == 0);
    if fs.len() == 0 {
        out.push_str(to);
    }
    assert(out@ =~= o + replaced(s@.skip(i as int), from@, to@));
    out
}

// ---------- lists of strings ----------

/// The parts with `sep` between them.
pub open spec fn joined(parts: Seq<Seq<char>>, sep: Seq<char>) -> Seq<char>
    decreases parts.len(),
{
    if parts.len() == 0 {
        Seq::empty()
    } else if parts.len() == 1 {
        parts[0]
    } else {
        joined(parts.drop_last(), sep) + sep + parts.last()
    }
}

/// Join strings, with `sep` between them.
pub fn join(parts: &Vec<String>, sep: &str) -> (r: String)
    ensures
        r@ == joined(views(parts@), sep@),
{
    let ghost ps = views(parts@);
    let mut out = String::new();
    let mut i: usize = 0;
    assert(out@ =~= joined(ps.take(0), sep@));
    while i < parts.len()
        invariant
            i <= parts@.len(),
            ps == views(parts@),
            out@ == joined(ps.take(i as int), sep@),
        decreases parts@.len() - i,
    {
        proof {
            let t = ps.take(i + 1);
            assert(t.drop_last() =~= ps.take(i as int));
            assert(t.last() == parts@[i as int]@);
        }
        if i > 0 {
            out.push_str(sep);
        }
        out.push_str(parts[i].as_str());
        i += 1;
        assert(out@ =~= joined(ps.take(i as int), sep@));
    }
    assert(ps.take(i as int) =~= ps);
    out
}

// ---------- case ----------

/// `str::to_uppercase`: the upper case of a string.
pub uninterp spec fn upper(s: Seq<char>) -> Seq<char>;

/// `str::to_uppercase` depends on the string alone: what it yields is named `upper`.
#[verifier::external_body]
pub(crate) fn uppercase(s: &str) -> (r: String)
    ensures
        r@ == upper(s@),
{
    s.to_uppercase()
}

/// `str::to_lowercase`: the lower case of a string.
pub uninterp spec fn lower(s: Seq<char>) -> Seq<char>;

/// `str::to_lowercase` depends on the string alone: what it yields is named `lower`.
#[verifier::external_body]
pub(crate) fn lowercase(s: &str) -> (r: String)
    ensures
        r@ == lower(s@),
{
    s.to_lowercase()
}

/// A character with an ASCII capital made small.
pub open spec fn ascii_small(c: char) -> char {
    if 'A' <= c <= 'Z' {
        ((c as u8) + 32) as char
    } else {
        c
    }
}

/// Whether two strings differ at most in the case of ASCII letters.
pub open spec fn same_ascii_case(a: Seq<char>, b: Seq<char>) -> bool {
    a.len() == b.len() && forall|i: int|
        0 <= i < a.len() ==> ascii_small(#[trigger] a[i]) == ascii_small(b[i])
}

fn small(c: char) -> (r: char)
    ensures
        r == ascii_small(c),
{
    if 'A' <= c && c <= 'Z' {
        ((c as u8) + 32) as char
    } else {
        c
    }
}

/// Compare two strings, the case of ASCII letters aside.
pub fn eq_ignore_ascii_case(a: &str, b: &str) -> (r: bool)
    ensures
        r == same_ascii_case(a@, b@),
{
    let x = chars_of(a);
    let y = chars_of(b);
    if x.len() != y.len() {
        return false;
    }
    let mut i: usize = 0;
    while i < x.len()
        invariant
            i <= x@.len() == y@.len(),
            x@ == a@,
            y@ == b@,
            forall|j: int| 0 <= j < i ==> ascii_small(#[trigger] a@[j]) == ascii_small(b@[j]),
        decreases x@.len() - i,
    {
        if small(x[i]) != small(y[i]) {
            assert(ascii_small(a@[i as int]) != ascii_small(b@[i as int]));
            return false;
        }
        i += 1;
    }
    true
}

} // verus!
