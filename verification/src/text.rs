//! Strings as sequences of characters: building, comparing, cutting and joining.

use vstd::prelude::*;

verus! {

/// `String::push`: the character is added at the end.
pub assume_specification[ String::push ](s: &mut String, c: char)
    ensures
        final(s)@ == old(s)@.push(c),
;

/// `String::push_str`: the characters of `t` are added at the end.
pub assume_specification[ String::push_str ](s: &mut String, t: &str)
    ensures
        final(s)@ == old(s)@ + t@,
;

/// `==` on `str`: the two hold the same characters.
pub assume_specification[ <str as PartialEq>::eq ](a: &str, b: &str) -> (r: bool)
    ensures
        r == (a@ == b@),
;

/// What each string of a sequence holds.
pub open spec fn views(v: Seq<String>) -> Seq<Seq<char>> {
    v.map_values(|s: String| s@)
}

/// Whether two strings hold the same characters.
pub fn same(a: &str, b: &str) -> (r: bool)
    ensures
        r == (a@ == b@),
{
    a.eq(b)
}

/// An owned copy of `s`.
pub fn owned(s: &str) -> (r: String)
    ensures
        r@ == s@,
{
    s.to_owned()
}

/// The characters of `s`, in order.
pub fn chars_of(s: &str) -> (r: Vec<char>)
    ensures
        r@ == s@,
{
    let mut out: Vec<char> = Vec::new();
    for c in it: s.chars()
        invariant
            out@ == s@.take(it.index() as int),
            it.seq() == s@,
    {
        out.push(c);
    }
    out
}

/// The string of the characters `cs[from..to]`.
pub fn string_of(cs: &Vec<char>, from: usize, to: usize) -> (r: String)
    requires
        from <= to <= cs@.len(),
    ensures
        r@ == cs@.subrange(from as int, to as int),
{
    let mut out = String::new();
    let mut i: usize = from;
    while i < to
        invariant
            from <= i <= to <= cs@.len(),
            out@ == cs@.subrange(from as int, i as int),
        decreases to - i,
    {
        out.push(cs[i]);
        i += 1;
        assert(out@ =~= cs@.subrange(from as int, i as int));
    }
    out
}

/// `a` followed by `b`.
pub fn concat(a: &str, b: &str) -> (r: String)
    ensures
        r@ == a@ + b@,
{
    let mut out = owned(a);
    out.push_str(b);
    out
}

/// A copy of a list of strings.
pub fn clone_strings(v: &Vec<String>) -> (r: Vec<String>)
    ensures
        r@ == v@,
        views(r@) == views(v@),
{
    let mut out: Vec<String> = Vec::new();
    let mut i: usize = 0;
    while i < v.len()
        invariant
            i <= v@.len(),
            out@ == v@.take(i as int),
        decreases v@.len() - i,
    {
        out.push(v[i].clone());
        i += 1;
        assert(out@ =~= v@.take(i as int));
    }
    assert(v@.take(i as int) =~= v@);
    out
}

/// Whether a list holds a string.
pub fn list_has(v: &Vec<String>, s: &str) -> (r: bool)
    ensures
        r == views(v@).contains(s@),
{
    let mut i: usize = 0;
    while i < v.len()
        invariant
            i <= v@.len(),
            forall|j: int| 0 <= j < i ==> views(v@)[j] != s@,
        decreases v@.len() - i,
    {
        if same(v[i].as_str(), s) {
            assert(views(v@)[i as int] == s@);
            return true;
        }
        i += 1;
    }
    false
}

// ---------- numbers ----------

/// The character of a decimal digit.
pub open spec fn digit(d: nat) -> char {
    (('0' as nat) + d) as char
}

/// A natural number in decimal, without leading zeros.
pub open spec fn dec(n: nat) -> Seq<char>
    decreases n,
{
    if n < 10 {
        seq![digit(n)]
    } else {
        dec(n / 10).push(digit(n % 10))
    }
}

/// An integer in decimal, with a minus sign where it is negative.
pub open spec fn int_dec(n: int) -> Seq<char> {
    if n < 0 {
        seq!['-'] + dec((-n) as nat)
    } else {
        dec(n as nat)
    }
}

fn digit_char(d: u8) -> (c: char)
    requires
        d < 10,
    ensures
        c == digit(d as nat),
{
    (48 + d) as char
}

/// Append a number in decimal.
pub fn push_dec(out: &mut String, n: u128)
    ensures
        final(out)@ == old(out)@ + dec(n as nat),
    decreases n,
{
    if n >= 10 {
        push_dec(out, n / 10);
    }
    out.push(digit_char((n % 10) as u8));
    proof {
        assert(out@ =~= old(out)@ + dec(n as nat));
    }
}

/// Append an integer in decimal.
pub fn push_int(out: &mut String, n: i128)
    ensures
        final(out)@ == old(out)@ + int_dec(n as int),
{
    if n < 0 {
        out.push('-');
        let m: u128 = ((-(n + 1)) as u128) + 1;
        push_dec(out, m);
        proof {
            assert(out@ =~= old(out)@ + int_dec(n as int));
        }
    } else {
        push_dec(out, n as u128);
    }
}

/// A number in decimal.
pub fn dec_string(n: u128) -> (r: String)
    ensures
        r@ == dec(n as nat),
{
    let mut out = String::new();
    push_dec(&mut out, n);
    assert(out@ =~= dec(n as nat));
    out
}

/// An integer in decimal.
pub fn int_string(n: i128) -> (r: String)
    ensures
        r@ == int_dec(n as int),
{
    let mut out = String::new();
    push_int(&mut out, n);
    assert(out@ =~= int_dec(n as int));
    out
}

// ---------- order ----------

/// The order of strings: by the first character that differs, a proper prefix first.
pub open spec fn lt(a: Seq<char>, b: Seq<char>) -> bool
    decreases a.len(),
{
    if b.len() == 0 {
        false
    } else if a.len() == 0 {
        true
    } else if a[0] != b[0] {
        a[0] < b[0]
    } else {
        lt(a.drop_first(), b.drop_first())
    }
}

/// No string comes before itself.
pub proof fn lt_irreflexive(a: Seq<char>)
    ensures
        !lt(a, a),
    decreases a.len(),
{
    if a.len() > 0 {
        lt_irreflexive(a.drop_first());
    }
}

/// Of two different strings one comes first.
pub proof fn lt_total(a: Seq<char>, b: Seq<char>)
    ensures
        lt(a, b) || a == b || lt(b, a),
    decreases a.len(),
{
    if a.len() > 0 && b.len() > 0 && a[0] == b[0] {
        lt_total(a.drop_first(), b.drop_first());
        if a.drop_first() == b.drop_first() {
            assert(a =~= seq![a[0]] + a.drop_first());
            assert(b =~= seq![b[0]] + b.drop_first());
        }
    } else if a.len() == 0 && b.len() == 0 {
        assert(a =~= b);
    }
}

/// The order of strings is transitive.
pub proof fn lt_transitive(a: Seq<char>, b: Seq<char>, c: Seq<char>)
    requires
        lt(a, b),
        lt(b, c),
    ensures
        lt(a, c),
    decreases a.len(),
{
    if a.len() > 0 && b.len() > 0 && c.len() > 0 && a[0] == b[0] && b[0] == c[0] {
        lt_transitive(a.drop_first(), b.drop_first(), c.drop_first());
    }
}

proof fn lt_skip(a: Seq<char>, b: Seq<char>, k: int)
    requires
        0 <= k <= a.len(),
        k <= b.len(),
        forall|j: int| 0 <= j < k ==> a[j] == b[j],
    ensures
        lt(a, b) == lt(a.skip(k), b.skip(k)),
    decreases k,
{
    if k == 0 {
        assert(a.skip(0) =~= a);
        assert(b.skip(0) =~= b);
    } else {
        let a1 = a.drop_first();
        let b1 = b.drop_first();
        assert(a[0] == b[0]);
        assert forall|j: int| 0 <= j < k - 1 implies a1[j] == b1[j] by {
            assert(a[j + 1] == b[j + 1]);
        }
        lt_skip(a1, b1, k - 1);
        assert(a1.skip(k - 1) =~= a.skip(k));
        assert(b1.skip(k - 1) =~= b.skip(k));
    }
}

/// Whether `a` comes before `b`.
pub fn str_lt(a: &str, b: &str) -> (r: bool)
    ensures
        r == lt(a@, b@),
{
    let x = chars_of(a);
    let y = chars_of(b);
    let mut i: usize = 0;
    while i < x.len() && i < y.len() && x[i] == y[i]
        invariant
            i <= x@.len(),
            i <= y@.len(),
            x@ == a@,
            y@ == b@,
            forall|j: int| 0 <= j < i ==> x@[j] == y@[j],
        decreases x@.len() - i,
    {
        i += 1;
    }
    proof {
        lt_skip(a@, b@, i as int);
    }
    if i >= y.len() {
        false
    } else if i >= x.len() {
        true
    } else {
        x[i] < y[i]
    }
}

// ---------- sorted sets ----------

/// Strictly ascending, so nothing occurs twice.
pub open spec fn ascending(s: Seq<Seq<char>>) -> bool {
    forall|i: int, j: int| 0 <= i < j < s.len() ==> lt(#[trigger] s[i], #[trigger] s[j])
}

/// `x` added to an ascending sequence, at its place, unless it is there.
pub open spec fn insert_asc(s: Seq<Seq<char>>, x: Seq<char>) -> Seq<Seq<char>>
    decreases s.len(),
{
    if s.len() == 0 {
        seq![x]
    } else if s.last() == x {
        s
    } else if lt(s.last(), x) {
        s.push(x)
    } else {
        insert_asc(s.drop_last(), x).push(s.last())
    }
}

/// What is in `xs`, once each, in ascending order.
pub open spec fn sort_dedup(xs: Seq<Seq<char>>) -> Seq<Seq<char>>
    decreases xs.len(),
{
    if xs.len() == 0 {
        Seq::empty()
    } else {
        insert_asc(sort_dedup(xs.drop_last()), xs.last())
    }
}

/// Inserting keeps the sequence ascending and adds exactly the one element.
pub proof fn insert_asc_ok(s: Seq<Seq<char>>, x: Seq<char>)
    requires
        ascending(s),
    ensures
        ascending(insert_asc(s, x)),
        forall|y: Seq<char>| #[trigger]
            insert_asc(s, x).contains(y) <==> (s.contains(y) || y == x),
    decreases s.len(),
{
    let r = insert_asc(s, x);
    if s.len() == 0 {
        assert(r[0] == x);
    } else if s.last() == x {
        assert(s[s.len() - 1] == x);
    } else if lt(s.last(), x) {
        assert forall|i: int, j: int| 0 <= i < j < r.len() implies lt(#[trigger] r[i], #[trigger] r[j]) by {
            if j == s.len() {
                if i < s.len() - 1 {
                    lt_transitive(s[i], s.last(), x);
                }
            }
        }
        assert forall|y: Seq<char>| #[trigger] r.contains(y) <==> (s.contains(y) || y == x) by {
            if s.contains(y) {
                let k = choose|k: int| 0 <= k < s.len() && s[k] == y;
                assert(r[k] == y);
            }
            if y == x {
                assert(r[s.len() as int] == y);
            }
        }
    } else {
        let t = s.drop_last();
        assert(ascending(t)) by {
            assert forall|i: int, j: int| 0 <= i < j < t.len() implies lt(#[trigger] t[i], #[trigger] t[j]) by {
                assert(t[i] == s[i] && t[j] == s[j]);
            }
        }
        insert_asc_ok(t, x);
        let u = insert_asc(t, x);
        lt_total(s.last(), x);
        assert forall|i: int, j: int| 0 <= i < j < r.len() implies lt(#[trigger] r[i], #[trigger] r[j]) by {
            if j == u.len() {
                assert(r[j] == s.last());
                assert(u.contains(u[i]));
                if t.contains(u[i]) {
                    let k = choose|k: int| 0 <= k < t.len() && t[k] == u[i];
                    assert(s[k] == u[i]);
                    assert(lt(s[k], s[s.len() - 1]));
                }
            } else {
                assert(r[i] == u[i] && r[j] == u[j]);
            }
        }
        assert forall|y: Seq<char>| #[trigger] r.contains(y) <==> (s.contains(y) || y == x) by {
            if r.contains(y) {
                let k = choose|k: int| 0 <= k < r.len() && r[k] == y;
                if k < u.len() {
                    assert(u[k] == y);
                    assert(u.contains(y));
                    if t.contains(y) {
                        let m = choose|m: int| 0 <= m < t.len() && t[m] == y;
                        assert(s[m] == y);
                    }
                } else {
                    assert(s[s.len() - 1] == y);
                }
            }
            if s.contains(y) || y == x {
                if y == x {
                    assert(u.contains(y));
                } else {
                    let m = choose|m: int| 0 <= m < s.len() && s[m] == y;
                    if m < t.len() {
                        assert(t[m] == y);
                        assert(u.contains(y));
                    } else {
                        assert(r[u.len() as int] == y);
                    }
                }
                if u.contains(y) {
                    let k = choose|k: int| 0 <= k < u.len() && u[k] == y;
                    assert(r[k] == y);
                }
            }
        }
    }
}

/// Sorting and removing duplicates keeps exactly the elements, ascending.
pub proof fn sort_dedup_ok(xs: Seq<Seq<char>>)
    ensures
        ascending(sort_dedup(xs)),
        forall|y: Seq<char>| #[trigger] sort_dedup(xs).contains(y) <==> xs.contains(y),
    decreases xs.len(),
{
    if xs.len() > 0 {
        let t = xs.drop_last();
        sort_dedup_ok(t);
        insert_asc_ok(sort_dedup(t), xs.last());
        assert forall|y: Seq<char>| #[trigger] sort_dedup(xs).contains(y) <==> xs.contains(y) by {
            if xs.contains(y) {
                let k = choose|k: int| 0 <= k < xs.len() && xs[k] == y;
                if k < t.len() {
                    assert(t[k] == y);
                }
            }
            if t.contains(y) {
                let k = choose|k: int| 0 <= k < t.len() && t[k] == y;
                assert(xs[k] == y);
            }
            if y == xs.last() {
                assert(xs[xs.len() - 1] == y);
            }
        }
    }
}

proof fn insert_asc_at(s: Seq<Seq<char>>, x: Seq<char>, k: int)
    requires
        ascending(s),
        0 <= k <= s.len(),
        k > 0 ==> lt(s[k - 1], x),
        forall|j: int| k <= j < s.len() ==> lt(x, #[trigger] s[j]),
    ensures
        insert_asc(s, x) == s.insert(k, x),
    decreases s.len(),
{
    if s.len() == 0 {
        assert(s.insert(k, x) =~= seq![x]);
    } else if k == s.len() {
        lt_irreflexive(x);
        assert(s.insert(k, x) =~= s.push(x));
    } else {
        let t = s.drop_last();
        assert(lt(x, s[s.len() - 1]));
        lt_irreflexive(x);
        if lt(s.last(), x) {
            lt_transitive(x, s.last(), x);
        }
        assert forall|i: int, j: int| 0 <= i < j < t.len() implies lt(#[trigger] t[i], #[trigger] t[j]) by {
            assert(t[i] == s[i] && t[j] == s[j]);
        }
        assert forall|j: int| k <= j < t.len() implies lt(x, #[trigger] t[j]) by {
            assert(t[j] == s[j]);
        }
        insert_asc_at(t, x, k);
        assert(s.insert(k, x) =~= t.insert(k, x).push(s.last()));
    }
}

/// Add a string to an ascending list, at its place, unless it is there.
pub fn insert_sorted(v: &mut Vec<String>, x: String)
    requires
        ascending(views(old(v)@)),
    ensures
        views(final(v)@) == insert_asc(views(old(v)@), x@),
        ascending(views(final(v)@)),
{
    let ghost s = views(v@);
    proof {
        insert_asc_ok(s, x@);
    }
    let mut k: usize = v.len();
    while k > 0 && !str_lt(v[k - 1].as_str(), x.as_str())
        invariant
            k <= v@.len(),
            s == views(v@),
            ascending(s),
            forall|j: int| k <= j < s.len() ==> lt(x@, #[trigger] s[j]),
            v@ == old(v)@,
        decreases k,
    {
        if same(v[k - 1].as_str(), x.as_str()) {
            proof {
                insert_asc_present(s, x@, k - 1);
            }
            return;
        }
        proof {
            lt_total(s[k - 1], x@);
        }
        k -= 1;
    }
    proof {
        insert_asc_at(s, x@, k as int);
    }
    v.insert(k, x);
    proof {
        assert(views(v@) =~= s.insert(k as int, x@));
    }
}

proof fn insert_asc_present(s: Seq<Seq<char>>, x: Seq<char>, k: int)
    requires
        ascending(s),
        0 <= k < s.len(),
        s[k] == x,
    ensures
        insert_asc(s, x) == s,
    decreases s.len(),
{
    if s.last() != x {
        let t = s.drop_last();
        assert(lt(s[k], s[s.len() - 1]));
        if lt(s.last(), x) {
            lt_transitive(x, s.last(), x);
            lt_irreflexive(x);
        }
        assert forall|i: int, j: int| 0 <= i < j < t.len() implies lt(#[trigger] t[i], #[trigger] t[j]) by {
            assert(t[i] == s[i] && t[j] == s[j]);
        }
        assert(t[k] == x);
        insert_asc_present(t, x, k);
        assert(t.push(s.last()) =~= s);
    }
}

/// The strings of `xs`, once each, in ascending order.
pub fn sorted_unique(xs: &Vec<String>) -> (r: Vec<String>)
    ensures
        views(r@) == sort_dedup(views(xs@)),
        ascending(views(r@)),
{
    let mut out: Vec<String> = Vec::new();
    let mut i: usize = 0;
    assert(views(out@) =~= Seq::<Seq<char>>::empty());
    assert(views(xs@).take(0) =~= Seq::<Seq<char>>::empty());
    while i < xs.len()
        invariant
            i <= xs@.len(),
            ascending(views(out@)),
            views(out@) == sort_dedup(views(xs@).take(i as int)),
        decreases xs@.len() - i,
    {
        insert_sorted(&mut out, xs[i].clone());
        proof {
            let p = views(xs@).take(i + 1);
            assert(p.drop_last() =~= views(xs@).take(i as int));
            assert(p.last() == xs@[i as int]@);
        }
        i += 1;
    }
    assert(views(xs@).take(i as int) =~= views(xs@));
    out
}

// ---------- quoting ----------

/// A string as it is written in a literal, in double quotes: what `{:?}` gives for it.
pub uninterp spec fn debug_text(s: Seq<char>) -> Seq<char>;

/// `{:?}` of a string depends on the string alone: what it yields is named `debug_text`.
#[verifier::external_body]
pub(crate) fn debug_str(s: &str) -> (r: String)
    ensures
        r@ == debug_text(s@),
{
    format!("{s:?}")
}

/// Quoted strings in brackets, with commas between them.
pub open spec fn debug_list_text(xs: Seq<Seq<char>>) -> Seq<char> {
    seq!['['] + debug_items(xs) + seq![']']
}

pub open spec fn debug_items(xs: Seq<Seq<char>>) -> Seq<char>
    decreases xs.len(),
{
    if xs.len() == 0 {
        Seq::empty()
    } else if xs.len() == 1 {
        debug_text(xs[0])
    } else {
        debug_items(xs.drop_last()) + ", "@ + debug_text(xs.last())
    }
}

/// Quoted strings in brackets, with commas between them.
pub fn debug_list(xs: &Vec<String>) -> (r: String)
    ensures
        r@ == debug_list_text(views(xs@)),
{
    let ghost vs = views(xs@);
    let mut out = String::new();
    out.push('[');
    let mut i: usize = 0;
    assert(out@ =~= seq!['['] + debug_items(vs.take(0)));
    while i < xs.len()
        invariant
            i <= xs@.len(),
            vs == views(xs@),
            out@ == seq!['['] + debug_items(vs.take(i as int)),
        decreases xs@.len() - i,
    {
        proof {
            assert(vs.take(i + 1).drop_last() =~= vs.take(i as int));
            assert(vs.take(i + 1).last() == xs@[i as int]@);
        }
        if i > 0 {
            out.push_str(", ");
        }
        out.push_str(debug_str(xs[i].as_str()).as_str());
        i += 1;
        assert(out@ =~= seq!['['] + debug_items(vs.take(i as int)));
    }
    assert(vs.take(i as int) =~= vs);
    out.push(']');
    assert(out@ =~= debug_list_text(vs));
    out
}

} // verus!
