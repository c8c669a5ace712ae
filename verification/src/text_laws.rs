//! Taking texts apart and putting them together, and what is read off them.

use crate::config::{arms_in, names_in, present, raised};
use crate::cut::{
    cut, joined, occurs, pieces, pos, space, trim_back, trim_tail, trimmed, without_prefix,
    without_suffix,
};
use crate::events::{event_of, front_trimmed, line_read, reading};
use crate::json::{member, JsonV};
use crate::pred::{lookup, PredV, ValV};
use crate::pred_parse::{parse_spec, ParseErrorV};
use crate::recipes::{
    all_digits, bound, digits_value, filled, once_each, placeholders_of, recipe_path, value_of,
    variables, want_filled, want_on, wants_in,
};
use crate::text::{dec, digit, int_dec};
use crate::validate::vars_in_pred;
use vstd::prelude::*;

verus! {

// ---------- taking apart ----------

proof fn pos_is_first(s: Seq<char>, c: char)
    ensures
        pos(s, c) <= s.len(),
        s.contains(c) <==> pos(s, c) < s.len(),
        pos(s, c) < s.len() ==> s[pos(s, c) as int] == c,
        forall|i: int| 0 <= i < pos(s, c) ==> #[trigger] s[i] != c,
    decreases s.len(),
{
    if s.len() > 0 && s[0] != c {
        let t = s.drop_first();
        pos_is_first(t, c);
        assert forall|i: int| 0 <= i < pos(s, c) implies #[trigger] s[i] != c by {
            if i > 0 {
                assert(t[i - 1] == s[i]);
            }
        }
        if s.contains(c) {
            let k = choose|k: int| 0 <= k < s.len() && s[k] == c;
            assert(t[k - 1] == c);
        }
        if pos(t, c) < t.len() {
            assert(s[pos(s, c) as int] == t[pos(t, c) as int]);
        }
    } else if s.len() > 0 {
        assert(s[0] == c);
    }
}

/// A text is cut at the first separator: what stands before it holds none, and the two parts and
/// the separator make the text.
pub proof fn a_cut_is_at_the_first(s: Seq<char>, c: char)
    ensures
        cut(s, c) is None <==> !s.contains(c),
        cut(s, c) matches Some((a, b)) ==> s == a + seq![c] + b && !a.contains(c),
{
    pos_is_first(s, c);
    if let Some((a, b)) = cut(s, c) {
        assert(s =~= a + seq![c] + b);
        if a.contains(c) {
            let k = choose|k: int| 0 <= k < a.len() && a[k] == c;
            assert(s[k] == c);
        }
    }
}

/// Whatever is put together around a separator comes apart there.
pub proof fn a_cut_undoes_a_join(a: Seq<char>, c: char, b: Seq<char>)
    requires
        !a.contains(c),
    ensures
        cut(a + seq![c] + b, c) == Some((a, b)),
{
    let s = a + seq![c] + b;
    pos_is_first(s, c);
    assert(s[a.len() as int] == c);
    let p = pos(s, c) as int;
    if p < a.len() {
        assert(a[p] == s[p]);
        assert(a.contains(c));
    }
    assert(s.take(p) =~= a);
    assert(s.skip(p + 1) =~= b);
}

proof fn joined_front(x: Seq<char>, ps: Seq<Seq<char>>, sep: Seq<char>)
    requires
        ps.len() > 0,
    ensures
        joined(seq![x] + ps, sep) == x + sep + joined(ps, sep),
    decreases ps.len(),
{
    let all = seq![x] + ps;
    assert(all.last() == ps.last());
    if ps.len() == 1 {
        assert(all.drop_last() =~= seq![x]);
        assert(joined(seq![x], sep) == x);
        assert(all.drop_last().len() == 1);
    } else {
        let d = ps.drop_last();
        assert(all.drop_last() =~= seq![x] + d);
        joined_front(x, d, sep);
        assert(x + sep + joined(d, sep) + sep + ps.last() =~= x + sep + (joined(d, sep) + sep
            + ps.last()));
    }
}

/// The pieces of a text hold no separator, and with separators between them they are the text.
pub proof fn pieces_make_the_text(s: Seq<char>, c: char, i: int)
    ensures
        pieces(s, c).len() > 0,
        joined(pieces(s, c), seq![c]) == s,
        0 <= i < pieces(s, c).len() ==> !pieces(s, c)[i].contains(c),
    decreases s.len(),
{
    pos_is_first(s, c);
    if s.contains(c) {
        let p = pos(s, c) as int;
        let a = s.take(p);
        let b = s.skip(p + 1);
        pieces_make_the_text(b, c, i - 1);
        joined_front(a, pieces(b, c), seq![c]);
        assert(s =~= a + seq![c] + b);
        if a.contains(c) {
            let k = choose|k: int| 0 <= k < a.len() && a[k] == c;
            assert(s[k] == c);
        }
        if 0 < i < pieces(s, c).len() {
            assert(pieces(s, c)[i] == pieces(b, c)[i - 1]);
        }
    }
}

/// Only whitespace.
pub open spec fn blank(s: Seq<char>) -> bool {
    forall|i: int| 0 <= i < s.len() ==> space(#[trigger] s[i])
}

/// Trimming takes whitespace off both ends, all of it, and nothing else.
pub proof fn only_whitespace_is_trimmed(s: Seq<char>) -> (r: (Seq<char>, Seq<char>))
    ensures
        s == r.0 + trimmed(s) + r.1,
        blank(r.0) && blank(r.1),
        trimmed(s).len() > 0 ==> !space(trimmed(s)[0]) && !space(trimmed(s).last()),
    decreases s.len(),
{
    if s.len() == 0 {
        assert(s =~= Seq::<char>::empty() + s + Seq::<char>::empty());
        (Seq::empty(), Seq::empty())
    } else if space(s[0]) {
        let d = s.drop_first();
        let (a, b) = only_whitespace_is_trimmed(d);
        let x = seq![s[0]] + a;
        assert(trimmed(s) == trimmed(d));
        assert(s =~= seq![s[0]] + d);
        assert(seq![s[0]] + (a + trimmed(d) + b) =~= x + trimmed(d) + b);
        (x, b)
    } else if space(s.last()) {
        let d = s.drop_last();
        let (a, b) = only_whitespace_is_trimmed(d);
        let y = b.push(s.last());
        assert(trimmed(s) == trimmed(d));
        assert(s =~= d.push(s.last()));
        assert((a + trimmed(d) + b).push(s.last()) =~= a + trimmed(d) + y);
        (a, y)
    } else {
        assert(s =~= Seq::<char>::empty() + s + Seq::<char>::empty());
        (Seq::empty(), Seq::empty())
    }
}

/// What counts as whitespace among the ASCII characters.
pub proof fn ascii_whitespace(c: char)
    ensures
        (c as u32) < 128 ==> (space(c) <==> c == ' ' || c == '\t' || c == '\n' || c == '\r' || c
            as u32 == 11 || c as u32 == 12),
{
}

/// Taking a character off the end takes all of them off, and nothing else.
pub proof fn a_tail_is_trimmed(s: Seq<char>, c: char)
    ensures
        trim_tail(s, c).is_prefix_of(s),
        trim_tail(s, c).len() > 0 ==> trim_tail(s, c).last() != c,
        forall|i: int| trim_tail(s, c).len() <= i < s.len() ==> #[trigger] s[i] == c,
    decreases s.len(),
{
    if s.len() > 0 && s.last() == c {
        a_tail_is_trimmed(s.drop_last(), c);
        assert forall|i: int| trim_tail(s, c).len() <= i < s.len() implies #[trigger] s[i] == c by {
            if i < s.len() - 1 {
                assert(s.drop_last()[i] == s[i]);
            }
        }
        assert(trim_tail(s, c) =~= s.subrange(0, trim_tail(s, c).len() as int));
    } else {
        assert(s =~= s.subrange(0, s.len() as int));
    }
}

/// A text taken off the end is gone from there, however often it stood there.
pub proof fn an_ending_is_trimmed(s: Seq<char>, p: Seq<char>)
    requires
        p.len() > 0,
    ensures
        !p.is_suffix_of(trim_back(s, p)),
        trim_back(s + p, p) == trim_back(s, p),
        !p.is_suffix_of(s) ==> trim_back(s, p) == s,
        trim_back(s, p).is_prefix_of(s),
    decreases s.len(),
{
    let t = s + p;
    assert(t.subrange(t.len() - p.len(), t.len() as int) =~= p);
    assert(p.is_suffix_of(t));
    assert(t.take(t.len() - p.len()) =~= s);
    if p.is_suffix_of(s) {
        let u = s.take(s.len() - p.len());
        an_ending_is_trimmed(u, p);
        assert(trim_back(s, p) =~= s.subrange(0, trim_back(s, p).len() as int));
    } else {
        assert(s =~= s.subrange(0, s.len() as int));
    }
}

/// A prefix or a suffix is taken off exactly where it stands.
pub proof fn what_was_added_is_taken_off(s: Seq<char>, p: Seq<char>)
    ensures
        without_prefix(p + s, p) == Some(s),
        without_suffix(s + p, p) == Some(s),
        without_prefix(s, p) matches Some(r) ==> s == p + r,
        without_suffix(s, p) matches Some(r) ==> s == r + p,
{
    assert((p + s).subrange(0, p.len() as int) =~= p);
    assert((p + s).skip(p.len() as int) =~= s);
    let t = s + p;
    assert(t.subrange(t.len() - p.len(), t.len() as int) =~= p);
    assert(t.take(t.len() - p.len()) =~= s);
    if let Some(r) = without_prefix(s, p) {
        assert(s =~= p + r);
    }
    if let Some(r) = without_suffix(s, p) {
        assert(s =~= r + p);
    }
}

/// A text occurs in another wherever it stands there.
pub proof fn a_text_occurs_where_it_stands(a: Seq<char>, t: Seq<char>, b: Seq<char>)
    ensures
        occurs(a + t + b, t),
    decreases a.len(),
{
    let s = a + t + b;
    if a.len() == 0 {
        assert(s.subrange(0, t.len() as int) =~= t);
    } else {
        assert(s.drop_first() =~= a.drop_first() + t + b);
        a_text_occurs_where_it_stands(a.drop_first(), t, b);
    }
}

/// A text that occurs stands somewhere.
pub proof fn a_text_that_occurs_stands_there(s: Seq<char>, t: Seq<char>) -> (i: int)
    requires
        occurs(s, t),
    ensures
        0 <= i,
        i + t.len() <= s.len(),
        s.subrange(i, i + t.len()) == t,
    decreases s.len(),
{
    if t.is_prefix_of(s) {
        0
    } else {
        let i = a_text_that_occurs_stands_there(s.drop_first(), t);
        assert(s.subrange(i + 1, i + 1 + t.len()) =~= s.drop_first().subrange(i, i + t.len()));
        i + 1
    }
}

// ---------- numbers ----------

proof fn digits_amount(n: nat)
    ensures
        digits_value(dec(n)) == n,
        all_digits(dec(n)),
    decreases n,
{
    if n < 10 {
        let s = seq![digit(n)];
        assert(s.drop_last() =~= Seq::<char>::empty());
        assert(digits_value(s.drop_last()) == 0);
        assert(s.last() as int - '0' as int == n);
        assert(digits_value(s) == n);
    } else {
        digits_amount(n / 10);
        let s = dec(n);
        assert(s.drop_last() =~= dec(n / 10));
        let d = n % 10;
        assert(digit(d) as int - '0' as int == d);
        assert forall|i: int| 0 <= i < s.len() implies crate::recipes::is_digit(
            #[trigger] s[i],
        ) by {
            if i < s.len() - 1 {
                assert(s[i] == dec(n / 10)[i]);
            }
        }
    }
}

/// A number that fits is read as itself; what is no number stays a text.
pub proof fn a_number_is_read_as_itself(n: int, s: Seq<char>, i: int)
    ensures
        i64::MIN <= n <= i64::MAX ==> value_of(int_dec(n)) == ValV::Num(n),
        s.len() == 0 ==> value_of(s) == ValV::Str(s),
        0 < i < s.len() && !('0' <= s[i] <= '9') ==> value_of(s) == ValV::Str(s),
        s.len() > 0 && !('0' <= s[0] <= '9') && s[0] != '-' && s[0] != '+' ==> value_of(s)
            == ValV::Str(s),
{
    if i64::MIN <= n <= i64::MAX {
        let t = int_dec(n);
        if n < 0 {
            digits_amount((-n) as nat);
            assert(t.skip(1) =~= dec((-n) as nat));
        } else {
            digits_amount(n as nat);
            assert(crate::recipes::is_digit(t[0]));
        }
    }
    if 0 < i < s.len() && !('0' <= s[i] <= '9') {
        assert(s.skip(1)[i - 1] == s[i]);
        assert(!crate::recipes::is_digit(s.skip(1)[i - 1]));
        assert(!crate::recipes::is_digit(s[i]));
    }
    if s.len() > 0 && !('0' <= s[0] <= '9') {
        assert(!crate::recipes::is_digit(s[0]));
    }
}

// ---------- recipes ----------

/// What a `KEY=VALUE` binds is found under its key, and a later one takes its place.
pub proof fn the_last_setting_counts(sets: Seq<Seq<char>>, k: Seq<char>, v: Seq<char>, key: Seq<char>)
    requires
        bound(sets) is Ok,
        !k.contains('='),
    ensures
        bound(sets.push(k + seq!['='] + v)) matches Ok(b) && lookup(b, trimmed(k)) == Some(
            value_of(v),
        ) && (key != trimmed(k) ==> lookup(b, key) == lookup(bound(sets)->Ok_0, key)),
{
    let all = sets.push(k + seq!['='] + v);
    a_cut_undoes_a_join(k, '=', v);
    assert(all.drop_last() =~= sets);
    assert(all.last() == k + seq!['='] + v);
    let old = bound(sets)->Ok_0;
    let b = seq![(trimmed(k), value_of(v))] + old;
    assert(bound(all) == Ok::<Seq<(Seq<char>, ValV)>, Seq<char>>(b));
    assert(b[0] == (trimmed(k), value_of(v)));
    assert(b.drop_first() =~= old);
    assert(b.skip(1) =~= old);
    if key != trimmed(k) {
        crate::pred::lookup_skip(b, key, 1);
    }
}

/// What is no `KEY=VALUE` is refused.
pub proof fn a_setting_needs_a_key(sets: Seq<Seq<char>>, s: Seq<char>)
    requires
        !s.contains('='),
    ensures
        bound(sets.push(s)) is Err,
{
    assert(sets.push(s).drop_last() =~= sets);
    assert(sets.push(s).last() == s);
}

/// A name is looked up among the recipes, a path is taken as it is.
pub proof fn a_recipe_is_found_by_name(dir: Seq<char>, name: Seq<char>, a: Seq<char>, b: Seq<char>)
    ensures
        recipe_path(dir, name + ".json"@) == name + ".json"@,
        recipe_path(dir, a + "/"@ + b) == a + "/"@ + b,
        !name.contains('/') && !(".json"@.is_suffix_of(name)) && dir.len() > 0 && dir.last() != '/'
            ==> recipe_path(dir, name) == dir + "/"@ + (name + ".json"@),
        !name.contains('/') && !(".json"@.is_suffix_of(name)) && (dir.len() == 0 || dir.last()
            == '/') ==> recipe_path(dir, name) == dir + (name + ".json"@),
{
    what_was_added_is_taken_off(name, ".json"@);
    a_text_occurs_where_it_stands(a, "/"@, b);
    reveal_strlit("/");
    assert("/"@.len() == 1);
    if !name.contains('/') && occurs(name, "/"@) {
        let i = a_text_that_occurs_stands_there(name, "/"@);
        assert(name.subrange(i, i + 1)[0] == "/"@[0]);
        assert(name[i] == '/');
    }
}

/// A line wants what stands on it before a `#`, without the whitespace around it.
pub proof fn a_comment_wants_nothing(want: Seq<char>, comment: Seq<char>)
    requires
        !want.contains('#'),
    ensures
        want_on(want) == trimmed(want),
        want_on(want + seq!['#'] + comment) == trimmed(want),
{
    a_cut_undoes_a_join(want, '#', comment);
    let s = want + seq!['#'] + comment;
    assert(s[want.len() as int] == '#');
    pos_is_first(s, '#');
    assert(pieces(want, '#') =~= seq![want]);
    assert(pieces(s, '#')[0] == s.take(pos(s, '#') as int));
}

proof fn present_is_filter(xs: Seq<Seq<char>>)
    ensures
        present(xs) == xs.filter(|x: Seq<char>| x.len() > 0),
    decreases xs.len(),
{
    reveal(Seq::filter);
    if xs.len() > 0 {
        present_is_filter(xs.drop_last());
    }
}

/// A file wants what its lines want, in their order, and blank lines want nothing.
pub proof fn a_file_wants_line_by_line(text: Seq<char>)
    ensures
        wants_in(text) == pieces(text, '\n').map_values(|l: Seq<char>| want_on(l)).filter(
            |x: Seq<char>| x.len() > 0,
        ),
{
    present_is_filter(pieces(text, '\n').map_values(|l: Seq<char>| want_on(l)));
}

/// Each name once, and each name there is.
pub proof fn every_name_once(ns: Seq<Seq<char>>)
    ensures
        once_each(ns).no_duplicates(),
        forall|n: Seq<char>| #[trigger] once_each(ns).contains(n) <==> ns.contains(n),
    decreases ns.len(),
{
    if ns.len() > 0 {
        let d = ns.drop_last();
        every_name_once(d);
        let r = once_each(d);
        assert forall|n: Seq<char>| #[trigger] once_each(ns).contains(n) <==> ns.contains(n) by {
            if ns.contains(n) {
                let k = choose|k: int| 0 <= k < ns.len() && ns[k] == n;
                if k < d.len() {
                    assert(d[k] == n);
                    assert(r.contains(n));
                    let j = choose|j: int| 0 <= j < r.len() && r[j] == n;
                    assert(once_each(ns)[j] == n);
                } else if !r.contains(n) {
                    assert(once_each(ns)[r.len() as int] == n);
                }
            }
            if once_each(ns).contains(n) {
                let j = choose|j: int| 0 <= j < once_each(ns).len() && once_each(ns)[j] == n;
                if j < r.len() {
                    assert(r[j] == n);
                    assert(once_each(d).contains(n));
                    assert(d.contains(n));
                    let k = choose|k: int| 0 <= k < d.len() && d[k] == n;
                    assert(ns[k] == n);
                } else {
                    assert(ns[ns.len() - 1] == n);
                }
            }
        }
        if !r.contains(ns.last()) {
            assert forall|i: int, j: int|
                0 <= i < j < once_each(ns).len() implies #[trigger] once_each(ns)[i]
                != #[trigger] once_each(ns)[j] by {
                if j == r.len() {
                    assert(r[i] == once_each(ns)[i]);
                }
            }
        }
    }
}

/// Every variable that a want mentions is a placeholder.
pub proof fn every_variable_is_asked_for(
    wants: Seq<Seq<char>>,
    i: int,
    p: PredV,
    n: Seq<char>,
)
    requires
        0 <= i < wants.len(),
        parse_spec(wants[i]) == Ok::<PredV, ParseErrorV>(p),
        vars_in_pred(p).contains(n),
    ensures
        placeholders_of(wants).contains(n),
{
    variable_is_found(wants, i, p, n);
    every_name_once(variables(wants));
}

proof fn variable_is_found(wants: Seq<Seq<char>>, i: int, p: PredV, n: Seq<char>)
    requires
        0 <= i < wants.len(),
        parse_spec(wants[i]) == Ok::<PredV, ParseErrorV>(p),
        vars_in_pred(p).contains(n),
    ensures
        variables(wants).contains(n),
    decreases wants.len(),
{
    let d = wants.drop_last();
    let a = variables(d);
    if i < d.len() {
        assert(d[i] == wants[i]);
        variable_is_found(d, i, p, n);
        let k = choose|k: int| 0 <= k < a.len() && a[k] == n;
        assert(variables(wants)[k] == n);
    } else {
        let b = vars_in_pred(p);
        let k = choose|k: int| 0 <= k < b.len() && b[k] == n;
        assert(variables(wants)[a.len() + k] == n);
    }
}

/// Each want is filled in in its place.
pub proof fn wants_are_filled_in_place(
    wants: Seq<Seq<char>>,
    bind: Seq<(Seq<char>, ValV)>,
    i: int,
)
    ensures
        filled(wants, bind).len() == wants.len(),
        0 <= i < wants.len() ==> filled(wants, bind)[i] == want_filled(wants[i], bind),
        0 <= i < wants.len() && parse_spec(wants[i]) is Err ==> filled(wants, bind)[i] == wants[i],
{
}

// ---------- settings ----------

/// A list of arms is cut at its commas; each name is trimmed and raised, and empty ones are left
/// out.
pub proof fn arms_are_read_off_a_list(s: Seq<char>)
    ensures
        arms_in(s) == pieces(s, ',').map_values(|p: Seq<char>| trimmed(p)).map_values(
            |x: Seq<char>| crate::cut::upper(x),
        ).filter(|x: Seq<char>| x.len() > 0),
{
    present_is_filter(raised(names_in(pieces(s, ','))));
}

// ---------- events ----------

proof fn front_stays(s: Seq<char>)
    ensures
        s.len() > 0 && !space(s[0]) ==> front_trimmed(s) == s,
        s.len() > 0 && !space(s[0]) ==> front_trimmed(seq![' '] + s) == s,
{
    if s.len() > 0 && !space(s[0]) {
        let t = seq![' '] + s;
        assert(t.drop_first() =~= s);
        assert(space(' '));
        assert(front_trimmed(t) == front_trimmed(t.drop_first()));
    }
}

proof fn data_is_added(data: Seq<char>, l: Seq<char>, d: Seq<char>)
    requires
        trim_tail(l, '\r') == "data:"@ + d,
    ensures
        line_read(data, l) == (data + front_trimmed(d), None::<Seq<char>>),
{
    what_was_added_is_taken_off(d, "data:"@);
}

/// A line of data adds to the event, with the space behind its name or without it.
pub proof fn a_line_of_data_is_added(data: Seq<char>, x: Seq<char>)
    requires
        x.len() > 0,
        !space(x[0]),
        x.last() != '\r',
    ensures
        line_read(data, "data:"@ + x) == (data + x, None::<Seq<char>>),
        line_read(data, "data: "@ + x) == (data + x, None::<Seq<char>>),
        line_read(data, ("data: "@ + x).push('\r')) == (data + x, None::<Seq<char>>),
{
    front_stays(x);
    let a = "data:"@ + x;
    let b = "data: "@ + x;
    assert(b =~= "data:"@ + (seq![' '] + x)) by {
        reveal_strlit("data:");
        reveal_strlit("data: ");
    }
    assert(a.last() == x.last());
    assert(b.last() == x.last());
    assert(trim_tail(a, '\r') == a);
    assert(trim_tail(b, '\r') == b);
    assert(b.push('\r').drop_last() =~= b);
    assert(trim_tail(b.push('\r'), '\r') == trim_tail(b, '\r'));
    data_is_added(data, a, x);
    data_is_added(data, b, seq![' '] + x);
    data_is_added(data, b.push('\r'), seq![' '] + x);
}

/// An empty line ends an event that has data, and any other line is passed over.
pub proof fn a_line_is_read(data: Seq<char>, other: Seq<char>)
    requires
        !("data:"@.is_prefix_of(other)),
        other.len() > 0,
        other.last() != '\r',
    ensures
        data.len() > 0 ==> line_read(data, Seq::empty()) == (Seq::<char>::empty(), Some(data)),
        line_read(Seq::empty(), Seq::empty()) == (Seq::<char>::empty(), None::<Seq<char>>),
        line_read(data, other) == (data, None::<Seq<char>>),
{
    reveal_strlit("data:");
    let e = Seq::<char>::empty();
    assert(trim_tail(e, '\r') == e);
    assert("data:"@.len() == 5);
    assert(!("data:"@.is_prefix_of(e)));
    assert(trim_tail(other, '\r') == other);
}

/// An event of one line of data is read whole, and what follows it is read as if nothing had come
/// before.
pub proof fn an_event_is_read_whole(x: Seq<char>, rest: Seq<char>)
    requires
        x.len() > 0,
        !space(x[0]),
        x.last() != '\r',
        !x.contains('\n'),
    ensures
        ({
            let r = reading("data: "@ + x + seq!['\n'] + (seq!['\n'] + rest), Seq::empty());
            let more = reading(rest, Seq::empty());
            r.events == seq![x] + more.events && r.rest == more.rest && r.data == more.data
        }),
{
    reveal_strlit("data: ");
    assert("data: "@.len() == 6);
    reveal_strlit("data:");
    assert("data:"@.len() == 5);
    let e = Seq::<char>::empty();
    let l = "data: "@ + x;
    let tail = seq!['\n'] + rest;
    let t = l + seq!['\n'] + tail;
    assert(!l.contains('\n')) by {
        if l.contains('\n') {
            let k = choose|k: int| 0 <= k < l.len() && l[k] == '\n';
            if k >= 6 {
                assert(x[k - 6] == '\n');
                assert(x.contains('\n'));
            }
        }
    }
    let o = seq!['x'];
    assert(!("data:"@.is_prefix_of(o)));
    a_line_of_data_is_added(e, x);
    a_line_is_read(x, o);
    assert(e + x =~= x);
    a_cut_undoes_a_join(l, '\n', tail);
    assert(tail =~= e + seq!['\n'] + rest);
    a_cut_undoes_a_join(e, '\n', rest);
    assert(reading(t, e) == reading(tail, x));
    assert(reading(tail, x).events == seq![x] + reading(rest, e).events);
}

/// A value is an event where it says what happened to what; without data it has none.
pub proof fn an_event_says_what_happened(v: JsonV)
    ensures
        event_of(v) matches Some(e) ==> member(v, "kind"@) == Some(JsonV::Str(e.kind)) && member(
            v,
            "entity"@,
        ) == Some(JsonV::Str(e.entity)) && member(v, "id"@) == Some(JsonV::Int(e.id as int))
            && member(v, "seq"@) == Some(JsonV::Int(e.seq as int)),
        event_of(v) matches Some(e) ==> (member(v, "data"@) matches Some(d) ==> e.data == d),
        event_of(v) matches Some(e) ==> member(v, "data"@) is None ==> e.data is Null,
        member(v, "kind"@) is None ==> event_of(v) is None,
{
}

} // verus!
