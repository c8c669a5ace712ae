//! Wants that are kept: a plan that worked, with the changing bits left as placeholders.

use crate::config::{keep_present, present};
use crate::cut::{contains_str, cut, ends_with, occurs, pieces, split, split_once, trim, trimmed, without_suffix};
use crate::pred::{args_view, lookup, Pred, PredV, Val, ValV};
use crate::pred_parse::parse_spec;
use crate::pred_print::pred_text;
use crate::pred_unroll::{in_place, subst, subst_args, subst_list, subst_pred};
use crate::text::{chars_of, clone_strings, concat, debug_str, debug_text, list_has, owned, same, views};
use crate::validate::{pred_vars, vars_in, vars_in_args, vars_in_list, vars_in_pred};
use vstd::prelude::*;

verus! {

/// A plan that worked, kept so it can be run again with different values.
#[derive(Debug)]
pub struct Recipe {
    pub name: String,
    /// The app this plan was made for. Running it elsewhere is usually a mistake.
    pub app: String,
    /// What it was originally asked to do.
    pub goal: String,
    /// Placeholder names this recipe expects, in the order they were found.
    pub params: Vec<String>,
    /// Wants, with `$placeholders` where the values change.
    pub wants: Vec<String>,
}

// ---------- where recipes are ----------

/// A file in a directory.
pub open spec fn in_dir(dir: Seq<char>, file: Seq<char>) -> Seq<char> {
    if dir.len() == 0 || dir.last() == '/' {
        dir + file
    } else {
        dir + "/"@ + file
    }
}

/// Where a recipe is: a name looks in the recipes directory; anything with a separator or a
/// `.json` suffix is a path.
pub open spec fn recipe_path(dir: Seq<char>, name: Seq<char>) -> Seq<char> {
    if without_suffix(name, ".json"@) is Some || occurs(name, "/"@) {
        name
    } else {
        in_dir(dir, name + ".json"@)
    }
}

impl Recipe {
    /// Where a recipe is.
    pub fn path_for(dir: &str, name_or_path: &str) -> (r: String)
        ensures
            r@ == recipe_path(dir@, name_or_path@),
    {
        if ends_with(name_or_path, ".json") || contains_str(name_or_path, "/") {
            return owned(name_or_path);
        }
        let ds = chars_of(dir);
        let n = ds.len();
        let mut t = owned(dir);
        if !(n == 0 || ds[n - 1] == '/') {
            t.push_str("/");
        }
        let file = concat(name_or_path, ".json");
        t.push_str(file.as_str());
        t
    }

    /// Keep wants as a recipe.
    pub fn keep(name: &str, app: &str, goal: &str, wants: &Vec<String>) -> (r: Recipe)
        ensures
            r.name@ == name@,
            r.app@ == app@,
            r.goal@ == goal@,
            views(r.wants@) == views(wants@),
            views(r.params@) == placeholders_of(views(wants@)),
    {
        Recipe {
            name: owned(name),
            app: owned(app),
            goal: owned(goal),
            params: placeholders(wants),
            wants: clone_strings(wants),
        }
    }
}

/// Where the app is: what is given, else what the recipe remembered, else the usual place.
pub fn app_for(given: Option<&str>, recipe: Option<&Recipe>) -> (r: String)
    ensures
        r@ == (match (given, recipe) {
            (Some(a), _) => a@,
            (None, Some(x)) => if x.app@.len() > 0 {
                x.app@
            } else {
                DEFAULT_APP@
            },
            (None, None) => DEFAULT_APP@,
        }),
{
    match (given, recipe) {
        (Some(a), _) => owned(a),
        (None, Some(x)) => {
            proof {
                reveal_strlit("");
                if x.app@.len() == 0 {
                    assert(x.app@ =~= ""@);
                }
            }
            if same(x.app.as_str(), "") {
                owned(DEFAULT_APP)
            } else {
                x.app.clone()
            }
        },
        (None, None) => owned(DEFAULT_APP),
    }
}

/// Where the app usually is.
pub const DEFAULT_APP: &'static str = "http://127.0.0.1:47310";

// ---------- wants in a file ----------

/// What a line wants: nothing behind a `#`, no whitespace around it.
pub open spec fn want_on(line: Seq<char>) -> Seq<char> {
    trimmed(pieces(line, '#')[0])
}

/// The wants of a file: one per line, comments and blank lines ignored.
pub open spec fn wants_in(text: Seq<char>) -> Seq<Seq<char>> {
    present(pieces(text, '\n').map_values(|l: Seq<char>| want_on(l)))
}

/// The wants of a file: one per line, comments and blank lines ignored.
pub fn read_wants(text: &str) -> (r: Vec<String>)
    ensures
        views(r@) == wants_in(text@),
{
    let lines = split(text, '\n');
    let ghost all = pieces(text@, '\n').map_values(|l: Seq<char>| want_on(l));
    let mut out: Vec<String> = Vec::new();
    let mut i: usize = 0;
    assert(views(lines@).len() == lines@.len());
    assert(views(out@) =~= all.take(0));
    while i < lines.len()
        invariant
            i <= lines@.len() == all.len(),
            views(lines@) == pieces(text@, '\n'),
            all == pieces(text@, '\n').map_values(|l: Seq<char>| want_on(l)),
            views(out@) == all.take(i as int),
        decreases lines@.len() - i,
    {
        let parts = split(lines[i].as_str(), '#');
        assert(views(lines@)[i as int] == lines@[i as int]@);
        assert(views(parts@).len() == parts@.len());
        let w = if parts.len() > 0 {
            assert(views(parts@)[0] == parts@[0]@);
            trim(parts[0].as_str())
        } else {
            assert(pieces(lines@[i as int]@, '#').len() > 0);
            String::new()
        };
        let ghost o = views(out@);
        out.push(w);
        i += 1;
        assert(views(out@) =~= o.push(w@));
        assert(views(out@) =~= all.take(i as int));
    }
    assert(all.take(i as int) =~= all);
    keep_present(&out)
}

// ---------- placeholders ----------

/// The variables that wants mention, where they are predicates at all.
pub open spec fn variables(wants: Seq<Seq<char>>) -> Seq<Seq<char>>
    decreases wants.len(),
{
    if wants.len() == 0 {
        Seq::empty()
    } else {
        variables(wants.drop_last()) + (match parse_spec(wants.last()) {
            Ok(p) => vars_in_pred(p),
            Err(_) => Seq::empty(),
        })
    }
}

/// Each name where it is found first, and not again.
pub open spec fn once_each(ns: Seq<Seq<char>>) -> Seq<Seq<char>>
    decreases ns.len(),
{
    if ns.len() == 0 {
        Seq::empty()
    } else {
        let rest = once_each(ns.drop_last());
        if rest.contains(ns.last()) {
            rest
        } else {
            rest.push(ns.last())
        }
    }
}

/// Every placeholder that wants still expect, once each, in the order they are found.
pub open spec fn placeholders_of(wants: Seq<Seq<char>>) -> Seq<Seq<char>> {
    once_each(variables(wants))
}

/// Every placeholder that wants still expect, once each, in the order they are found.
pub fn placeholders(wants: &Vec<String>) -> (r: Vec<String>)
    ensures
        views(r@) == placeholders_of(views(wants@)),
{
    let ghost ws = views(wants@);
    let mut out: Vec<String> = Vec::new();
    let mut i: usize = 0;
    assert(views(out@) =~= variables(ws.take(0)));
    while i < wants.len()
        invariant
            i <= wants@.len() == ws.len(),
            ws == views(wants@),
            views(out@) == variables(ws.take(i as int)),
        decreases wants@.len() - i,
    {
        proof {
            assert(ws.take(i + 1).drop_last() =~= ws.take(i as int));
            assert(ws.take(i + 1).last() == wants@[i as int]@);
        }
        let ghost o = views(out@);
        match Pred::parse(wants[i].as_str()) {
            Ok(p) => {
                let mut vs = pred_vars(&p);
                let ghost n = views(vs@);
                out.append(&mut vs);
                assert(views(out@) =~= o + n);
            },
            Err(_) => {
                assert(o + Seq::<Seq<char>>::empty() =~= o);
            },
        }
        i += 1;
    }
    assert(ws.take(i as int) =~= ws);
    let ghost vs = views(out@);
    let mut found: Vec<String> = Vec::new();
    let mut j: usize = 0;
    assert(views(found@) =~= once_each(vs.take(0)));
    while j < out.len()
        invariant
            j <= out@.len() == vs.len(),
            vs == views(out@),
            views(found@) == once_each(vs.take(j as int)),
        decreases out@.len() - j,
    {
        let ghost o = views(found@);
        proof {
            assert(vs.take(j + 1).drop_last() =~= vs.take(j as int));
            assert(vs.take(j + 1).last() == out@[j as int]@);
        }
        if !list_has(&found, out[j].as_str()) {
            let n = owned(out[j].as_str());
            found.push(n);
            assert(views(found@) =~= o.push(n@));
        }
        j += 1;
    }
    assert(vs.take(j as int) =~= vs);
    found
}

/// A want with its placeholders filled in; what is no predicate stays as it is.
pub open spec fn want_filled(want: Seq<char>, bind: Seq<(Seq<char>, ValV)>) -> Seq<char> {
    match parse_spec(want) {
        Ok(p) => pred_text(subst_pred(p, bind)),
        Err(_) => want,
    }
}

/// Wants with their placeholders filled in.
pub open spec fn filled(wants: Seq<Seq<char>>, bind: Seq<(Seq<char>, ValV)>) -> Seq<Seq<char>> {
    wants.map_values(|w: Seq<char>| want_filled(w, bind))
}

/// Replace placeholders with the values that are given.
pub fn fill(wants: &Vec<String>, bind: &Vec<(String, Val)>) -> (r: Vec<String>)
    ensures
        views(r@) == filled(views(wants@), args_view(bind@)),
{
    let ghost b = args_view(bind@);
    let ghost all = filled(views(wants@), b);
    let mut out: Vec<String> = Vec::new();
    let mut i: usize = 0;
    assert(views(out@) =~= all.take(0));
    while i < wants.len()
        invariant
            i <= wants@.len() == all.len(),
            b == args_view(bind@),
            all == filled(views(wants@), b),
            views(out@) == all.take(i as int),
        decreases wants@.len() - i,
    {
        assert(views(wants@)[i as int] == wants@[i as int]@);
        let w = match Pred::parse(wants[i].as_str()) {
            Ok(p) => p.subst(bind).to_string(),
            Err(_) => wants[i].clone(),
        };
        let ghost o = views(out@);
        out.push(w);
        i += 1;
        assert(views(out@) =~= o.push(w@));
        assert(views(out@) =~= all.take(i as int));
    }
    assert(all.take(i as int) =~= all);
    out
}

// ---------- values that are given ----------

pub open spec fn is_digit(c: char) -> bool {
    '0' <= c <= '9'
}

/// What digits amount to.
pub open spec fn digits_value(s: Seq<char>) -> nat
    decreases s.len(),
{
    if s.len() == 0 {
        0
    } else {
        digits_value(s.drop_last()) * 10 + (s.last() as int - '0' as int) as nat
    }
}

pub open spec fn all_digits(s: Seq<char>) -> bool {
    s.len() > 0 && forall|i: int| 0 <= i < s.len() ==> is_digit(#[trigger] s[i])
}

/// The signed 64-bit number that a text is: a sign or none, and digits.
pub open spec fn number_in(s: Seq<char>) -> Option<int> {
    let signed = s.len() > 0 && (s[0] == '-' || s[0] == '+');
    let d = if signed {
        s.skip(1)
    } else {
        s
    };
    let v = if signed && s[0] == '-' {
        -(digits_value(d) as int)
    } else {
        digits_value(d) as int
    };
    if all_digits(d) && i64::MIN <= v <= i64::MAX {
        Some(v)
    } else {
        None
    }
}

proof fn digits_grow(s: Seq<char>, k: int)
    requires
        0 <= k <= s.len(),
        all_digits(s),
    ensures
        digits_value(s.take(k)) <= digits_value(s),
    decreases s.len(),
{
    if k == s.len() {
        assert(s.take(k) =~= s);
    } else {
        let d = s.drop_last();
        if d.len() > 0 {
            assert forall|i: int| 0 <= i < d.len() implies is_digit(#[trigger] d[i]) by {
                assert(d[i] == s[i]);
            }
            digits_grow(d, k);
        } else {
            assert(s.take(k).len() == 0);
        }
        assert(d.take(k) =~= s.take(k));
    }
}

/// The signed 64-bit number that a text is.
pub fn read_number(s: &str) -> (r: Option<i64>)
    ensures
        match r {
            Some(n) => number_in(s@) == Some(n as int),
            None => number_in(s@) is None,
        },
{
    let cs = chars_of(s);
    let n = cs.len();
    let signed = n > 0 && (cs[0] == '-' || cs[0] == '+');
    let negative = n > 0 && cs[0] == '-';
    let from: usize = if signed {
        1
    } else {
        0
    };
    let ghost d = if signed {
        s@.skip(1)
    } else {
        s@
    };
    assert(d =~= s@.skip(from as int));
    if from == n {
        return None;
    }
    let mut v: i128 = 0;
    let mut i: usize = from;
    assert(d.take(0) =~= Seq::<char>::empty());
    while i < n
        invariant
            from <= i <= n == cs@.len(),
            from <= 1,
            cs@ == s@,
            d == s@.skip(from as int),
            0 <= v <= 0x8000_0000_0000_0000,
            v == digits_value(d.take(i - from)),
            forall|k: int| 0 <= k < i - from ==> is_digit(#[trigger] d[k]),
            signed == (n > 0 && (cs@[0] == '-' || cs@[0] == '+')),
            from == (if signed {
                1usize
            } else {
                0
            }),
        decreases n - i,
    {
        let c = cs[i];
        assert(d[i - from] == c);
        if !('0' <= c && c <= '9') {
            assert(!is_digit(d[i - from]));
            return None;
        }
        let x: i128 = (c as u32 - '0' as u32) as i128;
        proof {
            let p = d.take(i - from + 1);
            assert(p.drop_last() =~= d.take(i - from));
            assert(p.last() == c);
            assert(x == (c as int - '0' as int));
        }
        let w: i128 = v * 10 + x;
        assert(digits_value(d.take(i - from + 1)) == w);
        if w > 0x8000_0000_0000_0000 {
            proof {
                assert(s@.skip(0) =~= s@);
                if all_digits(d) {
                    digits_grow(d, i - from + 1);
                    assert(digits_value(d) > 0x8000_0000_0000_0000);
                }
            }
            return None;
        }
        v = w;
        i += 1;
    }
    assert(d.take(i - from) =~= d);
    if negative {
        Some((-v) as i64)
    } else if v <= 0x7FFF_FFFF_FFFF_FFFF {
        Some(v as i64)
    } else {
        None
    }
}

/// The value that is meant: a number where it is one, else the text.
pub open spec fn value_of(s: Seq<char>) -> ValV {
    match number_in(s) {
        Some(n) => ValV::Num(n),
        None => ValV::Str(s),
    }
}

/// What `KEY=VALUE` pairs bind, the later before the earlier, so that the later is found; or what
/// is wrong with the first that is none.
pub open spec fn bound(sets: Seq<Seq<char>>) -> Result<Seq<(Seq<char>, ValV)>, Seq<char>>
    decreases sets.len(),
{
    if sets.len() == 0 {
        Ok(Seq::empty())
    } else {
        match bound(sets.drop_last()) {
            Err(e) => Err(e),
            Ok(b) => match cut(sets.last(), '=') {
                None => Err("--set wants KEY=VALUE, got "@ + debug_text(sets.last())),
                Some((k, v)) => Ok(seq![(trimmed(k), value_of(v))] + b),
            },
        }
    }
}

proof fn bound_stuck(sets: Seq<Seq<char>>, k: int)
    requires
        0 <= k <= sets.len(),
        bound(sets.take(k)) is Err,
    ensures
        bound(sets) == bound(sets.take(k)),
    decreases sets.len(),
{
    if k == sets.len() {
        assert(sets.take(k) =~= sets);
    } else {
        assert(sets.drop_last().take(k) =~= sets.take(k));
        bound_stuck(sets.drop_last(), k);
    }
}

pub open spec fn bound_view(r: Result<Vec<(String, Val)>, String>) -> Result<
    Seq<(Seq<char>, ValV)>,
    Seq<char>,
> {
    match r {
        Ok(b) => Ok(args_view(b@)),
        Err(e) => Err(e@),
    }
}

/// What `KEY=VALUE` pairs bind.
pub fn bindings(sets: &Vec<String>) -> (r: Result<Vec<(String, Val)>, String>)
    ensures
        bound_view(r) == bound(views(sets@)),
{
    let ghost ss = views(sets@);
    let mut out: Vec<(String, Val)> = Vec::new();
    let mut i: usize = 0;
    assert(args_view(out@) =~= Seq::<(Seq<char>, ValV)>::empty());
    assert(ss.take(0) =~= Seq::<Seq<char>>::empty());
    while i < sets.len()
        invariant
            i <= sets@.len() == ss.len(),
            ss == views(sets@),
            bound(ss.take(i as int)) == Ok::<Seq<(Seq<char>, ValV)>, Seq<char>>(args_view(out@)),
        decreases sets@.len() - i,
    {
        proof {
            assert(ss.take(i + 1).drop_last() =~= ss.take(i as int));
            assert(ss.take(i + 1).last() == sets@[i as int]@);
        }
        match split_once(sets[i].as_str(), '=') {
            None => {
                let mut e = owned("--set wants KEY=VALUE, got ");
                e.push_str(debug_str(sets[i].as_str()).as_str());
                proof {
                    bound_stuck(ss, i + 1);
                }
                return Err(e);
            },
            Some((k, v)) => {
                let val = match read_number(v.as_str()) {
                    Some(n) => Val::Num(n),
                    None => Val::Str(v),
                };
                let x = (trim(k.as_str()), val);
                let ghost xv = (x.0@, x.1@);
                let ghost o = args_view(out@);
                out.insert(0, x);
                assert(args_view(out@) =~= seq![xv] + o);
            },
        }
        i += 1;
    }
    assert(ss.take(i as int) =~= ss);
    Ok(out)
}

// ---------- laws ----------

/// Whether no value that is bound mentions a variable.
pub open spec fn ground(bind: Seq<(Seq<char>, ValV)>) -> bool {
    forall|i: int| 0 <= i < bind.len() ==> vars_in((#[trigger] bind[i]).1).len() == 0
}

proof fn ground_found(bind: Seq<(Seq<char>, ValV)>, n: Seq<char>)
    requires
        ground(bind),
    ensures
        lookup(bind, n) matches Some(v) ==> vars_in(v).len() == 0,
    decreases bind.len(),
{
    if bind.len() > 0 {
        assert(vars_in(bind[0].1).len() == 0);
        let t = bind.drop_first();
        assert forall|i: int| 0 <= i < t.len() implies vars_in((#[trigger] t[i]).1).len() == 0 by {
            assert(t[i] == bind[i + 1]);
        }
        ground_found(t, n);
    }
}

/// Whether every one of some variables is unbound.
pub open spec fn unbound(vs: Seq<Seq<char>>, bind: Seq<(Seq<char>, ValV)>) -> bool {
    forall|i: int| 0 <= i < vs.len() ==> lookup(bind, #[trigger] vs[i]) is None
}

proof fn unbound_add(a: Seq<Seq<char>>, b: Seq<Seq<char>>, bind: Seq<(Seq<char>, ValV)>)
    requires
        unbound(a, bind),
        unbound(b, bind),
    ensures
        unbound(a + b, bind),
{
    assert forall|i: int| 0 <= i < (a + b).len() implies lookup(bind, #[trigger] (a + b)[i])
        is None by {
        if i < a.len() {
            assert((a + b)[i] == a[i]);
        } else {
            assert((a + b)[i] == b[i - a.len()]);
        }
    }
}

proof fn filled_val(v: ValV, bind: Seq<(Seq<char>, ValV)>)
    requires
        ground(bind),
    ensures
        unbound(vars_in(subst(v, bind)), bind),
    decreases v,
{
    match v {
        ValV::Var(n, _) => {
            ground_found(bind, n);
            match lookup(bind, n) {
                Some(x) => {
                    assert(subst(v, bind) == x);
                },
                None => {
                    assert(subst(v, bind) == v);
                    assert(vars_in(v) =~= seq![n]);
                    assert(unbound(seq![n], bind));
                },
            }
        },
        ValV::List(xs) => {
            filled_list(xs, bind);
        },
        ValV::Each(xs) => {
            filled_list(xs, bind);
        },
        ValV::All(x) => {
            filled_val(*x, bind);
        },
        ValV::Entity(p) => {
            filled_args(p.args, bind);
            filled_val(p.value, bind);
            unbound_add(
                vars_in_args(subst_args(p.args, bind)),
                vars_in(subst(p.value, bind)),
                bind,
            );
            let q = subst_pred(*p, bind);
            assert(subst(v, bind) == ValV::Entity(Box::new(q)));
            assert(vars_in_pred(q) == vars_in_args(q.args) + vars_in(q.value));
            assert(vars_in(subst(v, bind)) == vars_in_pred(q));
        },
        _ => {},
    }
}

proof fn vars_in_list_add(a: Seq<ValV>, b: Seq<ValV>)
    ensures
        vars_in_list(a + b) == vars_in_list(a) + vars_in_list(b),
    decreases b.len(),
{
    if b.len() == 0 {
        assert(a + b =~= a);
        assert(vars_in_list(a) + vars_in_list(b) =~= vars_in_list(a));
    } else {
        vars_in_list_add(a, b.drop_last());
        assert((a + b).drop_last() =~= a + b.drop_last());
        assert(vars_in_list(a + b) =~= vars_in_list(a) + vars_in_list(b));
    }
}

proof fn filled_list(xs: Seq<ValV>, bind: Seq<(Seq<char>, ValV)>)
    requires
        ground(bind),
    ensures
        unbound(vars_in_list(subst_list(xs, bind)), bind),
    decreases xs,
{
    if xs.len() > 0 {
        let d = xs.drop_last();
        filled_list(d, bind);
        filled_val(xs[xs.len() - 1], bind);
        let v = xs[xs.len() - 1];
        let t = in_place(v, bind, subst(v, bind));
        if let ValV::Var(n, _) = v {
            ground_found(bind, n);
        }
        if t != seq![subst(v, bind)] {
            assert(lookup(bind, v->Var_0) == Some(ValV::List(t)));
            assert(vars_in(ValV::List(t)) == vars_in_list(t));
        } else {
            assert(t.drop_last() =~= Seq::<ValV>::empty());
            assert(vars_in_list(t.drop_last()) =~= Seq::<Seq<char>>::empty());
            assert(t[t.len() - 1] == subst(v, bind));
            assert(vars_in_list(t) =~= vars_in(subst(v, bind)));
        }
        vars_in_list_add(subst_list(d, bind), t);
        unbound_add(vars_in_list(subst_list(d, bind)), vars_in_list(t), bind);
    }
}

proof fn filled_args(xs: Seq<(Seq<char>, ValV)>, bind: Seq<(Seq<char>, ValV)>)
    requires
        ground(bind),
    ensures
        unbound(vars_in_args(subst_args(xs, bind)), bind),
    decreases xs,
{
    if xs.len() > 0 {
        let d = xs.drop_last();
        filled_args(d, bind);
        filled_val(xs[xs.len() - 1].1, bind);
        let s = subst_args(xs, bind);
        assert(s.drop_last() =~= subst_args(d, bind));
        assert(s[s.len() - 1].1 == subst(xs[xs.len() - 1].1, bind));
        unbound_add(vars_in_args(s.drop_last()), vars_in(s[s.len() - 1].1), bind);
    }
}

/// Filling in leaves only the placeholders that were given no value.
pub proof fn filling_leaves_only_the_unbound(p: PredV, bind: Seq<(Seq<char>, ValV)>)
    requires
        ground(bind),
    ensures
        unbound(vars_in_pred(subst_pred(p, bind)), bind),
{
    filled_args(p.args, bind);
    filled_val(p.value, bind);
    unbound_add(vars_in_args(subst_args(p.args, bind)), vars_in(subst(p.value, bind)), bind);
}

/// What is given on the command line never brings in a placeholder of its own.
pub proof fn given_values_are_ground(sets: Seq<Seq<char>>)
    ensures
        bound(sets) matches Ok(b) ==> ground(b),
    decreases sets.len(),
{
    if sets.len() > 0 {
        given_values_are_ground(sets.drop_last());
        match bound(sets) {
            Ok(b) => {
                let rest = bound(sets.drop_last())->Ok_0;
                assert forall|i: int| 0 <= i < b.len() implies vars_in((#[trigger] b[i]).1).len()
                    == 0 by {
                    if i > 0 {
                        assert(b[i] == rest[i - 1]);
                    }
                }
            },
            Err(_) => {},
        }
    }
}

} // verus!
