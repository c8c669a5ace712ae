//! Every predicate has a text of its own.
//!
//! A string that ends in a backslash reads like one that goes on. Read from its end, a text leaves
//! no doubt: a quote inside a string stands behind a backslash, and the quote that opens one never
//! does. So every text can be turned into that of a predicate without backslashes, from which the
//! predicate can be told.

use crate::pred::{existence, PredV, ValV};
use crate::pred_laws::{
    as_read_pred_tells, enc_add, enc_char, legible, legible_args, legible_list, legible_pred,
    read_back, writable_head, writable_name,
};
use crate::pred_parse::word_byte;
use crate::pred_print::{args_text, bool_text, escape, list_text, pred_text, val_text};
use crate::text::int_dec;
use vstd::prelude::*;
use vstd::utf8::encode_utf8;

verus! {

/// A value whose names are names and whose numbers fit.
pub open spec fn telling(v: ValV) -> bool
    decreases v,
{
    match v {
        ValV::Num(n) => i64::MIN <= n <= i64::MAX,
        ValV::List(xs) => telling_list(xs),
        ValV::Var(n, _) => writable_name(n),
        ValV::Ref(n, f) => writable_name(n) && writable_name(f),
        ValV::Entity(p) => writable_head(p.entity) && telling_pred(*p),
        ValV::Each(xs) => telling_list(xs),
        ValV::All(x) => telling(*x),
        _ => true,
    }
}

pub open spec fn telling_list(xs: Seq<ValV>) -> bool
    decreases xs,
{
    forall|i: int| #![trigger xs[i]] 0 <= i < xs.len() ==> telling(xs[i])
}

pub open spec fn telling_args(xs: Seq<(Seq<char>, ValV)>) -> bool
    decreases xs,
{
    forall|i: int|
        #![trigger xs[i]]
        0 <= i < xs.len() ==> writable_name(xs[i].0) && telling(xs[i].1)
}

/// A predicate whose names are names and whose numbers fit.
pub open spec fn telling_pred(p: PredV) -> bool
    decreases p,
{
    &&& writable_name(p.entity)
    &&& telling_args(p.args)
    &&& telling(p.value)
    &&& if p.field.len() == 0 {
        p.value == ValV::Bool(true)
    } else {
        writable_name(p.field)
    }
}

// ---------- without backslashes ----------

/// A character without a backslash: `bz` stands for one, and `zz` for `z`.
spec fn coded_char(c: char) -> Seq<char> {
    if c == '\\' {
        seq!['b', 'z']
    } else if c == 'z' {
        seq!['z', 'z']
    } else {
        seq![c]
    }
}

spec fn coded(s: Seq<char>) -> Seq<char>
    decreases s.len(),
{
    if s.len() == 0 {
        Seq::empty()
    } else {
        coded(s.drop_last()) + coded_char(s.last())
    }
}

/// A value with its strings coded.
spec fn bare(v: ValV) -> ValV
    decreases v,
{
    match v {
        ValV::Str(s) => ValV::Str(coded(s)),
        ValV::List(xs) => ValV::List(bare_list(xs)),
        ValV::Entity(p) => ValV::Entity(Box::new(bare_pred(*p))),
        ValV::Each(xs) => ValV::Each(bare_list(xs)),
        ValV::All(x) => ValV::All(Box::new(bare(*x))),
        _ => v,
    }
}

spec fn bare_list(xs: Seq<ValV>) -> Seq<ValV>
    decreases xs,
{
    Seq::new(
        xs.len(),
        |j: int|
            if 0 <= j < xs.len() {
                bare(xs[j])
            } else {
                arbitrary()
            },
    )
}

spec fn bare_args(xs: Seq<(Seq<char>, ValV)>) -> Seq<(Seq<char>, ValV)>
    decreases xs,
{
    Seq::new(
        xs.len(),
        |j: int|
            if 0 <= j < xs.len() {
                (xs[j].0, bare(xs[j].1))
            } else {
                arbitrary()
            },
    )
}

spec fn bare_pred(p: PredV) -> PredV
    decreases p,
{
    PredV { entity: p.entity, args: bare_args(p.args), field: p.field, value: bare(p.value) }
}

proof fn coded_is_clean(s: Seq<char>)
    ensures
        !coded(s).contains('\\'),
    decreases s.len(),
{
    if s.len() > 0 {
        let a = coded(s.drop_last());
        coded_is_clean(s.drop_last());
        if coded(s).contains('\\') {
            let k = choose|k: int| 0 <= k < coded(s).len() && coded(s)[k] == '\\';
            if k < a.len() {
                assert(a[k] == '\\');
            }
        }
    }
}

proof fn coded_tells(s: Seq<char>, t: Seq<char>)
    requires
        coded(s) == coded(t),
    ensures
        s == t,
    decreases s.len(),
{
    let (a, b) = (coded(s), coded(t));
    if s.len() > 0 && t.len() > 0 {
        let (u, v) = (s.drop_last(), t.drop_last());
        let (c, d) = (s.last(), t.last());
        let (x, y) = (coded_char(c), coded_char(d));
        assert(a.last() == x.last() && b.last() == y.last());
        if a.last() == 'z' {
            assert(x.len() == 2 && y.len() == 2);
            assert(a[a.len() - 2] == x[0] && b[b.len() - 2] == y[0]);
        }
        assert(c == d);
        assert(coded(u) =~= a.take(a.len() - x.len()));
        assert(coded(v) =~= b.take(b.len() - y.len()));
        coded_tells(u, v);
        assert(s =~= u.push(c) && t =~= v.push(d));
    } else {
        assert(s.len() > 0 ==> a.len() > 0);
        assert(t.len() > 0 ==> b.len() > 0);
        assert(s =~= t);
    }
}

proof fn bare_legible(v: ValV)
    requires
        telling(v),
    ensures
        legible(bare(v)),
    decreases v, 0nat,
{
    match v {
        ValV::Str(s) => coded_is_clean(s),
        ValV::List(xs) => {
            bare_list_legible(xs);
            assert(bare(v) == ValV::List(bare_list(xs)));
            assert(legible(bare(v)) == legible_list(bare_list(xs)));
        },
        ValV::Each(xs) => {
            bare_list_legible(xs);
            assert(bare(v) == ValV::Each(bare_list(xs)));
            assert(legible(bare(v)) == legible_list(bare_list(xs)));
        },
        ValV::Entity(p) => {
            bare_pred_legible(*p);
            assert(bare(v) == ValV::Entity(Box::new(bare_pred(*p))));
            assert(legible(bare(v)) == (writable_head(p.entity) && legible_pred(bare_pred(*p))));
        },
        ValV::All(x) => {
            bare_legible(*x);
            assert(bare(v) == ValV::All(Box::new(bare(*x))));
            assert(legible(bare(v)) == legible(bare(*x)));
        },
        _ => {},
    }
}

proof fn bare_list_legible(xs: Seq<ValV>)
    requires
        telling_list(xs),
    ensures
        legible_list(bare_list(xs)),
    decreases xs, 0nat,
{
    let ys = bare_list(xs);
    assert forall|i: int| #![trigger ys[i]] 0 <= i < ys.len() implies legible(ys[i]) by {
        assert(ys[i] == bare(xs[i]));
        bare_legible(xs[i]);
    }
}

proof fn bare_pred_legible(p: PredV)
    requires
        telling_pred(p),
    ensures
        legible_pred(bare_pred(p)),
    decreases p, 0nat,
{
    let xs = p.args;
    let ys = bare_args(xs);
    assert forall|i: int| #![trigger ys[i]] 0 <= i < ys.len() implies writable_name(ys[i].0)
        && legible(ys[i].1) by {
        assert(ys[i] == (xs[i].0, bare(xs[i].1)));
        bare_legible(xs[i].1);
    }
    assert(legible_args(ys));
    bare_legible(p.value);
}

proof fn bare_tells(v: ValV, w: ValV)
    requires
        bare(v) == bare(w),
    ensures
        v == w,
    decreases v, 0nat,
{
    match (v, w) {
        (ValV::Str(s), ValV::Str(t)) => coded_tells(s, t),
        (ValV::List(xs), ValV::List(ys)) => {
            assert(bare(v) == ValV::List(bare_list(xs)) && bare(w) == ValV::List(bare_list(ys)));
            bare_list_tells(xs, ys);
        },
        (ValV::Each(xs), ValV::Each(ys)) => {
            assert(bare(v) == ValV::Each(bare_list(xs)) && bare(w) == ValV::Each(bare_list(ys)));
            bare_list_tells(xs, ys);
        },
        (ValV::Entity(p), ValV::Entity(q)) => {
            assert(bare(v) == ValV::Entity(Box::new(bare_pred(*p))));
            assert(bare(w) == ValV::Entity(Box::new(bare_pred(*q))));
            bare_pred_tells(*p, *q);
        },
        (ValV::All(x), ValV::All(y)) => bare_tells(*x, *y),
        _ => {},
    }
}

proof fn bare_list_tells(xs: Seq<ValV>, ys: Seq<ValV>)
    requires
        bare_list(xs) == bare_list(ys),
    ensures
        xs == ys,
    decreases xs, 0nat,
{
    assert(bare_list(xs).len() == xs.len() && bare_list(ys).len() == ys.len());
    assert forall|k: int| 0 <= k < xs.len() implies xs[k] == ys[k] by {
        assert(bare_list(xs)[k] == bare(xs[k]) && bare_list(ys)[k] == bare(ys[k]));
        bare_tells(xs[k], ys[k]);
    }
    assert(xs =~= ys);
}

proof fn bare_pred_tells(p: PredV, q: PredV)
    requires
        bare_pred(p) == bare_pred(q),
    ensures
        p == q,
    decreases p, 0nat,
{
    let (xs, ys) = (p.args, q.args);
    assert(bare_args(xs).len() == xs.len() && bare_args(ys).len() == ys.len());
    assert forall|k: int| 0 <= k < xs.len() implies xs[k] == ys[k] by {
        assert(bare_args(xs)[k] == (xs[k].0, bare(xs[k].1)));
        assert(bare_args(ys)[k] == (ys[k].0, bare(ys[k].1)));
        bare_tells(xs[k].1, ys[k].1);
    }
    assert(xs =~= ys);
    bare_tells(p.value, q.value);
}

// ---------- reading from the end ----------

/// A text with the strings in it coded, read from its end, which lies inside a string or not.
spec fn swept(s: Seq<char>, inside: bool) -> Seq<char>
    decreases s.len(),
{
    if s.len() == 0 {
        Seq::empty()
    } else {
        let c = s.last();
        let r = s.drop_last();
        if c == '\'' {
            if !inside {
                swept(r, true).push('\'')
            } else if r.len() > 0 && r.last() == '\\' {
                swept(r.drop_last(), true) + seq!['\\', '\'']
            } else {
                swept(r, false).push('\'')
            }
        } else if inside {
            swept(r, true) + coded_char(c)
        } else {
            swept(r, false).push(c)
        }
    }
}

/// Without a quote, and outside strings, a text stays as it is.
proof fn swept_copies(l: Seq<char>, w: Seq<char>)
    requires
        !w.contains('\''),
    ensures
        swept(l + w, false) == swept(l, false) + w,
    decreases w.len(),
{
    if w.len() == 0 {
        assert(l + w =~= l);
        assert(swept(l, false) + w =~= swept(l, false));
    } else {
        let u = w.drop_last();
        let c = w.last();
        assert(w[w.len() - 1] == c);
        if u.contains('\'') {
            let k = choose|k: int| 0 <= k < u.len() && u[k] == '\'';
            assert(w[k] == '\'');
        }
        swept_copies(l, u);
        assert((l + w).drop_last() =~= l + u);
        assert((l + w).last() == c);
        assert((swept(l, false) + u).push(c) =~= swept(l, false) + w);
    }
}

proof fn escape_coded(u: Seq<char>, c: char)
    ensures
        c != '\'' ==> escape(u + coded_char(c)) == escape(u) + coded_char(c),
        c == '\'' ==> escape(u + coded_char(c)) == escape(u) + seq!['\\', '\''],
{
    let t = u + coded_char(c);
    if coded_char(c).len() == 1 {
        assert(t.drop_last() =~= u);
        assert(t.last() == c);
        if c != '\'' {
            assert(escape(u).push(c) =~= escape(u) + seq![c]);
        }
    } else {
        let x = coded_char(c)[0];
        let m = u.push(x);
        assert(t.drop_last() =~= m && t.last() == 'z');
        assert(m.drop_last() =~= u && m.last() == x);
        assert(escape(t) == escape(m).push('z'));
        assert(escape(m) == escape(u).push(x));
        assert(escape(u).push(x).push('z') =~= escape(u) + coded_char(c));
    }
}

proof fn swept_inside(l: Seq<char>, s: Seq<char>)
    requires
        l.len() > 0,
        l.last() != '\\',
    ensures
        swept(l.push('\'') + escape(s), true) == swept(l, false).push('\'') + escape(coded(s)),
    decreases s.len(),
{
    let o = l.push('\'');
    let z = swept(l, false).push('\'');
    if s.len() == 0 {
        assert(o + escape(s) =~= o);
        assert(o.drop_last() =~= l && o.last() == '\'');
        assert(z + escape(coded(s)) =~= z);
    } else {
        let u = s.drop_last();
        let c = s.last();
        swept_inside(l, u);
        escape_coded(coded(u), c);
        let e = o + escape(u);
        let t = o + escape(s);
        if c == '\'' {
            assert(t =~= e + seq!['\\', '\'']);
            assert(t.drop_last() =~= e.push('\\') && t.last() == '\'');
            assert(e.push('\\').drop_last() =~= e && e.push('\\').last() == '\\');
            assert(swept(t, true) == swept(e, true) + seq!['\\', '\'']);
            assert(z + escape(coded(u)) + seq!['\\', '\''] =~= z + escape(coded(s)));
        } else {
            assert(t =~= e.push(c));
            assert(t.drop_last() =~= e && t.last() == c);
            assert(z + escape(coded(u)) + coded_char(c) =~= z + escape(coded(s)));
        }
    }
}

proof fn name_has_no_quote(n: Seq<char>)
    requires
        writable_name(n),
    ensures
        !n.contains('\''),
{
    if n.contains('\'') {
        let k = choose|k: int| 0 <= k < n.len() && n[k] == '\'';
        let (a, b) = (n.take(k), n.skip(k + 1));
        assert(n =~= a + (seq!['\''] + b));
        enc_add(a, seq!['\''] + b);
        enc_add(seq!['\''], b);
        enc_char('\'');
        let m = encode_utf8(a).len() as int;
        assert(encode_utf8(n)[m] == 39u8);
        assert(word_byte(encode_utf8(n)[m]));
    }
}

proof fn add_has_no_quote(a: Seq<char>, b: Seq<char>)
    requires
        !a.contains('\''),
        !b.contains('\''),
    ensures
        !(a + b).contains('\''),
{
    let t = a + b;
    if t.contains('\'') {
        let k = choose|k: int| 0 <= k < t.len() && t[k] == '\'';
        if k < a.len() {
            assert(a[k] == '\'');
        } else {
            assert(b[k - a.len()] == '\'');
        }
    }
}

proof fn number_has_no_quote(n: int)
    ensures
        !int_dec(n).contains('\''),
{
    let m = if n < 0 {
        (-n) as nat
    } else {
        n as nat
    };
    crate::code::dec_digits(m);
    let t = int_dec(n);
    if t.contains('\'') {
        let k = choose|k: int| 0 <= k < t.len() && t[k] == '\'';
        if n < 0 {
            assert(k > 0);
            assert(t[k] == crate::text::dec(m)[k - 1]);
        } else {
            assert(t[k] == crate::text::dec(m)[k]);
        }
    }
}

proof fn swept_val(l: Seq<char>, v: ValV)
    requires
        telling(v),
        l.len() > 0,
        l.last() != '\\',
    ensures
        swept(l + val_text(v), false) == swept(l, false) + val_text(bare(v)),
    decreases v, 1nat,
{
    match v {
        ValV::Str(s) => {
            let t = l + val_text(v);
            assert(t.drop_last() =~= l.push('\'') + escape(s));
            assert(t.last() == '\'');
            swept_inside(l, s);
            assert(swept(t, false) =~= swept(l, false) + val_text(bare(v)));
        },
        ValV::Num(n) => {
            number_has_no_quote(n);
            swept_copies(l, int_dec(n));
        },
        ValV::Bool(b) => {
            reveal_strlit("true");
            reveal_strlit("false");
            swept_copies(l, bool_text(b));
        },
        ValV::Var(n, spread) => {
            name_has_no_quote(n);
            reveal_strlit("[]");
            let tail = if spread {
                "[]"@
            } else {
                Seq::empty()
            };
            add_has_no_quote(seq!['$'], n);
            add_has_no_quote(seq!['$'] + n, tail);
            swept_copies(l, val_text(v));
        },
        ValV::Ref(n, f) => {
            name_has_no_quote(n);
            name_has_no_quote(f);
            add_has_no_quote(seq!['$'], n);
            add_has_no_quote(seq!['$'] + n, seq!['.']);
            add_has_no_quote(seq!['$'] + n + seq!['.'], f);
            swept_copies(l, val_text(v));
        },
        ValV::List(xs) => {
            swept_wrapped(l, seq!['['], xs, seq![']']);
            assert(bare(v) == ValV::List(bare_list(xs)));
            assert(l + val_text(v) =~= l + seq!['['] + list_text(xs) + seq![']']);
            assert(swept(l, false) + seq!['['] + list_text(bare_list(xs)) + seq![']'] =~= swept(
                l,
                false,
            ) + val_text(bare(v)));
        },
        ValV::Each(xs) => {
            reveal_strlit("each([");
            reveal_strlit("])");
            swept_wrapped(l, "each(["@, xs, "])"@);
            assert(bare(v) == ValV::Each(bare_list(xs)));
            assert(l + val_text(v) =~= l + "each(["@ + list_text(xs) + "])"@);
            assert(swept(l, false) + "each(["@ + list_text(bare_list(xs)) + "])"@ =~= swept(
                l,
                false,
            ) + val_text(bare(v)));
        },
        ValV::Entity(p) => {
            swept_pred(l, *p);
            assert(bare(v) == ValV::Entity(Box::new(bare_pred(*p))));
            assert(val_text(v) == pred_text(*p));
            assert(val_text(bare(v)) == pred_text(bare_pred(*p)));
        },
        ValV::All(x) => {
            reveal_strlit("all(");
            let a = l + "all("@;
            swept_copies(l, "all("@);
            swept_val(a, *x);
            swept_copies(a + val_text(*x), seq![')']);
            assert(l + val_text(v) =~= a + val_text(*x) + seq![')']);
            assert(bare(v) == ValV::All(Box::new(bare(*x))));
            assert(swept(l, false) + "all("@ + val_text(bare(*x)) + seq![')'] =~= swept(l, false)
                + val_text(bare(v)));
        },
    }
}

/// A list between what opens and what closes it.
proof fn swept_wrapped(l: Seq<char>, open: Seq<char>, xs: Seq<ValV>, close: Seq<char>)
    requires
        telling_list(xs),
        open.len() > 0,
        open.last() != '\\',
        !open.contains('\''),
        !close.contains('\''),
    ensures
        swept(l + open + list_text(xs) + close, false) == swept(l, false) + open + list_text(
            bare_list(xs),
        ) + close,
    decreases xs, 1nat,
{
    swept_copies(l, open);
    swept_list(l + open, xs);
    swept_copies(l + open + list_text(xs), close);
}

proof fn swept_list(l: Seq<char>, xs: Seq<ValV>)
    requires
        telling_list(xs),
        l.len() > 0,
        l.last() != '\\',
    ensures
        swept(l + list_text(xs), false) == swept(l, false) + list_text(bare_list(xs)),
    decreases xs, 0nat,
{
    let bs = bare_list(xs);
    if xs.len() == 0 {
        assert(l + list_text(xs) =~= l);
        assert(swept(l, false) + list_text(bs) =~= swept(l, false));
    } else if xs.len() == 1 {
        swept_val(l, xs[0]);
        assert(bs[0] == bare(xs[0]));
    } else {
        let ys = xs.drop_last();
        let x = xs[xs.len() - 1];
        assert(telling_list(ys)) by {
            assert forall|i: int| #![trigger ys[i]] 0 <= i < ys.len() implies telling(ys[i]) by {
                assert(ys[i] == xs[i]);
            }
        }
        let a = l + list_text(ys) + seq![','];
        swept_list(l, ys);
        swept_copies(l + list_text(ys), seq![',']);
        swept_val(a, x);
        assert(l + list_text(xs) =~= a + val_text(x));
        assert(bs.drop_last() =~= bare_list(ys));
        assert(bs[bs.len() - 1] == bare(x));
        assert(swept(l, false) + list_text(bare_list(ys)) + seq![','] + val_text(bare(x)) =~= swept(
            l,
            false,
        ) + list_text(bs));
    }
}

proof fn swept_arg(l: Seq<char>, x: (Seq<char>, ValV))
    requires
        writable_name(x.0),
        telling(x.1),
    ensures
        swept(l + (x.0 + seq!['='] + val_text(x.1)), false) == swept(l, false) + (x.0 + seq!['=']
            + val_text(bare(x.1))),
    decreases x, 0nat,
{
    let w = x.0 + seq!['='];
    name_has_no_quote(x.0);
    add_has_no_quote(x.0, seq!['=']);
    swept_copies(l, w);
    swept_val(l + w, x.1);
    assert(l + (w + val_text(x.1)) =~= l + w + val_text(x.1));
    assert(swept(l, false) + (w + val_text(bare(x.1))) =~= swept(l, false) + w + val_text(
        bare(x.1),
    ));
}

proof fn swept_args(l: Seq<char>, xs: Seq<(Seq<char>, ValV)>)
    requires
        telling_args(xs),
    ensures
        swept(l + args_text(xs), false) == swept(l, false) + args_text(bare_args(xs)),
    decreases xs, 0nat,
{
    let bs = bare_args(xs);
    if xs.len() == 0 {
        assert(l + args_text(xs) =~= l);
        assert(swept(l, false) + args_text(bs) =~= swept(l, false));
    } else {
        let x = xs[xs.len() - 1];
        let one = x.0 + seq!['='] + val_text(x.1);
        let two = x.0 + seq!['='] + val_text(bare(x.1));
        assert(bs[bs.len() - 1] == (x.0, bare(x.1)));
        if xs.len() == 1 {
            swept_arg(l, x);
        } else {
            let ys = xs.drop_last();
            assert(telling_args(ys)) by {
                assert forall|i: int| #![trigger ys[i]] 0 <= i < ys.len() implies writable_name(
                    ys[i].0,
                ) && telling(ys[i].1) by {
                    assert(ys[i] == xs[i]);
                }
            }
            let a = l + args_text(ys) + seq![','];
            swept_args(l, ys);
            swept_copies(l + args_text(ys), seq![',']);
            swept_arg(a, x);
            assert(l + args_text(xs) =~= a + one);
            assert(bs.drop_last() =~= bare_args(ys));
            assert(swept(l, false) + args_text(bare_args(ys)) + seq![','] + two =~= swept(l, false)
                + args_text(bs));
        }
    }
}

proof fn swept_pred(l: Seq<char>, p: PredV)
    requires
        telling_pred(p),
    ensures
        swept(l + pred_text(p), false) == swept(l, false) + pred_text(bare_pred(p)),
    decreases p, 0nat,
{
    let q = bare_pred(p);
    let z = swept(l, false);
    let open = p.entity + seq!['('];
    name_has_no_quote(p.entity);
    add_has_no_quote(p.entity, seq!['(']);
    swept_copies(l, open);
    let a = l + open;
    swept_args(a, p.args);
    let b = a + args_text(p.args);
    swept_copies(b, seq![')']);
    let h = b + seq![')'];
    let y = z + open + args_text(q.args) + seq![')'];
    assert(swept(h, false) == y);
    if p.field.len() == 0 {
        assert(l + pred_text(p) =~= h);
        assert(z + pred_text(q) =~= y);
    } else {
        name_has_no_quote(p.field);
        let dot = seq!['.'] + p.field;
        add_has_no_quote(seq!['.'], p.field);
        if existence(p.field) && p.value == ValV::Bool(true) {
            swept_copies(h, dot);
            assert(l + pred_text(p) =~= h + dot);
            assert(z + pred_text(q) =~= y + dot);
        } else {
            let w = dot + seq!['='];
            add_has_no_quote(dot, seq!['=']);
            swept_copies(h, w);
            swept_val(h + w, p.value);
            assert(l + pred_text(p) =~= h + w + val_text(p.value));
            assert(q.value == ValV::Bool(true) ==> p.value == ValV::Bool(true));
            assert(z + pred_text(q) =~= y + w + val_text(q.value));
        }
    }
}

/// Every predicate has a text of its own, whatever stands in its strings.
pub proof fn texts_tell_predicates_apart(p: PredV, q: PredV)
    requires
        telling_pred(p),
        telling_pred(q),
        pred_text(p) == pred_text(q),
    ensures
        p == q,
{
    let none = Seq::<char>::empty();
    swept_pred(none, p);
    swept_pred(none, q);
    assert(none + pred_text(p) =~= pred_text(p));
    assert(none + pred_text(q) =~= pred_text(q));
    let (a, b) = (bare_pred(p), bare_pred(q));
    assert(swept(none, false) + pred_text(a) =~= pred_text(a));
    assert(swept(none, false) + pred_text(b) =~= pred_text(b));
    bare_pred_legible(p);
    bare_pred_legible(q);
    read_back(a);
    read_back(b);
    as_read_pred_tells(a, b);
    bare_pred_tells(p, q);
}

} // verus!
