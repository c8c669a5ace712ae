//! A text for a JSON value from which the value can be told, and predicates as JSON values.
//!
//! A string is written behind its length and a list behind the number of its elements, so that
//! nothing in them can be mistaken for what follows.

use crate::json::{list_push, list_view, obj_push, obj_view, Json, JsonV};
use crate::pred::{args_view, vals_view, Pred, PredV, Val, ValV};
use crate::pred_laws::dec_rt;
use crate::text::{chars_of, dec, int_dec, push_dec, push_int};
use vstd::prelude::*;

verus! {

/// A string behind its length.
pub open spec fn counted(s: Seq<char>) -> Seq<char> {
    dec(s.len()) + seq![':'] + s
}

/// The text of a value.
pub open spec fn code(v: JsonV) -> Seq<char>
    decreases v,
{
    match v {
        JsonV::Null => seq!['n'],
        JsonV::Bool(true) => seq!['t'],
        JsonV::Bool(false) => seq!['f'],
        JsonV::Int(n) => seq!['i'] + int_dec(n) + seq![';'],
        JsonV::Float(t) => seq!['d'] + counted(t),
        JsonV::Str(s) => seq!['s'] + counted(s),
        JsonV::List(xs) => seq!['l'] + dec(xs.len()) + seq![':'] + codes(xs),
        JsonV::Obj(xs) => seq!['o'] + dec(xs.len()) + seq![':'] + entry_codes(xs),
    }
}

pub open spec fn codes(xs: Seq<JsonV>) -> Seq<char>
    decreases xs,
{
    if xs.len() == 0 {
        Seq::empty()
    } else {
        codes(xs.drop_last()) + code(xs[xs.len() - 1])
    }
}

pub open spec fn entry_codes(xs: Seq<(Seq<char>, JsonV)>) -> Seq<char>
    decreases xs,
{
    if xs.len() == 0 {
        Seq::empty()
    } else {
        entry_codes(xs.drop_last()) + counted(xs[xs.len() - 1].0) + code(xs[xs.len() - 1].1)
    }
}

// ---------- the value can be told from the text ----------

/// What stands before the first `c` can be told from what stands behind it.
proof fn cut_at_first(a: Seq<char>, b: Seq<char>, c: char, r: Seq<char>, t: Seq<char>)
    requires
        !a.contains(c),
        !b.contains(c),
        a + seq![c] + r == b + seq![c] + t,
    ensures
        a == b,
        r == t,
{
    let x = a + seq![c] + r;
    let y = b + seq![c] + t;
    assert(x[a.len() as int] == c);
    assert(y[b.len() as int] == c);
    if a.len() < b.len() {
        assert(y[a.len() as int] == b[a.len() as int]);
        assert(b.contains(c));
    }
    if b.len() < a.len() {
        assert(x[b.len() as int] == a[b.len() as int]);
        assert(a.contains(c));
    }
    assert(a =~= b) by {
        assert forall|i: int| 0 <= i < a.len() implies a[i] == b[i] by {
            assert(x[i] == a[i] && y[i] == b[i]);
        }
    }
    assert(r =~= t) by {
        assert(x.len() == y.len());
        assert forall|i: int| 0 <= i < r.len() implies r[i] == t[i] by {
            assert(x[a.len() + 1 + i] == r[i] && y[b.len() + 1 + i] == t[i]);
        }
    }
}

pub proof fn dec_digits(n: nat)
    ensures
        dec(n).len() > 0,
        forall|i: int| 0 <= i < dec(n).len() ==> '0' <= #[trigger] dec(n)[i] <= '9',
    decreases n,
{
    if n >= 10 {
        dec_digits(n / 10);
    }
}

proof fn dec_differs(a: nat, b: nat)
    requires
        dec(a) == dec(b),
    ensures
        a == b,
{
    dec_rt(a);
    dec_rt(b);
}

pub proof fn int_dec_differs(a: int, b: int)
    requires
        int_dec(a) == int_dec(b),
    ensures
        a == b,
{
    let x = if a < 0 { (-a) as nat } else { a as nat };
    let y = if b < 0 { (-b) as nat } else { b as nat };
    dec_digits(x);
    dec_digits(y);
    if (a < 0) != (b < 0) {
        assert('0' <= dec(x)[0] && '0' <= dec(y)[0]);
        if a < 0 {
            assert(int_dec(a)[0] == '-');
            assert(int_dec(b)[0] == dec(y)[0]);
        } else {
            assert(int_dec(b)[0] == '-');
            assert(int_dec(a)[0] == dec(x)[0]);
        }
    } else {
        if a < 0 {
            assert(int_dec(a).skip(1) =~= dec(x));
            assert(int_dec(b).skip(1) =~= dec(y));
        }
        dec_differs(x, y);
    }
}

proof fn int_dec_plain(n: int)
    ensures
        !int_dec(n).contains(';'),
{
    let x = if n < 0 { (-n) as nat } else { n as nat };
    dec_digits(x);
    if int_dec(n).contains(';') {
        let i = choose|i: int| 0 <= i < int_dec(n).len() && int_dec(n)[i] == ';';
        if n < 0 && i > 0 {
            assert(int_dec(n)[i] == dec(x)[i - 1]);
        }
    }
}

proof fn dec_plain(n: nat)
    ensures
        !dec(n).contains(':'),
{
    dec_digits(n);
}

proof fn counted_told(a: Seq<char>, b: Seq<char>, r: Seq<char>, t: Seq<char>)
    requires
        counted(a) + r == counted(b) + t,
    ensures
        a == b,
        r == t,
{
    dec_plain(a.len());
    dec_plain(b.len());
    assert(counted(a) + r =~= dec(a.len()) + seq![':'] + (a + r));
    assert(counted(b) + t =~= dec(b.len()) + seq![':'] + (b + t));
    cut_at_first(dec(a.len()), dec(b.len()), ':', a + r, b + t);
    dec_differs(a.len(), b.len());
    assert((a + r).take(a.len() as int) =~= a);
    assert((b + t).take(a.len() as int) =~= b);
    assert((a + r).skip(a.len() as int) =~= r);
    assert((b + t).skip(a.len() as int) =~= t);
}

/// A value can be told from its text, whatever follows.
proof fn code_told(a: JsonV, b: JsonV, r: Seq<char>, t: Seq<char>)
    requires
        code(a) + r == code(b) + t,
    ensures
        a == b,
        r == t,
    decreases a, 0nat,
{
    let (x, y) = (code(a) + r, code(b) + t);
    assert(code(a).len() > 0 && code(b).len() > 0);
    assert(x[0] == code(a)[0] && y[0] == code(b)[0]);
    let (p, q) = (x.skip(1), y.skip(1));
    match (a, b) {
        (JsonV::Int(m), JsonV::Int(n)) => {
            assert(p =~= int_dec(m) + seq![';'] + r);
            assert(q =~= int_dec(n) + seq![';'] + t);
            int_dec_plain(m);
            int_dec_plain(n);
            cut_at_first(int_dec(m), int_dec(n), ';', r, t);
            int_dec_differs(m, n);
        },
        (JsonV::Float(m), JsonV::Float(n)) => {
            assert(p =~= counted(m) + r);
            assert(q =~= counted(n) + t);
            counted_told(m, n, r, t);
        },
        (JsonV::Str(m), JsonV::Str(n)) => {
            assert(p =~= counted(m) + r);
            assert(q =~= counted(n) + t);
            counted_told(m, n, r, t);
        },
        (JsonV::List(m), JsonV::List(n)) => {
            dec_plain(m.len());
            dec_plain(n.len());
            assert(p =~= dec(m.len()) + seq![':'] + (codes(m) + r));
            assert(q =~= dec(n.len()) + seq![':'] + (codes(n) + t));
            cut_at_first(dec(m.len()), dec(n.len()), ':', codes(m) + r, codes(n) + t);
            dec_differs(m.len(), n.len());
            codes_told(m, n, r, t);
        },
        (JsonV::Obj(m), JsonV::Obj(n)) => {
            dec_plain(m.len());
            dec_plain(n.len());
            assert(p =~= dec(m.len()) + seq![':'] + (entry_codes(m) + r));
            assert(q =~= dec(n.len()) + seq![':'] + (entry_codes(n) + t));
            cut_at_first(dec(m.len()), dec(n.len()), ':', entry_codes(m) + r, entry_codes(n) + t);
            dec_differs(m.len(), n.len());
            entry_codes_told(m, n, r, t);
        },
        _ => {
            assert(p =~= r && q =~= t);
        },
    }
}

proof fn codes_told(a: Seq<JsonV>, b: Seq<JsonV>, r: Seq<char>, t: Seq<char>)
    requires
        a.len() == b.len(),
        codes(a) + r == codes(b) + t,
    ensures
        a == b,
        r == t,
    decreases a, 0nat,
{
    if a.len() == 0 {
        assert(codes(a) + r =~= r);
        assert(codes(b) + t =~= t);
        assert(a =~= b);
    } else {
        let (c, d) = (a.drop_last(), b.drop_last());
        let (u, v) = (a[a.len() - 1], b[b.len() - 1]);
        assert(codes(a) + r =~= codes(c) + (code(u) + r));
        assert(codes(b) + t =~= codes(d) + (code(v) + t));
        codes_told(c, d, code(u) + r, code(v) + t);
        code_told(u, v, r, t);
        assert(a =~= c.push(u));
        assert(b =~= d.push(v));
    }
}

proof fn entry_codes_told(
    a: Seq<(Seq<char>, JsonV)>,
    b: Seq<(Seq<char>, JsonV)>,
    r: Seq<char>,
    t: Seq<char>,
)
    requires
        a.len() == b.len(),
        entry_codes(a) + r == entry_codes(b) + t,
    ensures
        a == b,
        r == t,
    decreases a, 0nat,
{
    if a.len() == 0 {
        assert(entry_codes(a) + r =~= r);
        assert(entry_codes(b) + t =~= t);
        assert(a =~= b);
    } else {
        let (c, d) = (a.drop_last(), b.drop_last());
        let (u, v) = (a[a.len() - 1], b[b.len() - 1]);
        assert(entry_codes(a) + r =~= entry_codes(c) + (counted(u.0) + (code(u.1) + r)));
        assert(entry_codes(b) + t =~= entry_codes(d) + (counted(v.0) + (code(v.1) + t)));
        entry_codes_told(
            c,
            d,
            counted(u.0) + (code(u.1) + r),
            counted(v.0) + (code(v.1) + t),
        );
        counted_told(u.0, v.0, code(u.1) + r, code(v.1) + t);
        code_told(u.1, v.1, r, t);
        assert(u == v);
        assert(a =~= c.push(u));
        assert(b =~= d.push(v));
    }
}

/// Different values have different texts.
pub proof fn code_tells(a: JsonV, b: JsonV)
    requires
        code(a) == code(b),
    ensures
        a == b,
{
    let none = Seq::<char>::empty();
    assert(code(a) + none =~= code(a));
    assert(code(b) + none =~= code(b));
    code_told(a, b, none, none);
}

// ---------- writing ----------

fn push_counted(out: &mut String, s: &str)
    ensures
        final(out)@ == old(out)@ + counted(s@),
{
    let n = chars_of(s).len();
    push_dec(out, n as u128);
    out.push(':');
    out.push_str(s);
    assert(out@ =~= old(out)@ + counted(s@));
}

fn push_codes(out: &mut String, xs: &Vec<Json>)
    ensures
        final(out)@ == old(out)@ + codes(list_view(xs@)),
    decreases xs,
{
    let ghost o = out@;
    let ghost vs = list_view(xs@);
    let mut i: usize = 0;
    assert(o + codes(vs.take(0)) =~= o);
    while i < xs.len()
        invariant
            i <= xs@.len(),
            vs == list_view(xs@),
            out@ == o + codes(vs.take(i as int)),
        decreases xs@.len() - i,
    {
        push_code(out, &xs[i]);
        proof {
            let p = vs.take(i + 1);
            assert(p.drop_last() =~= vs.take(i as int));
            assert(p[p.len() - 1] == xs@[i as int]@);
            assert(out@ =~= o + codes(p));
        }
        i += 1;
    }
    assert(vs.take(i as int) =~= vs);
}

fn push_entry_codes(out: &mut String, xs: &Vec<(String, Json)>)
    ensures
        final(out)@ == old(out)@ + entry_codes(obj_view(xs@)),
    decreases xs,
{
    let ghost o = out@;
    let ghost vs = obj_view(xs@);
    let mut i: usize = 0;
    assert(o + entry_codes(vs.take(0)) =~= o);
    while i < xs.len()
        invariant
            i <= xs@.len(),
            vs == obj_view(xs@),
            out@ == o + entry_codes(vs.take(i as int)),
        decreases xs@.len() - i,
    {
        push_counted(out, xs[i].0.as_str());
        push_code(out, &xs[i].1);
        proof {
            let p = vs.take(i + 1);
            assert(p.drop_last() =~= vs.take(i as int));
            assert(p[p.len() - 1] == (xs@[i as int].0@, xs@[i as int].1@));
            assert(out@ =~= o + entry_codes(p));
        }
        i += 1;
    }
    assert(vs.take(i as int) =~= vs);
}

/// Append the text of a value.
pub fn push_code(out: &mut String, v: &Json)
    ensures
        final(out)@ == old(out)@ + code(v@),
    decreases v,
{
    match v {
        Json::Null => {
            out.push('n');
        },
        Json::Bool(b) => {
            if *b {
                out.push('t');
            } else {
                out.push('f');
            }
        },
        Json::Int(n) => {
            out.push('i');
            push_int(out, *n);
            out.push(';');
        },
        Json::Float(t) => {
            out.push('d');
            push_counted(out, t.as_str());
        },
        Json::Str(s) => {
            out.push('s');
            push_counted(out, s.as_str());
        },
        Json::List(xs) => {
            out.push('l');
            push_dec(out, xs.len() as u128);
            out.push(':');
            push_codes(out, xs);
            assert(list_view(xs@).len() == xs@.len());
        },
        Json::Obj(xs) => {
            out.push('o');
            push_dec(out, xs.len() as u128);
            out.push(':');
            push_entry_codes(out, xs);
            assert(obj_view(xs@).len() == xs@.len());
        },
    }
    assert(out@ =~= old(out)@ + code(v@));
}

// ---------- predicates ----------

/// A value of a predicate as JSON. What JSON has no kind of its own for starts with a number.
pub open spec fn val_tree(v: ValV) -> JsonV
    decreases v,
{
    match v {
        ValV::Str(s) => JsonV::Str(s),
        ValV::Num(n) => JsonV::Int(n),
        ValV::Bool(b) => JsonV::Bool(b),
        ValV::List(xs) => JsonV::List(seq![JsonV::Int(0), JsonV::List(vals_tree(xs))]),
        ValV::Var(n, spread) => JsonV::List(
            seq![JsonV::Int(1), JsonV::Str(n), JsonV::Bool(spread)],
        ),
        ValV::Ref(n, f) => JsonV::List(seq![JsonV::Int(2), JsonV::Str(n), JsonV::Str(f)]),
        ValV::Entity(p) => JsonV::List(seq![JsonV::Int(3), pred_tree(*p)]),
        ValV::Each(xs) => JsonV::List(seq![JsonV::Int(4), JsonV::List(vals_tree(xs))]),
        ValV::All(x) => JsonV::List(seq![JsonV::Int(5), val_tree(*x)]),
    }
}

pub open spec fn vals_tree(xs: Seq<ValV>) -> Seq<JsonV>
    decreases xs,
{
    Seq::new(
        xs.len(),
        |i: int|
            if 0 <= i < xs.len() {
                val_tree(xs[i])
            } else {
                arbitrary()
            },
    )
}

pub open spec fn args_tree(xs: Seq<(Seq<char>, ValV)>) -> Seq<(Seq<char>, JsonV)>
    decreases xs,
{
    Seq::new(
        xs.len(),
        |i: int|
            if 0 <= i < xs.len() {
                (xs[i].0, val_tree(xs[i].1))
            } else {
                arbitrary()
            },
    )
}

/// A predicate as JSON: its entity, its arguments, its field and its value.
pub open spec fn pred_tree(p: PredV) -> JsonV
    decreases p,
{
    JsonV::List(
        seq![
            JsonV::Str(p.entity),
            JsonV::Obj(args_tree(p.args)),
            JsonV::Str(p.field),
            val_tree(p.value),
        ],
    )
}

proof fn val_tree_tells(a: ValV, b: ValV)
    requires
        val_tree(a) == val_tree(b),
    ensures
        a == b,
    decreases a, 0nat,
{
    let (x, y) = (val_tree(a), val_tree(b));
    if x is List {
        let (xs, ys) = (x->List_0, y->List_0);
        assert(xs[0] == ys[0] && xs[1] == ys[1]);
        match (a, b) {
            (ValV::List(m), ValV::List(n)) => {
                assert(xs[1] == JsonV::List(vals_tree(m)) && ys[1] == JsonV::List(vals_tree(n)));
                vals_tree_tells(m, n);
            },
            (ValV::Each(m), ValV::Each(n)) => {
                assert(xs[1] == JsonV::List(vals_tree(m)) && ys[1] == JsonV::List(vals_tree(n)));
                vals_tree_tells(m, n);
            },
            (ValV::Var(m, _), ValV::Var(n, _)) => {
                assert(xs[2] == ys[2]);
            },
            (ValV::Ref(m, _), ValV::Ref(n, _)) => {
                assert(xs[2] == ys[2]);
            },
            (ValV::Entity(p), ValV::Entity(q)) => {
                assert(xs[1] == pred_tree(*p) && ys[1] == pred_tree(*q));
                pred_tree_tells(*p, *q);
            },
            (ValV::All(m), ValV::All(n)) => {
                assert(xs[1] == val_tree(*m) && ys[1] == val_tree(*n));
                val_tree_tells(*m, *n);
            },
            _ => {},
        }
    }
}

proof fn vals_tree_tells(a: Seq<ValV>, b: Seq<ValV>)
    requires
        vals_tree(a) == vals_tree(b),
    ensures
        a == b,
    decreases a, 0nat,
{
    assert(vals_tree(a).len() == a.len() && vals_tree(b).len() == b.len());
    assert forall|i: int| 0 <= i < a.len() implies a[i] == b[i] by {
        assert(vals_tree(a)[i] == val_tree(a[i]));
        assert(vals_tree(b)[i] == val_tree(b[i]));
        val_tree_tells(a[i], b[i]);
    }
    assert(a =~= b);
}

proof fn args_tree_tells(a: Seq<(Seq<char>, ValV)>, b: Seq<(Seq<char>, ValV)>)
    requires
        args_tree(a) == args_tree(b),
    ensures
        a == b,
    decreases a, 0nat,
{
    assert(args_tree(a).len() == a.len() && args_tree(b).len() == b.len());
    assert forall|i: int| 0 <= i < a.len() implies a[i] == b[i] by {
        assert(args_tree(a)[i] == (a[i].0, val_tree(a[i].1)));
        assert(args_tree(b)[i] == (b[i].0, val_tree(b[i].1)));
        val_tree_tells(a[i].1, b[i].1);
    }
    assert(a =~= b);
}

/// Different predicates are different values.
pub proof fn pred_tree_tells(a: PredV, b: PredV)
    requires
        pred_tree(a) == pred_tree(b),
    ensures
        a == b,
    decreases a, 1nat,
{
    let (xs, ys) = (pred_tree(a)->List_0, pred_tree(b)->List_0);
    assert(xs[0] == ys[0] && xs[1] == ys[1] && xs[2] == ys[2] && xs[3] == ys[3]);
    assert(xs[1] == JsonV::Obj(args_tree(a.args)) && ys[1] == JsonV::Obj(args_tree(b.args)));
    assert(xs[3] == val_tree(a.value) && ys[3] == val_tree(b.value));
    args_tree_tells(a.args, b.args);
    val_tree_tells(a.value, b.value);
}

fn tree_of_vals(xs: &Vec<Val>) -> (r: Vec<Json>)
    ensures
        list_view(r@) == vals_tree(vals_view(xs@)),
    decreases xs,
{
    let ghost all = vals_tree(vals_view(xs@));
    let mut out: Vec<Json> = Vec::new();
    let mut i: usize = 0;
    assert(list_view(out@) =~= all.take(0));
    while i < xs.len()
        invariant
            i <= xs@.len(),
            all == vals_tree(vals_view(xs@)),
            all.len() == xs@.len(),
            list_view(out@) == all.take(i as int),
        decreases xs@.len() - i,
    {
        let x = tree_of_val(&xs[i]);
        proof {
            list_push(out@, x);
            assert(all[i as int] == val_tree(xs@[i as int]@));
        }
        out.push(x);
        i += 1;
        assert(list_view(out@) =~= all.take(i as int));
    }
    assert(all.take(i as int) =~= all);
    out
}

fn tree_of_args(xs: &Vec<(String, Val)>) -> (r: Vec<(String, Json)>)
    ensures
        obj_view(r@) == args_tree(args_view(xs@)),
    decreases xs,
{
    let ghost all = args_tree(args_view(xs@));
    let mut out: Vec<(String, Json)> = Vec::new();
    let mut i: usize = 0;
    assert(obj_view(out@) =~= all.take(0));
    while i < xs.len()
        invariant
            i <= xs@.len(),
            all == args_tree(args_view(xs@)),
            all.len() == xs@.len(),
            obj_view(out@) == all.take(i as int),
        decreases xs@.len() - i,
    {
        let x = (xs[i].0.clone(), tree_of_val(&xs[i].1));
        proof {
            obj_push(out@, x);
            assert(all[i as int] == (xs@[i as int].0@, val_tree(xs@[i as int].1@)));
        }
        out.push(x);
        i += 1;
        assert(obj_view(out@) =~= all.take(i as int));
    }
    assert(all.take(i as int) =~= all);
    out
}

/// A list of two.
pub(crate) fn two(a: Json, b: Json) -> (r: Json)
    ensures
        r@ == JsonV::List(seq![a@, b@]),
{
    let xs = vec![a, b];
    assert(list_view(xs@) =~= seq![a@, b@]);
    Json::List(xs)
}

/// A list of three.
pub(crate) fn three(a: Json, b: Json, c: Json) -> (r: Json)
    ensures
        r@ == JsonV::List(seq![a@, b@, c@]),
{
    let xs = vec![a, b, c];
    assert(list_view(xs@) =~= seq![a@, b@, c@]);
    Json::List(xs)
}

/// A value of a predicate as JSON.
pub fn tree_of_val(v: &Val) -> (r: Json)
    ensures
        r@ == val_tree(v@),
    decreases v,
{
    match v {
        Val::Str(s) => Json::Str(s.clone()),
        Val::Num(n) => Json::Int(*n as i128),
        Val::Bool(b) => Json::Bool(*b),
        Val::List(xs) => two(Json::Int(0), Json::List(tree_of_vals(xs))),
        Val::Var(n, spread) => three(Json::Int(1), Json::Str(n.clone()), Json::Bool(*spread)),
        Val::Ref(n, f) => three(Json::Int(2), Json::Str(n.clone()), Json::Str(f.clone())),
        Val::Entity(p) => two(Json::Int(3), tree_of(&**p)),
        Val::Each(xs) => two(Json::Int(4), Json::List(tree_of_vals(xs))),
        Val::All(x) => two(Json::Int(5), tree_of_val(&**x)),
    }
}

/// A predicate as JSON.
pub fn tree_of(p: &Pred) -> (r: Json)
    ensures
        r@ == pred_tree(p@),
    decreases p,
{
    let xs = vec![
        Json::Str(p.entity.clone()),
        Json::Obj(tree_of_args(&p.args)),
        Json::Str(p.field.clone()),
        tree_of_val(&p.value),
    ];
    assert(list_view(xs@) =~= pred_tree(p@)->List_0);
    Json::List(xs)
}

} // verus!
