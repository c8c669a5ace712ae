//! Predicates that can be told from their texts and, where that is asked for (`strict`), hold
//! nothing written like the product of a node. What the compiler makes of such predicates are such
//! predicates again.

use crate::compile_model::{node_name, unify, unify_args, unify_list, unify_val};
use crate::pred::{lookup, PredV, ValV};
use crate::pred_laws::{writable_head, writable_name};
use crate::pred_parse::word_byte;
use crate::pred_unroll::{
    each_len, each_len_pred, in_place, pick, pick_args, pick_list, pick_pred, splice, splice_args,
    splice_each, splice_items, splice_pred, spread, spread_item, subst, subst_args, subst_list,
    subst_pred, unroll_spec,
};
use crate::tell::{
    telling, telling_args, telling_list, telling_pred, texts_tell_predicates_apart,
};
use crate::text::dec;
use vstd::prelude::*;
use vstd::utf8::{encode_utf8, is_ascii_chars};

verus! {

/// What a node's product is called among resources.
pub open spec fn marked(s: Seq<char>) -> bool {
    exists|k: nat| s == seq!['@'] + #[trigger] node_name(k)
}

/// A string that, where that is asked for, is not written like the product of a node.
pub open spec fn clear_str(strict: bool, s: Seq<char>) -> bool {
    strict ==> !marked(s)
}

/// A value whose text tells it: its names are names and its numbers fit. Its strings are clear.
pub open spec fn clear(strict: bool, v: ValV) -> bool
    decreases v,
{
    match v {
        ValV::Str(s) => clear_str(strict, s),
        ValV::Num(n) => i64::MIN <= n <= i64::MAX,
        ValV::Bool(_) => true,
        ValV::List(xs) => clear_list(strict, xs),
        ValV::Var(n, _) => writable_name(n),
        ValV::Ref(n, f) => writable_name(n) && writable_name(f),
        ValV::Entity(p) => writable_head(p.entity) && clear_args(strict, p.args) && clear(strict, p.value)
            && clear_field(p.field, p.value),
        ValV::Each(xs) => clear_list(strict, xs),
        ValV::All(x) => clear(strict, *x),
    }
}

pub open spec fn clear_list(strict: bool, xs: Seq<ValV>) -> bool
    decreases xs,
{
    forall|i: int| 0 <= i < xs.len() ==> clear(strict, #[trigger] xs[i])
}

pub open spec fn clear_args(strict: bool, xs: Seq<(Seq<char>, ValV)>) -> bool
    decreases xs,
{
    forall|i: int| 0 <= i < xs.len() ==> writable_name((#[trigger] xs[i]).0) && clear(strict, xs[i].1)
}

/// Without a field there is no place for a value.
pub open spec fn clear_field(field: Seq<char>, value: ValV) -> bool {
    if field.len() == 0 {
        value == ValV::Bool(true)
    } else {
        writable_name(field)
    }
}

/// A predicate whose text tells it.
pub open spec fn clear_pred(strict: bool, p: PredV) -> bool {
    writable_name(p.entity) && clear_args(strict, p.args) && clear(strict, p.value) && clear_field(
        p.field,
        p.value,
    )
}

/// Bindings to values whose texts tell them.
pub open spec fn clear_binds(strict: bool, b: Seq<(Seq<char>, ValV)>) -> bool {
    forall|i: int| 0 <= i < b.len() ==> clear(strict, (#[trigger] b[i]).1)
}

pub proof fn clear_lookup(strict: bool, b: Seq<(Seq<char>, ValV)>, k: Seq<char>)
    requires
        clear_binds(strict, b),
    ensures
        lookup(b, k) matches Some(v) ==> clear(strict, v),
    decreases b.len(),
{
    if b.len() > 0 && b[0].0 != k {
        let rest = b.drop_first();
        assert forall|j: int| 0 <= j < rest.len() implies clear(strict, (#[trigger] rest[j]).1) by {
            assert(rest[j] == b[j + 1]);
        }
        clear_lookup(strict, rest, k);
    }
}

// ---------- names ----------

pub proof fn word_is_a_name(n: Seq<char>)
    requires
        n.len() > 0,
        forall|k: int|
            0 <= k < n.len() ==> ('a' <= #[trigger] n[k] <= 'z' || 'A' <= n[k] <= 'Z' || '0' <= n[k]
                <= '9'),
    ensures
        writable_name(n),
{
    assert(is_ascii_chars(n));
    vstd::utf8::is_ascii_chars_encode_utf8(n);
    assert forall|k: int| 0 <= k < encode_utf8(n).len() implies word_byte(
        #[trigger] encode_utf8(n)[k],
    ) by {
        assert(n[k] as u8 == encode_utf8(n)[k]);
    }
}

pub proof fn fixed_names()
    ensures
        writable_name("id"@),
        writable_name("exists"@),
        writable_name("resolved"@),
{
    reveal_strlit("id");
    reveal_strlit("exists");
    reveal_strlit("resolved");
    word_is_a_name("id"@);
    word_is_a_name("exists"@);
    word_is_a_name("resolved"@);
}

proof fn dec_word(n: nat)
    ensures
        dec(n).len() > 0,
        forall|i: int| 0 <= i < dec(n).len() ==> '0' <= #[trigger] dec(n)[i] <= '9',
    decreases n,
{
    if n >= 10 {
        dec_word(n / 10);
    }
}

pub proof fn node_names_are_names(i: nat)
    ensures
        writable_name(node_name(i)),
{
    let x = (65 + i % 26) as u8;
    assert('A' <= (x as char) <= 'Z');
    dec_word(i / 26);
    word_is_a_name(node_name(i));
}

// ---------- unrolling ----------

proof fn pick_clear(strict: bool, v: ValV, i: nat)
    requires
        clear(strict, v),
    ensures
        clear(strict, pick(v, i)),
    decreases v, 0nat,
{
    match v {
        ValV::Each(xs) => {
            assert(clear_list(strict, xs));
        },
        ValV::List(xs) => {
            assert(clear_list(strict, xs));
            assert forall|j: int| 0 <= j < xs.len() implies clear(
                strict,
                #[trigger] pick_list(xs, i)[j],
            ) by {
                assert(clear(strict, xs[j]));
                pick_clear(strict, xs[j], i);
            }
            assert(clear_list(strict, pick_list(xs, i)));
        },
        ValV::Entity(p) => {
            pick_args_clear(strict, p.args, i);
            pick_clear(strict, p.value, i);
            let q = pick_pred(*p, i);
            assert(q.args == pick_args(p.args, i) && q.value == pick(p.value, i));
            assert(pick(v, i) == ValV::Entity(Box::new(q)));
        },
        _ => {},
    }
}

proof fn pick_args_clear(strict: bool, xs: Seq<(Seq<char>, ValV)>, i: nat)
    requires
        clear_args(strict, xs),
    ensures
        clear_args(strict, pick_args(xs, i)),
    decreases xs, 0nat,
{
    let ys = pick_args(xs, i);
    assert forall|j: int| 0 <= j < ys.len() implies writable_name((#[trigger] ys[j]).0) && clear(
        strict,
        ys[j].1,
    ) by {
        assert(writable_name(xs[j].0) && clear(strict, xs[j].1));
        pick_clear(strict, xs[j].1, i);
    }
}

proof fn spread_clear(strict: bool, v: ValV)
    requires
        clear(strict, v),
    ensures
        clear_list(strict, spread_item(v)),
{
    let x = match v {
        ValV::All(x) => *x,
        other => other,
    };
    assert(clear(strict, x));
    assert forall|j: int| 0 <= j < spread(x).len() implies clear(strict, #[trigger] spread(x)[j]) by {
        if each_len(x) is Some {
            pick_clear(strict, x, j as nat);
        }
    }
}

proof fn splice_clear(strict: bool, v: ValV)
    requires
        clear(strict, v),
    ensures
        clear(strict, splice(v)),
    decreases v, 0nat,
{
    match v {
        ValV::List(xs) => {
            splice_items_clear(strict, xs);
            assert(splice(v) == ValV::List(splice_items(xs)));
        },
        ValV::Each(xs) => {
            assert(clear_list(strict, xs));
            assert forall|j: int| 0 <= j < xs.len() implies clear(
                strict,
                #[trigger] splice_each(xs)[j],
            ) by {
                assert(clear(strict, xs[j]));
                splice_clear(strict, xs[j]);
            }
            assert(clear_list(strict, splice_each(xs)));
        },
        ValV::Entity(p) => {
            splice_args_clear(strict, p.args);
            splice_clear(strict, p.value);
            let q = splice_pred(*p);
            assert(q.args == splice_args(p.args) && q.value == splice(p.value));
            assert(splice(v) == ValV::Entity(Box::new(q)));
        },
        ValV::All(x) => splice_clear(strict, *x),
        _ => {},
    }
}

proof fn splice_items_clear(strict: bool, xs: Seq<ValV>)
    requires
        clear_list(strict, xs),
    ensures
        clear_list(strict, splice_items(xs)),
    decreases xs, 0nat,
{
    if xs.len() > 0 {
        let front = xs.drop_last();
        let v = xs[xs.len() - 1];
        assert(clear(strict, v));
        assert(clear_list(strict, front));
        splice_items_clear(strict, front);
        splice_clear(strict, v);
        spread_clear(strict, splice(v));
        clear_add(strict, splice_items(front), spread_item(splice(v)));
    }
}

proof fn clear_add(strict: bool, a: Seq<ValV>, b: Seq<ValV>)
    requires
        clear_list(strict, a),
        clear_list(strict, b),
    ensures
        clear_list(strict, a + b),
{
    assert forall|j: int| 0 <= j < (a + b).len() implies clear(strict, #[trigger] (a + b)[j]) by {
        if j < a.len() {
            assert(clear(strict, a[j]));
        } else {
            assert(clear(strict, b[j - a.len()]));
        }
    }
}

proof fn splice_args_clear(strict: bool, xs: Seq<(Seq<char>, ValV)>)
    requires
        clear_args(strict, xs),
    ensures
        clear_args(strict, splice_args(xs)),
    decreases xs, 0nat,
{
    let ys = splice_args(xs);
    assert forall|j: int| 0 <= j < ys.len() implies writable_name((#[trigger] ys[j]).0) && clear(
        strict,
        ys[j].1,
    ) by {
        assert(writable_name(xs[j].0) && clear(strict, xs[j].1));
        splice_clear(strict, xs[j].1);
    }
}

pub proof fn unroll_clear(strict: bool, p: PredV)
    requires
        clear_pred(strict, p),
    ensures
        forall|i: int| 0 <= i < unroll_spec(p).len() ==> clear_pred(strict, #[trigger] unroll_spec(p)[i]),
{
    splice_args_clear(strict, p.args);
    splice_clear(strict, p.value);
    let q = splice_pred(p);
    assert forall|i: int| 0 <= i < unroll_spec(p).len() implies clear_pred(
        strict,
        #[trigger] unroll_spec(p)[i],
    ) by {
        if each_len_pred(q) is Some {
            pick_args_clear(strict, q.args, i as nat);
            pick_clear(strict, q.value, i as nat);
        }
    }
}

// ---------- filling in ----------

proof fn subst_clear(strict: bool, v: ValV, b: Seq<(Seq<char>, ValV)>)
    requires
        clear(strict, v),
        clear_binds(strict, b),
    ensures
        clear(strict, subst(v, b)),
    decreases v, 0nat,
{
    match v {
        ValV::Var(x, _) => clear_lookup(strict, b, x),
        ValV::List(xs) => {
            subst_list_clear(strict, xs, b);
            assert(subst(v, b) == ValV::List(subst_list(xs, b)));
        },
        ValV::Each(xs) => {
            subst_list_clear(strict, xs, b);
            assert(subst(v, b) == ValV::Each(subst_list(xs, b)));
        },
        ValV::Entity(p) => {
            subst_args_clear(strict, p.args, b);
            subst_clear(strict, p.value, b);
            let q = subst_pred(*p, b);
            assert(q.args == subst_args(p.args, b) && q.value == subst(p.value, b));
            assert(subst(v, b) == ValV::Entity(Box::new(q)));
        },
        ValV::All(x) => subst_clear(strict, *x, b),
        _ => {},
    }
}

proof fn subst_list_clear(strict: bool, xs: Seq<ValV>, b: Seq<(Seq<char>, ValV)>)
    requires
        clear_list(strict, xs),
        clear_binds(strict, b),
    ensures
        clear_list(strict, subst_list(xs, b)),
    decreases xs, 0nat,
{
    if xs.len() > 0 {
        let front = xs.drop_last();
        let v = xs[xs.len() - 1];
        assert(clear(strict, v));
        assert(clear_list(strict, front));
        subst_list_clear(strict, front, b);
        subst_clear(strict, v, b);
        if let ValV::Var(x, _) = v {
            clear_lookup(strict, b, x);
        }
        let t = in_place(v, b, subst(v, b));
        assert(clear_list(strict, t));
        clear_add(strict, subst_list(front, b), t);
    }
}

proof fn subst_args_clear(strict: bool, xs: Seq<(Seq<char>, ValV)>, b: Seq<(Seq<char>, ValV)>)
    requires
        clear_args(strict, xs),
        clear_binds(strict, b),
    ensures
        clear_args(strict, subst_args(xs, b)),
    decreases xs, 0nat,
{
    let ys = subst_args(xs, b);
    assert forall|j: int| 0 <= j < ys.len() implies writable_name((#[trigger] ys[j]).0) && clear(
        strict,
        ys[j].1,
    ) by {
        assert(writable_name(xs[j].0) && clear(strict, xs[j].1));
        subst_clear(strict, xs[j].1, b);
    }
}

pub proof fn subst_pred_clear(strict: bool, p: PredV, b: Seq<(Seq<char>, ValV)>)
    requires
        clear_pred(strict, p),
        clear_binds(strict, b),
    ensures
        clear_pred(strict, subst_pred(p, b)),
{
    subst_args_clear(strict, p.args, b);
    subst_clear(strict, p.value, b);
}

// ---------- unifying ----------

proof fn unify_val_clear(strict: bool, p: ValV, c: ValV, b: Seq<(Seq<char>, ValV)>)
    requires
        clear(strict, c),
        clear_binds(strict, b),
    ensures
        unify_val(p, c, b) matches Some(r) ==> clear_binds(strict, r),
    decreases p, 0nat,
{
    match p {
        ValV::Var(x, _) => {
            assert(clear_binds(strict, b.push((x, c))));
        },
        ValV::List(ps) => {
            if let ValV::List(cs) = c {
                unify_list_clear(strict, ps, cs, b);
            }
        },
        _ => {},
    }
}

proof fn unify_list_clear(strict: bool, ps: Seq<ValV>, cs: Seq<ValV>, b: Seq<(Seq<char>, ValV)>)
    requires
        clear_list(strict, cs),
        clear_binds(strict, b),
    ensures
        unify_list(ps, cs, b) matches Some(r) ==> clear_binds(strict, r),
    decreases ps, 0nat,
{
    if ps.len() > 0 && ps.len() == cs.len() {
        assert(clear_list(strict, cs.drop_last()));
        unify_list_clear(strict, ps.drop_last(), cs.drop_last(), b);
        assert(clear(strict, cs[cs.len() - 1]));
        if let Some(b1) = unify_list(ps.drop_last(), cs.drop_last(), b) {
            unify_val_clear(strict, ps[ps.len() - 1], cs[cs.len() - 1], b1);
        }
    }
}

proof fn unify_args_clear(
    strict: bool,
    ps: Seq<(Seq<char>, ValV)>,
    want: Seq<(Seq<char>, ValV)>,
    b: Seq<(Seq<char>, ValV)>,
)
    requires
        clear_args(strict, want),
        clear_binds(strict, b),
    ensures
        unify_args(ps, want, b) matches Some(r) ==> clear_binds(strict, r),
    decreases ps.len(),
{
    if ps.len() > 0 {
        unify_args_clear(strict, ps.drop_last(), want, b);
        assert(clear_binds(strict, want));
        clear_lookup(strict, want, ps.last().0);
        if let Some(b1) = unify_args(ps.drop_last(), want, b) {
            if let Some(w) = lookup(want, ps.last().0) {
                unify_val_clear(strict, ps.last().1, w, b1);
            }
        }
    }
}

pub proof fn unify_clear(strict: bool, post: PredV, want: PredV)
    requires
        clear_args(strict, want.args),
        clear(strict, want.value),
    ensures
        unify(post, want) matches Some(r) ==> clear_binds(strict, r),
{
    let none = Seq::<(Seq<char>, ValV)>::empty();
    unify_val_clear(strict, post.value, want.value, none);
    if let Some(b) = unify_val(post.value, want.value, none) {
        unify_args_clear(strict, post.args, want.args, b);
    }
}

/// The texts of such predicates tell them apart.
pub proof fn texts_tell_apart(strict: bool, p: PredV, q: PredV)
    requires
        clear_pred(strict, p),
        clear_pred(strict, q),
        crate::pred_print::pred_text(p) == crate::pred_print::pred_text(q),
    ensures
        p == q,
{
    clear_pred_telling(strict, p);
    clear_pred_telling(strict, q);
    texts_tell_predicates_apart(p, q);
}

proof fn clear_telling(strict: bool, v: ValV)
    requires
        clear(strict, v),
    ensures
        telling(v),
    decreases v, 0nat,
{
    match v {
        ValV::List(xs) => {
            clear_list_telling(strict, xs);
            assert(telling(v) == telling_list(xs));
        },
        ValV::Each(xs) => {
            clear_list_telling(strict, xs);
            assert(telling(v) == telling_list(xs));
        },
        ValV::Entity(p) => {
            clear_pred_telling(strict, *p);
            assert(telling(v) == (writable_head(p.entity) && telling_pred(*p)));
        },
        ValV::All(x) => clear_telling(strict, *x),
        _ => {},
    }
}

proof fn clear_list_telling(strict: bool, xs: Seq<ValV>)
    requires
        clear_list(strict, xs),
    ensures
        telling_list(xs),
    decreases xs, 0nat,
{
    assert forall|i: int| #![trigger xs[i]] 0 <= i < xs.len() implies telling(xs[i]) by {
        clear_telling(strict, xs[i]);
    }
}

proof fn clear_args_telling(strict: bool, xs: Seq<(Seq<char>, ValV)>)
    requires
        clear_args(strict, xs),
    ensures
        telling_args(xs),
    decreases xs, 0nat,
{
    assert forall|i: int| #![trigger xs[i]] 0 <= i < xs.len() implies writable_name(xs[i].0)
        && telling(xs[i].1) by {
        clear_telling(strict, xs[i].1);
    }
}

proof fn clear_pred_telling(strict: bool, p: PredV)
    requires
        clear_pred(strict, p),
    ensures
        telling_pred(p),
    decreases p, 0nat,
{
    clear_args_telling(strict, p.args);
    clear_telling(strict, p.value);
}

// ---------- where nothing is strict ----------

proof fn telling_clear(v: ValV)
    requires
        telling(v),
    ensures
        clear(false, v),
    decreases v, 0nat,
{
    match v {
        ValV::List(xs) => {
            assert(telling(v) == telling_list(xs));
            telling_list_clear(xs);
        },
        ValV::Each(xs) => {
            assert(telling(v) == telling_list(xs));
            telling_list_clear(xs);
        },
        ValV::Entity(p) => {
            assert(telling(v) == (writable_head(p.entity) && telling_pred(*p)));
            telling_pred_clear(*p);
        },
        ValV::All(x) => telling_clear(*x),
        _ => {},
    }
}

proof fn telling_list_clear(xs: Seq<ValV>)
    requires
        telling_list(xs),
    ensures
        clear_list(false, xs),
    decreases xs, 0nat,
{
    assert forall|i: int| 0 <= i < xs.len() implies clear(false, #[trigger] xs[i]) by {
        telling_clear(xs[i]);
    }
}

pub proof fn telling_pred_clear(p: PredV)
    requires
        telling_pred(p),
    ensures
        clear_pred(false, p),
    decreases p, 0nat,
{
    let xs = p.args;
    assert(telling_args(xs));
    assert forall|i: int| 0 <= i < xs.len() implies writable_name((#[trigger] xs[i]).0) && clear(
        false,
        xs[i].1,
    ) by {
        telling_clear(xs[i].1);
    }
    telling_clear(p.value);
}

} // verus!
