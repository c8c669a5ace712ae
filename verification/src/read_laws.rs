//! What is read can be written and read again.

use crate::pred::{PredV, ValV};
use crate::pred_laws::{
    round_trip, writable, writable_args, writable_list, writable_name, writable_pred,
};
use crate::pred_parse::{
    each_of, g_args, g_dollar, g_expect, g_ident, g_items, g_pred, g_quoted, g_tail, g_value,
    ident_bounds, letter, next_is, parse_spec, skip_ws, skip_ws_bounds, skip_ws_idem, word_byte,
    word_end, word_end_bounds,
};
use crate::pred_print::pred_text;
use crate::tell::{telling, telling_args, telling_list, telling_pred};
use vstd::prelude::*;
use vstd::utf8::{encode_utf8, is_ascii_chars};

verus! {

/// A value with no backslash in its strings.
pub open spec fn unslashed(v: ValV) -> bool
    decreases v,
{
    match v {
        ValV::Str(s) => !s.contains('\\'),
        ValV::List(xs) => unslashed_list(xs),
        ValV::Entity(p) => unslashed_pred(*p),
        ValV::Each(xs) => unslashed_list(xs),
        ValV::All(x) => unslashed(*x),
        _ => true,
    }
}

pub open spec fn unslashed_list(xs: Seq<ValV>) -> bool
    decreases xs,
{
    forall|i: int| 0 <= i < xs.len() ==> unslashed(#[trigger] xs[i])
}

pub open spec fn unslashed_args(xs: Seq<(Seq<char>, ValV)>) -> bool
    decreases xs,
{
    forall|i: int| 0 <= i < xs.len() ==> unslashed((#[trigger] xs[i]).1)
}

/// A predicate with no backslash in its strings.
pub open spec fn unslashed_pred(p: PredV) -> bool
    decreases p,
{
    unslashed_args(p.args) && unslashed(p.value)
}

/// What holds of a value that was read from `s`.
spec fn fits(s: Seq<u8>, v: ValV) -> bool {
    telling(v) && (low(s) && unslashed(v) ==> writable(v))
}

spec fn fit_list(s: Seq<u8>, xs: Seq<ValV>) -> bool {
    forall|i: int| 0 <= i < xs.len() ==> fits(s, #[trigger] xs[i])
}

spec fn fit_args(s: Seq<u8>, xs: Seq<(Seq<char>, ValV)>) -> bool {
    forall|i: int| 0 <= i < xs.len() ==> writable_name((#[trigger] xs[i]).0) && fits(s, xs[i].1)
}

/// Bytes of ASCII characters.
spec fn low(s: Seq<u8>) -> bool {
    forall|k: int| 0 <= k < s.len() ==> #[trigger] s[k] < 128
}

proof fn list_fits(s: Seq<u8>, xs: Seq<ValV>)
    requires
        fit_list(s, xs),
    ensures
        fits(s, ValV::List(xs)),
        fits(s, ValV::Each(xs)),
{
    let (l, e) = (ValV::List(xs), ValV::Each(xs));
    assert(unslashed(l) == unslashed_list(xs) && unslashed(e) == unslashed_list(xs));
    assert(writable(l) == writable_list(xs) && writable(e) == writable_list(xs));
    assert(telling(l) == telling_list(xs) && telling(e) == telling_list(xs));
    assert forall|i: int| #![trigger xs[i]] 0 <= i < xs.len() implies telling(xs[i]) by {
        assert(fits(s, xs[i]));
    }
    if low(s) && unslashed_list(xs) {
        assert forall|i: int| #![trigger xs[i]] 0 <= i < xs.len() implies writable(xs[i]) by {
            assert(fits(s, xs[i]) && unslashed(xs[i]));
        }
    }
}

proof fn word_end_words(s: Seq<u8>, i: int)
    ensures
        forall|k: int| i <= k < word_end(s, i) ==> word_byte(#[trigger] s[k]),
    decreases s.len() - i,
{
    if 0 <= i < s.len() && word_byte(s[i]) {
        word_end_words(s, i + 1);
    }
}

proof fn ident_is_named(s: Seq<u8>, i: int)
    ensures
        g_ident(s, i) matches Ok((n, k)) ==> {
            &&& writable_name(n)
            &&& skip_ws(s, i) < k
            &&& encode_utf8(n)[0] == s[skip_ws(s, i)]
        },
{
    let j = skip_ws(s, i);
    let k = word_end(s, j);
    skip_ws_bounds(s, i);
    word_end_bounds(s, j);
    word_end_words(s, j);
    if let Ok((n, _)) = g_ident(s, i) {
        let b = s.subrange(j, k);
        vstd::utf8::decode_utf8_encode_utf8(b);
        assert(0 <= j && k <= s.len()) by {
            if j < 0 {
                assert(word_end(s, j) == j);
            }
            if j > s.len() {
                assert(word_end(s, j) == j);
            }
        }
        assert(encode_utf8(n) == b);
        assert(b.len() > 0);
        assert(n.len() > 0);
        assert forall|x: int| 0 <= x < encode_utf8(n).len() implies word_byte(
            #[trigger] encode_utf8(n)[x],
        ) by {
            assert(b[x] == s[j + x]);
        }
        assert(b[0] == s[j]);
    }
}

proof fn quoted_is_low(s: Seq<u8>, i: int, acc: Seq<char>)
    requires
        low(s),
        is_ascii_chars(acc),
    ensures
        g_quoted(s, i, acc) matches Ok((t, _)) ==> is_ascii_chars(t),
    decreases s.len() - i,
{
    if 0 <= i < s.len() {
        if s[i] == 92 {
            if i + 1 < s.len() {
                assert(s[i + 1] < 128);
                low_push(acc, s[i + 1]);
                quoted_is_low(s, i + 2, acc.push(s[i + 1] as char));
            }
        } else if s[i] != 39 {
            assert(s[i] < 128);
            low_push(acc, s[i]);
            quoted_is_low(s, i + 1, acc.push(s[i] as char));
        }
    }
}

proof fn low_push(acc: Seq<char>, b: u8)
    requires
        is_ascii_chars(acc),
        b < 128,
    ensures
        is_ascii_chars(acc.push(b as char)),
{
    let t = acc.push(b as char);
    assert forall|k: int| 0 <= k < t.len() implies '\0' <= #[trigger] t[k] <= '\u{7f}' by {
        if k < acc.len() {
            assert(t[k] == acc[k]);
        }
    }
}

proof fn dollar_fits(s: Seq<u8>, i: int)
    ensures
        g_dollar(s, i) matches Ok((v, _)) ==> fits(s, v),
{
    ident_is_named(s, i);
    if let Ok((_, k)) = g_ident(s, i) {
        ident_is_named(s, k + 1);
    }
}

proof fn value_fits(s: Seq<u8>, i: int)
    ensures
        g_value(s, i) matches Ok((v, _)) ==> fits(s, v),
    decreases s.len() - i, 3nat,
{
    let j = skip_ws(s, i);
    skip_ws_bounds(s, i);
    if 0 <= j < s.len() {
        if s[j] == 39 {
            if low(s) {
                quoted_is_low(s, j + 1, Seq::empty());
            }
        } else if s[j] == 36 {
            dollar_fits(s, j + 1);
        } else if s[j] == 91 {
            skip_ws_bounds(s, j + 1);
            if next_is(s, j + 1, 93) {
                list_fits(s, Seq::empty());
            } else {
                items_fit(s, skip_ws(s, j + 1), Seq::empty());
                if let Ok((xs, _)) = g_items(s, skip_ws(s, j + 1), Seq::empty()) {
                    list_fits(s, xs);
                }
            }
        } else if letter(s[j]) && !crate::pred_parse::digit_byte(s[j]) && s[j] != 45 {
            word_fits(s, i, j);
        }
    }
}

/// A word and what follows it.
proof fn word_fits(s: Seq<u8>, i: int, j: int)
    requires
        j == skip_ws(s, i),
        i <= j,
        0 <= j < s.len(),
        letter(s[j]),
    ensures
        g_value(s, i) matches Ok((v, _)) ==> fits(s, v),
    decreases s.len() - i, 2nat,
{
    skip_ws_idem(s, i);
    ident_is_named(s, j);
    ident_bounds(s, j);
    if let Ok((word, k)) = g_ident(s, j) {
        skip_ws_bounds(s, k);
        if word == "true"@ || word == "false"@ {
        } else if word == "each"@ || word == "all"@ {
            if let Ok(m) = g_expect(s, k, 40) {
                value_fits(s, m);
                if let Ok((inner, _)) = g_value(s, m) {
                    if let ValV::List(xs) = inner {
                        assert(unslashed(inner) == unslashed_list(xs));
                        assert(writable(inner) == writable_list(xs));
                        assert(unslashed(each_of(inner)) == unslashed_list(xs));
                        assert(writable(each_of(inner)) == writable_list(xs));
                        assert(telling(inner) == telling_list(xs));
                        assert(telling(each_of(inner)) == telling_list(xs));
                    } else {
                        assert(fit_list(s, seq![inner]));
                        list_fits(s, seq![inner]);
                    }
                    let all = ValV::All(Box::new(inner));
                    assert(unslashed(all) == unslashed(inner));
                    assert(writable(all) == writable(inner));
                    assert(telling(all) == telling(inner));
                }
            }
        } else {
            pred_fits(s, j);
            if let Ok((p, _)) = g_pred(s, j) {
                let v = ValV::Entity(Box::new(p));
                assert(p.entity == word);
                assert(unslashed(v) == unslashed_pred(p));
                assert(crate::pred_laws::writable_head(word));
                assert(telling(v) == (crate::pred_laws::writable_head(p.entity) && telling_pred(p)));
                assert(writable(v) == (crate::pred_laws::writable_head(p.entity) && writable_pred(
                    p,
                )));
            }
        }
    }
}

proof fn items_fit(s: Seq<u8>, i: int, acc: Seq<ValV>)
    requires
        fit_list(s, acc),
    ensures
        g_items(s, i, acc) matches Ok((xs, _)) ==> fit_list(s, xs),
    decreases s.len() - i, 4nat,
{
    value_fits(s, i);
    if let Ok((v, k)) = g_value(s, i) {
        let more = acc.push(v);
        assert forall|x: int| 0 <= x < more.len() implies fits(s, #[trigger] more[x]) by {
            if x < acc.len() {
                assert(more[x] == acc[x]);
            }
        }
        if !next_is(s, k, 93) {
            if let Ok(m) = g_expect(s, k, 44) {
                if i < m <= s.len() {
                    items_fit(s, m, more);
                }
            }
        }
    }
}

proof fn args_fit(s: Seq<u8>, i: int, acc: Seq<(Seq<char>, ValV)>)
    requires
        fit_args(s, acc),
    ensures
        g_args(s, i, acc) matches Ok((xs, _)) ==> fit_args(s, xs),
    decreases s.len() - i, 0nat,
{
    ident_is_named(s, i);
    ident_bounds(s, i);
    if let Ok((name, j)) = g_ident(s, i) {
        skip_ws_bounds(s, j);
        if let Ok(v0) = g_expect(s, j, 61) {
            value_fits(s, v0);
            if let Ok((v, k)) = g_value(s, v0) {
                let more = acc.push((name, v));
                assert forall|x: int| 0 <= x < more.len() implies writable_name(
                    (#[trigger] more[x]).0,
                ) && fits(s, more[x].1) by {
                    if x < acc.len() {
                        assert(more[x] == acc[x]);
                    }
                }
                if !next_is(s, k, 41) {
                    if let Ok(m) = g_expect(s, k, 44) {
                        if i < m <= s.len() {
                            args_fit(s, m, more);
                        }
                    }
                }
            }
        }
    }
}

proof fn tail_fits(s: Seq<u8>, i: int)
    ensures
        g_tail(s, i) matches Ok((field, v, _)) ==> fits(s, v) && (if field.len() == 0 {
            v == ValV::Bool(true)
        } else {
            writable_name(field)
        }),
    decreases s.len() - i, 0nat,
{
    if next_is(s, i, 46) {
        let j = skip_ws(s, i) + 1;
        skip_ws_bounds(s, i);
        ident_is_named(s, j);
        ident_bounds(s, j);
        if let Ok((_, k)) = g_ident(s, j) {
            if next_is(s, k, 61) {
                skip_ws_bounds(s, k);
                value_fits(s, skip_ws(s, k) + 1);
            }
        }
    }
}

proof fn pred_fits(s: Seq<u8>, i: int)
    ensures
        g_pred(s, i) matches Ok((p, _)) ==> telling_pred(p) && (low(s) && unslashed_pred(p)
            ==> writable_pred(p)),
    decreases s.len() - i, 1nat,
{
    ident_is_named(s, i);
    ident_bounds(s, i);
    if let Ok((entity, j)) = g_ident(s, i) {
        skip_ws_bounds(s, j);
        if let Ok(a) = g_expect(s, j, 40) {
            skip_ws_bounds(s, a);
            let none = Seq::<(Seq<char>, ValV)>::empty();
            args_fit(s, skip_ws(s, a), none);
            if let Ok((p, _)) = g_pred(s, i) {
                let k = if next_is(s, a, 41) {
                    skip_ws(s, a) + 1
                } else {
                    g_args(s, skip_ws(s, a), none)->Ok_0.1
                };
                tail_fits(s, k);
                assert(fit_args(s, p.args));
                let xs = p.args;
                assert forall|x: int| #![trigger xs[x]] 0 <= x < xs.len() implies writable_name(
                    xs[x].0,
                ) && telling(xs[x].1) by {
                    assert(fits(s, xs[x].1));
                }
                assert(telling_args(xs));
                if low(s) && unslashed_pred(p) {
                    assert(unslashed_args(xs));
                    assert forall|x: int| #![trigger xs[x]] 0 <= x < xs.len() implies writable_name(
                        xs[x].0,
                    ) && writable(xs[x].1) by {
                        assert(fits(s, xs[x].1) && unslashed(xs[x].1));
                    }
                    assert(writable_args(xs));
                }
            }
        }
    }
}

/// What is read can be written and read again: a predicate that an ASCII text parses to, with no
/// backslash in its strings, has a text that parses to the same predicate.
pub proof fn what_is_read_reads_back(t: Seq<char>, p: PredV)
    requires
        is_ascii_chars(t),
        parse_spec(t) == Ok::<PredV, crate::pred_parse::ParseErrorV>(p),
        unslashed_pred(p),
    ensures
        parse_spec(pred_text(p)) == Ok::<PredV, crate::pred_parse::ParseErrorV>(p),
{
    let s = encode_utf8(t);
    vstd::utf8::is_ascii_chars_encode_utf8(t);
    assert forall|k: int| 0 <= k < s.len() implies #[trigger] s[k] < 128 by {
        assert(t[k] as u8 == s[k]);
        assert('\0' <= t[k] <= '\u{7f}');
    }
    pred_fits(s, 0);
    round_trip(p);
}

/// Whatever is read has names that are names and numbers that fit, so that it can be told from its
/// text.
pub proof fn what_is_read_can_be_told(t: Seq<char>, p: PredV)
    requires
        parse_spec(t) == Ok::<PredV, crate::pred_parse::ParseErrorV>(p),
    ensures
        telling_pred(p),
{
    pred_fits(encode_utf8(t), 0);
}

} // verus!
