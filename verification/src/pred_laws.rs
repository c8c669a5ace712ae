//! What is written can be read back.

use crate::pred::{existence, PredV, ValV};
use crate::pred_parse::{
    digit_byte, digits_end, digits_val, each_of, g_args, g_expect, g_ident, g_items, g_num, g_pred,
    g_quoted, g_tail, g_value, latin, letter, next_is, parse_spec, skip_ws, white, word_byte, word_end,
};
use crate::pred_print::{args_text, bool_text, escape, list_text, pred_text, val_text};
use crate::text::{dec, digit, int_dec};
use vstd::prelude::*;
use vstd::utf8::{
    char_is_scalar, encode_scalar, encode_utf8, has_width_2_encoding, has_width_3_encoding,
    has_width_4_encoding, is_ascii_chars, last_continuation_byte, leading_byte_width_2,
    leading_byte_width_3, leading_byte_width_4, second_last_continuation_byte,
    third_last_continuation_byte,
};

verus! {

/// A name that can be written: not empty, and made of letters, numbers and underscores.
pub open spec fn writable_name(n: Seq<char>) -> bool {
    n.len() > 0 && forall|k: int|
        0 <= k < encode_utf8(n).len() ==> word_byte(#[trigger] encode_utf8(n)[k])
}

/// A string that can be written: ASCII, without a backslash.
pub open spec fn writable_str(s: Seq<char>) -> bool {
    is_ascii_chars(s) && !s.contains('\\')
}

/// A name that can start a nested entity: one that starts with a letter and is no keyword.
pub open spec fn writable_head(n: Seq<char>) -> bool {
    writable_name(n) && letter(encode_utf8(n)[0]) && n != "true"@ && n != "false"@ && n != "each"@
        && n != "all"@
}

/// A value whose text can be read back.
pub open spec fn writable(v: ValV) -> bool
    decreases v,
{
    match v {
        ValV::Str(s) => writable_str(s),
        ValV::Num(n) => i64::MIN <= n <= i64::MAX,
        ValV::Bool(_) => true,
        ValV::List(xs) => writable_list(xs),
        ValV::Var(n, _) => writable_name(n),
        ValV::Ref(n, f) => writable_name(n) && writable_name(f),
        ValV::Entity(p) => writable_head(p.entity) && writable_pred(*p),
        ValV::Each(xs) => writable_list(xs),
        ValV::All(x) => writable(*x),
    }
}

pub open spec fn writable_list(xs: Seq<ValV>) -> bool
    decreases xs,
{
    forall|i: int| #![trigger xs[i]] 0 <= i < xs.len() ==> writable(xs[i])
}

pub open spec fn writable_args(xs: Seq<(Seq<char>, ValV)>) -> bool
    decreases xs,
{
    forall|i: int|
        #![trigger xs[i]]
        0 <= i < xs.len() ==> writable_name(xs[i].0) && writable(xs[i].1)
}

/// A predicate whose text can be read back. Without a field there is no place for a value, so
/// the value is then the one that reading gives.
pub open spec fn writable_pred(p: PredV) -> bool
    decreases p,
{
    &&& writable_name(p.entity)
    &&& writable_args(p.args)
    &&& writable(p.value)
    &&& if p.field.len() == 0 {
        p.value == ValV::Bool(true)
    } else {
        writable_name(p.field)
    }
}

/// A value whose text is a value's: as one that can be written, but for characters beyond ASCII
/// in its strings.
pub open spec fn legible(v: ValV) -> bool
    decreases v,
{
    match v {
        ValV::Str(s) => !s.contains('\\'),
        ValV::Num(n) => i64::MIN <= n <= i64::MAX,
        ValV::Bool(_) => true,
        ValV::List(xs) => legible_list(xs),
        ValV::Var(n, _) => writable_name(n),
        ValV::Ref(n, f) => writable_name(n) && writable_name(f),
        ValV::Entity(p) => writable_head(p.entity) && legible_pred(*p),
        ValV::Each(xs) => legible_list(xs),
        ValV::All(x) => legible(*x),
    }
}

pub open spec fn legible_list(xs: Seq<ValV>) -> bool
    decreases xs,
{
    forall|i: int| #![trigger xs[i]] 0 <= i < xs.len() ==> legible(xs[i])
}

pub open spec fn legible_args(xs: Seq<(Seq<char>, ValV)>) -> bool
    decreases xs,
{
    forall|i: int|
        #![trigger xs[i]]
        0 <= i < xs.len() ==> writable_name(xs[i].0) && legible(xs[i].1)
}

pub open spec fn legible_pred(p: PredV) -> bool
    decreases p,
{
    &&& writable_name(p.entity)
    &&& legible_args(p.args)
    &&& legible(p.value)
    &&& if p.field.len() == 0 {
        p.value == ValV::Bool(true)
    } else {
        writable_name(p.field)
    }
}

/// What the text of a value is read as: a string becomes the characters with the codes of its
/// bytes.
pub open spec fn as_read(v: ValV) -> ValV
    decreases v,
{
    match v {
        ValV::Str(s) => ValV::Str(latin(encode_utf8(s))),
        ValV::List(xs) => ValV::List(as_read_list(xs)),
        ValV::Entity(p) => ValV::Entity(Box::new(as_read_pred(*p))),
        ValV::Each(xs) => ValV::Each(as_read_list(xs)),
        ValV::All(x) => ValV::All(Box::new(as_read(*x))),
        _ => v,
    }
}

pub open spec fn as_read_list(xs: Seq<ValV>) -> Seq<ValV>
    decreases xs,
{
    Seq::new(
        xs.len(),
        |j: int|
            if 0 <= j < xs.len() {
                as_read(xs[j])
            } else {
                arbitrary()
            },
    )
}

pub open spec fn as_read_args(xs: Seq<(Seq<char>, ValV)>) -> Seq<(Seq<char>, ValV)>
    decreases xs,
{
    Seq::new(
        xs.len(),
        |j: int|
            if 0 <= j < xs.len() {
                (xs[j].0, as_read(xs[j].1))
            } else {
                arbitrary()
            },
    )
}

pub open spec fn as_read_pred(p: PredV) -> PredV
    decreases p,
{
    PredV {
        entity: p.entity,
        args: as_read_args(p.args),
        field: p.field,
        value: as_read(p.value),
    }
}

spec fn at(s: Seq<u8>, i: int, t: Seq<u8>) -> bool {
    0 <= i && i + t.len() <= s.len() && forall|k: int| 0 <= k < t.len() ==> s[i + k] == #[trigger] t[k]
}

/// What stands behind a value: the end, a comma, or a closing bracket.
spec fn stop(s: Seq<u8>, k: int) -> bool {
    k == s.len() || (0 <= k < s.len() && (s[k] == 44 || s[k] == 93 || s[k] == 41))
}

proof fn at_add(s: Seq<u8>, i: int, a: Seq<u8>, b: Seq<u8>)
    requires
        at(s, i, a + b),
    ensures
        at(s, i, a),
        at(s, i + a.len(), b),
{
    let t = a + b;
    assert forall|k: int| 0 <= k < a.len() implies s[i + k] == #[trigger] a[k] by {
        assert(t[k] == a[k]);
    }
    assert forall|k: int| 0 <= k < b.len() implies s[i + a.len() + k] == #[trigger] b[k] by {
        assert(t[a.len() + k] == b[k]);
    }
}

pub proof fn enc_add(a: Seq<char>, b: Seq<char>)
    ensures
        encode_utf8(a + b) == encode_utf8(a) + encode_utf8(b),
    decreases a.len(),
{
    if a.len() == 0 {
        assert(a + b =~= b);
        assert(encode_utf8(a) + encode_utf8(b) =~= encode_utf8(b));
    } else {
        enc_add(a.drop_first(), b);
        assert((a + b).drop_first() =~= a.drop_first() + b);
        assert(encode_utf8(a + b) =~= encode_utf8(a) + encode_utf8(b));
    }
}

/// The text `a` followed by `b` stands at `i`: so does `a`, and `b` behind it.
proof fn at_text(s: Seq<u8>, i: int, a: Seq<char>, b: Seq<char>)
    requires
        at(s, i, encode_utf8(a + b)),
    ensures
        at(s, i, encode_utf8(a)),
        at(s, i + encode_utf8(a).len(), encode_utf8(b)),
        encode_utf8(a + b).len() == encode_utf8(a).len() + encode_utf8(b).len(),
{
    enc_add(a, b);
    at_add(s, i, encode_utf8(a), encode_utf8(b));
}

pub proof fn enc_char(c: char)
    requires
        (c as u32) < 128,
    ensures
        encode_utf8(seq![c]) == seq![c as u8],
{
    let t = seq![c];
    assert(is_ascii_chars(t));
    vstd::utf8::is_ascii_chars_encode_utf8(t);
    assert(t[0] as u8 == encode_utf8(t)[0]);
    assert(encode_utf8(t) =~= seq![c as u8]);
}

/// The character `c` stands at `i`.
proof fn at_char(s: Seq<u8>, i: int, c: char)
    requires
        (c as u32) < 128,
        at(s, i, encode_utf8(seq![c])),
    ensures
        0 <= i < s.len(),
        s[i] == c as u8,
        encode_utf8(seq![c]).len() == 1,
{
    enc_char(c);
    assert(s[i + 0] == encode_utf8(seq![c])[0]);
}

proof fn ws_none(s: Seq<u8>, i: int)
    requires
        i == s.len() || (0 <= i < s.len() && !white(s[i])),
    ensures
        skip_ws(s, i) == i,
{
}

proof fn word_run(s: Seq<u8>, i: int, k: int)
    requires
        0 <= i <= k <= s.len(),
        forall|j: int| i <= j < k ==> word_byte(#[trigger] s[j]),
        k == s.len() || !word_byte(s[k]),
    ensures
        word_end(s, i) == k,
    decreases k - i,
{
    if i < k {
        assert(word_byte(s[i]));
        word_run(s, i + 1, k);
    }
}

proof fn digit_run(s: Seq<u8>, i: int, k: int)
    requires
        0 <= i <= k <= s.len(),
        forall|j: int| i <= j < k ==> digit_byte(#[trigger] s[j]),
        k == s.len() || !digit_byte(s[k]),
    ensures
        digits_end(s, i) == k,
    decreases k - i,
{
    if i < k {
        assert(digit_byte(s[i]));
        digit_run(s, i + 1, k);
    }
}

/// A name is read back where no identifier byte follows it.
proof fn ident_rt(s: Seq<u8>, i: int, n: Seq<char>)
    requires
        writable_name(n),
        at(s, i, encode_utf8(n)),
        i + encode_utf8(n).len() == s.len() || !word_byte(s[i + encode_utf8(n).len() as int]),
    ensures
        g_ident(s, i) == Ok::<(Seq<char>, int), crate::pred_parse::ParseErrorV>(
            (n, i + encode_utf8(n).len()),
        ),
        encode_utf8(n).len() > 0,
        s[i] == encode_utf8(n)[0],
        word_byte(s[i]),
{
    let b = encode_utf8(n);
    let k = i + b.len();
    vstd::utf8::encode_utf8_first_scalar(n);
    vstd::utf8::encode_utf8_valid_utf8(n);
    vstd::utf8::encode_utf8_decode_utf8(n);
    enc_nonempty(n);
    assert(s[i + 0] == b[0]);
    assert(word_byte(b[0]));
    assert forall|j: int| i <= j < k implies word_byte(#[trigger] s[j]) by {
        assert(s[i + (j - i)] == b[j - i]);
    }
    ws_none(s, i);
    word_run(s, i, k);
    assert(s.subrange(i, k) =~= b) by {
        assert forall|j: int| 0 <= j < b.len() implies s.subrange(i, k)[j] == b[j] by {
            assert(s[i + j] == b[j]);
        }
    }
}

proof fn enc_nonempty(n: Seq<char>)
    requires
        n.len() > 0,
    ensures
        encode_utf8(n).len() > 0,
{
}

/// The bytes of a character beyond ASCII are no ASCII bytes.
proof fn enc_high(c: char)
    requires
        (c as u32) >= 128,
    ensures
        forall|k: int| 0 <= k < encode_utf8(seq![c]).len() ==> #[trigger] encode_utf8(seq![c])[k] >= 128,
{
    let t = seq![c];
    let n = c as u32;
    assert(t.drop_first() =~= Seq::<char>::empty());
    assert(encode_utf8(t.drop_first()) =~= Seq::<u8>::empty());
    assert(encode_utf8(t) =~= encode_scalar(n));
    assert(n >= 128 && has_width_2_encoding(n) ==> leading_byte_width_2(n) >= 128) by (bit_vector);
    assert(has_width_3_encoding(n) ==> leading_byte_width_3(n) >= 128) by (bit_vector);
    assert(has_width_4_encoding(n) ==> leading_byte_width_4(n) >= 128) by (bit_vector);
    assert(last_continuation_byte(n) >= 128) by (bit_vector);
    assert(second_last_continuation_byte(n) >= 128) by (bit_vector);
    assert(third_last_continuation_byte(n) >= 128) by (bit_vector);
    char_is_scalar(c);
}

proof fn low_char(c: char)
    requires
        (c as u32) < 128,
    ensures
        (c as u8) as char == c,
{
}

proof fn latin_add(a: Seq<u8>, b: Seq<u8>)
    ensures
        latin(a + b) == latin(a) + latin(b),
{
    assert(latin(a + b) =~= latin(a) + latin(b));
}

/// Bytes beyond ASCII are read one by one.
proof fn raw_rt(s: Seq<u8>, i: int, t: Seq<u8>, acc: Seq<char>)
    requires
        at(s, i, t),
        forall|k: int| 0 <= k < t.len() ==> #[trigger] t[k] >= 128,
    ensures
        g_quoted(s, i, acc) == g_quoted(s, i + t.len(), acc + latin(t)),
    decreases t.len(),
{
    if t.len() == 0 {
        assert(acc + latin(t) =~= acc);
    } else {
        let u = t.drop_last();
        assert forall|k: int| 0 <= k < u.len() implies s[i + k] == #[trigger] u[k] && u[k] >= 128 by {
            assert(t[k] == u[k]);
        }
        raw_rt(s, i, u, acc);
        let m = i + u.len();
        assert(s[i + (t.len() - 1)] == t[t.len() - 1]);
        assert((acc + latin(u)).push(t.last() as char) =~= acc + latin(t));
    }
}

proof fn quoted_rt(s: Seq<u8>, i: int, t: Seq<char>, acc: Seq<char>)
    requires
        !t.contains('\\'),
        at(s, i, encode_utf8(escape(t))),
    ensures
        g_quoted(s, i, acc) == g_quoted(
            s,
            i + encode_utf8(escape(t)).len(),
            acc + latin(encode_utf8(t)),
        ),
    decreases t.len(),
{
    if t.len() == 0 {
        assert(acc + latin(encode_utf8(t)) =~= acc);
    } else {
        let u = t.drop_last();
        let c = t.last();
        if u.contains('\\') {
            let k = choose|k: int| 0 <= k < u.len() && u[k] == '\\';
            assert(t[k] == '\\');
        }
        assert(t[t.len() - 1] == c);
        assert(c != '\\') by {
            if c == '\\' {
                assert(t.contains('\\'));
            }
        }
        let tail = if c == '\'' {
            seq!['\\', '\'']
        } else {
            seq![c]
        };
        assert(escape(t) =~= escape(u) + tail);
        at_text(s, i, escape(u), tail);
        quoted_rt(s, i, u, acc);
        let m = i + encode_utf8(escape(u)).len();
        let read = acc + latin(encode_utf8(u));
        assert(t =~= u + seq![c]);
        enc_add(u, seq![c]);
        latin_add(encode_utf8(u), encode_utf8(seq![c]));
        assert(read + latin(encode_utf8(seq![c])) =~= acc + latin(encode_utf8(t)));
        if (c as u32) < 128 {
            enc_char(c);
            low_char(c);
            assert(latin(seq![c as u8]) =~= seq![c]);
            assert(read.push(c) =~= read + seq![c]);
        }
        if c == '\'' {
            assert(seq!['\\', '\''] =~= seq!['\\'] + seq!['\'']);
            at_text(s, m, seq!['\\'], seq!['\'']);
            at_char(s, m, '\\');
            at_char(s, m + 1, '\'');
            assert(39u8 as char == '\'');
        } else if (c as u32) < 128 {
            at_char(s, m, c);
            if c as u8 == 39 {
                assert(c == '\'');
            }
            if c as u8 == 92 {
                assert(c == '\\');
            }
        } else {
            enc_high(c);
            raw_rt(s, m, encode_utf8(seq![c]), read);
        }
    }
}

pub proof fn dec_rt(n: nat)
    ensures
        dec(n).len() > 0,
        is_ascii_chars(dec(n)),
        forall|k: int| 0 <= k < dec(n).len() ==> digit_byte(#[trigger] encode_utf8(dec(n))[k]),
        encode_utf8(dec(n)).len() == dec(n).len(),
        digits_val(encode_utf8(dec(n))) == n,
    decreases n,
{
    let d = dec(n);
    let c = digit(n % 10);
    assert(48 <= c as u32 <= 57);
    if n < 10 {
        assert(d =~= seq![c]);
        enc_char(c);
        let b = encode_utf8(d);
        assert(b.drop_last() =~= Seq::<u8>::empty());
        assert(digits_val(b.drop_last()) == 0);
        assert(digits_val(b) == (b.last() - 48) as nat);
    } else {
        dec_rt(n / 10);
        let p = dec(n / 10);
        assert(d =~= p + seq![c]);
        enc_add(p, seq![c]);
        enc_char(c);
        let b = encode_utf8(d);
        assert(b.drop_last() =~= encode_utf8(p));
        assert(b.last() == c as u8);
        assert forall|k: int| 0 <= k < d.len() implies digit_byte(#[trigger] b[k]) by {
            if k < p.len() {
                assert(b[k] == encode_utf8(p)[k]);
            }
        }
        assert(is_ascii_chars(d)) by {
            assert forall|k: int| 0 <= k < d.len() implies '\0' <= #[trigger] d[k] <= '\u{7f}' by {
                if k < p.len() {
                    assert(d[k] == p[k]);
                }
            }
        }
    }
}

proof fn num_rt(s: Seq<u8>, i: int, n: int)
    requires
        i64::MIN <= n <= i64::MAX,
        at(s, i, encode_utf8(int_dec(n))),
        stop(s, i + encode_utf8(int_dec(n)).len()),
    ensures
        g_num(s, i) == Ok::<(ValV, int), crate::pred_parse::ParseErrorV>(
            (ValV::Num(n), i + encode_utf8(int_dec(n)).len()),
        ),
        0 <= i < s.len(),
        digit_byte(s[i]) || s[i] == 45,
{
    let t = int_dec(n);
    let b = encode_utf8(t);
    let k = i + b.len();
    if n < 0 {
        let m = (-n) as nat;
        dec_rt(m);
        at_text(s, i, seq!['-'], dec(m));
        at_char(s, i, '-');
        let ds = encode_utf8(dec(m));
        assert forall|j: int| i + 1 <= j < k implies digit_byte(#[trigger] s[j]) by {
            assert(s[i + 1 + (j - i - 1)] == ds[j - i - 1]);
        }
        digit_run(s, i + 1, k);
        let sub = s.subrange(i, k);
        assert(sub[0] == 45);
        assert(sub.drop_first() =~= ds) by {
            assert forall|j: int| 0 <= j < ds.len() implies sub.drop_first()[j] == ds[j] by {
                assert(s[i + 1 + j] == ds[j]);
            }
        }
    } else {
        let m = n as nat;
        dec_rt(m);
        assert forall|j: int| i <= j < k implies digit_byte(#[trigger] s[j]) by {
            assert(s[i + (j - i)] == b[j - i]);
        }
        digit_run(s, i + 1, k);
        let sub = s.subrange(i, k);
        assert(sub =~= b) by {
            assert forall|j: int| 0 <= j < b.len() implies sub[j] == b[j] by {
                assert(s[i + j] == b[j]);
            }
        }
        assert(s[i + 0] == b[0]);
    }
}

proof fn lit_rt(s: Seq<u8>, i: int, n: Seq<char>)
    requires
        n == "true"@ || n == "false"@ || n == "each"@ || n == "all"@,
    ensures
        writable_name(n),
        letter(encode_utf8(n)[0]),
{
    reveal_strlit("true");
    reveal_strlit("false");
    reveal_strlit("each");
    reveal_strlit("all");
    assert(is_ascii_chars(n));
    vstd::utf8::is_ascii_chars_encode_utf8(n);
    assert forall|k: int| 0 <= k < encode_utf8(n).len() implies word_byte(
        #[trigger] encode_utf8(n)[k],
    ) by {
        assert(n[k] as u8 == encode_utf8(n)[k]);
    }
    assert(n[0] as u8 == encode_utf8(n)[0]);
}

proof fn value_str_rt(s: Seq<u8>, i: int, v: ValV)
    requires
        v is Str,
        legible(v),
        at(s, i, encode_utf8(val_text(v))),
        stop(s, i + encode_utf8(val_text(v)).len()),
    ensures
        g_value(s, i) == Ok::<(ValV, int), crate::pred_parse::ParseErrorV>(
            (as_read(v), i + encode_utf8(val_text(v)).len()),
        ),
        0 <= i < s.len(),
        !white(s[i]),
        s[i] != 93,
    decreases v, 0nat,
{
    let x = v->Str_0;
    let k = i + encode_utf8(val_text(v)).len();
    let a = seq!['\''] + escape(x);
    at_text(s, i, a, seq!['\'']);
    at_text(s, i, seq!['\''], escape(x));
    at_char(s, i, '\'');
    let m = i + 1 + encode_utf8(escape(x)).len();
    at_char(s, m, '\'');
    quoted_rt(s, i + 1, x, Seq::empty());
    assert(Seq::<char>::empty() + latin(encode_utf8(x)) =~= latin(encode_utf8(x)));
    ws_none(s, i);
}

proof fn value_bool_rt(s: Seq<u8>, i: int, v: ValV)
    requires
        v is Bool,
        legible(v),
        at(s, i, encode_utf8(val_text(v))),
        stop(s, i + encode_utf8(val_text(v)).len()),
    ensures
        g_value(s, i) == Ok::<(ValV, int), crate::pred_parse::ParseErrorV>(
            (as_read(v), i + encode_utf8(val_text(v)).len()),
        ),
        0 <= i < s.len(),
        !white(s[i]),
        s[i] != 93,
    decreases v, 0nat,
{
    let b = v->Bool_0;
    let k = i + encode_utf8(val_text(v)).len();
    let n = bool_text(b);
    lit_rt(s, i, n);
    ident_rt(s, i, n);
    ws_none(s, i);
    reveal_strlit("true");
    reveal_strlit("false");
    assert("true"@ != "false"@) by {
        assert("true"@.len() == 4);
        assert("false"@.len() == 5);
    }
}

proof fn value_list_rt(s: Seq<u8>, i: int, v: ValV)
    requires
        v is List,
        legible(v),
        at(s, i, encode_utf8(val_text(v))),
        stop(s, i + encode_utf8(val_text(v)).len()),
    ensures
        g_value(s, i) == Ok::<(ValV, int), crate::pred_parse::ParseErrorV>(
            (as_read(v), i + encode_utf8(val_text(v)).len()),
        ),
        0 <= i < s.len(),
        !white(s[i]),
        s[i] != 93,
    decreases v, 0nat,
{
    let xs = v->List_0;
    let k = i + encode_utf8(val_text(v)).len();
    let a = seq!['['] + list_text(xs);
    at_text(s, i, a, seq![']']);
    at_text(s, i, seq!['['], list_text(xs));
    at_char(s, i, '[');
    let m = i + 1 + encode_utf8(list_text(xs)).len();
    at_char(s, m, ']');
    ws_none(s, i);
    bracket_rt(s, i + 1, xs);
    assert(as_read(v) == ValV::List(as_read_list(xs)));
}

proof fn value_var_rt(s: Seq<u8>, i: int, v: ValV)
    requires
        v is Var,
        legible(v),
        at(s, i, encode_utf8(val_text(v))),
        stop(s, i + encode_utf8(val_text(v)).len()),
    ensures
        g_value(s, i) == Ok::<(ValV, int), crate::pred_parse::ParseErrorV>(
            (as_read(v), i + encode_utf8(val_text(v)).len()),
        ),
        0 <= i < s.len(),
        !white(s[i]),
        s[i] != 93,
    decreases v, 0nat,
{
    let n = v->Var_0;
    let spread = v->Var_1;
    let k = i + encode_utf8(val_text(v)).len();
    let tail = if spread {
        "[]"@
    } else {
        Seq::empty()
    };
    at_text(s, i, seq!['$'] + n, tail);
    at_text(s, i, seq!['$'], n);
    at_char(s, i, '$');
    ws_none(s, i);
    let m = i + 1 + encode_utf8(n).len();
    if spread {
        reveal_strlit("[]");
        assert("[]"@ =~= seq!['['] + seq![']']);
        at_text(s, m, seq!['['], seq![']']);
        at_char(s, m, '[');
        at_char(s, m + 1, ']');
    } else {
        assert(encode_utf8(tail).len() == 0);
    }
    ident_rt(s, i + 1, n);
}

proof fn value_ref_rt(s: Seq<u8>, i: int, v: ValV)
    requires
        v is Ref,
        legible(v),
        at(s, i, encode_utf8(val_text(v))),
        stop(s, i + encode_utf8(val_text(v)).len()),
    ensures
        g_value(s, i) == Ok::<(ValV, int), crate::pred_parse::ParseErrorV>(
            (as_read(v), i + encode_utf8(val_text(v)).len()),
        ),
        0 <= i < s.len(),
        !white(s[i]),
        s[i] != 93,
    decreases v, 0nat,
{
    let n = v->Ref_0;
    let f = v->Ref_1;
    let k = i + encode_utf8(val_text(v)).len();
    at_text(s, i, seq!['$'] + n + seq!['.'], f);
    at_text(s, i, seq!['$'] + n, seq!['.']);
    at_text(s, i, seq!['$'], n);
    at_char(s, i, '$');
    ws_none(s, i);
    let m = i + 1 + encode_utf8(n).len();
    at_char(s, m, '.');
    ident_rt(s, i + 1, n);
    ident_rt(s, m + 1, f);
}

proof fn value_entity_rt(s: Seq<u8>, i: int, v: ValV)
    requires
        v is Entity,
        legible(v),
        at(s, i, encode_utf8(val_text(v))),
        stop(s, i + encode_utf8(val_text(v)).len()),
    ensures
        g_value(s, i) == Ok::<(ValV, int), crate::pred_parse::ParseErrorV>(
            (as_read(v), i + encode_utf8(val_text(v)).len()),
        ),
        0 <= i < s.len(),
        !white(s[i]),
        s[i] != 93,
    decreases v, 0nat,
{
    let p = v->Entity_0;
    let k = i + encode_utf8(val_text(v)).len();
    let rest = pred_rest(*p);
    pred_text_split(*p);
    at_text(s, i, p.entity, rest);
    let j = i + encode_utf8(p.entity).len();
    at_text(s, j, seq!['('], rest.drop_first());
    at_char(s, j, '(');
    ident_rt(s, i, p.entity);
    ws_none(s, i);
    pred_rt(s, i, *p);
    assert(as_read(v) == ValV::Entity(Box::new(as_read_pred(*p))));
}

proof fn value_each_rt(s: Seq<u8>, i: int, v: ValV)
    requires
        v is Each,
        legible(v),
        at(s, i, encode_utf8(val_text(v))),
        stop(s, i + encode_utf8(val_text(v)).len()),
    ensures
        g_value(s, i) == Ok::<(ValV, int), crate::pred_parse::ParseErrorV>(
            (as_read(v), i + encode_utf8(val_text(v)).len()),
        ),
        0 <= i < s.len(),
        !white(s[i]),
        s[i] != 93,
    decreases v, 0nat,
{
    let xs = v->Each_0;
    let k = i + encode_utf8(val_text(v)).len();
    reveal_strlit("each([");
    reveal_strlit("each");
    reveal_strlit("])");
    reveal_strlit("true");
    reveal_strlit("false");
    at_text(s, i, "each(["@ + list_text(xs), "])"@);
    at_text(s, i, "each(["@, list_text(xs));
    assert("each(["@ =~= "each"@ + seq!['('] + seq!['[']);
    at_text(s, i, "each"@ + seq!['('], seq!['[']);
    at_text(s, i, "each"@, seq!['(']);
    lit_rt(s, i, "each"@);
    let j = i + encode_utf8("each"@).len();
    at_char(s, j, '(');
    at_char(s, j + 1, '[');
    let m = j + 2 + encode_utf8(list_text(xs)).len();
    assert("])"@ =~= seq![']'] + seq![')']);
    at_text(s, m, seq![']'], seq![')']);
    at_char(s, m, ']');
    at_char(s, m + 1, ')');
    ident_rt(s, i, "each"@);
    ws_none(s, i);
    ws_none(s, j);
    ws_none(s, j + 1);
    ws_none(s, m + 1);
    bracket_rt(s, j + 2, xs);
    assert("each"@ != "true"@ && "each"@ != "false"@) by {
        assert("each"@[0] == 'e' && "true"@[0] == 't' && "false"@[0] == 'f');
    }
    assert(as_read(v) == ValV::Each(as_read_list(xs)));
    assert(each_of(ValV::List(as_read_list(xs))) == as_read(v));
}

proof fn value_all_rt(s: Seq<u8>, i: int, v: ValV)
    requires
        v is All,
        legible(v),
        at(s, i, encode_utf8(val_text(v))),
        stop(s, i + encode_utf8(val_text(v)).len()),
    ensures
        g_value(s, i) == Ok::<(ValV, int), crate::pred_parse::ParseErrorV>(
            (as_read(v), i + encode_utf8(val_text(v)).len()),
        ),
        0 <= i < s.len(),
        !white(s[i]),
        s[i] != 93,
    decreases v, 0nat,
{
    let x = v->All_0;
    let k = i + encode_utf8(val_text(v)).len();
    reveal_strlit("all(");
    reveal_strlit("all");
    reveal_strlit("each");
    reveal_strlit("true");
    reveal_strlit("false");
    at_text(s, i, "all("@ + val_text(*x), seq![')']);
    at_text(s, i, "all("@, val_text(*x));
    assert("all("@ =~= "all"@ + seq!['(']);
    at_text(s, i, "all"@, seq!['(']);
    lit_rt(s, i, "all"@);
    let j = i + encode_utf8("all"@).len();
    at_char(s, j, '(');
    let m = j + 1 + encode_utf8(val_text(*x)).len();
    at_char(s, m, ')');
    ident_rt(s, i, "all"@);
    ws_none(s, i);
    ws_none(s, j);
    ws_none(s, m);
    value_rt(s, j + 1, *x);
    assert("all"@ != "true"@ && "all"@ != "false"@ && "all"@ != "each"@) by {
        assert("all"@[0] == 'a' && "true"@[0] == 't' && "false"@[0] == 'f' && "each"@[0]
            == 'e');
    }
}

/// A value is read back where a stop follows it.
proof fn value_rt(s: Seq<u8>, i: int, v: ValV)
    requires
        legible(v),
        at(s, i, encode_utf8(val_text(v))),
        stop(s, i + encode_utf8(val_text(v)).len()),
    ensures
        g_value(s, i) == Ok::<(ValV, int), crate::pred_parse::ParseErrorV>(
            (as_read(v), i + encode_utf8(val_text(v)).len()),
        ),
        0 <= i < s.len(),
        !white(s[i]),
        s[i] != 93,
    decreases v, 1nat,
{
    match v {
        ValV::Str(_) => value_str_rt(s, i, v),
        ValV::Num(n) => {
            num_rt(s, i, n);
            ws_none(s, i);
        },
        ValV::Bool(_) => value_bool_rt(s, i, v),
        ValV::List(_) => value_list_rt(s, i, v),
        ValV::Var(_, _) => value_var_rt(s, i, v),
        ValV::Ref(_, _) => value_ref_rt(s, i, v),
        ValV::Entity(_) => value_entity_rt(s, i, v),
        ValV::Each(_) => value_each_rt(s, i, v),
        ValV::All(_) => value_all_rt(s, i, v),
    }
}

/// The text of a list is read back, from behind its opening bracket.
proof fn bracket_rt(s: Seq<u8>, i: int, xs: Seq<ValV>)
    requires
        legible_list(xs),
        at(s, i, encode_utf8(list_text(xs))),
        0 <= i,
        i + encode_utf8(list_text(xs)).len() < s.len(),
        s[i + encode_utf8(list_text(xs)).len() as int] == 93,
        0 < i,
        s[i - 1] == 91,
    ensures
        g_value(s, i - 1) == Ok::<(ValV, int), crate::pred_parse::ParseErrorV>(
            (ValV::List(as_read_list(xs)), i + encode_utf8(list_text(xs)).len() + 1),
        ),
    decreases xs, 1nat,
{
    let m = i + encode_utf8(list_text(xs)).len();
    ws_none(s, i - 1);
    ws_none(s, m);
    if xs.len() == 0 {
        assert(m == i);
        assert(as_read_list(xs) =~= Seq::<ValV>::empty());
    } else {
        let last = xs[xs.len() - 1];
        if xs.len() == 1 {
            value_rt(s, i, last);
            ws_none(s, i);
            assert(Seq::<ValV>::empty().push(as_read(last)) =~= as_read_list(xs));
        } else {
            let ys = xs.drop_last();
            let pre = list_text(ys) + seq![','];
            at_text(s, i, pre, val_text(last));
            at_text(s, i, list_text(ys), seq![',']);
            let c = i + encode_utf8(list_text(ys)).len();
            at_char(s, c, ',');
            assert(legible_list(ys)) by {
                assert forall|k: int| #![trigger ys[k]] 0 <= k < ys.len() implies legible(ys[k]) by {
                    assert(ys[k] == xs[k]);
                }
            }
            items_rt(s, i, ys, Seq::empty());
            value_rt(s, c + 1, last);
            ws_none(s, i);
            assert(Seq::<ValV>::empty() + as_read_list(ys) =~= as_read_list(ys));
            assert(as_read_list(ys).push(as_read(last)) =~= as_read_list(xs));
        }
    }
}

/// Elements with a comma behind them are read, and reading goes on behind the comma.
proof fn items_rt(s: Seq<u8>, i: int, xs: Seq<ValV>, acc: Seq<ValV>)
    requires
        xs.len() > 0,
        legible_list(xs),
        at(s, i, encode_utf8(list_text(xs))),
        i + encode_utf8(list_text(xs)).len() < s.len(),
        s[i + encode_utf8(list_text(xs)).len() as int] == 44,
    ensures
        g_items(s, i, acc) == g_items(
            s,
            i + encode_utf8(list_text(xs)).len() + 1,
            acc + as_read_list(xs),
        ),
        0 <= i < s.len(),
        !white(s[i]),
        s[i] != 93,
    decreases xs, 0nat,
{
    let m = i + encode_utf8(list_text(xs)).len();
    let last = xs[xs.len() - 1];
    ws_none(s, m);
    if xs.len() == 1 {
        value_rt(s, i, last);
        assert(acc.push(as_read(last)) =~= acc + as_read_list(xs));
    } else {
        let ys = xs.drop_last();
        let pre = list_text(ys) + seq![','];
        at_text(s, i, pre, val_text(last));
        at_text(s, i, list_text(ys), seq![',']);
        let c = i + encode_utf8(list_text(ys)).len();
        at_char(s, c, ',');
        assert(legible_list(ys)) by {
            assert forall|k: int| #![trigger ys[k]] 0 <= k < ys.len() implies legible(ys[k]) by {
                assert(ys[k] == xs[k]);
            }
        }
        items_rt(s, i, ys, acc);
        value_rt(s, c + 1, last);
        assert((acc + as_read_list(ys)).push(as_read(last)) =~= acc + as_read_list(xs));
    }
}

/// Named arguments with a comma behind them are read, and reading goes on behind the comma.
proof fn args_rt(s: Seq<u8>, i: int, xs: Seq<(Seq<char>, ValV)>, acc: Seq<(Seq<char>, ValV)>)
    requires
        xs.len() > 0,
        legible_args(xs),
        at(s, i, encode_utf8(args_text(xs))),
        i + encode_utf8(args_text(xs)).len() < s.len(),
        s[i + encode_utf8(args_text(xs)).len() as int] == 44,
    ensures
        g_args(s, i, acc) == g_args(
            s,
            i + encode_utf8(args_text(xs)).len() + 1,
            acc + as_read_args(xs),
        ),
        0 <= i < s.len(),
        !white(s[i]),
        s[i] != 41,
    decreases xs, 0nat,
{
    let m = i + encode_utf8(args_text(xs)).len();
    let x = xs[xs.len() - 1];
    let one = x.0 + seq!['='] + val_text(x.1);
    ws_none(s, m);
    if xs.len() == 1 {
        arg_rt(s, i, x);
        assert(acc.push((x.0, as_read(x.1))) =~= acc + as_read_args(xs));
    } else {
        let ys = xs.drop_last();
        let pre = args_text(ys) + seq![','];
        assert(args_text(xs) =~= pre + one);
        at_text(s, i, pre, one);
        at_text(s, i, args_text(ys), seq![',']);
        let c = i + encode_utf8(args_text(ys)).len();
        at_char(s, c, ',');
        assert(legible_args(ys)) by {
            assert forall|k: int| #![trigger ys[k]] 0 <= k < ys.len() implies writable_name(ys[k].0)
                && legible(ys[k].1) by {
                assert(ys[k] == xs[k]);
            }
        }
        args_rt(s, i, ys, acc);
        arg_rt(s, c + 1, x);
        assert((acc + as_read_args(ys)).push((x.0, as_read(x.1))) =~= acc + as_read_args(xs));
    }
}

/// One named argument with a comma or a closing parenthesis behind it.
proof fn arg_rt(s: Seq<u8>, i: int, x: (Seq<char>, ValV))
    requires
        writable_name(x.0),
        legible(x.1),
        at(s, i, encode_utf8(x.0 + seq!['='] + val_text(x.1))),
        stop(s, i + encode_utf8(x.0 + seq!['='] + val_text(x.1)).len()),
    ensures
        g_ident(s, i) == Ok::<(Seq<char>, int), crate::pred_parse::ParseErrorV>(
            (x.0, i + encode_utf8(x.0).len()),
        ),
        g_expect(s, i + encode_utf8(x.0).len(), 61) == Ok::<int, crate::pred_parse::ParseErrorV>(
            i + encode_utf8(x.0).len() + 1,
        ),
        g_value(s, i + encode_utf8(x.0).len() + 1) == Ok::<
            (ValV, int),
            crate::pred_parse::ParseErrorV,
        >((as_read(x.1), i + encode_utf8(x.0 + seq!['='] + val_text(x.1)).len())),
        0 <= i < s.len(),
        word_byte(s[i]),
        !white(s[i]),
        s[i] != 41,
    decreases x, 0nat,
{
    at_text(s, i, x.0 + seq!['='], val_text(x.1));
    at_text(s, i, x.0, seq!['=']);
    let j = i + encode_utf8(x.0).len();
    at_char(s, j, '=');
    ident_rt(s, i, x.0);
    ws_none(s, j);
    value_rt(s, j + 1, x.1);
}

/// What follows the entity in the text of a predicate.
spec fn pred_rest(p: PredV) -> Seq<char> {
    let head = seq!['('] + args_text(p.args) + seq![')'];
    if p.field.len() == 0 {
        head
    } else if existence(p.field) && p.value == ValV::Bool(true) {
        head + seq!['.'] + p.field
    } else {
        head + seq!['.'] + p.field + seq!['='] + val_text(p.value)
    }
}

proof fn pred_text_split(p: PredV)
    ensures
        pred_text(p) == p.entity + pred_rest(p),
        pred_rest(p) == seq!['('] + pred_rest(p).drop_first(),
{
    assert(pred_text(p) =~= p.entity + pred_rest(p));
    assert(pred_rest(p)[0] == '(');
    assert(pred_rest(p) =~= seq!['('] + pred_rest(p).drop_first());
}

/// The arguments of a predicate are read back, from behind the opening parenthesis.
proof fn pred_args_rt(s: Seq<u8>, a: int, xs: Seq<(Seq<char>, ValV)>)
    requires
        legible_args(xs),
        at(s, a, encode_utf8(args_text(xs))),
        a + encode_utf8(args_text(xs)).len() < s.len(),
        s[a + encode_utf8(args_text(xs)).len() as int] == 41,
    ensures
        skip_ws(s, a) == a,
        xs.len() == 0 <==> next_is(s, a, 41),
        xs.len() == 0 ==> encode_utf8(args_text(xs)).len() == 0,
        xs.len() > 0 ==> g_args(s, a, Seq::empty()) == Ok::<
            (Seq<(Seq<char>, ValV)>, int),
            crate::pred_parse::ParseErrorV,
        >((as_read_args(xs), a + encode_utf8(args_text(xs)).len() + 1)),
    decreases xs, 1nat,
{
    let c = a + encode_utf8(args_text(xs)).len();
    ws_none(s, c);
    if xs.len() == 0 {
        assert(xs =~= Seq::<(Seq<char>, ValV)>::empty());
        assert(encode_utf8(args_text(xs)).len() == 0);
    } else {
        let x = xs[xs.len() - 1];
        let one = x.0 + seq!['='] + val_text(x.1);
        if xs.len() == 1 {
            arg_rt(s, a, x);
            ws_none(s, a);
            assert(Seq::<(Seq<char>, ValV)>::empty().push((x.0, as_read(x.1))) =~= as_read_args(xs));
        } else {
            let ys = xs.drop_last();
            let pre = args_text(ys) + seq![','];
            assert(args_text(xs) =~= pre + one);
            at_text(s, a, pre, one);
            at_text(s, a, args_text(ys), seq![',']);
            let d = a + encode_utf8(args_text(ys)).len();
            at_char(s, d, ',');
            assert(legible_args(ys)) by {
                assert forall|k: int| #![trigger ys[k]] 0 <= k < ys.len() implies writable_name(
                    ys[k].0,
                ) && legible(ys[k].1) by {
                    assert(ys[k] == xs[k]);
                }
            }
            args_rt(s, a, ys, Seq::empty());
            arg_rt(s, d + 1, x);
            ws_none(s, a);
            assert(Seq::<(Seq<char>, ValV)>::empty() + as_read_args(ys) =~= as_read_args(ys));
            assert(as_read_args(ys).push((x.0, as_read(x.1))) =~= as_read_args(xs));
        }
    }
}

/// A predicate is read back where a stop follows it.
proof fn pred_rt(s: Seq<u8>, i: int, p: PredV)
    requires
        legible_pred(p),
        at(s, i, encode_utf8(pred_text(p))),
        stop(s, i + encode_utf8(pred_text(p)).len()),
    ensures
        g_pred(s, i) == Ok::<(PredV, int), crate::pred_parse::ParseErrorV>(
            (as_read_pred(p), i + encode_utf8(pred_text(p)).len()),
        ),
    decreases p, 0nat,
{
    let z = i + encode_utf8(pred_text(p)).len();
    let e = p.entity;
    let open = e + seq!['('];
    let inner = open + args_text(p.args);
    let head = inner + seq![')'];
    let tail = if p.field.len() == 0 {
        Seq::empty()
    } else if existence(p.field) && p.value == ValV::Bool(true) {
        seq!['.'] + p.field
    } else {
        seq!['.'] + p.field + seq!['='] + val_text(p.value)
    };
    assert(pred_text(p) =~= head + tail);
    at_text(s, i, head, tail);
    at_text(s, i, inner, seq![')']);
    at_text(s, i, open, args_text(p.args));
    at_text(s, i, e, seq!['(']);
    let j = i + encode_utf8(e).len();
    at_char(s, j, '(');
    ident_rt(s, i, e);
    ws_none(s, j);
    let a = j + 1;
    let c = a + encode_utf8(args_text(p.args)).len();
    at_char(s, c, ')');
    ws_none(s, c);
    pred_args_rt(s, a, p.args);
    assert(p.args.len() == 0 ==> as_read_args(p.args) =~= Seq::<(Seq<char>, ValV)>::empty());
    tail_rt(s, c + 1, p);
}

/// The field and the value of a predicate are read back, from behind its arguments.
proof fn tail_rt(s: Seq<u8>, b: int, p: PredV)
    requires
        legible_pred(p),
        0 <= b <= s.len(),
        at(
            s,
            b,
            encode_utf8(
                if p.field.len() == 0 {
                    Seq::empty()
                } else if existence(p.field) && p.value == ValV::Bool(true) {
                    seq!['.'] + p.field
                } else {
                    seq!['.'] + p.field + seq!['='] + val_text(p.value)
                },
            ),
        ),
        stop(
            s,
            b + encode_utf8(
                if p.field.len() == 0 {
                    Seq::empty()
                } else if existence(p.field) && p.value == ValV::Bool(true) {
                    seq!['.'] + p.field
                } else {
                    seq!['.'] + p.field + seq!['='] + val_text(p.value)
                },
            ).len(),
        ),
    ensures
        g_tail(s, b) == Ok::<(Seq<char>, ValV, int), crate::pred_parse::ParseErrorV>(
            (
                p.field,
                as_read(p.value),
                b + encode_utf8(
                    if p.field.len() == 0 {
                        Seq::empty()
                    } else if existence(p.field) && p.value == ValV::Bool(true) {
                        seq!['.'] + p.field
                    } else {
                        seq!['.'] + p.field + seq!['='] + val_text(p.value)
                    },
                ).len(),
            ),
        ),
    decreases p.value, 2nat,
{
    if p.field.len() == 0 {
        ws_none(s, b);
        assert(p.field =~= Seq::<char>::empty());
    } else if existence(p.field) && p.value == ValV::Bool(true) {
        at_text(s, b, seq!['.'], p.field);
        at_char(s, b, '.');
        ws_none(s, b);
        ident_rt(s, b + 1, p.field);
        ws_none(s, b + 1 + encode_utf8(p.field).len());
    } else {
        at_text(s, b, seq!['.'] + p.field + seq!['='], val_text(p.value));
        at_text(s, b, seq!['.'] + p.field, seq!['=']);
        at_text(s, b, seq!['.'], p.field);
        at_char(s, b, '.');
        ws_none(s, b);
        let k = b + 1 + encode_utf8(p.field).len();
        at_char(s, k, '=');
        ident_rt(s, b + 1, p.field);
        ws_none(s, k);
        value_rt(s, k + 1, p.value);
    }
}

/// Texts tell apart what they are read as, strings beyond ASCII included.
pub proof fn read_back(p: PredV)
    requires
        legible_pred(p),
    ensures
        parse_spec(pred_text(p)) == Ok::<PredV, crate::pred_parse::ParseErrorV>(as_read_pred(p)),
{
    let s = encode_utf8(pred_text(p));
    pred_rt(s, 0, p);
    ws_none(s, s.len() as int);
}

proof fn ascii_reads(s: Seq<char>)
    requires
        is_ascii_chars(s),
    ensures
        latin(encode_utf8(s)) == s,
{
    vstd::utf8::is_ascii_chars_encode_utf8(s);
    assert forall|k: int| 0 <= k < s.len() implies #[trigger] latin(encode_utf8(s))[k] == s[k] by {
        assert(s[k] as u8 == encode_utf8(s)[k]);
        assert((s[k] as u8) as char == s[k]);
    }
    assert(latin(encode_utf8(s)) =~= s);
}

proof fn writable_reads(v: ValV)
    requires
        writable(v),
    ensures
        legible(v),
        as_read(v) == v,
    decreases v, 0nat,
{
    match v {
        ValV::Str(s) => ascii_reads(s),
        ValV::List(xs) => {
            writable_list_reads(xs);
            assert(as_read(v) == ValV::List(as_read_list(xs)));
        },
        ValV::Each(xs) => {
            writable_list_reads(xs);
            assert(as_read(v) == ValV::Each(as_read_list(xs)));
        },
        ValV::Entity(p) => {
            writable_pred_reads(*p);
            assert(as_read(v) == ValV::Entity(Box::new(as_read_pred(*p))));
        },
        ValV::All(x) => writable_reads(*x),
        _ => {},
    }
}

proof fn writable_list_reads(xs: Seq<ValV>)
    requires
        writable_list(xs),
    ensures
        legible_list(xs),
        as_read_list(xs) == xs,
    decreases xs, 0nat,
{
    assert forall|k: int| #![trigger xs[k]] 0 <= k < xs.len() implies legible(xs[k]) && as_read(xs[k])
        == xs[k] by {
        writable_reads(xs[k]);
    }
    assert(as_read_list(xs) =~= xs);
}

proof fn writable_pred_reads(p: PredV)
    requires
        writable_pred(p),
    ensures
        legible_pred(p),
        as_read_pred(p) == p,
    decreases p, 0nat,
{
    let xs = p.args;
    assert forall|k: int| #![trigger xs[k]] 0 <= k < xs.len() implies legible(xs[k].1) && as_read(
        xs[k].1,
    ) == xs[k].1 by {
        writable_reads(xs[k].1);
    }
    assert(as_read_args(xs) =~= xs);
    writable_reads(p.value);
}

/// What is read tells what was written.
proof fn as_read_tells(v: ValV, w: ValV)
    requires
        as_read(v) == as_read(w),
    ensures
        v == w,
    decreases v, 0nat,
{
    match (v, w) {
        (ValV::Str(s), ValV::Str(t)) => {
            let (a, b) = (encode_utf8(s), encode_utf8(t));
            assert(latin(a) == latin(b));
            assert forall|k: int| 0 <= k < a.len() implies a[k] == b[k] by {
                assert(latin(a)[k] == a[k] as char && latin(b)[k] == b[k] as char);
            }
            assert(latin(a).len() == a.len() && latin(b).len() == b.len());
            assert(a =~= b);
            vstd::utf8::encode_utf8_decode_utf8(s);
            vstd::utf8::encode_utf8_decode_utf8(t);
        },
        (ValV::List(xs), ValV::List(ys)) => {
            assert(as_read(v) == ValV::List(as_read_list(xs)));
            assert(as_read(w) == ValV::List(as_read_list(ys)));
            as_read_list_tells(xs, ys);
        },
        (ValV::Each(xs), ValV::Each(ys)) => {
            assert(as_read(v) == ValV::Each(as_read_list(xs)));
            assert(as_read(w) == ValV::Each(as_read_list(ys)));
            as_read_list_tells(xs, ys);
        },
        (ValV::Entity(p), ValV::Entity(q)) => {
            assert(as_read(v) == ValV::Entity(Box::new(as_read_pred(*p))));
            assert(as_read(w) == ValV::Entity(Box::new(as_read_pred(*q))));
            as_read_pred_tells(*p, *q);
        },
        (ValV::All(x), ValV::All(y)) => as_read_tells(*x, *y),
        _ => {},
    }
}

proof fn as_read_list_tells(xs: Seq<ValV>, ys: Seq<ValV>)
    requires
        as_read_list(xs) == as_read_list(ys),
    ensures
        xs == ys,
    decreases xs, 0nat,
{
    assert(as_read_list(xs).len() == xs.len() && as_read_list(ys).len() == ys.len());
    assert forall|k: int| 0 <= k < xs.len() implies xs[k] == ys[k] by {
        assert(as_read_list(xs)[k] == as_read(xs[k]));
        assert(as_read_list(ys)[k] == as_read(ys[k]));
        as_read_tells(xs[k], ys[k]);
    }
    assert(xs =~= ys);
}

pub proof fn as_read_pred_tells(p: PredV, q: PredV)
    requires
        as_read_pred(p) == as_read_pred(q),
    ensures
        p == q,
    decreases p, 0nat,
{
    let (xs, ys) = (p.args, q.args);
    assert(as_read_args(xs).len() == xs.len() && as_read_args(ys).len() == ys.len());
    assert forall|k: int| 0 <= k < xs.len() implies xs[k] == ys[k] by {
        assert(as_read_args(xs)[k] == (xs[k].0, as_read(xs[k].1)));
        assert(as_read_args(ys)[k] == (ys[k].0, as_read(ys[k].1)));
        as_read_tells(xs[k].1, ys[k].1);
    }
    assert(xs =~= ys);
    as_read_tells(p.value, q.value);
}

/// What is written can be read back: the text of a predicate parses to that predicate, wherever
/// its names, strings and numbers are ones that the language can write.
pub proof fn round_trip(p: PredV)
    requires
        writable_pred(p),
    ensures
        parse_spec(pred_text(p)) == Ok::<PredV, crate::pred_parse::ParseErrorV>(p),
{
    writable_pred_reads(p);
    read_back(p);
}

} // verus!
