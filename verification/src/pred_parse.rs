//! Reading a predicate from text.
//!
//! The text is read byte by byte. Outside quotes whitespace may stand before any token; inside
//! quotes every byte stands for the character with that code, and a backslash takes the next
//! byte as it is.

use crate::pred::{args_push, args_view, vals_push, vals_view, Pred, PredV, Val, ValV};
use crate::text::{owned, same};
use vstd::prelude::*;
use vstd::utf8::{decode_utf8, encode_utf8, is_char_boundary, valid_utf8};

verus! {

/// Why a text is not a predicate.
#[derive(Debug, PartialEq)]
pub enum ParseError {
    Expected { what: String, at: usize },
    Unterminated,
    BadNumber(String),
    Unexpected { found: Option<char>, at: usize },
    Trailing { at: usize, rest: String },
}

/// The mathematical content of a `ParseError`.
pub enum ParseErrorV {
    Expected { what: Seq<char>, at: int },
    Unterminated,
    BadNumber(Seq<char>),
    Unexpected { found: Option<char>, at: int },
    Trailing { at: int, rest: Seq<char> },
}

impl View for ParseError {
    type V = ParseErrorV;

    open spec fn view(&self) -> ParseErrorV {
        match self {
            ParseError::Expected { what, at } => ParseErrorV::Expected {
                what: what@,
                at: *at as int,
            },
            ParseError::Unterminated => ParseErrorV::Unterminated,
            ParseError::BadNumber(t) => ParseErrorV::BadNumber(t@),
            ParseError::Unexpected { found, at } => ParseErrorV::Unexpected {
                found: *found,
                at: *at as int,
            },
            ParseError::Trailing { at, rest } => ParseErrorV::Trailing {
                at: *at as int,
                rest: rest@,
            },
        }
    }
}

impl Clone for ParseError {
    fn clone(&self) -> (r: Self)
        ensures
            r@ == self@,
    {
        match self {
            ParseError::Expected { what, at } => ParseError::Expected {
                what: what.clone(),
                at: *at,
            },
            ParseError::Unterminated => ParseError::Unterminated,
            ParseError::BadNumber(t) => ParseError::BadNumber(t.clone()),
            ParseError::Unexpected { found, at } => ParseError::Unexpected {
                found: *found,
                at: *at,
            },
            ParseError::Trailing { at, rest } => ParseError::Trailing {
                at: *at,
                rest: rest.clone(),
            },
        }
    }
}

// ---------- bytes ----------

/// A byte whose character is whitespace.
pub open spec fn white(b: u8) -> bool {
    9 <= b <= 13 || b == 32 || b == 0x85 || b == 0xA0
}

/// A byte whose character is a letter.
pub open spec fn letter(b: u8) -> bool {
    65 <= b <= 90 || 97 <= b <= 122 || b == 0xAA || b == 0xB5 || b == 0xBA || (b >= 0xC0 && b != 0xD7
        && b != 0xF7)
}

/// A byte of a decimal digit.
pub open spec fn digit_byte(b: u8) -> bool {
    48 <= b <= 57
}

/// A byte whose character is a letter or a number: the digits, and the superscripts and
/// fractions among the characters below 256.
pub open spec fn alnum(b: u8) -> bool {
    letter(b) || digit_byte(b) || b == 0xB2 || b == 0xB3 || b == 0xB9 || 0xBC <= b <= 0xBE
}

/// A byte that an identifier can hold.
pub open spec fn word_byte(b: u8) -> bool {
    alnum(b) || b == 95
}

/// Whether the character of a byte is whitespace.
pub fn is_white(b: u8) -> (r: bool)
    ensures
        r == white(b),
{
    (9 <= b && b <= 13) || b == 32 || b == 0x85 || b == 0xA0
}

/// Whether the character of a byte is a letter.
pub fn is_letter(b: u8) -> (r: bool)
    ensures
        r == letter(b),
{
    (65 <= b && b <= 90) || (97 <= b && b <= 122) || b == 0xAA || b == 0xB5 || b == 0xBA || (b
        >= 0xC0 && b != 0xD7 && b != 0xF7)
}

/// Whether the character of a byte is a letter or a number.
pub fn is_alnum(b: u8) -> (r: bool)
    ensures
        r == alnum(b),
{
    is_letter(b) || (48 <= b && b <= 57) || b == 0xB2 || b == 0xB3 || b == 0xB9 || (0xBC <= b && b
        <= 0xBE)
}

/// `std::str::from_utf8` on a copy of `b[from..to]`: the text whose encoding those bytes are,
/// where there is one.
#[verifier::external_body]
fn utf8_text(b: &[u8], from: usize, to: usize) -> (r: Option<String>)
    requires
        from <= to <= b@.len(),
    ensures
        match r {
            Some(t) => valid_utf8(b@.subrange(from as int, to as int)) && t@ == decode_utf8(
                b@.subrange(from as int, to as int),
            ),
            None => !valid_utf8(b@.subrange(from as int, to as int)),
        },
{
    std::str::from_utf8(&b[from..to]).ok().map(|t| t.to_string())
}

// ---------- the grammar ----------

/// The first position from `i` on that holds no whitespace.
pub open spec fn skip_ws(s: Seq<u8>, i: int) -> int
    decreases s.len() - i,
{
    if 0 <= i < s.len() && white(s[i]) {
        skip_ws(s, i + 1)
    } else {
        i
    }
}

/// The end of the identifier bytes that start at `i`.
pub open spec fn word_end(s: Seq<u8>, i: int) -> int
    decreases s.len() - i,
{
    if 0 <= i < s.len() && word_byte(s[i]) {
        word_end(s, i + 1)
    } else {
        i
    }
}

/// The end of the digits that start at `i`.
pub open spec fn digits_end(s: Seq<u8>, i: int) -> int
    decreases s.len() - i,
{
    if 0 <= i < s.len() && digit_byte(s[i]) {
        digits_end(s, i + 1)
    } else {
        i
    }
}

/// Whether the token `c` comes next, whitespace aside.
pub open spec fn next_is(s: Seq<u8>, i: int, c: u8) -> bool {
    skip_ws(s, i) < s.len() && s[skip_ws(s, i)] == c
}

/// The position behind the token `c`, or the error that it is missing.
pub open spec fn g_expect(s: Seq<u8>, i: int, c: u8) -> Result<int, ParseErrorV> {
    if next_is(s, i, c) {
        Ok(skip_ws(s, i) + 1)
    } else {
        Err(ParseErrorV::Expected { what: seq!['\'', c as char, '\''], at: skip_ws(s, i) })
    }
}

/// An identifier: the longest run of identifier bytes, which must not be empty and must be text.
pub open spec fn g_ident(s: Seq<u8>, i: int) -> Result<(Seq<char>, int), ParseErrorV> {
    let j = skip_ws(s, i);
    let k = word_end(s, j);
    if j == k || !valid_utf8(s.subrange(j, k)) {
        Err(ParseErrorV::Expected { what: "identifier"@, at: j })
    } else {
        Ok((decode_utf8(s.subrange(j, k)), k))
    }
}

/// The rest of a quoted string, from behind its opening quote or a later byte of it.
pub open spec fn g_quoted(s: Seq<u8>, i: int, acc: Seq<char>) -> Result<(Seq<char>, int), ParseErrorV>
    decreases s.len() - i,
{
    if !(0 <= i < s.len()) {
        Err(ParseErrorV::Unterminated)
    } else if s[i] == 92 {
        if i + 1 < s.len() {
            g_quoted(s, i + 2, acc.push(s[i + 1] as char))
        } else {
            Err(ParseErrorV::Unterminated)
        }
    } else if s[i] == 39 {
        Ok((acc, i + 1))
    } else {
        g_quoted(s, i + 1, acc.push(s[i] as char))
    }
}

/// The number that a sequence of digits stands for.
pub open spec fn digits_val(s: Seq<u8>) -> nat
    decreases s.len(),
{
    if s.len() == 0 {
        0
    } else {
        digits_val(s.drop_last()) * 10 + (s.last() - 48) as nat
    }
}

/// The integer that a text of an optional minus sign and digits stands for: none without a
/// digit, and none outside 64 bits.
pub open spec fn num_val(s: Seq<u8>) -> Option<int> {
    let neg = s.len() > 0 && s[0] == 45;
    let ds = if neg {
        s.drop_first()
    } else {
        s
    };
    let n = if neg {
        -digits_val(ds)
    } else {
        digits_val(ds) as int
    };
    if ds.len() > 0 && i64::MIN <= n <= i64::MAX {
        Some(n)
    } else {
        None
    }
}

/// The characters with the codes of the bytes.
pub open spec fn latin(s: Seq<u8>) -> Seq<char> {
    s.map_values(|b: u8| b as char)
}

/// A number, from its first byte.
pub open spec fn g_num(s: Seq<u8>, i: int) -> Result<(ValV, int), ParseErrorV> {
    let k = digits_end(s, i + 1);
    match num_val(s.subrange(i, k)) {
        Some(n) => Ok((ValV::Num(n), k)),
        None => Err(ParseErrorV::BadNumber(latin(s.subrange(i, k)))),
    }
}

/// A variable or a node reference, from behind the dollar sign.
pub open spec fn g_dollar(s: Seq<u8>, i: int) -> Result<(ValV, int), ParseErrorV> {
    match g_ident(s, i) {
        Err(e) => Err(e),
        Ok((name, k)) => if k + 1 < s.len() && s[k] == 91 && s[k + 1] == 93 {
            Ok((ValV::Var(name, true), k + 2))
        } else if k < s.len() && s[k] == 46 {
            match g_ident(s, k + 1) {
                Err(e) => Err(e),
                Ok((field, m)) => Ok((ValV::Ref(name, field), m)),
            }
        } else {
            Ok((ValV::Var(name, false), k))
        },
    }
}

/// A value.
pub open spec fn g_value(s: Seq<u8>, i: int) -> Result<(ValV, int), ParseErrorV>
    decreases s.len() - i, 2nat,
{
    let j = skip_ws(s, i);
    proof {
        skip_ws_bounds(s, i);
    }
    if !(0 <= j < s.len()) {
        Err(ParseErrorV::Unexpected { found: None, at: j })
    } else if s[j] == 39 {
        match g_quoted(s, j + 1, Seq::empty()) {
            Err(e) => Err(e),
            Ok((t, k)) => Ok((ValV::Str(t), k)),
        }
    } else if s[j] == 36 {
        g_dollar(s, j + 1)
    } else if s[j] == 91 {
        if next_is(s, j + 1, 93) {
            Ok((ValV::List(Seq::empty()), skip_ws(s, j + 1) + 1))
        } else {
            proof {
                skip_ws_bounds(s, j + 1);
            }
            match g_items(s, skip_ws(s, j + 1), Seq::empty()) {
                Err(e) => Err(e),
                Ok((xs, k)) => Ok((ValV::List(xs), k)),
            }
        }
    } else if digit_byte(s[j]) || s[j] == 45 {
        g_num(s, j)
    } else if letter(s[j]) {
        match g_ident(s, j) {
            Err(e) => Err(e),
            Ok((word, k)) => {
                proof {
                    ident_bounds(s, j);
                    skip_ws_bounds(s, k);
                }
                if word == "true"@ {
                    Ok((ValV::Bool(true), k))
                } else if word == "false"@ {
                    Ok((ValV::Bool(false), k))
                } else if word == "each"@ || word == "all"@ {
                    match g_expect(s, k, 40) {
                        Err(e) => Err(e),
                        Ok(m) => match g_value(s, m) {
                            Err(e) => Err(e),
                            Ok((inner, n)) => match g_expect(s, n, 41) {
                                Err(e) => Err(e),
                                Ok(z) => Ok(
                                    (
                                        if word == "each"@ {
                                            each_of(inner)
                                        } else {
                                            ValV::All(Box::new(inner))
                                        },
                                        z,
                                    ),
                                ),
                            },
                        },
                    }
                } else {
                    match g_pred(s, j) {
                        Err(e) => Err(e),
                        Ok((p, m)) => Ok((ValV::Entity(Box::new(p)), m)),
                    }
                }
            },
        }
    } else {
        Err(ParseErrorV::Unexpected { found: Some(s[j] as char), at: j })
    }
}

/// What `each(inner)` stands for: a list gives its elements, anything else is the one element.
pub open spec fn each_of(inner: ValV) -> ValV {
    match inner {
        ValV::List(xs) => ValV::Each(xs),
        other => ValV::Each(seq![other]),
    }
}

/// The elements of a list and its closing bracket. (A value takes up at least one byte, so the
/// position always moves on.)
pub open spec fn g_items(s: Seq<u8>, i: int, acc: Seq<ValV>) -> Result<(Seq<ValV>, int), ParseErrorV>
    decreases s.len() - i, 3nat,
{
    match g_value(s, i) {
        Err(e) => Err(e),
        Ok((v, k)) => if next_is(s, k, 93) {
            Ok((acc.push(v), skip_ws(s, k) + 1))
        } else {
            match g_expect(s, k, 44) {
                Err(e) => Err(e),
                Ok(m) => if i < m <= s.len() {
                    g_items(s, m, acc.push(v))
                } else {
                    Err(ParseErrorV::Unterminated)
                },
            }
        },
    }
}

/// The named arguments of a predicate and its closing parenthesis.
pub open spec fn g_args(s: Seq<u8>, i: int, acc: Seq<(Seq<char>, ValV)>) -> Result<
    (Seq<(Seq<char>, ValV)>, int),
    ParseErrorV,
>
    decreases s.len() - i, 0nat,
{
    match g_ident(s, i) {
        Err(e) => Err(e),
        Ok((name, j)) => {
            proof {
                ident_bounds(s, i);
                skip_ws_bounds(s, j);
            }
            match g_expect(s, j, 61) {
                Err(e) => Err(e),
                Ok(v0) => match g_value(s, v0) {
                    Err(e) => Err(e),
                    Ok((v, k)) => if next_is(s, k, 41) {
                        Ok((acc.push((name, v)), skip_ws(s, k) + 1))
                    } else {
                        match g_expect(s, k, 44) {
                            Err(e) => Err(e),
                            Ok(m) => if i < m <= s.len() {
                                g_args(s, m, acc.push((name, v)))
                            } else {
                                Err(ParseErrorV::Unterminated)
                            },
                        }
                    },
                },
            }
        },
    }
}

/// The field of a predicate and its value, which is `true` where none is written.
pub open spec fn g_tail(s: Seq<u8>, i: int) -> Result<(Seq<char>, ValV, int), ParseErrorV>
    decreases s.len() - i, 0nat,
{
    if next_is(s, i, 46) {
        match g_ident(s, skip_ws(s, i) + 1) {
            Err(e) => Err(e),
            Ok((field, k)) => if next_is(s, k, 61) {
                proof {
                    skip_ws_bounds(s, i);
                    ident_bounds(s, skip_ws(s, i) + 1);
                    skip_ws_bounds(s, k);
                }
                match g_value(s, skip_ws(s, k) + 1) {
                    Err(e) => Err(e),
                    Ok((v, m)) => Ok((field, v, m)),
                }
            } else {
                Ok((field, ValV::Bool(true), skip_ws(s, k)))
            },
        }
    } else {
        Ok((Seq::empty(), ValV::Bool(true), skip_ws(s, i)))
    }
}

/// A predicate.
pub open spec fn g_pred(s: Seq<u8>, i: int) -> Result<(PredV, int), ParseErrorV>
    decreases s.len() - i, 1nat,
{
    match g_ident(s, i) {
        Err(e) => Err(e),
        Ok((entity, j)) => {
            proof {
                ident_bounds(s, i);
                skip_ws_bounds(s, j);
            }
            match g_expect(s, j, 40) {
                Err(e) => Err(e),
                Ok(a) => {
                    proof {
                        skip_ws_bounds(s, a);
                    }
                    let args = if next_is(s, a, 41) {
                        Ok((Seq::empty(), skip_ws(s, a) + 1))
                    } else {
                        g_args(s, skip_ws(s, a), Seq::empty())
                    };
                    match args {
                        Err(e) => Err(e),
                        Ok((xs, k)) => if i < k <= s.len() {
                            match g_tail(s, k) {
                                Err(e) => Err(e),
                                Ok((field, value, m)) => Ok(
                                    (PredV { entity, args: xs, field, value }, m),
                                ),
                            }
                        } else {
                            Err(ParseErrorV::Unterminated)
                        },
                    }
                },
            }
        },
    }
}

/// The text from byte `i` on.
pub open spec fn text_from(s: Seq<u8>, i: int) -> Seq<char> {
    if is_char_boundary(s, i) {
        decode_utf8(s.skip(i))
    } else {
        Seq::empty()
    }
}

/// The predicate that a text is, or why it is none.
pub open spec fn parse_spec(src: Seq<char>) -> Result<PredV, ParseErrorV> {
    let s = encode_utf8(src);
    match g_pred(s, 0) {
        Err(e) => Err(e),
        Ok((p, k)) => {
            let m = skip_ws(s, k);
            if m == s.len() {
                Ok(p)
            } else {
                Err(ParseErrorV::Trailing { at: m, rest: text_from(s, m) })
            }
        },
    }
}

pub proof fn skip_ws_bounds(s: Seq<u8>, i: int)
    ensures
        i <= skip_ws(s, i),
        0 <= i <= s.len() ==> skip_ws(s, i) <= s.len(),
    decreases s.len() - i,
{
    if 0 <= i < s.len() && white(s[i]) {
        skip_ws_bounds(s, i + 1);
    }
}

/// Behind whitespace there is no more whitespace to skip.
pub proof fn skip_ws_idem(s: Seq<u8>, i: int)
    ensures
        skip_ws(s, skip_ws(s, i)) == skip_ws(s, i),
    decreases s.len() - i,
{
    if 0 <= i < s.len() && white(s[i]) {
        skip_ws_idem(s, i + 1);
    }
}

pub proof fn word_end_bounds(s: Seq<u8>, i: int)
    ensures
        i <= word_end(s, i),
        0 <= i <= s.len() ==> word_end(s, i) <= s.len(),
    decreases s.len() - i,
{
    if 0 <= i < s.len() && word_byte(s[i]) {
        word_end_bounds(s, i + 1);
    }
}

pub proof fn ident_bounds(s: Seq<u8>, i: int)
    ensures
        g_ident(s, i) matches Ok((_, k)) ==> i < k && (0 <= i <= s.len() ==> k <= s.len()),
{
    skip_ws_bounds(s, i);
    word_end_bounds(s, skip_ws(s, i));
}

// ---------- the parser ----------

struct Parser<'a> {
    s: &'a [u8],
    i: usize,
}

impl<'a> Parser<'a> {
    spec fn ok(self) -> bool {
        self.i <= self.s@.len()
    }

    fn ws(&mut self)
        requires
            old(self).ok(),
        ensures
            final(self).ok(),
            final(self).s == old(self).s,
            final(self).i == skip_ws(old(self).s@, old(self).i as int),
            old(self).i <= final(self).i,
    {
        while self.i < self.s.len() && is_white(self.s[self.i])
            invariant
                self.ok(),
                self.s == old(self).s,
                old(self).i <= self.i,
                skip_ws(self.s@, self.i as int) == skip_ws(old(self).s@, old(self).i as int),
            decreases self.s@.len() - self.i,
        {
            self.i = self.i + 1;
        }
    }

    fn peek(&self) -> (r: Option<u8>)
        requires
            self.ok(),
        ensures
            r == (if self.i < self.s@.len() {
                Some(self.s@[self.i as int])
            } else {
                None
            }),
            r is Some ==> self.i < usize::MAX,
    {
        if self.i < self.s.len() {
            Some(self.s[self.i])
        } else {
            None
        }
    }

    fn eat(&mut self, c: u8) -> (r: bool)
        requires
            old(self).ok(),
        ensures
            final(self).ok(),
            final(self).s == old(self).s,
            r == next_is(old(self).s@, old(self).i as int, c),
            final(self).i == skip_ws(old(self).s@, old(self).i as int) + (if r {
                1int
            } else {
                0
            }),
            old(self).i <= final(self).i,
            r ==> old(self).i < final(self).i,
    {
        self.ws();
        if self.i < self.s.len() && self.s[self.i] == c {
            self.i = self.i + 1;
            true
        } else {
            false
        }
    }

    fn expect(&mut self, c: u8) -> (r: Result<(), ParseError>)
        requires
            old(self).ok(),
        ensures
            final(self).ok(),
            final(self).s == old(self).s,
            match (r, g_expect(old(self).s@, old(self).i as int, c)) {
                (Ok(_), Ok(k)) => final(self).i == k && old(self).i < final(self).i,
                (Err(e), Err(f)) => e@ == f,
                _ => false,
            },
    {
        if self.eat(c) {
            Ok(())
        } else {
            let mut what = String::new();
            what.push('\'');
            what.push(c as char);
            what.push('\'');
            assert(what@ =~= seq!['\'', c as char, '\'']);
            Err(ParseError::Expected { what, at: self.i })
        }
    }

    fn ident(&mut self) -> (r: Result<String, ParseError>)
        requires
            old(self).ok(),
        ensures
            final(self).ok(),
            final(self).s == old(self).s,
            match (r, g_ident(old(self).s@, old(self).i as int)) {
                (Ok(t), Ok((w, k))) => t@ == w && final(self).i == k && old(self).i < final(self).i,
                (Err(e), Err(f)) => e@ == f,
                _ => false,
            },
    {
        self.ws();
        let start: usize = self.i;
        while self.i < self.s.len() && (is_alnum(self.s[self.i]) || self.s[self.i] == 95)
            invariant
                self.ok(),
                self.s == old(self).s,
                old(self).i <= start <= self.i,
                word_end(self.s@, self.i as int) == word_end(self.s@, start as int),
            decreases self.s@.len() - self.i,
        {
            self.i = self.i + 1;
        }
        if start == self.i {
            return Err(ParseError::Expected { what: owned("identifier"), at: self.i });
        }
        match utf8_text(self.s, start, self.i) {
            Some(t) => Ok(t),
            None => Err(ParseError::Expected { what: owned("identifier"), at: start }),
        }
    }

    fn quoted(&mut self) -> (r: Result<String, ParseError>)
        requires
            old(self).ok(),
        ensures
            final(self).ok(),
            final(self).s == old(self).s,
            match (r, g_quoted(old(self).s@, old(self).i as int, Seq::empty())) {
                (Ok(t), Ok((w, k))) => t@ == w && final(self).i == k && old(self).i < final(self).i,
                (Err(e), Err(f)) => e@ == f,
                _ => false,
            },
    {
        let mut out = String::new();
        loop
            invariant
                self.ok(),
                self.s == old(self).s,
                old(self).i <= self.i,
                g_quoted(self.s@, self.i as int, out@) == g_quoted(
                    old(self).s@,
                    old(self).i as int,
                    Seq::empty(),
                ),
            decreases self.s@.len() - self.i,
        {
            match self.peek() {
                None => {
                    return Err(ParseError::Unterminated);
                },
                Some(b) => {
                    if b == 92 {
                        self.i = self.i + 1;
                        match self.peek() {
                            Some(c) => {
                                out.push(c as char);
                                self.i = self.i + 1;
                            },
                            None => {
                                return Err(ParseError::Unterminated);
                            },
                        }
                    } else if b == 39 {
                        self.i = self.i + 1;
                        return Ok(out);
                    } else {
                        out.push(b as char);
                        self.i = self.i + 1;
                    }
                },
            }
        }
    }

    fn number(&mut self) -> (r: Result<Val, ParseError>)
        requires
            old(self).i < old(self).s@.len(),
            digit_byte(old(self).s@[old(self).i as int]) || old(self).s@[old(self).i as int] == 45,
        ensures
            final(self).ok(),
            final(self).s == old(self).s,
            match (r, g_num(old(self).s@, old(self).i as int)) {
                (Ok(v), Ok((w, k))) => v@ == w && final(self).i == k && old(self).i < final(self).i,
                (Err(e), Err(f)) => e@ == f,
                _ => false,
            },
    {
        let start: usize = self.i;
        let len: usize = self.s.len();
        assert(start < len);
        self.i = self.i + 1;
        while self.i < self.s.len() && 48 <= self.s[self.i] && self.s[self.i] <= 57
            invariant
                self.ok(),
                self.s == old(self).s,
                old(self).i == start < self.i,
                digits_end(self.s@, self.i as int) == digits_end(self.s@, start + 1),
                forall|j: int| start < j < self.i ==> digit_byte(#[trigger] self.s@[j]),
            decreases self.s@.len() - self.i,
        {
            self.i = self.i + 1;
        }
        match parse_num(self.s, start, self.i) {
            Some(n) => Ok(Val::Num(n)),
            None => {
                let mut txt = String::new();
                let mut j: usize = start;
                let ghost sub = self.s@.subrange(start as int, self.i as int);
                while j < self.i
                    invariant
                        self.ok(),
                        start <= j <= self.i,
                        sub == self.s@.subrange(start as int, self.i as int),
                        txt@ == latin(sub).take(j - start),
                    decreases self.i - j,
                {
                    txt.push(self.s[j] as char);
                    j = j + 1;
                    assert(txt@ =~= latin(sub).take(j - start));
                }
                assert(latin(sub).take(j - start) =~= latin(sub));
                Err(ParseError::BadNumber(txt))
            },
        }
    }

    fn dollar(&mut self) -> (r: Result<Val, ParseError>)
        requires
            old(self).ok(),
        ensures
            final(self).ok(),
            final(self).s == old(self).s,
            match (r, g_dollar(old(self).s@, old(self).i as int)) {
                (Ok(v), Ok((w, k))) => v@ == w && final(self).i == k && old(self).i < final(self).i,
                (Err(e), Err(f)) => e@ == f,
                _ => false,
            },
    {
        let name = self.ident()?;
        if self.s.len() - self.i > 1 && self.s[self.i] == 91 && self.s[self.i + 1] == 93 {
            self.i = self.i + 2;
            return Ok(Val::Var(name, true));
        }
        if self.i < self.s.len() && self.s[self.i] == 46 {
            self.i = self.i + 1;
            let field = self.ident()?;
            return Ok(Val::Ref(name, field));
        }
        Ok(Val::Var(name, false))
    }

    fn items(&mut self) -> (r: Result<Vec<Val>, ParseError>)
        requires
            old(self).ok(),
        ensures
            final(self).ok(),
            final(self).s == old(self).s,
            match (r, g_items(old(self).s@, old(self).i as int, Seq::empty())) {
                (Ok(v), Ok((w, k))) => vals_view(v@) == w && final(self).i == k && old(self).i
                    < final(self).i,
                (Err(e), Err(f)) => e@ == f,
                _ => false,
            },
        decreases old(self).s@.len() - old(self).i, 3nat,
    {
        let mut xs: Vec<Val> = Vec::new();
        assert(vals_view(xs@) =~= Seq::<ValV>::empty());
        loop
            invariant
                self.ok(),
                self.s == old(self).s,
                old(self).i <= self.i,
                g_items(self.s@, self.i as int, vals_view(xs@)) == g_items(
                    old(self).s@,
                    old(self).i as int,
                    Seq::empty(),
                ),
            decreases self.s@.len() - self.i,
        {
            let v = self.value()?;
            proof {
                vals_push(xs@, v);
            }
            xs.push(v);
            proof {
                skip_ws_idem(self.s@, self.i as int);
            }
            if self.eat(93) {
                return Ok(xs);
            }
            self.expect(44)?;
        }
    }

    fn args(&mut self) -> (r: Result<Vec<(String, Val)>, ParseError>)
        requires
            old(self).ok(),
        ensures
            final(self).ok(),
            final(self).s == old(self).s,
            match (r, g_args(old(self).s@, old(self).i as int, Seq::empty())) {
                (Ok(v), Ok((w, k))) => args_view(v@) == w && final(self).i == k && old(self).i
                    < final(self).i,
                (Err(e), Err(f)) => e@ == f,
                _ => false,
            },
        decreases old(self).s@.len() - old(self).i, 0nat,
    {
        let mut xs: Vec<(String, Val)> = Vec::new();
        assert(args_view(xs@) =~= Seq::<(Seq<char>, ValV)>::empty());
        loop
            invariant
                self.ok(),
                self.s == old(self).s,
                old(self).i <= self.i,
                g_args(self.s@, self.i as int, args_view(xs@)) == g_args(
                    old(self).s@,
                    old(self).i as int,
                    Seq::empty(),
                ),
            decreases self.s@.len() - self.i,
        {
            let k = self.ident()?;
            self.expect(61)?;
            let v = self.value()?;
            proof {
                args_push(xs@, (k, v));
            }
            xs.push((k, v));
            proof {
                skip_ws_idem(self.s@, self.i as int);
            }
            if self.eat(41) {
                return Ok(xs);
            }
            self.expect(44)?;
        }
    }

    fn pred(&mut self) -> (r: Result<Pred, ParseError>)
        requires
            old(self).ok(),
        ensures
            final(self).ok(),
            final(self).s == old(self).s,
            match (r, g_pred(old(self).s@, old(self).i as int)) {
                (Ok(p), Ok((w, k))) => p@ == w && final(self).i == k && old(self).i < final(self).i,
                (Err(e), Err(f)) => e@ == f,
                _ => false,
            },
        decreases old(self).s@.len() - old(self).i, 1nat,
    {
        let entity = self.ident()?;
        self.expect(40)?;
        let args: Vec<(String, Val)> = if self.eat(41) {
            Vec::new()
        } else {
            self.args()?
        };
        assert(args@.len() == 0 ==> args_view(args@) =~= Seq::<(Seq<char>, ValV)>::empty());
        let mut field = String::new();
        let mut value = Val::Bool(true);
        if self.eat(46) {
            field = self.ident()?;
            if self.eat(61) {
                value = self.value()?;
            }
        }
        Ok(Pred { entity, args, field, value })
    }

    fn value(&mut self) -> (r: Result<Val, ParseError>)
        requires
            old(self).ok(),
        ensures
            final(self).ok(),
            final(self).s == old(self).s,
            match (r, g_value(old(self).s@, old(self).i as int)) {
                (Ok(v), Ok((w, k))) => v@ == w && final(self).i == k && old(self).i < final(self).i,
                (Err(e), Err(f)) => e@ == f,
                _ => false,
            },
        decreases old(self).s@.len() - old(self).i, 2nat,
    {
        self.ws();
        let b: u8 = match self.peek() {
            None => {
                return Err(ParseError::Unexpected { found: None, at: self.i });
            },
            Some(b) => b,
        };
        if b == 39 {
            self.i = self.i + 1;
            let t = self.quoted()?;
            Ok(Val::Str(t))
        } else if b == 36 {
            self.i = self.i + 1;
            self.dollar()
        } else if b == 91 {
            self.i = self.i + 1;
            let xs: Vec<Val> = if self.eat(93) {
                Vec::new()
            } else {
                self.items()?
            };
            assert(xs@.len() == 0 ==> vals_view(xs@) =~= Seq::<ValV>::empty());
            Ok(Val::List(xs))
        } else if (48 <= b && b <= 57) || b == 45 {
            self.number()
        } else if is_letter(b) {
            let save: usize = self.i;
            proof {
                skip_ws_fixed(self.s@, save as int);
            }
            let word = self.ident()?;
            if same(word.as_str(), "true") {
                Ok(Val::Bool(true))
            } else if same(word.as_str(), "false") {
                Ok(Val::Bool(false))
            } else if same(word.as_str(), "each") {
                self.expect(40)?;
                let inner = self.value()?;
                self.expect(41)?;
                match inner {
                    Val::List(xs) => Ok(Val::Each(xs)),
                    other => {
                        let ghost o = other@;
                        let mut one: Vec<Val> = Vec::new();
                        proof {
                            vals_push(one@, other);
                            assert(vals_view(one@) =~= Seq::<ValV>::empty());
                        }
                        one.push(other);
                        assert(vals_view(one@) =~= seq![o]);
                        Ok(Val::Each(one))
                    },
                }
            } else if same(word.as_str(), "all") {
                self.expect(40)?;
                let inner = self.value()?;
                self.expect(41)?;
                Ok(Val::All(Box::new(inner)))
            } else {
                self.i = save;
                let p = self.pred()?;
                Ok(Val::Entity(Box::new(p)))
            }
        } else {
            Err(ParseError::Unexpected { found: Some(b as char), at: self.i })
        }
    }
}

proof fn skip_ws_fixed(s: Seq<u8>, i: int)
    requires
        0 <= i < s.len(),
        !white(s[i]),
    ensures
        skip_ws(s, i) == i,
{
}

/// The integer that `b[from..to]` stands for.
fn parse_num(b: &[u8], from: usize, to: usize) -> (r: Option<i64>)
    requires
        from < to <= b@.len(),
        digit_byte(b@[from as int]) || b@[from as int] == 45,
        forall|j: int| from < j < to ==> digit_byte(#[trigger] b@[j]),
    ensures
        match r {
            Some(n) => num_val(b@.subrange(from as int, to as int)) == Some(n as int),
            None => num_val(b@.subrange(from as int, to as int)) is None,
        },
{
    let ghost sub = b@.subrange(from as int, to as int);
    let neg: bool = b[from] == 45;
    let start: usize = if neg {
        from + 1
    } else {
        from
    };
    let ghost ds = b@.subrange(start as int, to as int);
    proof {
        assert(ds =~= if neg {
            sub.drop_first()
        } else {
            sub
        });
    }
    if start == to {
        return None;
    }
    let mut acc: u64 = 0;
    let mut i: usize = start;
    let bound: u64 = 0x8000_0000_0000_0000;
    while i < to
        invariant
            from <= start <= i <= to <= b@.len(),
            ds == b@.subrange(start as int, to as int),
            bound == 0x8000_0000_0000_0000,
            acc <= bound,
            acc == digits_val(ds.take(i - start)),
            forall|j: int| start <= j < to ==> digit_byte(#[trigger] b@[j]),
            sub == b@.subrange(from as int, to as int),
            ds.len() > 0,
            ds == (if neg {
                sub.drop_first()
            } else {
                sub
            }),
            neg == (sub[0] == 45),
            sub.len() > 0,
        decreases to - i,
    {
        let d: u64 = (b[i] - 48) as u64;
        proof {
            let p = ds.take(i + 1 - start);
            assert(p.drop_last() =~= ds.take(i - start));
            assert(p.last() == b@[i as int]);
            digits_val_mono(ds, i + 1 - start);
        }
        if acc > 922_337_203_685_477_580 || acc * 10 + d > bound {
            return None;
        }
        acc = acc * 10 + d;
        i = i + 1;
    }
    assert(ds.take(i - start) =~= ds);
    if neg {
        if acc == bound {
            Some(i64::MIN)
        } else {
            Some(-(acc as i64))
        }
    } else if acc == bound {
        None
    } else {
        Some(acc as i64)
    }
}

proof fn digits_val_mono(ds: Seq<u8>, k: int)
    requires
        0 <= k <= ds.len(),
    ensures
        digits_val(ds.take(k)) <= digits_val(ds),
    decreases ds.len(),
{
    if k == ds.len() {
        assert(ds.take(k) =~= ds);
    } else {
        digits_val_mono(ds.drop_last(), k);
        assert(ds.drop_last().take(k) =~= ds.take(k));
    }
}

impl Pred {
    /// Read a predicate, all of `src`.
    pub fn parse(src: &str) -> (r: Result<Pred, ParseError>)
        ensures
            match (r, parse_spec(src@)) {
                (Ok(p), Ok(w)) => p@ == w,
                (Err(e), Err(f)) => e@ == f,
                _ => false,
            },
    {
        let bytes: &[u8] = src.as_bytes();
        let mut p = Parser { s: bytes, i: 0 };
        let pred = p.pred()?;
        p.ws();
        if p.i != p.s.len() {
            let rest: String = if src.is_char_boundary(p.i) {
                let (_head, tail) = src.split_at(p.i);
                proof {
                    assert(bytes@.subrange(p.i as int, bytes@.len() as int) =~= bytes@.skip(
                        p.i as int,
                    ));
                    vstd::utf8::encode_utf8_decode_utf8(tail@);
                }
                owned(tail)
            } else {
                String::new()
            };
            return Err(ParseError::Trailing { at: p.i, rest });
        }
        Ok(pred)
    }
}

} // verus!
