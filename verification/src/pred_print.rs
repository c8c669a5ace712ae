//! Writing a predicate as text.

use crate::pred::{args_view, existence, vals_view, Pred, PredV, Val, ValV};
use crate::pred_parse::{ParseError, ParseErrorV};
use crate::text::{chars_of, dec, int_dec, push_dec, push_int};
use vstd::prelude::*;

verus! {

/// A quote becomes a backslash and a quote.
pub open spec fn escape(s: Seq<char>) -> Seq<char>
    decreases s.len(),
{
    if s.len() == 0 {
        Seq::empty()
    } else if s.last() == '\'' {
        escape(s.drop_last()) + seq!['\\', '\'']
    } else {
        escape(s.drop_last()).push(s.last())
    }
}

/// The text of a truth value.
pub open spec fn bool_text(b: bool) -> Seq<char> {
    if b {
        "true"@
    } else {
        "false"@
    }
}

/// The text of a value.
pub open spec fn val_text(v: ValV) -> Seq<char>
    decreases v,
{
    match v {
        ValV::Str(s) => seq!['\''] + escape(s) + seq!['\''],
        ValV::Num(n) => int_dec(n),
        ValV::Bool(b) => bool_text(b),
        ValV::List(xs) => seq!['['] + list_text(xs) + seq![']'],
        ValV::Var(n, spread) => seq!['$'] + n + if spread {
            "[]"@
        } else {
            Seq::empty()
        },
        ValV::Ref(n, f) => seq!['$'] + n + seq!['.'] + f,
        ValV::Entity(p) => pred_text(*p),
        ValV::Each(xs) => "each(["@ + list_text(xs) + "])"@,
        ValV::All(x) => "all("@ + val_text(*x) + seq![')'],
    }
}

/// The texts of values, with commas between them.
pub open spec fn list_text(xs: Seq<ValV>) -> Seq<char>
    decreases xs,
{
    if xs.len() == 0 {
        Seq::empty()
    } else if xs.len() == 1 {
        val_text(xs[0])
    } else {
        list_text(xs.drop_last()) + seq![','] + val_text(xs[xs.len() - 1])
    }
}

/// The texts of named values, with commas between them.
pub open spec fn args_text(xs: Seq<(Seq<char>, ValV)>) -> Seq<char>
    decreases xs,
{
    if xs.len() == 0 {
        Seq::empty()
    } else {
        let x = xs[xs.len() - 1];
        let one = x.0 + seq!['='] + val_text(xs[xs.len() - 1].1);
        if xs.len() == 1 {
            one
        } else {
            args_text(xs.drop_last()) + seq![','] + one
        }
    }
}

/// The text of a predicate. The field is left out where it is empty, and the value where the
/// field says only that the entity is there.
pub open spec fn pred_text(p: PredV) -> Seq<char>
    decreases p,
{
    let head = p.entity + seq!['('] + args_text(p.args) + seq![')'];
    if p.field.len() == 0 {
        head
    } else if existence(p.field) && p.value == ValV::Bool(true) {
        head + seq!['.'] + p.field
    } else {
        head + seq!['.'] + p.field + seq!['='] + val_text(p.value)
    }
}

/// The text of a parse error.
pub open spec fn parse_error_text(e: ParseErrorV) -> Seq<char> {
    match e {
        ParseErrorV::Expected { what, at } => "expected "@ + what + " at byte "@ + dec(at as nat),
        ParseErrorV::Unterminated => "unterminated string"@,
        ParseErrorV::BadNumber(t) => "bad number '"@ + t + "'"@,
        ParseErrorV::Unexpected { found, at } => "unexpected "@ + (match found {
            Some(c) => "Some('"@ + (if c == '"' {
                seq!['"']
            } else {
                char_debug(c)
            }) + "')"@,
            None => "None"@,
        }) + " at byte "@ + dec(at as nat),
        ParseErrorV::Trailing { at, rest } => "trailing input at byte "@ + dec(at as nat) + ": "@
            + rest,
    }
}

/// `char::escape_debug`: a character as it is written in a literal.
pub uninterp spec fn char_debug(c: char) -> Seq<char>;

/// `char::escape_debug` depends on the character alone: what it yields is named `char_debug`.
#[verifier::external_body]
fn escape_debug(c: char) -> (r: String)
    ensures
        r@ == char_debug(c),
{
    c.escape_debug().to_string()
}

fn push_escaped(out: &mut String, s: &str)
    ensures
        final(out)@ == old(out)@ + escape(s@),
{
    let cs = chars_of(s);
    let mut i: usize = 0;
    assert(out@ =~= old(out)@ + escape(cs@.take(0)));
    while i < cs.len()
        invariant
            i <= cs@.len(),
            out@ == old(out)@ + escape(cs@.take(i as int)),
        decreases cs@.len() - i,
    {
        proof {
            assert(cs@.take(i + 1).drop_last() =~= cs@.take(i as int));
        }
        if cs[i] == '\'' {
            out.push('\\');
            out.push('\'');
        } else {
            out.push(cs[i]);
        }
        i += 1;
        assert(out@ =~= old(out)@ + escape(cs@.take(i as int)));
    }
    assert(cs@.take(i as int) =~= s@);
}

fn push_list(out: &mut String, xs: &Vec<Val>)
    ensures
        final(out)@ == old(out)@ + list_text(vals_view(xs@)),
    decreases xs,
{
    let ghost vs = vals_view(xs@);
    let mut i: usize = 0;
    assert(out@ =~= old(out)@ + list_text(vs.take(0)));
    while i < xs.len()
        invariant
            i <= xs@.len(),
            vs == vals_view(xs@),
            out@ == old(out)@ + list_text(vs.take(i as int)),
        decreases xs@.len() - i,
    {
        if i > 0 {
            out.push(',');
        }
        xs[i].write_to(out);
        proof {
            let p = vs.take(i + 1);
            assert(p.drop_last() =~= vs.take(i as int));
            assert(p[p.len() - 1] == xs@[i as int]@);
        }
        i += 1;
        assert(out@ =~= old(out)@ + list_text(vs.take(i as int)));
    }
    assert(vs.take(i as int) =~= vs);
}

impl Val {
    /// Append the text of the value.
    pub fn write_to(&self, out: &mut String)
        ensures
            final(out)@ == old(out)@ + val_text(self@),
        decreases self,
    {
        let ghost before = out@;
        match self {
            Val::Str(s) => {
                out.push('\'');
                push_escaped(out, s.as_str());
                out.push('\'');
            },
            Val::Num(n) => {
                push_int(out, *n as i128);
            },
            Val::Bool(b) => {
                if *b {
                    out.push_str("true");
                } else {
                    out.push_str("false");
                }
            },
            Val::List(xs) => {
                out.push('[');
                push_list(out, xs);
                out.push(']');
            },
            Val::Var(n, spread) => {
                out.push('$');
                out.push_str(n.as_str());
                if *spread {
                    out.push_str("[]");
                }
            },
            Val::Ref(n, f) => {
                out.push('$');
                out.push_str(n.as_str());
                out.push('.');
                out.push_str(f.as_str());
            },
            Val::Entity(p) => {
                p.write_to(out);
            },
            Val::Each(xs) => {
                out.push_str("each([");
                push_list(out, xs);
                out.push_str("])");
            },
            Val::All(x) => {
                out.push_str("all(");
                x.write_to(out);
                out.push(')');
            },
        }
        assert(out@ =~= before + val_text(self@));
    }

    /// The text of the value.
    pub fn to_string(&self) -> (r: String)
        ensures
            r@ == val_text(self@),
    {
        let mut out = String::new();
        self.write_to(&mut out);
        assert(out@ =~= val_text(self@));
        out
    }

    fn is_true(&self) -> (r: bool)
        ensures
            r == (self@ == ValV::Bool(true)),
    {
        match self {
            Val::Bool(b) => *b,
            _ => false,
        }
    }
}

impl Pred {
    /// Append the text of the predicate.
    pub fn write_to(&self, out: &mut String)
        ensures
            final(out)@ == old(out)@ + pred_text(self@),
        decreases self,
    {
        let ghost before = out@;
        let ghost xs = args_view(self.args@);
        out.push_str(self.entity.as_str());
        out.push('(');
        let ghost head = out@;
        let mut i: usize = 0;
        assert(out@ =~= head + args_text(xs.take(0)));
        while i < self.args.len()
            invariant
                i <= self.args@.len(),
                xs == args_view(self.args@),
                out@ == head + args_text(xs.take(i as int)),
            decreases self.args@.len() - i,
        {
            if i > 0 {
                out.push(',');
            }
            out.push_str(self.args[i].0.as_str());
            out.push('=');
            self.args[i].1.write_to(out);
            proof {
                let p = xs.take(i + 1);
                assert(p.drop_last() =~= xs.take(i as int));
                assert(p[p.len() - 1] == (self.args@[i as int].0@, self.args@[i as int].1@));
            }
            i += 1;
            assert(out@ =~= head + args_text(xs.take(i as int)));
        }
        assert(xs.take(i as int) =~= xs);
        out.push(')');
        if !self.field.as_str().is_empty() {
            out.push('.');
            out.push_str(self.field.as_str());
            if !(self.is_existence() && self.value.is_true()) {
                out.push('=');
                self.value.write_to(out);
            }
        }
        assert(out@ =~= before + pred_text(self@));
    }

    /// The text of the predicate.
    pub fn to_string(&self) -> (r: String)
        ensures
            r@ == pred_text(self@),
    {
        let mut out = String::new();
        self.write_to(&mut out);
        assert(out@ =~= pred_text(self@));
        out
    }
}

impl ParseError {
    /// The error in words.
    pub fn to_string(&self) -> (r: String)
        ensures
            r@ == parse_error_text(self@),
    {
        let mut out = String::new();
        match self {
            ParseError::Expected { what, at } => {
                out.push_str("expected ");
                out.push_str(what.as_str());
                out.push_str(" at byte ");
                push_dec(&mut out, *at as u128);
            },
            ParseError::Unterminated => {
                out.push_str("unterminated string");
            },
            ParseError::BadNumber(t) => {
                out.push_str("bad number '");
                out.push_str(t.as_str());
                out.push_str("'");
            },
            ParseError::Unexpected { found, at } => {
                out.push_str("unexpected ");
                match found {
                    Some(c) => {
                        out.push_str("Some('");
                        // Between single quotes, a double one needs no escape.
                        if *c == '"' {
                            out.push('"');
                            assert(out@ =~= "unexpected "@ + "Some('"@ + seq!['"']);
                        } else {
                            out.push_str(escape_debug(*c).as_str());
                        }
                        out.push_str("')");
                    },
                    None => {
                        out.push_str("None");
                    },
                }
                out.push_str(" at byte ");
                push_dec(&mut out, *at as u128);
            },
            ParseError::Trailing { at, rest } => {
                out.push_str("trailing input at byte ");
                push_dec(&mut out, *at as u128);
                out.push_str(": ");
                out.push_str(rest.as_str());
            },
        }
        assert(out@ =~= parse_error_text(self@));
        out
    }
}

} // verus!
