//! JSON values as plain data.

use crate::hash::hex_digit;
use crate::text::{int_dec, push_int, same};
use vstd::prelude::*;

verus! {

/// A JSON value. A whole number is kept as one; any other number is kept as its text. The
/// entries of an object stand in ascending order of their keys.
#[derive(Debug, PartialEq)]
pub enum Json {
    Null,
    Bool(bool),
    Int(i128),
    Float(String),
    Str(String),
    List(Vec<Json>),
    Obj(Vec<(String, Json)>),
}

/// The mathematical content of a `Json`.
pub enum JsonV {
    Null,
    Bool(bool),
    Int(int),
    Float(Seq<char>),
    Str(Seq<char>),
    List(Seq<JsonV>),
    Obj(Seq<(Seq<char>, JsonV)>),
}

pub open spec fn json_view(v: Json) -> JsonV
    decreases v,
{
    match v {
        Json::Null => JsonV::Null,
        Json::Bool(b) => JsonV::Bool(b),
        Json::Int(n) => JsonV::Int(n as int),
        Json::Float(t) => JsonV::Float(t@),
        Json::Str(s) => JsonV::Str(s@),
        Json::List(xs) => JsonV::List(list_view(xs@)),
        Json::Obj(xs) => JsonV::Obj(obj_view(xs@)),
    }
}

pub open spec fn list_view(xs: Seq<Json>) -> Seq<JsonV>
    decreases xs,
{
    Seq::new(
        xs.len(),
        |i: int|
            if 0 <= i < xs.len() {
                json_view(xs[i])
            } else {
                arbitrary()
            },
    )
}

pub open spec fn obj_view(xs: Seq<(String, Json)>) -> Seq<(Seq<char>, JsonV)>
    decreases xs,
{
    Seq::new(
        xs.len(),
        |i: int|
            if 0 <= i < xs.len() {
                (xs[i].0@, json_view(xs[i].1))
            } else {
                arbitrary()
            },
    )
}

impl View for Json {
    type V = JsonV;

    open spec fn view(&self) -> JsonV {
        json_view(*self)
    }
}

pub proof fn list_push(xs: Seq<Json>, x: Json)
    ensures
        list_view(xs.push(x)) == list_view(xs).push(x@),
{
    assert(list_view(xs.push(x)) =~= list_view(xs).push(x@));
}

pub proof fn obj_push(xs: Seq<(String, Json)>, x: (String, Json))
    ensures
        obj_view(xs.push(x)) == obj_view(xs).push((x.0@, x.1@)),
{
    assert(obj_view(xs.push(x)) =~= obj_view(xs).push((x.0@, x.1@)));
}

impl Clone for Json {
    fn clone(&self) -> (r: Self)
        ensures
            r@ == self@,
        decreases self,
    {
        match self {
            Json::Null => Json::Null,
            Json::Bool(b) => Json::Bool(*b),
            Json::Int(n) => Json::Int(*n),
            Json::Float(t) => Json::Float(t.clone()),
            Json::Str(s) => Json::Str(s.clone()),
            Json::List(xs) => Json::List(clone_list(xs)),
            Json::Obj(xs) => Json::Obj(clone_obj(xs)),
        }
    }
}

/// A copy of a list of values.
pub fn clone_list(xs: &Vec<Json>) -> (r: Vec<Json>)
    ensures
        list_view(r@) == list_view(xs@),
    decreases xs,
{
    let mut out: Vec<Json> = Vec::new();
    let mut i: usize = 0;
    while i < xs.len()
        invariant
            i <= xs@.len(),
            list_view(out@) == list_view(xs@).take(i as int),
        decreases xs@.len() - i,
    {
        let x = xs[i].clone();
        proof {
            list_push(out@, x);
        }
        out.push(x);
        i += 1;
        assert(list_view(out@) =~= list_view(xs@).take(i as int));
    }
    assert(list_view(xs@).take(i as int) =~= list_view(xs@));
    out
}

/// A copy of the entries of an object.
pub fn clone_obj(xs: &Vec<(String, Json)>) -> (r: Vec<(String, Json)>)
    ensures
        obj_view(r@) == obj_view(xs@),
    decreases xs,
{
    let mut out: Vec<(String, Json)> = Vec::new();
    let mut i: usize = 0;
    while i < xs.len()
        invariant
            i <= xs@.len(),
            obj_view(out@) == obj_view(xs@).take(i as int),
        decreases xs@.len() - i,
    {
        let x = (xs[i].0.clone(), xs[i].1.clone());
        proof {
            obj_push(out@, x);
        }
        out.push(x);
        i += 1;
        assert(obj_view(out@) =~= obj_view(xs@).take(i as int));
    }
    assert(obj_view(xs@).take(i as int) =~= obj_view(xs@));
    out
}

// ---------- reading ----------

/// The value of the first entry under `k`.
pub open spec fn entry(xs: Seq<(Seq<char>, JsonV)>, k: Seq<char>) -> Option<JsonV>
    decreases xs.len(),
{
    if xs.len() == 0 {
        None
    } else if xs[0].0 == k {
        Some(xs[0].1)
    } else {
        entry(xs.drop_first(), k)
    }
}

/// The member `k` of a value: none where it is no object or has no such key.
pub open spec fn member(v: JsonV, k: Seq<char>) -> Option<JsonV> {
    match v {
        JsonV::Obj(xs) => entry(xs, k),
        _ => None,
    }
}

/// The member `k` of a value that may be missing.
pub open spec fn then_member(v: Option<JsonV>, k: Seq<char>) -> Option<JsonV> {
    match v {
        Some(x) => member(x, k),
        None => None,
    }
}

/// A member, or null.
pub open spec fn member_or_null(v: JsonV, k: Seq<char>) -> JsonV {
    match member(v, k) {
        Some(x) => x,
        None => JsonV::Null,
    }
}

/// The string that a value is.
pub open spec fn str_of(v: Option<JsonV>) -> Option<Seq<char>> {
    match v {
        Some(JsonV::Str(s)) => Some(s),
        _ => None,
    }
}

/// The elements of the array that a value is.
pub open spec fn list_of(v: Option<JsonV>) -> Option<Seq<JsonV>> {
    match v {
        Some(JsonV::List(xs)) => Some(xs),
        _ => None,
    }
}

/// The entries of the object that a value is.
pub open spec fn obj_of(v: Option<JsonV>) -> Option<Seq<(Seq<char>, JsonV)>> {
    match v {
        Some(JsonV::Obj(xs)) => Some(xs),
        _ => None,
    }
}

/// The truth value that a value is.
pub open spec fn bool_of(v: Option<JsonV>) -> Option<bool> {
    match v {
        Some(JsonV::Bool(b)) => Some(b),
        _ => None,
    }
}

/// The unsigned 64-bit number that a value is.
pub open spec fn u64_of(v: Option<JsonV>) -> Option<u64> {
    match v {
        Some(JsonV::Int(n)) => if 0 <= n <= u64::MAX {
            Some(n as u64)
        } else {
            None
        },
        _ => None,
    }
}

proof fn entry_skip(xs: Seq<(Seq<char>, JsonV)>, k: Seq<char>, i: int)
    requires
        0 <= i <= xs.len(),
        forall|j: int| 0 <= j < i ==> (#[trigger] xs[j]).0 != k,
    ensures
        entry(xs, k) == entry(xs.skip(i), k),
    decreases i,
{
    if i == 0 {
        assert(xs.skip(0) =~= xs);
    } else {
        assert(xs[0].0 != k);
        let t = xs.drop_first();
        assert forall|j: int| 0 <= j < i - 1 implies (#[trigger] t[j]).0 != k by {
            assert(t[j] == xs[j + 1]);
        }
        entry_skip(t, k, i - 1);
        assert(t.skip(i - 1) =~= xs.skip(i));
    }
}

/// What an optional reference to a value holds.
pub open spec fn opt_view(v: Option<&Json>) -> Option<JsonV> {
    match v {
        Some(x) => Some(x@),
        None => None,
    }
}

/// The value of the first entry under `k`.
pub fn get_entry<'a>(xs: &'a Vec<(String, Json)>, k: &str) -> (r: Option<&'a Json>)
    ensures
        opt_view(r) == entry(obj_view(xs@), k@),
{
    let ghost s = obj_view(xs@);
    let mut i: usize = 0;
    while i < xs.len()
        invariant
            i <= xs@.len(),
            s == obj_view(xs@),
            forall|j: int| 0 <= j < i ==> (#[trigger] s[j]).0 != k@,
        decreases xs@.len() - i,
    {
        if same(xs[i].0.as_str(), k) {
            proof {
                entry_skip(s, k@, i as int);
                assert(s.skip(i as int)[0] == s[i as int]);
            }
            return Some(&xs[i].1);
        }
        i += 1;
    }
    proof {
        entry_skip(s, k@, i as int);
    }
    None
}

impl Json {
    /// The member `k`, where the value is an object that has one.
    pub fn get(&self, k: &str) -> (r: Option<&Json>)
        ensures
            opt_view(r) == member(self@, k@),
    {
        match self {
            Json::Obj(xs) => get_entry(xs, k),
            _ => None,
        }
    }
}

/// The member `k` of a value that may be missing.
pub fn get_in<'a>(v: Option<&'a Json>, k: &str) -> (r: Option<&'a Json>)
    ensures
        opt_view(r) == then_member(opt_view(v), k@),
{
    match v {
        Some(x) => x.get(k),
        None => None,
    }
}

/// A copy of a member, or null.
pub fn get_or_null(v: &Json, k: &str) -> (r: Json)
    ensures
        r@ == member_or_null(v@, k@),
{
    match v.get(k) {
        Some(x) => x.clone(),
        None => Json::Null,
    }
}

/// The string that a value is.
pub fn as_str<'a>(v: Option<&'a Json>) -> (r: Option<&'a str>)
    ensures
        match r {
            Some(s) => str_of(opt_view(v)) == Some(s@),
            None => str_of(opt_view(v)) is None,
        },
{
    match v {
        Some(Json::Str(s)) => Some(s.as_str()),
        _ => None,
    }
}

/// The elements of the array that a value is.
pub fn as_list<'a>(v: Option<&'a Json>) -> (r: Option<&'a Vec<Json>>)
    ensures
        match r {
            Some(xs) => list_of(opt_view(v)) == Some(list_view(xs@)),
            None => list_of(opt_view(v)) is None,
        },
{
    match v {
        Some(Json::List(xs)) => Some(xs),
        _ => None,
    }
}

/// The entries of the object that a value is.
pub fn as_obj<'a>(v: Option<&'a Json>) -> (r: Option<&'a Vec<(String, Json)>>)
    ensures
        match r {
            Some(xs) => obj_of(opt_view(v)) == Some(obj_view(xs@)),
            None => obj_of(opt_view(v)) is None,
        },
{
    match v {
        Some(Json::Obj(xs)) => Some(xs),
        _ => None,
    }
}

/// The truth value that a value is.
pub fn as_bool(v: Option<&Json>) -> (r: Option<bool>)
    ensures
        r == bool_of(opt_view(v)),
{
    match v {
        Some(Json::Bool(b)) => Some(*b),
        _ => None,
    }
}

/// The unsigned 64-bit number that a value is.
pub fn as_u64(v: Option<&Json>) -> (r: Option<u64>)
    ensures
        r == u64_of(opt_view(v)),
{
    match v {
        Some(Json::Int(n)) => if 0 <= *n && *n <= 0xFFFF_FFFF_FFFF_FFFF {
            Some(*n as u64)
        } else {
            None
        },
        _ => None,
    }
}

// ---------- comparing ----------

fn same_list(a: &Vec<Json>, b: &Vec<Json>) -> (r: bool)
    ensures
        r == (list_view(a@) == list_view(b@)),
    decreases a,
{
    assert(list_view(a@).len() == a@.len() && list_view(b@).len() == b@.len());
    if a.len() != b.len() {
        return false;
    }
    let mut i: usize = 0;
    while i < a.len()
        invariant
            i <= a@.len() == b@.len(),
            forall|j: int| 0 <= j < i ==> list_view(a@)[j] == list_view(b@)[j],
        decreases a@.len() - i,
    {
        assert(list_view(a@)[i as int] == a@[i as int]@);
        assert(list_view(b@)[i as int] == b@[i as int]@);
        if !same_json(&a[i], &b[i]) {
            return false;
        }
        i += 1;
    }
    assert(list_view(a@) =~= list_view(b@));
    true
}

fn same_obj(a: &Vec<(String, Json)>, b: &Vec<(String, Json)>) -> (r: bool)
    ensures
        r == (obj_view(a@) == obj_view(b@)),
    decreases a,
{
    assert(obj_view(a@).len() == a@.len() && obj_view(b@).len() == b@.len());
    if a.len() != b.len() {
        return false;
    }
    let mut i: usize = 0;
    while i < a.len()
        invariant
            i <= a@.len() == b@.len(),
            forall|j: int| 0 <= j < i ==> obj_view(a@)[j] == obj_view(b@)[j],
        decreases a@.len() - i,
    {
        assert(obj_view(a@)[i as int] == (a@[i as int].0@, a@[i as int].1@));
        assert(obj_view(b@)[i as int] == (b@[i as int].0@, b@[i as int].1@));
        if !same(a[i].0.as_str(), b[i].0.as_str()) || !same_json(&a[i].1, &b[i].1) {
            return false;
        }
        i += 1;
    }
    assert(obj_view(a@) =~= obj_view(b@));
    true
}

/// Whether two values are the same.
pub fn same_json(a: &Json, b: &Json) -> (r: bool)
    ensures
        r == (a@ == b@),
    decreases a,
{
    match (a, b) {
        (Json::Null, Json::Null) => true,
        (Json::Bool(x), Json::Bool(y)) => *x == *y,
        (Json::Int(x), Json::Int(y)) => *x == *y,
        (Json::Float(x), Json::Float(y)) => same(x.as_str(), y.as_str()),
        (Json::Str(x), Json::Str(y)) => same(x.as_str(), y.as_str()),
        (Json::List(x), Json::List(y)) => same_list(x, y),
        (Json::Obj(x), Json::Obj(y)) => same_obj(x, y),
        _ => false,
    }
}

// ---------- writing ----------

/// A character in a JSON string literal: quotes, backslashes and control characters are escaped,
/// the common ones by a letter and the others by their code in four hexadecimal digits.
pub open spec fn quoted_char(c: char) -> Seq<char> {
    if c == '"' || c == '\\' {
        seq!['\\', c]
    } else if c == '\u{8}' {
        seq!['\\', 'b']
    } else if c == '\t' {
        seq!['\\', 't']
    } else if c == '\n' {
        seq!['\\', 'n']
    } else if c == '\u{c}' {
        seq!['\\', 'f']
    } else if c == '\r' {
        seq!['\\', 'r']
    } else if (c as u32) < 32 {
        seq!['\\', 'u', '0', '0', hex_digit(c as u8 / 16), hex_digit(c as u8 % 16)]
    } else {
        seq![c]
    }
}

pub open spec fn quoted_chars(s: Seq<char>) -> Seq<char>
    decreases s.len(),
{
    if s.len() == 0 {
        Seq::empty()
    } else {
        quoted_chars(s.drop_last()) + quoted_char(s.last())
    }
}

/// A string as a JSON string literal.
pub open spec fn quoted(s: Seq<char>) -> Seq<char> {
    seq!['"'] + quoted_chars(s) + seq!['"']
}

/// `serde_json::to_string` on a string: the characters as `quoted_char` writes them, in quotes.
/// Writing a string to memory does not fail.
#[verifier::external_body]
pub(crate) fn quote(s: &str) -> (r: String)
    ensures
        r@ == quoted(s@),
{
    serde_json::to_string(s).unwrap_or_default()
}

/// A value as compact JSON text.
pub open spec fn json_text(v: JsonV) -> Seq<char>
    decreases v,
{
    match v {
        JsonV::Null => "null"@,
        JsonV::Bool(b) => if b {
            "true"@
        } else {
            "false"@
        },
        JsonV::Int(n) => int_dec(n),
        JsonV::Float(t) => t,
        JsonV::Str(s) => quoted(s),
        JsonV::List(xs) => seq!['['] + elements_text(xs) + seq![']'],
        JsonV::Obj(xs) => seq!['{'] + entries_text(xs) + seq!['}'],
    }
}

pub open spec fn elements_text(xs: Seq<JsonV>) -> Seq<char>
    decreases xs,
{
    if xs.len() == 0 {
        Seq::empty()
    } else if xs.len() == 1 {
        json_text(xs[0])
    } else {
        elements_text(xs.drop_last()) + seq![','] + json_text(xs[xs.len() - 1])
    }
}

pub open spec fn entries_text(xs: Seq<(Seq<char>, JsonV)>) -> Seq<char>
    decreases xs,
{
    if xs.len() == 0 {
        Seq::empty()
    } else {
        let one = quoted(xs[xs.len() - 1].0) + seq![':'] + json_text(xs[xs.len() - 1].1);
        if xs.len() == 1 {
            one
        } else {
            entries_text(xs.drop_last()) + seq![','] + one
        }
    }
}

fn write_list(xs: &Vec<Json>, out: &mut String)
    ensures
        final(out)@ == old(out)@ + elements_text(list_view(xs@)),
    decreases xs,
{
    let ghost vs = list_view(xs@);
    let mut i: usize = 0;
    assert(out@ =~= old(out)@ + elements_text(vs.take(0)));
    while i < xs.len()
        invariant
            i <= xs@.len(),
            vs == list_view(xs@),
            out@ == old(out)@ + elements_text(vs.take(i as int)),
        decreases xs@.len() - i,
    {
        if i > 0 {
            out.push(',');
        }
        xs[i].write_to(out);
        proof {
            let p = vs.take(i + 1);
            assert(p.drop_last() =~= vs.take(i as int));
            assert(p[p.len() - 1] == xs@[i as int]@);
        }
        i += 1;
        assert(out@ =~= old(out)@ + elements_text(vs.take(i as int)));
    }
    assert(vs.take(i as int) =~= vs);
}

fn write_obj(xs: &Vec<(String, Json)>, out: &mut String)
    ensures
        final(out)@ == old(out)@ + entries_text(obj_view(xs@)),
    decreases xs,
{
    let ghost vs = obj_view(xs@);
    let mut i: usize = 0;
    assert(out@ =~= old(out)@ + entries_text(vs.take(0)));
    while i < xs.len()
        invariant
            i <= xs@.len(),
            vs == obj_view(xs@),
            out@ == old(out)@ + entries_text(vs.take(i as int)),
        decreases xs@.len() - i,
    {
        if i > 0 {
            out.push(',');
        }
        out.push_str(quote(xs[i].0.as_str()).as_str());
        out.push(':');
        xs[i].1.write_to(out);
        proof {
            let p = vs.take(i + 1);
            assert(p.drop_last() =~= vs.take(i as int));
            assert(p[p.len() - 1] == (xs@[i as int].0@, xs@[i as int].1@));
        }
        i += 1;
        assert(out@ =~= old(out)@ + entries_text(vs.take(i as int)));
    }
    assert(vs.take(i as int) =~= vs);
}

impl Json {
    /// Append the value as compact JSON text.
    pub fn write_to(&self, out: &mut String)
        ensures
            final(out)@ == old(out)@ + json_text(self@),
        decreases self,
    {
        let ghost before = out@;
        match self {
            Json::Null => {
                out.push_str("null");
            },
            Json::Bool(b) => {
                if *b {
                    out.push_str("true");
                } else {
                    out.push_str("false");
                }
            },
            Json::Int(n) => {
                push_int(out, *n);
            },
            Json::Float(t) => {
                out.push_str(t.as_str());
            },
            Json::Str(s) => {
                out.push_str(quote(s.as_str()).as_str());
            },
            Json::List(xs) => {
                out.push('[');
                write_list(xs, out);
                out.push(']');
            },
            Json::Obj(xs) => {
                out.push('{');
                write_obj(xs, out);
                out.push('}');
            },
        }
        assert(out@ =~= before + json_text(self@));
    }

    /// The value as compact JSON text.
    pub fn to_string(&self) -> (r: String)
        ensures
            r@ == json_text(self@),
    {
        let mut out = String::new();
        self.write_to(&mut out);
        assert(out@ =~= json_text(self@));
        out
    }
}

// ---------- reading ----------

/// `serde_json::Value`.
#[verifier::external_type_specification]
#[verifier::external_body]
pub struct ExValue(serde_json::Value);

/// What a `serde_json::Value` holds.
pub uninterp spec fn content(v: serde_json::Value) -> JsonV;

/// What `serde_json::from_str` reads a text as, or the words in which it refuses it.
pub uninterp spec fn json_of(text: Seq<char>) -> Result<JsonV, Seq<char>>;

/// The text that `serde_json::to_string_pretty` makes of a value.
pub uninterp spec fn pretty_text(v: JsonV) -> Seq<char>;

/// The outermost layer of a `serde_json::Value`.
enum Layer<'a> {
    Null,
    Bool(bool),
    Int(i128),
    Float(String),
    Str(&'a String),
    List(&'a Vec<serde_json::Value>),
    Obj(Vec<(&'a String, &'a serde_json::Value)>),
}

spec fn contents(xs: Seq<serde_json::Value>) -> Seq<JsonV> {
    xs.map_values(|x: serde_json::Value| content(x))
}

spec fn entry_contents(xs: Seq<(&String, &serde_json::Value)>) -> Seq<(Seq<char>, JsonV)> {
    xs.map_values(|x: (&String, &serde_json::Value)| (x.0@, content(*x.1)))
}

spec fn layered(l: Layer) -> JsonV {
    match l {
        Layer::Null => JsonV::Null,
        Layer::Bool(b) => JsonV::Bool(b),
        Layer::Int(n) => JsonV::Int(n as int),
        Layer::Float(t) => JsonV::Float(t@),
        Layer::Str(s) => JsonV::Str(s@),
        Layer::List(xs) => JsonV::List(contents(xs@)),
        Layer::Obj(xs) => JsonV::Obj(entry_contents(xs@)),
    }
}

/// `serde_json::from_str` into a `serde_json::Value` depends on the text alone: what it reads, or
/// why it does not, is named `json_of`.
#[verifier::external_body]
fn read_value(text: &str) -> (r: Result<serde_json::Value, String>)
    ensures
        match r {
            Ok(v) => json_of(text@) == Ok::<JsonV, Seq<char>>(content(v)),
            Err(e) => json_of(text@) == Err::<JsonV, Seq<char>>(e@),
        },
{
    serde_json::from_str::<serde_json::Value>(text).map_err(|e| e.to_string())
}

/// The variants of `serde_json::Value`, told apart. A whole number is one that
/// `serde_json::Number::as_i128` gives; any other number is kept as its text.
#[verifier::external_body]
fn layer_of(v: &serde_json::Value) -> (r: Layer<'_>)
    ensures
        content(*v) == layered(r),
{
    match v {
        serde_json::Value::Null => Layer::Null,
        serde_json::Value::Bool(b) => Layer::Bool(*b),
        serde_json::Value::Number(n) => n.as_i128().map_or(Layer::Float(n.to_string()), Layer::Int),
        serde_json::Value::String(s) => Layer::Str(s),
        serde_json::Value::Array(xs) => Layer::List(xs),
        serde_json::Value::Object(xs) => Layer::Obj(xs.iter().collect()),
    }
}

/// `serde_json::to_string_pretty` depends on what the value holds alone: the text is named
/// `pretty_text`. Writing a value to memory does not fail.
#[verifier::external_body]
fn pretty_value(v: &serde_json::Value) -> (r: String)
    ensures
        r@ == pretty_text(content(*v)),
{
    serde_json::to_string_pretty(v).unwrap_or_default()
}

fn list_of_values(xs: &Vec<serde_json::Value>) -> (r: Vec<Json>)
    ensures
        list_view(r@) == contents(xs@),
    decreases contents(xs@), 1nat,
{
    let ghost vs = contents(xs@);
    let mut out: Vec<Json> = Vec::new();
    let mut i: usize = 0;
    assert(list_view(out@) =~= vs.take(0));
    while i < xs.len()
        invariant
            i <= xs@.len() == vs.len(),
            vs == contents(xs@),
            list_view(out@) == vs.take(i as int),
        decreases xs@.len() - i,
    {
        assert(content(xs@[i as int]) == vs[i as int]);
        let j = of_value(&xs[i]);
        proof {
            list_push(out@, j);
        }
        out.push(j);
        i += 1;
        assert(list_view(out@) =~= vs.take(i as int));
    }
    assert(vs.take(i as int) =~= vs);
    out
}

fn entries_of_values(xs: &Vec<(&String, &serde_json::Value)>) -> (r: Vec<(String, Json)>)
    ensures
        obj_view(r@) == entry_contents(xs@),
    decreases entry_contents(xs@), 1nat,
{
    let ghost vs = entry_contents(xs@);
    let mut out: Vec<(String, Json)> = Vec::new();
    let mut i: usize = 0;
    assert(obj_view(out@) =~= vs.take(0));
    while i < xs.len()
        invariant
            i <= xs@.len() == vs.len(),
            vs == entry_contents(xs@),
            obj_view(out@) == vs.take(i as int),
        decreases xs@.len() - i,
    {
        assert((xs@[i as int].0@, content(*xs@[i as int].1)) == vs[i as int]);
        assert(decreases_to!(vs => vs[i as int]));
        assert(decreases_to!(vs[i as int] => vs[i as int].1));
        let e = (xs[i].0.clone(), of_value(xs[i].1));
        proof {
            obj_push(out@, e);
        }
        out.push(e);
        i += 1;
        assert(obj_view(out@) =~= vs.take(i as int));
    }
    assert(vs.take(i as int) =~= vs);
    out
}

fn of_value(v: &serde_json::Value) -> (r: Json)
    ensures
        r@ == content(*v),
    decreases content(*v), 0nat,
{
    match layer_of(v) {
        Layer::Null => Json::Null,
        Layer::Bool(b) => Json::Bool(b),
        Layer::Int(n) => Json::Int(n),
        Layer::Float(t) => Json::Float(t),
        Layer::Str(s) => Json::Str(s.clone()),
        Layer::List(xs) => {
            assert(decreases_to!(content(*v) => content(*v)->List_0));
            Json::List(list_of_values(xs))
        },
        Layer::Obj(xs) => {
            assert(decreases_to!(content(*v) => content(*v)->Obj_0));
            Json::Obj(entries_of_values(&xs))
        },
    }
}

/// A parse result, by its content.
pub open spec fn parsed_view(p: Result<Json, String>) -> Result<JsonV, Seq<char>> {
    match p {
        Ok(v) => Ok(v@),
        Err(e) => Err(e@),
    }
}

/// Read JSON text.
pub fn parse_text(text: &str) -> (r: Result<Json, String>)
    ensures
        parsed_view(r) == json_of(text@),
{
    match read_value(text) {
        Ok(v) => Ok(of_value(&v)),
        Err(e) => Err(e),
    }
}

/// A value as JSON text over several lines, by way of its compact text.
pub open spec fn spread_text(v: JsonV) -> Seq<char> {
    match json_of(json_text(v)) {
        Ok(c) => pretty_text(c),
        Err(_) => Seq::empty(),
    }
}

/// A value as JSON text over several lines.
pub fn pretty(v: &Json) -> (r: String)
    ensures
        r@ == spread_text(v@),
{
    let t = v.to_string();
    match read_value(t.as_str()) {
        Ok(c) => pretty_value(&c),
        Err(_) => String::new(),
    }
}

} // verus!
