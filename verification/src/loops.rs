//! The loops in which a model drives: what it is shown, how its replies are read, and when it is
//! done.

use crate::cut::{
    contains_str, ends_with, join, joined, lower, lowercase, occurs, trim, trimmed,
    without_suffix,
};
use crate::effect::{beginning, head, EffectError, EffectErrorV};
use crate::json::{
    as_list, as_str, clone_list, get_or_null, json_text, list_of, list_push, list_view, member,
    member_or_null, obj_view, str_of, Json, JsonV,
};
use crate::ledger::{Ledger, LedgerV, Status};
use crate::object::{
    no_entries, one_entry, one_item, push_entry, text_json, three_entries, two_entries,
};
use crate::plan::{Plan, PlanV};
use crate::planner::{content_of, texts, texts_in};
use crate::text::{chars_of, dec, owned, push_dec, same, string_of, views};
use crate::world::opt_str;
use vstd::prelude::*;

verus! {

// ---------- done ----------

/// `char::is_alphanumeric`: whether a character is a letter or a number.
pub uninterp spec fn alphanumeric(c: char) -> bool;

/// `char::is_alphanumeric` depends on the character alone: what it yields is named
/// `alphanumeric`.
#[verifier::external_body]
fn is_alphanumeric(c: char) -> (r: bool)
    ensures
        r == alphanumeric(c),
{
    c.is_alphanumeric()
}

/// Whether the characters from `a` to `b` are one word: letters and numbers, with none before
/// and none behind.
pub open spec fn is_word(t: Seq<char>, a: int, b: int) -> bool {
    &&& 0 <= a <= b <= t.len()
    &&& forall|i: int| a <= i < b ==> alphanumeric(#[trigger] t[i])
    &&& a == 0 || !alphanumeric(t[a - 1])
    &&& b == t.len() || !alphanumeric(t[b])
}

/// Whether a word stands in a text.
pub open spec fn has_word(t: Seq<char>, w: Seq<char>) -> bool {
    exists|a: int, b: int| #[trigger] is_word(t, a, b) && t.subrange(a, b) == w
}

/// Whether a text speaks of something that did not get done.
pub open spec fn negated(t: Seq<char>) -> bool {
    occurs(t, "not done"@) || occurs(t, "n't done"@) || occurs(t, "nothing"@) || occurs(
        t,
        "unable"@,
    ) || occurs(t, "cannot"@) || occurs(t, "can not"@)
}

/// Whether a text in lower case, without whitespace around it, says that all is done.
pub open spec fn is_done(t: Seq<char>) -> bool {
    t == "done"@ || (!negated(t) && has_word(t, "done"@))
}

fn find_word(t: &str, w: &str) -> (r: bool)
    ensures
        r == has_word(t@, w@),
{
    let cs = chars_of(t);
    let ghost s = t@;
    let n = cs.len();
    let mut from: usize = 0;
    let mut i: usize = 0;
    while i < n
        invariant
            from <= i <= n == cs@.len(),
            cs@ == s,
            s == t@,
            from == 0 || !alphanumeric(s[from - 1]),
            forall|k: int| from <= k < i ==> alphanumeric(#[trigger] s[k]),
            forall|a: int, b: int|
                #[trigger] is_word(s, a, b) && a < from ==> s.subrange(a, b) != w@,
        decreases n - i,
    {
        if !is_alphanumeric(cs[i]) {
            let word = string_of(&cs, from, i);
            assert(is_word(s, from as int, i as int));
            if same(word.as_str(), w) {
                return true;
            }
            assert forall|a: int, b: int|
                #[trigger] is_word(s, a, b) && a < i + 1 implies s.subrange(a, b) != w@ by {
                if a >= from {
                    if a > from {
                        assert(alphanumeric(s[a - 1]));
                    }
                    if b < i {
                        assert(alphanumeric(s[b as int]));
                    } else if b > i {
                        assert(alphanumeric(s[i as int]));
                    }
                }
            }
            from = i + 1;
        }
        i += 1;
    }
    let word = string_of(&cs, from, n);
    assert(is_word(s, from as int, n as int));
    let r = same(word.as_str(), w);
    proof {
        if !r {
            assert forall|a: int, b: int| #[trigger] is_word(s, a, b) implies s.subrange(a, b)
                != w@ by {
                if a >= from {
                    if a > from {
                        assert(alphanumeric(s[a - 1]));
                    }
                    if b < n {
                        assert(alphanumeric(s[b as int]));
                    }
                }
            }
        }
    }
    r
}

/// Whether a text in lower case, without whitespace around it, says that all is done.
pub fn reads_done(t: &str) -> (r: bool)
    ensures
        r == is_done(t@),
{
    if same(t, "done") {
        return true;
    }
    if contains_str(t, "not done") || contains_str(t, "n't done") || contains_str(t, "nothing")
        || contains_str(t, "unable") || contains_str(t, "cannot") || contains_str(t, "can not") {
        return false;
    }
    find_word(t, "done")
}

/// "done" means finished; "not done", "nothing done" and the like do not. A question is tested
/// before this, so a loop that asks without a question mark still reads as giving up.
pub fn says_done(text: &str) -> (r: bool)
    ensures
        r == is_done(lower(trimmed(text@))),
{
    let t = trim(text);
    let l = lowercase(t.as_str());
    reads_done(l.as_str())
}

// ---------- how a loop ends ----------

/// How a loop ended.
#[derive(Debug)]
pub struct Ending {
    pub status: Status,
    pub error: Option<String>,
    pub yield_reason: Option<String>,
}

pub struct EndingV {
    pub status: Status,
    pub error: Option<Seq<char>>,
    pub yield_reason: Option<Seq<char>>,
}

impl View for Ending {
    type V = EndingV;

    open spec fn view(&self) -> EndingV {
        EndingV {
            status: self.status,
            error: opt_str(self.error),
            yield_reason: opt_str(self.yield_reason),
        }
    }
}

pub open spec fn committed() -> EndingV {
    EndingV { status: Status::Committed, error: None, yield_reason: None }
}

pub open spec fn asked(t: Seq<char>) -> EndingV {
    EndingV { status: Status::NeedThink, error: None, yield_reason: Some(t) }
}

pub open spec fn failed(e: Seq<char>) -> EndingV {
    EndingV { status: Status::Error, error: Some(e), yield_reason: None }
}

impl Ending {
    pub fn committed() -> (r: Ending)
        ensures
            r@ == committed(),
    {
        Ending { status: Status::Committed, error: None, yield_reason: None }
    }

    pub fn asked(t: String) -> (r: Ending)
        ensures
            r@ == asked(t@),
    {
        Ending { status: Status::NeedThink, error: None, yield_reason: Some(t) }
    }

    pub fn failed(e: String) -> (r: Ending)
        ensures
            r@ == failed(e@),
    {
        Ending { status: Status::Error, error: Some(e), yield_reason: None }
    }

    /// The turns ran out.
    pub fn out_of_turns(max_turns: u32) -> (r: Ending)
        ensures
            r@ == failed("gave up after "@ + dec(max_turns as nat) + " turns"@),
    {
        let mut e = owned("gave up after ");
        push_dec(&mut e, max_turns as u128);
        e.push_str(" turns");
        Ending::failed(e)
    }

    /// Write down the question that a loop ended with.
    pub fn note_in(&self, ledger: &mut Ledger)
        ensures
            final(ledger)@ == noted(old(ledger)@, self@),
    {
        match &self.yield_reason {
            Some(t) => {
                let v = one_entry("ask", Json::Str(t.clone()));
                proof {
                    list_push(ledger.forks@, v);
                }
                ledger.forks.push(v);
            },
            None => {},
        }
    }
}

/// A ledger with the question that a loop ended with.
pub open spec fn noted(l: LedgerV, e: EndingV) -> LedgerV {
    match e.yield_reason {
        Some(t) => LedgerV {
            forks: l.forks.push(JsonV::Obj(seq![("ask"@, JsonV::Str(t))])),
            ..l
        },
        None => l,
    }
}

/// How the closing words of a loop are read: a question is a question, done is done, and
/// anything else is giving up.
pub open spec fn reading(t: Seq<char>) -> EndingV {
    if without_suffix(t, "?"@) is Some {
        asked(t)
    } else if is_done(lower(trimmed(t))) {
        committed()
    } else {
        failed("gave up: "@ + beginning(t, 200))
    }
}

pub(crate) fn gave_up(t: &str) -> (r: Ending)
    ensures
        r@ == failed("gave up: "@ + beginning(t@, 200)),
{
    let mut e = owned("gave up: ");
    e.push_str(head(t, 200).as_str());
    Ending::failed(e)
}

/// How the closing words of a loop are read.
pub fn read_closing(t: &str) -> (r: Ending)
    ensures
        r@ == reading(t@),
{
    if ends_with(t, "?") {
        Ending::asked(owned(t))
    } else if says_done(t) {
        Ending::committed()
    } else {
        gave_up(t)
    }
}

/// A loop that neither says that it is done nor asks has failed, whatever else it says; and only
/// one that says it is done, without asking, has committed.
pub proof fn giving_up_is_never_a_commit(t: Seq<char>)
    ensures
        reading(t).status == Status::Committed <==> without_suffix(t, "?"@) is None && is_done(
            lower(trimmed(t)),
        ),
        reading(t).status == Status::NeedThink <==> without_suffix(t, "?"@) is Some,
        reading(t).status == Status::Error ==> reading(t).error is Some,
{
}

// ---------- what is shown ----------

/// What the model is told before a loop over tools.
pub const APP_SYSTEM: &'static str = "You operate an invoicing app through the tools provided. Customers are identified by name. \
Invoices default to 10000 cents unless told otherwise. Use the idempotency_key argument on every write, with a fresh \
unique key per intended effect, and reuse the same key if you retry that same effect. Do only what the task asks. \
If the task is ambiguous in a way that changes what you would do (for example two customers share a name), stop and \
ask one question instead of guessing. When the task is fully done, reply with the single word: done.\n\n\
Worked example. Task: invoice Acme and Globex, send both, then one report over both. A good run: listCustomers for each \
name to get ids; createInvoice for each id (amount 10000, keys inv-acme and inv-globex); sendInvoice for each invoice id \
(keys send-acme and send-globex); createReport over both invoice ids (key report-1); reply done. \
Independent steps may be issued together in one turn.";

/// What the model is told before a loop over pixels.
pub const CUA_SYSTEM: &'static str = "You are operating a web application by looking at screenshots and acting with a mouse and keyboard. \
You cannot call the application directly; you only see pixels. The screen is 1280 by 800; coordinates are pixels from the top-left. \
Use the computer tool once per turn. Click a form field before typing into it. After each action you get a fresh screenshot. \
Customers are listed on the page; invoices default to 10000 cents. Do only what the task asks. If the task is ambiguous in a way \
that changes what you would do, use the done action with a question instead of guessing. When the task is fully done, use done.";

/// The start of a conversation: the facts that the planner gets too, and the task.
pub open spec fn opening(facts: Seq<char>, goal: Seq<char>) -> Seq<char> {
    "World facts (read just now):\n"@ + facts + "\n\nTask: "@ + goal
}

pub(crate) fn open_with(facts: &str, goal: &str) -> (r: String)
    ensures
        r@ == opening(facts@, goal@),
{
    let mut t = owned("World facts (read just now):\n");
    t.push_str(facts);
    t.push_str("\n\nTask: ");
    t.push_str(goal);
    t
}

/// A message.
pub open spec fn message(role: Seq<char>, content: JsonV) -> JsonV {
    JsonV::Obj(seq![("content"@, content), ("role"@, JsonV::Str(role))])
}

pub(crate) fn say(role: &str, content: Json) -> (r: Json)
    ensures
        r@ == message(role@, content@),
{
    two_entries("content", content, "role", text_json(role))
}

/// The words that stand before a conversation, kept warm.
pub open spec fn system(words: Seq<char>) -> JsonV {
    JsonV::List(
        seq![
            JsonV::Obj(
                seq![
                    ("cache_control"@, JsonV::Obj(seq![("type"@, JsonV::Str("ephemeral"@))])),
                    ("text"@, JsonV::Str(words)),
                    ("type"@, JsonV::Str("text"@)),
                ],
            ),
        ],
    )
}

pub(crate) fn system_of(words: &str) -> (r: Json)
    ensures
        r@ == system(words@),
{
    one_item(
        three_entries(
            "cache_control",
            one_entry("type", text_json("ephemeral")),
            "text",
            text_json(words),
            "type",
            text_json("text"),
        ),
    )
}

/// Whether the model may call several tools at once.
pub open spec fn one_at_a_time() -> JsonV {
    JsonV::Obj(
        seq![
            ("disable_parallel_tool_use"@, JsonV::Bool(true)),
            ("type"@, JsonV::Str("auto"@)),
        ],
    )
}

pub(crate) fn only_one() -> (r: Json)
    ensures
        r@ == one_at_a_time(),
{
    two_entries("disable_parallel_tool_use", Json::Bool(true), "type", text_json("auto"))
}

/// A tool of the app as the model is shown it.
pub open spec fn offered(t: JsonV) -> JsonV {
    JsonV::Obj(
        seq![
            ("description"@, member_or_null(t, "description"@)),
            ("input_schema"@, member_or_null(t, "inputSchema"@)),
            ("name"@, member_or_null(t, "name"@)),
        ],
    )
}

/// The tools of the app as the model is shown them.
pub open spec fn all_offered(tools: JsonV) -> Seq<JsonV> {
    match list_of(Some(tools)) {
        Some(xs) => Seq::new(xs.len(), |i: int| offered(xs[i])),
        None => Seq::empty(),
    }
}

/// The tools of the app as the model is shown them.
pub fn offer_tools(tools: &Json) -> (r: Vec<Json>)
    ensures
        list_view(r@) == all_offered(tools@),
{
    let mut out: Vec<Json> = Vec::new();
    assert(list_view(out@) =~= Seq::<JsonV>::empty());
    match as_list(Some(tools)) {
        None => {},
        Some(xs) => {
            let ghost vs = list_view(xs@);
            let ghost all = all_offered(tools@);
            assert(vs.len() == xs@.len());
            let mut i: usize = 0;
            while i < xs.len()
                invariant
                    i <= xs@.len() == vs.len() == all.len(),
                    vs == list_view(xs@),
                    all == Seq::new(vs.len(), |i: int| offered(vs[i])),
                    list_view(out@) == all.take(i as int),
                decreases xs@.len() - i,
            {
                let t = three_entries(
                    "description",
                    get_or_null(&xs[i], "description"),
                    "input_schema",
                    get_or_null(&xs[i], "inputSchema"),
                    "name",
                    get_or_null(&xs[i], "name"),
                );
                proof {
                    assert(vs[i as int] == xs@[i as int]@);
                    assert(t@ == offered(vs[i as int]));
                    list_push(out@, t);
                }
                out.push(t);
                i += 1;
                assert(list_view(out@) =~= all.take(i as int));
            }
            assert(all.take(i as int) =~= all);
        },
    }
    out
}

// ---------- the loop over tools ----------

/// One call that the model makes.
#[derive(Debug)]
pub struct ToolUse {
    pub id: String,
    pub name: String,
    pub input: Json,
    pub key: Option<String>,
}

pub struct ToolUseV {
    pub id: Seq<char>,
    pub name: Seq<char>,
    pub input: JsonV,
    pub key: Option<Seq<char>>,
}

impl View for ToolUse {
    type V = ToolUseV;

    open spec fn view(&self) -> ToolUseV {
        ToolUseV { id: self.id@, name: self.name@, input: self.input@, key: opt_str(self.key) }
    }
}

pub open spec fn uses_view(xs: Seq<ToolUse>) -> Seq<ToolUseV> {
    xs.map_values(|x: ToolUse| x@)
}

/// Whether a block is a call.
pub open spec fn is_use(b: JsonV) -> bool {
    str_of(member(b, "type"@)) == Some("tool_use"@)
}

pub open spec fn text_at(v: JsonV, k: Seq<char>) -> Seq<char> {
    match str_of(member(v, k)) {
        Some(t) => t,
        None => ""@,
    }
}

/// The call in a block.
pub open spec fn use_in(b: JsonV) -> ToolUseV {
    let input = member_or_null(b, "input"@);
    ToolUseV {
        id: text_at(b, "id"@),
        name: text_at(b, "name"@),
        input,
        key: str_of(member(input, "idempotency_key"@)),
    }
}

/// The calls among the blocks.
pub open spec fn uses_in(xs: Seq<JsonV>) -> Seq<ToolUseV>
    decreases xs.len(),
{
    if xs.len() == 0 {
        Seq::empty()
    } else if is_use(xs.last()) {
        uses_in(xs.drop_last()).push(use_in(xs.last()))
    } else {
        uses_in(xs.drop_last())
    }
}

/// What a reply leads to.
pub enum Heard {
    /// These calls are made, all at once.
    Calls(Vec<ToolUse>),
    /// The loop is over.
    End(Ending),
}

pub enum HeardV {
    Calls(Seq<ToolUseV>),
    End(EndingV),
}

impl View for Heard {
    type V = HeardV;

    open spec fn view(&self) -> HeardV {
        match self {
            Heard::Calls(cs) => HeardV::Calls(uses_view(cs@)),
            Heard::End(e) => HeardV::End(e@),
        }
    }
}

/// The closing words of a reply.
pub open spec fn closing(resp: JsonV) -> Seq<char> {
    joined(texts_in(content_of(resp)), " "@)
}

/// What a reply leads to: a refusal ends the loop, calls are made, and a reply without one is
/// read as the closing words.
pub open spec fn heard(resp: JsonV) -> HeardV {
    let calls = uses_in(content_of(resp));
    if str_of(member(resp, "stop_reason"@)) == Some("refusal"@) {
        HeardV::End(failed("model refused"@))
    } else if calls.len() == 0 {
        HeardV::End(reading(trimmed(closing(resp))))
    } else {
        HeardV::Calls(calls)
    }
}

pub(crate) fn read_text(v: &Json, k: &str) -> (r: String)
    ensures
        r@ == text_at(v@, k@),
{
    match as_str(v.get(k)) {
        Some(t) => owned(t),
        None => owned(""),
    }
}

pub(crate) fn is_tool_use(b: &Json) -> (r: bool)
    ensures
        r == is_use(b@),
{
    match as_str(b.get("type")) {
        Some(t) => same(t, "tool_use"),
        None => false,
    }
}

fn read_uses(xs: &Vec<Json>) -> (r: Vec<ToolUse>)
    ensures
        uses_view(r@) == uses_in(list_view(xs@)),
{
    let ghost vs = list_view(xs@);
    assert(vs.len() == xs@.len());
    let mut out: Vec<ToolUse> = Vec::new();
    let mut i: usize = 0;
    assert(uses_view(out@) =~= uses_in(vs.take(0)));
    while i < xs.len()
        invariant
            i <= xs@.len() == vs.len(),
            vs == list_view(xs@),
            uses_view(out@) == uses_in(vs.take(i as int)),
        decreases xs@.len() - i,
    {
        proof {
            assert(vs.take(i + 1).drop_last() =~= vs.take(i as int));
            assert(vs.take(i + 1).last() == xs@[i as int]@);
        }
        if is_tool_use(&xs[i]) {
            let input = get_or_null(&xs[i], "input");
            let key = match as_str(input.get("idempotency_key")) {
                Some(k) => Some(owned(k)),
                None => None,
            };
            let u = ToolUse {
                id: read_text(&xs[i], "id"),
                name: read_text(&xs[i], "name"),
                input,
                key,
            };
            let ghost o = uses_view(out@);
            out.push(u);
            assert(uses_view(out@) =~= o.push(u@));
        }
        i += 1;
    }
    assert(vs.take(i as int) =~= vs);
    out
}

/// What a call gave, as the model is told.
pub open spec fn outcome_text(r: Result<JsonV, EffectErrorV>) -> Seq<char> {
    match r {
        Ok(v) => json_text(v),
        Err(EffectErrorV::Retryable(m)) => "error: "@ + m,
        Err(EffectErrorV::Fatal(m)) => "error: "@ + m,
        Err(EffectErrorV::Throttled(ms, m)) => "error: "@ + m + " (retry after "@ + dec(ms as nat)
            + " ms)"@,
    }
}

pub open spec fn outcome_view(r: Result<Json, EffectError>) -> Result<JsonV, EffectErrorV> {
    match r {
        Ok(v) => Ok(v@),
        Err(e) => Err(e@),
    }
}

/// What a call gave, as the model is told.
pub fn tell_outcome(r: &Result<Json, EffectError>) -> (o: String)
    ensures
        o@ == outcome_text(outcome_view(*r)),
{
    match r {
        Ok(v) => v.to_string(),
        Err(e) => {
            let mut t = owned("error: ");
            match e {
                EffectError::Retryable(m) => t.push_str(m.as_str()),
                EffectError::Fatal(m) => t.push_str(m.as_str()),
                EffectError::Throttled(ms, m) => {
                    t.push_str(m.as_str());
                    t.push_str(" (retry after ");
                    push_dec(&mut t, *ms as u128);
                    t.push_str(" ms)");
                },
            }
            t
        },
    }
}

/// The answer to one call.
pub open spec fn result_block(id: Seq<char>, content: Seq<char>) -> JsonV {
    JsonV::Obj(
        seq![
            ("content"@, JsonV::Str(content)),
            ("tool_use_id"@, JsonV::Str(id)),
            ("type"@, JsonV::Str("tool_result"@)),
        ],
    )
}

pub(crate) fn block_of(id: &str, content: &str) -> (r: Json)
    ensures
        r@ == result_block(id@, content@),
{
    three_entries(
        "content",
        text_json(content),
        "tool_use_id",
        text_json(id),
        "type",
        text_json("tool_result"),
    )
}

pub open spec fn results_view(xs: Seq<(String, String)>) -> Seq<(Seq<char>, Seq<char>)> {
    xs.map_values(|x: (String, String)| (x.0@, x.1@))
}

/// The answers to the calls of one turn.
pub open spec fn result_blocks(rs: Seq<(Seq<char>, Seq<char>)>) -> Seq<JsonV> {
    Seq::new(rs.len(), |i: int| result_block(rs[i].0, rs[i].1))
}

/// A model driving tools: the conversation so far.
pub struct ToolLoop {
    pub tools: Vec<Json>,
    pub messages: Vec<Json>,
    /// Whether the model may make several calls in one turn.
    pub parallel: bool,
    pub turn: u32,
    pub max_turns: u32,
}

pub struct ToolLoopV {
    pub tools: Seq<JsonV>,
    pub messages: Seq<JsonV>,
    pub parallel: bool,
    pub turn: u32,
    pub max_turns: u32,
}

impl View for ToolLoop {
    type V = ToolLoopV;

    open spec fn view(&self) -> ToolLoopV {
        ToolLoopV {
            tools: list_view(self.tools@),
            messages: list_view(self.messages@),
            parallel: self.parallel,
            turn: self.turn,
            max_turns: self.max_turns,
        }
    }
}

/// At least one turn.
pub open spec fn turns(max_turns: u32) -> u32 {
    if max_turns == 0 {
        1
    } else {
        max_turns
    }
}

/// What the model is sent in a turn.
pub open spec fn turn_request(l: ToolLoopV) -> Seq<(Seq<char>, JsonV)> {
    if l.parallel {
        seq![
            ("max_tokens"@, JsonV::Int(4096)),
            ("messages"@, JsonV::List(l.messages)),
            ("system"@, system(APP_SYSTEM@)),
            ("tools"@, JsonV::List(l.tools)),
        ]
    } else {
        seq![
            ("max_tokens"@, JsonV::Int(4096)),
            ("messages"@, JsonV::List(l.messages)),
            ("system"@, system(APP_SYSTEM@)),
            ("tool_choice"@, one_at_a_time()),
            ("tools"@, JsonV::List(l.tools)),
        ]
    }
}

/// The content of a reply as it is kept: none is an empty list.
pub open spec fn kept_content(resp: JsonV) -> JsonV {
    match member(resp, "content"@) {
        Some(v) => v,
        None => JsonV::List(Seq::empty()),
    }
}

pub(crate) fn keep_content(resp: &Json) -> (r: Json)
    ensures
        r@ == kept_content(resp@),
{
    match resp.get("content") {
        Some(v) => v.clone(),
        None => {
            let none: Vec<Json> = Vec::new();
            assert(list_view(none@) =~= Seq::<JsonV>::empty());
            Json::List(none)
        },
    }
}

pub(crate) fn closing_words(resp: &Json) -> (r: String)
    ensures
        r@ == closing(resp@),
{
    match as_list(resp.get("content")) {
        Some(xs) => {
            let ts = texts(xs);
            join(&ts, " ")
        },
        None => {
            let none: Vec<String> = Vec::new();
            assert(views(none@) =~= texts_in(Seq::<JsonV>::empty()));
            join(&none, " ")
        },
    }
}

impl ToolLoop {
    pub fn new(tools: Vec<Json>, facts: &str, goal: &str, parallel: bool, max_turns: u32) -> (r:
        ToolLoop)
        ensures
            r@ == (ToolLoopV {
                tools: list_view(tools@),
                messages: seq![message("user"@, JsonV::Str(opening(facts@, goal@)))],
                parallel,
                turn: 0,
                max_turns: turns(max_turns),
            }),
    {
        let first = say("user", Json::Str(open_with(facts, goal)));
        let mut messages: Vec<Json> = Vec::new();
        let ghost fv = first@;
        messages.push(first);
        assert(list_view(messages@) =~= seq![fv]);
        ToolLoop {
            tools,
            messages,
            parallel,
            turn: 0,
            max_turns: if max_turns == 0 {
                1
            } else {
                max_turns
            },
        }
    }

    /// Take a turn: what the model is sent, or nothing when the turns ran out.
    pub fn ask(&mut self) -> (r: Option<Vec<(String, Json)>>)
        ensures
            match r {
                Some(o) => old(self)@.turn < old(self)@.max_turns && obj_view(o@) == turn_request(
                    old(self)@,
                ) && final(self)@ == (ToolLoopV { turn: (old(self)@.turn + 1) as u32, ..old(
                    self,
                )@ }),
                None => old(self)@.turn >= old(self)@.max_turns && *final(self) == *old(self),
            },
    {
        if self.turn >= self.max_turns {
            return None;
        }
        let mut o = no_entries();
        push_entry(&mut o, "max_tokens", Json::Int(4096));
        let ms = clone_list(&self.messages);
        push_entry(&mut o, "messages", Json::List(ms));
        push_entry(&mut o, "system", system_of(APP_SYSTEM));
        if !self.parallel {
            push_entry(&mut o, "tool_choice", only_one());
        }
        let ts = clone_list(&self.tools);
        push_entry(&mut o, "tools", Json::List(ts));
        assert(obj_view(o@) =~= turn_request(self@));
        self.turn = self.turn + 1;
        Some(o)
    }

    /// Read a reply.
    pub fn hear(&mut self, resp: &Json) -> (r: Heard)
        ensures
            r@ == heard(resp@),
            final(self)@ == (ToolLoopV {
                messages: old(self)@.messages.push(message("assistant"@, kept_content(resp@))),
                ..old(self)@
            }),
    {
        let m = say("assistant", keep_content(resp));
        proof {
            list_push(self.messages@, m);
        }
        self.messages.push(m);
        let refused = match as_str(resp.get("stop_reason")) {
            Some(t) => same(t, "refusal"),
            None => false,
        };
        if refused {
            return Heard::End(Ending::failed(owned("model refused")));
        }
        let calls = match as_list(resp.get("content")) {
            Some(xs) => read_uses(xs),
            None => Vec::new(),
        };
        assert(uses_view(calls@) =~= uses_in(content_of(resp@)));
        assert(uses_view(calls@).len() == calls@.len());
        if calls.len() == 0 {
            let c = closing_words(resp);
            let t = trim(c.as_str());
            return Heard::End(read_closing(t.as_str()));
        }
        Heard::Calls(calls)
    }

    /// Tell the model what its calls gave: for each the id of the call, and the words.
    pub fn tell(&mut self, results: &Vec<(String, String)>)
        ensures
            final(self)@ == (ToolLoopV {
                messages: old(self)@.messages.push(
                    message("user"@, JsonV::List(result_blocks(results_view(results@)))),
                ),
                ..old(self)@
            }),
    {
        let ghost rs = results_view(results@);
        let ghost all = result_blocks(rs);
        let mut blocks: Vec<Json> = Vec::new();
        let mut i: usize = 0;
        assert(list_view(blocks@) =~= all.take(0));
        while i < results.len()
            invariant
                i <= results@.len() == rs.len() == all.len(),
                rs == results_view(results@),
                all == result_blocks(rs),
                list_view(blocks@) == all.take(i as int),
            decreases results@.len() - i,
        {
            let b = block_of(results[i].0.as_str(), results[i].1.as_str());
            proof {
                list_push(blocks@, b);
            }
            blocks.push(b);
            i += 1;
            assert(list_view(blocks@) =~= all.take(i as int));
        }
        assert(all.take(i as int) =~= all);
        let m = say("user", Json::List(blocks));
        proof {
            list_push(self.messages@, m);
        }
        self.messages.push(m);
    }
}

/// The plan of an arm that has none.
pub fn no_plan(plan_id: String, goal: &str) -> (r: Plan)
    ensures
        r@ == (PlanV {
            plan_id: plan_id@,
            goal: goal@,
            nodes: Seq::empty(),
            edges: Seq::empty(),
            gates: Seq::empty(),
        }),
{
    let r = Plan {
        plan_id,
        goal: owned(goal),
        nodes: Vec::new(),
        edges: Vec::new(),
        gates: Vec::new(),
    };
    assert(r@.nodes =~= Seq::empty());
    assert(r@.edges =~= Seq::empty());
    assert(r@.gates =~= Seq::empty());
    r
}

/// The name of a run of an arm on a task.
pub fn run_name(task: &str, arm: &str, run_id: &str) -> (r: String)
    ensures
        r@ == task@ + "-"@ + arm@ + "-"@ + run_id@,
{
    let mut t = owned(task);
    t.push_str("-");
    t.push_str(arm);
    t.push_str("-");
    t.push_str(run_id);
    t
}

} // verus!
