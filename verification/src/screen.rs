//! The loop in which a model sees only the screen: a picture, one action, the next picture.

use base64::Engine;
use crate::cut::{contains_str, ends_with, lower, lowercase, occurs, trim, trimmed, without_suffix};
use crate::effect::beginning;
use crate::json::{
    as_list, as_str, clone_list, get_or_null, list_push, list_view, member, member_or_null,
    obj_view, str_of, Json, JsonV,
};
use crate::loops::{
    asked, block_of, closing, closing_words, committed, failed, gave_up, is_tool_use, is_use,
    keep_content, kept_content, message, one_at_a_time, only_one, open_with, opening, read_text,
    result_block, say, system, system_of, text_at, turns, Ending, EndingV, CUA_SYSTEM,
};
use crate::object::{
    no_entries, one_entry, one_item, push_entry, text_json, three_entries, two_entries, two_items,
};
use crate::planner::content_of;
use crate::text::{owned, same};
use vstd::prelude::*;

verus! {

// ---------- pictures as text ----------

/// The character that stands for six bits.
pub open spec fn sextet(n: int) -> char {
    if n < 26 {
        (65 + n) as char
    } else if n < 52 {
        (97 + n - 26) as char
    } else if n < 62 {
        (48 + n - 52) as char
    } else if n == 62 {
        '+'
    } else {
        '/'
    }
}

/// Bytes in the standard base 64 alphabet, padded.
pub open spec fn base64_text(b: Seq<u8>) -> Seq<char>
    decreases b.len(),
{
    if b.len() == 0 {
        Seq::empty()
    } else if b.len() == 1 {
        seq![sextet(b[0] as int / 4), sextet(b[0] as int % 4 * 16), '=', '=']
    } else if b.len() == 2 {
        seq![
            sextet(b[0] as int / 4),
            sextet(b[0] as int % 4 * 16 + b[1] as int / 16),
            sextet(b[1] as int % 16 * 4),
            '=',
        ]
    } else {
        seq![
            sextet(b[0] as int / 4),
            sextet(b[0] as int % 4 * 16 + b[1] as int / 16),
            sextet(b[1] as int % 16 * 4 + b[2] as int / 64),
            sextet(b[2] as int % 64),
        ] + base64_text(b.skip(3))
    }
}

/// Whether the text of so many bytes can be held.
pub open spec fn text_fits(n: nat) -> bool {
    (n + 2) / 3 * 4 <= isize::MAX
}

/// `Engine::encode` of `base64::engine::general_purpose::STANDARD`: the bytes in the standard
/// base 64 alphabet, with padding. It panics where the text cannot be held.
#[verifier::external_body]
fn base64(bytes: &Vec<u8>) -> (r: String)
    requires
        text_fits(bytes@.len()),
    ensures
        r@ == base64_text(bytes@),
{
    base64::engine::general_purpose::STANDARD.encode(bytes)
}

// ---------- what is shown ----------

/// The one tool of the loop.
pub open spec fn computer_tool_json() -> JsonV {
    JsonV::Obj(
        seq![
            ("description"@, JsonV::Str("Act on the screen. Exactly one action per call."@)),
            ("input_schema"@, computer_schema()),
            ("name"@, JsonV::Str("computer"@)),
        ],
    )
}

pub open spec fn kind(t: Seq<char>) -> JsonV {
    JsonV::Obj(seq![("type"@, JsonV::Str(t))])
}

pub open spec fn told_kind(words: Seq<char>) -> JsonV {
    JsonV::Obj(seq![("description"@, JsonV::Str(words)), ("type"@, JsonV::Str("string"@))])
}

pub open spec fn action_names() -> Seq<JsonV> {
    seq![
        JsonV::Str("click"@),
        JsonV::Str("type"@),
        JsonV::Str("key"@),
        JsonV::Str("wait"@),
        JsonV::Str("done"@),
    ]
}

pub open spec fn computer_schema() -> JsonV {
    JsonV::Obj(
        seq![
            (
                "properties"@,
                JsonV::Obj(
                    seq![
                        (
                            "action"@,
                            JsonV::Obj(
                                seq![
                                    ("enum"@, JsonV::List(action_names())),
                                    ("type"@, JsonV::Str("string"@)),
                                ],
                            ),
                        ),
                        ("key"@, told_kind("For key: Enter, Tab, Escape, Backspace"@)),
                        (
                            "text"@,
                            told_kind("For type: the text. For done: 'done' or a question."@),
                        ),
                        ("x"@, kind("integer"@)),
                        ("y"@, kind("integer"@)),
                    ],
                ),
            ),
            ("required"@, JsonV::List(seq![JsonV::Str("action"@)])),
            ("type"@, JsonV::Str("object"@)),
        ],
    )
}

fn told(words: &str) -> (r: Json)
    ensures
        r@ == told_kind(words@),
{
    two_entries("description", text_json(words), "type", text_json("string"))
}

/// The one tool of the loop.
pub fn computer_tool() -> (r: Json)
    ensures
        r@ == computer_tool_json(),
{
    let mut names: Vec<Json> = Vec::new();
    names.push(text_json("click"));
    names.push(text_json("type"));
    names.push(text_json("key"));
    names.push(text_json("wait"));
    names.push(text_json("done"));
    assert(list_view(names@) =~= action_names());
    let action = two_entries("enum", Json::List(names), "type", text_json("string"));
    let mut props = no_entries();
    push_entry(&mut props, "action", action);
    push_entry(&mut props, "key", told("For key: Enter, Tab, Escape, Backspace"));
    push_entry(&mut props, "text", told("For type: the text. For done: 'done' or a question."));
    push_entry(&mut props, "x", one_entry("type", text_json("integer")));
    push_entry(&mut props, "y", one_entry("type", text_json("integer")));
    let ghost pv = obj_view(props@);
    assert(pv =~= (computer_schema()->Obj_0)[0].1->Obj_0);
    let schema = three_entries(
        "properties",
        Json::Obj(props),
        "required",
        one_item(text_json("action")),
        "type",
        text_json("object"),
    );
    three_entries(
        "description",
        text_json("Act on the screen. Exactly one action per call."),
        "input_schema",
        schema,
        "name",
        text_json("computer"),
    )
}

/// A picture of the screen.
pub open spec fn picture(png: Seq<u8>) -> JsonV {
    JsonV::Obj(
        seq![
            (
                "source"@,
                JsonV::Obj(
                    seq![
                        ("data"@, JsonV::Str(base64_text(png))),
                        ("media_type"@, JsonV::Str("image/png"@)),
                        ("type"@, JsonV::Str("base64"@)),
                    ],
                ),
            ),
            ("type"@, JsonV::Str("image"@)),
        ],
    )
}

/// A picture of the screen, and words to it.
pub open spec fn shown(png: Seq<u8>, words: Seq<char>) -> JsonV {
    message(
        "user"@,
        JsonV::List(
            seq![
                picture(png),
                JsonV::Obj(seq![("text"@, JsonV::Str(words)), ("type"@, JsonV::Str("text"@))]),
            ],
        ),
    )
}

// ---------- actions ----------

/// What the model does with the screen.
#[derive(Debug)]
pub enum Action {
    /// At these coordinates, as they were given.
    Click(Json, Json),
    Type(String),
    Key(String),
    Wait,
    Done(Ending),
    Unknown(String),
}

pub enum ActionV {
    Click(JsonV, JsonV),
    Type(Seq<char>),
    Key(Seq<char>),
    Wait,
    Done(EndingV),
    Unknown(Seq<char>),
}

impl View for Action {
    type V = ActionV;

    open spec fn view(&self) -> ActionV {
        match self {
            Action::Click(x, y) => ActionV::Click(x@, y@),
            Action::Type(t) => ActionV::Type(t@),
            Action::Key(k) => ActionV::Key(k@),
            Action::Wait => ActionV::Wait,
            Action::Done(e) => ActionV::Done(e@),
            Action::Unknown(a) => ActionV::Unknown(a@),
        }
    }
}

pub open spec fn text_or(v: Option<JsonV>, d: Seq<char>) -> Seq<char> {
    match str_of(v) {
        Some(t) => t,
        None => d,
    }
}

/// How the words of the last action are read: a question is a question, anything else is done.
pub open spec fn done_with(t: Seq<char>) -> EndingV {
    if without_suffix(t, "?"@) is Some {
        asked(t)
    } else {
        committed()
    }
}

/// The action that a call names.
pub open spec fn action_of(input: JsonV) -> ActionV {
    let a = text_at(input, "action"@);
    if a == "click"@ {
        ActionV::Click(member_or_null(input, "x"@), member_or_null(input, "y"@))
    } else if a == "type"@ {
        ActionV::Type(text_at(input, "text"@))
    } else if a == "key"@ {
        ActionV::Key(text_or(member(input, "key"@), "Enter"@))
    } else if a == "wait"@ {
        ActionV::Wait
    } else if a == "done"@ {
        ActionV::Done(done_with(trimmed(text_or(member(input, "text"@), "done"@))))
    } else {
        ActionV::Unknown(a)
    }
}

fn read_or(v: Option<&Json>, d: &str) -> (r: String)
    ensures
        r@ == text_or(crate::json::opt_view(v), d@),
{
    match as_str(v) {
        Some(t) => owned(t),
        None => owned(d),
    }
}

/// The action that a call names.
pub fn read_action(input: &Json) -> (r: Action)
    ensures
        r@ == action_of(input@),
{
    let a = read_text(input, "action");
    if same(a.as_str(), "click") {
        Action::Click(get_or_null(input, "x"), get_or_null(input, "y"))
    } else if same(a.as_str(), "type") {
        Action::Type(read_text(input, "text"))
    } else if same(a.as_str(), "key") {
        Action::Key(read_or(input.get("key"), "Enter"))
    } else if same(a.as_str(), "wait") {
        Action::Wait
    } else if same(a.as_str(), "done") {
        let words = read_or(input.get("text"), "done");
        let t = trim(words.as_str());
        if ends_with(t.as_str(), "?") {
            Action::Done(Ending::asked(t))
        } else {
            Action::Done(Ending::committed())
        }
    } else {
        Action::Unknown(a)
    }
}

/// What a reply leads to.
#[derive(Debug)]
pub enum Seen {
    /// This call, under this id: the name to record, and the action.
    Act(String, String, Action),
    /// The loop is over.
    End(Ending),
}

pub enum SeenV {
    Act(Seq<char>, Seq<char>, ActionV),
    End(EndingV),
}

impl View for Seen {
    type V = SeenV;

    open spec fn view(&self) -> SeenV {
        match self {
            Seen::Act(id, op, a) => SeenV::Act(id@, op@, a@),
            Seen::End(e) => SeenV::End(e@),
        }
    }
}

/// The first call among the blocks.
pub open spec fn first_use(xs: Seq<JsonV>) -> Option<JsonV>
    decreases xs.len(),
{
    if xs.len() == 0 {
        None
    } else if is_use(xs[0]) {
        Some(xs[0])
    } else {
        first_use(xs.drop_first())
    }
}

proof fn first_use_skip(xs: Seq<JsonV>, i: int)
    requires
        0 <= i <= xs.len(),
        forall|j: int| 0 <= j < i ==> !is_use(#[trigger] xs[j]),
    ensures
        first_use(xs) == first_use(xs.skip(i)),
    decreases i,
{
    if i == 0 {
        assert(xs.skip(0) =~= xs);
    } else {
        assert(!is_use(xs[0]));
        let t = xs.drop_first();
        assert forall|j: int| 0 <= j < i - 1 implies !is_use(#[trigger] t[j]) by {
            assert(t[j] == xs[j + 1]);
        }
        first_use_skip(t, i - 1);
        assert(t.skip(i - 1) =~= xs.skip(i));
    }
}

/// What a reply leads to. Without an action, words with "done" in them are the end of the task,
/// and any others are giving up.
pub open spec fn seen(resp: JsonV) -> SeenV {
    match first_use(content_of(resp)) {
        Some(call) => {
            let input = member_or_null(call, "input"@);
            SeenV::Act(
                text_at(call, "id"@),
                "cua."@ + text_at(input, "action"@),
                action_of(input),
            )
        },
        None => if occurs(lower(trimmed(closing(resp))), "done"@) {
            SeenV::End(committed())
        } else {
            SeenV::End(failed("gave up: "@ + beginning(closing(resp), 200)))
        },
    }
}

fn find_use(xs: &Vec<Json>) -> (r: Option<usize>)
    ensures
        match r {
            Some(i) => i < xs@.len() && first_use(list_view(xs@)) == Some(xs@[i as int]@),
            None => first_use(list_view(xs@)) is None,
        },
{
    let ghost vs = list_view(xs@);
    assert(vs.len() == xs@.len());
    let mut i: usize = 0;
    while i < xs.len()
        invariant
            i <= xs@.len() == vs.len(),
            vs == list_view(xs@),
            forall|j: int| 0 <= j < i ==> !is_use(#[trigger] vs[j]),
        decreases xs@.len() - i,
    {
        assert(vs[i as int] == xs@[i as int]@);
        if is_tool_use(&xs[i]) {
            proof {
                first_use_skip(vs, i as int);
                assert(vs.skip(i as int)[0] == vs[i as int]);
            }
            return Some(i);
        }
        i += 1;
    }
    proof {
        first_use_skip(vs, i as int);
    }
    None
}

/// What a reply leads to.
pub fn look(resp: &Json) -> (r: Seen)
    ensures
        r@ == seen(resp@),
{
    let none: Vec<Json> = Vec::new();
    assert(list_view(none@) =~= Seq::<JsonV>::empty());
    let xs: &Vec<Json> = match as_list(resp.get("content")) {
        Some(xs) => xs,
        None => &none,
    };
    match find_use(xs) {
        Some(i) => {
            let input = get_or_null(&xs[i], "input");
            let mut op = owned("cua.");
            let a = read_text(&input, "action");
            op.push_str(a.as_str());
            Seen::Act(read_text(&xs[i], "id"), op, read_action(&input))
        },
        None => {
            let c = closing_words(resp);
            let t = trim(c.as_str());
            let l = lowercase(t.as_str());
            if contains_str(l.as_str(), "done") {
                Seen::End(Ending::committed())
            } else {
                Seen::End(gave_up(c.as_str()))
            }
        },
    }
}

// ---------- the loop ----------

/// A model at the screen: the conversation so far.
pub struct CuaLoop {
    pub opening: String,
    pub messages: Vec<Json>,
    pub turn: u32,
    pub max_turns: u32,
}

pub struct CuaLoopV {
    pub opening: Seq<char>,
    pub messages: Seq<JsonV>,
    pub turn: u32,
    pub max_turns: u32,
}

impl View for CuaLoop {
    type V = CuaLoopV;

    open spec fn view(&self) -> CuaLoopV {
        CuaLoopV {
            opening: self.opening@,
            messages: list_view(self.messages@),
            turn: self.turn,
            max_turns: self.max_turns,
        }
    }
}

/// The words to a picture: the task with the first, the same words with any other.
pub open spec fn words_for(l: CuaLoopV) -> Seq<char> {
    if l.turn == 0 {
        l.opening
    } else {
        "Here is the screen after your action."@
    }
}

/// The loop once a picture was shown.
pub open spec fn after_picture(l: CuaLoopV, png: Seq<u8>) -> CuaLoopV {
    CuaLoopV {
        messages: l.messages.push(shown(png, words_for(l))),
        turn: (l.turn + 1) as u32,
        ..l
    }
}

/// What the model is sent with the messages so far.
pub open spec fn screen_request(messages: Seq<JsonV>) -> Seq<(Seq<char>, JsonV)> {
    seq![
        ("max_tokens"@, JsonV::Int(1024)),
        ("messages"@, JsonV::List(messages)),
        ("system"@, system(CUA_SYSTEM@)),
        ("tool_choice"@, one_at_a_time()),
        ("tools"@, JsonV::List(seq![computer_tool_json()])),
    ]
}

/// How an action went, in words.
pub open spec fn went(r: Option<Seq<char>>) -> Seq<char> {
    match r {
        None => "ok"@,
        Some(e) => "error: "@ + e,
    }
}

impl CuaLoop {
    pub fn new(facts: &str, goal: &str, max_turns: u32) -> (r: CuaLoop)
        ensures
            r@ == (CuaLoopV {
                opening: opening(facts@, goal@) + "\n\nHere is the screen."@,
                messages: Seq::empty(),
                turn: 0,
                max_turns: turns(max_turns),
            }),
    {
        let mut words = open_with(facts, goal);
        words.push_str("\n\nHere is the screen.");
        let messages: Vec<Json> = Vec::new();
        assert(list_view(messages@) =~= Seq::<JsonV>::empty());
        CuaLoop {
            opening: words,
            messages,
            turn: 0,
            max_turns: if max_turns == 0 {
                1
            } else {
                max_turns
            },
        }
    }

    /// Whether a turn is left.
    pub fn more(&self) -> (r: bool)
        ensures
            r == (self@.turn < self@.max_turns),
    {
        self.turn < self.max_turns
    }

    /// Take a turn with a picture of the screen: what the model is sent.
    pub fn ask(&mut self, png: &Vec<u8>) -> (r: Vec<(String, Json)>)
        requires
            old(self)@.turn < old(self)@.max_turns,
            text_fits(png@.len()),
        ensures
            final(self)@ == after_picture(old(self)@, png@),
            obj_view(r@) == screen_request(final(self)@.messages),
    {
        let source = three_entries(
            "data",
            Json::Str(base64(png)),
            "media_type",
            text_json("image/png"),
            "type",
            text_json("base64"),
        );
        let image = two_entries("source", source, "type", text_json("image"));
        let words = if self.turn == 0 {
            self.opening.clone()
        } else {
            owned("Here is the screen after your action.")
        };
        let text = two_entries("text", Json::Str(words), "type", text_json("text"));
        let m = say("user", two_items(image, text));
        assert(m@ == shown(png@, words_for(self@)));
        proof {
            list_push(self.messages@, m);
        }
        self.messages.push(m);
        self.turn = self.turn + 1;
        let mut o = no_entries();
        push_entry(&mut o, "max_tokens", Json::Int(1024));
        let ms = clone_list(&self.messages);
        push_entry(&mut o, "messages", Json::List(ms));
        push_entry(&mut o, "system", system_of(CUA_SYSTEM));
        push_entry(&mut o, "tool_choice", only_one());
        push_entry(&mut o, "tools", one_item(computer_tool()));
        assert(obj_view(o@) =~= screen_request(self@.messages));
        o
    }

    /// Read a reply.
    pub fn hear(&mut self, resp: &Json) -> (r: Seen)
        ensures
            r@ == seen(resp@),
            final(self)@ == (CuaLoopV {
                messages: old(self)@.messages.push(message("assistant"@, kept_content(resp@))),
                ..old(self)@
            }),
    {
        let m = say("assistant", keep_content(resp));
        proof {
            list_push(self.messages@, m);
        }
        self.messages.push(m);
        look(resp)
    }

    /// Tell the model how its action went.
    pub fn tell(&mut self, id: &str, error: Option<&str>)
        ensures
            final(self)@ == (CuaLoopV {
                messages: old(self)@.messages.push(
                    message(
                        "user"@,
                        JsonV::List(
                            seq![result_block(id@, went(crate::invoicing::opt_text(error)))],
                        ),
                    ),
                ),
                ..old(self)@
            }),
    {
        let words = match error {
            None => owned("ok"),
            Some(e) => {
                let mut t = owned("error: ");
                t.push_str(e);
                t
            },
        };
        let m = say("user", one_item(block_of(id, words.as_str())));
        proof {
            list_push(self.messages@, m);
        }
        self.messages.push(m);
    }
}

/// Every turn shows the model the screen: the last message of what it is sent holds the picture.
pub proof fn every_turn_shows_the_screen(l: CuaLoopV, png: Seq<u8>)
    ensures
        after_picture(l, png).messages.last() == shown(png, words_for(l)),
{
}

} // verus!
