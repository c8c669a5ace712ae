//! The planner: one model call turns a goal into an intent graph. Never actions.
//!
//! Whoever talks to the model sends what stands here and hands back what it replied. An intent
//! that is wrong goes back to the model with the reasons, at most twice.

use crate::compiler::CompileOptions;
use crate::cut::{contains_str, join, joined, occurs, trim, trimmed};
use crate::fingerprint::fingerprint_of;
use crate::hash::{hash_prefix, hash_text};
use crate::intent::{forks_view, Constraints, Intent, IntentFork, IntentForkV, IntentV};
use crate::json::{
    as_list, as_str, as_u64, get_in, get_or_null, json_of, list_of, list_push, list_view, member,
    member_or_null, obj_view, opt_view, parse_text, parsed_view, pretty, spread_text, str_of,
    then_member, u64_of, Json, JsonV,
};
use crate::ledger::{Ledger, LedgerV, SampleKind};
use crate::lint::{errs_view, lint, lint_error_text, lints_to, LintError, LintErrorV};
use crate::names::{summarise_names, summary_of};
use crate::object::{
    four_entries, no_entries, one_entry, one_item, push_entry, put, put_entry, text_json,
    three_entries, two_entries, two_items,
};
use crate::openapi::{read_strings, strings_of};
use crate::text::{chars_of, dec, owned, push_dec, same, string_of, views};
use crate::world::{summary_text, World, WorldV};
use vstd::arithmetic::power2::pow2;
use vstd::prelude::*;

verus! {

// ---------- talking to the model ----------

/// The number under a key of the usage, or zero.
pub open spec fn count_of(resp: JsonV, k: Seq<char>) -> nat {
    match u64_of(then_member(member(resp, "usage"@), k)) {
        Some(n) => n as nat,
        None => 0,
    }
}

/// The tokens that a reply says it took in, cache reads included.
pub open spec fn usage_in(resp: JsonV) -> nat {
    count_of(resp, "input_tokens"@) + count_of(resp, "cache_read_input_tokens"@) + count_of(
        resp,
        "cache_creation_input_tokens"@,
    )
}

fn read_count(resp: &Json, k: &str) -> (r: u64)
    ensures
        r == count_of(resp@, k@),
{
    match as_u64(get_in(resp.get("usage"), k)) {
        Some(n) => n,
        None => 0,
    }
}

/// Input and output tokens from a reply of the model, cache reads included.
pub fn usage(resp: &Json) -> (r: (u64, u64))
    requires
        usage_in(resp@) <= u64::MAX,
    ensures
        r.0 == usage_in(resp@),
        r.1 == count_of(resp@, "output_tokens"@),
{
    let a = read_count(resp, "input_tokens");
    let b = read_count(resp, "cache_read_input_tokens");
    let c = read_count(resp, "cache_creation_input_tokens");
    (a + b + c, read_count(resp, "output_tokens"))
}

/// Whether the tokens of a reply can be summed.
pub fn usage_fits(resp: &Json) -> (r: bool)
    ensures
        r == (usage_in(resp@) <= u64::MAX),
{
    let a = read_count(resp, "input_tokens") as u128;
    let b = read_count(resp, "cache_read_input_tokens") as u128;
    let c = read_count(resp, "cache_creation_input_tokens") as u128;
    a + b + c <= 0xFFFF_FFFF_FFFF_FFFF
}

/// The request as it is sent: with the model, its effort, and what to do on a refusal.
pub open spec fn sent(
    body: Seq<(Seq<char>, JsonV)>,
    model: Seq<char>,
    effort: Seq<char>,
    fallbacks: bool,
) -> Seq<(Seq<char>, JsonV)> {
    let a = put(body, "model"@, JsonV::Str(model));
    let b = put(a, "thinking"@, JsonV::Obj(seq![("type"@, JsonV::Str("adaptive"@))]));
    let c = put(b, "output_config"@, JsonV::Obj(seq![("effort"@, JsonV::Str(effort))]));
    if fallbacks {
        put(c, "fallbacks"@, JsonV::Str("default"@))
    } else {
        c
    }
}

/// Complete a request for a model.
pub fn complete_request(
    body: &mut Vec<(String, Json)>,
    model: &str,
    effort: &str,
    fallbacks: bool,
)
    ensures
        obj_view(final(body)@) == sent(obj_view(old(body)@), model@, effort@, fallbacks),
{
    put_entry(body, "model", Json::Str(owned(model)));
    put_entry(body, "thinking", one_entry("type", Json::Str(owned("adaptive"))));
    put_entry(body, "output_config", one_entry("effort", Json::Str(owned(effort))));
    if fallbacks {
        put_entry(body, "fallbacks", Json::Str(owned("default")));
    }
}

/// What follows a reply of the model.
#[derive(Clone, Copy, Debug, PartialEq, Eq, Structural)]
pub enum Again {
    /// The reply is good.
    No,
    /// Send it again after so many milliseconds.
    After(u64),
    Fail,
}

/// What follows a reply: a passing failure is tried six times in all, after what the server asks
/// for or twice as long each time, and never after more than half a minute.
pub open spec fn again_after(status: u16, attempt: u32, retry_after_s: Option<u64>) -> Again {
    if status == 429 || status >= 500 {
        if attempt < 6 {
            let ms = match retry_after_s {
                Some(s) => s as int * 1000,
                None => 500 * pow2(attempt as nat) as int,
            };
            Again::After(
                if ms > 30000 {
                    30000u64
                } else {
                    ms as u64
                },
            )
        } else {
            Again::Fail
        }
    } else if status == 200 {
        Again::No
    } else {
        Again::Fail
    }
}

/// What follows a reply with a status.
pub fn after_reply(status: u16, attempt: u32, retry_after_s: Option<u64>) -> (r: Again)
    ensures
        r == again_after(status, attempt, retry_after_s),
{
    if status == 429 || status >= 500 {
        if attempt < 6 {
            match retry_after_s {
                Some(s) => if s >= 30 {
                    Again::After(30000)
                } else {
                    Again::After(s * 1000)
                },
                None => {
                    proof {
                        vstd::arithmetic::power2::lemma2_to64();
                    }
                    let ms: u64 = if attempt == 1 {
                        1000
                    } else if attempt == 2 {
                        2000
                    } else if attempt == 3 {
                        4000
                    } else if attempt == 4 {
                        8000
                    } else if attempt == 5 {
                        16000
                    } else {
                        500
                    };
                    Again::After(ms)
                },
            }
        } else {
            Again::Fail
        }
    } else if status == 200 {
        Again::No
    } else {
        Again::Fail
    }
}

/// The words for a reply that is not good.
pub fn reply_error(status: u16, text: &str) -> (r: String)
    ensures
        r@ == "model API "@ + dec(status as nat) + ": "@ + text@,
{
    let mut m = owned("model API ");
    push_dec(&mut m, status as u128);
    m.push_str(": ");
    m.push_str(text);
    m
}

/// What a reply of the model's API comes to.
#[derive(Debug)]
pub enum Heard {
    Reply(Json),
    /// Send the same again after so many milliseconds.
    Again(u64),
    Failed(String),
}

pub enum HeardV {
    Reply(JsonV),
    Again(u64),
    Failed(Seq<char>),
}

impl View for Heard {
    type V = HeardV;

    open spec fn view(&self) -> HeardV {
        match self {
            Heard::Reply(v) => HeardV::Reply(v@),
            Heard::Again(ms) => HeardV::Again(*ms),
            Heard::Failed(e) => HeardV::Failed(e@),
        }
    }
}

/// What a reply of the model's API comes to: a good one is read, a passing failure is tried again,
/// and any other is told.
pub open spec fn heard(status: u16, attempt: u32, retry_after_s: Option<u64>, text: Seq<char>) -> HeardV {
    match again_after(status, attempt, retry_after_s) {
        Again::No => match json_of(text) {
            Ok(v) => HeardV::Reply(v),
            Err(e) => HeardV::Failed(e),
        },
        Again::After(ms) => HeardV::Again(ms),
        Again::Fail => HeardV::Failed("model API "@ + dec(status as nat) + ": "@ + text),
    }
}

/// What a reply of the model's API comes to.
pub fn hear_reply(status: u16, attempt: u32, retry_after_s: Option<u64>, text: &str) -> (r: Heard)
    ensures
        r@ == heard(status, attempt, retry_after_s, text@),
{
    match after_reply(status, attempt, retry_after_s) {
        Again::No => match parse_text(text) {
            Ok(v) => Heard::Reply(v),
            Err(e) => Heard::Failed(e),
        },
        Again::After(ms) => Heard::Again(ms),
        Again::Fail => Heard::Failed(reply_error(status, text)),
    }
}

/// How to show who is asking.
#[derive(Debug)]
pub enum Auth {
    ApiKey(String),
    Bearer(String),
}

/// Where credentials come from.
#[derive(Debug)]
pub enum Credentials {
    Known(Auth),
    /// Ask the command line tool's active profile.
    AskProfile,
}

/// Whether an address is the provider's own, rather than a gateway's.
pub open spec fn provider(base: Seq<char>) -> bool {
    occurs(base, "api.anthropic.com"@)
}

pub fn is_provider(base: &str) -> (r: bool)
    ensures
        r == provider(base@),
{
    contains_str(base, "api.anthropic.com")
}

/// The address to talk to: the one given, else the one of the environment, else the provider's.
pub fn model_base(given: Option<&str>, environment: Option<&str>) -> (r: String)
    ensures
        r@ == (match given {
            Some(s) => s@,
            None => match environment {
                Some(s) => s@,
                None => "https://api.anthropic.com"@,
            },
        }),
{
    match given {
        Some(s) => owned(s),
        None => match environment {
            Some(s) => owned(s),
            None => owned("https://api.anthropic.com"),
        },
    }
}

/// Credentials: the key given, else a key of the environment, else a token of the environment,
/// else a placeholder for a gateway that ignores keys, else the active profile.
pub fn credentials(
    given: Option<&str>,
    env_key: Option<&str>,
    env_token: Option<&str>,
    base: &str,
) -> (r: Credentials)
    ensures
        match given {
            Some(k) => r matches Credentials::Known(Auth::ApiKey(x)) && x@ == k@,
            None => match env_key {
                Some(k) => r matches Credentials::Known(Auth::ApiKey(x)) && x@ == k@,
                None => match env_token {
                    Some(t) => r matches Credentials::Known(Auth::Bearer(x)) && x@ == t@,
                    None => if provider(base@) {
                        r is AskProfile
                    } else {
                        r matches Credentials::Known(Auth::ApiKey(x)) && x@ == "local-gateway"@
                    },
                },
            },
        },
{
    match given {
        Some(k) => Credentials::Known(Auth::ApiKey(owned(k))),
        None => match env_key {
            Some(k) => Credentials::Known(Auth::ApiKey(owned(k))),
            None => match env_token {
                Some(t) => Credentials::Known(Auth::Bearer(owned(t))),
                None => if is_provider(base) {
                    Credentials::AskProfile
                } else {
                    Credentials::Known(Auth::ApiKey(owned("local-gateway")))
                },
            },
        },
    }
}

/// The beta features that a request names, or nothing.
pub fn beta_header(bearer: bool, fallbacks: bool) -> (r: Option<String>)
    ensures
        match r {
            Some(t) => (bearer || fallbacks) && t@ == (if bearer && fallbacks {
                "oauth-2025-04-20,server-side-fallback-2026-07-01"@
            } else if bearer {
                "oauth-2025-04-20"@
            } else {
                "server-side-fallback-2026-07-01"@
            }),
            None => !bearer && !fallbacks,
        },
{
    if bearer && fallbacks {
        Some(owned("oauth-2025-04-20,server-side-fallback-2026-07-01"))
    } else if bearer {
        Some(owned("oauth-2025-04-20"))
    } else if fallbacks {
        Some(owned("server-side-fallback-2026-07-01"))
    } else {
        None
    }
}

// ---------- what is asked ----------

/// What the planner is being asked for: the sentence, and the limits on how it may be met.
#[derive(Debug)]
pub struct Ask {
    pub goal: String,
    pub constraints: Constraints,
}

impl Ask {
    pub fn new(goal: &str) -> (r: Ask)
        ensures
            r.goal@ == goal@,
            r.constraints.external_ok,
            r.constraints.spend_max_cents is None,
    {
        Ask { goal: owned(goal), constraints: Constraints::default() }
    }

    pub fn with(goal: &str, constraints: &Constraints) -> (r: Ask)
        ensures
            r.goal@ == goal@,
            r.constraints == *constraints,
    {
        Ask { goal: owned(goal), constraints: *constraints }
    }
}

/// The situation a planner call happens in, as opposed to the question being asked. A fork answer
/// is linted against the same world and the same surfaces as the plan it is fixing.
pub struct Ctx<'a> {
    pub world: &'a World,
    /// What the app says is true right now, in the planner's own words.
    pub facts: &'a str,
    pub opts: &'a CompileOptions,
    /// The app's base URL, when there is a live app to expand selectors against.
    pub base: Option<&'a str>,
}

impl<'a> Ctx<'a> {
    /// The offline case: a world model with no app behind it.
    pub fn new(world: &'a World, opts: &'a CompileOptions) -> (r: Ctx<'a>)
        ensures
            r.world == world,
            r.opts == opts,
            r.facts@.len() == 0,
            r.base is None,
    {
        proof {
            reveal_strlit("");
        }
        Ctx { world, facts: "", opts, base: None }
    }

    pub fn facts(self, facts: &'a str) -> (r: Ctx<'a>)
        ensures
            r.world == self.world,
            r.opts == self.opts,
            r.facts@ == facts@,
            r.base == self.base,
    {
        Ctx { world: self.world, facts, opts: self.opts, base: self.base }
    }

    pub fn at(self, base: &'a str) -> (r: Ctx<'a>)
        ensures
            r.world == self.world,
            r.opts == self.opts,
            r.facts == self.facts,
            r.base matches Some(b) && b@ == base@,
    {
        Ctx { world: self.world, facts: self.facts, opts: self.opts, base: Some(base) }
    }
}

/// The names in a list of customers.
pub open spec fn names_in(xs: Seq<JsonV>) -> Seq<Seq<char>>
    decreases xs.len(),
{
    if xs.len() == 0 {
        Seq::empty()
    } else {
        match str_of(member(xs.last(), "name"@)) {
            Some(n) => names_in(xs.drop_last()).push(n),
            None => names_in(xs.drop_last()),
        }
    }
}

pub open spec fn customer_names(v: JsonV) -> Seq<Seq<char>> {
    match v {
        JsonV::List(xs) => names_in(xs),
        _ => Seq::empty(),
    }
}

/// The names in the app's list of customers.
pub fn names_of_customers(v: &Json) -> (r: Vec<String>)
    ensures
        views(r@) == customer_names(v@),
{
    let mut out: Vec<String> = Vec::new();
    match v {
        Json::List(xs) => {
            let ghost vs = list_view(xs@);
            let mut i: usize = 0;
            assert(views(out@) =~= names_in(vs.take(0)));
            while i < xs.len()
                invariant
                    i <= xs@.len(),
                    vs == list_view(xs@),
                    views(out@) == names_in(vs.take(i as int)),
                decreases xs@.len() - i,
            {
                proof {
                    assert(vs.take(i + 1).drop_last() =~= vs.take(i as int));
                    assert(vs.take(i + 1).last() == xs@[i as int]@);
                }
                match as_str(xs[i].get("name")) {
                    Some(n) => {
                        let ghost o = views(out@);
                        out.push(owned(n));
                        assert(views(out@) =~= o.push(n@));
                    },
                    None => {},
                }
                i += 1;
            }
            assert(vs.take(i as int) =~= vs);
        },
        _ => {
            assert(views(out@) =~= Seq::<Seq<char>>::empty());
        },
    }
    out
}

/// What exists right now, in words, from the app's list of customers.
pub fn world_facts(customers: &Json) -> (r: String)
    ensures
        r@ == "  customers ("@ + dec(customer_names(customers@).len()) + "): "@ + summary_of(
            customer_names(customers@),
        ),
{
    let names = names_of_customers(customers);
    assert(views(names@).len() == names@.len());
    let mut t = owned("  customers (");
    push_dec(&mut t, names.len() as u128);
    t.push_str("): ");
    let s = summarise_names(&names);
    t.push_str(s.as_str());
    t
}

// ---------- the request ----------

/// What the planner is told before anything else.
pub const PLANNER_SYSTEM: &'static str = "You are the planner for an execution engine. You never emit actions. You emit an intent graph: \
a list of wants, each a predicate that must be true when the work is done, plus forks: conditions under which \
you agree to be woken and asked. The engine compiles wants into a parallel plan and runs it without you.\n\n\
Predicate language:\n\
  entity(arg=value, ...).field=value\n\
  entity(arg=value, ...).exists\n\
  A nested entity(...) as a value refers to that entity, e.g. customer(name='Acme').\n\
  Strings use single quotes. Lists use [a,b].\n\n\
Rules:\n\
- One want per fact that must be true at the end. Never emit wants for reads or lookups; the engine derives those.\n\
- Customers already exist. Never want a customer to exist; refer to them by name inside other predicates.\n\
- Identify invoices by their customer, never by an id you invent.\n\
- Do not assume order. The compiler derives order from data dependencies.\n\
- If a fact depends on something the outside world does (a payment arriving), still want the final fact; \
  the engine waits for the event. Forks are only for genuine ambiguity, not for waiting or retrying.\n\
- Use the real names from the world facts. Never use variables like $name.\n\
- For many rows, never list names: write each(customer(name_prefix='...')) for a prefix, or each(customer()) \
  for every customer. The engine expands either from the world before compiling. each([...]) with explicit \
  names is for a handful.\n\
- each(...) fans a want out, one per element. all(X) collects into one: \
  report(invoices=[all(invoice(customer=each(customer())))]) is ONE report over every invoice, while \
  report(invoices=[invoice(customer=each(customer()))]) is ONE REPORT PER invoice. Choose deliberately.\n\
- If a name in the ask.goal matches more than one entity in the facts, still refer to it by name and declare \
  a fork: {when: 'result.count != 1', ask: '...', default: 'lowest_id'}. With a default the engine resolves it \
  itself; without one it stops and asks you. Do not ask now and do not leave wants out.\n\n\
Example goal: Invoice Acme and Globex, send both, then one report over both.\n\
Example wants:\n\
  invoice(customer=customer(name='Acme')).exists\n\
  invoice(customer=customer(name='Acme')).status='sent'\n\
  invoice(customer=customer(name='Globex')).exists\n\
  invoice(customer=customer(name='Globex')).status='sent'\n\
  report(invoices=[invoice(customer=customer(name='Acme')),invoice(customer=customer(name='Globex'))]).exists\n\
Example goal: Invoice every customer and send each.\n\
Example wants:\n\
  invoice(customer=each(customer())).exists\n\
  invoice(customer=each(customer())).status='sent'\n\
Example goal: Invoice every customer whose name starts with 'Bulk ' and send each.\n\
Example wants:\n\
  invoice(customer=each(customer(name_prefix='Bulk '))).exists\n\
  invoice(customer=each(customer(name_prefix='Bulk '))).status='sent'\n\
Example goal: Invoice Acme, send it, and email a receipt once it is paid.\n\
Example wants:\n\
  invoice(customer=customer(name='Acme')).exists\n\
  invoice(customer=customer(name='Acme')).status='sent'\n\
  invoice(customer=customer(name='Acme')).receipt_sent=true\n\n\
Reply with the emit_intent tool.";

pub open spec fn text_type() -> JsonV {
    JsonV::Obj(seq![("type"@, JsonV::Str("string"@))])
}

/// The shape of a fork.
pub open spec fn fork_schema() -> JsonV {
    JsonV::Obj(
        seq![
            (
                "properties"@,
                JsonV::Obj(
                    seq![
                        ("ask"@, text_type()),
                        (
                            "default"@,
                            JsonV::Obj(
                                seq![
                                    ("enum"@, JsonV::List(seq![JsonV::Str("lowest_id"@)])),
                                    ("type"@, JsonV::Str("string"@)),
                                ],
                            ),
                        ),
                        ("when"@, text_type()),
                    ],
                ),
            ),
            ("required"@, JsonV::List(seq![JsonV::Str("when"@), JsonV::Str("ask"@)])),
            ("type"@, JsonV::Str("object"@)),
        ],
    )
}

/// The tool with which the planner replies.
pub open spec fn intent_tool_json() -> JsonV {
    JsonV::Obj(
        seq![
            ("description"@, JsonV::Str("Emit the intent graph for the ask.goal."@)),
            (
                "input_schema"@,
                JsonV::Obj(
                    seq![
                        ("additionalProperties"@, JsonV::Bool(false)),
                        (
                            "properties"@,
                            JsonV::Obj(
                                seq![
                                    (
                                        "forks"@,
                                        JsonV::Obj(
                                            seq![
                                                ("items"@, fork_schema()),
                                                ("type"@, JsonV::Str("array"@)),
                                            ],
                                        ),
                                    ),
                                    (
                                        "wants"@,
                                        JsonV::Obj(
                                            seq![
                                                (
                                                    "description"@,
                                                    JsonV::Str(
                                                        "Predicates in the shared language."@,
                                                    ),
                                                ),
                                                ("items"@, text_type()),
                                                ("type"@, JsonV::Str("array"@)),
                                            ],
                                        ),
                                    ),
                                ],
                            ),
                        ),
                        ("required"@, JsonV::List(seq![JsonV::Str("wants"@)])),
                        ("type"@, JsonV::Str("object"@)),
                    ],
                ),
            ),
            ("name"@, JsonV::Str("emit_intent"@)),
            ("strict"@, JsonV::Bool(true)),
        ],
    )
}

/// The request that asks the planner: one user message, the system text, and the tool.
pub open spec fn request_json(user: Seq<char>) -> Seq<(Seq<char>, JsonV)> {
    seq![
        ("max_tokens"@, JsonV::Int(4096)),
        (
            "messages"@,
            JsonV::List(
                seq![
                    JsonV::Obj(
                        seq![("content"@, JsonV::Str(user)), ("role"@, JsonV::Str("user"@))],
                    ),
                ],
            ),
        ),
        (
            "system"@,
            JsonV::List(
                seq![
                    JsonV::Obj(
                        seq![
                            (
                                "cache_control"@,
                                JsonV::Obj(seq![("type"@, JsonV::Str("ephemeral"@))]),
                            ),
                            ("text"@, JsonV::Str(PLANNER_SYSTEM@)),
                            ("type"@, JsonV::Str("text"@)),
                        ],
                    ),
                ],
            ),
        ),
        ("tools"@, JsonV::List(seq![intent_tool_json()])),
    ]
}

/// The tool with which the planner replies.
pub fn intent_tool() -> (r: Json)
    ensures
        r@ == intent_tool_json(),
{
    let fork_props = three_entries(
        "ask",
        one_entry("type", text_json("string")),
        "default",
        two_entries(
            "enum",
            one_item(text_json("lowest_id")),
            "type",
            text_json("string"),
        ),
        "when",
        one_entry("type", text_json("string")),
    );
    let fork = three_entries(
        "properties",
        fork_props,
        "required",
        two_items(text_json("when"), text_json("ask")),
        "type",
        text_json("object"),
    );
    assert(fork@ == fork_schema());
    let wants = three_entries(
        "description",
        text_json("Predicates in the shared language."),
        "items",
        one_entry("type", text_json("string")),
        "type",
        text_json("array"),
    );
    let props = two_entries(
        "forks",
        two_entries("items", fork, "type", text_json("array")),
        "wants",
        wants,
    );
    let schema = four_entries(
        "additionalProperties",
        Json::Bool(false),
        "properties",
        props,
        "required",
        one_item(text_json("wants")),
        "type",
        text_json("object"),
    );
    four_entries(
        "description",
        text_json("Emit the intent graph for the ask.goal."),
        "input_schema",
        schema,
        "name",
        text_json("emit_intent"),
        "strict",
        Json::Bool(true),
    )
}

/// The request that asks the planner with one user message.
pub fn planner_request(user: &str) -> (r: Vec<(String, Json)>)
    ensures
        obj_view(r@) == request_json(user@),
{
    let message = two_entries("content", text_json(user), "role", text_json("user"));
    let system = three_entries(
        "cache_control",
        one_entry("type", text_json("ephemeral")),
        "text",
        text_json(PLANNER_SYSTEM),
        "type",
        text_json("text"),
    );
    let messages = one_item(message);
    let systems = one_item(system);
    let tools = one_item(intent_tool());
    let mut o = no_entries();
    push_entry(&mut o, "max_tokens", Json::Int(4096));
    push_entry(&mut o, "messages", messages);
    push_entry(&mut o, "system", systems);
    push_entry(&mut o, "tools", tools);
    assert(obj_view(o@) =~= request_json(user@));
    o
}

// ---------- the reply ----------

/// Where in a reply the intent stands.
#[derive(Debug)]
pub enum Source {
    /// In a call of the tool.
    Call(Json),
    /// In this text, which is a JSON object.
    Object(String),
    /// In this text, which is the JSON list of wants.
    Wants(String),
    /// Nowhere: this is what the reply said.
    Missing(String),
}

pub enum SourceV {
    Call(JsonV),
    Object(Seq<char>),
    Wants(Seq<char>),
    Missing(Seq<char>),
}

impl View for Source {
    type V = SourceV;

    open spec fn view(&self) -> SourceV {
        match self {
            Source::Call(v) => SourceV::Call(v@),
            Source::Object(t) => SourceV::Object(t@),
            Source::Wants(t) => SourceV::Wants(t@),
            Source::Missing(t) => SourceV::Missing(t@),
        }
    }
}

/// Whether a piece of content is a call of the tool.
pub open spec fn is_call(b: JsonV) -> bool {
    str_of(member(b, "type"@)) == Some("tool_use"@) && str_of(member(b, "name"@)) == Some(
        "emit_intent"@,
    )
}

/// The first call of the tool.
pub open spec fn call_in(xs: Seq<JsonV>) -> Option<JsonV>
    decreases xs.len(),
{
    if xs.len() == 0 {
        None
    } else if is_call(xs[0]) {
        Some(xs[0])
    } else {
        call_in(xs.drop_first())
    }
}

/// The texts of pieces of content.
pub open spec fn texts_in(xs: Seq<JsonV>) -> Seq<Seq<char>>
    decreases xs.len(),
{
    if xs.len() == 0 {
        Seq::empty()
    } else {
        match str_of(member(xs.last(), "text"@)) {
            Some(t) => texts_in(xs.drop_last()).push(t),
            None => texts_in(xs.drop_last()),
        }
    }
}

/// The pieces of content of a reply.
pub open spec fn content_of(resp: JsonV) -> Seq<JsonV> {
    match list_of(member(resp, "content"@)) {
        Some(xs) => xs,
        None => Seq::empty(),
    }
}

/// The first place where a text stands in another.
pub open spec fn is_first(s: Seq<char>, t: Seq<char>, i: int) -> bool {
    &&& 0 <= i <= s.len() - t.len()
    &&& s.subrange(i, i + t.len()) == t
    &&& forall|j: int| 0 <= j < i ==> #[trigger] s.subrange(j, j + t.len()) != t
}

/// The last place of a character.
pub open spec fn is_last(s: Seq<char>, c: char, i: int) -> bool {
    0 <= i < s.len() && s[i] == c && forall|j: int| i < j < s.len() ==> s[j] != c
}

/// Whether a text holds something from the first `a` to the last `z`.
pub open spec fn between(s: Seq<char>, a: Seq<char>, z: char, from: int, to: int) -> bool {
    is_first(s, a, from) && is_last(s, z, to) && to > from + a.len() - 1
}

/// The intent in the words of a reply: an object, or the list of a call rendered as text.
pub open spec fn source_of_text(t: Seq<char>) -> SourceV {
    if exists|a: int, z: int| #[trigger] between(t, "{"@, '}', a, z) {
        let (a, z) = choose|a: int, z: int| #[trigger] between(t, "{"@, '}', a, z);
        SourceV::Object(t.subrange(a, z + 1))
    } else if exists|a: int, z: int| #[trigger] between(t, "wants=["@, ']', a, z) {
        let (a, z) = choose|a: int, z: int| #[trigger] between(t, "wants=["@, ']', a, z);
        SourceV::Wants(t.subrange(a + 6, z + 1))
    } else {
        SourceV::Missing(t)
    }
}

/// Where in a reply the intent stands.
pub open spec fn source_of(resp: JsonV) -> SourceV {
    match call_in(content_of(resp)) {
        Some(c) => SourceV::Call(member_or_null(c, "input"@)),
        None => source_of_text(joined(texts_in(content_of(resp)), "\n"@)),
    }
}

proof fn call_in_skip(xs: Seq<JsonV>, i: int)
    requires
        0 <= i <= xs.len(),
        forall|j: int| 0 <= j < i ==> !is_call(#[trigger] xs[j]),
    ensures
        call_in(xs) == call_in(xs.skip(i)),
    decreases i,
{
    if i == 0 {
        assert(xs.skip(0) =~= xs);
    } else {
        assert(!is_call(xs[0]));
        let t = xs.drop_first();
        assert forall|j: int| 0 <= j < i - 1 implies !is_call(#[trigger] t[j]) by {
            assert(t[j] == xs[j + 1]);
        }
        call_in_skip(t, i - 1);
        assert(t.skip(i - 1) =~= xs.skip(i));
    }
}

fn find_first(cs: &Vec<char>, t: &Vec<char>) -> (r: Option<usize>)
    requires
        t@.len() > 0,
    ensures
        match r {
            Some(i) => is_first(cs@, t@, i as int),
            None => forall|i: int| !is_first(cs@, t@, i),
        },
{
    let n = cs.len();
    let m = t.len();
    let mut i: usize = 0;
    while i < n && m <= n - i
        invariant
            i <= n == cs@.len(),
            m == t@.len(),
            m > 0,
            forall|j: int|
                0 <= j < i ==> #[trigger] cs@.subrange(j, j + m) != t@,
        decreases n - i,
    {
        let mut k: usize = 0;
        while k < m && cs[i + k] == t[k]
            invariant
                k <= m == t@.len(),
                n == cs@.len(),
                i < n,
                m <= n - i,
                forall|j: int| 0 <= j < k ==> cs@[i + j] == #[trigger] t@[j],
            decreases m - k,
        {
            k += 1;
        }
        if k == m {
            assert(cs@.subrange(i as int, i + m) =~= t@);
            return Some(i);
        }
        assert(cs@.subrange(i as int, i + m)[k as int] != t@[k as int]);
        i += 1;
    }
    assert forall|j: int| !is_first(cs@, t@, j) by {
        if is_first(cs@, t@, j) {
            assert(j < i);
            assert(cs@.subrange(j, j + m) == t@);
        }
    }
    None
}

fn find_last(cs: &Vec<char>, c: char) -> (r: Option<usize>)
    ensures
        match r {
            Some(i) => is_last(cs@, c, i as int),
            None => forall|i: int| !is_last(cs@, c, i),
        },
{
    let mut i: usize = cs.len();
    while i > 0
        invariant
            i <= cs@.len(),
            forall|j: int| i <= j < cs@.len() ==> cs@[j] != c,
        decreases i,
    {
        i -= 1;
        if cs[i] == c {
            return Some(i);
        }
    }
    None
}

proof fn between_unique(s: Seq<char>, a: Seq<char>, z: char, i: int, j: int, k: int, l: int)
    requires
        between(s, a, z, i, j),
        between(s, a, z, k, l),
    ensures
        i == k,
        j == l,
{
    if i < k {
        assert(s.subrange(i, i + a.len()) == a);
    }
    if k < i {
        assert(s.subrange(k, k + a.len()) == a);
    }
}

fn find_between(cs: &Vec<char>, a: &str, z: char) -> (r: Option<(usize, usize)>)
    requires
        a@.len() > 0,
    ensures
        match r {
            Some((i, j)) => between(cs@, a@, z, i as int, j as int),
            None => forall|i: int, j: int| !#[trigger] between(cs@, a@, z, i, j),
        },
{
    let t = chars_of(a);
    match (find_first(cs, &t), find_last(cs, z)) {
        (Some(i), Some(j)) => {
            let n = cs.len();
            assert(i + t@.len() <= n);
            if j > i + (t.len() - 1) {
                Some((i, j))
            } else {
                assert forall|k: int, l: int| !#[trigger] between(cs@, a@, z, k, l) by {
                    if between(cs@, a@, z, k, l) {
                        if i < k {
                            assert(cs@.subrange(i as int, i + a@.len()) == a@);
                        }
                        if k < i {
                            assert(cs@.subrange(k, k + a@.len()) == a@);
                        }
                    }
                }
                None
            }
        },
        _ => None,
    }
}

fn read_text(text: String) -> (r: Source)
    ensures
        r@ == source_of_text(text@),
{
    let cs = chars_of(text.as_str());
    let n = cs.len();
    assert(n == text@.len());
    proof {
        reveal_strlit("{");
        reveal_strlit("wants=[");
    }
    match find_between(&cs, "{", '}') {
        Some((a, z)) => {
            proof {
                assert(between(text@, "{"@, '}', a as int, z as int));
                let (k, l) = choose|k: int, l: int| #[trigger] between(text@, "{"@, '}', k, l);
                between_unique(text@, "{"@, '}', a as int, z as int, k, l);
            }
            Source::Object(string_of(&cs, a, z + 1))
        },
        None => match find_between(&cs, "wants=[", ']') {
            Some((a, z)) => {
                proof {
                    assert(between(text@, "wants=["@, ']', a as int, z as int));
                    let (k, l) = choose|k: int, l: int| #[trigger]
                        between(text@, "wants=["@, ']', k, l);
                    between_unique(text@, "wants=["@, ']', a as int, z as int, k, l);
                }
                Source::Wants(string_of(&cs, a + 6, z + 1))
            },
            None => Source::Missing(text),
        },
    }
}

pub(crate) fn texts(xs: &Vec<Json>) -> (r: Vec<String>)
    ensures
        views(r@) == texts_in(list_view(xs@)),
{
    let ghost vs = list_view(xs@);
    let mut out: Vec<String> = Vec::new();
    let mut i: usize = 0;
    assert(views(out@) =~= texts_in(vs.take(0)));
    while i < xs.len()
        invariant
            i <= xs@.len(),
            vs == list_view(xs@),
            views(out@) == texts_in(vs.take(i as int)),
        decreases xs@.len() - i,
    {
        proof {
            assert(vs.take(i + 1).drop_last() =~= vs.take(i as int));
            assert(vs.take(i + 1).last() == xs@[i as int]@);
        }
        match as_str(xs[i].get("text")) {
            Some(t) => {
                let ghost o = views(out@);
                out.push(owned(t));
                assert(views(out@) =~= o.push(t@));
            },
            None => {},
        }
        i += 1;
    }
    assert(vs.take(i as int) =~= vs);
    out
}

/// Find the intent in a reply.
pub fn find_intent(resp: &Json) -> (r: Source)
    ensures
        r@ == source_of(resp@),
{
    let none: Vec<Json> = Vec::new();
    assert(list_view(none@) =~= Seq::<JsonV>::empty());
    let xs: &Vec<Json> = match as_list(resp.get("content")) {
        Some(xs) => xs,
        None => &none,
    };
    let ghost vs = list_view(xs@);
    assert(vs == content_of(resp@));
    let mut i: usize = 0;
    while i < xs.len()
        invariant
            i <= xs@.len(),
            vs == list_view(xs@),
            vs == content_of(resp@),
            forall|j: int| 0 <= j < i ==> !is_call(#[trigger] vs[j]),
        decreases xs@.len() - i,
    {
        assert(vs[i as int] == xs@[i as int]@);
        let use_ = match as_str(xs[i].get("type")) {
            Some(t) => same(t, "tool_use"),
            None => false,
        };
        let named = match as_str(xs[i].get("name")) {
            Some(t) => same(t, "emit_intent"),
            None => false,
        };
        if use_ && named {
            proof {
                call_in_skip(vs, i as int);
                assert(vs.skip(i as int)[0] == vs[i as int]);
            }
            return Source::Call(get_or_null(&xs[i], "input"));
        }
        i += 1;
    }
    proof {
        call_in_skip(vs, i as int);
        assert(vs.skip(i as int).len() == 0);
    }
    let ts = texts(xs);
    read_text(join(&ts, "\n"))
}

/// A string, or nothing.
pub open spec fn text_or_none(v: Option<JsonV>) -> Seq<char> {
    match str_of(v) {
        Some(s) => s,
        None => Seq::empty(),
    }
}

pub open spec fn fork_in(f: JsonV) -> IntentForkV {
    IntentForkV {
        when: text_or_none(member(f, "when"@)),
        ask: text_or_none(member(f, "ask"@)),
        default: str_of(member(f, "default"@)),
    }
}

pub open spec fn forks_in(v: Option<JsonV>) -> Seq<IntentForkV> {
    match list_of(v) {
        Some(xs) => xs.map_values(|f: JsonV| fork_in(f)),
        None => Seq::empty(),
    }
}

/// The intent that the planner's input describes. The goal and the limits are those asked for.
pub open spec fn intent_in(input: JsonV, goal: Seq<char>, constraints: Constraints) -> IntentV {
    IntentV {
        goal,
        wants: strings_of(member(input, "wants"@)),
        constraints,
        forks: forks_in(member(input, "forks"@)),
    }
}

fn text_in(v: Option<&Json>) -> (r: String)
    ensures
        r@ == text_or_none(opt_view(v)),
{
    match as_str(v) {
        Some(s) => owned(s),
        None => String::new(),
    }
}

fn read_forks(v: Option<&Json>) -> (r: Vec<IntentFork>)
    ensures
        forks_view(r@) == forks_in(opt_view(v)),
{
    let mut out: Vec<IntentFork> = Vec::new();
    match as_list(v) {
        None => {
            assert(forks_view(out@) =~= Seq::<IntentForkV>::empty());
        },
        Some(xs) => {
            let ghost all = forks_in(opt_view(v));
            let mut i: usize = 0;
            assert(forks_view(out@) =~= all.take(0));
            while i < xs.len()
                invariant
                    i <= xs@.len() == all.len(),
                    all == list_view(xs@).map_values(|f: JsonV| fork_in(f)),
                    forks_view(out@) == all.take(i as int),
                decreases xs@.len() - i,
            {
                let f = IntentFork {
                    when: text_in(xs[i].get("when")),
                    ask: text_in(xs[i].get("ask")),
                    default: match as_str(xs[i].get("default")) {
                        Some(s) => Some(owned(s)),
                        None => None,
                    },
                };
                assert(list_view(xs@)[i as int] == xs@[i as int]@);
                assert(all[i as int] == f@);
                let ghost o = forks_view(out@);
                out.push(f);
                assert(forks_view(out@) =~= o.push(f@));
                i += 1;
                assert(forks_view(out@) =~= all.take(i as int));
            }
            assert(all.take(i as int) =~= all);
        },
    }
    out
}

fn intent_of(input: &Json, ask: &Ask) -> (r: Intent)
    ensures
        r@ == intent_in(input@, ask.goal@, ask.constraints),
{
    Intent {
        goal: ask.goal.clone(),
        wants: read_strings(input.get("wants")),
        constraints: ask.constraints,
        forks: read_forks(input.get("forks")),
    }
}

/// The intent of a reply, given where it stands and what the text there parses to.
pub open spec fn intent_found(
    source: SourceV,
    parsed: Result<JsonV, Seq<char>>,
    goal: Seq<char>,
    constraints: Constraints,
) -> Result<IntentV, Seq<char>> {
    match source {
        SourceV::Call(v) => Ok(intent_in(v, goal, constraints)),
        SourceV::Object(_) => match parsed {
            Ok(v) => Ok(intent_in(v, goal, constraints)),
            Err(e) => Err(e),
        },
        SourceV::Wants(_) => match parsed {
            Ok(v) => Ok(intent_in(JsonV::Obj(seq![("wants"@, v)]), goal, constraints)),
            Err(e) => Err(e),
        },
        SourceV::Missing(t) => Err("planner emitted no intent: "@ + t),
    }
}

/// The intent of a reply, given where it stands and what the text there parses to.
pub fn intent_from(source: &Source, parsed: Result<Json, String>, ask: &Ask) -> (r: Result<
    Intent,
    String,
>)
    ensures
        match (r, intent_found(source@, parsed_view(parsed), ask.goal@, ask.constraints)) {
            (Ok(i), Ok(w)) => i@ == w,
            (Err(e), Err(f)) => e@ == f,
            _ => false,
        },
{
    match source {
        Source::Call(v) => Ok(intent_of(v, ask)),
        Source::Object(_) => match parsed {
            Ok(v) => Ok(intent_of(&v, ask)),
            Err(e) => Err(e),
        },
        Source::Wants(_) => match parsed {
            Ok(v) => {
                let o = one_entry("wants", v);
                Ok(intent_of(&o, ask))
            },
            Err(e) => Err(e),
        },
        Source::Missing(t) => {
            let mut e = owned("planner emitted no intent: ");
            e.push_str(t.as_str());
            Err(e)
        },
    }
}

/// What the text at a source parses to. A call and a missing intent have none.
pub open spec fn source_parsed(source: SourceV) -> Result<JsonV, Seq<char>> {
    match source {
        SourceV::Object(t) => json_of(t),
        SourceV::Wants(t) => json_of(t),
        _ => Ok(JsonV::Null),
    }
}

/// The intent of a reply, or why there is none.
pub open spec fn intent_read(resp: JsonV, goal: Seq<char>, constraints: Constraints) -> Result<
    IntentV,
    Seq<char>,
> {
    intent_found(source_of(resp), source_parsed(source_of(resp)), goal, constraints)
}

/// The intent of a reply, or why there is none.
pub fn read_intent(resp: &Json, ask: &Ask) -> (r: Result<Intent, String>)
    ensures
        match (r, intent_read(resp@, ask.goal@, ask.constraints)) {
            (Ok(i), Ok(w)) => i@ == w,
            (Err(e), Err(f)) => e@ == f,
            _ => false,
        },
{
    let source = find_intent(resp);
    let parsed = match &source {
        Source::Object(t) => parse_text(t.as_str()),
        Source::Wants(t) => parse_text(t.as_str()),
        _ => Ok(Json::Null),
    };
    intent_from(&source, parsed, ask)
}

/// What is noted of a reply that holds no intent.
pub open spec fn unparseable_note(resp: JsonV, e: Seq<char>) -> JsonV {
    JsonV::Obj(
        seq![
            ("content"@, member_or_null(resp, "content"@)),
            ("unparseable"@, JsonV::Str(e)),
        ],
    )
}

/// An intent without wants, which lint rejects.
pub open spec fn empty_intent(goal: Seq<char>, constraints: Constraints) -> IntentV {
    IntentV { goal, wants: Seq::empty(), constraints, forks: Seq::empty() }
}

/// An unparseable reply is an empty intent, which lint rejects and the loop re-asks. The raw reply
/// is kept as a note.
pub fn intent_or_empty(
    resp: &Json,
    found: Result<Intent, String>,
    ask: &Ask,
    ledger: &mut Ledger,
) -> (r: Intent)
    ensures
        match found {
            Ok(i) => r@ == i@ && final(ledger)@ == old(ledger)@,
            Err(e) => r@ == empty_intent(ask.goal@, ask.constraints) && final(ledger)@ == (LedgerV {
                notes: old(ledger)@.notes.push(unparseable_note(resp@, e@)),
                ..old(ledger)@
            }),
        },
{
    match found {
        Ok(i) => i,
        Err(e) => {
            let content = get_or_null(resp, "content");
            let note = two_entries("content", content, "unparseable", Json::Str(e));
            proof {
                list_push(ledger.notes@, note);
            }
            ledger.notes.push(note);
            let wants: Vec<String> = Vec::new();
            let forks: Vec<IntentFork> = Vec::new();
            assert(views(wants@) =~= Seq::<Seq<char>>::empty());
            assert(forks_view(forks@) =~= Seq::<IntentForkV>::empty());
            Intent { goal: ask.goal.clone(), wants, constraints: ask.constraints, forks }
        },
    }
}

/// The intent of a reply. One that holds none is an empty intent, and is noted.
pub fn hear_intent(resp: &Json, ask: &Ask, ledger: &mut Ledger) -> (r: Intent)
    ensures
        match intent_read(resp@, ask.goal@, ask.constraints) {
            Ok(i) => r@ == i && final(ledger)@ == old(ledger)@,
            Err(e) => r@ == empty_intent(ask.goal@, ask.constraints) && final(ledger)@ == (LedgerV {
                notes: old(ledger)@.notes.push(unparseable_note(resp@, e)),
                ..old(ledger)@
            }),
        },
{
    intent_or_empty(resp, read_intent(resp, ask), ask, ledger)
}

// ---------- prompts ----------

/// Each want on a line of its own, indented.
pub open spec fn want_lines(wants: Seq<Seq<char>>) -> Seq<Seq<char>> {
    wants.map_values(|w: Seq<char>| "  "@ + w)
}

pub open spec fn err_texts(errs: Seq<LintErrorV>) -> Seq<Seq<char>> {
    errs.map_values(|e: LintErrorV| lint_error_text(e))
}

/// Each error on a line of its own.
pub open spec fn err_lines(errs: Seq<LintErrorV>) -> Seq<Seq<char>> {
    errs.map_values(|e: LintErrorV| "- "@ + lint_error_text(e))
}

/// What every prompt begins with: the world, the facts and the goal.
pub open spec fn preamble(w: WorldV, facts: Seq<char>, goal: Seq<char>) -> Seq<char> {
    "World model:\n"@ + summary_text(w) + "\nWorld facts (read just now):\n"@ + facts
        + "\nGoal: "@ + goal
}

pub open spec fn plan_text(w: WorldV, facts: Seq<char>, goal: Seq<char>) -> Seq<char> {
    preamble(w, facts, goal) + "\n\nEmit the intent graph now with emit_intent."@
}

pub open spec fn replan_text(
    w: WorldV,
    facts: Seq<char>,
    goal: Seq<char>,
    wants: Seq<Seq<char>>,
    errs: Seq<LintErrorV>,
) -> Seq<char> {
    preamble(w, facts, goal) + "\n\nYour previous intent was:\n"@ + joined(want_lines(wants), "\n"@)
        + "\n\nIt was rejected:\n"@ + joined(err_lines(errs), "\n"@)
        + "\n\nEmit a corrected intent graph with emit_intent."@
}

/// The question that a run stopped on.
pub open spec fn fork_text(
    w: WorldV,
    facts: Seq<char>,
    goal: Seq<char>,
    question: Seq<char>,
    evidence: Seq<char>,
    wants: Seq<Seq<char>>,
) -> Seq<char> {
    preamble(w, facts, goal)
        + "\n\nThe plan compiled from your intent stopped with a question:\n  "@ + question
        + "\nEvidence:\n"@ + evidence + "\n\nYour intent was:\n"@ + joined(
        want_lines(wants),
        "\n"@,
    ) + "\n\nAnswer by emitting the intent again with emit_intent. Rules: identify the chosen entity by id, e.g. customer(id=11), in every want that referred to the ambiguous one; keep every other want exactly as it was, character for character; if the ask.goal gives no basis to choose, choose the lowest id and say nothing else."@
}

pub open spec fn fork_again_text(before: Seq<char>, errs: Seq<LintErrorV>) -> Seq<char> {
    before + "\n\nYour previous answer was rejected:\n"@ + joined(err_lines(errs), "\n"@)
        + "\n\nAnswer again with emit_intent, keeping every unaffected want unchanged."@
}

fn begin(ctx: &Ctx, goal: &str) -> (r: String)
    ensures
        r@ == preamble(ctx.world@, ctx.facts@, goal@),
{
    let mut t = owned("World model:\n");
    let s = ctx.world.summary();
    t.push_str(s.as_str());
    t.push_str("\nWorld facts (read just now):\n");
    t.push_str(ctx.facts);
    t.push_str("\nGoal: ");
    t.push_str(goal);
    t
}

fn lines_of_wants(wants: &Vec<String>) -> (r: String)
    ensures
        r@ == joined(want_lines(views(wants@)), "\n"@),
{
    let ghost all = want_lines(views(wants@));
    let mut out: Vec<String> = Vec::new();
    let mut i: usize = 0;
    assert(views(out@) =~= all.take(0));
    while i < wants.len()
        invariant
            i <= wants@.len() == all.len(),
            all == want_lines(views(wants@)),
            views(out@) == all.take(i as int),
        decreases wants@.len() - i,
    {
        let mut t = owned("  ");
        t.push_str(wants[i].as_str());
        let ghost o = views(out@);
        let ghost tv = t@;
        out.push(t);
        assert(views(out@) =~= o.push(tv));
        assert(all[i as int] == "  "@ + views(wants@)[i as int]);
        i += 1;
        assert(views(out@) =~= all.take(i as int));
    }
    assert(all.take(i as int) =~= all);
    join(&out, "\n")
}

fn texts_of_errs(errs: &Vec<LintError>) -> (r: Vec<String>)
    ensures
        views(r@) == err_texts(errs_view(errs@)),
{
    let ghost all = err_texts(errs_view(errs@));
    let mut out: Vec<String> = Vec::new();
    let mut i: usize = 0;
    assert(views(out@) =~= all.take(0));
    while i < errs.len()
        invariant
            i <= errs@.len() == all.len(),
            all == err_texts(errs_view(errs@)),
            views(out@) == all.take(i as int),
        decreases errs@.len() - i,
    {
        let t = errs[i].to_string();
        let ghost o = views(out@);
        out.push(t);
        assert(views(out@) =~= o.push(t@));
        assert(all[i as int] == lint_error_text(errs_view(errs@)[i as int]));
        i += 1;
        assert(views(out@) =~= all.take(i as int));
    }
    assert(all.take(i as int) =~= all);
    out
}

fn lines_of_errs(errs: &Vec<LintError>) -> (r: String)
    ensures
        r@ == joined(err_lines(errs_view(errs@)), "\n"@),
{
    let ghost all = err_lines(errs_view(errs@));
    let mut out: Vec<String> = Vec::new();
    let mut i: usize = 0;
    assert(views(out@) =~= all.take(0));
    while i < errs.len()
        invariant
            i <= errs@.len() == all.len(),
            all == err_lines(errs_view(errs@)),
            views(out@) == all.take(i as int),
        decreases errs@.len() - i,
    {
        let mut t = owned("- ");
        let e = errs[i].to_string();
        t.push_str(e.as_str());
        let ghost o = views(out@);
        let ghost tv = t@;
        out.push(t);
        assert(views(out@) =~= o.push(tv));
        assert(all[i as int] == "- "@ + lint_error_text(errs_view(errs@)[i as int]));
        i += 1;
        assert(views(out@) =~= all.take(i as int));
    }
    assert(all.take(i as int) =~= all);
    join(&out, "\n")
}

/// The request that asks for an intent.
pub fn plan_request(ask: &Ask, ctx: &Ctx) -> (r: Vec<(String, Json)>)
    ensures
        obj_view(r@) == request_json(plan_text(ctx.world@, ctx.facts@, ask.goal@)),
{
    let mut t = begin(ctx, ask.goal.as_str());
    t.push_str("\n\nEmit the intent graph now with emit_intent.");
    planner_request(t.as_str())
}

/// The question that a run stopped on, as the planner is asked it. `evidence` is already in words.
pub fn fork_prompt(ask: &Ask, ctx: &Ctx, prior: &Intent, question: &str, evidence: &str) -> (r:
    String)
    ensures
        r@ == fork_text(ctx.world@, ctx.facts@, ask.goal@, question@, evidence@, prior@.wants),
{
    let mut t = begin(ctx, ask.goal.as_str());
    t.push_str("\n\nThe plan compiled from your intent stopped with a question:\n  ");
    t.push_str(question);
    t.push_str("\nEvidence:\n");
    t.push_str(evidence);
    t.push_str("\n\nYour intent was:\n");
    let w = lines_of_wants(&prior.wants);
    t.push_str(w.as_str());
    t.push_str(
        "\n\nAnswer by emitting the intent again with emit_intent. Rules: identify the chosen entity by id, e.g. customer(id=11), in every want that referred to the ambiguous one; keep every other want exactly as it was, character for character; if the ask.goal gives no basis to choose, choose the lowest id and say nothing else.",
    );
    t
}

/// The question that a run stopped on, with what it was seen from.
pub fn fork_question(ask: &Ask, ctx: &Ctx, prior: &Intent, question: &str, evidence: &Json) -> (r:
    String)
    ensures
        r@ == fork_text(
            ctx.world@,
            ctx.facts@,
            ask.goal@,
            question@,
            spread_text(evidence@),
            prior@.wants,
        ),
{
    let e = pretty(evidence);
    fork_prompt(ask, ctx, prior, question, e.as_str())
}

// ---------- judging ----------

/// What becomes of an intent that the planner emitted.
#[derive(Debug)]
pub enum Verdict {
    Accept,
    /// Ask again with this request.
    AskAgain(Vec<(String, Json)>),
    GiveUp(String),
}

pub enum VerdictV {
    Accept,
    AskAgain(Seq<(Seq<char>, JsonV)>),
    GiveUp(Seq<char>),
}

impl View for Verdict {
    type V = VerdictV;

    open spec fn view(&self) -> VerdictV {
        match self {
            Verdict::Accept => VerdictV::Accept,
            Verdict::AskAgain(b) => VerdictV::AskAgain(obj_view(b@)),
            Verdict::GiveUp(e) => VerdictV::GiveUp(e@),
        }
    }
}

pub open spec fn strs_json(xs: Seq<Seq<char>>) -> JsonV {
    JsonV::List(xs.map_values(|x: Seq<char>| JsonV::Str(x)))
}

/// What is noted of an intent that was rejected.
pub open spec fn rejection(k: Seq<char>, errs: Seq<LintErrorV>, wants: Seq<Seq<char>>) -> JsonV {
    JsonV::Obj(seq![(k, strs_json(err_texts(errs))), ("wants"@, strs_json(wants))])
}

/// The notes after an intent was linted.
pub open spec fn notes_after(
    notes: Seq<JsonV>,
    k: Seq<char>,
    errs: Seq<LintErrorV>,
    wants: Seq<Seq<char>>,
) -> Seq<JsonV> {
    if errs.len() == 0 {
        notes
    } else {
        notes.push(rejection(k, errs, wants))
    }
}

/// What becomes of an intent with these errors, after so many re-asks.
pub open spec fn verdict_on(
    w: WorldV,
    facts: Seq<char>,
    goal: Seq<char>,
    wants: Seq<Seq<char>>,
    reasks: u32,
    errs: Seq<LintErrorV>,
) -> VerdictV {
    if errs.len() == 0 {
        VerdictV::Accept
    } else if reasks < 2 {
        VerdictV::AskAgain(request_json(replan_text(w, facts, goal, wants, errs)))
    } else {
        VerdictV::GiveUp(
            "intent still wrong after two re-asks: "@ + joined(err_texts(errs), "; "@),
        )
    }
}

/// What becomes of an answer to a fork with these errors: one more try, with the rejection in
/// hand.
pub open spec fn verdict_on_answer(
    prompt: Seq<char>,
    retried: bool,
    errs: Seq<LintErrorV>,
) -> VerdictV {
    if errs.len() == 0 {
        VerdictV::Accept
    } else if !retried {
        VerdictV::AskAgain(request_json(fork_again_text(prompt, errs)))
    } else {
        VerdictV::GiveUp("fork answer rejected twice: "@ + joined(err_texts(errs), "; "@))
    }
}

fn strings_json(xs: &Vec<String>) -> (r: Json)
    ensures
        r@ == strs_json(views(xs@)),
{
    let ghost all = views(xs@).map_values(|x: Seq<char>| JsonV::Str(x));
    let mut out: Vec<Json> = Vec::new();
    let mut i: usize = 0;
    assert(list_view(out@) =~= all.take(0));
    while i < xs.len()
        invariant
            i <= xs@.len() == all.len(),
            all == views(xs@).map_values(|x: Seq<char>| JsonV::Str(x)),
            list_view(out@) == all.take(i as int),
        decreases xs@.len() - i,
    {
        let x = Json::Str(xs[i].clone());
        proof {
            list_push(out@, x);
        }
        out.push(x);
        assert(all[i as int] == JsonV::Str(views(xs@)[i as int]));
        i += 1;
        assert(list_view(out@) =~= all.take(i as int));
    }
    assert(all.take(i as int) =~= all);
    Json::List(out)
}

fn note_rejection(ledger: &mut Ledger, k: &str, errs: &Vec<LintError>, wants: &Vec<String>)
    ensures
        final(ledger)@ == (LedgerV {
            notes: old(ledger)@.notes.push(rejection(k@, errs_view(errs@), views(wants@))),
            ..old(ledger)@
        }),
{
    let ts = texts_of_errs(errs);
    let note = two_entries(k, strings_json(&ts), "wants", strings_json(wants));
    proof {
        list_push(ledger.notes@, note);
    }
    ledger.notes.push(note);
}

fn failed_with(start: &str, errs: &Vec<LintError>) -> (r: String)
    ensures
        r@ == start@ + joined(err_texts(errs_view(errs@)), "; "@),
{
    let ts = texts_of_errs(errs);
    let mut m = owned(start);
    let t = join(&ts, "; ");
    m.push_str(t.as_str());
    m
}

/// Whether a verdict is what the lint errors `errs` of an intent call for.
pub open spec fn judged(
    ask: Ask,
    ctx: Ctx,
    intent: IntentV,
    reasks: u32,
    before: LedgerV,
    errs: Seq<LintErrorV>,
    v: VerdictV,
    after: LedgerV,
) -> bool {
    &&& lints_to(intent, ctx.world@, ctx.opts@, errs)
    &&& v == verdict_on(ctx.world@, ctx.facts@, ask.goal@, intent.wants, reasks, errs)
    &&& after == (LedgerV {
        notes: notes_after(before.notes, "lint"@, errs, intent.wants),
        ..before
    })
}

/// Judge an intent that the planner emitted, its selectors already expanded: a clean one is
/// accepted, a wrong one goes back with the reasons up to twice.
pub fn judge(ask: &Ask, ctx: &Ctx, intent: &Intent, reasks: u32, ledger: &mut Ledger) -> (r: Verdict)
    ensures
        exists|errs: Seq<LintErrorV>| #[trigger]
            judged(*ask, *ctx, intent@, reasks, old(ledger)@, errs, r@, final(ledger)@),
{
    let errs = lint(intent, ctx.world, ctx.opts);
    let ghost ev = errs_view(errs@);
    let ghost l0 = ledger@;
    assert(ev.len() == errs@.len());
    let v = if errs.len() == 0 {
        Verdict::Accept
    } else {
        note_rejection(ledger, "lint", &errs, &intent.wants);
        if reasks < 2 {
            let mut t = begin(ctx, ask.goal.as_str());
            t.push_str("\n\nYour previous intent was:\n");
            let w = lines_of_wants(&intent.wants);
            t.push_str(w.as_str());
            t.push_str("\n\nIt was rejected:\n");
            let e = lines_of_errs(&errs);
            t.push_str(e.as_str());
            t.push_str("\n\nEmit a corrected intent graph with emit_intent.");
            Verdict::AskAgain(planner_request(t.as_str()))
        } else {
            Verdict::GiveUp(failed_with("intent still wrong after two re-asks: ", &errs))
        }
    };
    assert(judged(*ask, *ctx, intent@, reasks, l0, ev, v@, ledger@));
    v
}

/// Where an exchange with the planner stands: what the next sample is for, and how often the
/// planner was asked again.
#[derive(Clone, Copy, Debug, PartialEq, Eq, Structural)]
pub struct Turn {
    pub kind: SampleKind,
    pub reasks: u32,
}

/// The first sample of a plan.
pub fn first_turn() -> (r: Turn)
    ensures
        r == (Turn { kind: SampleKind::Plan, reasks: 0 }),
{
    Turn { kind: SampleKind::Plan, reasks: 0 }
}

/// How the exchange goes on: whatever is asked again is a lint sample.
pub open spec fn turn_after(t: Turn, v: VerdictV) -> Turn {
    match v {
        VerdictV::AskAgain(_) => Turn { kind: SampleKind::Lint, reasks: (t.reasks + 1) as u32 },
        _ => t,
    }
}

/// Judge an intent that the planner emitted, and say where the exchange stands then.
pub fn take_turn(ask: &Ask, ctx: &Ctx, intent: &Intent, t: Turn, ledger: &mut Ledger) -> (r: (
    Verdict,
    Turn,
))
    ensures
        exists|errs: Seq<LintErrorV>| #[trigger]
            judged(*ask, *ctx, intent@, t.reasks, old(ledger)@, errs, r.0@, final(ledger)@),
        r.1 == turn_after(t, r.0@),
        r.0@ is AskAgain ==> r.1.reasks == t.reasks + 1,
{
    let v = judge(ask, ctx, intent, t.reasks, ledger);
    let next = match &v {
        Verdict::AskAgain(_) => Turn { kind: SampleKind::Lint, reasks: t.reasks + 1 },
        _ => t,
    };
    (v, next)
}

/// Whether a verdict is what the lint errors `errs` of an answer to a fork call for.
pub open spec fn answer_judged(
    ctx: Ctx,
    prompt: Seq<char>,
    intent: IntentV,
    retried: bool,
    before: LedgerV,
    errs: Seq<LintErrorV>,
    v: VerdictV,
    after: LedgerV,
) -> bool {
    &&& lints_to(intent, ctx.world@, ctx.opts@, errs)
    &&& v == verdict_on_answer(prompt, retried, errs)
    &&& after == (LedgerV {
        notes: notes_after(before.notes, "fork_answer_rejected"@, errs, intent.wants),
        ..before
    })
}

/// Judge the planner's answer to a fork.
pub fn judge_answer(
    ctx: &Ctx,
    prompt: &str,
    answered: &Intent,
    retried: bool,
    ledger: &mut Ledger,
) -> (r: Verdict)
    ensures
        exists|errs: Seq<LintErrorV>| #[trigger]
            answer_judged(
                *ctx,
                prompt@,
                answered@,
                retried,
                old(ledger)@,
                errs,
                r@,
                final(ledger)@,
            ),
{
    let errs = lint(answered, ctx.world, ctx.opts);
    let ghost ev = errs_view(errs@);
    let ghost l0 = ledger@;
    assert(ev.len() == errs@.len());
    let v = if errs.len() == 0 {
        Verdict::Accept
    } else {
        note_rejection(ledger, "fork_answer_rejected", &errs, &answered.wants);
        if !retried {
            let mut t = owned(prompt);
            t.push_str("\n\nYour previous answer was rejected:\n");
            let e = lines_of_errs(&errs);
            t.push_str(e.as_str());
            t.push_str(
                "\n\nAnswer again with emit_intent, keeping every unaffected want unchanged.",
            );
            Verdict::AskAgain(planner_request(t.as_str()))
        } else {
            Verdict::GiveUp(failed_with("fork answer rejected twice: ", &errs))
        }
    };
    assert(answer_judged(*ctx, prompt@, answered@, retried, l0, ev, v@, ledger@));
    v
}

/// The first sample of an answer to a fork.
pub fn first_answer() -> (r: Turn)
    ensures
        r == (Turn { kind: SampleKind::ForkAnswer, reasks: 0 }),
{
    Turn { kind: SampleKind::ForkAnswer, reasks: 0 }
}

/// How the exchange on a fork goes on: it stays one on that fork.
pub open spec fn answer_after(t: Turn, v: VerdictV) -> Turn {
    match v {
        VerdictV::AskAgain(_) => Turn { kind: t.kind, reasks: (t.reasks + 1) as u32 },
        _ => t,
    }
}

/// Whether the planner was asked again before.
pub open spec fn asked_again(t: Turn) -> bool {
    t.reasks > 0
}

/// Judge the planner's answer to a fork, and say where the exchange stands then.
pub fn take_answer(ctx: &Ctx, prompt: &str, answered: &Intent, t: Turn, ledger: &mut Ledger) -> (r: (
    Verdict,
    Turn,
))
    ensures
        exists|errs: Seq<LintErrorV>| #[trigger]
            answer_judged(
                *ctx,
                prompt@,
                answered@,
                asked_again(t),
                old(ledger)@,
                errs,
                r.0@,
                final(ledger)@,
            ),
        r.1 == answer_after(t, r.0@),
        r.0@ is AskAgain ==> r.1.reasks == t.reasks + 1,
{
    let again: bool = t.reasks > 0;
    let ghost before = ledger@;
    let v = judge_answer(ctx, prompt, answered, again, ledger);
    proof {
        let errs = choose|errs: Seq<LintErrorV>| #[trigger]
            answer_judged(*ctx, prompt@, answered@, again, before, errs, v@, ledger@);
        assert(again == asked_again(t));
        assert(answer_judged(*ctx, prompt@, answered@, asked_again(t), before, errs, v@, ledger@));
    }
    let next = match &v {
        Verdict::AskAgain(_) => Turn { kind: t.kind, reasks: t.reasks + 1 },
        _ => t,
    };
    (v, next)
}

/// Nothing that does not lint clean is accepted, and a wrong intent goes back at most twice.
pub proof fn only_clean_intents_pass(
    ask: Ask,
    ctx: Ctx,
    intent: IntentV,
    reasks: u32,
    before: LedgerV,
    errs: Seq<LintErrorV>,
    v: VerdictV,
    after: LedgerV,
)
    requires
        judged(ask, ctx, intent, reasks, before, errs, v, after),
    ensures
        v is Accept <==> errs.len() == 0,
        v is Accept ==> after == before,
        v is AskAgain ==> reasks < 2,
        reasks >= 2 ==> !(v is AskAgain),
{
}

/// An answer to a fork that is wrong goes back once.
pub proof fn answers_are_retried_once(
    ctx: Ctx,
    prompt: Seq<char>,
    intent: IntentV,
    retried: bool,
    before: LedgerV,
    errs: Seq<LintErrorV>,
    v: VerdictV,
    after: LedgerV,
)
    requires
        answer_judged(ctx, prompt, intent, retried, before, errs, v, after),
    ensures
        v is Accept <==> errs.len() == 0,
        retried ==> !(v is AskAgain),
        errs.len() > 0 && retried ==> v is GiveUp,
{
}

// ---------- the cache ----------

/// A cache of planner output keyed by what the planner saw: the goal, the facts, the surfaces and
/// the world model. A hit means a repeated goal costs no samples.
#[derive(Debug)]
pub struct IntentCache {
    pub dir: String,
}

/// The key of what the planner saw.
pub open spec fn cache_key(
    goal: Seq<char>,
    facts: Seq<char>,
    surfaces: Seq<Seq<char>>,
    w: WorldV,
) -> Seq<char> {
    hash_text(
        trimmed(goal) + "\n"@ + trimmed(facts) + "\n"@ + joined(surfaces, ","@) + "\n"@
            + fingerprint_of(w),
        16,
    )
}

impl IntentCache {
    pub fn new(dir: &str) -> (r: IntentCache)
        ensures
            r.dir@ == dir@,
    {
        IntentCache { dir: owned(dir) }
    }

    /// The key of what the planner saw.
    pub fn key(goal: &str, facts: &str, surfaces: &Vec<String>, world: &World) -> (r: String)
        ensures
            r@ == cache_key(goal@, facts@, views(surfaces@), world@),
    {
        let mut t = trim(goal);
        t.push_str("\n");
        let f = trim(facts);
        t.push_str(f.as_str());
        t.push_str("\n");
        let s = join(surfaces, ",");
        t.push_str(s.as_str());
        t.push_str("\n");
        let p = world.fingerprint();
        t.push_str(p.as_str());
        hash_prefix(t.as_str(), 16)
    }

    /// The name of the file that holds an intent.
    pub fn file(goal: &str, facts: &str, surfaces: &Vec<String>, world: &World) -> (r: String)
        ensures
            r@ == cache_key(goal@, facts@, views(surfaces@), world@) + ".json"@,
    {
        let mut k = IntentCache::key(goal, facts, surfaces, world);
        k.push_str(".json");
        k
    }
}

/// Whitespace around a goal or the facts does not show in the key.
pub proof fn key_ignores_outer_whitespace(
    goal: Seq<char>,
    facts: Seq<char>,
    goal2: Seq<char>,
    facts2: Seq<char>,
    surfaces: Seq<Seq<char>>,
    w: WorldV,
)
    requires
        trimmed(goal) == trimmed(goal2),
        trimmed(facts) == trimmed(facts2),
    ensures
        cache_key(goal, facts, surfaces, w) == cache_key(goal2, facts2, surfaces, w),
{
}

} // verus!
