//! How an effect can fail, and what each door sends and understands. Effectors never decide
//! anything.

use crate::cut::{replace, replaced, trim_end_char, trim_tail};
use crate::json::{
    as_bool, as_str, as_u64, bool_of, clone_obj, entry, get_entry, get_in, json_of, json_text,
    list_view, member, obj_view, opt_view, parse_text, parsed_view, str_of, then_member, u64_of, Json,
    JsonV,
};
use crate::object::{no_entries, push_entry, put, put_entry};
use crate::plan::{Node, NodeV};
use crate::text::{chars_of, dec, owned, push_dec, same, string_of};
use crate::world::{clone_opt, find_op, opt_str, OpKind, ParamIn, ParamV, World, WorldV};
use vstd::prelude::*;

verus! {

/// Why an effect failed.
#[derive(Debug)]
pub enum EffectError {
    /// Try again with the same key: 429, 5xx, transport.
    Retryable(String),
    /// Try again with the same key, after so many milliseconds: the server said how long.
    Throttled(u64, String),
    /// The plan's assumption is wrong: 4xx other than 429.
    Fatal(String),
}

pub enum EffectErrorV {
    Retryable(Seq<char>),
    Throttled(u64, Seq<char>),
    Fatal(Seq<char>),
}

impl View for EffectError {
    type V = EffectErrorV;

    open spec fn view(&self) -> EffectErrorV {
        match self {
            EffectError::Retryable(m) => EffectErrorV::Retryable(m@),
            EffectError::Throttled(ms, m) => EffectErrorV::Throttled(*ms, m@),
            EffectError::Fatal(m) => EffectErrorV::Fatal(m@),
        }
    }
}

/// The error in words.
pub open spec fn effect_error_text(e: EffectErrorV) -> Seq<char> {
    match e {
        EffectErrorV::Retryable(m) => "retryable: "@ + m,
        EffectErrorV::Throttled(_, m) => "throttled: "@ + m,
        EffectErrorV::Fatal(m) => "fatal: "@ + m,
    }
}

impl EffectError {
    /// The error in words.
    pub fn to_string(&self) -> (r: String)
        ensures
            r@ == effect_error_text(self@),
    {
        let (kind, m) = match self {
            EffectError::Retryable(m) => ("retryable: ", m),
            EffectError::Throttled(_, m) => ("throttled: ", m),
            EffectError::Fatal(m) => ("fatal: ", m),
        };
        let mut out = owned(kind);
        out.push_str(m.as_str());
        out
    }
}

// ---------- the native door ----------

/// The beginning of a text.
pub open spec fn beginning(s: Seq<char>, n: nat) -> Seq<char> {
    if s.len() <= n {
        s
    } else {
        s.take(n as int)
    }
}

/// What a refusal says: its `error`, or the beginning of its body.
pub open spec fn refusal_text(parsed: Option<JsonV>, body: Seq<char>) -> Seq<char> {
    match str_of(then_member(parsed, "error"@)) {
        Some(m) => m,
        None => beginning(body, 200),
    }
}

/// Whether a status means that the same call may succeed later.
pub open spec fn passing(status: u16) -> bool {
    status == 429 || status >= 500
}

/// What a status outside 200 to 299 means.
pub open spec fn classified(status: u16, parsed: Option<JsonV>, body: Seq<char>) -> EffectErrorV {
    let msg = dec(status as nat) + " "@ + refusal_text(parsed, body);
    if passing(status) {
        EffectErrorV::Retryable(msg)
    } else {
        EffectErrorV::Fatal(msg)
    }
}

/// The first `n` characters of a text.
pub fn head(s: &str, n: usize) -> (r: String)
    ensures
        r@ == beginning(s@, n as nat),
{
    let cs = chars_of(s);
    if cs.len() <= n {
        owned(s)
    } else {
        let r = string_of(&cs, 0, n);
        assert(r@ =~= s@.take(n as int));
        r
    }
}

/// What a status outside 200 to 299 means, given the body and what it parses to.
pub fn classify(status: u16, parsed: Option<&Json>, body: &str) -> (r: EffectError)
    ensures
        r@ == classified(status, opt_view(parsed), body@),
{
    let mut m = String::new();
    push_dec(&mut m, status as u128);
    m.push_str(" ");
    assert(m@ =~= dec(status as nat) + " "@);
    match as_str(get_in(parsed, "error")) {
        Some(e) => m.push_str(e),
        None => m.push_str(head(body, 200).as_str()),
    }
    if status == 429 || status >= 500 {
        EffectError::Retryable(m)
    } else {
        EffectError::Fatal(m)
    }
}

/// What a text parses to, if it does.
pub open spec fn json_in(text: Seq<char>) -> Option<JsonV> {
    match json_of(text) {
        Ok(v) => Some(v),
        Err(_) => None,
    }
}

/// What a status outside 200 to 299 means, given the body.
pub fn classify_text(status: u16, body: &str) -> (r: EffectError)
    ensures
        r@ == classified(status, json_in(body@), body@),
{
    match parse_text(body) {
        Ok(v) => classify(status, Some(&v), body),
        Err(_) => classify(status, None, body),
    }
}

/// A request to the app.
#[derive(Debug)]
pub struct Request {
    pub method: String,
    pub url: String,
    pub query: Vec<(String, String)>,
    /// Sent as `idempotency-key`.
    pub key: Option<String>,
    pub body: Option<Json>,
}

pub struct RequestV {
    pub method: Seq<char>,
    pub url: Seq<char>,
    pub query: Seq<(Seq<char>, Seq<char>)>,
    pub key: Option<Seq<char>>,
    pub body: Option<JsonV>,
}

pub open spec fn query_view(q: Seq<(String, String)>) -> Seq<(Seq<char>, Seq<char>)> {
    q.map_values(|e: (String, String)| (e.0@, e.1@))
}

impl View for Request {
    type V = RequestV;

    open spec fn view(&self) -> RequestV {
        RequestV {
            method: self.method@,
            url: self.url@,
            query: query_view(self.query@),
            key: opt_str(self.key),
            body: match self.body {
                Some(b) => Some(b@),
                None => None,
            },
        }
    }
}

/// A value as it stands in a path or a query: a string without quotes.
pub open spec fn plain(v: JsonV) -> Seq<char> {
    match v {
        JsonV::Str(s) => s,
        _ => json_text(v),
    }
}

/// Where the arguments of a request go.
pub struct Parts {
    pub path: Seq<char>,
    pub query: Seq<(Seq<char>, Seq<char>)>,
    pub body: Seq<(Seq<char>, JsonV)>,
}

/// The arguments placed as the parameters say. A parameter without an argument is left out.
pub open spec fn placed(path: Seq<char>, ps: Seq<ParamV>, args: Seq<(Seq<char>, JsonV)>) -> Parts
    decreases ps.len(),
{
    if ps.len() == 0 {
        Parts { path, query: Seq::empty(), body: Seq::empty() }
    } else {
        let rest = placed(path, ps.drop_last(), args);
        let p = ps.last();
        match entry(args, p.name) {
            None => rest,
            Some(v) => match p.location {
                ParamIn::Path => Parts {
                    path: replaced(rest.path, "{"@ + p.name + "}"@, plain(v)),
                    ..rest
                },
                ParamIn::Query => Parts { query: rest.query.push((p.name, plain(v))), ..rest },
                ParamIn::Body => Parts { body: put(rest.body, p.name, v), ..rest },
            },
        }
    }
}

pub open spec fn method_ok(m: Seq<char>) -> bool {
    m == "GET"@ || m == "POST"@ || m == "PUT"@ || m == "DELETE"@
}

/// The request that carries out a node, or why there is none.
pub open spec fn request_for(
    w: WorldV,
    base: Seq<char>,
    n: NodeV,
    args: Seq<(Seq<char>, JsonV)>,
) -> Result<RequestV, EffectErrorV> {
    match find_op(w.ops, n.op) {
        None => Err(EffectErrorV::Fatal("unknown op "@ + n.op)),
        Some(o) => if o.kind != OpKind::Http {
            Err(EffectErrorV::Fatal(n.op + " is not an HTTP operation"@))
        } else if !method_ok(o.method) {
            Err(EffectErrorV::Fatal("unsupported method "@ + o.method))
        } else {
            let parts = placed(o.path, o.params, args);
            Ok(
                RequestV {
                    method: o.method,
                    url: base + parts.path,
                    query: parts.query,
                    key: n.key,
                    body: if parts.body.len() > 0 || o.method == "POST"@ {
                        Some(JsonV::Obj(parts.body))
                    } else {
                        None
                    },
                },
            )
        },
    }
}

pub(crate) fn plain_text(v: &Json) -> (r: String)
    ensures
        r@ == plain(v@),
{
    match v {
        Json::Str(s) => s.clone(),
        _ => v.to_string(),
    }
}

/// The address that paths are appended to.
pub fn base_of(base: &str) -> (r: String)
    ensures
        r@ == trim_tail(base@, '/'),
{
    trim_end_char(base, '/')
}

/// The request that carries out a node, built from the operation.
pub fn api_request(world: &World, base: &str, node: &Node, args: &Vec<(String, Json)>) -> (r: Result<
    Request,
    EffectError,
>)
    ensures
        match (r, request_for(world@, base@, node@, obj_view(args@))) {
            (Ok(q), Ok(w)) => q@ == w,
            (Err(e), Err(f)) => e@ == f,
            _ => false,
        },
{
    let op = match world.op(node.op.as_str()) {
        Some(o) => o,
        None => {
            let mut m = owned("unknown op ");
            m.push_str(node.op.as_str());
            return Err(EffectError::Fatal(m));
        },
    };
    if op.kind != OpKind::Http {
        let mut m = owned(node.op.as_str());
        m.push_str(" is not an HTTP operation");
        return Err(EffectError::Fatal(m));
    }
    let method = op.method.as_str();
    if !same(method, "GET") && !same(method, "POST") && !same(method, "PUT") && !same(
        method,
        "DELETE",
    ) {
        let mut m = owned("unsupported method ");
        m.push_str(method);
        return Err(EffectError::Fatal(m));
    }
    let ghost ps = op@.params;
    let ghost av = obj_view(args@);
    let mut path = op.path.clone();
    let mut query: Vec<(String, String)> = Vec::new();
    let mut body = no_entries();
    let mut i: usize = 0;
    assert(query_view(query@) =~= Seq::<(Seq<char>, Seq<char>)>::empty());
    assert(ps.take(0) =~= Seq::<ParamV>::empty());
    while i < op.params.len()
        invariant
            i <= op.params@.len(),
            ps == op@.params,
            av == obj_view(args@),
            placed(op@.path, ps.take(i as int), av) == (Parts {
                path: path@,
                query: query_view(query@),
                body: obj_view(body@),
            }),
        decreases op.params@.len() - i,
    {
        let p = &op.params[i];
        proof {
            assert(ps.take(i + 1).drop_last() =~= ps.take(i as int));
            assert(ps.take(i + 1).last() == p@);
        }
        match get_entry(args, p.name.as_str()) {
            None => {},
            Some(v) => match p.location {
                ParamIn::Path => {
                    let mut hole = owned("{");
                    hole.push_str(p.name.as_str());
                    hole.push_str("}");
                    let s = plain_text(v);
                    path = replace(path.as_str(), hole.as_str(), s.as_str());
                },
                ParamIn::Query => {
                    let ghost q = query_view(query@);
                    let s = plain_text(v);
                    query.push((p.name.clone(), s));
                    assert(query_view(query@) =~= q.push((p.name@, s@)));
                },
                ParamIn::Body => put_entry(&mut body, p.name.as_str(), v.clone()),
            },
        }
        i += 1;
    }
    assert(ps.take(i as int) =~= ps);
    assert(obj_view(body@).len() == body@.len());
    let mut url = owned(base);
    url.push_str(path.as_str());
    let sent: Option<Json> = if body.len() > 0 || same(method, "POST") {
        Some(Json::Obj(body))
    } else {
        None
    };
    Ok(Request { method: owned(method), url, query, key: clone_opt(&node.key), body: sent })
}

/// What a reply of the app means, given what its body parses to or why it does not parse.
pub open spec fn reply_of(status: u16, text: Seq<char>, parsed: Result<JsonV, Seq<char>>) -> Result<
    JsonV,
    EffectErrorV,
> {
    if !(200 <= status < 300) {
        Err(
            classified(
                status,
                match parsed {
                    Ok(v) => Some(v),
                    Err(_) => None,
                },
                text,
            ),
        )
    } else {
        match parsed {
            Ok(v) => Ok(v),
            Err(e) => Err(EffectErrorV::Fatal("bad json: "@ + e)),
        }
    }
}

/// What a reply of the app means.
pub fn api_reply(status: u16, text: &str, parsed: Result<Json, String>) -> (r: Result<
    Json,
    EffectError,
>)
    ensures
        match (r, reply_of(status, text@, parsed_view(parsed))) {
            (Ok(v), Ok(w)) => v@ == w,
            (Err(e), Err(f)) => e@ == f,
            _ => false,
        },
{
    if !(200 <= status && status < 300) {
        match &parsed {
            Ok(v) => Err(classify(status, Some(v), text)),
            Err(_) => Err(classify(status, None, text)),
        }
    } else {
        match parsed {
            Ok(v) => Ok(v),
            Err(e) => {
                let mut m = owned("bad json: ");
                m.push_str(e.as_str());
                Err(EffectError::Fatal(m))
            },
        }
    }
}

/// What a reply of the app means: a status and a body.
pub fn api_answer(status: u16, text: &str) -> (r: Result<Json, EffectError>)
    ensures
        match (r, reply_of(status, text@, json_of(text@))) {
            (Ok(v), Ok(w)) => v@ == w,
            (Err(e), Err(f)) => e@ == f,
            _ => false,
        },
{
    if !(200 <= status && status < 300) {
        Err(classify_text(status, text))
    } else {
        api_reply(status, text, parse_text(text))
    }
}

// ---------- the MCP door ----------

/// A JSON-RPC `tools/call`.
pub open spec fn call_message(name: Seq<char>, args: JsonV) -> JsonV {
    JsonV::Obj(
        seq![
            ("id"@, JsonV::Int(1)),
            ("jsonrpc"@, JsonV::Str("2.0"@)),
            ("method"@, JsonV::Str("tools/call"@)),
            (
                "params"@,
                JsonV::Obj(seq![("arguments"@, args), ("name"@, JsonV::Str(name))]),
            ),
        ],
    )
}

/// The message that calls a tool.
pub fn mcp_call(name: &str, args: Json) -> (r: Json)
    ensures
        r@ == call_message(name@, args@),
{
    let ghost av = args@;
    let mut params = no_entries();
    push_entry(&mut params, "arguments", args);
    push_entry(&mut params, "name", Json::Str(owned(name)));
    assert(obj_view(params@) =~= seq![("arguments"@, av), ("name"@, JsonV::Str(name@))]);
    let mut o = no_entries();
    push_entry(&mut o, "id", Json::Int(1));
    push_entry(&mut o, "jsonrpc", Json::Str(owned("2.0")));
    push_entry(&mut o, "method", Json::Str(owned("tools/call")));
    push_entry(&mut o, "params", Json::Obj(params));
    let r = Json::Obj(o);
    assert(obj_view(o@) =~= seq![
        ("id"@, JsonV::Int(1)),
        ("jsonrpc"@, JsonV::Str("2.0"@)),
        ("method"@, JsonV::Str("tools/call"@)),
        ("params"@, JsonV::Obj(seq![("arguments"@, av), ("name"@, JsonV::Str(name@))])),
    ]);
    r
}

/// The arguments of a node as a tool takes them: its key goes along as `idempotency_key`.
pub open spec fn tool_args(n: NodeV, args: Seq<(Seq<char>, JsonV)>) -> JsonV {
    JsonV::Obj(
        match n.key {
            Some(k) => put(args, "idempotency_key"@, JsonV::Str(k)),
            None => args,
        },
    )
}

/// The message that carries out a node.
pub fn mcp_request(node: &Node, args: &Vec<(String, Json)>) -> (r: Json)
    ensures
        r@ == call_message(node@.op, tool_args(node@, obj_view(args@))),
{
    let mut a = clone_obj(args);
    match &node.key {
        Some(k) => put_entry(&mut a, "idempotency_key", Json::Str(k.clone())),
        None => {},
    }
    mcp_call(node.op.as_str(), Json::Obj(a))
}

/// What a reply of a tool means. Text that is JSON stands for its value; whoever reads the reply
/// parses it.
#[derive(Debug)]
pub enum Reply {
    Value(Json),
    Text(String),
    Failed(EffectError),
}

pub enum ReplyV {
    Value(JsonV),
    Text(Seq<char>),
    Failed(EffectErrorV),
}

impl View for Reply {
    type V = ReplyV;

    open spec fn view(&self) -> ReplyV {
        match self {
            Reply::Value(v) => ReplyV::Value(v@),
            Reply::Text(t) => ReplyV::Text(t@),
            Reply::Failed(e) => ReplyV::Failed(e@),
        }
    }
}

/// The first element of a list, or the member `0` of an object.
pub open spec fn first_of(v: Option<JsonV>) -> Option<JsonV> {
    match v {
        Some(JsonV::List(xs)) => if xs.len() > 0 {
            Some(xs[0])
        } else {
            None
        },
        Some(JsonV::Obj(xs)) => entry(xs, "0"@),
        _ => None,
    }
}

/// The text of the first piece of content.
pub open spec fn content_text(result: JsonV) -> Option<Seq<char>> {
    str_of(then_member(first_of(member(result, "content"@)), "text"@))
}

/// The status that a failed call carries, or 500.
pub open spec fn tool_status(result: JsonV) -> u16 {
    match u64_of(member(result, "_status"@)) {
        Some(n) => n as u16,
        None => 500,
    }
}

/// What a reply of a tool means.
pub open spec fn tool_reply(v: JsonV) -> ReplyV {
    match member(v, "error"@) {
        Some(e) => ReplyV::Failed(EffectErrorV::Fatal(json_text(e))),
        None => {
            let result = match member(v, "result"@) {
                Some(x) => x,
                None => JsonV::Null,
            };
            if bool_of(member(result, "isError"@)) == Some(true) {
                let text = match content_text(result) {
                    Some(t) => t,
                    None => "tool error"@,
                };
                if passing(tool_status(result)) {
                    ReplyV::Failed(EffectErrorV::Retryable(text))
                } else {
                    ReplyV::Failed(EffectErrorV::Fatal(text))
                }
            } else {
                match member(result, "structuredContent"@) {
                    Some(sc) => ReplyV::Value(sc),
                    None => ReplyV::Text(
                        match content_text(result) {
                            Some(t) => t,
                            None => "null"@,
                        },
                    ),
                }
            }
        },
    }
}

fn first_in<'a>(v: Option<&'a Json>) -> (r: Option<&'a Json>)
    ensures
        opt_view(r) == first_of(opt_view(v)),
{
    match v {
        Some(Json::List(xs)) => {
            assert(list_view(xs@).len() == xs@.len());
            if xs.len() > 0 {
                assert(list_view(xs@)[0] == xs@[0]@);
                Some(&xs[0])
            } else {
                None
            }
        },
        Some(Json::Obj(xs)) => get_entry(xs, "0"),
        _ => None,
    }
}

/// What a reply of a tool means.
pub fn mcp_reply(v: &Json) -> (r: Reply)
    ensures
        r@ == tool_reply(v@),
{
    match v.get("error") {
        Some(e) => {
            return Reply::Failed(EffectError::Fatal(e.to_string()));
        },
        None => {},
    }
    let null = Json::Null;
    let result: &Json = match v.get("result") {
        Some(x) => x,
        None => &null,
    };
    let text = as_str(get_in(first_in(result.get("content")), "text"));
    let failed = match as_bool(result.get("isError")) {
        Some(b) => b,
        None => false,
    };
    if failed {
        let status: u16 = match as_u64(result.get("_status")) {
            Some(n) => {
                #[verifier::truncate]
                let s: u16 = n as u16;
                s
            },
            None => 500,
        };
        let t = match text {
            Some(t) => owned(t),
            None => owned("tool error"),
        };
        if status == 429 || status >= 500 {
            Reply::Failed(EffectError::Retryable(t))
        } else {
            Reply::Failed(EffectError::Fatal(t))
        }
    } else {
        match result.get("structuredContent") {
            Some(sc) => Reply::Value(sc.clone()),
            None => match text {
                Some(t) => Reply::Text(owned(t)),
                None => Reply::Text(owned("null")),
            },
        }
    }
}

/// What a reply of a tool comes to: a text that is JSON is read, any other stands for itself.
pub open spec fn tool_answer(v: JsonV) -> Result<JsonV, EffectErrorV> {
    match tool_reply(v) {
        ReplyV::Value(x) => Ok(x),
        ReplyV::Text(t) => Ok(
            match json_of(t) {
                Ok(x) => x,
                Err(_) => JsonV::Str(t),
            },
        ),
        ReplyV::Failed(e) => Err(e),
    }
}

/// What a reply of a tool comes to.
pub fn mcp_answer(v: &Json) -> (r: Result<Json, EffectError>)
    ensures
        match (r, tool_answer(v@)) {
            (Ok(x), Ok(w)) => x@ == w,
            (Err(e), Err(f)) => e@ == f,
            _ => false,
        },
{
    match mcp_reply(v) {
        Reply::Value(x) => Ok(x),
        Reply::Text(t) => match parse_text(t.as_str()) {
            Ok(x) => Ok(x),
            Err(_) => Ok(Json::Str(t)),
        },
        Reply::Failed(e) => Err(e),
    }
}

// ---------- no door ----------

/// A surface the plan chose but this run has not wired. Fails loudly, never silently serial.
#[derive(Debug)]
pub struct Unavailable(pub String);

impl Unavailable {
    pub fn surface(&self) -> (r: &str)
        ensures
            r@ == self.0@,
    {
        self.0.as_str()
    }

    /// Why a node cannot be carried out.
    pub fn refuse(&self, node: &Node) -> (r: EffectError)
        ensures
            r@ == EffectErrorV::Fatal(
                "surface '"@ + self.0@ + "' has no effector in this run (node "@ + node@.id + " "@
                    + node@.op + ")"@,
            ),
    {
        let mut m = owned("surface '");
        m.push_str(self.0.as_str());
        m.push_str("' has no effector in this run (node ");
        m.push_str(node.id.as_str());
        m.push_str(" ");
        m.push_str(node.op.as_str());
        m.push_str(")");
        EffectError::Fatal(m)
    }
}

/// How a surface is reached.
#[derive(Debug)]
pub enum Door {
    Api,
    /// The address of the MCP server.
    Mcp(String),
    Missing(String),
}

pub enum DoorV {
    Api,
    Mcp(Seq<char>),
    Missing(Seq<char>),
}

impl View for Door {
    type V = DoorV;

    open spec fn view(&self) -> DoorV {
        match self {
            Door::Api => DoorV::Api,
            Door::Mcp(u) => DoorV::Mcp(u@),
            Door::Missing(s) => DoorV::Missing(s@),
        }
    }
}

/// How the target app's surfaces are reached: the API door and its MCP door. Anything else fails
/// loudly.
pub fn door_for(surface: &str, base: &str) -> (r: Door)
    ensures
        r@ == (if surface@ == "api"@ {
            DoorV::Api
        } else if surface@ == "mcp"@ {
            DoorV::Mcp(trim_tail(base@, '/') + "/mcp"@)
        } else {
            DoorV::Missing(surface@)
        }),
{
    if same(surface, "api") {
        Door::Api
    } else if same(surface, "mcp") {
        let mut u = base_of(base);
        u.push_str("/mcp");
        Door::Mcp(u)
    } else {
        Door::Missing(owned(surface))
    }
}

/// A status that may pass is never fatal, and any other is.
pub proof fn only_passing_statuses_are_retried(
    status: u16,
    text: Seq<char>,
    parsed: Result<JsonV, Seq<char>>,
)
    requires
        !(200 <= status < 300),
    ensures
        reply_of(status, text, parsed) is Err,
        reply_of(status, text, parsed)->Err_0 is Retryable <==> passing(status),
        reply_of(status, text, parsed)->Err_0 is Fatal <==> !passing(status),
{
}

} // verus!
