//! The door that agents use: requests of JSON-RPC, each tool one thing that the app can do.

use crate::api::{refused, show_list, ApiError, ApiErrorV};
use crate::domain::{customer_json, invoice_json, DomainError};
use crate::invoicing::{
    customers_view, events_view, invoices_of, named, place_of, room, sums_fit, World, WorldV,
    Written, WrittenV,
};
use crate::json::{
    as_list, as_str, as_u64, json_text, list_of, list_push, list_view, member, str_of, u64_of,
    Json, JsonV,
};
use crate::object::{
    no_entries, one_entry, one_item, text_json, three_entries, two_entries, two_items,
};
use crate::text::{dec, owned, push_dec, same};
use crate::writes::{draws, invoice_created, invoice_sent, receipt_sent, report_created};
use vstd::prelude::*;

verus! {

// ---------- the tools ----------

/// A value of a kind.
pub open spec fn of_type(t: Seq<char>) -> JsonV {
    JsonV::Obj(seq![("type"@, JsonV::Str(t))])
}

/// What a tool takes, where nothing has to be given.
pub open spec fn free_schema(props: Seq<(Seq<char>, JsonV)>) -> JsonV {
    JsonV::Obj(seq![("properties"@, JsonV::Obj(props)), ("type"@, JsonV::Str("object"@))])
}

/// What a tool takes, and what has to be given.
pub open spec fn schema(props: Seq<(Seq<char>, JsonV)>, required: Seq<JsonV>) -> JsonV {
    JsonV::Obj(
        seq![
            ("properties"@, JsonV::Obj(props)),
            ("required"@, JsonV::List(required)),
            ("type"@, JsonV::Str("object"@)),
        ],
    )
}

/// One tool.
pub open spec fn tool(name: Seq<char>, description: Seq<char>, input: JsonV) -> JsonV {
    JsonV::Obj(
        seq![
            ("description"@, JsonV::Str(description)),
            ("inputSchema"@, input),
            ("name"@, JsonV::Str(name)),
        ],
    )
}

/// A keyed tool that takes an id.
pub open spec fn by_id() -> JsonV {
    schema(
        seq![("id"@, of_type("integer"@)), ("idempotency_key"@, of_type("string"@))],
        seq![JsonV::Str("id"@)],
    )
}

/// A list of whole numbers.
pub open spec fn integers() -> JsonV {
    JsonV::Obj(seq![("items"@, of_type("integer"@)), ("type"@, JsonV::Str("array"@))])
}

/// Every tool of the door.
pub open spec fn all_tools() -> Seq<JsonV> {
    seq![
        tool(
            "listCustomers"@,
            "Find customers, optionally by exact name."@,
            free_schema(seq![("name"@, of_type("string"@))]),
        ),
        tool(
            "listInvoices"@,
            "List invoices, optionally for one customer id."@,
            free_schema(seq![("customer_id"@, of_type("integer"@))]),
        ),
        tool(
            "getInvoice"@,
            "Read one invoice by id."@,
            schema(seq![("id"@, of_type("integer"@))], seq![JsonV::Str("id"@)]),
        ),
        tool(
            "createInvoice"@,
            "Create a draft invoice for a customer id."@,
            schema(
                seq![
                    ("amount_cents"@, of_type("integer"@)),
                    ("customer_id"@, of_type("integer"@)),
                    ("idempotency_key"@, of_type("string"@)),
                ],
                seq![JsonV::Str("customer_id"@), JsonV::Str("amount_cents"@)],
            ),
        ),
        tool("sendInvoice"@, "Email an invoice to its customer. Marks it sent."@, by_id()),
        tool(
            "sendReceipt"@,
            "Email a receipt for a paid invoice. Fails until payment arrives."@,
            by_id(),
        ),
        tool(
            "createReport"@,
            "Create a report over a list of invoice ids."@,
            schema(
                seq![
                    ("idempotency_key"@, of_type("string"@)),
                    ("invoice_ids"@, integers()),
                ],
                seq![JsonV::Str("invoice_ids"@)],
            ),
        ),
    ]
}

fn typed(t: &str) -> (r: Json)
    ensures
        r@ == of_type(t@),
{
    one_entry("type", text_json(t))
}

fn free_input(props: Json) -> (r: Json)
    requires
        props@ is Obj,
    ensures
        r@ == free_schema(props@->Obj_0),
{
    two_entries("properties", props, "type", text_json("object"))
}

fn input(props: Json, required: Json) -> (r: Json)
    requires
        props@ is Obj,
        required@ is List,
    ensures
        r@ == schema(props@->Obj_0, required@->List_0),
{
    three_entries("properties", props, "required", required, "type", text_json("object"))
}

fn one_tool(name: &str, description: &str, input: Json) -> (r: Json)
    ensures
        r@ == tool(name@, description@, input@),
{
    three_entries(
        "description",
        text_json(description),
        "inputSchema",
        input,
        "name",
        text_json(name),
    )
}

fn id_input() -> (r: Json)
    ensures
        r@ == by_id(),
{
    input(
        two_entries("id", typed("integer"), "idempotency_key", typed("string")),
        one_item(text_json("id")),
    )
}

fn push_tool(out: &mut Vec<Json>, t: Json)
    ensures
        list_view(final(out)@) == list_view(old(out)@).push(t@),
{
    proof {
        list_push(out@, t);
    }
    out.push(t);
}

/// Every tool of the door.
pub fn tools() -> (r: Json)
    ensures
        r@ == JsonV::List(all_tools()),
{
    let mut out: Vec<Json> = Vec::new();
    assert(list_view(out@) =~= Seq::<JsonV>::empty());
    push_tool(
        &mut out,
        one_tool(
            "listCustomers",
            "Find customers, optionally by exact name.",
            free_input(one_entry("name", typed("string"))),
        ),
    );
    push_tool(
        &mut out,
        one_tool(
            "listInvoices",
            "List invoices, optionally for one customer id.",
            free_input(one_entry("customer_id", typed("integer"))),
        ),
    );
    push_tool(
        &mut out,
        one_tool(
            "getInvoice",
            "Read one invoice by id.",
            input(one_entry("id", typed("integer")), one_item(text_json("id"))),
        ),
    );
    push_tool(
        &mut out,
        one_tool(
            "createInvoice",
            "Create a draft invoice for a customer id.",
            input(
                three_entries(
                    "amount_cents",
                    typed("integer"),
                    "customer_id",
                    typed("integer"),
                    "idempotency_key",
                    typed("string"),
                ),
                two_items(text_json("customer_id"), text_json("amount_cents")),
            ),
        ),
    );
    push_tool(
        &mut out,
        one_tool(
            "sendInvoice",
            "Email an invoice to its customer. Marks it sent.",
            id_input(),
        ),
    );
    push_tool(
        &mut out,
        one_tool(
            "sendReceipt",
            "Email a receipt for a paid invoice. Fails until payment arrives.",
            id_input(),
        ),
    );
    push_tool(
        &mut out,
        one_tool(
            "createReport",
            "Create a report over a list of invoice ids.",
            input(
                two_entries(
                    "idempotency_key",
                    typed("string"),
                    "invoice_ids",
                    two_entries("items", typed("integer"), "type", text_json("array")),
                ),
                one_item(text_json("invoice_ids")),
            ),
        ),
    );
    assert(list_view(out@) =~= all_tools());
    Json::List(out)
}

// ---------- the envelope ----------

pub open spec fn ok_json(id: JsonV, result: JsonV) -> JsonV {
    JsonV::Obj(seq![("id"@, id), ("jsonrpc"@, JsonV::Str("2.0"@)), ("result"@, result)])
}

pub open spec fn err_json(id: JsonV, code: int, message: Seq<char>) -> JsonV {
    JsonV::Obj(
        seq![
            (
                "error"@,
                JsonV::Obj(
                    seq![("code"@, JsonV::Int(code)), ("message"@, JsonV::Str(message))],
                ),
            ),
            ("id"@, id),
            ("jsonrpc"@, JsonV::Str("2.0"@)),
        ],
    )
}

fn rpc_ok(id: Json, result: Json) -> (r: Json)
    ensures
        r@ == ok_json(id@, result@),
{
    three_entries("id", id, "jsonrpc", text_json("2.0"), "result", result)
}

fn rpc_err(id: Json, code: i64, message: String) -> (r: Json)
    ensures
        r@ == err_json(id@, code as int, message@),
{
    three_entries(
        "error",
        two_entries("code", Json::Int(code as i128), "message", Json::Str(message)),
        "id",
        id,
        "jsonrpc",
        text_json("2.0"),
    )
}

// ---------- reading a call ----------

/// What an agent asks for.
pub enum Call {
    ListCustomers(Option<String>),
    ListInvoices(Option<u64>),
    GetInvoice(u64),
    CreateInvoice(u64, i64, Option<String>),
    SendInvoice(u64, Option<String>),
    SendReceipt(u64, Option<String>),
    CreateReport(Vec<u64>, Option<String>),
}

pub enum CallV {
    ListCustomers(Option<Seq<char>>),
    ListInvoices(Option<u64>),
    GetInvoice(u64),
    CreateInvoice(u64, i64, Option<Seq<char>>),
    SendInvoice(u64, Option<Seq<char>>),
    SendReceipt(u64, Option<Seq<char>>),
    CreateReport(Seq<u64>, Option<Seq<char>>),
}

impl View for Call {
    type V = CallV;

    open spec fn view(&self) -> CallV {
        match self {
            Call::ListCustomers(n) => CallV::ListCustomers(crate::world::opt_str(*n)),
            Call::ListInvoices(c) => CallV::ListInvoices(*c),
            Call::GetInvoice(id) => CallV::GetInvoice(*id),
            Call::CreateInvoice(c, a, k) => CallV::CreateInvoice(*c, *a, crate::world::opt_str(*k)),
            Call::SendInvoice(id, k) => CallV::SendInvoice(*id, crate::world::opt_str(*k)),
            Call::SendReceipt(id, k) => CallV::SendReceipt(*id, crate::world::opt_str(*k)),
            Call::CreateReport(ids, k) => CallV::CreateReport(ids@, crate::world::opt_str(*k)),
        }
    }
}

/// The signed 64-bit number that a value is, or nought.
pub open spec fn amount_of(v: Option<JsonV>) -> i64 {
    match v {
        Some(JsonV::Int(n)) => if i64::MIN <= n <= i64::MAX {
            n as i64
        } else {
            0
        },
        _ => 0,
    }
}

fn amount(v: Option<&Json>) -> (r: i64)
    ensures
        r == amount_of(crate::json::opt_view(v)),
{
    match v {
        Some(Json::Int(n)) => if -0x8000_0000_0000_0000 <= *n && *n <= 0x7FFF_FFFF_FFFF_FFFF {
            *n as i64
        } else {
            0
        },
        _ => 0,
    }
}

/// The ids among the items of a list.
pub open spec fn ids_among(xs: Seq<JsonV>) -> Seq<u64>
    decreases xs.len(),
{
    if xs.len() == 0 {
        Seq::empty()
    } else {
        match u64_of(Some(xs.last())) {
            Some(n) => ids_among(xs.drop_last()).push(n),
            None => ids_among(xs.drop_last()),
        }
    }
}

/// The ids that a list gives; no list gives none.
pub open spec fn ids_of(v: Option<JsonV>) -> Seq<u64> {
    match list_of(v) {
        Some(xs) => ids_among(xs),
        None => Seq::empty(),
    }
}

fn read_ids(v: Option<&Json>) -> (r: Vec<u64>)
    ensures
        r@ == ids_of(crate::json::opt_view(v)),
{
    let mut out: Vec<u64> = Vec::new();
    match as_list(v) {
        None => {},
        Some(xs) => {
            let ghost vs = list_view(xs@);
            assert(vs.len() == xs@.len());
            let mut i: usize = 0;
            assert(out@ =~= ids_among(vs.take(0)));
            while i < xs.len()
                invariant
                    i <= xs@.len() == vs.len(),
                    vs == list_view(xs@),
                    out@ == ids_among(vs.take(i as int)),
                decreases xs@.len() - i,
            {
                proof {
                    assert(vs.take(i + 1).drop_last() =~= vs.take(i as int));
                    assert(vs.take(i + 1).last() == xs@[i as int]@);
                }
                match as_u64(Some(&xs[i])) {
                    Some(n) => out.push(n),
                    None => {},
                }
                i += 1;
            }
            assert(vs.take(i as int) =~= vs);
        },
    }
    out
}

/// What is said of a number that is missing.
pub open spec fn missing(k: Seq<char>) -> ApiErrorV {
    ApiErrorV {
        status: 400,
        message: "missing integer argument '"@ + k + "'"@,
        retry_after_ms: None,
    }
}

pub open spec fn result_of<T>(v: Option<T>, e: ApiErrorV) -> Result<T, ApiErrorV> {
    match v {
        Some(x) => Ok(x),
        None => Err(e),
    }
}

/// A whole number among the arguments.
pub open spec fn number_arg(args: JsonV, k: Seq<char>) -> Result<u64, ApiErrorV> {
    result_of(u64_of(member(args, k)), missing(k))
}

/// What a call asks for.
pub open spec fn call_of(name: Seq<char>, args: JsonV) -> Result<CallV, ApiErrorV> {
    let key = str_of(member(args, "idempotency_key"@));
    if name == "listCustomers"@ {
        Ok(CallV::ListCustomers(str_of(member(args, "name"@))))
    } else if name == "listInvoices"@ {
        Ok(CallV::ListInvoices(u64_of(member(args, "customer_id"@))))
    } else if name == "getInvoice"@ {
        match number_arg(args, "id"@) {
            Ok(id) => Ok(CallV::GetInvoice(id)),
            Err(e) => Err(e),
        }
    } else if name == "createInvoice"@ {
        match number_arg(args, "customer_id"@) {
            Ok(c) => Ok(CallV::CreateInvoice(c, amount_of(member(args, "amount_cents"@)), key)),
            Err(e) => Err(e),
        }
    } else if name == "sendInvoice"@ {
        match number_arg(args, "id"@) {
            Ok(id) => Ok(CallV::SendInvoice(id, key)),
            Err(e) => Err(e),
        }
    } else if name == "sendReceipt"@ {
        match number_arg(args, "id"@) {
            Ok(id) => Ok(CallV::SendReceipt(id, key)),
            Err(e) => Err(e),
        }
    } else if name == "createReport"@ {
        Ok(CallV::CreateReport(ids_of(member(args, "invoice_ids"@)), key))
    } else {
        Err(
            ApiErrorV {
                status: 404,
                message: "unknown tool '"@ + name + "'"@,
                retry_after_ms: None,
            },
        )
    }
}

fn u64_arg(args: &Json, k: &str) -> (r: Result<u64, ApiError>)
    ensures
        match (r, number_arg(args@, k@)) {
            (Ok(a), Ok(b)) => a == b,
            (Err(e), Err(f)) => e@ == f,
            _ => false,
        },
{
    match as_u64(args.get(k)) {
        Some(n) => Ok(n),
        None => {
            let mut m = owned("missing integer argument '");
            m.push_str(k);
            m.push_str("'");
            Err(ApiError(400, m, None))
        },
    }
}

fn text_arg(args: &Json, k: &str) -> (r: Option<String>)
    ensures
        crate::world::opt_str(r) == str_of(member(args@, k@)),
{
    match as_str(args.get(k)) {
        Some(s) => Some(owned(s)),
        None => None,
    }
}

pub open spec fn call_view(r: Result<Call, ApiError>) -> Result<CallV, ApiErrorV> {
    match r {
        Ok(c) => Ok(c@),
        Err(e) => Err(e@),
    }
}

/// Read what a call asks for.
pub fn read_call(name: &str, args: &Json) -> (r: Result<Call, ApiError>)
    ensures
        call_view(r) == call_of(name@, args@),
{
    let key = text_arg(args, "idempotency_key");
    if same(name, "listCustomers") {
        Ok(Call::ListCustomers(text_arg(args, "name")))
    } else if same(name, "listInvoices") {
        Ok(Call::ListInvoices(as_u64(args.get("customer_id"))))
    } else if same(name, "getInvoice") {
        match u64_arg(args, "id") {
            Ok(id) => Ok(Call::GetInvoice(id)),
            Err(e) => Err(e),
        }
    } else if same(name, "createInvoice") {
        match u64_arg(args, "customer_id") {
            Ok(c) => Ok(Call::CreateInvoice(c, amount(args.get("amount_cents")), key)),
            Err(e) => Err(e),
        }
    } else if same(name, "sendInvoice") {
        match u64_arg(args, "id") {
            Ok(id) => Ok(Call::SendInvoice(id, key)),
            Err(e) => Err(e),
        }
    } else if same(name, "sendReceipt") {
        match u64_arg(args, "id") {
            Ok(id) => Ok(Call::SendReceipt(id, key)),
            Err(e) => Err(e),
        }
    } else if same(name, "createReport") {
        Ok(Call::CreateReport(read_ids(args.get("invoice_ids")), key))
    } else {
        let mut m = owned("unknown tool '");
        m.push_str(name);
        m.push_str("'");
        Err(ApiError(404, m, None))
    }
}

// ---------- doing it ----------

/// A write, as the door sees it.
pub open spec fn passed_on(
    r: (WorldV, Result<WrittenV, crate::domain::DomainErrorV>),
) -> (WorldV, Result<WrittenV, ApiErrorV>) {
    match r {
        (w, Ok(x)) => (w, Ok(x)),
        (w, Err(e)) => (w, Err(refused(e))),
    }
}

/// A read: the value, at once.
pub open spec fn at_once(v: JsonV) -> WrittenV {
    WrittenV { value: v, latency_ms: 0, events: Seq::empty() }
}

/// What a call does and gives. `fails` is what the dice say of a send.
pub open spec fn called(w: WorldV, call: CallV, fails: bool, now: u128) -> (
    WorldV,
    Result<WrittenV, ApiErrorV>,
) {
    match call {
        CallV::ListCustomers(name) => {
            let found = match name {
                Some(n) => named(w.customers, n),
                None => w.customers,
            };
            (w, Ok(at_once(JsonV::List(found.map_values(|c| customer_json(c))))))
        },
        CallV::ListInvoices(c) => (
            w,
            Ok(at_once(JsonV::List(invoices_of(w.invoices, c).map_values(|i| invoice_json(i))))),
        ),
        CallV::GetInvoice(id) => match place_of(w.invoices, id) {
            Some(k) => (w, Ok(at_once(invoice_json(w.invoices[k])))),
            None => (w, Err(refused(crate::domain::DomainErrorV::NotFound("invoice"@, id)))),
        },
        CallV::CreateInvoice(c, a, key) => passed_on(invoice_created(w, "mcp"@, key, c, a, now)),
        CallV::SendInvoice(id, key) => passed_on(invoice_sent(w, "mcp"@, key, id, fails, now)),
        CallV::SendReceipt(id, key) => passed_on(receipt_sent(w, "mcp"@, key, id, now)),
        CallV::CreateReport(ids, key) => passed_on(report_created(w, "mcp"@, key, ids, now)),
    }
}

fn borrowed<'a>(k: &'a Option<String>) -> (r: Option<&'a str>)
    ensures
        crate::invoicing::opt_text(r) == crate::world::opt_str(*k),
{
    match k {
        Some(s) => Some(s.as_str()),
        None => None,
    }
}

fn without_events(v: Json) -> (r: Written)
    ensures
        r@ == at_once(v@),
{
    let events = Vec::new();
    assert(events_view(events@) =~= Seq::<crate::domain::EventV>::empty());
    Written { value: v, latency_ms: 0, events }
}

fn pass_on(r: Result<Written, DomainError>) -> (o: Result<Written, ApiError>)
    ensures
        match (r, o) {
            (Ok(a), Ok(b)) => a@ == b@,
            (Err(e), Err(f)) => f@ == refused(e@),
            _ => false,
        },
{
    match r {
        Ok(x) => Ok(x),
        Err(e) => Err(ApiError::refusal(&e)),
    }
}

pub open spec fn answer_view(r: Result<Written, ApiError>) -> Result<WrittenV, ApiErrorV> {
    match r {
        Ok(x) => Ok(x@),
        Err(e) => Err(e@),
    }
}

impl World {
    /// Whether a call gets as far as the dice.
    pub fn call_draws(&self, call: &Call, now: u128) -> (r: bool)
        requires
            room(self@),
        ensures
            r == (call@ matches CallV::SendInvoice(id, key) && draws(self@, key, id, now)),
    {
        match call {
            Call::SendInvoice(id, key) => self.send_draws(borrowed(key), *id, now),
            _ => false,
        }
    }

    /// Do what a call asks for.
    pub fn call(&mut self, call: &Call, fails: bool, now: u128) -> (r: Result<Written, ApiError>)
        requires
            room(old(self)@),
            call@ matches CallV::CreateReport(ids, _) ==> sums_fit(old(self)@.invoices, ids),
        ensures
            (final(self)@, answer_view(r)) == called(old(self)@, call@, fails, now),
    {
        match call {
            Call::ListCustomers(name) => {
                let found = self.find_customers(borrowed(name));
                let v = show_list(&found);
                assert(v@->List_0 =~= customers_view(found@).map_values(|c| customer_json(c)));
                Ok(without_events(v))
            },
            Call::ListInvoices(c) => {
                let found = self.list_invoices(*c);
                let v = show_list(&found);
                assert(v@->List_0 =~= found@.map_values(|i| invoice_json(i)));
                Ok(without_events(v))
            },
            Call::GetInvoice(id) => match self.invoice(*id) {
                Ok(i) => Ok(without_events(i.to_json())),
                Err(e) => Err(ApiError::refusal(&e)),
            },
            Call::CreateInvoice(c, a, key) => pass_on(
                self.create_invoice("mcp", borrowed(key), *c, *a, now),
            ),
            Call::SendInvoice(id, key) => pass_on(
                self.send_invoice("mcp", borrowed(key), *id, fails, now),
            ),
            Call::SendReceipt(id, key) => pass_on(
                self.send_receipt("mcp", borrowed(key), *id, now),
            ),
            Call::CreateReport(ids, key) => pass_on(
                self.create_report("mcp", borrowed(key), ids, now),
            ),
        }
    }
}

// ---------- answering ----------

/// What a request leads to.
pub enum Turn {
    /// This answer.
    Answer(Json),
    /// Taken note of: nothing to say.
    Accepted,
    /// Do this, and answer under this id.
    Do(Json, Call),
}

pub enum TurnV {
    Answer(JsonV),
    Accepted,
    Do(JsonV, CallV),
}

impl View for Turn {
    type V = TurnV;

    open spec fn view(&self) -> TurnV {
        match self {
            Turn::Answer(v) => TurnV::Answer(v@),
            Turn::Accepted => TurnV::Accepted,
            Turn::Do(id, c) => TurnV::Do(id@, c@),
        }
    }
}

pub open spec fn or_else(v: Option<JsonV>, d: JsonV) -> JsonV {
    match v {
        Some(x) => x,
        None => d,
    }
}

pub open spec fn text_or_empty(v: Option<JsonV>) -> Seq<char> {
    match str_of(v) {
        Some(t) => t,
        None => ""@,
    }
}

/// Who answers.
pub open spec fn hello() -> JsonV {
    JsonV::Obj(
        seq![
            ("capabilities"@, JsonV::Obj(seq![("tools"@, JsonV::Obj(Seq::empty()))])),
            ("protocolVersion"@, JsonV::Str("2025-06-18"@)),
            (
                "serverInfo"@,
                JsonV::Obj(
                    seq![
                        ("name"@, JsonV::Str("chiffon-target-app"@)),
                        ("version"@, JsonV::Str("0.1.0"@)),
                    ],
                ),
            ),
        ],
    )
}

/// The answer to a call that did what it was asked.
pub open spec fn done_json(v: JsonV) -> JsonV {
    JsonV::Obj(
        seq![
            (
                "content"@,
                JsonV::List(
                    seq![
                        JsonV::Obj(
                            seq![
                                ("text"@, JsonV::Str(json_text(v))),
                                ("type"@, JsonV::Str("text"@)),
                            ],
                        ),
                    ],
                ),
            ),
            ("isError"@, JsonV::Bool(false)),
            ("structuredContent"@, v),
        ],
    )
}

/// The answer to a call that failed: its status, and what went wrong.
pub open spec fn failed_json(e: ApiErrorV) -> JsonV {
    JsonV::Obj(
        seq![
            ("_status"@, JsonV::Int(e.status as int)),
            (
                "content"@,
                JsonV::List(
                    seq![
                        JsonV::Obj(
                            seq![
                                (
                                    "text"@,
                                    JsonV::Str(
                                        "error "@ + dec(e.status as nat) + ": "@ + e.message,
                                    ),
                                ),
                                ("type"@, JsonV::Str("text"@)),
                            ],
                        ),
                    ],
                ),
            ),
            ("isError"@, JsonV::Bool(true)),
        ],
    )
}

/// What a request leads to.
pub open spec fn turn_of(req: JsonV) -> TurnV {
    let id = or_else(member(req, "id"@), JsonV::Null);
    let method = text_or_empty(member(req, "method"@));
    if method == "initialize"@ {
        TurnV::Answer(ok_json(id, hello()))
    } else if method == "notifications/initialized"@ || method == "ping"@ {
        if id is Null {
            TurnV::Accepted
        } else {
            TurnV::Answer(ok_json(id, JsonV::Obj(Seq::empty())))
        }
    } else if method == "tools/list"@ {
        TurnV::Answer(ok_json(id, JsonV::Obj(seq![("tools"@, JsonV::List(all_tools()))])))
    } else if method == "tools/call"@ {
        let params = or_else(member(req, "params"@), JsonV::Obj(Seq::empty()));
        let args = or_else(member(params, "arguments"@), JsonV::Obj(Seq::empty()));
        match call_of(text_or_empty(member(params, "name"@)), args) {
            Ok(c) => TurnV::Do(id, c),
            Err(e) => TurnV::Answer(ok_json(id, failed_json(e))),
        }
    } else {
        TurnV::Answer(err_json(id, -32601, "method not found: "@ + method))
    }
}

fn owned_or(v: Option<&Json>, d: Json) -> (r: Json)
    ensures
        r@ == or_else(crate::json::opt_view(v), d@),
{
    match v {
        Some(x) => x.clone(),
        None => d,
    }
}

fn text_or<'a>(v: Option<&'a Json>) -> (r: &'a str)
    ensures
        r@ == text_or_empty(crate::json::opt_view(v)),
{
    match as_str(v) {
        Some(s) => s,
        None => "",
    }
}

fn error_answer(e: &ApiError) -> (r: Json)
    ensures
        r@ == failed_json(e@),
{
    let mut t = owned("error ");
    push_dec(&mut t, e.0 as u128);
    t.push_str(": ");
    t.push_str(e.1.as_str());
    three_entries(
        "_status",
        Json::Int(e.0 as i128),
        "content",
        one_item(two_entries("text", Json::Str(t), "type", text_json("text"))),
        "isError",
        Json::Bool(true),
    )
}

fn nothing() -> (r: Json)
    ensures
        r@ == JsonV::Obj(Seq::empty()),
{
    Json::Obj(no_entries())
}

/// What a request leads to.
pub fn handle(req: &Json) -> (r: Turn)
    ensures
        r@ == turn_of(req@),
{
    let id = owned_or(req.get("id"), Json::Null);
    let method = text_or(req.get("method"));
    if same(method, "initialize") {
        Turn::Answer(
            rpc_ok(
                id,
                three_entries(
                    "capabilities",
                    one_entry("tools", nothing()),
                    "protocolVersion",
                    text_json("2025-06-18"),
                    "serverInfo",
                    two_entries(
                        "name",
                        text_json("chiffon-target-app"),
                        "version",
                        text_json("0.1.0"),
                    ),
                ),
            ),
        )
    } else if same(method, "notifications/initialized") || same(method, "ping") {
        match id {
            Json::Null => Turn::Accepted,
            _ => Turn::Answer(rpc_ok(id, nothing())),
        }
    } else if same(method, "tools/list") {
        Turn::Answer(rpc_ok(id, one_entry("tools", tools())))
    } else if same(method, "tools/call") {
        let params = owned_or(req.get("params"), nothing());
        let args = owned_or(params.get("arguments"), nothing());
        match read_call(text_or(params.get("name")), &args) {
            Ok(c) => Turn::Do(id, c),
            Err(e) => Turn::Answer(rpc_ok(id, error_answer(&e))),
        }
    } else {
        let mut m = owned("method not found: ");
        m.push_str(method);
        Turn::Answer(rpc_err(id, -32601, m))
    }
}

/// The answer to a call once it was done.
pub fn reply(id: Json, r: &Result<Written, ApiError>) -> (o: Json)
    ensures
        o@ == ok_json(
            id@,
            match answer_view(*r) {
                Ok(x) => done_json(x.value),
                Err(e) => failed_json(e),
            },
        ),
{
    match r {
        Ok(x) => {
            let result = three_entries(
                "content",
                one_item(
                    two_entries("text", Json::Str(x.value.to_string()), "type", text_json("text")),
                ),
                "isError",
                Json::Bool(false),
                "structuredContent",
                x.value.clone(),
            );
            rpc_ok(id, result)
        },
        Err(e) => rpc_ok(id, error_answer(e)),
    }
}

/// Every tool that is listed is one that can be called: a call by its name with nothing given is
/// read, or answered with what is missing, never as an unknown tool.
pub proof fn every_tool_is_known(i: int, args: JsonV)
    requires
        0 <= i < all_tools().len(),
    ensures
        str_of(member(all_tools()[i], "name"@)) matches Some(n) && (call_of(n, args) matches Err(e)
            ==> e.status == 400),
{
    reveal_strlit("description");
    reveal_strlit("inputSchema");
    reveal_strlit("name");
    assert("description"@.len() != "name"@.len());
    assert("inputSchema"@.len() != "name"@.len());
    let xs = all_tools()[i]->Obj_0;
    assert(xs.len() == 3);
    assert(xs[2].0 == "name"@);
    reveal_with_fuel(crate::json::entry, 4);
    assert(xs.drop_first().drop_first()[0] == xs[2]);
    assert(xs.drop_first()[0] == xs[1]);
}

} // verus!
