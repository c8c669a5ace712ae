//! The script ceiling: a parallel program without a model, one lane for each customer.

use crate::cut::starts_with;
use crate::effect::passing;
use crate::json::{
    as_list, as_str, as_u64, list_of, list_push, list_view, member, str_of, u64_of, Json, JsonV,
};
use crate::ledger::{Ledger, LedgerV, Row, RowV, Status};
use crate::loops::{asked, committed, failed, Ending, EndingV};
use crate::object::{one_entry, two_entries};
use crate::tasks::ScriptSpec;
use crate::text::{dec, owned, push_dec, same};
use crate::world::{clone_opt, opt_str};
use vstd::prelude::*;

verus! {

// ---------- calls ----------

/// One call of the script.
#[derive(Debug)]
pub struct ScriptCall {
    pub op: String,
    /// Whether something is posted, or only read.
    pub post: bool,
    pub path: String,
    pub body: Option<Json>,
    pub key: Option<String>,
}

pub struct ScriptCallV {
    pub op: Seq<char>,
    pub post: bool,
    pub path: Seq<char>,
    pub body: Option<JsonV>,
    pub key: Option<Seq<char>>,
}

pub open spec fn body_view(b: Option<Json>) -> Option<JsonV> {
    match b {
        Some(v) => Some(v@),
        None => None,
    }
}

impl View for ScriptCall {
    type V = ScriptCallV;

    open spec fn view(&self) -> ScriptCallV {
        ScriptCallV {
            op: self.op@,
            post: self.post,
            path: self.path@,
            body: body_view(self.body),
            key: opt_str(self.key),
        }
    }
}

/// What came back: a status and a body, or why nothing did.
pub enum Answer {
    Status(u16, Json),
    Nothing(String),
}

pub enum AnswerV {
    Status(u16, JsonV),
    Nothing(Seq<char>),
}

impl View for Answer {
    type V = AnswerV;

    open spec fn view(&self) -> AnswerV {
        match self {
            Answer::Status(s, v) => AnswerV::Status(*s, v@),
            Answer::Nothing(e) => AnswerV::Nothing(e@),
        }
    }
}

pub open spec fn is_ok(a: AnswerV) -> bool {
    a matches AnswerV::Status(s, _) && 200 <= s < 300
}

/// What went wrong, in words.
pub open spec fn error_of(a: AnswerV) -> Option<Seq<char>> {
    match a {
        AnswerV::Status(s, v) => if 200 <= s < 300 {
            None
        } else {
            Some(
                dec(s as nat) + " "@ + (match str_of(member(v, "error"@)) {
                    Some(e) => e,
                    None => ""@,
                }),
            )
        },
        AnswerV::Nothing(e) => Some(e),
    }
}

pub open spec fn observed_of(a: AnswerV) -> JsonV {
    match a {
        AnswerV::Status(_, v) => v,
        AnswerV::Nothing(_) => JsonV::Null,
    }
}

/// The row that is kept of an attempt.
pub open spec fn attempt_row(
    node: Seq<char>,
    call: ScriptCallV,
    attempt: u32,
    started_us: u128,
    ended_us: u128,
    a: AnswerV,
) -> RowV {
    RowV {
        node,
        op: call.op,
        surface: "api"@,
        key: call.key,
        attempt,
        started_us,
        ended_us,
        ok: is_ok(a),
        write: call.post,
        error: error_of(a),
        observed: observed_of(a),
    }
}

fn words_of(a: &Answer) -> (r: Option<String>)
    ensures
        opt_str(r) == error_of(a@),
{
    match a {
        Answer::Status(s, v) => if 200 <= *s && *s < 300 {
            None
        } else {
            let mut t = String::new();
            push_dec(&mut t, *s as u128);
            t.push_str(" ");
            let e = match as_str(v.get("error")) {
                Some(e) => e,
                None => "",
            };
            t.push_str(e);
            assert(t@ =~= error_of(a@)->0);
            Some(t)
        },
        Answer::Nothing(e) => Some(e.clone()),
    }
}

/// The row that is kept of an attempt.
pub fn row_for(
    node: &str,
    call: &ScriptCall,
    attempt: u32,
    started_us: u128,
    ended_us: u128,
    a: &Answer,
) -> (r: Row)
    ensures
        r@ == attempt_row(node@, call@, attempt, started_us, ended_us, a@),
{
    let (ok, observed) = match a {
        Answer::Status(s, v) => (200 <= *s && *s < 300, v.clone()),
        Answer::Nothing(_) => (false, Json::Null),
    };
    Row {
        node: owned(node),
        op: call.op.clone(),
        surface: owned("api"),
        key: clone_opt(&call.key),
        attempt,
        started_us,
        ended_us,
        ok,
        write: call.post,
        error: words_of(a),
        observed,
    }
}

/// What follows an attempt.
pub enum Then {
    Good(Json),
    /// Try again after so many milliseconds.
    Again(u64),
    Bad(String),
}

pub enum ThenV {
    Good(JsonV),
    Again(u64),
    Bad(Seq<char>),
}

impl View for Then {
    type V = ThenV;

    open spec fn view(&self) -> ThenV {
        match self {
            Then::Good(v) => ThenV::Good(v@),
            Then::Again(ms) => ThenV::Again(*ms),
            Then::Bad(e) => ThenV::Bad(e@),
        }
    }
}

/// The wait before the next attempt: twice as long each time.
pub open spec fn wait_after(attempt: u32) -> u64 {
    if attempt <= 1 {
        40
    } else if attempt == 2 {
        80
    } else {
        160
    }
}

/// What follows an attempt: a passing failure is tried again, four times in all.
pub open spec fn then_of(attempt: u32, a: AnswerV) -> ThenV {
    match a {
        AnswerV::Status(s, v) => if is_ok(a) {
            ThenV::Good(v)
        } else if passing(s) && attempt < 4 {
            ThenV::Again(wait_after(attempt))
        } else {
            ThenV::Bad(error_of(a)->0)
        },
        AnswerV::Nothing(e) => if attempt < 4 {
            ThenV::Again(40)
        } else {
            ThenV::Bad(e)
        },
    }
}

/// What follows an attempt.
pub fn after_call(attempt: u32, a: &Answer) -> (r: Then)
    ensures
        r@ == then_of(attempt, a@),
{
    match a {
        Answer::Status(s, v) => {
            if 200 <= *s && *s < 300 {
                return Then::Good(v.clone());
            }
            if (*s == 429 || *s >= 500) && attempt < 4 {
                return Then::Again(
                    if attempt <= 1 {
                        40
                    } else if attempt == 2 {
                        80
                    } else {
                        160
                    },
                );
            }
            match words_of(a) {
                Some(e) => Then::Bad(e),
                None => Then::Bad(String::new()),
            }
        },
        Answer::Nothing(e) => if attempt < 4 {
            Then::Again(40)
        } else {
            Then::Bad(e.clone())
        },
    }
}

/// A call of the script is tried four times at most.
pub proof fn calls_end(attempt: u32, a: AnswerV)
    ensures
        then_of(attempt, a) is Again ==> attempt < 4 && !is_ok(a),
        is_ok(a) ==> then_of(attempt, a) == ThenV::Good(observed_of(a)),
{
}

// ---------- lanes ----------

/// Where a lane stands.
#[derive(Clone, Copy, Debug, PartialEq, Eq, Structural)]
pub enum Stage {
    /// Looking the customer up.
    Find,
    /// Creating the invoice of this customer.
    Create(u64),
    /// Sending this invoice.
    Send(u64),
    /// Waiting until this invoice is paid.
    Poll(u64),
    /// Sending the receipt for this invoice.
    Receipt(u64),
    /// Reporting on this invoice.
    Report(u64),
    /// Through with this invoice.
    Finished(u64),
}

pub open spec fn after_receipt(s: ScriptSpec, id: u64) -> Stage {
    if s.report_each {
        Stage::Report(id)
    } else {
        Stage::Finished(id)
    }
}

pub open spec fn after_paid(s: ScriptSpec, id: u64) -> Stage {
    if s.receipt {
        Stage::Receipt(id)
    } else {
        after_receipt(s, id)
    }
}

pub open spec fn after_send(s: ScriptSpec, id: u64) -> Stage {
    if s.wait_paid {
        Stage::Poll(id)
    } else {
        after_paid(s, id)
    }
}

pub open spec fn after_create(s: ScriptSpec, id: u64) -> Stage {
    if s.send {
        Stage::Send(id)
    } else {
        after_send(s, id)
    }
}

/// The path of an invoice.
pub open spec fn invoice_path(id: u64) -> Seq<char> {
    "/api/invoices/"@ + dec(id as nat)
}

/// The key of a step of a lane.
pub open spec fn step_key(prefix: Seq<char>, name: Seq<char>, step: Seq<char>) -> Seq<char> {
    prefix + "/"@ + name + "/"@ + step
}

/// A report over some invoices.
pub open spec fn report_call(ids: Seq<u64>, key: Seq<char>) -> ScriptCallV {
    ScriptCallV {
        op: "createReport"@,
        post: true,
        path: "/api/reports"@,
        body: Some(
            JsonV::Obj(
                seq![("invoice_ids"@, JsonV::List(ids.map_values(|i: u64| JsonV::Int(i as int))))],
            ),
        ),
        key: Some(key),
    }
}

/// The call that a stage makes; none when the lane is through.
pub open spec fn call_at(name: Seq<char>, prefix: Seq<char>, stage: Stage) -> Option<ScriptCallV> {
    match stage {
        Stage::Find => Some(
            ScriptCallV {
                op: "listCustomers"@,
                post: false,
                path: "/api/customers?name="@ + name,
                body: None,
                key: None,
            },
        ),
        Stage::Create(c) => Some(
            ScriptCallV {
                op: "createInvoice"@,
                post: true,
                path: "/api/invoices"@,
                body: Some(
                    JsonV::Obj(
                        seq![
                            ("amount_cents"@, JsonV::Int(10000)),
                            ("customer_id"@, JsonV::Int(c as int)),
                        ],
                    ),
                ),
                key: Some(step_key(prefix, name, "create"@)),
            },
        ),
        Stage::Send(id) => Some(
            ScriptCallV {
                op: "sendInvoice"@,
                post: true,
                path: invoice_path(id) + "/send"@,
                body: None,
                key: Some(step_key(prefix, name, "send"@)),
            },
        ),
        Stage::Poll(id) => Some(
            ScriptCallV {
                op: "getInvoice"@,
                post: false,
                path: invoice_path(id),
                body: None,
                key: None,
            },
        ),
        Stage::Receipt(id) => Some(
            ScriptCallV {
                op: "sendReceipt"@,
                post: true,
                path: invoice_path(id) + "/receipt"@,
                body: None,
                key: Some(step_key(prefix, name, "receipt"@)),
            },
        ),
        Stage::Report(id) => Some(report_call(seq![id], step_key(prefix, name, "report"@))),
        Stage::Finished(_) => None,
    }
}

/// The id that a reply carries.
pub open spec fn id_of(v: JsonV) -> Result<u64, Seq<char>> {
    match u64_of(member(v, "id"@)) {
        Some(id) => Ok(id),
        None => Err("no id in the reply"@),
    }
}

/// Where a lane stands after a reply. Unless a name is that of one customer, it is not for the
/// script to choose.
pub open spec fn stage_after(
    s: ScriptSpec,
    name: Seq<char>,
    stage: Stage,
    v: JsonV,
) -> Result<Stage, Seq<char>> {
    match stage {
        Stage::Find => {
            let found = match list_of(Some(v)) {
                Some(xs) => xs,
                None => Seq::empty(),
            };
            if found.len() != 1 {
                Err("fork:"@ + dec(found.len()) + " customers named "@ + name)
            } else {
                match id_of(found[0]) {
                    Ok(c) => Ok(Stage::Create(c)),
                    Err(e) => Err(e),
                }
            }
        },
        Stage::Create(_) => match id_of(v) {
            Ok(id) => Ok(after_create(s, id)),
            Err(e) => Err(e),
        },
        Stage::Send(id) => Ok(after_send(s, id)),
        Stage::Poll(id) => if str_of(member(v, "status"@)) == Some("paid"@) {
            Ok(after_paid(s, id))
        } else {
            Ok(Stage::Poll(id))
        },
        Stage::Receipt(id) => Ok(after_receipt(s, id)),
        Stage::Report(id) => Ok(Stage::Finished(id)),
        Stage::Finished(id) => Ok(Stage::Finished(id)),
    }
}

fn key_for(prefix: &str, name: &str, step: &str) -> (r: Option<String>)
    ensures
        opt_str(r) == Some(step_key(prefix@, name@, step@)),
{
    let mut t = owned(prefix);
    t.push_str("/");
    t.push_str(name);
    t.push_str("/");
    t.push_str(step);
    Some(t)
}

fn path_of(id: u64) -> (r: String)
    ensures
        r@ == invoice_path(id),
{
    let mut t = owned("/api/invoices/");
    push_dec(&mut t, id as u128);
    t
}

/// A report over some invoices.
pub fn report_over(ids: &Vec<u64>, key: String) -> (r: ScriptCall)
    ensures
        r@ == report_call(ids@, key@),
{
    let ghost all = ids@.map_values(|i: u64| JsonV::Int(i as int));
    let mut list: Vec<Json> = Vec::new();
    let mut i: usize = 0;
    assert(list_view(list@) =~= all.take(0));
    while i < ids.len()
        invariant
            i <= ids@.len() == all.len(),
            all == ids@.map_values(|i: u64| JsonV::Int(i as int)),
            list_view(list@) == all.take(i as int),
        decreases ids@.len() - i,
    {
        let x = Json::Int(ids[i] as i128);
        proof {
            list_push(list@, x);
            assert(all[i as int] == JsonV::Int(ids@[i as int] as int));
        }
        list.push(x);
        i += 1;
        assert(list_view(list@) =~= all.take(i as int));
    }
    assert(all.take(i as int) =~= all);
    ScriptCall {
        op: owned("createReport"),
        post: true,
        path: owned("/api/reports"),
        body: Some(one_entry("invoice_ids", Json::List(list))),
        key: Some(key),
    }
}

/// The call that a stage makes; none when the lane is through.
pub fn next_call(name: &str, prefix: &str, stage: Stage) -> (r: Option<ScriptCall>)
    ensures
        match r {
            Some(c) => call_at(name@, prefix@, stage) == Some(c@),
            None => call_at(name@, prefix@, stage) is None,
        },
{
    match stage {
        Stage::Find => {
            let mut path = owned("/api/customers?name=");
            path.push_str(name);
            Some(
                ScriptCall { op: owned("listCustomers"), post: false, path, body: None, key: None },
            )
        },
        Stage::Create(c) => Some(
            ScriptCall {
                op: owned("createInvoice"),
                post: true,
                path: owned("/api/invoices"),
                body: Some(
                    two_entries(
                        "amount_cents",
                        Json::Int(10000),
                        "customer_id",
                        Json::Int(c as i128),
                    ),
                ),
                key: key_for(prefix, name, "create"),
            },
        ),
        Stage::Send(id) => {
            let mut path = path_of(id);
            path.push_str("/send");
            Some(
                ScriptCall {
                    op: owned("sendInvoice"),
                    post: true,
                    path,
                    body: None,
                    key: key_for(prefix, name, "send"),
                },
            )
        },
        Stage::Poll(id) => Some(
            ScriptCall {
                op: owned("getInvoice"),
                post: false,
                path: path_of(id),
                body: None,
                key: None,
            },
        ),
        Stage::Receipt(id) => {
            let mut path = path_of(id);
            path.push_str("/receipt");
            Some(
                ScriptCall {
                    op: owned("sendReceipt"),
                    post: true,
                    path,
                    body: None,
                    key: key_for(prefix, name, "receipt"),
                },
            )
        },
        Stage::Report(id) => {
            let mut ids: Vec<u64> = Vec::new();
            ids.push(id);
            assert(ids@ =~= seq![id]);
            let key = match key_for(prefix, name, "report") {
                Some(k) => k,
                None => String::new(),
            };
            Some(report_over(&ids, key))
        },
        Stage::Finished(_) => None,
    }
}

fn read_id(v: &Json) -> (r: Result<u64, String>)
    ensures
        match (r, id_of(v@)) {
            (Ok(a), Ok(b)) => a == b,
            (Err(a), Err(b)) => a@ == b,
            _ => false,
        },
{
    match as_u64(v.get("id")) {
        Some(id) => Ok(id),
        None => Err(owned("no id in the reply")),
    }
}

pub open spec fn stage_view(r: Result<Stage, String>) -> Result<Stage, Seq<char>> {
    match r {
        Ok(s) => Ok(s),
        Err(e) => Err(e@),
    }
}

fn past_receipt(s: &ScriptSpec, id: u64) -> (r: Stage)
    ensures
        r == after_receipt(*s, id),
{
    if s.report_each {
        Stage::Report(id)
    } else {
        Stage::Finished(id)
    }
}

fn past_paid(s: &ScriptSpec, id: u64) -> (r: Stage)
    ensures
        r == after_paid(*s, id),
{
    if s.receipt {
        Stage::Receipt(id)
    } else {
        past_receipt(s, id)
    }
}

fn past_send(s: &ScriptSpec, id: u64) -> (r: Stage)
    ensures
        r == after_send(*s, id),
{
    if s.wait_paid {
        Stage::Poll(id)
    } else {
        past_paid(s, id)
    }
}

/// Where a lane stands after a reply.
pub fn advance(s: &ScriptSpec, name: &str, stage: Stage, v: &Json) -> (r: Result<Stage, String>)
    ensures
        stage_view(r) == stage_after(*s, name@, stage, v@),
{
    match stage {
        Stage::Find => {
            let none: Vec<Json> = Vec::new();
            assert(list_view(none@) =~= Seq::<JsonV>::empty());
            let found: &Vec<Json> = match as_list(Some(v)) {
                Some(xs) => xs,
                None => &none,
            };
            assert(list_view(found@).len() == found@.len());
            if found.len() != 1 {
                let mut e = owned("fork:");
                push_dec(&mut e, found.len() as u128);
                e.push_str(" customers named ");
                e.push_str(name);
                return Err(e);
            }
            assert(list_view(found@)[0] == found@[0]@);
            match read_id(&found[0]) {
                Ok(c) => Ok(Stage::Create(c)),
                Err(e) => Err(e),
            }
        },
        Stage::Create(_) => match read_id(v) {
            Ok(id) => Ok(
                if s.send {
                    Stage::Send(id)
                } else {
                    past_send(s, id)
                },
            ),
            Err(e) => Err(e),
        },
        Stage::Send(id) => Ok(past_send(s, id)),
        Stage::Poll(id) => {
            let paid = match as_str(v.get("status")) {
                Some(t) => same(t, "paid"),
                None => false,
            };
            if paid {
                Ok(past_paid(s, id))
            } else {
                Ok(Stage::Poll(id))
            }
        },
        Stage::Receipt(id) => Ok(past_receipt(s, id)),
        Stage::Report(id) => Ok(Stage::Finished(id)),
        Stage::Finished(id) => Ok(Stage::Finished(id)),
    }
}

/// How far along a lane is.
pub open spec fn progress(stage: Stage) -> int {
    match stage {
        Stage::Find => 0,
        Stage::Create(_) => 1,
        Stage::Send(_) => 2,
        Stage::Poll(_) => 3,
        Stage::Receipt(_) => 4,
        Stage::Report(_) => 5,
        Stage::Finished(_) => 6,
    }
}

/// A lane only moves on, and it stands still only where it waits for a payment or is through: no
/// write is made twice.
pub proof fn lanes_move_on(s: ScriptSpec, name: Seq<char>, stage: Stage, v: JsonV)
    ensures
        stage_after(s, name, stage, v) matches Ok(t) ==> progress(t) > progress(stage) || (t
            == stage && (stage is Poll || stage is Finished)),
{
}

/// A lane does what the script says and nothing else: it sends, waits, sends a receipt and
/// reports only where that is declared.
pub proof fn lanes_do_what_is_declared(s: ScriptSpec, name: Seq<char>, stage: Stage, v: JsonV)
    requires
        stage is Send ==> s.send,
        stage is Poll ==> s.wait_paid,
        stage is Receipt ==> s.receipt,
        stage is Report ==> s.report_each,
    ensures
        stage_after(s, name, stage, v) matches Ok(t) ==> {
            &&& t is Send ==> s.send
            &&& t is Poll ==> s.wait_paid
            &&& t is Receipt ==> s.receipt
            &&& t is Report ==> s.report_each
        },
{
}

// ---------- the end ----------

/// How a script ended: a name that is not that of one customer is a question, any other error
/// an error.
pub open spec fn script_ending(error: Option<Seq<char>>) -> EndingV {
    match error {
        None => committed(),
        Some(e) => if crate::cut::without_prefix(e, "fork:"@) is Some {
            asked(e)
        } else {
            failed(e)
        },
    }
}

/// How a script ended. A question is written down.
pub fn end_script(error: Option<String>, ledger: &mut Ledger) -> (r: Ending)
    ensures
        r@ == script_ending(opt_str(error)),
        final(ledger)@ == (match r@.yield_reason {
            Some(e) => LedgerV {
                forks: old(ledger)@.forks.push(JsonV::Obj(seq![("reason"@, JsonV::Str(e))])),
                ..old(ledger)@
            },
            None => old(ledger)@,
        }),
{
    match error {
        None => Ending::committed(),
        Some(e) => {
            if starts_with(e.as_str(), "fork:") {
                let v = one_entry("reason", Json::Str(e.clone()));
                proof {
                    list_push(ledger.forks@, v);
                }
                ledger.forks.push(v);
                Ending::asked(e)
            } else {
                Ending::failed(e)
            }
        },
    }
}

/// What is said of a task without a script.
pub fn no_script(task: &str) -> (r: String)
    ensures
        r@ == "no script for "@ + task@,
{
    let mut t = owned("no script for ");
    t.push_str(task);
    t
}

} // verus!
