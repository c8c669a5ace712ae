//! The invoicing world. One handler set; every door calls into here.
//!
//! Everything is in memory on purpose: the oracle needs a seeded reset that is instant and exact,
//! and the benchmark never needs durability. The clock and the dice are the caller's.

use crate::json::{list_push, list_view, obj_view, Json, JsonV};
use crate::object::{no_entries, push_entry, text_json, three_entries, two_entries};
use crate::text::{dec, push_dec};
use crate::world::opt_str;
use vstd::prelude::*;

verus! {

// ---------- what is in the world ----------

#[derive(Debug)]
pub struct Customer {
    pub id: u64,
    pub name: String,
    pub email: String,
}

pub struct CustomerV {
    pub id: u64,
    pub name: Seq<char>,
    pub email: Seq<char>,
}

impl View for Customer {
    type V = CustomerV;

    open spec fn view(&self) -> CustomerV {
        CustomerV { id: self.id, name: self.name@, email: self.email@ }
    }
}

impl Clone for Customer {
    fn clone(&self) -> (r: Self)
        ensures
            r@ == self@,
    {
        Customer { id: self.id, name: self.name.clone(), email: self.email.clone() }
    }
}

#[derive(Clone, Copy, Debug, PartialEq, Eq, Structural)]
pub enum InvoiceStatus {
    Draft,
    Sent,
    Paid,
}

#[derive(Clone, Copy, Debug, PartialEq, Eq, Structural)]
pub struct Invoice {
    pub id: u64,
    pub customer_id: u64,
    pub amount_cents: i64,
    pub status: InvoiceStatus,
    pub approved: bool,
    pub receipt_sent: bool,
}

#[derive(Debug)]
pub struct OutboxMessage {
    pub id: u64,
    pub to: String,
    pub subject: String,
    pub kind: String,
    pub invoice_id: u64,
    pub key: Option<String>,
}

pub struct OutboxMessageV {
    pub id: u64,
    pub to: Seq<char>,
    pub subject: Seq<char>,
    pub kind: Seq<char>,
    pub invoice_id: u64,
    pub key: Option<Seq<char>>,
}

impl View for OutboxMessage {
    type V = OutboxMessageV;

    open spec fn view(&self) -> OutboxMessageV {
        OutboxMessageV {
            id: self.id,
            to: self.to@,
            subject: self.subject@,
            kind: self.kind@,
            invoice_id: self.invoice_id,
            key: opt_str(self.key),
        }
    }
}

#[derive(Debug)]
pub struct Report {
    pub id: u64,
    pub invoice_ids: Vec<u64>,
    pub total_cents: i64,
    pub sent_count: usize,
}

pub struct ReportV {
    pub id: u64,
    pub invoice_ids: Seq<u64>,
    pub total_cents: i64,
    pub sent_count: usize,
}

impl View for Report {
    type V = ReportV;

    open spec fn view(&self) -> ReportV {
        ReportV {
            id: self.id,
            invoice_ids: self.invoice_ids@,
            total_cents: self.total_cents,
            sent_count: self.sent_count,
        }
    }
}

#[derive(Clone, Copy, Debug, PartialEq, Eq, Structural)]
pub struct Payment {
    pub id: u64,
    pub invoice_id: u64,
}

/// One row per write attempt. The report counts double-sends here, never from an arm's own word.
#[derive(Debug)]
pub struct Effect {
    pub seq: u64,
    pub at_ms: u128,
    pub op: String,
    pub door: String,
    pub key: Option<String>,
    pub entity: String,
    pub replayed: bool,
}

pub struct EffectV {
    pub seq: u64,
    pub at_ms: u128,
    pub op: Seq<char>,
    pub door: Seq<char>,
    pub key: Option<Seq<char>>,
    pub entity: Seq<char>,
    pub replayed: bool,
}

impl View for Effect {
    type V = EffectV;

    open spec fn view(&self) -> EffectV {
        EffectV {
            seq: self.seq,
            at_ms: self.at_ms,
            op: self.op@,
            door: self.door@,
            key: opt_str(self.key),
            entity: self.entity@,
            replayed: self.replayed,
        }
    }
}

#[derive(Debug)]
pub struct Event {
    pub seq: u64,
    pub at_ms: u128,
    pub kind: String,
    pub entity: String,
    pub id: u64,
    pub data: Json,
}

pub struct EventV {
    pub seq: u64,
    pub at_ms: u128,
    pub kind: Seq<char>,
    pub entity: Seq<char>,
    pub id: u64,
    pub data: JsonV,
}

impl View for Event {
    type V = EventV;

    open spec fn view(&self) -> EventV {
        EventV {
            seq: self.seq,
            at_ms: self.at_ms,
            kind: self.kind@,
            entity: self.entity@,
            id: self.id,
            data: self.data@,
        }
    }
}

impl Clone for Event {
    fn clone(&self) -> (r: Self)
        ensures
            r@ == self@,
    {
        Event {
            seq: self.seq,
            at_ms: self.at_ms,
            kind: self.kind.clone(),
            entity: self.entity.clone(),
            id: self.id,
            data: self.data.clone(),
        }
    }
}

/// What goes wrong on purpose.
#[derive(Clone, Copy, Debug, PartialEq, Eq, Structural)]
pub struct Chaos {
    /// Whether a send may fail after doing nothing. How likely that is, is the caller's dice.
    pub sends_may_fail: bool,
    /// Added to every write, in milliseconds.
    pub latency_ms: u64,
    /// When set, send refuses unless the invoice was approved in the UI.
    pub require_approval: bool,
    /// When set, the UI shows a random modal in front of the invoice list.
    pub ui_modal: bool,
    /// Writes per second before a 429. 0 means unlimited.
    pub rate_limit_per_sec: u32,
}

pub open spec fn calm() -> Chaos {
    Chaos {
        sends_may_fail: false,
        latency_ms: 0,
        require_approval: false,
        ui_modal: false,
        rate_limit_per_sec: 0,
    }
}

impl Default for Chaos {
    fn default() -> (r: Self)
        ensures
            r == calm(),
    {
        Chaos {
            sends_may_fail: false,
            latency_ms: 0,
            require_approval: false,
            ui_modal: false,
            rate_limit_per_sec: 0,
        }
    }
}

// ---------- errors ----------

#[derive(Debug)]
pub enum DomainError {
    NotFound(&'static str, u64),
    NotApproved(u64),
    NotPaid(u64),
    Ambiguous(String, usize),
    ChaosFail,
    RateLimited { retry_after_ms: u64 },
}

pub enum DomainErrorV {
    NotFound(Seq<char>, u64),
    NotApproved(u64),
    NotPaid(u64),
    Ambiguous(Seq<char>, usize),
    ChaosFail,
    RateLimited { retry_after_ms: u64 },
}

impl View for DomainError {
    type V = DomainErrorV;

    open spec fn view(&self) -> DomainErrorV {
        match self {
            DomainError::NotFound(what, id) => DomainErrorV::NotFound(what@, *id),
            DomainError::NotApproved(id) => DomainErrorV::NotApproved(*id),
            DomainError::NotPaid(id) => DomainErrorV::NotPaid(*id),
            DomainError::Ambiguous(n, k) => DomainErrorV::Ambiguous(n@, *k),
            DomainError::ChaosFail => DomainErrorV::ChaosFail,
            DomainError::RateLimited { retry_after_ms } => DomainErrorV::RateLimited {
                retry_after_ms: *retry_after_ms,
            },
        }
    }
}

pub open spec fn error_status(e: DomainErrorV) -> u16 {
    match e {
        DomainErrorV::NotFound(_, _) => 404,
        DomainErrorV::NotApproved(_) => 409,
        DomainErrorV::NotPaid(_) => 409,
        DomainErrorV::Ambiguous(_, _) => 409,
        DomainErrorV::ChaosFail => 500,
        DomainErrorV::RateLimited { .. } => 429,
    }
}

pub open spec fn error_message(e: DomainErrorV) -> Seq<char> {
    match e {
        DomainErrorV::NotFound(what, id) => what + " "@ + dec(id as nat) + " not found"@,
        DomainErrorV::NotApproved(id) => "invoice "@ + dec(id as nat)
            + " is not approved; approval is UI-only"@,
        DomainErrorV::NotPaid(id) => "invoice "@ + dec(id as nat) + " has no payment yet"@,
        DomainErrorV::Ambiguous(name, n) => dec(n as nat) + " customers match '"@ + name + "'"@,
        DomainErrorV::ChaosFail => "chaos: send failed before doing anything"@,
        DomainErrorV::RateLimited { retry_after_ms } => "chaos: rate limited, retry after "@ + dec(
            retry_after_ms as nat,
        ) + " ms"@,
    }
}

impl DomainError {
    /// How long a caller should wait before trying again, when the server knows.
    pub fn retry_after_ms(&self) -> (r: Option<u64>)
        ensures
            r == (match self@ {
                DomainErrorV::RateLimited { retry_after_ms } => Some(retry_after_ms),
                _ => None,
            }),
    {
        match self {
            DomainError::RateLimited { retry_after_ms } => Some(*retry_after_ms),
            _ => None,
        }
    }

    pub fn status(&self) -> (r: u16)
        ensures
            r == error_status(self@),
    {
        match self {
            DomainError::NotFound(_, _) => 404,
            DomainError::NotApproved(_) => 409,
            DomainError::NotPaid(_) => 409,
            DomainError::Ambiguous(_, _) => 409,
            DomainError::ChaosFail => 500,
            DomainError::RateLimited { .. } => 429,
        }
    }

    pub fn message(&self) -> (r: String)
        ensures
            r@ == error_message(self@),
    {
        let mut m = String::new();
        match self {
            DomainError::NotFound(what, id) => {
                m.push_str(what);
                m.push_str(" ");
                push_dec(&mut m, *id as u128);
                m.push_str(" not found");
            },
            DomainError::NotApproved(id) => {
                m.push_str("invoice ");
                push_dec(&mut m, *id as u128);
                m.push_str(" is not approved; approval is UI-only");
            },
            DomainError::NotPaid(id) => {
                m.push_str("invoice ");
                push_dec(&mut m, *id as u128);
                m.push_str(" has no payment yet");
            },
            DomainError::Ambiguous(name, n) => {
                push_dec(&mut m, *n as u128);
                m.push_str(" customers match '");
                m.push_str(name.as_str());
                m.push_str("'");
            },
            DomainError::ChaosFail => {
                m.push_str("chaos: send failed before doing anything");
            },
            DomainError::RateLimited { retry_after_ms } => {
                m.push_str("chaos: rate limited, retry after ");
                push_dec(&mut m, *retry_after_ms as u128);
                m.push_str(" ms");
            },
        }
        assert(m@ =~= error_message(self@));
        m
    }
}

// ---------- JSON ----------

pub open spec fn customer_json(c: CustomerV) -> JsonV {
    JsonV::Obj(
        seq![
            ("email"@, JsonV::Str(c.email)),
            ("id"@, JsonV::Int(c.id as int)),
            ("name"@, JsonV::Str(c.name)),
        ],
    )
}

pub open spec fn status_name(s: InvoiceStatus) -> Seq<char> {
    match s {
        InvoiceStatus::Draft => "draft"@,
        InvoiceStatus::Sent => "sent"@,
        InvoiceStatus::Paid => "paid"@,
    }
}

pub open spec fn invoice_json(i: Invoice) -> JsonV {
    JsonV::Obj(
        seq![
            ("amount_cents"@, JsonV::Int(i.amount_cents as int)),
            ("approved"@, JsonV::Bool(i.approved)),
            ("customer_id"@, JsonV::Int(i.customer_id as int)),
            ("id"@, JsonV::Int(i.id as int)),
            ("receipt_sent"@, JsonV::Bool(i.receipt_sent)),
            ("status"@, JsonV::Str(status_name(i.status))),
        ],
    )
}

pub open spec fn ids_json(ids: Seq<u64>) -> JsonV {
    JsonV::List(ids.map_values(|i: u64| JsonV::Int(i as int)))
}

pub open spec fn report_json(r: ReportV) -> JsonV {
    JsonV::Obj(
        seq![
            ("id"@, JsonV::Int(r.id as int)),
            ("invoice_ids"@, ids_json(r.invoice_ids)),
            ("sent_count"@, JsonV::Int(r.sent_count as int)),
            ("total_cents"@, JsonV::Int(r.total_cents as int)),
        ],
    )
}

pub open spec fn payment_json(p: Payment) -> JsonV {
    JsonV::Obj(
        seq![
            ("id"@, JsonV::Int(p.id as int)),
            ("invoice_id"@, JsonV::Int(p.invoice_id as int)),
        ],
    )
}

pub open spec fn event_json(e: EventV) -> JsonV {
    JsonV::Obj(
        seq![
            ("at_ms"@, JsonV::Int(e.at_ms as int)),
            ("data"@, e.data),
            ("entity"@, JsonV::Str(e.entity)),
            ("id"@, JsonV::Int(e.id as int)),
            ("kind"@, JsonV::Str(e.kind)),
            ("seq"@, JsonV::Int(e.seq as int)),
        ],
    )
}

impl Customer {
    pub fn to_json(&self) -> (r: Json)
        ensures
            r@ == customer_json(self@),
    {
        three_entries(
            "email",
            Json::Str(self.email.clone()),
            "id",
            Json::Int(self.id as i128),
            "name",
            Json::Str(self.name.clone()),
        )
    }
}

fn status_text(s: InvoiceStatus) -> (r: &'static str)
    ensures
        r@ == status_name(s),
{
    match s {
        InvoiceStatus::Draft => "draft",
        InvoiceStatus::Sent => "sent",
        InvoiceStatus::Paid => "paid",
    }
}

impl Invoice {
    pub fn to_json(&self) -> (r: Json)
        ensures
            r@ == invoice_json(*self),
    {
        let mut o = no_entries();
        push_entry(&mut o, "amount_cents", Json::Int(self.amount_cents as i128));
        push_entry(&mut o, "approved", Json::Bool(self.approved));
        push_entry(&mut o, "customer_id", Json::Int(self.customer_id as i128));
        push_entry(&mut o, "id", Json::Int(self.id as i128));
        push_entry(&mut o, "receipt_sent", Json::Bool(self.receipt_sent));
        push_entry(&mut o, "status", text_json(status_text(self.status)));
        let r = Json::Obj(o);
        assert(obj_view(o@) =~= invoice_json(*self)->Obj_0);
        r
    }
}

impl Report {
    pub fn to_json(&self) -> (r: Json)
        ensures
            r@ == report_json(self@),
    {
        let ghost all = self.invoice_ids@.map_values(|i: u64| JsonV::Int(i as int));
        let mut ids: Vec<Json> = Vec::new();
        let mut i: usize = 0;
        assert(list_view(ids@) =~= all.take(0));
        while i < self.invoice_ids.len()
            invariant
                i <= self.invoice_ids@.len() == all.len(),
                all == self.invoice_ids@.map_values(|i: u64| JsonV::Int(i as int)),
                list_view(ids@) == all.take(i as int),
            decreases self.invoice_ids@.len() - i,
        {
            let x = Json::Int(self.invoice_ids[i] as i128);
            proof {
                list_push(ids@, x);
            }
            ids.push(x);
            assert(all[i as int] == JsonV::Int(self.invoice_ids@[i as int] as int));
            i += 1;
            assert(list_view(ids@) =~= all.take(i as int));
        }
        assert(all.take(i as int) =~= all);
        let mut o = no_entries();
        push_entry(&mut o, "id", Json::Int(self.id as i128));
        push_entry(&mut o, "invoice_ids", Json::List(ids));
        push_entry(&mut o, "sent_count", Json::Int(self.sent_count as i128));
        push_entry(&mut o, "total_cents", Json::Int(self.total_cents as i128));
        let r = Json::Obj(o);
        assert(obj_view(o@) =~= report_json(self@)->Obj_0);
        r
    }
}

impl Payment {
    pub fn to_json(&self) -> (r: Json)
        ensures
            r@ == payment_json(*self),
    {
        two_entries(
            "id",
            Json::Int(self.id as i128),
            "invoice_id",
            Json::Int(self.invoice_id as i128),
        )
    }
}

impl Event {
    /// The event as it goes out on the stream.
    pub fn to_json(&self) -> (r: Json)
        requires
            self.at_ms <= i128::MAX,
        ensures
            r@ == event_json(self@),
    {
        let mut o = no_entries();
        push_entry(&mut o, "at_ms", Json::Int(self.at_ms as i128));
        push_entry(&mut o, "data", self.data.clone());
        push_entry(&mut o, "entity", Json::Str(self.entity.clone()));
        push_entry(&mut o, "id", Json::Int(self.id as i128));
        push_entry(&mut o, "kind", Json::Str(self.kind.clone()));
        push_entry(&mut o, "seq", Json::Int(self.seq as i128));
        let r = Json::Obj(o);
        assert(obj_view(o@) =~= event_json(self@)->Obj_0);
        r
    }
}

} // verus!
