//! What the doors of the invoicing app answer.

use crate::domain::{
    customer_json, error_message, error_status, invoice_json, payment_json, report_json, Customer,
    DomainError, DomainErrorV, Effect, EffectV, Invoice, OutboxMessage, OutboxMessageV, Payment,
    Report, ReportV,
};
use crate::invoicing::{World, WorldV};
use crate::json::{list_push, list_view, obj_view, Json, JsonV};
use crate::object::{no_entries, push_entry, three_entries, two_entries};
use crate::text::owned;
use crate::writes::repeat_count;
use vstd::prelude::*;

verus! {

/// A request that failed: the status, what went wrong, and when to come back if that is known.
#[derive(Debug)]
pub struct ApiError(pub u16, pub String, pub Option<u64>);

pub struct ApiErrorV {
    pub status: u16,
    pub message: Seq<char>,
    pub retry_after_ms: Option<u64>,
}

impl View for ApiError {
    type V = ApiErrorV;

    open spec fn view(&self) -> ApiErrorV {
        ApiErrorV { status: self.0, message: self.1@, retry_after_ms: self.2 }
    }
}

pub open spec fn retry_of(e: DomainErrorV) -> Option<u64> {
    match e {
        DomainErrorV::RateLimited { retry_after_ms } => Some(retry_after_ms),
        _ => None,
    }
}

/// A refusal of the world as a failed request.
pub open spec fn refused(e: DomainErrorV) -> ApiErrorV {
    ApiErrorV { status: error_status(e), message: error_message(e), retry_after_ms: retry_of(e) }
}

/// The body of a failed request.
pub open spec fn error_json(e: ApiErrorV) -> JsonV {
    match e.retry_after_ms {
        Some(ms) => JsonV::Obj(
            seq![
                ("error"@, JsonV::Str(e.message)),
                ("retry_after_ms"@, JsonV::Int(ms as int)),
                ("status"@, JsonV::Int(e.status as int)),
            ],
        ),
        None => JsonV::Obj(
            seq![
                ("error"@, JsonV::Str(e.message)),
                ("status"@, JsonV::Int(e.status as int)),
            ],
        ),
    }
}

impl ApiError {
    pub fn refusal(e: &DomainError) -> (r: ApiError)
        ensures
            r@ == refused(e@),
    {
        ApiError(e.status(), e.message(), e.retry_after_ms())
    }

    pub fn new(status: u16, message: &str) -> (r: ApiError)
        ensures
            r@ == (ApiErrorV { status, message: message@, retry_after_ms: None }),
    {
        ApiError(status, owned(message), None)
    }

    pub fn body(&self) -> (r: Json)
        ensures
            r@ == error_json(self@),
    {
        match self.2 {
            Some(ms) => three_entries(
                "error",
                Json::Str(self.1.clone()),
                "retry_after_ms",
                Json::Int(ms as i128),
                "status",
                Json::Int(self.0 as i128),
            ),
            None => two_entries(
                "error",
                Json::Str(self.1.clone()),
                "status",
                Json::Int(self.0 as i128),
            ),
        }
    }
}

/// Approve has no API. Without the page's header it is refused.
pub fn page_only(header: bool) -> (r: Option<ApiError>)
    ensures
        match r {
            Some(e) => !header && e@ == (ApiErrorV {
                status: 403,
                message: "approve is UI-only; use the page"@,
                retry_after_ms: None,
            }),
            None => header,
        },
{
    if header {
        None
    } else {
        Some(ApiError::new(403, "approve is UI-only; use the page"))
    }
}

/// The door that a request names, or the API.
pub fn door_of<'a>(header: Option<&'a str>) -> (r: &'a str)
    ensures
        r@ == (match header {
            Some(d) => d@,
            None => "api"@,
        }),
{
    match header {
        Some(d) => d,
        None => "api",
    }
}

// ---------- values that are shown ----------

/// What is shown as JSON.
pub trait Shown: Sized {
    /// Whether its numbers can be shown.
    spec fn fits(&self) -> bool;

    spec fn shown(&self) -> JsonV;

    fn show(&self) -> (r: Json)
        requires
            self.fits(),
        ensures
            r@ == self.shown(),
    ;
}

impl Shown for Customer {
    open spec fn fits(&self) -> bool {
        true
    }

    open spec fn shown(&self) -> JsonV {
        customer_json(self@)
    }

    fn show(&self) -> (r: Json) {
        self.to_json()
    }
}

impl Shown for Invoice {
    open spec fn fits(&self) -> bool {
        true
    }

    open spec fn shown(&self) -> JsonV {
        invoice_json(*self)
    }

    fn show(&self) -> (r: Json) {
        self.to_json()
    }
}

impl Shown for Report {
    open spec fn fits(&self) -> bool {
        true
    }

    open spec fn shown(&self) -> JsonV {
        report_json(self@)
    }

    fn show(&self) -> (r: Json) {
        self.to_json()
    }
}

impl Shown for Payment {
    open spec fn fits(&self) -> bool {
        true
    }

    open spec fn shown(&self) -> JsonV {
        payment_json(*self)
    }

    fn show(&self) -> (r: Json) {
        self.to_json()
    }
}

/// A key, where there is one.
pub open spec fn key_json(k: Option<Seq<char>>) -> JsonV {
    match k {
        Some(t) => JsonV::Str(t),
        None => JsonV::Null,
    }
}

fn show_key(k: &Option<String>) -> (r: Json)
    ensures
        r@ == key_json(crate::world::opt_str(*k)),
{
    match k {
        Some(t) => Json::Str(t.clone()),
        None => Json::Null,
    }
}

pub open spec fn outbox_json(m: OutboxMessageV) -> JsonV {
    JsonV::Obj(
        seq![
            ("id"@, JsonV::Int(m.id as int)),
            ("invoice_id"@, JsonV::Int(m.invoice_id as int)),
            ("key"@, key_json(m.key)),
            ("kind"@, JsonV::Str(m.kind)),
            ("subject"@, JsonV::Str(m.subject)),
            ("to"@, JsonV::Str(m.to)),
        ],
    )
}

impl Shown for OutboxMessage {
    open spec fn fits(&self) -> bool {
        true
    }

    open spec fn shown(&self) -> JsonV {
        outbox_json(self@)
    }

    fn show(&self) -> (r: Json) {
        let mut o = no_entries();
        push_entry(&mut o, "id", Json::Int(self.id as i128));
        push_entry(&mut o, "invoice_id", Json::Int(self.invoice_id as i128));
        push_entry(&mut o, "key", show_key(&self.key));
        push_entry(&mut o, "kind", Json::Str(self.kind.clone()));
        push_entry(&mut o, "subject", Json::Str(self.subject.clone()));
        push_entry(&mut o, "to", Json::Str(self.to.clone()));
        assert(obj_view(o@) =~= outbox_json(self@)->Obj_0);
        Json::Obj(o)
    }
}

pub open spec fn effect_json(e: EffectV) -> JsonV {
    JsonV::Obj(
        seq![
            ("at_ms"@, JsonV::Int(e.at_ms as int)),
            ("door"@, JsonV::Str(e.door)),
            ("entity"@, JsonV::Str(e.entity)),
            ("key"@, key_json(e.key)),
            ("op"@, JsonV::Str(e.op)),
            ("replayed"@, JsonV::Bool(e.replayed)),
            ("seq"@, JsonV::Int(e.seq as int)),
        ],
    )
}

impl Shown for Effect {
    open spec fn fits(&self) -> bool {
        self.at_ms <= i128::MAX
    }

    open spec fn shown(&self) -> JsonV {
        effect_json(self@)
    }

    fn show(&self) -> (r: Json) {
        let mut o = no_entries();
        push_entry(&mut o, "at_ms", Json::Int(self.at_ms as i128));
        push_entry(&mut o, "door", Json::Str(self.door.clone()));
        push_entry(&mut o, "entity", Json::Str(self.entity.clone()));
        push_entry(&mut o, "key", show_key(&self.key));
        push_entry(&mut o, "op", Json::Str(self.op.clone()));
        push_entry(&mut o, "replayed", Json::Bool(self.replayed));
        push_entry(&mut o, "seq", Json::Int(self.seq as i128));
        assert(obj_view(o@) =~= effect_json(self@)->Obj_0);
        Json::Obj(o)
    }
}

/// Each of a list, shown.
pub open spec fn shown_list<T: Shown>(xs: Seq<T>) -> Seq<JsonV> {
    Seq::new(xs.len(), |i: int| xs[i].shown())
}

/// A list, shown.
pub fn show_list<T: Shown>(xs: &Vec<T>) -> (r: Json)
    requires
        forall|i: int| 0 <= i < xs@.len() ==> (#[trigger] xs@[i]).fits(),
    ensures
        r@ == JsonV::List(shown_list(xs@)),
{
    let ghost all = shown_list(xs@);
    let mut out: Vec<Json> = Vec::new();
    let mut i: usize = 0;
    assert(list_view(out@) =~= all.take(0));
    while i < xs.len()
        invariant
            i <= xs@.len() == all.len(),
            all == shown_list(xs@),
            forall|i: int| 0 <= i < xs@.len() ==> (#[trigger] xs@[i]).fits(),
            list_view(out@) == all.take(i as int),
        decreases xs@.len() - i,
    {
        let x = xs[i].show();
        proof {
            list_push(out@, x);
        }
        out.push(x);
        i += 1;
        assert(list_view(out@) =~= all.take(i as int));
    }
    assert(all.take(i as int) =~= all);
    Json::List(out)
}

/// The customers, shown.
pub open spec fn customers_json(w: WorldV) -> JsonV {
    JsonV::List(Seq::new(w.customers.len(), |i: int| customer_json(w.customers[i])))
}

/// The world, shown: its chaos as the caller holds it.
pub open spec fn snapshot_json(w: WorldV, chaos: JsonV) -> JsonV {
    JsonV::Obj(
        seq![
            ("chaos"@, chaos),
            ("customers"@, customers_json(w)),
            (
                "invoices"@,
                JsonV::List(Seq::new(w.invoices.len(), |i: int| invoice_json(w.invoices[i]))),
            ),
            (
                "outbox"@,
                JsonV::List(Seq::new(w.outbox.len(), |i: int| outbox_json(w.outbox[i]))),
            ),
            (
                "payments"@,
                JsonV::List(Seq::new(w.payments.len(), |i: int| payment_json(w.payments[i]))),
            ),
            (
                "reports"@,
                JsonV::List(Seq::new(w.reports.len(), |i: int| report_json(w.reports[i]))),
            ),
            ("seed"@, JsonV::Int(w.seed as int)),
        ],
    )
}

/// What was tried, and how often something went out twice.
pub open spec fn effects_json(w: WorldV) -> JsonV {
    JsonV::Obj(
        seq![
            ("double_sends"@, JsonV::Int(repeat_count(w.outbox, w.outbox.len()) as int)),
            (
                "effects"@,
                JsonV::List(Seq::new(w.effects.len(), |i: int| effect_json(w.effects[i]))),
            ),
        ],
    )
}

/// The place of a report.
pub open spec fn report_at(rs: Seq<ReportV>, id: u64) -> Option<ReportV>
    decreases rs.len(),
{
    if rs.len() == 0 {
        None
    } else if rs[0].id == id {
        Some(rs[0])
    } else {
        report_at(rs.drop_first(), id)
    }
}

proof fn report_skip(rs: Seq<ReportV>, id: u64, i: int)
    requires
        0 <= i <= rs.len(),
        forall|j: int| 0 <= j < i ==> (#[trigger] rs[j]).id != id,
    ensures
        report_at(rs, id) == report_at(rs.skip(i), id),
    decreases i,
{
    if i == 0 {
        assert(rs.skip(0) =~= rs);
    } else {
        assert(rs[0].id != id);
        let t = rs.drop_first();
        assert forall|j: int| 0 <= j < i - 1 implies (#[trigger] t[j]).id != id by {
            assert(t[j] == rs[j + 1]);
        }
        report_skip(t, id, i - 1);
        assert(t.skip(i - 1) =~= rs.skip(i));
    }
}

impl World {
    /// The first report with an id, shown.
    pub fn report(&self, id: u64) -> (r: Result<Json, DomainError>)
        ensures
            match report_at(self@.reports, id) {
                Some(x) => r matches Ok(v) && v@ == report_json(x),
                None => r matches Err(e) && e@ == DomainErrorV::NotFound("report"@, id),
            },
    {
        let ghost rs = self@.reports;
        assert(rs.len() == self.reports@.len());
        let mut i: usize = 0;
        while i < self.reports.len()
            invariant
                i <= self.reports@.len() == rs.len(),
                rs == self@.reports,
                forall|j: int| 0 <= j < i ==> (#[trigger] rs[j]).id != id,
            decreases self.reports@.len() - i,
        {
            assert(rs[i as int] == self.reports@[i as int]@);
            if self.reports[i].id == id {
                proof {
                    report_skip(rs, id, i as int);
                    assert(rs.skip(i as int)[0] == rs[i as int]);
                }
                return Ok(self.reports[i].to_json());
            }
            i += 1;
        }
        proof {
            report_skip(rs, id, i as int);
        }
        Err(DomainError::NotFound("report", id))
    }

    /// The customers of the world, shown.
    pub fn show_customers(&self) -> (r: Json)
        ensures
            r@ == customers_json(self@),
    {
        let r = show_list(&self.customers);
        assert(shown_list(self.customers@) =~= customers_json(self@)->List_0);
        r
    }

    /// The world, shown. The chaos is what the caller holds of it.
    pub fn snapshot(&self, chaos: Json) -> (r: Json)
        ensures
            r@ == snapshot_json(self@, chaos@),
    {
        let ghost cv = chaos@;
        let ghost all = snapshot_json(self@, cv)->Obj_0;
        let mut o = no_entries();
        push_entry(&mut o, "chaos", chaos);
        push_entry(&mut o, "customers", self.show_customers());
        push_entry(&mut o, "invoices", show_list(&self.invoices));
        push_entry(&mut o, "outbox", show_list(&self.outbox));
        push_entry(&mut o, "payments", show_list(&self.payments));
        push_entry(&mut o, "reports", show_list(&self.reports));
        push_entry(&mut o, "seed", Json::Int(self.seed as i128));
        proof {
            assert(shown_list(self.invoices@) =~= all[2].1->List_0);
            assert(shown_list(self.outbox@) =~= all[3].1->List_0);
            assert(shown_list(self.payments@) =~= all[4].1->List_0);
            assert(shown_list(self.reports@) =~= all[5].1->List_0);
            assert(obj_view(o@) =~= all);
        }
        Json::Obj(o)
    }

    /// What was tried, shown.
    pub fn show_effects(&self) -> (r: Json)
        requires
            forall|i: int|
                0 <= i < self@.effects.len() ==> (#[trigger] self@.effects[i]).at_ms <= i128::MAX,
        ensures
            r@ == effects_json(self@),
    {
        proof {
            assert forall|i: int| 0 <= i < self.effects@.len() implies (
            #[trigger] self.effects@[i]).fits() by {
                assert(self@.effects[i] == self.effects@[i]@);
            }
        }
        let list = show_list(&self.effects);
        assert(shown_list(self.effects@) =~= (effects_json(self@)->Obj_0)[1].1->List_0);
        two_entries("double_sends", Json::Int(self.double_sends() as i128), "effects", list)
    }

    /// Start over from a seed, and say so.
    pub fn reset(&mut self, seed: u64) -> (r: Json)
        ensures
            final(self)@ == crate::invoicing::seeded_world(seed),
            r@ == JsonV::Obj(
                seq![
                    ("customers"@, JsonV::Int(final(self)@.customers.len() as int)),
                    ("ok"@, JsonV::Bool(true)),
                    ("seed"@, JsonV::Int(seed as int)),
                ],
            ),
    {
        *self = World::seeded(seed);
        let n = self.customers.len();
        assert(self@.customers.len() == n);
        three_entries(
            "customers",
            Json::Int(n as i128),
            "ok",
            Json::Bool(true),
            "seed",
            Json::Int(seed as i128),
        )
    }
}

/// What is said of a payment that comes later.
pub fn scheduled(invoice_id: u64, delay_ms: u64) -> (r: Json)
    ensures
        r@ == JsonV::Obj(
            seq![
                ("delay_ms"@, JsonV::Int(delay_ms as int)),
                ("invoice_id"@, JsonV::Int(invoice_id as int)),
                ("scheduled"@, JsonV::Bool(true)),
            ],
        ),
{
    three_entries(
        "delay_ms",
        Json::Int(delay_ms as i128),
        "invoice_id",
        Json::Int(invoice_id as i128),
        "scheduled",
        Json::Bool(true),
    )
}

} // verus!
