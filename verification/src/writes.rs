//! The writes of the invoicing world, and what they keep.

use crate::domain::{
    customer_json, invoice_json, payment_json, report_json, Customer, CustomerV, DomainError,
    DomainErrorV, Event, EventV, Invoice, InvoiceStatus, OutboxMessage, OutboxMessageV, Payment,
    Report, ReportV,
};
use crate::invoicing::{
    address, customer_known, customers_view, emitted, event_of, events_view, gate, opt_text,
    outbox_view, own_key, place_is_right, place_of, recorded, remembered, replayed, reports_view,
    result_view, room, sums_fit, tally, tally_stuck, used, World, WorldV, Written, WrittenV,
};
use crate::json::{Json, JsonV};
use crate::object::one_entry;
use crate::text::{dec, owned, push_dec, same};
use vstd::prelude::*;

verus! {

/// The words for an entity.
pub open spec fn entity_text(kind: Seq<char>, id: u64) -> Seq<char> {
    kind + ":"@ + dec(id as nat)
}

fn entity(kind: &str, id: u64) -> (r: String)
    ensures
        r@ == entity_text(kind@, id),
{
    let mut t = owned(kind);
    t.push_str(":");
    push_dec(&mut t, id as u128);
    t
}

/// What follows a change: it is written down, it is told, and the response is kept.
pub open spec fn settled(
    w: WorldV,
    op: Seq<char>,
    door: Seq<char>,
    key: Option<Seq<char>>,
    what: Seq<char>,
    kind: Seq<char>,
    about: Seq<char>,
    id: u64,
    v: JsonV,
    latency_ms: u64,
    now: u128,
) -> (WorldV, Result<WrittenV, DomainErrorV>) {
    let a = recorded(w, op, door, key, what, false, now);
    let e = event_of(a, kind, about, id, v, now);
    (
        remembered(emitted(a, e), key, v),
        Ok(WrittenV { value: v, latency_ms, events: seq![e] }),
    )
}

// ---------- what each write does ----------

pub open spec fn customer_created(
    w: WorldV,
    door: Seq<char>,
    key: Option<Seq<char>>,
    name: Seq<char>,
    email: Seq<char>,
    now: u128,
) -> (WorldV, Result<WrittenV, DomainErrorV>) {
    if used(w, key) {
        replayed(w, "createCustomer"@, door, key, now)
    } else {
        match gate(w, "createCustomer"@, now) {
            (g, Err(e)) => (g, Err(e)),
            (g, Ok(lat)) => {
                let c = CustomerV { id: g.next_id, name, email };
                let n = WorldV {
                    customers: g.customers.push(c),
                    next_id: (g.next_id + 1) as u64,
                    ..g
                };
                settled(
                    n,
                    "createCustomer"@,
                    door,
                    key,
                    entity_text("customer"@, c.id),
                    "customer.created"@,
                    "customer"@,
                    c.id,
                    customer_json(c),
                    lat,
                    now,
                )
            },
        }
    }
}

/// An invoice as it begins.
pub open spec fn draft(id: u64, customer_id: u64, amount_cents: i64) -> Invoice {
    Invoice {
        id,
        customer_id,
        amount_cents,
        status: InvoiceStatus::Draft,
        approved: false,
        receipt_sent: false,
    }
}

pub open spec fn invoice_created(
    w: WorldV,
    door: Seq<char>,
    key: Option<Seq<char>>,
    customer_id: u64,
    amount_cents: i64,
    now: u128,
) -> (WorldV, Result<WrittenV, DomainErrorV>) {
    if used(w, key) {
        replayed(w, "createInvoice"@, door, key, now)
    } else if !customer_known(w.customers, customer_id) {
        (w, Err(DomainErrorV::NotFound("customer"@, customer_id)))
    } else {
        match gate(w, "createInvoice"@, now) {
            (g, Err(e)) => (g, Err(e)),
            (g, Ok(lat)) => {
                let i = draft(g.next_id, customer_id, amount_cents);
                let n = WorldV {
                    invoices: g.invoices.push(i),
                    next_id: (g.next_id + 1) as u64,
                    ..g
                };
                settled(
                    n,
                    "createInvoice"@,
                    door,
                    key,
                    entity_text("invoice"@, i.id),
                    "invoice.created"@,
                    "invoice"@,
                    i.id,
                    invoice_json(i),
                    lat,
                    now,
                )
            },
        }
    }
}

/// Approval is written down and told. No key, no gate: it is the page's alone.
pub open spec fn invoice_approved(w: WorldV, id: u64, now: u128) -> (
    WorldV,
    Result<(JsonV, EventV), DomainErrorV>,
) {
    match place_of(w.invoices, id) {
        None => (w, Err(DomainErrorV::NotFound("invoice"@, id))),
        Some(k) => {
            let i = Invoice { approved: true, ..w.invoices[k] };
            let n = WorldV { invoices: w.invoices.update(k, i), ..w };
            let a = recorded(
                n,
                "approveInvoice"@,
                "ui"@,
                None,
                entity_text("invoice"@, id),
                false,
                now,
            );
            let e = event_of(a, "invoice.approved"@, "invoice"@, id, invoice_json(i), now);
            (emitted(a, e), Ok((invoice_json(i), e)))
        },
    }
}

/// Sending never takes back a payment: only a draft becomes sent.
pub open spec fn marked_sent(i: Invoice) -> Invoice {
    if i.status == InvoiceStatus::Draft {
        Invoice { status: InvoiceStatus::Sent, ..i }
    } else {
        i
    }
}

/// Whether a send gets as far as the dice: it is not replayed, the invoice is there and may be
/// sent, and the call is not one too many.
pub open spec fn draws(w: WorldV, key: Option<Seq<char>>, id: u64, now: u128) -> bool {
    &&& w.chaos.sends_may_fail
    &&& !used(w, key)
    &&& place_of(w.invoices, id) matches Some(k) && (w.chaos.require_approval
        ==> w.invoices[k].approved)
    &&& gate(w, "sendInvoice"@, now).1 is Ok
}

pub open spec fn invoice_sent(
    w: WorldV,
    door: Seq<char>,
    key: Option<Seq<char>>,
    id: u64,
    fails: bool,
    now: u128,
) -> (WorldV, Result<WrittenV, DomainErrorV>) {
    if used(w, key) {
        replayed(w, "sendInvoice"@, door, key, now)
    } else {
        match place_of(w.invoices, id) {
            None => (w, Err(DomainErrorV::NotFound("invoice"@, id))),
            Some(k) => if w.chaos.require_approval && !w.invoices[k].approved {
                (w, Err(DomainErrorV::NotApproved(id)))
            } else {
                match gate(w, "sendInvoice"@, now) {
                    (g, Err(e)) => (g, Err(e)),
                    (g, Ok(lat)) => if g.chaos.sends_may_fail && fails {
                        (
                            recorded(
                                g,
                                "sendInvoice"@,
                                door,
                                key,
                                entity_text("invoice"@, id) + " (chaos fail)"@,
                                false,
                                now,
                            ),
                            Err(DomainErrorV::ChaosFail),
                        )
                    } else {
                        let mid = g.next_id;
                        let i = marked_sent(g.invoices[k]);
                        let m = OutboxMessageV {
                            id: mid,
                            to: address(g.customers, g.invoices[k].customer_id),
                            subject: "Invoice #"@ + dec(id as nat),
                            kind: "invoice"@,
                            invoice_id: id,
                            key,
                        };
                        let n = WorldV {
                            invoices: g.invoices.update(k, i),
                            outbox: g.outbox.push(m),
                            next_id: (g.next_id + 1) as u64,
                            ..g
                        };
                        let a = recorded(
                            n,
                            "sendInvoice"@,
                            door,
                            key,
                            entity_text("invoice"@, id) + ","@ + entity_text("outbox"@, mid),
                            false,
                            now,
                        );
                        let v = invoice_json(i);
                        let e1 = event_of(a, "invoice.sent"@, "invoice"@, id, v, now);
                        let b = emitted(a, e1);
                        let e2 = event_of(
                            b,
                            "outbox.queued"@,
                            "outbox"@,
                            mid,
                            JsonV::Obj(seq![("invoice_id"@, JsonV::Int(id as int))]),
                            now,
                        );
                        (
                            remembered(emitted(b, e2), key, v),
                            Ok(WrittenV { value: v, latency_ms: lat, events: seq![e1, e2] }),
                        )
                    },
                }
            },
        }
    }
}

pub open spec fn receipt_sent(
    w: WorldV,
    door: Seq<char>,
    key: Option<Seq<char>>,
    id: u64,
    now: u128,
) -> (WorldV, Result<WrittenV, DomainErrorV>) {
    if used(w, key) {
        replayed(w, "sendReceipt"@, door, key, now)
    } else {
        match place_of(w.invoices, id) {
            None => (w, Err(DomainErrorV::NotFound("invoice"@, id))),
            Some(k) => if w.invoices[k].status != InvoiceStatus::Paid {
                (w, Err(DomainErrorV::NotPaid(id)))
            } else {
                match gate(w, "sendReceipt"@, now) {
                    (g, Err(e)) => (g, Err(e)),
                    (g, Ok(lat)) => {
                        let mid = g.next_id;
                        let i = Invoice { receipt_sent: true, ..g.invoices[k] };
                        let m = OutboxMessageV {
                            id: mid,
                            to: address(g.customers, g.invoices[k].customer_id),
                            subject: "Receipt for invoice #"@ + dec(id as nat),
                            kind: "receipt"@,
                            invoice_id: id,
                            key,
                        };
                        let n = WorldV {
                            invoices: g.invoices.update(k, i),
                            outbox: g.outbox.push(m),
                            next_id: (g.next_id + 1) as u64,
                            ..g
                        };
                        settled(
                            n,
                            "sendReceipt"@,
                            door,
                            key,
                            entity_text("invoice"@, id) + ","@ + entity_text("outbox"@, mid),
                            "receipt.sent"@,
                            "invoice"@,
                            id,
                            invoice_json(i),
                            lat,
                            now,
                        )
                    },
                }
            },
        }
    }
}

pub open spec fn report_created(
    w: WorldV,
    door: Seq<char>,
    key: Option<Seq<char>>,
    ids: Seq<u64>,
    now: u128,
) -> (WorldV, Result<WrittenV, DomainErrorV>) {
    if used(w, key) {
        replayed(w, "createReport"@, door, key, now)
    } else {
        match tally(w.invoices, ids) {
            Err(id) => (w, Err(DomainErrorV::NotFound("invoice"@, id))),
            Ok((total, sent)) => match gate(w, "createReport"@, now) {
                (g, Err(e)) => (g, Err(e)),
                (g, Ok(lat)) => {
                    let r = ReportV {
                        id: g.next_id,
                        invoice_ids: ids,
                        total_cents: total as i64,
                        sent_count: sent as usize,
                    };
                    let n = WorldV {
                        reports: g.reports.push(r),
                        next_id: (g.next_id + 1) as u64,
                        ..g
                    };
                    settled(
                        n,
                        "createReport"@,
                        door,
                        key,
                        entity_text("report"@, r.id),
                        "report.created"@,
                        "report"@,
                        r.id,
                        report_json(r),
                        lat,
                        now,
                    )
                },
            },
        }
    }
}

/// The outside world paying. `silent` is a lost webhook: the payment lands, no event goes out.
pub open spec fn payment_received(w: WorldV, invoice_id: u64, silent: bool, now: u128) -> (
    WorldV,
    Result<(JsonV, Seq<EventV>), DomainErrorV>,
) {
    match place_of(w.invoices, invoice_id) {
        None => (w, Err(DomainErrorV::NotFound("invoice"@, invoice_id))),
        Some(k) => {
            let p = Payment { id: w.next_id, invoice_id };
            let i = Invoice { status: InvoiceStatus::Paid, ..w.invoices[k] };
            let n = WorldV {
                invoices: w.invoices.update(k, i),
                payments: w.payments.push(p),
                next_id: (w.next_id + 1) as u64,
                ..w
            };
            let a = recorded(
                n,
                "receivePayment"@,
                "webhook"@,
                None,
                entity_text("payment"@, p.id),
                false,
                now,
            );
            if silent {
                (a, Ok((payment_json(p), Seq::empty())))
            } else {
                let e = event_of(
                    a,
                    "payment.received"@,
                    "invoice"@,
                    invoice_id,
                    payment_json(p),
                    now,
                );
                (emitted(a, e), Ok((payment_json(p), seq![e])))
            }
        },
    }
}

// ---------- doing it ----------

fn one_event(e: Event) -> (r: Vec<Event>)
    ensures
        events_view(r@) == seq![e@],
{
    let ghost ev = e@;
    let mut v: Vec<Event> = Vec::new();
    v.push(e);
    assert(events_view(v@) =~= seq![ev]);
    v
}

impl World {
    fn settle(
        &mut self,
        op: &str,
        door: &str,
        key: Option<&str>,
        what: String,
        kind: &str,
        about: &str,
        id: u64,
        v: Json,
        latency_ms: u64,
        now: u128,
    ) -> (r: Result<Written, DomainError>)
        requires
            old(self)@.seq < u64::MAX - 2,
        ensures
            (final(self)@, result_view(r)) == settled(
                old(self)@,
                op@,
                door@,
                opt_text(key),
                what@,
                kind@,
                about@,
                id,
                v@,
                latency_ms,
                now,
            ),
    {
        self.record_effect(op, door, key, what, false, now);
        let e = self.emit(kind, about, id, v.clone(), now);
        self.remember(key, &v);
        Ok(Written { value: v, latency_ms, events: one_event(e) })
    }

    /// Whether the numbers that a write hands out still fit.
    pub fn has_room(&self) -> (r: bool)
        ensures
            r == room(self@),
    {
        self.next_id < u64::MAX && self.seq < u64::MAX - 8 && self.rate_window_count < u32::MAX
    }

    /// Whether a report over these invoices can be summed.
    pub fn report_fits(&self, invoice_ids: &Vec<u64>) -> (r: bool)
        ensures
            r == sums_fit(self@.invoices, invoice_ids@),
    {
        let ghost is = self@.invoices;
        let ghost ids = invoice_ids@;
        let mut total: i64 = 0;
        let mut i: usize = 0;
        assert(ids.take(0) =~= Seq::<u64>::empty());
        while i < invoice_ids.len()
            invariant
                i <= invoice_ids@.len(),
                is == self@.invoices,
                ids == invoice_ids@,
                tally(is, ids.take(i as int)) matches Ok(t) && t.0 == total,
                forall|k: int|
                    0 <= k <= i ==> (#[trigger] tally(is, ids.take(k)) matches Ok(t)
                        ==> i64::MIN <= t.0 <= i64::MAX),
            decreases invoice_ids@.len() - i,
        {
            proof {
                assert(ids.take(i + 1).drop_last() =~= ids.take(i as int));
                assert(ids.take(i + 1).last() == ids[i as int]);
                place_is_right(is, ids[i as int]);
            }
            match self.position(invoice_ids[i]) {
                None => {
                    assert forall|k: int| 0 <= k <= ids.len() implies (#[trigger] tally(
                        is,
                        ids.take(k),
                    ) matches Ok(t) ==> i64::MIN <= t.0 <= i64::MAX) by {
                        if k > i {
                            assert(ids.take(k).take(i + 1) =~= ids.take(i + 1));
                            tally_stuck(is, ids.take(k), i + 1);
                        }
                    }
                    return true;
                },
                Some(k) => match total.checked_add(self.invoices[k].amount_cents) {
                    None => {
                        assert(tally(is, ids.take(i + 1)) is Ok);
                        return false;
                    },
                    Some(t) => {
                        total = t;
                    },
                },
            }
            i += 1;
        }
        true
    }

    pub fn create_customer(
        &mut self,
        door: &str,
        key: Option<&str>,
        name: &str,
        email: &str,
        now: u128,
    ) -> (r: Result<Written, DomainError>)
        requires
            room(old(self)@),
        ensures
            (final(self)@, result_view(r)) == customer_created(
                old(self)@,
                door@,
                opt_text(key),
                name@,
                email@,
                now,
            ),
    {
        if self.is_used(key) {
            return self.replay_it("createCustomer", door, key, now);
        }
        let lat = match self.write_gate("createCustomer", now) {
            Ok(l) => l,
            Err(e) => {
                return Err(e);
            },
        };
        let ghost g = self@;
        let id = self.next_id;
        self.next_id = id + 1;
        let c = Customer { id, name: owned(name), email: owned(email) };
        let v = c.to_json();
        self.customers.push(c);
        assert(customers_view(self.customers@) =~= g.customers.push(c@));
        self.settle(
            "createCustomer",
            door,
            key,
            entity("customer", id),
            "customer.created",
            "customer",
            id,
            v,
            lat,
            now,
        )
    }

    pub fn create_invoice(
        &mut self,
        door: &str,
        key: Option<&str>,
        customer_id: u64,
        amount_cents: i64,
        now: u128,
    ) -> (r: Result<Written, DomainError>)
        requires
            room(old(self)@),
        ensures
            (final(self)@, result_view(r)) == invoice_created(
                old(self)@,
                door@,
                opt_text(key),
                customer_id,
                amount_cents,
                now,
            ),
    {
        if self.is_used(key) {
            return self.replay_it("createInvoice", door, key, now);
        }
        if !self.knows_customer(customer_id) {
            return Err(DomainError::NotFound("customer", customer_id));
        }
        let lat = match self.write_gate("createInvoice", now) {
            Ok(l) => l,
            Err(e) => {
                return Err(e);
            },
        };
        let id = self.next_id;
        self.next_id = id + 1;
        let i = Invoice {
            id,
            customer_id,
            amount_cents,
            status: InvoiceStatus::Draft,
            approved: false,
            receipt_sent: false,
        };
        self.invoices.push(i);
        self.settle(
            "createInvoice",
            door,
            key,
            entity("invoice", id),
            "invoice.created",
            "invoice",
            id,
            i.to_json(),
            lat,
            now,
        )
    }

    /// UI-only. There is no API operation for this on purpose.
    pub fn approve_invoice(&mut self, id: u64, now: u128) -> (r: Result<(Json, Event), DomainError>)
        requires
            room(old(self)@),
        ensures
            (
                final(self)@,
                match r {
                    Ok((v, e)) => Ok((v@, e@)),
                    Err(e) => Err(e@),
                },
            ) == invoice_approved(old(self)@, id, now),
    {
        let k = match self.position(id) {
            Some(k) => k,
            None => {
                return Err(DomainError::NotFound("invoice", id));
            },
        };
        let old_i = self.invoices[k];
        let i = Invoice {
            id: old_i.id,
            customer_id: old_i.customer_id,
            amount_cents: old_i.amount_cents,
            status: old_i.status,
            approved: true,
            receipt_sent: old_i.receipt_sent,
        };
        self.invoices.set(k, i);
        self.record_effect("approveInvoice", "ui", None, entity("invoice", id), false, now);
        let e = self.emit("invoice.approved", "invoice", id, i.to_json(), now);
        Ok((i.to_json(), e))
    }

    /// Whether a send gets as far as the dice, so that the caller has to throw them.
    pub fn send_draws(&self, key: Option<&str>, id: u64, now: u128) -> (r: bool)
        requires
            room(self@),
        ensures
            r == draws(self@, opt_text(key), id, now),
    {
        if !self.chaos.sends_may_fail || self.is_used(key) {
            return false;
        }
        match self.position(id) {
            None => false,
            Some(k) => {
                if self.chaos.require_approval && !self.invoices[k].approved {
                    return false;
                }
                if self.chaos.rate_limit_per_sec == 0 {
                    return true;
                }
                let since: u128 = if now < self.rate_window_start_ms {
                    0
                } else {
                    now - self.rate_window_start_ms
                };
                let count: u32 = if since >= 1000 {
                    0
                } else {
                    self.rate_window_count
                };
                count + 1 <= self.chaos.rate_limit_per_sec
            },
        }
    }

    /// Send an invoice. `fails` is what the caller's dice say; they count only where
    /// `send_draws` does.
    pub fn send_invoice(
        &mut self,
        door: &str,
        key: Option<&str>,
        id: u64,
        fails: bool,
        now: u128,
    ) -> (r: Result<Written, DomainError>)
        requires
            room(old(self)@),
        ensures
            (final(self)@, result_view(r)) == invoice_sent(
                old(self)@,
                door@,
                opt_text(key),
                id,
                fails,
                now,
            ),
    {
        if self.is_used(key) {
            return self.replay_it("sendInvoice", door, key, now);
        }
        let k = match self.position(id) {
            Some(k) => k,
            None => {
                return Err(DomainError::NotFound("invoice", id));
            },
        };
        if self.chaos.require_approval && !self.invoices[k].approved {
            return Err(DomainError::NotApproved(id));
        }
        let lat = match self.write_gate("sendInvoice", now) {
            Ok(l) => l,
            Err(e) => {
                return Err(e);
            },
        };
        if self.chaos.sends_may_fail && fails {
            let mut what = entity("invoice", id);
            what.push_str(" (chaos fail)");
            self.record_effect("sendInvoice", door, key, what, false, now);
            return Err(DomainError::ChaosFail);
        }
        let ghost g = self@;
        let to = self.address_of(self.invoices[k].customer_id);
        let mid = self.next_id;
        self.next_id = mid + 1;
        let old_i = self.invoices[k];
        let i = Invoice {
            id: old_i.id,
            customer_id: old_i.customer_id,
            amount_cents: old_i.amount_cents,
            status: if old_i.status == InvoiceStatus::Draft {
                InvoiceStatus::Sent
            } else {
                old_i.status
            },
            approved: old_i.approved,
            receipt_sent: old_i.receipt_sent,
        };
        assert(i == marked_sent(g.invoices[k as int]));
        self.invoices.set(k, i);
        let mut subject = owned("Invoice #");
        push_dec(&mut subject, id as u128);
        let m = OutboxMessage {
            id: mid,
            to,
            subject,
            kind: owned("invoice"),
            invoice_id: id,
            key: own_key(key),
        };
        self.outbox.push(m);
        assert(outbox_view(self.outbox@) =~= g.outbox.push(m@));
        let mut what = entity("invoice", id);
        what.push_str(",");
        let o = entity("outbox", mid);
        what.push_str(o.as_str());
        self.record_effect("sendInvoice", door, key, what, false, now);
        let v = i.to_json();
        let e1 = self.emit("invoice.sent", "invoice", id, v.clone(), now);
        let e2 = self.emit(
            "outbox.queued",
            "outbox",
            mid,
            one_entry("invoice_id", Json::Int(id as i128)),
            now,
        );
        self.remember(key, &v);
        let ghost (v1, v2) = (e1@, e2@);
        let mut events: Vec<Event> = Vec::new();
        events.push(e1);
        events.push(e2);
        assert(events_view(events@) =~= seq![v1, v2]);
        Ok(Written { value: v, latency_ms: lat, events })
    }

    /// Only valid after a payment landed.
    pub fn send_receipt(&mut self, door: &str, key: Option<&str>, id: u64, now: u128) -> (r: Result<
        Written,
        DomainError,
    >)
        requires
            room(old(self)@),
        ensures
            (final(self)@, result_view(r)) == receipt_sent(
                old(self)@,
                door@,
                opt_text(key),
                id,
                now,
            ),
    {
        if self.is_used(key) {
            return self.replay_it("sendReceipt", door, key, now);
        }
        let k = match self.position(id) {
            Some(k) => k,
            None => {
                return Err(DomainError::NotFound("invoice", id));
            },
        };
        if self.invoices[k].status != InvoiceStatus::Paid {
            return Err(DomainError::NotPaid(id));
        }
        let lat = match self.write_gate("sendReceipt", now) {
            Ok(l) => l,
            Err(e) => {
                return Err(e);
            },
        };
        let ghost g = self@;
        let to = self.address_of(self.invoices[k].customer_id);
        let mid = self.next_id;
        self.next_id = mid + 1;
        let old_i = self.invoices[k];
        let i = Invoice {
            id: old_i.id,
            customer_id: old_i.customer_id,
            amount_cents: old_i.amount_cents,
            status: old_i.status,
            approved: old_i.approved,
            receipt_sent: true,
        };
        self.invoices.set(k, i);
        let mut subject = owned("Receipt for invoice #");
        push_dec(&mut subject, id as u128);
        let m = OutboxMessage {
            id: mid,
            to,
            subject,
            kind: owned("receipt"),
            invoice_id: id,
            key: own_key(key),
        };
        self.outbox.push(m);
        assert(outbox_view(self.outbox@) =~= g.outbox.push(m@));
        let mut what = entity("invoice", id);
        what.push_str(",");
        let o = entity("outbox", mid);
        what.push_str(o.as_str());
        self.settle(
            "sendReceipt",
            door,
            key,
            what,
            "receipt.sent",
            "invoice",
            id,
            i.to_json(),
            lat,
            now,
        )
    }

    /// A report over some invoices: what they amount to, and how many of them went out.
    pub fn create_report(
        &mut self,
        door: &str,
        key: Option<&str>,
        invoice_ids: &Vec<u64>,
        now: u128,
    ) -> (r: Result<Written, DomainError>)
        requires
            room(old(self)@),
            sums_fit(old(self)@.invoices, invoice_ids@),
        ensures
            (final(self)@, result_view(r)) == report_created(
                old(self)@,
                door@,
                opt_text(key),
                invoice_ids@,
                now,
            ),
    {
        if self.is_used(key) {
            return self.replay_it("createReport", door, key, now);
        }
        let ghost is = self@.invoices;
        let ghost ids = invoice_ids@;
        let mut total: i64 = 0;
        let mut sent: usize = 0;
        let mut copy: Vec<u64> = Vec::new();
        let mut i: usize = 0;
        while i < invoice_ids.len()
            invariant
                i <= invoice_ids@.len(),
                sent <= i,
                is == self@.invoices,
                ids == invoice_ids@,
                self@ == old(self)@,
                sums_fit(is, ids),
                !used(old(self)@, opt_text(key)),
                copy@ == ids.take(i as int),
                tally(is, ids.take(i as int)) == Ok::<(int, nat), u64>((total as int, sent as nat)),
            decreases invoice_ids@.len() - i,
        {
            proof {
                assert(ids.take(i + 1).drop_last() =~= ids.take(i as int));
                assert(ids.take(i + 1).last() == ids[i as int]);
                place_is_right(is, ids[i as int]);
            }
            match self.position(invoice_ids[i]) {
                None => {
                    proof {
                        tally_stuck(is, ids, i + 1);
                    }
                    return Err(DomainError::NotFound("invoice", invoice_ids[i]));
                },
                Some(k) => {
                    let inv = self.invoices[k];
                    assert(tally(is, ids.take(i + 1)) is Ok);
                    total = total + inv.amount_cents;
                    if inv.status != InvoiceStatus::Draft {
                        sent = sent + 1;
                    }
                },
            }
            copy.push(invoice_ids[i]);
            i += 1;
            assert(copy@ =~= ids.take(i as int));
        }
        assert(ids.take(i as int) =~= ids);
        let lat = match self.write_gate("createReport", now) {
            Ok(l) => l,
            Err(e) => {
                return Err(e);
            },
        };
        let ghost g = self@;
        let id = self.next_id;
        self.next_id = id + 1;
        let r = Report { id, invoice_ids: copy, total_cents: total, sent_count: sent };
        let v = r.to_json();
        self.reports.push(r);
        assert(reports_view(self.reports@) =~= g.reports.push(r@));
        self.settle(
            "createReport",
            door,
            key,
            entity("report", id),
            "report.created",
            "report",
            id,
            v,
            lat,
            now,
        )
    }

    /// The outside world paying. Fired by the oracle, never by an arm.
    pub fn receive_payment(&mut self, invoice_id: u64, silent: bool, now: u128) -> (r: Result<
        (Json, Vec<Event>),
        DomainError,
    >)
        requires
            room(old(self)@),
        ensures
            (
                final(self)@,
                match r {
                    Ok((v, es)) => Ok((v@, events_view(es@))),
                    Err(e) => Err(e@),
                },
            ) == payment_received(old(self)@, invoice_id, silent, now),
    {
        let k = match self.position(invoice_id) {
            Some(k) => k,
            None => {
                return Err(DomainError::NotFound("invoice", invoice_id));
            },
        };
        let id = self.next_id;
        self.next_id = id + 1;
        let old_i = self.invoices[k];
        let i = Invoice {
            id: old_i.id,
            customer_id: old_i.customer_id,
            amount_cents: old_i.amount_cents,
            status: InvoiceStatus::Paid,
            approved: old_i.approved,
            receipt_sent: old_i.receipt_sent,
        };
        self.invoices.set(k, i);
        let p = Payment { id, invoice_id };
        self.payments.push(p);
        self.record_effect("receivePayment", "webhook", None, entity("payment", id), false, now);
        if silent {
            let none: Vec<Event> = Vec::new();
            assert(events_view(none@) =~= Seq::<EventV>::empty());
            return Ok((p.to_json(), none));
        }
        let e = self.emit("payment.received", "invoice", invoice_id, p.to_json(), now);
        Ok((p.to_json(), one_event(e)))
    }
}

// ---------- double sends ----------

/// Whether an earlier message went to the same invoice with the same kind.
pub open spec fn repeats(ms: Seq<OutboxMessageV>, i: int) -> bool {
    exists|j: int|
        0 <= j < i && (#[trigger] ms[j]).invoice_id == ms[i].invoice_id && ms[j].kind == ms[i].kind
}

/// How many of the first `n` messages repeat an earlier one.
pub open spec fn repeat_count(ms: Seq<OutboxMessageV>, n: nat) -> nat
    decreases n,
{
    if n == 0 {
        0
    } else {
        repeat_count(ms, (n - 1) as nat) + if repeats(ms, n - 1) {
            1nat
        } else {
            0
        }
    }
}

impl World {
    /// Outbox rows that hit the same invoice with the same kind more than once.
    pub fn double_sends(&self) -> (r: usize)
        ensures
            r == repeat_count(self@.outbox, self@.outbox.len()),
    {
        let ghost ms = self@.outbox;
        let mut n: usize = 0;
        let mut i: usize = 0;
        while i < self.outbox.len()
            invariant
                i <= self.outbox@.len(),
                ms == self@.outbox,
                n <= i,
                n == repeat_count(ms, i as nat),
            decreases self.outbox@.len() - i,
        {
            let mut again = false;
            let mut j: usize = 0;
            assert(ms[i as int] == self.outbox@[i as int]@);
            while j < i
                invariant
                    j <= i < self.outbox@.len(),
                    ms == self@.outbox,
                    ms[i as int] == self.outbox@[i as int]@,
                    again == exists|k: int|
                        0 <= k < j && (#[trigger] ms[k]).invoice_id == ms[i as int].invoice_id
                            && ms[k].kind == ms[i as int].kind,
                decreases i - j,
            {
                assert(ms[j as int] == self.outbox@[j as int]@);
                if self.outbox[j].invoice_id == self.outbox[i].invoice_id && same(
                    self.outbox[j].kind.as_str(),
                    self.outbox[i].kind.as_str(),
                ) {
                    again = true;
                }
                j += 1;
            }
            if again {
                n += 1;
            }
            i += 1;
        }
        n
    }
}

} // verus!
