//! What each request does to the invoicing world: who is written to, what changes, and what does
//! not.

use crate::domain::{
    customer_json, invoice_json, payment_json, CustomerV, DomainErrorV, EventV, Invoice, Payment,
};
use crate::invoicing::{address, place_of, room, WorldV, WrittenV};
use crate::json::{member, JsonV};
use crate::lookup_laws::the_first_entry_counts;
use crate::text::dec;
use crate::writes::{
    customer_created, invoice_approved, invoice_created, invoice_sent, payment_received,
    receipt_sent,
};
use vstd::prelude::*;

verus! {

/// The invoice at place `k` is the first with that id.
pub open spec fn at_place(is: Seq<Invoice>, id: u64, k: int) -> bool {
    0 <= k < is.len() && is[k].id == id && forall|j: int| 0 <= j < k ==> (#[trigger] is[j]).id != id
}

/// No invoice has that id.
pub open spec fn nowhere(is: Seq<Invoice>, id: u64) -> bool {
    forall|j: int| 0 <= j < is.len() ==> (#[trigger] is[j]).id != id
}

/// The customer at place `c` is the first with that id.
pub open spec fn customer_at(cs: Seq<CustomerV>, id: u64, c: int) -> bool {
    0 <= c < cs.len() && cs[c].id == id && forall|j: int| 0 <= j < c ==> (#[trigger] cs[j]).id != id
}

/// The key was not used before.
pub open spec fn fresh(w: WorldV, key: Option<Seq<char>>) -> bool {
    key matches Some(k) ==> !w.replay.contains_key(k)
}

/// Nobody limits how many writes come in a second.
pub open spec fn unlimited(w: WorldV) -> bool {
    w.chaos.rate_limit_per_sec == 0
}

proof fn placed(is: Seq<Invoice>, id: u64, k: int)
    requires
        at_place(is, id, k),
    ensures
        place_of(is, id) == Some(k),
    decreases k,
{
    if k > 0 {
        let t = is.drop_first();
        assert(is[0].id != id);
        assert(t[k - 1] == is[k]);
        assert forall|j: int| 0 <= j < k - 1 implies (#[trigger] t[j]).id != id by {
            assert(t[j] == is[j + 1]);
        }
        placed(t, id, k - 1);
    }
}

proof fn unplaced(is: Seq<Invoice>, id: u64)
    requires
        nowhere(is, id),
    ensures
        place_of(is, id) is None,
    decreases is.len(),
{
    if is.len() > 0 {
        let t = is.drop_first();
        assert(is[0].id != id);
        assert forall|j: int| 0 <= j < t.len() implies (#[trigger] t[j]).id != id by {
            assert(t[j] == is[j + 1]);
        }
        unplaced(t, id);
    }
}

proof fn addressed(cs: Seq<CustomerV>, id: u64, c: int)
    requires
        customer_at(cs, id, c),
    ensures
        address(cs, id) == cs[c].email,
    decreases c,
{
    if c > 0 {
        let t = cs.drop_first();
        assert(cs[0].id != id);
        assert(t[c - 1] == cs[c]);
        assert forall|j: int| 0 <= j < c - 1 implies (#[trigger] t[j]).id != id by {
            assert(t[j] == cs[j + 1]);
        }
        addressed(t, id, c - 1);
    }
}

// ---------- sending ----------

/// A send that succeeds under a fresh key adds exactly one message to the outbox. It is addressed
/// to the customer of that invoice, it names the invoice, and it carries the key.
pub proof fn an_invoice_goes_to_its_customer(
    w: WorldV,
    door: Seq<char>,
    key: Option<Seq<char>>,
    id: u64,
    fails: bool,
    now: u128,
    k: int,
    c: int,
)
    requires
        room(w),
        fresh(w, key),
        at_place(w.invoices, id, k),
        customer_at(w.customers, w.invoices[k].customer_id, c),
        invoice_sent(w, door, key, id, fails, now).1 is Ok,
    ensures
        ({
            let n = invoice_sent(w, door, key, id, fails, now).0;
            &&& n.outbox.len() == w.outbox.len() + 1
            &&& n.outbox.drop_last() == w.outbox
            &&& n.outbox.last().to == w.customers[c].email
            &&& n.outbox.last().invoice_id == id
            &&& n.outbox.last().subject == "Invoice #"@ + dec(id as nat)
            &&& n.outbox.last().kind == "invoice"@
            &&& n.outbox.last().key == key
            &&& n.outbox.last().id == w.next_id
        }),
{
    placed(w.invoices, id, k);
    addressed(w.customers, w.invoices[k].customer_id, c);
    let n = invoice_sent(w, door, key, id, fails, now).0;
    assert(n.outbox.drop_last() =~= w.outbox);
}

/// A receipt that goes out under a fresh key is addressed to the customer of that invoice, too.
pub proof fn a_receipt_goes_to_its_customer(
    w: WorldV,
    door: Seq<char>,
    key: Option<Seq<char>>,
    id: u64,
    now: u128,
    k: int,
    c: int,
)
    requires
        room(w),
        fresh(w, key),
        at_place(w.invoices, id, k),
        customer_at(w.customers, w.invoices[k].customer_id, c),
        receipt_sent(w, door, key, id, now).1 is Ok,
    ensures
        ({
            let n = receipt_sent(w, door, key, id, now).0;
            &&& n.outbox.len() == w.outbox.len() + 1
            &&& n.outbox.drop_last() == w.outbox
            &&& n.outbox.last().to == w.customers[c].email
            &&& n.outbox.last().invoice_id == id
            &&& n.outbox.last().subject == "Receipt for invoice #"@ + dec(id as nat)
            &&& n.outbox.last().kind == "receipt"@
            &&& n.outbox.last().key == key
            &&& n.outbox.last().id == w.next_id
        }),
{
    placed(w.invoices, id, k);
    addressed(w.customers, w.invoices[k].customer_id, c);
    let n = receipt_sent(w, door, key, id, now).0;
    assert(n.outbox.drop_last() =~= w.outbox);
}

/// A send under a fresh key is refused where there is no such invoice, and where approval is
/// asked for and was not given; with no limit on the rate it fails otherwise only by the dice,
/// where these may fail it. A refusal for the first two leaves the world as it was.
pub proof fn when_a_send_succeeds(
    w: WorldV,
    door: Seq<char>,
    key: Option<Seq<char>>,
    id: u64,
    fails: bool,
    now: u128,
)
    requires
        room(w),
        fresh(w, key),
    ensures
        nowhere(w.invoices, id) ==> invoice_sent(w, door, key, id, fails, now) == (
            w,
            Err::<WrittenV, DomainErrorV>(DomainErrorV::NotFound("invoice"@, id)),
        ),
        forall|k: int|
            #[trigger] at_place(w.invoices, id, k) && w.chaos.require_approval
                && !w.invoices[k].approved ==> invoice_sent(w, door, key, id, fails, now) == (
                w,
                Err::<WrittenV, DomainErrorV>(DomainErrorV::NotApproved(id)),
            ),
        forall|k: int|
            #[trigger] at_place(w.invoices, id, k) && (w.chaos.require_approval
                ==> w.invoices[k].approved) && unlimited(w) ==> {
                &&& w.chaos.sends_may_fail && fails ==> invoice_sent(
                    w,
                    door,
                    key,
                    id,
                    fails,
                    now,
                ).1 == Err::<WrittenV, DomainErrorV>(DomainErrorV::ChaosFail)
                &&& !(w.chaos.sends_may_fail && fails) ==> invoice_sent(
                    w,
                    door,
                    key,
                    id,
                    fails,
                    now,
                ).1 is Ok
            },
        w.chaos.sends_may_fail && fails && invoice_sent(w, door, key, id, fails, now).1 is Err ==> {
            let n = invoice_sent(w, door, key, id, fails, now).0;
            n.outbox == w.outbox && n.invoices == w.invoices && n.replay == w.replay
        },
{
    if nowhere(w.invoices, id) {
        unplaced(w.invoices, id);
    }
    assert forall|k: int| #[trigger] at_place(w.invoices, id, k) implies place_of(w.invoices, id)
        == Some(k) by {
        placed(w.invoices, id, k);
    }
}

/// Sending changes one invoice, and of it only that a draft becomes sent. What the caller is told
/// is that invoice, and one event tells of it and one of the message.
pub proof fn a_send_marks_one_invoice(
    w: WorldV,
    door: Seq<char>,
    key: Option<Seq<char>>,
    id: u64,
    fails: bool,
    now: u128,
    k: int,
)
    requires
        room(w),
        fresh(w, key),
        at_place(w.invoices, id, k),
        invoice_sent(w, door, key, id, fails, now).1 is Ok,
    ensures
        ({
            let n = invoice_sent(w, door, key, id, fails, now).0;
            let told = invoice_sent(w, door, key, id, fails, now).1->Ok_0;
            &&& n.invoices.len() == w.invoices.len()
            &&& forall|j: int| 0 <= j < w.invoices.len() && j != k ==> #[trigger] n.invoices[j]
                == w.invoices[j]
            &&& n.invoices[k].id == id
            &&& n.invoices[k].customer_id == w.invoices[k].customer_id
            &&& n.invoices[k].amount_cents == w.invoices[k].amount_cents
            &&& n.invoices[k].approved == w.invoices[k].approved
            &&& n.invoices[k].receipt_sent == w.invoices[k].receipt_sent
            &&& w.invoices[k].status is Draft ==> n.invoices[k].status is Sent
            &&& !(w.invoices[k].status is Draft) ==> n.invoices[k].status == w.invoices[k].status
            &&& n.customers == w.customers && n.payments == w.payments && n.reports == w.reports
            &&& n.chaos == w.chaos && n.seed == w.seed
            &&& n.next_id == w.next_id + 1
            &&& told.value == invoice_json(n.invoices[k])
            &&& told.latency_ms == w.chaos.latency_ms
            &&& told.events.len() == 2 && n.events == w.events + told.events
            &&& told.events[0].kind == "invoice.sent"@ && told.events[0].entity == "invoice"@
            &&& told.events[0].id == id && told.events[0].data == told.value
            &&& told.events[1].kind == "outbox.queued"@ && told.events[1].entity == "outbox"@
            &&& told.events[1].id == n.outbox.last().id
            &&& member(told.events[1].data, "invoice_id"@) == Some(JsonV::Int(id as int))
            &&& key matches Some(x) ==> n.replay == w.replay.insert(x, told.value)
            &&& key is None ==> n.replay == w.replay
        }),
{
    placed(w.invoices, id, k);
    let n = invoice_sent(w, door, key, id, fails, now).0;
    let told = invoice_sent(w, door, key, id, fails, now).1->Ok_0;
    assert(n.events =~= w.events + told.events);
    the_first_entry_counts(told.events[1].data->Obj_0, "invoice_id"@, 0);
}

/// A receipt goes out exactly for an invoice that was paid; otherwise the refusal says why, and
/// nothing changes.
pub proof fn when_a_receipt_goes_out(
    w: WorldV,
    door: Seq<char>,
    key: Option<Seq<char>>,
    id: u64,
    now: u128,
)
    requires
        room(w),
        fresh(w, key),
    ensures
        nowhere(w.invoices, id) ==> receipt_sent(w, door, key, id, now) == (
            w,
            Err::<WrittenV, DomainErrorV>(DomainErrorV::NotFound("invoice"@, id)),
        ),
        forall|k: int|
            #[trigger] at_place(w.invoices, id, k) && !(w.invoices[k].status is Paid)
                ==> receipt_sent(w, door, key, id, now) == (
                w,
                Err::<WrittenV, DomainErrorV>(DomainErrorV::NotPaid(id)),
            ),
        forall|k: int|
            #[trigger] at_place(w.invoices, id, k) && w.invoices[k].status is Paid && unlimited(w)
                ==> receipt_sent(w, door, key, id, now).1 is Ok,
{
    if nowhere(w.invoices, id) {
        unplaced(w.invoices, id);
    }
    assert forall|k: int| #[trigger] at_place(w.invoices, id, k) implies place_of(w.invoices, id)
        == Some(k) by {
        placed(w.invoices, id, k);
    }
}

/// A receipt changes one invoice, and of it only that its receipt is sent.
pub proof fn a_receipt_marks_one_invoice(
    w: WorldV,
    door: Seq<char>,
    key: Option<Seq<char>>,
    id: u64,
    now: u128,
    k: int,
)
    requires
        room(w),
        fresh(w, key),
        at_place(w.invoices, id, k),
        receipt_sent(w, door, key, id, now).1 is Ok,
    ensures
        ({
            let n = receipt_sent(w, door, key, id, now).0;
            let told = receipt_sent(w, door, key, id, now).1->Ok_0;
            &&& n.invoices.len() == w.invoices.len()
            &&& forall|j: int| 0 <= j < w.invoices.len() && j != k ==> #[trigger] n.invoices[j]
                == w.invoices[j]
            &&& n.invoices[k].id == id
            &&& n.invoices[k].customer_id == w.invoices[k].customer_id
            &&& n.invoices[k].amount_cents == w.invoices[k].amount_cents
            &&& n.invoices[k].approved == w.invoices[k].approved
            &&& n.invoices[k].receipt_sent
            &&& n.invoices[k].status is Paid
            &&& n.customers == w.customers && n.payments == w.payments && n.reports == w.reports
            &&& n.chaos == w.chaos && n.seed == w.seed
            &&& n.next_id == w.next_id + 1
            &&& told.value == invoice_json(n.invoices[k])
            &&& told.latency_ms == w.chaos.latency_ms
            &&& told.events.len() == 1 && n.events == w.events + told.events
            &&& told.events[0].kind == "receipt.sent"@ && told.events[0].entity == "invoice"@
            &&& told.events[0].id == id && told.events[0].data == told.value
            &&& key matches Some(x) ==> n.replay == w.replay.insert(x, told.value)
            &&& key is None ==> n.replay == w.replay
        }),
{
    placed(w.invoices, id, k);
    let n = receipt_sent(w, door, key, id, now).0;
    let told = receipt_sent(w, door, key, id, now).1->Ok_0;
    assert(n.events =~= w.events + told.events);
}

// ---------- creating ----------

/// Under a fresh key an invoice is made exactly for a customer that is there. It is a draft of
/// that customer over that amount, it gets the next id, and nothing else of the books changes.
pub proof fn an_invoice_begins_as_a_draft(
    w: WorldV,
    door: Seq<char>,
    key: Option<Seq<char>>,
    customer_id: u64,
    amount_cents: i64,
    now: u128,
)
    requires
        room(w),
        fresh(w, key),
    ensures
        (forall|c: int| 0 <= c < w.customers.len() ==> (#[trigger] w.customers[c]).id != customer_id)
            ==> invoice_created(w, door, key, customer_id, amount_cents, now) == (
            w,
            Err::<WrittenV, DomainErrorV>(DomainErrorV::NotFound("customer"@, customer_id)),
        ),
        forall|c: int|
            0 <= c < w.customers.len() && (#[trigger] w.customers[c]).id == customer_id
                && unlimited(w) ==> invoice_created(
                w,
                door,
                key,
                customer_id,
                amount_cents,
                now,
            ).1 is Ok,
        invoice_created(w, door, key, customer_id, amount_cents, now).1 matches Ok(told) ==> {
            let n = invoice_created(w, door, key, customer_id, amount_cents, now).0;
            let i = n.invoices.last();
            &&& n.invoices.len() == w.invoices.len() + 1
            &&& n.invoices.drop_last() == w.invoices
            &&& i.id == w.next_id
            &&& i.customer_id == customer_id
            &&& i.amount_cents == amount_cents
            &&& i.status is Draft && !i.approved && !i.receipt_sent
            &&& n.next_id == w.next_id + 1
            &&& n.customers == w.customers && n.outbox == w.outbox && n.payments == w.payments
            &&& n.reports == w.reports && n.chaos == w.chaos && n.seed == w.seed
            &&& told.value == invoice_json(i)
            &&& told.latency_ms == w.chaos.latency_ms
            &&& told.events.len() == 1 && n.events == w.events + told.events
            &&& told.events[0].kind == "invoice.created"@ && told.events[0].entity == "invoice"@
            &&& told.events[0].id == i.id && told.events[0].data == told.value
            &&& key matches Some(x) ==> n.replay == w.replay.insert(x, told.value)
            &&& key is None ==> n.replay == w.replay
        },
{
    let n = invoice_created(w, door, key, customer_id, amount_cents, now).0;
    if let Ok(told) = invoice_created(w, door, key, customer_id, amount_cents, now).1 {
        assert(n.invoices.drop_last() =~= w.invoices);
        assert(n.events =~= w.events + told.events);
    }
}

/// A new customer has the name and the address that were given, and the next id.
pub proof fn a_customer_is_who_was_asked_for(
    w: WorldV,
    door: Seq<char>,
    key: Option<Seq<char>>,
    name: Seq<char>,
    email: Seq<char>,
    now: u128,
)
    requires
        room(w),
        fresh(w, key),
    ensures
        unlimited(w) ==> customer_created(w, door, key, name, email, now).1 is Ok,
        customer_created(w, door, key, name, email, now).1 matches Ok(told) ==> {
            let n = customer_created(w, door, key, name, email, now).0;
            let c = n.customers.last();
            &&& n.customers.len() == w.customers.len() + 1
            &&& n.customers.drop_last() == w.customers
            &&& c.id == w.next_id && c.name == name && c.email == email
            &&& n.next_id == w.next_id + 1
            &&& n.invoices == w.invoices && n.outbox == w.outbox && n.payments == w.payments
            &&& n.reports == w.reports && n.chaos == w.chaos && n.seed == w.seed
            &&& told.value == customer_json(c)
            &&& told.latency_ms == w.chaos.latency_ms
            &&& told.events.len() == 1 && n.events == w.events + told.events
            &&& told.events[0].kind == "customer.created"@ && told.events[0].entity == "customer"@
            &&& told.events[0].id == c.id && told.events[0].data == told.value
            &&& key matches Some(x) ==> n.replay == w.replay.insert(x, told.value)
            &&& key is None ==> n.replay == w.replay
        },
{
    let n = customer_created(w, door, key, name, email, now).0;
    if let Ok(told) = customer_created(w, door, key, name, email, now).1 {
        assert(n.customers.drop_last() =~= w.customers);
        assert(n.events =~= w.events + told.events);
    }
}

// ---------- the page, and the outside world ----------

/// Approving changes one invoice, and of it only that it is approved; it needs no key and sends
/// nothing.
pub proof fn an_approval_marks_one_invoice(w: WorldV, id: u64, now: u128)
    requires
        room(w),
    ensures
        nowhere(w.invoices, id) ==> invoice_approved(w, id, now) == (
            w,
            Err::<(JsonV, EventV), DomainErrorV>(DomainErrorV::NotFound("invoice"@, id)),
        ),
        forall|k: int| #[trigger]
            at_place(w.invoices, id, k) ==> {
                let n = invoice_approved(w, id, now).0;
                &&& invoice_approved(w, id, now).1 matches Ok((v, e)) && v == invoice_json(
                    n.invoices[k],
                ) && e.kind == "invoice.approved"@ && e.entity == "invoice"@ && e.id == id && e.data
                    == v && n.events == w.events.push(e)
                &&& n.invoices.len() == w.invoices.len()
                &&& forall|j: int| 0 <= j < w.invoices.len() && j != k ==> #[trigger] n.invoices[j]
                    == w.invoices[j]
                &&& n.invoices[k].id == id
                &&& n.invoices[k].approved
                &&& n.invoices[k].customer_id == w.invoices[k].customer_id
                &&& n.invoices[k].amount_cents == w.invoices[k].amount_cents
                &&& n.invoices[k].status == w.invoices[k].status
                &&& n.invoices[k].receipt_sent == w.invoices[k].receipt_sent
                &&& n.outbox == w.outbox && n.customers == w.customers && n.payments == w.payments
                &&& n.reports == w.reports && n.replay == w.replay && n.next_id == w.next_id
                &&& n.chaos == w.chaos
            },
{
    if nowhere(w.invoices, id) {
        unplaced(w.invoices, id);
    }
    assert forall|k: int| #[trigger] at_place(w.invoices, id, k) implies place_of(w.invoices, id)
        == Some(k) by {
        placed(w.invoices, id, k);
    }
}

/// A payment makes its invoice paid and is booked; the event goes out unless the webhook is lost.
pub proof fn a_payment_pays_one_invoice(w: WorldV, id: u64, silent: bool, now: u128)
    requires
        room(w),
    ensures
        nowhere(w.invoices, id) ==> payment_received(w, id, silent, now) == (
            w,
            Err::<(JsonV, Seq<EventV>), DomainErrorV>(DomainErrorV::NotFound("invoice"@, id)),
        ),
        forall|k: int| #[trigger]
            at_place(w.invoices, id, k) ==> {
                let n = payment_received(w, id, silent, now).0;
                &&& payment_received(w, id, silent, now).1 matches Ok((v, es)) && v == payment_json(
                    Payment { id: w.next_id, invoice_id: id },
                ) && n.events == w.events + es && es.len() == (if silent {
                    0int
                } else {
                    1int
                }) && (!silent ==> es[0].kind == "payment.received"@ && es[0].entity == "invoice"@
                    && es[0].id == id && es[0].data == v)
                &&& n.payments == w.payments.push(Payment { id: w.next_id, invoice_id: id })
                &&& n.next_id == w.next_id + 1
                &&& n.invoices.len() == w.invoices.len()
                &&& forall|j: int| 0 <= j < w.invoices.len() && j != k ==> #[trigger] n.invoices[j]
                    == w.invoices[j]
                &&& n.invoices[k].id == id
                &&& n.invoices[k].status is Paid
                &&& n.invoices[k].customer_id == w.invoices[k].customer_id
                &&& n.invoices[k].amount_cents == w.invoices[k].amount_cents
                &&& n.invoices[k].approved == w.invoices[k].approved
                &&& n.invoices[k].receipt_sent == w.invoices[k].receipt_sent
                &&& n.outbox == w.outbox && n.customers == w.customers && n.reports == w.reports
                &&& n.replay == w.replay && n.chaos == w.chaos
            },
{
    if nowhere(w.invoices, id) {
        unplaced(w.invoices, id);
    }
    assert forall|k: int| #[trigger] at_place(w.invoices, id, k) implies place_of(w.invoices, id)
        == Some(k) by {
        placed(w.invoices, id, k);
    }
    let n = payment_received(w, id, silent, now).0;
    if let Ok((v, es)) = payment_received(w, id, silent, now).1 {
        assert(n.events =~= w.events + es);
    }
}

} // verus!
