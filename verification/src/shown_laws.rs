//! What a reader finds in what the invoicing world shows: each thing under its own name.

use crate::api::{
    effect_json, effects_json, error_json, outbox_json, refused, snapshot_json, ApiErrorV,
};
use crate::domain::{
    customer_json, event_json, invoice_json, payment_json, report_json, CustomerV, DomainErrorV,
    EffectV, EventV, Invoice, OutboxMessageV, Payment, ReportV,
};
use crate::invoicing::WorldV;
use crate::json::{json_text, member, JsonV};
use crate::lookup_laws::{a_missing_entry_is_none, the_first_entry_counts};
use crate::mcp::{done_json, failed_json, ok_json};
use crate::text::dec;
use crate::writes::repeats;
use vstd::prelude::*;

verus! {

/// An invoice is shown with its own number, customer, amount, status, approval and receipt.
pub proof fn an_invoice_is_shown(i: Invoice)
    ensures
        member(invoice_json(i), "id"@) == Some(JsonV::Int(i.id as int)),
        member(invoice_json(i), "customer_id"@) == Some(JsonV::Int(i.customer_id as int)),
        member(invoice_json(i), "amount_cents"@) == Some(JsonV::Int(i.amount_cents as int)),
        i.status is Draft ==> member(invoice_json(i), "status"@) == Some(JsonV::Str("draft"@)),
        i.status is Sent ==> member(invoice_json(i), "status"@) == Some(JsonV::Str("sent"@)),
        i.status is Paid ==> member(invoice_json(i), "status"@) == Some(JsonV::Str("paid"@)),
        member(invoice_json(i), "approved"@) == Some(JsonV::Bool(i.approved)),
        member(invoice_json(i), "receipt_sent"@) == Some(JsonV::Bool(i.receipt_sent)),
{
    reveal_strlit("id");
    assert("id"@.len() == 2);
    reveal_strlit("customer_id");
    assert("customer_id"@.len() == 11);
    reveal_strlit("amount_cents");
    assert("amount_cents"@.len() == 12);
    reveal_strlit("status");
    assert("status"@.len() == 6);
    reveal_strlit("approved");
    assert("approved"@.len() == 8);
    reveal_strlit("receipt_sent");
    assert("receipt_sent"@.len() == 12);
    assert("amount_cents"@[0] != "receipt_sent"@[0]);
    let xs = invoice_json(i)->Obj_0;
    the_first_entry_counts(xs, "amount_cents"@, 0);
    the_first_entry_counts(xs, "approved"@, 1);
    the_first_entry_counts(xs, "customer_id"@, 2);
    the_first_entry_counts(xs, "id"@, 3);
    the_first_entry_counts(xs, "receipt_sent"@, 4);
    the_first_entry_counts(xs, "status"@, 5);
}

/// A customer is shown with its own number, name and address.
pub proof fn a_customer_is_shown(c: CustomerV)
    ensures
        member(customer_json(c), "id"@) == Some(JsonV::Int(c.id as int)),
        member(customer_json(c), "name"@) == Some(JsonV::Str(c.name)),
        member(customer_json(c), "email"@) == Some(JsonV::Str(c.email)),
{
    reveal_strlit("id");
    assert("id"@.len() == 2);
    reveal_strlit("name");
    assert("name"@.len() == 4);
    reveal_strlit("email");
    assert("email"@.len() == 5);
    let xs = customer_json(c)->Obj_0;
    the_first_entry_counts(xs, "email"@, 0);
    the_first_entry_counts(xs, "id"@, 1);
    the_first_entry_counts(xs, "name"@, 2);
}

/// A report is shown with the invoices it is over, what they amount to and how many went out.
pub proof fn a_report_is_shown(r: ReportV)
    ensures
        member(report_json(r), "id"@) == Some(JsonV::Int(r.id as int)),
        member(report_json(r), "total_cents"@) == Some(JsonV::Int(r.total_cents as int)),
        member(report_json(r), "sent_count"@) == Some(JsonV::Int(r.sent_count as int)),
        member(report_json(r), "invoice_ids"@) matches Some(JsonV::List(ids)) && ids.len()
            == r.invoice_ids.len() && forall|i: int|
            0 <= i < ids.len() ==> #[trigger] ids[i] == JsonV::Int(r.invoice_ids[i] as int),
{
    reveal_strlit("id");
    assert("id"@.len() == 2);
    reveal_strlit("invoice_ids");
    assert("invoice_ids"@.len() == 11);
    reveal_strlit("sent_count");
    assert("sent_count"@.len() == 10);
    reveal_strlit("total_cents");
    assert("total_cents"@.len() == 11);
    assert("total_cents"@[0] != "invoice_ids"@[0]);
    let xs = report_json(r)->Obj_0;
    the_first_entry_counts(xs, "id"@, 0);
    the_first_entry_counts(xs, "invoice_ids"@, 1);
    the_first_entry_counts(xs, "sent_count"@, 2);
    the_first_entry_counts(xs, "total_cents"@, 3);
}

/// A payment is shown with its own number and that of its invoice.
pub proof fn a_payment_is_shown(p: Payment)
    ensures
        member(payment_json(p), "id"@) == Some(JsonV::Int(p.id as int)),
        member(payment_json(p), "invoice_id"@) == Some(JsonV::Int(p.invoice_id as int)),
{
    reveal_strlit("id");
    assert("id"@.len() == 2);
    reveal_strlit("invoice_id");
    assert("invoice_id"@.len() == 10);
    let xs = payment_json(p)->Obj_0;
    the_first_entry_counts(xs, "id"@, 0);
    the_first_entry_counts(xs, "invoice_id"@, 1);
}

/// A message is shown with whom it went to, what it is about and under which key it went.
pub proof fn a_message_is_shown(m: OutboxMessageV)
    ensures
        member(outbox_json(m), "id"@) == Some(JsonV::Int(m.id as int)),
        member(outbox_json(m), "to"@) == Some(JsonV::Str(m.to)),
        member(outbox_json(m), "subject"@) == Some(JsonV::Str(m.subject)),
        member(outbox_json(m), "kind"@) == Some(JsonV::Str(m.kind)),
        member(outbox_json(m), "invoice_id"@) == Some(JsonV::Int(m.invoice_id as int)),
        m.key matches Some(k) ==> member(outbox_json(m), "key"@) == Some(JsonV::Str(k)),
        m.key is None ==> member(outbox_json(m), "key"@) == Some(JsonV::Null),
{
    reveal_strlit("id");
    assert("id"@.len() == 2);
    reveal_strlit("invoice_id");
    assert("invoice_id"@.len() == 10);
    reveal_strlit("key");
    assert("key"@.len() == 3);
    reveal_strlit("kind");
    assert("kind"@.len() == 4);
    reveal_strlit("subject");
    assert("subject"@.len() == 7);
    reveal_strlit("to");
    assert("to"@.len() == 2);
    assert("id"@[0] != "to"@[0]);
    let xs = outbox_json(m)->Obj_0;
    the_first_entry_counts(xs, "id"@, 0);
    the_first_entry_counts(xs, "invoice_id"@, 1);
    the_first_entry_counts(xs, "key"@, 2);
    the_first_entry_counts(xs, "kind"@, 3);
    the_first_entry_counts(xs, "subject"@, 4);
    the_first_entry_counts(xs, "to"@, 5);
}

/// An event is shown with its own kind, entity, number and contents.
pub proof fn an_event_is_shown(e: EventV)
    ensures
        member(event_json(e), "kind"@) == Some(JsonV::Str(e.kind)),
        member(event_json(e), "entity"@) == Some(JsonV::Str(e.entity)),
        member(event_json(e), "id"@) == Some(JsonV::Int(e.id as int)),
        member(event_json(e), "data"@) == Some(e.data),
        member(event_json(e), "seq"@) == Some(JsonV::Int(e.seq as int)),
        member(event_json(e), "at_ms"@) == Some(JsonV::Int(e.at_ms as int)),
{
    reveal_strlit("at_ms");
    assert("at_ms"@.len() == 5);
    reveal_strlit("data");
    assert("data"@.len() == 4);
    reveal_strlit("entity");
    assert("entity"@.len() == 6);
    reveal_strlit("id");
    assert("id"@.len() == 2);
    reveal_strlit("kind");
    assert("kind"@.len() == 4);
    reveal_strlit("seq");
    assert("seq"@.len() == 3);
    assert("data"@[0] != "kind"@[0]);
    let xs = event_json(e)->Obj_0;
    the_first_entry_counts(xs, "at_ms"@, 0);
    the_first_entry_counts(xs, "data"@, 1);
    the_first_entry_counts(xs, "entity"@, 2);
    the_first_entry_counts(xs, "id"@, 3);
    the_first_entry_counts(xs, "kind"@, 4);
    the_first_entry_counts(xs, "seq"@, 5);
}

/// An attempt is shown with what was tried, by which door, under which key and whether it was
/// replayed.
pub proof fn an_attempt_is_shown(e: EffectV)
    ensures
        member(effect_json(e), "op"@) == Some(JsonV::Str(e.op)),
        member(effect_json(e), "door"@) == Some(JsonV::Str(e.door)),
        member(effect_json(e), "entity"@) == Some(JsonV::Str(e.entity)),
        member(effect_json(e), "replayed"@) == Some(JsonV::Bool(e.replayed)),
        member(effect_json(e), "seq"@) == Some(JsonV::Int(e.seq as int)),
        member(effect_json(e), "at_ms"@) == Some(JsonV::Int(e.at_ms as int)),
        e.key matches Some(k) ==> member(effect_json(e), "key"@) == Some(JsonV::Str(k)),
        e.key is None ==> member(effect_json(e), "key"@) == Some(JsonV::Null),
{
    reveal_strlit("at_ms");
    assert("at_ms"@.len() == 5);
    reveal_strlit("door");
    assert("door"@.len() == 4);
    reveal_strlit("entity");
    assert("entity"@.len() == 6);
    reveal_strlit("key");
    assert("key"@.len() == 3);
    reveal_strlit("op");
    assert("op"@.len() == 2);
    reveal_strlit("replayed");
    assert("replayed"@.len() == 8);
    reveal_strlit("seq");
    assert("seq"@.len() == 3);
    assert("key"@[0] != "seq"@[0]);
    let xs = effect_json(e)->Obj_0;
    the_first_entry_counts(xs, "at_ms"@, 0);
    the_first_entry_counts(xs, "door"@, 1);
    the_first_entry_counts(xs, "entity"@, 2);
    the_first_entry_counts(xs, "key"@, 3);
    the_first_entry_counts(xs, "op"@, 4);
    the_first_entry_counts(xs, "replayed"@, 5);
    the_first_entry_counts(xs, "seq"@, 6);
}

/// The snapshot of a world holds everything the world holds, each kind under its own name and in
/// its own order.
pub proof fn a_snapshot_shows_the_world(w: WorldV, chaos: JsonV)
    ensures
        member(snapshot_json(w, chaos), "seed"@) == Some(JsonV::Int(w.seed as int)),
        member(snapshot_json(w, chaos), "chaos"@) == Some(chaos),
        member(snapshot_json(w, chaos), "customers"@) matches Some(JsonV::List(xs)) && xs.len()
            == w.customers.len() && forall|i: int|
            0 <= i < xs.len() ==> #[trigger] xs[i] == customer_json(w.customers[i]),
        member(snapshot_json(w, chaos), "invoices"@) matches Some(JsonV::List(xs)) && xs.len()
            == w.invoices.len() && forall|i: int|
            0 <= i < xs.len() ==> #[trigger] xs[i] == invoice_json(w.invoices[i]),
        member(snapshot_json(w, chaos), "outbox"@) matches Some(JsonV::List(xs)) && xs.len()
            == w.outbox.len() && forall|i: int|
            0 <= i < xs.len() ==> #[trigger] xs[i] == outbox_json(w.outbox[i]),
        member(snapshot_json(w, chaos), "payments"@) matches Some(JsonV::List(xs)) && xs.len()
            == w.payments.len() && forall|i: int|
            0 <= i < xs.len() ==> #[trigger] xs[i] == payment_json(w.payments[i]),
        member(snapshot_json(w, chaos), "reports"@) matches Some(JsonV::List(xs)) && xs.len()
            == w.reports.len() && forall|i: int|
            0 <= i < xs.len() ==> #[trigger] xs[i] == report_json(w.reports[i]),
{
    reveal_strlit("chaos");
    assert("chaos"@.len() == 5);
    reveal_strlit("customers");
    assert("customers"@.len() == 9);
    reveal_strlit("invoices");
    assert("invoices"@.len() == 8);
    reveal_strlit("outbox");
    assert("outbox"@.len() == 6);
    reveal_strlit("payments");
    assert("payments"@.len() == 8);
    reveal_strlit("reports");
    assert("reports"@.len() == 7);
    reveal_strlit("seed");
    assert("seed"@.len() == 4);
    assert("invoices"@[0] != "payments"@[0]);
    let xs = snapshot_json(w, chaos)->Obj_0;
    the_first_entry_counts(xs, "chaos"@, 0);
    the_first_entry_counts(xs, "customers"@, 1);
    the_first_entry_counts(xs, "invoices"@, 2);
    the_first_entry_counts(xs, "outbox"@, 3);
    the_first_entry_counts(xs, "payments"@, 4);
    the_first_entry_counts(xs, "reports"@, 5);
    the_first_entry_counts(xs, "seed"@, 6);
}

/// What was tried is shown attempt by attempt, and nothing counts as sent twice exactly where no
/// two messages of one kind are about one invoice.
pub proof fn attempts_are_shown(w: WorldV)
    ensures
        member(effects_json(w), "effects"@) matches Some(JsonV::List(xs)) && xs.len()
            == w.effects.len() && forall|i: int|
            0 <= i < xs.len() ==> #[trigger] xs[i] == effect_json(w.effects[i]),
        member(effects_json(w), "double_sends"@) == Some(JsonV::Int(0)) <==> forall|i: int, j: int|
            0 <= i < j < w.outbox.len() ==> (#[trigger] w.outbox[i]).kind != (
            #[trigger] w.outbox[j]).kind || w.outbox[i].invoice_id != w.outbox[j].invoice_id,
{
    reveal_strlit("double_sends");
    assert("double_sends"@.len() == 12);
    reveal_strlit("effects");
    assert("effects"@.len() == 7);
    let xs = effects_json(w)->Obj_0;
    the_first_entry_counts(xs, "double_sends"@, 0);
    the_first_entry_counts(xs, "effects"@, 1);
    none_repeat(w.outbox, w.outbox.len());
    let n = crate::writes::repeat_count(w.outbox, w.outbox.len());
    if n == 0 {
        assert forall|i: int, j: int| 0 <= i < j < w.outbox.len() implies (
        #[trigger] w.outbox[i]).kind != (#[trigger] w.outbox[j]).kind || w.outbox[i].invoice_id
            != w.outbox[j].invoice_id by {
            assert(!repeats(w.outbox, j));
        }
    }
}

proof fn none_repeat(ms: Seq<OutboxMessageV>, n: nat)
    ensures
        crate::writes::repeat_count(ms, n) == 0 <==> forall|j: int|
            0 <= j < n ==> !#[trigger] repeats(ms, j),
    decreases n,
{
    if n > 0 {
        none_repeat(ms, (n - 1) as nat);
        assert(crate::writes::repeat_count(ms, n) == 0 ==> !repeats(ms, n - 1));
    }
}

/// A message counts as sent twice once for every message of its kind about its invoice that went
/// out before it; a message like no other adds nothing.
pub proof fn a_new_message_doubles_at_most_once(ms: Seq<OutboxMessageV>, m: OutboxMessageV)
    ensures
        crate::writes::repeat_count(ms.push(m), ms.push(m).len()) == crate::writes::repeat_count(
            ms,
            ms.len(),
        ) + (if exists|j: int|
            0 <= j < ms.len() && (#[trigger] ms[j]).invoice_id == m.invoice_id && ms[j].kind
                == m.kind {
            1nat
        } else {
            0nat
        }),
{
    let all = ms.push(m);
    prefix_repeats(ms, m, ms.len());
    let n = ms.len() as int;
    if repeats(all, n) {
        let j = choose|j: int|
            0 <= j < n && (#[trigger] all[j]).invoice_id == all[n].invoice_id && all[j].kind
                == all[n].kind;
        assert(ms[j] == all[j]);
    }
    if exists|j: int|
        0 <= j < ms.len() && (#[trigger] ms[j]).invoice_id == m.invoice_id && ms[j].kind == m.kind {
        let j = choose|j: int|
            0 <= j < ms.len() && (#[trigger] ms[j]).invoice_id == m.invoice_id && ms[j].kind
                == m.kind;
        assert(all[j] == ms[j]);
        assert(repeats(all, n));
    }
    assert((all.len() - 1) as nat == ms.len());
}

proof fn prefix_repeats(ms: Seq<OutboxMessageV>, m: OutboxMessageV, n: nat)
    requires
        n <= ms.len(),
    ensures
        crate::writes::repeat_count(ms.push(m), n) == crate::writes::repeat_count(ms, n),
    decreases n,
{
    if n > 0 {
        prefix_repeats(ms, m, (n - 1) as nat);
        let all = ms.push(m);
        let i = n - 1;
        if repeats(all, i) {
            let j = choose|j: int|
                0 <= j < i && (#[trigger] all[j]).invoice_id == all[i].invoice_id && all[j].kind
                    == all[i].kind;
            assert(ms[j] == all[j] && ms[i] == all[i]);
            assert(repeats(ms, i));
        }
        if repeats(ms, i) {
            let j = choose|j: int|
                0 <= j < i && (#[trigger] ms[j]).invoice_id == ms[i].invoice_id && ms[j].kind
                    == ms[i].kind;
            assert(all[j] == ms[j] && ms[i] == all[i]);
            assert(repeats(all, i));
        }
    }
}

/// The body of a failed request says its status and its words, and when to come back exactly
/// where the server knows. What is not there is 404, what is not yet allowed is 409, what comes
/// too often is 429, and chance is 500.
pub proof fn a_refusal_is_shown(e: DomainErrorV)
    ensures
        member(error_json(refused(e)), "status"@) == Some(
            JsonV::Int(
                match e {
                    DomainErrorV::NotFound(_, _) => 404,
                    DomainErrorV::NotApproved(_) => 409,
                    DomainErrorV::NotPaid(_) => 409,
                    DomainErrorV::Ambiguous(_, _) => 409,
                    DomainErrorV::ChaosFail => 500,
                    DomainErrorV::RateLimited { .. } => 429,
                },
            ),
        ),
        e matches DomainErrorV::RateLimited { retry_after_ms } ==> member(
            error_json(refused(e)),
            "retry_after_ms"@,
        ) == Some(JsonV::Int(retry_after_ms as int)),
        !(e is RateLimited) ==> member(error_json(refused(e)), "retry_after_ms"@) is None,
        e matches DomainErrorV::NotFound(what, id) ==> member(error_json(refused(e)), "error"@)
            == Some(JsonV::Str(what + " "@ + dec(id as nat) + " not found"@)),
{
    reveal_strlit("error");
    assert("error"@.len() == 5);
    reveal_strlit("retry_after_ms");
    assert("retry_after_ms"@.len() == 14);
    reveal_strlit("status");
    assert("status"@.len() == 6);
    let xs = error_json(refused(e))->Obj_0;
    the_first_entry_counts(xs, "error"@, 0);
    if e is RateLimited {
        the_first_entry_counts(xs, "retry_after_ms"@, 1);
        the_first_entry_counts(xs, "status"@, 2);
    } else {
        the_first_entry_counts(xs, "status"@, 1);
        a_missing_entry_is_none(error_json(refused(e)), "retry_after_ms"@);
    }
}

/// What a tool gives is told under the id that was asked with: marked as no error, and as it is.
/// A failure is marked as one and keeps its status.
pub proof fn a_tool_answer_is_told(id: JsonV, v: JsonV, e: ApiErrorV)
    ensures
        member(ok_json(id, v), "id"@) == Some(id),
        member(ok_json(id, v), "result"@) == Some(v),
        member(ok_json(id, v), "jsonrpc"@) == Some(JsonV::Str("2.0"@)),
        member(done_json(v), "structuredContent"@) == Some(v),
        member(done_json(v), "isError"@) == Some(JsonV::Bool(false)),
        member(done_json(v), "content"@) matches Some(JsonV::List(xs)) && xs.len() == 1 && member(
            xs[0],
            "text"@,
        ) == Some(JsonV::Str(json_text(v))),
        member(failed_json(e), "isError"@) == Some(JsonV::Bool(true)),
        member(failed_json(e), "_status"@) == Some(JsonV::Int(e.status as int)),
        member(failed_json(e), "content"@) matches Some(JsonV::List(xs)) && xs.len() == 1
            && member(xs[0], "text"@) == Some(
            JsonV::Str("error "@ + dec(e.status as nat) + ": "@ + e.message),
        ),
{
    reveal_strlit("id");
    assert("id"@.len() == 2);
    reveal_strlit("jsonrpc");
    assert("jsonrpc"@.len() == 7);
    reveal_strlit("result");
    assert("result"@.len() == 6);
    reveal_strlit("content");
    assert("content"@.len() == 7);
    reveal_strlit("isError");
    assert("isError"@.len() == 7);
    reveal_strlit("structuredContent");
    assert("structuredContent"@.len() == 17);
    reveal_strlit("_status");
    assert("_status"@.len() == 7);
    reveal_strlit("text");
    assert("text"@.len() == 4);
    assert("content"@[0] != "isError"@[0]);
    assert("_status"@[0] != "isError"@[0]);
    assert("_status"@[0] != "content"@[0]);
    let xs = ok_json(id, v)->Obj_0;
    the_first_entry_counts(xs, "id"@, 0);
    the_first_entry_counts(xs, "jsonrpc"@, 1);
    the_first_entry_counts(xs, "result"@, 2);
    let ds = done_json(v)->Obj_0;
    the_first_entry_counts(ds, "content"@, 0);
    the_first_entry_counts(ds, "isError"@, 1);
    the_first_entry_counts(ds, "structuredContent"@, 2);
    the_first_entry_counts(ds[0].1->List_0[0]->Obj_0, "text"@, 0);
    let fs = failed_json(e)->Obj_0;
    the_first_entry_counts(fs, "_status"@, 0);
    the_first_entry_counts(fs, "content"@, 1);
    the_first_entry_counts(fs, "isError"@, 2);
    the_first_entry_counts(fs[1].1->List_0[0]->Obj_0, "text"@, 0);
}

} // verus!
