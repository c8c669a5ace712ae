//! What the doors of the invoicing world give: reports, lists, single things, and what happens
//! where writes come too often.

use crate::api::report_at;
use crate::cut::{lower, same_ascii_case};
use crate::domain::{customer_json, invoice_json, CustomerV, DomainErrorV, Invoice, ReportV};
use crate::invoicing::{
    gate, invoices_of, named, place_of, prefixed, room, seeded_world, tally, WorldV, WrittenV,
};
use crate::json::{member, JsonV};
use crate::mcp::{call_of, called, ids_of, turn_of, CallV, TurnV};
use crate::service_laws::{at_place, fresh, nowhere, unlimited};
use crate::writes::{invoice_created, invoice_sent, receipt_sent, report_created};
use vstd::prelude::*;

verus! {

// ---------- reports ----------

proof fn first_place(is: Seq<Invoice>, id: u64, k: int)
    requires
        at_place(is, id, k),
    ensures
        place_of(is, id) == Some(k),
    decreases k,
{
    if k > 0 {
        let t = is.drop_first();
        assert(is[0].id != id);
        assert(t[k - 1] == is[k]);
        assert forall|j: int| 0 <= j < k - 1 implies (#[trigger] t[j]).id != id by {
            assert(t[j] == is[j + 1]);
        }
        first_place(t, id, k - 1);
    }
}

proof fn no_place(is: Seq<Invoice>, id: u64)
    requires
        nowhere(is, id),
    ensures
        place_of(is, id) is None,
    decreases is.len(),
{
    if is.len() > 0 {
        let t = is.drop_first();
        assert(is[0].id != id);
        assert forall|j: int| 0 <= j < t.len() implies (#[trigger] t[j]).id != id by {
            assert(t[j] == is[j + 1]);
        }
        no_place(t, id);
    }
}

/// A report over no invoices comes to nothing. A report over one more invoice comes to that
/// invoice's amount more, and counts one more as sent exactly where it is no draft. A report over
/// an invoice that is not there is refused.
pub proof fn a_report_sums_its_invoices(
    w: WorldV,
    door: Seq<char>,
    ids: Seq<u64>,
    id: u64,
    now: u128,
    k: int,
)
    requires
        room(w),
        unlimited(w),
        ids.len() < usize::MAX,
        report_created(w, door, None, ids, now).1 is Ok,
        tally(w.invoices, ids) matches Ok(t) && i64::MIN <= t.0 <= i64::MAX && t.1 <= ids.len(),
    ensures
        ({
            let r = report_created(w, door, None, ids, now).0.reports.last();
            let more = report_created(w, door, None, ids.push(id), now);
            &&& ids.len() == 0 ==> r.total_cents == 0 && r.sent_count == 0
            &&& r.invoice_ids == ids
            &&& r.id == w.next_id
            &&& nowhere(w.invoices, id) ==> more == (
                w,
                Err::<WrittenV, DomainErrorV>(DomainErrorV::NotFound("invoice"@, id)),
            )
            &&& at_place(w.invoices, id, k) && i64::MIN <= r.total_cents
                + w.invoices[k].amount_cents <= i64::MAX ==> {
                let n = more.0.reports.last();
                &&& more.1 is Ok
                &&& more.0.reports.drop_last() == w.reports
                &&& n.invoice_ids == ids.push(id)
                &&& n.total_cents == r.total_cents + w.invoices[k].amount_cents
                &&& n.sent_count == r.sent_count + (if w.invoices[k].status is Draft {
                    0int
                } else {
                    1int
                })
                &&& more.0.invoices == w.invoices && more.0.outbox == w.outbox
                &&& more.0.customers == w.customers && more.0.payments == w.payments
            }
        }),
{
    assert(ids.push(id).drop_last() =~= ids);
    if nowhere(w.invoices, id) {
        no_place(w.invoices, id);
    }
    if at_place(w.invoices, id, k) {
        first_place(w.invoices, id, k);
        assert(report_created(w, door, None, ids.push(id), now).0.reports.drop_last()
            =~= w.reports);
    }
}

/// A report is found by its id, and is the first with it.
pub proof fn a_report_is_found_by_its_id(rs: Seq<ReportV>, id: u64, k: int)
    requires
        0 <= k < rs.len(),
        rs[k].id == id,
        forall|j: int| 0 <= j < k ==> (#[trigger] rs[j]).id != id,
    ensures
        report_at(rs, id) == Some(rs[k]),
    decreases k,
{
    if k > 0 {
        let t = rs.drop_first();
        assert(rs[0].id != id);
        assert(t[k - 1] == rs[k]);
        assert forall|j: int| 0 <= j < k - 1 implies (#[trigger] t[j]).id != id by {
            assert(t[j] == rs[j + 1]);
        }
        a_report_is_found_by_its_id(t, id, k - 1);
    }
}

// ---------- lists ----------

proof fn named_is_filtered(cs: Seq<CustomerV>, name: Seq<char>)
    ensures
        named(cs, name) == cs.filter(|c: CustomerV| same_ascii_case(c.name, name)),
    decreases cs.len(),
{
    reveal(Seq::filter);
    if cs.len() > 0 {
        named_is_filtered(cs.drop_last(), name);
    }
}

/// Customers are found by their whole name, whatever the case of its letters; each of them is
/// found, and in the order of the books.
pub proof fn customers_are_found_by_name(cs: Seq<CustomerV>, name: Seq<char>, c: int)
    requires
        0 <= c < cs.len(),
    ensures
        named(cs, name) == cs.filter(|c: CustomerV| same_ascii_case(c.name, name)),
        cs[c].name == name ==> named(cs, name).contains(cs[c]),
        cs[c].name.len() != name.len() ==> !named(cs, name).contains(cs[c]),
{
    named_is_filtered(cs, name);
    crate::seqs::filter_has(cs, |c: CustomerV| same_ascii_case(c.name, name), cs[c]);
    assert(cs.contains(cs[c]));
}

/// Customers are found by how their names begin, whatever the case.
pub proof fn customers_are_found_by_prefix(cs: Seq<CustomerV>, prefix: Seq<char>)
    ensures
        prefixed(cs, prefix) == cs.filter(
            |c: CustomerV| lower(prefix).is_prefix_of(lower(c.name)),
        ),
    decreases cs.len(),
{
    reveal(Seq::filter);
    if cs.len() > 0 {
        customers_are_found_by_prefix(cs.drop_last(), prefix);
    }
}

/// The invoices of a customer are those whose customer it is; without one, all.
pub proof fn invoices_are_listed_by_customer(is: Seq<Invoice>, c: u64)
    ensures
        invoices_of(is, Some(c)) == is.filter(|i: Invoice| i.customer_id == c),
        invoices_of(is, None) == is,
    decreases is.len(),
{
    reveal(Seq::filter);
    if is.len() > 0 {
        invoices_are_listed_by_customer(is.drop_last(), c);
        assert(is.drop_last().push(is.last()) =~= is);
    } else {
        assert(invoices_of(is, None) =~= is);
    }
}

/// A read changes nothing and makes nobody wait: the list of customers or invoices, or the one
/// invoice that was asked for.
pub proof fn reads_change_nothing(w: WorldV, call: CallV, fails: bool, now: u128, id: u64, k: int)
    ensures
        call is ListCustomers || call is ListInvoices || call is GetInvoice ==> called(
            w,
            call,
            fails,
            now,
        ).0 == w,
        at_place(w.invoices, id, k) ==> (called(w, CallV::GetInvoice(id), fails, now).1 matches
            Ok(r) && r.value == invoice_json(w.invoices[k]) && r.latency_ms == 0 && r.events.len()
            == 0),
        nowhere(w.invoices, id) ==> (called(w, CallV::GetInvoice(id), fails, now).1 matches Err(e)
            && e.status == 404),
        called(w, CallV::ListCustomers(None), fails, now).1 matches Ok(r) && (r.value matches
            JsonV::List(xs) && xs.len() == w.customers.len() && forall|i: int|
            0 <= i < xs.len() ==> #[trigger] xs[i] == customer_json(w.customers[i])),
        called(w, CallV::ListInvoices(None), fails, now).1 matches Ok(r) && (r.value matches
            JsonV::List(xs) && xs.len() == w.invoices.len() && forall|i: int|
            0 <= i < xs.len() ==> #[trigger] xs[i] == invoice_json(w.invoices[i])),
{
    if at_place(w.invoices, id, k) {
        first_place(w.invoices, id, k);
    }
    if nowhere(w.invoices, id) {
        no_place(w.invoices, id);
    }
    invoices_are_listed_by_customer(w.invoices, 0);
}

// ---------- the agents' door ----------

/// What a tool does is what the same request does at any other door; a refusal keeps its status.
pub proof fn a_tool_does_what_it_is_named_for(
    w: WorldV,
    id: u64,
    c: u64,
    amount: i64,
    ids: Seq<u64>,
    key: Option<Seq<char>>,
    fails: bool,
    now: u128,
)
    ensures
        called(w, CallV::CreateInvoice(c, amount, key), fails, now).0 == invoice_created(
            w,
            "mcp"@,
            key,
            c,
            amount,
            now,
        ).0,
        called(w, CallV::SendInvoice(id, key), fails, now).0 == invoice_sent(
            w,
            "mcp"@,
            key,
            id,
            fails,
            now,
        ).0,
        called(w, CallV::SendReceipt(id, key), fails, now).0 == receipt_sent(
            w,
            "mcp"@,
            key,
            id,
            now,
        ).0,
        called(w, CallV::CreateReport(ids, key), fails, now).0 == report_created(
            w,
            "mcp"@,
            key,
            ids,
            now,
        ).0,
        invoice_sent(w, "mcp"@, key, id, fails, now).1 matches Ok(r) ==> called(
            w,
            CallV::SendInvoice(id, key),
            fails,
            now,
        ).1 == Ok::<WrittenV, crate::api::ApiErrorV>(r),
        invoice_sent(w, "mcp"@, key, id, fails, now).1 matches Err(DomainErrorV::NotApproved(_))
            ==> (called(w, CallV::SendInvoice(id, key), fails, now).1 matches Err(e) && e.status
            == 409),
        receipt_sent(w, "mcp"@, key, id, now).1 matches Err(DomainErrorV::NotPaid(_)) ==> (called(
            w,
            CallV::SendReceipt(id, key),
            fails,
            now,
        ).1 matches Err(e) && e.status == 409),
{
}

/// A tool is called with the arguments under their own names: the invoice by its id, the
/// customer by its id with the amount, the key where one is given. A number that has to be given
/// and is not is a bad request; a tool that nobody knows is not found.
pub proof fn a_call_says_what_it_is_about(args: JsonV, id: u64, c: u64, a: i64, k: Seq<char>)
    requires
        member(args, "id"@) == Some(JsonV::Int(id as int)),
        member(args, "customer_id"@) == Some(JsonV::Int(c as int)),
        member(args, "amount_cents"@) == Some(JsonV::Int(a as int)),
        member(args, "idempotency_key"@) == Some(JsonV::Str(k)),
    ensures
        call_of("getInvoice"@, args) == Ok::<CallV, crate::api::ApiErrorV>(CallV::GetInvoice(id)),
        call_of("sendInvoice"@, args) == Ok::<CallV, crate::api::ApiErrorV>(
            CallV::SendInvoice(id, Some(k)),
        ),
        call_of("sendReceipt"@, args) == Ok::<CallV, crate::api::ApiErrorV>(
            CallV::SendReceipt(id, Some(k)),
        ),
        call_of("createInvoice"@, args) == Ok::<CallV, crate::api::ApiErrorV>(
            CallV::CreateInvoice(c, a, Some(k)),
        ),
        call_of("listInvoices"@, args) == Ok::<CallV, crate::api::ApiErrorV>(
            CallV::ListInvoices(Some(c)),
        ),
        call_of("createReport"@, args) == Ok::<CallV, crate::api::ApiErrorV>(
            CallV::CreateReport(ids_of(member(args, "invoice_ids"@)), Some(k)),
        ),
{
    tool_names_differ();
}

proof fn tool_names_differ()
    ensures
        ({
            let n = seq![
                "listCustomers"@,
                "listInvoices"@,
                "getInvoice"@,
                "createInvoice"@,
                "sendInvoice"@,
                "sendReceipt"@,
                "createReport"@,
            ];
            &&& n[0] != n[1] && n[0] != n[2] && n[0] != n[3] && n[0] != n[4] && n[0] != n[5] && n[0]
                != n[6]
            &&& n[1] != n[2] && n[1] != n[3] && n[1] != n[4] && n[1] != n[5] && n[1] != n[6]
            &&& n[2] != n[3] && n[2] != n[4] && n[2] != n[5] && n[2] != n[6]
            &&& n[3] != n[4] && n[3] != n[5] && n[3] != n[6]
            &&& n[4] != n[5] && n[4] != n[6]
            &&& n[5] != n[6]
        }),
{
    reveal_strlit("listCustomers");
    assert("listCustomers"@.len() == 13);
    reveal_strlit("listInvoices");
    assert("listInvoices"@.len() == 12);
    reveal_strlit("getInvoice");
    assert("getInvoice"@.len() == 10);
    reveal_strlit("createInvoice");
    assert("createInvoice"@.len() == 13);
    reveal_strlit("sendInvoice");
    assert("sendInvoice"@.len() == 11);
    reveal_strlit("sendReceipt");
    assert("sendReceipt"@.len() == 11);
    reveal_strlit("createReport");
    assert("createReport"@.len() == 12);
    assert("listCustomers"@[0] != "createInvoice"@[0]);
    assert("listInvoices"@[0] != "createReport"@[0]);
    assert("sendInvoice"@[4] != "sendReceipt"@[4]);
}

/// A call that lacks the number it needs is a bad request, and an unknown tool is not found.
pub proof fn a_bad_call_is_refused(name: Seq<char>, args: JsonV)
    ensures
        (name == "getInvoice"@ || name == "sendInvoice"@ || name == "sendReceipt"@) && !(member(
            args,
            "id"@,
        ) matches Some(JsonV::Int(_))) ==> (call_of(name, args) matches Err(e) && e.status == 400),
        name == "createInvoice"@ && !(member(args, "customer_id"@) matches Some(JsonV::Int(_)))
            ==> (call_of(name, args) matches Err(e) && e.status == 400),
        name != "listCustomers"@ && name != "listInvoices"@ && name != "getInvoice"@ && name
            != "createInvoice"@ && name != "sendInvoice"@ && name != "sendReceipt"@ && name
            != "createReport"@ ==> (call_of(name, args) matches Err(e) && e.status == 404),
{
    tool_names_differ();
}

/// The ids of a report are the numbers of the list, in its order.
pub proof fn report_ids_are_the_numbers(xs: Seq<u64>)
    ensures
        ids_of(Some(JsonV::List(xs.map_values(|x: u64| JsonV::Int(x as int))))) == xs,
    decreases xs.len(),
{
    let f = |x: u64| JsonV::Int(x as int);
    if xs.len() > 0 {
        report_ids_are_the_numbers(xs.drop_last());
        assert(xs.map_values(f).drop_last() =~= xs.drop_last().map_values(f));
        assert(xs.drop_last().push(xs.last()) =~= xs);
    } else {
        assert(ids_of(Some(JsonV::List(xs.map_values(f)))) =~= xs);
    }
}

/// A request to call a tool becomes that call, under its own id and with its own arguments.
pub proof fn a_request_becomes_its_call(
    req: JsonV,
    id: JsonV,
    params: JsonV,
    name: Seq<char>,
    args: JsonV,
)
    requires
        member(req, "method"@) == Some(JsonV::Str("tools/call"@)),
        member(req, "id"@) == Some(id),
        member(req, "params"@) == Some(params),
        member(params, "name"@) == Some(JsonV::Str(name)),
        member(params, "arguments"@) == Some(args),
    ensures
        call_of(name, args) matches Ok(c) ==> turn_of(req) == TurnV::Do(id, c),
        call_of(name, args) is Err ==> (turn_of(req) matches TurnV::Answer(v)),
{
    reveal_strlit("tools/call");
    assert("tools/call"@.len() == 10);
    reveal_strlit("tools/list");
    assert("tools/list"@.len() == 10);
    reveal_strlit("initialize");
    assert("initialize"@.len() == 10);
    reveal_strlit("notifications/initialized");
    assert("notifications/initialized"@.len() == 25);
    reveal_strlit("ping");
    assert("ping"@.len() == 4);
    assert("tools/call"@[6] != "tools/list"@[6]);
    assert("tools/call"@[0] != "initialize"@[0]);
}

// ---------- too many writes ----------

/// Without a limit every write is let in and only the latency is asked for. With one, so many are
/// let in within a second and no more; a new second starts the count anew.
pub proof fn so_many_writes_a_second(w: WorldV, op: Seq<char>, now: u128)
    requires
        room(w),
    ensures
        w.chaos.rate_limit_per_sec == 0 ==> gate(w, op, now) == (
            w,
            Ok::<u64, DomainErrorV>(w.chaos.latency_ms),
        ),
        w.chaos.rate_limit_per_sec > 0 && now >= w.rate_window_start_ms && now
            < w.rate_window_start_ms + 1000 ==> (gate(w, op, now).1 is Ok <==> w.rate_window_count
            < w.chaos.rate_limit_per_sec),
        w.chaos.rate_limit_per_sec > 0 && now >= w.rate_window_start_ms && now
            < w.rate_window_start_ms + 1000 ==> gate(w, op, now).0.rate_window_count
            == w.rate_window_count + 1 && gate(w, op, now).0.rate_window_start_ms
            == w.rate_window_start_ms,
        w.chaos.rate_limit_per_sec > 0 && now >= w.rate_window_start_ms + 1000 ==> gate(
            w,
            op,
            now,
        ).1 is Ok && gate(w, op, now).0.rate_window_count == 1 && gate(
            w,
            op,
            now,
        ).0.rate_window_start_ms == now,
        gate(w, op, now).1 matches Ok(l) ==> l == w.chaos.latency_ms,
        gate(w, op, now).0.invoices == w.invoices && gate(w, op, now).0.outbox == w.outbox,
{
}

/// Every write that is let in, replayed or failed by the dice is written down once, with its
/// operation, its door and its key.
pub proof fn every_attempt_is_written_down(
    w: WorldV,
    door: Seq<char>,
    key: Option<Seq<char>>,
    id: u64,
    fails: bool,
    now: u128,
)
    requires
        room(w),
        unlimited(w),
        invoice_sent(w, door, key, id, fails, now).1 is Ok || invoice_sent(
            w,
            door,
            key,
            id,
            fails,
            now,
        ).1 == Err::<WrittenV, DomainErrorV>(DomainErrorV::ChaosFail),
    ensures
        ({
            let n = invoice_sent(w, door, key, id, fails, now).0;
            &&& n.effects.len() == w.effects.len() + 1
            &&& n.effects.drop_last() == w.effects
            &&& n.effects.last().op == "sendInvoice"@
            &&& n.effects.last().door == door
            &&& n.effects.last().key == key
            &&& n.effects.last().at_ms == now
            &&& n.effects.last().replayed == !fresh(w, key)
        }),
{
    let n = invoice_sent(w, door, key, id, fails, now).0;
    assert(n.effects.drop_last() =~= w.effects);
}

/// Every world starts calm and empty, with its customers numbered from one; each has a name and
/// an address of its own seed, and the next number is free.
pub proof fn every_world_starts_empty(seed: u64, c: int)
    ensures
        seeded_world(seed).invoices.len() == 0,
        seeded_world(seed).outbox.len() == 0,
        seeded_world(seed).reports.len() == 0,
        seeded_world(seed).payments.len() == 0,
        seeded_world(seed).effects.len() == 0,
        seeded_world(seed).events.len() == 0,
        seeded_world(seed).seed == seed,
        unlimited(seeded_world(seed)),
        !seeded_world(seed).chaos.require_approval,
        !seeded_world(seed).chaos.sends_may_fail,
        seeded_world(seed).chaos.latency_ms == 0,
        seeded_world(seed).customers.len() >= 10,
        0 <= c < seeded_world(seed).customers.len() ==> seeded_world(seed).customers[c].id == c + 1,
        seeded_world(seed).next_id == seeded_world(seed).customers.len() + 1,
        seeded_world(seed).customers[0].name == "Acme"@,
        seed % 100 == 6 ==> seeded_world(seed).customers.len() == 11 && seeded_world(
            seed,
        ).customers[10].name == "Acme"@,
        seed % 100 == 11 ==> seeded_world(seed).customers.len() == 310,
        seed % 100 != 6 && seed % 100 != 11 ==> seeded_world(seed).customers.len() == 10,
        forall|k: Seq<char>| !#[trigger] seeded_world(seed).replay.contains_key(k),
{
    let rs = crate::invoicing::roster(seed);
    assert(crate::invoicing::first_customers().len() == 10);
    assert(rs.len() <= 310);
    assert(rs[0] == crate::invoicing::first_customers()[0]);
}

} // verus!
