//! What holds of the invoicing world whatever is asked of it.

use crate::domain::{DomainErrorV, Invoice, InvoiceStatus, OutboxMessageV};
use crate::invoicing::{
    counted, elapsed, gate, place_is_right, place_of, recorded, replayed, room, roster,
    seeded_world, used, WorldV, WrittenV,
};
use crate::writes::{
    customer_created, invoice_approved, invoice_created, invoice_sent, payment_received,
    receipt_sent, repeat_count, repeats, report_created,
};
use vstd::prelude::*;

verus! {

/// Everything that can be done to the world.
pub enum Write {
    Customer(Seq<char>, Seq<char>),
    Invoice(u64, i64),
    Send(u64, bool),
    Receipt(u64),
    Report(Seq<u64>),
    Approve(u64),
    Payment(u64, bool),
}

/// The world after a write.
pub open spec fn after(
    w: WorldV,
    door: Seq<char>,
    key: Option<Seq<char>>,
    write: Write,
    now: u128,
) -> WorldV {
    match write {
        Write::Customer(name, email) => customer_created(w, door, key, name, email, now).0,
        Write::Invoice(c, amount) => invoice_created(w, door, key, c, amount, now).0,
        Write::Send(id, fails) => invoice_sent(w, door, key, id, fails, now).0,
        Write::Receipt(id) => receipt_sent(w, door, key, id, now).0,
        Write::Report(ids) => report_created(w, door, key, ids, now).0,
        Write::Approve(id) => invoice_approved(w, id, now).0,
        Write::Payment(id, silent) => payment_received(w, id, silent, now).0,
    }
}

/// What a write that may carry a key answers.
pub open spec fn answer(
    w: WorldV,
    door: Seq<char>,
    key: Option<Seq<char>>,
    write: Write,
    now: u128,
) -> Result<WrittenV, DomainErrorV> {
    match write {
        Write::Customer(name, email) => customer_created(w, door, key, name, email, now).1,
        Write::Invoice(c, amount) => invoice_created(w, door, key, c, amount, now).1,
        Write::Send(id, fails) => invoice_sent(w, door, key, id, fails, now).1,
        Write::Receipt(id) => receipt_sent(w, door, key, id, now).1,
        Write::Report(ids) => report_created(w, door, key, ids, now).1,
        _ => arbitrary(),
    }
}

/// Whether a write may carry a key.
pub open spec fn keyed(write: Write) -> bool {
    !(write is Approve) && !(write is Payment)
}

/// The name of the operation behind a write.
pub open spec fn op_of(write: Write) -> Seq<char> {
    match write {
        Write::Customer(_, _) => "createCustomer"@,
        Write::Invoice(_, _) => "createInvoice"@,
        Write::Send(_, _) => "sendInvoice"@,
        Write::Receipt(_) => "sendReceipt"@,
        Write::Report(_) => "createReport"@,
        Write::Approve(_) => "approveInvoice"@,
        Write::Payment(_, _) => "receivePayment"@,
    }
}

/// The ids are distinct, and the next one is fresh.
pub open spec fn ids_ok(w: WorldV) -> bool {
    &&& forall|i: int| 0 <= i < w.invoices.len() ==> (#[trigger] w.invoices[i]).id < w.next_id
    &&& forall|i: int, j: int|
        0 <= i < j < w.invoices.len() ==> (#[trigger] w.invoices[i]).id != (
        #[trigger] w.invoices[j]).id
    &&& forall|i: int| 0 <= i < w.customers.len() ==> (#[trigger] w.customers[i]).id < w.next_id
    &&& forall|i: int, j: int|
        0 <= i < j < w.customers.len() ==> (#[trigger] w.customers[i]).id != (
        #[trigger] w.customers[j]).id
}

// ---------- keys ----------

/// A write with a key that was used before gives the first response again and changes nothing
/// but the record of what was tried.
pub proof fn a_used_key_is_replayed(
    w: WorldV,
    door: Seq<char>,
    k: Seq<char>,
    write: Write,
    now: u128,
)
    requires
        w.replay.contains_key(k),
        keyed(write),
    ensures
        after(w, door, Some(k), write, now) == recorded(
            w,
            op_of(write),
            door,
            Some(k),
            "replayed"@,
            true,
            now,
        ),
        answer(w, door, Some(k), write, now) == Ok::<WrittenV, DomainErrorV>(
            WrittenV { value: w.replay[k], latency_ms: 0, events: Seq::empty() },
        ),
{
}

/// A write that succeeds under a fresh key keeps its response under that key.
pub proof fn a_response_is_kept(
    w: WorldV,
    door: Seq<char>,
    k: Seq<char>,
    write: Write,
    now: u128,
)
    requires
        keyed(write),
        answer(w, door, Some(k), write, now) is Ok,
    ensures
        after(w, door, Some(k), write, now).replay.contains_key(k),
        after(w, door, Some(k), write, now).replay[k] == answer(
            w,
            door,
            Some(k),
            write,
            now,
        )->Ok_0.value,
{
}

/// A response that is kept stays as it is, whatever is done next.
pub proof fn a_kept_response_stays(
    w: WorldV,
    door: Seq<char>,
    key: Option<Seq<char>>,
    write: Write,
    now: u128,
    k: Seq<char>,
)
    requires
        w.replay.contains_key(k),
    ensures
        after(w, door, key, write, now).replay.contains_key(k),
        after(w, door, key, write, now).replay[k] == w.replay[k],
{
}

/// A keyed write that succeeded, asked again with its key, gives an equal response; only the
/// record of what was tried grows.
pub proof fn a_keyed_write_happens_once(
    w: WorldV,
    door: Seq<char>,
    k: Seq<char>,
    write: Write,
    now: u128,
    door2: Seq<char>,
    write2: Write,
    now2: u128,
)
    requires
        keyed(write),
        keyed(write2),
        answer(w, door, Some(k), write, now) is Ok,
    ensures
        ({
            let w1 = after(w, door, Some(k), write, now);
            let w2 = after(w1, door2, Some(k), write2, now2);
            &&& answer(w1, door2, Some(k), write2, now2) is Ok
            &&& answer(w1, door2, Some(k), write2, now2)->Ok_0.value == answer(
                w,
                door,
                Some(k),
                write,
                now,
            )->Ok_0.value
            &&& w2 == (WorldV { effects: w2.effects, seq: w2.seq, ..w1 })
            &&& w2.effects.drop_last() == w1.effects
        }),
{
    let w1 = after(w, door, Some(k), write, now);
    a_response_is_kept(w, door, k, write, now);
    a_used_key_is_replayed(w1, door2, k, write2, now2);
    let w2 = after(w1, door2, Some(k), write2, now2);
    assert(w2.effects.drop_last() =~= w1.effects);
}

/// A key that belongs to one kind of message about one invoice.
pub open spec fn key_for(key_of: spec_fn(Seq<char>, u64) -> Seq<char>, m: OutboxMessageV) -> Seq<
    char,
> {
    key_of(m.kind, m.invoice_id)
}

/// Every message was sent under the key that belongs to it.
pub open spec fn disciplined(w: WorldV, key_of: spec_fn(Seq<char>, u64) -> Seq<char>) -> bool {
    forall|i: int|
        0 <= i < w.outbox.len() ==> (#[trigger] w.outbox[i]).key == Some(
            key_for(key_of, w.outbox[i]),
        ) && w.replay.contains_key(key_for(key_of, w.outbox[i]))
}

/// The write uses the key that belongs to the message it would send.
pub open spec fn obeys(
    key_of: spec_fn(Seq<char>, u64) -> Seq<char>,
    key: Option<Seq<char>>,
    write: Write,
) -> bool {
    match write {
        Write::Send(id, _) => key == Some(key_of("invoice"@, id)),
        Write::Receipt(id) => key == Some(key_of("receipt"@, id)),
        _ => true,
    }
}

proof fn no_repeats(ms: Seq<OutboxMessageV>, n: nat)
    requires
        forall|i: int, j: int|
            0 <= i < j < n ==> !((#[trigger] ms[i]).invoice_id == (#[trigger] ms[j]).invoice_id
                && ms[i].kind == ms[j].kind),
    ensures
        repeat_count(ms, n) == 0,
    decreases n,
{
    if n > 0 {
        no_repeats(ms, (n - 1) as nat);
        assert(!repeats(ms, n - 1));
    }
}

proof fn repeat_seen(ms: Seq<OutboxMessageV>, n: nat, i: int, j: int)
    requires
        0 <= i < j < n,
        ms[i].invoice_id == ms[j].invoice_id,
        ms[i].kind == ms[j].kind,
    ensures
        repeat_count(ms, n) > 0,
    decreases n,
{
    if j == n - 1 {
        assert(repeats(ms, n - 1));
    } else {
        repeat_seen(ms, (n - 1) as nat, i, j);
    }
}

/// Where every send carries the key that belongs to its invoice, nothing is ever sent twice,
/// however often it is asked for.
#[verifier::spinoff_prover]
#[verifier::rlimit(60)]
pub proof fn keyed_sends_never_double(
    w: WorldV,
    door: Seq<char>,
    key: Option<Seq<char>>,
    write: Write,
    now: u128,
    key_of: spec_fn(Seq<char>, u64) -> Seq<char>,
)
    requires
        disciplined(w, key_of),
        repeat_count(w.outbox, w.outbox.len()) == 0,
        obeys(key_of, key, write),
    ensures
        ({
            let v = after(w, door, key, write, now);
            disciplined(v, key_of) && repeat_count(v.outbox, v.outbox.len()) == 0
        }),
{
    let v = after(w, door, key, write, now);
    assert forall|i: int, j: int| 0 <= i < j < v.outbox.len() implies !((
    #[trigger] v.outbox[i]).invoice_id == (#[trigger] v.outbox[j]).invoice_id && v.outbox[i].kind
        == v.outbox[j].kind) by {
        if v.outbox[i].invoice_id == v.outbox[j].invoice_id && v.outbox[i].kind
            == v.outbox[j].kind {
            assert(v.outbox[i] == w.outbox[i]);
            if j < w.outbox.len() {
                assert(v.outbox[j] == w.outbox[j]);
                repeat_seen(w.outbox, w.outbox.len(), i, j);
            } else {
                assert(w.replay.contains_key(key_for(key_of, w.outbox[i])));
                assert(used(w, key));
            }
        }
    }
    no_repeats(v.outbox, v.outbox.len());
    assert forall|i: int| 0 <= i < v.outbox.len() implies (#[trigger] v.outbox[i]).key == Some(
        key_for(key_of, v.outbox[i]),
    ) && v.replay.contains_key(key_for(key_of, v.outbox[i])) by {
        if i < w.outbox.len() {
            assert(v.outbox[i] == w.outbox[i]);
        }
    }
}

// ---------- money ----------

/// How far an invoice has come.
pub open spec fn rank(s: InvoiceStatus) -> int {
    match s {
        InvoiceStatus::Draft => 0,
        InvoiceStatus::Sent => 1,
        InvoiceStatus::Paid => 2,
    }
}

/// An invoice never goes back: it keeps its number, its customer and its amount, its status
/// never falls, and an approval is never taken away.
pub proof fn invoices_never_go_back(
    w: WorldV,
    door: Seq<char>,
    key: Option<Seq<char>>,
    write: Write,
    now: u128,
    i: int,
)
    requires
        0 <= i < w.invoices.len(),
    ensures
        ({
            let v = after(w, door, key, write, now).invoices;
            &&& v.len() >= w.invoices.len()
            &&& v[i].id == w.invoices[i].id
            &&& v[i].customer_id == w.invoices[i].customer_id
            &&& v[i].amount_cents == w.invoices[i].amount_cents
            &&& rank(v[i].status) >= rank(w.invoices[i].status)
            &&& w.invoices[i].approved ==> v[i].approved
            &&& w.invoices[i].receipt_sent ==> v[i].receipt_sent
        }),
{
    match write {
        Write::Send(id, _) | Write::Receipt(id) | Write::Approve(id) | Write::Payment(id, _) => {
            place_is_right(w.invoices, id);
        },
        _ => {},
    }
}

/// The ids stay distinct, and the next one stays fresh.
pub proof fn ids_stay_distinct(
    w: WorldV,
    door: Seq<char>,
    key: Option<Seq<char>>,
    write: Write,
    now: u128,
)
    requires
        room(w),
        ids_ok(w),
    ensures
        ids_ok(after(w, door, key, write, now)),
{
    match write {
        Write::Send(id, _) | Write::Receipt(id) | Write::Approve(id) | Write::Payment(id, _) => {
            place_is_right(w.invoices, id);
        },
        _ => {},
    }
}

/// Every world begins with distinct ids and nothing sent.
pub proof fn every_world_begins_well(seed: u64, key_of: spec_fn(Seq<char>, u64) -> Seq<char>)
    ensures
        ids_ok(seeded_world(seed)),
        disciplined(seeded_world(seed), key_of),
        repeat_count(seeded_world(seed).outbox, 0) == 0,
        receipts_are_paid(seeded_world(seed)),
{
    let w = seeded_world(seed);
    assert(roster(seed).len() <= 310);
    assert forall|i: int| 0 <= i < w.customers.len() implies (#[trigger] w.customers[i]).id
        == i + 1 by {}
}

/// Every receipt that went out is for an invoice that is paid.
pub open spec fn receipts_are_paid(w: WorldV) -> bool {
    forall|i: int|
        0 <= i < w.outbox.len() && (#[trigger] w.outbox[i]).kind == "receipt"@ ==> paid(
            w,
            w.outbox[i].invoice_id,
        )
}

/// Whether an invoice is there and paid.
pub open spec fn paid(w: WorldV, id: u64) -> bool {
    exists|j: int|
        0 <= j < w.invoices.len() && (#[trigger] w.invoices[j]).id == id && w.invoices[j].status
            == InvoiceStatus::Paid
}

/// No receipt goes out before the payment came in.
pub proof fn receipts_follow_payments(
    w: WorldV,
    door: Seq<char>,
    key: Option<Seq<char>>,
    write: Write,
    now: u128,
)
    requires
        receipts_are_paid(w),
    ensures
        receipts_are_paid(after(w, door, key, write, now)),
{
    let v = after(w, door, key, write, now);
    reveal_strlit("receipt");
    reveal_strlit("invoice");
    assert("receipt"@[0] != "invoice"@[0]);
    assert forall|i: int|
        0 <= i < v.outbox.len() && (#[trigger] v.outbox[i]).kind == "receipt"@ implies paid(
        v,
        v.outbox[i].invoice_id,
    ) by {
        if i < w.outbox.len() {
            assert(v.outbox[i] == w.outbox[i]);
            let j = choose|j: int|
                0 <= j < w.invoices.len() && (#[trigger] w.invoices[j]).id
                    == w.outbox[i].invoice_id && w.invoices[j].status == InvoiceStatus::Paid;
            invoices_never_go_back(w, door, key, write, now, j);
            assert(v.invoices[j].id == w.outbox[i].invoice_id);
        } else {
            match write {
                Write::Receipt(id) => {
                    place_is_right(w.invoices, id);
                    let k = place_of(w.invoices, id)->0;
                    assert(v.invoices[k].id == id);
                },
                _ => {},
            }
        }
    }
}

/// Where approval is asked for, a message about an invoice goes out only after its approval.
pub proof fn nothing_is_sent_unapproved(
    w: WorldV,
    door: Seq<char>,
    key: Option<Seq<char>>,
    id: u64,
    fails: bool,
    now: u128,
)
    requires
        w.chaos.require_approval,
        invoice_sent(w, door, key, id, fails, now).0.outbox != w.outbox,
    ensures
        place_of(w.invoices, id) matches Some(k) && w.invoices[k].approved,
{
}

// ---------- refusals ----------

/// A refused write changes nothing that a reader sees: no customer, no invoice, no message, no
/// report, no payment, no event, and no key is used up.
pub proof fn refusals_change_nothing(
    w: WorldV,
    door: Seq<char>,
    key: Option<Seq<char>>,
    write: Write,
    now: u128,
)
    requires
        keyed(write),
        answer(w, door, key, write, now) is Err,
    ensures
        ({
            let v = after(w, door, key, write, now);
            &&& v.customers == w.customers
            &&& v.invoices == w.invoices
            &&& v.outbox == w.outbox
            &&& v.reports == w.reports
            &&& v.payments == w.payments
            &&& v.events == w.events
            &&& v.replay == w.replay
            &&& v.next_id == w.next_id
        }),
{
}

/// A write that comes too soon is told to come back within a second, and when it does it is let
/// in.
pub proof fn a_refusal_says_when_to_come_back(
    w: WorldV,
    op: Seq<char>,
    now: u128,
    op2: Seq<char>,
    now2: u128,
)
    requires
        w.rate_window_start_ms <= now,
        gate(w, op, now).1 is Err,
    ensures
        gate(w, op, now).1 matches Err(DomainErrorV::RateLimited { retry_after_ms }) && 1
            <= retry_after_ms <= 1000 && (now2 >= now + retry_after_ms ==> gate(
            gate(w, op, now).0,
            op2,
            now2,
        ).1 is Ok),
{
    assert(elapsed(counted(w, now), now) <= now);
}

} // verus!
