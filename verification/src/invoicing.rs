//! What the invoicing world does with each request. A write with a key that was used before is
//! replayed, never repeated.

use crate::cut::{eq_ignore_ascii_case, lower, lowercase, same_ascii_case, starts_with, without_prefix};
use crate::domain::{
    calm, Chaos, Customer, CustomerV, DomainError, DomainErrorV, Effect, EffectV, Event, EventV,
    Invoice, InvoiceStatus, OutboxMessage, OutboxMessageV, Payment, Report, ReportV,
};
use crate::json::{Json, JsonV};
use crate::outputs::Outputs;
use crate::text::{dec, owned, push_dec};
use crate::world::opt_str;
use vstd::prelude::*;

verus! {

pub open spec fn customers_view(xs: Seq<Customer>) -> Seq<CustomerV> {
    xs.map_values(|x: Customer| x@)
}

pub open spec fn outbox_view(xs: Seq<OutboxMessage>) -> Seq<OutboxMessageV> {
    xs.map_values(|x: OutboxMessage| x@)
}

pub open spec fn reports_view(xs: Seq<Report>) -> Seq<ReportV> {
    xs.map_values(|x: Report| x@)
}

pub open spec fn effects_view(xs: Seq<Effect>) -> Seq<EffectV> {
    xs.map_values(|x: Effect| x@)
}

pub open spec fn events_view(xs: Seq<Event>) -> Seq<EventV> {
    xs.map_values(|x: Event| x@)
}

/// The whole world behind one lock.
pub struct World {
    pub seed: u64,
    pub customers: Vec<Customer>,
    pub invoices: Vec<Invoice>,
    pub outbox: Vec<OutboxMessage>,
    pub reports: Vec<Report>,
    pub payments: Vec<Payment>,
    pub effects: Vec<Effect>,
    pub events: Vec<Event>,
    pub chaos: Chaos,
    /// Idempotency: key -> the JSON response given the first time.
    pub replay: Outputs,
    pub next_id: u64,
    pub seq: u64,
    pub rate_window_start_ms: u128,
    pub rate_window_count: u32,
}

pub struct WorldV {
    pub seed: u64,
    pub customers: Seq<CustomerV>,
    pub invoices: Seq<Invoice>,
    pub outbox: Seq<OutboxMessageV>,
    pub reports: Seq<ReportV>,
    pub payments: Seq<Payment>,
    pub effects: Seq<EffectV>,
    pub events: Seq<EventV>,
    pub chaos: Chaos,
    pub replay: Map<Seq<char>, JsonV>,
    pub next_id: u64,
    pub seq: u64,
    pub rate_window_start_ms: u128,
    pub rate_window_count: u32,
}

impl View for World {
    type V = WorldV;

    open spec fn view(&self) -> WorldV {
        WorldV {
            seed: self.seed,
            customers: customers_view(self.customers@),
            invoices: self.invoices@,
            outbox: outbox_view(self.outbox@),
            reports: reports_view(self.reports@),
            payments: self.payments@,
            effects: effects_view(self.effects@),
            events: events_view(self.events@),
            chaos: self.chaos,
            replay: self.replay@,
            next_id: self.next_id,
            seq: self.seq,
            rate_window_start_ms: self.rate_window_start_ms,
            rate_window_count: self.rate_window_count,
        }
    }
}

pub open spec fn opt_text(k: Option<&str>) -> Option<Seq<char>> {
    match k {
        Some(s) => Some(s@),
        None => None,
    }
}

pub(crate) fn own_key(k: Option<&str>) -> (r: Option<String>)
    ensures
        opt_str(r) == opt_text(k),
{
    match k {
        Some(s) => Some(owned(s)),
        None => None,
    }
}

// ---------- seeding ----------

/// The customers that every world begins with.
pub open spec fn first_customers() -> Seq<(Seq<char>, Seq<char>)> {
    seq![
        ("Acme"@, "billing@acme.example"@),
        ("Globex"@, "billing@globex.example"@),
        ("Initech"@, "billing@initech.example"@),
        ("Umbrella"@, "billing@umbrella.example"@),
        ("Hooli"@, "billing@hooli.example"@),
        ("Vandelay"@, "billing@vandelay.example"@),
        ("Stark"@, "billing@stark.example"@),
        ("Wayne"@, "billing@wayne.example"@),
        ("Wonka"@, "billing@wonka.example"@),
        ("Tyrell"@, "billing@tyrell.example"@),
    ]
}

/// A number in three digits.
pub open spec fn three_digits(i: nat) -> Seq<char> {
    if i < 10 {
        "00"@ + dec(i)
    } else if i < 100 {
        "0"@ + dec(i)
    } else {
        dec(i)
    }
}

/// The customer with a number.
pub open spec fn numbered(i: nat) -> (Seq<char>, Seq<char>) {
    ("Customer "@ + three_digits(i), "ap"@ + three_digits(i) + "@bulk.example"@)
}

/// The names and addresses that a seed starts with: ten customers with distinct names; a second
/// "Acme" for the fork task; three hundred more for the fan-out task.
pub open spec fn roster(seed: u64) -> Seq<(Seq<char>, Seq<char>)> {
    if seed % 100 == 6 {
        first_customers().push(("Acme"@, "ap@acme-holdings.example"@))
    } else if seed % 100 == 11 {
        first_customers() + Seq::new(300, |i: int| numbered((i + 1) as nat))
    } else {
        first_customers()
    }
}

/// Customers numbered from one.
pub open spec fn enrolled(rs: Seq<(Seq<char>, Seq<char>)>) -> Seq<CustomerV> {
    Seq::new(
        rs.len(),
        |i: int| CustomerV { id: (i + 1) as u64, name: rs[i].0, email: rs[i].1 },
    )
}

/// The world that a seed gives.
pub open spec fn seeded_world(seed: u64) -> WorldV {
    WorldV {
        seed,
        customers: enrolled(roster(seed)),
        invoices: Seq::empty(),
        outbox: Seq::empty(),
        reports: Seq::empty(),
        payments: Seq::empty(),
        effects: Seq::empty(),
        events: Seq::empty(),
        chaos: calm(),
        replay: Map::empty(),
        next_id: (roster(seed).len() + 1) as u64,
        seq: 0,
        rate_window_start_ms: 0,
        rate_window_count: 0,
    }
}

fn enrol(out: &mut Vec<Customer>, name: String, email: String, rs: Ghost<Seq<(Seq<char>, Seq<char>)>>)
    requires
        customers_view(old(out)@) == enrolled(rs@),
        old(out)@.len() < 1000,
    ensures
        customers_view(final(out)@) == enrolled(rs@.push((name@, email@))),
        final(out)@.len() == old(out)@.len() + 1,
{
    let ghost before = customers_view(out@);
    assert(before.len() == rs@.len());
    let c = Customer { id: out.len() as u64 + 1, name, email };
    out.push(c);
    assert(customers_view(out@) =~= before.push(c@));
    assert(customers_view(out@) =~= enrolled(rs@.push((name@, email@))));
}

fn digits3(i: u64) -> (r: String)
    ensures
        r@ == three_digits(i as nat),
{
    let mut t = String::new();
    if i < 10 {
        t.push_str("00");
    } else if i < 100 {
        t.push_str("0");
    }
    push_dec(&mut t, i as u128);
    assert(t@ =~= three_digits(i as nat));
    t
}

fn first_ten() -> (r: Vec<Customer>)
    ensures
        customers_view(r@) == enrolled(first_customers()),
        r@.len() == 10,
{
    let mut v: Vec<Customer> = Vec::new();
    v.push(Customer { id: 1, name: owned("Acme"), email: owned("billing@acme.example") });
    v.push(Customer { id: 2, name: owned("Globex"), email: owned("billing@globex.example") });
    v.push(Customer { id: 3, name: owned("Initech"), email: owned("billing@initech.example") });
    v.push(Customer { id: 4, name: owned("Umbrella"), email: owned("billing@umbrella.example") });
    v.push(Customer { id: 5, name: owned("Hooli"), email: owned("billing@hooli.example") });
    v.push(Customer { id: 6, name: owned("Vandelay"), email: owned("billing@vandelay.example") });
    v.push(Customer { id: 7, name: owned("Stark"), email: owned("billing@stark.example") });
    v.push(Customer { id: 8, name: owned("Wayne"), email: owned("billing@wayne.example") });
    v.push(Customer { id: 9, name: owned("Wonka"), email: owned("billing@wonka.example") });
    v.push(Customer { id: 10, name: owned("Tyrell"), email: owned("billing@tyrell.example") });
    assert(customers_view(v@) =~= enrolled(first_customers()));
    v
}

// ---------- what every write does ----------

/// The state after an attempt was written down.
pub open spec fn recorded(
    w: WorldV,
    op: Seq<char>,
    door: Seq<char>,
    key: Option<Seq<char>>,
    entity: Seq<char>,
    replayed: bool,
    now: u128,
) -> WorldV {
    WorldV {
        seq: (w.seq + 1) as u64,
        effects: w.effects.push(
            EffectV { seq: (w.seq + 1) as u64, at_ms: now, op, door, key, entity, replayed },
        ),
        ..w
    }
}

pub open spec fn event_of(
    w: WorldV,
    kind: Seq<char>,
    entity: Seq<char>,
    id: u64,
    data: JsonV,
    now: u128,
) -> EventV {
    EventV { seq: (w.seq + 1) as u64, at_ms: now, kind, entity, id, data }
}

/// The state after an event went out.
pub open spec fn emitted(w: WorldV, e: EventV) -> WorldV {
    WorldV { seq: (w.seq + 1) as u64, events: w.events.push(e), ..w }
}

/// The state with a response kept under a key.
pub open spec fn remembered(w: WorldV, key: Option<Seq<char>>, v: JsonV) -> WorldV {
    match key {
        Some(k) => WorldV { replay: w.replay.insert(k, v), ..w },
        None => w,
    }
}

/// Whether a key was used before.
pub open spec fn used(w: WorldV, key: Option<Seq<char>>) -> bool {
    key matches Some(k) && w.replay.contains_key(k)
}

/// What a write gives: the response, how long to wait with it, and the events to send.
pub struct WrittenV {
    pub value: JsonV,
    pub latency_ms: u64,
    pub events: Seq<EventV>,
}

/// What a write gives: the response, how long to wait with it, and the events to send.
#[derive(Debug)]
pub struct Written {
    pub value: Json,
    pub latency_ms: u64,
    pub events: Vec<Event>,
}

impl View for Written {
    type V = WrittenV;

    open spec fn view(&self) -> WrittenV {
        WrittenV {
            value: self.value@,
            latency_ms: self.latency_ms,
            events: events_view(self.events@),
        }
    }
}

pub open spec fn result_view(r: Result<Written, DomainError>) -> Result<WrittenV, DomainErrorV> {
    match r {
        Ok(x) => Ok(x@),
        Err(e) => Err(e@),
    }
}

/// A write that is replayed: the first response again, at once and without an event.
pub open spec fn replayed(
    w: WorldV,
    op: Seq<char>,
    door: Seq<char>,
    key: Option<Seq<char>>,
    now: u128,
) -> (WorldV, Result<WrittenV, DomainErrorV>) {
    (
        recorded(w, op, door, key, "replayed"@, true, now),
        Ok(WrittenV { value: w.replay[key->0], latency_ms: 0, events: Seq::empty() }),
    )
}

/// The time since the rate window was opened.
pub open spec fn elapsed(w: WorldV, now: u128) -> nat {
    if now < w.rate_window_start_ms {
        0
    } else {
        (now - w.rate_window_start_ms) as nat
    }
}

/// The state with one more write counted in the current second.
pub open spec fn counted(w: WorldV, now: u128) -> WorldV {
    let open = if elapsed(w, now) >= 1000 {
        WorldV { rate_window_start_ms: now, rate_window_count: 0, ..w }
    } else {
        w
    };
    WorldV { rate_window_count: (open.rate_window_count + 1) as u32, ..open }
}

/// How long to wait for the next second, at least a millisecond.
pub open spec fn remaining(w: WorldV, now: u128) -> u64 {
    if elapsed(w, now) >= 1000 {
        1
    } else {
        let r = (1000 - elapsed(w, now)) as u64;
        if r < 1 {
            1
        } else {
            r
        }
    }
}

/// What every write meets first: the latency to wait, or a refusal.
pub open spec fn gate(w: WorldV, op: Seq<char>, now: u128) -> (WorldV, Result<u64, DomainErrorV>) {
    if w.chaos.rate_limit_per_sec == 0 {
        (w, Ok(w.chaos.latency_ms))
    } else {
        let c = counted(w, now);
        if c.rate_window_count > w.chaos.rate_limit_per_sec {
            (
                recorded(c, op, "chaos"@, None, "rate_limited"@, false, now),
                Err(DomainErrorV::RateLimited { retry_after_ms: remaining(c, now) }),
            )
        } else {
            (c, Ok(w.chaos.latency_ms))
        }
    }
}

/// The numbers that a write hands out still fit.
pub open spec fn room(w: WorldV) -> bool {
    w.next_id < u64::MAX && w.seq < u64::MAX - 8 && w.rate_window_count < u32::MAX
}

impl World {
    /// The world that a seed gives.
    pub fn seeded(seed: u64) -> (r: World)
        ensures
            r@ == seeded_world(seed),
    {
        let mut customers = first_ten();
        if seed % 100 == 6 {
            enrol(
                &mut customers,
                owned("Acme"),
                owned("ap@acme-holdings.example"),
                Ghost(first_customers()),
            );
        }
        if seed % 100 == 11 {
            let ghost all = Seq::new(300, |i: int| numbered((i + 1) as nat));
            let mut i: u64 = 0;
            assert(first_customers() + all.take(0) =~= first_customers());
            while i < 300
                invariant
                    i <= 300,
                    all == Seq::new(300, |i: int| numbered((i + 1) as nat)),
                    customers@.len() == 10 + i,
                    customers_view(customers@) == enrolled(first_customers() + all.take(i as int)),
                decreases 300 - i,
            {
                let d = digits3(i + 1);
                let mut name = owned("Customer ");
                name.push_str(d.as_str());
                let mut email = owned("ap");
                email.push_str(d.as_str());
                email.push_str("@bulk.example");
                let ghost rs = first_customers() + all.take(i as int);
                proof {
                    assert(all[i as int] == numbered((i + 1) as nat));
                    assert(rs.push((name@, email@)) =~= first_customers() + all.take(i + 1));
                }
                enrol(&mut customers, name, email, Ghost(rs));
                i += 1;
            }
            assert(all.take(300) =~= all);
        }
        let n: u64 = customers.len() as u64;
        assert(customers_view(customers@).len() == customers@.len());
        let w = World {
            seed,
            customers,
            invoices: Vec::new(),
            outbox: Vec::new(),
            reports: Vec::new(),
            payments: Vec::new(),
            effects: Vec::new(),
            events: Vec::new(),
            chaos: Chaos::default(),
            replay: Outputs::new(),
            next_id: n + 1,
            seq: 0,
            rate_window_start_ms: 0,
            rate_window_count: 0,
        };
        assert(w@.outbox =~= Seq::<OutboxMessageV>::empty());
        assert(w@.reports =~= Seq::<ReportV>::empty());
        assert(w@.effects =~= Seq::<EffectV>::empty());
        assert(w@.events =~= Seq::<EventV>::empty());
        w
    }

    pub(crate) fn record_effect(
        &mut self,
        op: &str,
        door: &str,
        key: Option<&str>,
        entity: String,
        replayed_: bool,
        now: u128,
    )
        requires
            old(self)@.seq < u64::MAX,
        ensures
            final(self)@ == recorded(
                old(self)@,
                op@,
                door@,
                opt_text(key),
                entity@,
                replayed_,
                now,
            ),
    {
        let ghost before = self@.effects;
        self.seq = self.seq + 1;
        let e = Effect {
            seq: self.seq,
            at_ms: now,
            op: owned(op),
            door: owned(door),
            key: own_key(key),
            entity,
            replayed: replayed_,
        };
        self.effects.push(e);
        assert(self@.effects =~= before.push(e@));
    }

    pub(crate) fn emit(&mut self, kind: &str, entity: &str, id: u64, data: Json, now: u128) -> (r: Event)
        requires
            old(self)@.seq < u64::MAX,
        ensures
            r@ == event_of(old(self)@, kind@, entity@, id, data@, now),
            final(self)@ == emitted(old(self)@, r@),
    {
        let ghost before = self@.events;
        self.seq = self.seq + 1;
        let e = Event {
            seq: self.seq,
            at_ms: now,
            kind: owned(kind),
            entity: owned(entity),
            id,
            data,
        };
        self.events.push(e.clone());
        assert(self@.events =~= before.push(e@));
        e
    }

    pub(crate) fn remember(&mut self, key: Option<&str>, v: &Json)
        ensures
            final(self)@ == remembered(old(self)@, opt_text(key), v@),
    {
        match key {
            Some(k) => self.replay.insert(owned(k), v.clone()),
            None => {},
        }
    }

    pub(crate) fn is_used(&self, key: Option<&str>) -> (r: bool)
        ensures
            r == used(self@, opt_text(key)),
    {
        match key {
            Some(k) => self.replay.has(k),
            None => false,
        }
    }

    pub(crate) fn replay_it(&mut self, op: &str, door: &str, key: Option<&str>, now: u128) -> (r: Result<
        Written,
        DomainError,
    >)
        requires
            used(old(self)@, opt_text(key)),
            old(self)@.seq < u64::MAX,
        ensures
            (final(self)@, result_view(r)) == replayed(old(self)@, op@, door@, opt_text(key), now),
    {
        let v = match key {
            Some(k) => match self.replay.get(k) {
                Some(v) => v.clone(),
                None => Json::Null,
            },
            None => Json::Null,
        };
        self.record_effect(op, door, key, owned("replayed"), true, now);
        let events: Vec<Event> = Vec::new();
        assert(events_view(events@) =~= Seq::<EventV>::empty());
        Ok(Written { value: v, latency_ms: 0, events })
    }

    pub(crate) fn write_gate(&mut self, op: &str, now: u128) -> (r: Result<u64, DomainError>)
        requires
            room(old(self)@),
        ensures
            final(self)@ == gate(old(self)@, op@, now).0,
            match (r, gate(old(self)@, op@, now).1) {
                (Ok(a), Ok(b)) => a == b,
                (Err(e), Err(f)) => e@ == f,
                _ => false,
            },
    {
        if self.chaos.rate_limit_per_sec > 0 {
            let since: u128 = if now < self.rate_window_start_ms {
                0
            } else {
                now - self.rate_window_start_ms
            };
            if since >= 1000 {
                self.rate_window_start_ms = now;
                self.rate_window_count = 0;
            }
            self.rate_window_count = self.rate_window_count + 1;
            assert(self@ == counted(old(self)@, now));
            if self.rate_window_count > self.chaos.rate_limit_per_sec {
                let since: u128 = if now < self.rate_window_start_ms {
                    0
                } else {
                    now - self.rate_window_start_ms
                };
                let left: u64 = if since >= 1000 {
                    1
                } else {
                    (1000 - since) as u64
                };
                self.record_effect(op, "chaos", None, owned("rate_limited"), false, now);
                return Err(DomainError::RateLimited { retry_after_ms: left });
            }
        }
        Ok(self.chaos.latency_ms)
    }
}

// ---------- reads ----------

/// The customers of a name, whatever its ASCII case.
pub open spec fn named(cs: Seq<CustomerV>, name: Seq<char>) -> Seq<CustomerV>
    decreases cs.len(),
{
    if cs.len() == 0 {
        Seq::empty()
    } else if same_ascii_case(cs.last().name, name) {
        named(cs.drop_last(), name).push(cs.last())
    } else {
        named(cs.drop_last(), name)
    }
}

/// The customers whose names start with a prefix, whatever the case.
pub open spec fn prefixed(cs: Seq<CustomerV>, prefix: Seq<char>) -> Seq<CustomerV>
    decreases cs.len(),
{
    if cs.len() == 0 {
        Seq::empty()
    } else if without_prefix(lower(cs.last().name), lower(prefix)) is Some {
        prefixed(cs.drop_last(), prefix).push(cs.last())
    } else {
        prefixed(cs.drop_last(), prefix)
    }
}

/// The place of an invoice.
pub open spec fn place_of(is: Seq<Invoice>, id: u64) -> Option<int>
    decreases is.len(),
{
    if is.len() == 0 {
        None
    } else if is[0].id == id {
        Some(0)
    } else {
        match place_of(is.drop_first(), id) {
            Some(k) => Some(k + 1),
            None => None,
        }
    }
}

proof fn place_at(is: Seq<Invoice>, id: u64, i: int)
    requires
        0 <= i <= is.len(),
        forall|j: int| 0 <= j < i ==> (#[trigger] is[j]).id != id,
        i < is.len() ==> is[i].id == id,
    ensures
        place_of(is, id) == (if i < is.len() {
            Some(i)
        } else {
            None
        }),
    decreases is.len(),
{
    if i > 0 {
        assert(is[0].id != id);
        let t = is.drop_first();
        assert forall|j: int| 0 <= j < i - 1 implies (#[trigger] t[j]).id != id by {
            assert(t[j] == is[j + 1]);
        }
        place_at(t, id, i - 1);
    }
}

/// Where an invoice is found, it is; where it is not, no invoice has that id.
pub proof fn place_is_right(is: Seq<Invoice>, id: u64)
    ensures
        match place_of(is, id) {
            Some(i) => 0 <= i < is.len() && is[i].id == id,
            None => forall|i: int| 0 <= i < is.len() ==> (#[trigger] is[i]).id != id,
        },
    decreases is.len(),
{
    if is.len() > 0 && is[0].id != id {
        let t = is.drop_first();
        place_is_right(t, id);
        match place_of(t, id) {
            Some(k) => {
                assert(t[k] == is[k + 1]);
            },
            None => {
                assert forall|i: int| 0 <= i < is.len() implies (#[trigger] is[i]).id != id by {
                    if i > 0 {
                        assert(t[i - 1] == is[i]);
                    }
                }
            },
        }
    }
}

/// The invoices of a customer, or all.
pub open spec fn invoices_of(is: Seq<Invoice>, customer: Option<u64>) -> Seq<Invoice>
    decreases is.len(),
{
    if is.len() == 0 {
        Seq::empty()
    } else if customer is None || customer == Some(is.last().customer_id) {
        invoices_of(is.drop_last(), customer).push(is.last())
    } else {
        invoices_of(is.drop_last(), customer)
    }
}

/// Whether a customer is there.
pub open spec fn customer_known(cs: Seq<CustomerV>, id: u64) -> bool {
    exists|i: int| 0 <= i < cs.len() && (#[trigger] cs[i]).id == id
}

/// The address of the first customer with an id, or nothing.
pub open spec fn address(cs: Seq<CustomerV>, id: u64) -> Seq<char>
    decreases cs.len(),
{
    if cs.len() == 0 {
        Seq::empty()
    } else if cs[0].id == id {
        cs[0].email
    } else {
        address(cs.drop_first(), id)
    }
}

proof fn address_skip(cs: Seq<CustomerV>, id: u64, i: int)
    requires
        0 <= i <= cs.len(),
        forall|j: int| 0 <= j < i ==> (#[trigger] cs[j]).id != id,
    ensures
        address(cs, id) == address(cs.skip(i), id),
    decreases i,
{
    if i == 0 {
        assert(cs.skip(0) =~= cs);
    } else {
        assert(cs[0].id != id);
        let t = cs.drop_first();
        assert forall|j: int| 0 <= j < i - 1 implies (#[trigger] t[j]).id != id by {
            assert(t[j] == cs[j + 1]);
        }
        address_skip(t, id, i - 1);
        assert(t.skip(i - 1) =~= cs.skip(i));
    }
}

/// What an invoice and the rest amount to, or the first that is not there.
pub open spec fn tally(is: Seq<Invoice>, ids: Seq<u64>) -> Result<(int, nat), u64>
    decreases ids.len(),
{
    if ids.len() == 0 {
        Ok((0int, 0nat))
    } else {
        match tally(is, ids.drop_last()) {
            Err(e) => Err(e),
            Ok((total, sent)) => match place_of(is, ids.last()) {
                None => Err(ids.last()),
                Some(k) => Ok(
                    (
                        total + is[k].amount_cents,
                        sent + if is[k].status != InvoiceStatus::Draft {
                            1nat
                        } else {
                            0nat
                        },
                    ),
                ),
            },
        }
    }
}

pub proof fn tally_stuck(is: Seq<Invoice>, ids: Seq<u64>, k: int)
    requires
        0 <= k <= ids.len(),
        tally(is, ids.take(k)) is Err,
    ensures
        tally(is, ids) == tally(is, ids.take(k)),
    decreases ids.len(),
{
    if k == ids.len() {
        assert(ids.take(k) =~= ids);
    } else {
        assert(ids.drop_last().take(k) =~= ids.take(k));
        tally_stuck(is, ids.drop_last(), k);
    }
}

/// Whether every sum on the way fits.
pub open spec fn sums_fit(is: Seq<Invoice>, ids: Seq<u64>) -> bool {
    forall|k: int|
        0 <= k <= ids.len() ==> (#[trigger] tally(is, ids.take(k)) matches Ok(t)
            ==> i64::MIN <= t.0 <= i64::MAX)
}

fn cloned(cs: &Vec<Customer>) -> (r: Vec<Customer>)
    ensures
        customers_view(r@) == customers_view(cs@),
{
    let ghost vs = customers_view(cs@);
    let mut out: Vec<Customer> = Vec::new();
    let mut i: usize = 0;
    while i < cs.len()
        invariant
            i <= cs@.len() == vs.len(),
            vs == customers_view(cs@),
            customers_view(out@) == vs.take(i as int),
        decreases cs@.len() - i,
    {
        let x = cs[i].clone();
        let ghost o = customers_view(out@);
        out.push(x);
        assert(customers_view(out@) =~= o.push(x@));
        i += 1;
        assert(customers_view(out@) =~= vs.take(i as int));
    }
    assert(vs.take(i as int) =~= vs);
    out
}

impl World {
    /// The customers of a name, or all of them.
    pub fn find_customers(&self, name: Option<&str>) -> (r: Vec<Customer>)
        ensures
            customers_view(r@) == (match name {
                Some(n) => named(self@.customers, n@),
                None => self@.customers,
            }),
    {
        match name {
            None => cloned(&self.customers),
            Some(n) => {
                let ghost vs = self@.customers;
                let mut out: Vec<Customer> = Vec::new();
                let mut i: usize = 0;
                assert(customers_view(out@) =~= named(vs.take(0), n@));
                while i < self.customers.len()
                    invariant
                        i <= self.customers@.len(),
                        vs == self@.customers,
                        customers_view(out@) == named(vs.take(i as int), n@),
                    decreases self.customers@.len() - i,
                {
                    proof {
                        assert(vs.take(i + 1).drop_last() =~= vs.take(i as int));
                        assert(vs.take(i + 1).last() == self.customers@[i as int]@);
                    }
                    if eq_ignore_ascii_case(self.customers[i].name.as_str(), n) {
                        let x = self.customers[i].clone();
                        let ghost o = customers_view(out@);
                        out.push(x);
                        assert(customers_view(out@) =~= o.push(x@));
                    }
                    i += 1;
                }
                assert(vs.take(i as int) =~= vs);
                out
            },
        }
    }

    /// The customers whose names start with a prefix.
    pub fn find_customers_by_prefix(&self, prefix: &str) -> (r: Vec<Customer>)
        ensures
            customers_view(r@) == prefixed(self@.customers, prefix@),
    {
        let ghost vs = self@.customers;
        let p = lowercase(prefix);
        let mut out: Vec<Customer> = Vec::new();
        let mut i: usize = 0;
        assert(customers_view(out@) =~= prefixed(vs.take(0), prefix@));
        while i < self.customers.len()
            invariant
                i <= self.customers@.len(),
                vs == self@.customers,
                p@ == lower(prefix@),
                customers_view(out@) == prefixed(vs.take(i as int), prefix@),
            decreases self.customers@.len() - i,
        {
            proof {
                assert(vs.take(i + 1).drop_last() =~= vs.take(i as int));
                assert(vs.take(i + 1).last() == self.customers@[i as int]@);
            }
            let l = lowercase(self.customers[i].name.as_str());
            if starts_with(l.as_str(), p.as_str()) {
                let x = self.customers[i].clone();
                let ghost o = customers_view(out@);
                out.push(x);
                assert(customers_view(out@) =~= o.push(x@));
            }
            i += 1;
        }
        assert(vs.take(i as int) =~= vs);
        out
    }

    /// The one customer of a name.
    pub fn resolve_customer(&self, name: &str) -> (r: Result<Customer, DomainError>)
        ensures
            ({
                let found = named(self@.customers, name@);
                match r {
                    Ok(c) => found.len() == 1 && c@ == found[0],
                    Err(e) => if found.len() == 0 {
                        e@ == DomainErrorV::NotFound("customer"@, 0)
                    } else {
                        found.len() > 1 && e@ == DomainErrorV::Ambiguous(
                            name@,
                            found.len() as usize,
                        )
                    },
                }
            }),
    {
        let found = self.find_customers(Some(name));
        assert(customers_view(found@).len() == found@.len());
        if found.len() == 1 {
            assert(customers_view(found@)[0] == found@[0]@);
            Ok(found[0].clone())
        } else if found.len() == 0 {
            Err(DomainError::NotFound("customer", 0))
        } else {
            Err(DomainError::Ambiguous(owned(name), found.len()))
        }
    }

    pub(crate) fn position(&self, id: u64) -> (r: Option<usize>)
        ensures
            match r {
                Some(i) => i < self.invoices@.len() && place_of(self@.invoices, id) == Some(
                    i as int,
                ) && self.invoices@[i as int].id == id,
                None => place_of(self@.invoices, id) is None,
            },
    {
        let mut i: usize = 0;
        while i < self.invoices.len()
            invariant
                i <= self.invoices@.len(),
                forall|j: int| 0 <= j < i ==> (#[trigger] self.invoices@[j]).id != id,
            decreases self.invoices@.len() - i,
        {
            if self.invoices[i].id == id {
                proof {
                    place_at(self@.invoices, id, i as int);
                }
                return Some(i);
            }
            i += 1;
        }
        proof {
            place_at(self@.invoices, id, i as int);
        }
        None
    }

    /// An invoice by id.
    pub fn invoice(&self, id: u64) -> (r: Result<Invoice, DomainError>)
        ensures
            match place_of(self@.invoices, id) {
                Some(k) => r == Ok::<Invoice, DomainError>(self@.invoices[k]),
                None => r matches Err(e) && e@ == DomainErrorV::NotFound("invoice"@, id),
            },
    {
        match self.position(id) {
            Some(i) => Ok(self.invoices[i]),
            None => Err(DomainError::NotFound("invoice", id)),
        }
    }

    /// The invoices of a customer, or all.
    pub fn list_invoices(&self, customer_id: Option<u64>) -> (r: Vec<Invoice>)
        ensures
            r@ == invoices_of(self@.invoices, customer_id),
    {
        let ghost vs = self@.invoices;
        let mut out: Vec<Invoice> = Vec::new();
        let mut i: usize = 0;
        assert(out@ =~= invoices_of(vs.take(0), customer_id));
        while i < self.invoices.len()
            invariant
                i <= self.invoices@.len(),
                vs == self@.invoices,
                out@ == invoices_of(vs.take(i as int), customer_id),
            decreases self.invoices@.len() - i,
        {
            proof {
                assert(vs.take(i + 1).drop_last() =~= vs.take(i as int));
            }
            let hit = match customer_id {
                Some(c) => self.invoices[i].customer_id == c,
                None => true,
            };
            if hit {
                out.push(self.invoices[i]);
            }
            i += 1;
        }
        assert(vs.take(i as int) =~= vs);
        out
    }

    pub(crate) fn knows_customer(&self, id: u64) -> (r: bool)
        ensures
            r == customer_known(self@.customers, id),
    {
        let ghost vs = self@.customers;
        let mut i: usize = 0;
        while i < self.customers.len()
            invariant
                i <= self.customers@.len(),
                vs == self@.customers,
                forall|j: int| 0 <= j < i ==> (#[trigger] vs[j]).id != id,
            decreases self.customers@.len() - i,
        {
            assert(vs[i as int] == self.customers@[i as int]@);
            if self.customers[i].id == id {
                return true;
            }
            i += 1;
        }
        false
    }

    pub(crate) fn address_of(&self, id: u64) -> (r: String)
        ensures
            r@ == address(self@.customers, id),
    {
        let ghost vs = self@.customers;
        let mut i: usize = 0;
        while i < self.customers.len()
            invariant
                i <= self.customers@.len(),
                vs == self@.customers,
                forall|j: int| 0 <= j < i ==> (#[trigger] vs[j]).id != id,
            decreases self.customers@.len() - i,
        {
            assert(vs[i as int] == self.customers@[i as int]@);
            if self.customers[i].id == id {
                proof {
                    address_skip(vs, id, i as int);
                    assert(vs.skip(i as int)[0] == vs[i as int]);
                }
                return self.customers[i].email.clone();
            }
            i += 1;
        }
        proof {
            address_skip(vs, id, i as int);
            assert(vs.skip(i as int).len() == 0);
        }
        String::new()
    }
}

} // verus!
