//! The one writer of ledger rows. Every arm records through this, so a row means the same thing
//! whether ours, a script, or a model loop produced it. Write-ness comes from the world model,
//! never from an arm's own list.

use crate::json::{Json, JsonV};
use crate::ledger::{clone_rows, rows_view, Ledger, LedgerV, Row, RowV};
use crate::text::{dec, owned, push_dec};
use crate::world::{find_op, opt_str, World, WorldV};
use std::sync::Arc;
use vstd::prelude::*;

verus! {

/// Whether an operation changes the world, as far as the world model says.
pub open spec fn writes(w: WorldV, op: Seq<char>) -> bool {
    match find_op(w.ops, op) {
        Some(o) => o.writes.len() > 0,
        None => false,
    }
}

/// What records rows.
pub struct Recorder {
    pub world: Arc<World>,
    pub pending: Vec<Row>,
    pub next: u32,
}

pub struct RecorderV {
    pub world: WorldV,
    pub pending: Seq<RowV>,
    pub next: u32,
}

impl View for Recorder {
    type V = RecorderV;

    open spec fn view(&self) -> RecorderV {
        RecorderV { world: (*self.world)@, pending: rows_view(self.pending@), next: self.next }
    }
}

/// An effect in flight. Finishing it writes exactly one row.
pub struct Attempt {
    pub node: String,
    pub op: String,
    pub surface: String,
    pub key: Option<String>,
    pub attempt: u32,
    pub started_us: u128,
}

pub struct AttemptV {
    pub node: Seq<char>,
    pub op: Seq<char>,
    pub surface: Seq<char>,
    pub key: Option<Seq<char>>,
    pub attempt: u32,
    pub started_us: u128,
}

impl View for Attempt {
    type V = AttemptV;

    open spec fn view(&self) -> AttemptV {
        AttemptV {
            node: self.node@,
            op: self.op@,
            surface: self.surface@,
            key: opt_str(self.key),
            attempt: self.attempt,
            started_us: self.started_us,
        }
    }
}

/// The row that an attempt leaves.
pub open spec fn row_of(
    w: WorldV,
    a: AttemptV,
    observed: Option<JsonV>,
    error: Option<Seq<char>>,
    ended_us: u128,
) -> RowV {
    RowV {
        node: a.node,
        op: a.op,
        surface: a.surface,
        key: a.key,
        attempt: a.attempt,
        started_us: a.started_us,
        ended_us,
        ok: observed is Some,
        write: writes(w, a.op),
        error,
        observed: match observed {
            Some(v) => v,
            None => JsonV::Null,
        },
    }
}

/// A row put behind those that did not start later.
pub open spec fn place_row(s: Seq<RowV>, r: RowV) -> Seq<RowV>
    decreases s.len(),
{
    if s.len() > 0 && r.started_us < s.last().started_us {
        place_row(s.drop_last(), r).push(s.last())
    } else {
        s.push(r)
    }
}

/// Rows in the order of their starts; those of one instant stay as they come.
pub open spec fn start_order(rs: Seq<RowV>) -> Seq<RowV>
    decreases rs.len(),
{
    if rs.len() == 0 {
        Seq::empty()
    } else {
        place_row(start_order(rs.drop_last()), rs.last())
    }
}

/// No row started after a later one.
pub open spec fn started_in_order(s: Seq<RowV>) -> bool {
    forall|i: int, j: int|
        0 <= i < j < s.len() ==> (#[trigger] s[i]).started_us <= (#[trigger] s[j]).started_us
}

proof fn place_row_ok(s: Seq<RowV>, r: RowV)
    requires
        started_in_order(s),
    ensures
        started_in_order(place_row(s, r)),
        place_row(s, r).to_multiset() == s.to_multiset().insert(r),
        place_row(s, r).last().started_us >= r.started_us,
        s.len() > 0 ==> place_row(s, r).last().started_us >= s.last().started_us,
        place_row(s, r).last() == r || (s.len() > 0 && place_row(s, r).last() == s.last()),
        place_row(s, r).len() == s.len() + 1,
    decreases s.len(),
{
    broadcast use vstd::seq_lib::group_to_multiset_ensures;

    if s.len() > 0 && r.started_us < s.last().started_us {
        let t = s.drop_last();
        assert(started_in_order(t)) by {
            assert forall|i: int, j: int| 0 <= i < j < t.len() implies (#[trigger] t[i]).started_us
                <= (#[trigger] t[j]).started_us by {
                assert(t[i] == s[i] && t[j] == s[j]);
            }
        }
        place_row_ok(t, r);
        let p = place_row(t, r);
        let q = p.push(s.last());
        assert(s =~= t.push(s.last()));
        assert(s.to_multiset() =~= t.to_multiset().insert(s.last()));
        assert(q.to_multiset() =~= p.to_multiset().insert(s.last()));
        assert(q.to_multiset() =~= s.to_multiset().insert(r));
        assert(p[p.len() - 1].started_us <= s.last().started_us) by {
            if t.len() > 0 {
                assert(s[t.len() - 1].started_us <= s[s.len() - 1].started_us);
            }
        }
        assert forall|i: int, j: int| 0 <= i < j < q.len() implies (#[trigger] q[i]).started_us <= (
        #[trigger] q[j]).started_us by {
            assert(q[i] == p[i]);
            if j < p.len() {
                assert(q[j] == p[j]);
            } else if i < p.len() - 1 {
                assert(p[i].started_us <= p[p.len() - 1].started_us);
            }
        }
    } else {
        let q = s.push(r);
        assert(q.to_multiset() =~= s.to_multiset().insert(r));
        assert forall|i: int, j: int| 0 <= i < j < q.len() implies (#[trigger] q[i]).started_us <= (
        #[trigger] q[j]).started_us by {
            assert(q[i] == s[i]);
            if j < s.len() {
                assert(q[j] == s[j]);
            } else if i < s.len() - 1 {
                assert(s[i].started_us <= s[s.len() - 1].started_us);
            }
        }
    }
}

/// Putting rows in the order of their starts loses none and adds none.
pub proof fn start_order_ok(rs: Seq<RowV>)
    ensures
        started_in_order(start_order(rs)),
        start_order(rs).to_multiset() == rs.to_multiset(),
    decreases rs.len(),
{
    broadcast use vstd::seq_lib::group_to_multiset_ensures;

    if rs.len() > 0 {
        start_order_ok(rs.drop_last());
        place_row_ok(start_order(rs.drop_last()), rs.last());
        assert(rs =~= rs.drop_last().push(rs.last()));
    } else {
        assert(start_order(rs) =~= rs);
    }
}

proof fn place_row_at(s: Seq<RowV>, r: RowV, k: int)
    requires
        0 <= k <= s.len(),
        k > 0 ==> s[k - 1].started_us <= r.started_us,
        forall|j: int| k <= j < s.len() ==> r.started_us < (#[trigger] s[j]).started_us,
    ensures
        place_row(s, r) == s.insert(k, r),
    decreases s.len(),
{
    if k == s.len() {
        assert(s.insert(k, r) =~= s.push(r));
    } else {
        let t = s.drop_last();
        assert(r.started_us < s[s.len() - 1].started_us);
        assert forall|j: int| k <= j < t.len() implies r.started_us < (#[trigger] t[j]).started_us by {
            assert(t[j] == s[j]);
        }
        place_row_at(t, r, k);
        assert(s.insert(k, r) =~= t.insert(k, r).push(s.last()));
    }
}

fn in_start_order(rows: &Vec<Row>) -> (r: Vec<Row>)
    ensures
        rows_view(r@) == start_order(rows_view(rows@)),
{
    let ghost vs = rows_view(rows@);
    let mut out: Vec<Row> = Vec::new();
    let mut i: usize = 0;
    assert(rows_view(out@) =~= start_order(vs.take(0)));
    while i < rows.len()
        invariant
            i <= rows@.len(),
            vs == rows_view(rows@),
            rows_view(out@) == start_order(vs.take(i as int)),
        decreases rows@.len() - i,
    {
        let ghost s = rows_view(out@);
        let mut k: usize = out.len();
        while k > 0 && rows[i].started_us < out[k - 1].started_us
            invariant
                i < rows@.len(),
                k <= out@.len(),
                s == rows_view(out@),
                forall|j: int|
                    k <= j < s.len() ==> rows@[i as int].started_us < (#[trigger] s[j]).started_us,
            decreases k,
        {
            k -= 1;
        }
        let x = rows[i].clone();
        proof {
            place_row_at(s, x@, k as int);
            assert(vs.take(i + 1).drop_last() =~= vs.take(i as int));
            assert(vs.take(i + 1).last() == rows@[i as int]@);
        }
        out.insert(k, x);
        assert(rows_view(out@) =~= s.insert(k as int, x@));
        i += 1;
    }
    assert(vs.take(i as int) =~= vs);
    out
}

impl Recorder {
    pub fn new(world: Arc<World>) -> (r: Recorder)
        ensures
            r@.world == (*world)@,
            r@.pending.len() == 0,
            r@.next == 0,
    {
        Recorder { world, pending: Vec::new(), next: 0 }
    }

    /// A fresh node id for arms that have no plan (scripts and model loops).
    pub fn next_node_id(&mut self, prefix: &str) -> (r: String)
        requires
            old(self)@.next < u32::MAX,
        ensures
            r@ == prefix@ + dec((old(self)@.next + 1) as nat),
            final(self)@ == (RecorderV { next: (old(self)@.next + 1) as u32, ..old(self)@ }),
    {
        self.next = self.next + 1;
        let mut r = owned(prefix);
        push_dec(&mut r, self.next as u128);
        r
    }

    /// Begin an attempt at `now_us`.
    pub fn start(
        &self,
        node: &str,
        op: &str,
        surface: &str,
        key: Option<String>,
        attempt: u32,
        now_us: u128,
    ) -> (r: Attempt)
        ensures
            r@ == (AttemptV {
                node: node@,
                op: op@,
                surface: surface@,
                key: opt_str(key),
                attempt,
                started_us: now_us,
            }),
    {
        Attempt {
            node: owned(node),
            op: owned(op),
            surface: owned(surface),
            key,
            attempt,
            started_us: now_us,
        }
    }

    /// Whether an operation changes the world, as far as the world model says.
    pub fn is_write(&self, op: &str) -> (r: bool)
        ensures
            r == writes(self@.world, op@),
    {
        match self.world.op(op) {
            Some(o) => o.is_write(),
            None => false,
        }
    }

    /// The rows that are recorded and not yet in a ledger.
    pub fn rows(&self) -> (r: Vec<Row>)
        ensures
            rows_view(r@) == self@.pending,
    {
        clone_rows(&self.pending)
    }

    /// End an attempt at `now_us`, with what it observed or why it failed: one row.
    pub fn finish(&mut self, a: Attempt, res: &Result<Json, String>, now_us: u128)
        ensures
            final(self)@ == (RecorderV {
                pending: old(self)@.pending.push(
                    row_of(
                        old(self)@.world,
                        a@,
                        match res {
                            Ok(v) => Some(v@),
                            Err(_) => None,
                        },
                        match res {
                            Ok(_) => None,
                            Err(e) => Some(e@),
                        },
                        now_us,
                    ),
                ),
                ..old(self)@
            }),
    {
        let ghost before = self@.pending;
        let write = self.is_write(a.op.as_str());
        let (ok, error, observed): (bool, Option<String>, Json) = match res {
            Ok(v) => (true, None, v.clone()),
            Err(e) => (false, Some(e.clone()), Json::Null),
        };
        let row = Row {
            node: a.node,
            op: a.op,
            surface: a.surface,
            key: a.key,
            attempt: a.attempt,
            started_us: a.started_us,
            ended_us: now_us,
            ok,
            write,
            error,
            observed,
        };
        self.pending.push(row);
        assert(self@.pending =~= before.push(row@));
    }

    /// Move every row into the ledger, in start order.
    pub fn drain_into(&mut self, ledger: &mut Ledger)
        ensures
            final(self)@ == (RecorderV { pending: Seq::empty(), ..old(self)@ }),
            final(ledger)@ == (LedgerV {
                rows: start_order(old(ledger)@.rows + old(self)@.pending),
                ..old(ledger)@
            }),
            started_in_order(final(ledger)@.rows),
            final(ledger)@.rows.to_multiset() == (old(ledger)@.rows
                + old(self)@.pending).to_multiset(),
    {
        let ghost a = ledger@.rows;
        let ghost b = self@.pending;
        let mut mine: Vec<Row> = Vec::new();
        std::mem::swap(&mut mine, &mut self.pending);
        assert(self@.pending =~= Seq::<RowV>::empty());
        ledger.rows.append(&mut mine);
        assert(rows_view(ledger.rows@) =~= a + b);
        let sorted = in_start_order(&ledger.rows);
        ledger.rows = sorted;
        proof {
            start_order_ok(a + b);
        }
    }
}

} // verus!
