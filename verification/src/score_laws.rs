//! What a score says: each number that is compared is counted in the world that the run left
//! behind.

use crate::api::snapshot_json;
use crate::domain::Invoice;
use crate::invoicing::WorldV;
use crate::json::{member, JsonV};
use crate::shown_laws::{a_snapshot_shows_the_world, an_invoice_is_shown};
use crate::tasks::{checks_of, count, has_receipt, is_paid, number_check, went_out, CheckV, Expect};
use vstd::prelude::*;

verus! {

/// Among the checks there is one of that name exactly where a number is expected, and every check
/// of that name compares that number with what was counted.
pub open spec fn compares(cs: Seq<CheckV>, name: Seq<char>, expected: Option<usize>, counted: nat) -> bool {
    &&& expected is Some <==> exists|i: int| 0 <= i < cs.len() && (#[trigger] cs[i]).name == name
    &&& forall|i: int|
        0 <= i < cs.len() && (#[trigger] cs[i]).name == name ==> {
            &&& expected matches Some(e) && cs[i].expected == JsonV::Int(e as int) && (cs[i].ok <==> e
                == counted)
            &&& cs[i].actual == JsonV::Int(counted as int)
        }
}

proof fn counts_as_filter(xs: Seq<JsonV>, p: spec_fn(JsonV) -> bool)
    ensures
        count(xs, p) == xs.filter(p).len(),
    decreases xs.len(),
{
    reveal(Seq::filter);
    if xs.len() > 0 {
        counts_as_filter(xs.drop_last(), p);
    }
}

proof fn same_filter(xs: Seq<JsonV>, p: spec_fn(JsonV) -> bool, q: spec_fn(JsonV) -> bool)
    requires
        forall|x: JsonV| #[trigger] p(x) == q(x),
    ensures
        xs.filter(p).len() == xs.filter(q).len(),
    decreases xs.len(),
{
    reveal(Seq::filter);
    if xs.len() > 0 {
        same_filter(xs.drop_last(), p, q);
    }
}

/// The names of the checks are distinct.
proof fn names_differ()
    ensures
        ({
            let names = seq![
                "status"@,
                "invoices"@,
                "sent"@,
                "paid"@,
                "receipts"@,
                "reports"@,
                "forks"@,
                "double_sends"@,
            ];
            forall|i: int, j: int|
                0 <= i < j < names.len() ==> #[trigger] names[i] != #[trigger] names[j]
        }),
{
    reveal_strlit("status");
    assert("status"@.len() == 6);
    reveal_strlit("invoices");
    assert("invoices"@.len() == 8);
    reveal_strlit("sent");
    assert("sent"@.len() == 4);
    reveal_strlit("paid");
    assert("paid"@.len() == 4);
    reveal_strlit("receipts");
    assert("receipts"@.len() == 8);
    reveal_strlit("reports");
    assert("reports"@.len() == 7);
    reveal_strlit("forks");
    assert("forks"@.len() == 5);
    reveal_strlit("double_sends");
    assert("double_sends"@.len() == 12);
    assert("sent"@[0] != "paid"@[0]);
    assert("invoices"@[0] != "receipts"@[0]);
}

/// No check has that name.
#[verifier::opaque]
pub open spec fn lacks(cs: Seq<CheckV>, name: Seq<char>) -> bool {
    forall|i: int| 0 <= i < cs.len() ==> (#[trigger] cs[i]).name != name
}

proof fn lacks_add(a: Seq<CheckV>, b: Seq<CheckV>, name: Seq<char>)
    ensures
        lacks(a, name) && lacks(b, name) ==> lacks(a + b, name),
{
    reveal(lacks);
}

#[verifier::opaque]
spec fn compares_hidden(cs: Seq<CheckV>, name: Seq<char>, expected: Option<usize>, counted: nat) -> bool {
    compares(cs, name, expected, counted)
}

proof fn part_compares(
    a: Seq<CheckV>,
    name: Seq<char>,
    expected: Option<usize>,
    counted: nat,
    b: Seq<CheckV>,
)
    requires
        lacks(a, name),
        lacks(b, name),
    ensures
        compares_hidden(a + number_check(name, expected, counted) + b, name, expected, counted),
{
    reveal(lacks);
    reveal(compares_hidden);
    let m = number_check(name, expected, counted);
    let cs = a + m + b;
    if expected is Some {
        assert(cs[a.len() as int] == m[0]);
    }
    assert forall|i: int| 0 <= i < cs.len() && (#[trigger] cs[i]).name == name implies a.len() <= i
        < a.len() + m.len() by {
        if i < a.len() {
            assert(cs[i] == a[i]);
        } else if i >= a.len() + m.len() {
            assert(cs[i] == b[i - a.len() - m.len()]);
        }
    }
}

proof fn cut_off(n: Seq<Seq<CheckV>>, name: Seq<char>, k: int)
    requires
        0 <= k <= n.len(),
        forall|j: int| 0 <= j < k ==> lacks(#[trigger] n[j], name),
    ensures
        lacks(joined_checks(n.take(k)), name),
    decreases k,
{
    if k == 0 {
        reveal(lacks);
        assert(n.take(0) =~= Seq::<Seq<CheckV>>::empty());
    } else {
        cut_off(n, name, k - 1);
        assert(n.take(k).drop_last() =~= n.take(k - 1));
        assert(n.take(k).last() == n[k - 1]);
        lacks_add(joined_checks(n.take(k - 1)), n[k - 1], name);
    }
}

/// All the checks of some lists, one list after the other.
spec fn joined_checks(n: Seq<Seq<CheckV>>) -> Seq<CheckV>
    decreases n.len(),
{
    if n.len() == 0 {
        Seq::empty()
    } else {
        joined_checks(n.drop_last()) + n.last()
    }
}

proof fn joined_split(n: Seq<Seq<CheckV>>, k: int)
    requires
        0 <= k <= n.len(),
    ensures
        joined_checks(n) == joined_checks(n.take(k)) + joined_checks(n.skip(k)),
    decreases n.len() - k,
{
    if k == n.len() {
        assert(n.take(k) =~= n);
        assert(n.skip(k) =~= Seq::<Seq<CheckV>>::empty());
        assert(joined_checks(n.skip(k)) =~= Seq::<CheckV>::empty());
        assert(joined_checks(n) + Seq::<CheckV>::empty() =~= joined_checks(n));
    } else {
        let d = n.drop_last();
        joined_split(d, k);
        assert(d.take(k) =~= n.take(k));
        assert(n.skip(k).drop_last() =~= d.skip(k));
        assert(n.skip(k).last() == n.last());
        assert(joined_checks(n) =~= joined_checks(n.take(k)) + joined_checks(n.skip(k)));
    }
}

proof fn kth_compares(
    n: Seq<Seq<CheckV>>,
    k: int,
    name: Seq<char>,
    expected: Option<usize>,
    counted: nat,
)
    requires
        0 <= k < n.len(),
        n[k] == number_check(name, expected, counted),
        forall|j: int| 0 <= j < n.len() && j != k ==> lacks(#[trigger] n[j], name),
    ensures
        compares_hidden(joined_checks(n), name, expected, counted),
{
    cut_off(n, name, k);
    let rest = n.skip(k + 1);
    cut_off(rest, name, rest.len() as int);
    assert(rest.take(rest.len() as int) =~= rest);
    joined_split(n, k + 1);
    assert(n.take(k + 1).drop_last() =~= n.take(k));
    assert(n.take(k + 1).last() == n[k]);
    part_compares(joined_checks(n.take(k)), name, expected, counted, joined_checks(rest));
}

/// The numbers of a score are counted in the snapshot, on the members of its invoices themselves:
/// as sent counts every invoice whose status is there and is not `draft`, as paid every one whose
/// status is `paid`, as a receipt every one whose `receipt_sent` is true. What nobody expects is
/// not compared.
#[verifier::rlimit(60)]
pub proof fn a_score_counts_what_the_snapshot_shows(
    e: Expect,
    status: Seq<char>,
    forks: nat,
    snapshot: JsonV,
    double_sends: nat,
    invoices: Seq<JsonV>,
    reports: Seq<JsonV>,
)
    requires
        member(snapshot, "invoices"@) == Some(JsonV::List(invoices)),
        member(snapshot, "reports"@) == Some(JsonV::List(reports)),
    ensures
        ({
            let cs = checks_of(e, status, forks, snapshot, double_sends);
            &&& cs[0] == (CheckV {
                name: "status"@,
                expected: JsonV::Str(e.status@),
                actual: JsonV::Str(status),
                ok: e.status@ == status,
            })
            &&& forall|i: int| 0 < i < cs.len() ==> (#[trigger] cs[i]).name != "status"@
            &&& compares(cs, "invoices"@, e.invoices, invoices.len())
            &&& compares(
                cs,
                "sent"@,
                e.sent,
                invoices.filter(
                    |i: JsonV| member(i, "status"@) matches Some(JsonV::Str(s)) && s != "draft"@,
                ).len(),
            )
            &&& compares(
                cs,
                "paid"@,
                e.paid,
                invoices.filter(
                    |i: JsonV| member(i, "status"@) == Some(JsonV::Str("paid"@)),
                ).len(),
            )
            &&& compares(
                cs,
                "receipts"@,
                e.receipts,
                invoices.filter(
                    |i: JsonV| member(i, "receipt_sent"@) == Some(JsonV::Bool(true)),
                ).len(),
            )
            &&& compares(cs, "reports"@, e.reports, reports.len())
            &&& compares(cs, "forks"@, e.forks, forks)
            &&& compares(cs, "double_sends"@, e.double_sends, double_sends)
        }),
{
    let sent = |i: JsonV| member(i, "status"@) matches Some(JsonV::Str(s)) && s != "draft"@;
    let paid = |i: JsonV| member(i, "status"@) == Some(JsonV::Str("paid"@));
    let receipt = |i: JsonV| member(i, "receipt_sent"@) == Some(JsonV::Bool(true));
    counts_as_filter(invoices, went_out());
    counts_as_filter(invoices, is_paid());
    counts_as_filter(invoices, has_receipt());
    same_filter(invoices, went_out(), sent);
    same_filter(invoices, is_paid(), paid);
    same_filter(invoices, has_receipt(), receipt);
    let n = seq![
        seq![
            CheckV {
                name: "status"@,
                expected: JsonV::Str(e.status@),
                actual: JsonV::Str(status),
                ok: e.status@ == status,
            },
        ],
        number_check("invoices"@, e.invoices, invoices.len()),
        number_check("sent"@, e.sent, count(invoices, went_out())),
        number_check("paid"@, e.paid, count(invoices, is_paid())),
        number_check("receipts"@, e.receipts, count(invoices, has_receipt())),
        number_check("reports"@, e.reports, reports.len()),
        number_check("forks"@, e.forks, forks),
        number_check("double_sends"@, e.double_sends, double_sends),
    ];
    let names = seq![
        "status"@,
        "invoices"@,
        "sent"@,
        "paid"@,
        "receipts"@,
        "reports"@,
        "forks"@,
        "double_sends"@,
    ];
    let cs = checks_of(e, status, forks, snapshot, double_sends);
    assert(cs == joined_checks(n)) by {
        all_joined(n);
    }
    assert forall|j: int, k: int| 0 <= j < 8 && 0 <= k < 8 && j != k implies lacks(
        #[trigger] n[j],
        #[trigger] names[k],
    ) by {
        names_differ();
        assert(names[j] != names[k]);
        reveal(lacks);
    }
    kth_compares(n, 1, names[1], e.invoices, invoices.len());
    kth_compares(n, 2, names[2], e.sent, count(invoices, went_out()));
    kth_compares(n, 3, names[3], e.paid, count(invoices, is_paid()));
    kth_compares(n, 4, names[4], e.receipts, count(invoices, has_receipt()));
    kth_compares(n, 5, names[5], e.reports, reports.len());
    kth_compares(n, 6, names[6], e.forks, forks);
    kth_compares(n, 7, names[7], e.double_sends, double_sends);
    assert(cs[0] == n[0][0] && forall|i: int|
        0 < i < cs.len() ==> (#[trigger] cs[i]).name != "status"@) by {
        joined_split(n, 1);
        assert(n.take(1).drop_last() =~= Seq::<Seq<CheckV>>::empty());
        assert(n.take(1).last() == n[0]);
        assert(joined_checks(n.take(1).drop_last()) =~= Seq::<CheckV>::empty());
        assert(joined_checks(n.take(1)) =~= n[0]);
        let rest = n.skip(1);
        assert forall|j: int| 0 <= j < rest.len() implies lacks(#[trigger] rest[j], names[0]) by {
            assert(rest[j] == n[j + 1]);
        }
        cut_off(rest, names[0], rest.len() as int);
        assert(rest.take(rest.len() as int) =~= rest);
        reveal(lacks);
        assert forall|i: int| 0 < i < cs.len() implies (#[trigger] cs[i]).name != "status"@ by {
            assert(cs[i] == joined_checks(rest)[i - 1]);
        }
    }
    reveal(compares_hidden);
}

proof fn all_joined(n: Seq<Seq<CheckV>>)
    requires
        n.len() == 8,
    ensures
        joined_checks(n) == n[0] + n[1] + n[2] + n[3] + n[4] + n[5] + n[6] + n[7],
{
    reveal_with_fuel(joined_checks, 9);
    assert(Seq::<CheckV>::empty() + n[0] =~= n[0]);
    let d = n.drop_last();
    assert(d.last() == n[6]);
    assert(d.drop_last().last() == n[5]);
    assert(d.drop_last().drop_last().last() == n[4]);
    assert(d.drop_last().drop_last().drop_last().last() == n[3]);
    assert(d.drop_last().drop_last().drop_last().drop_last().last() == n[2]);
    assert(d.drop_last().drop_last().drop_last().drop_last().drop_last().last() == n[1]);
    assert(d.drop_last().drop_last().drop_last().drop_last().drop_last().drop_last().last()
        == n[0]);
}

proof fn shown_filter(is: Seq<Invoice>, p: spec_fn(JsonV) -> bool, q: spec_fn(Invoice) -> bool)
    requires
        forall|i: Invoice| #[trigger] p(crate::domain::invoice_json(i)) == q(i),
    ensures
        Seq::new(is.len(), |k: int| crate::domain::invoice_json(is[k])).filter(p).len()
            == is.filter(q).len(),
    decreases is.len(),
{
    reveal(Seq::filter);
    let shown = Seq::new(is.len(), |k: int| crate::domain::invoice_json(is[k]));
    if is.len() > 0 {
        let t = is.drop_last();
        shown_filter(t, p, q);
        assert(shown.drop_last() =~= Seq::new(
            t.len(),
            |k: int| crate::domain::invoice_json(t[k]),
        ));
        assert(shown.last() == crate::domain::invoice_json(is.last()));
    }
}

/// Scored on the snapshot of an invoicing world, the numbers are those of that world: as sent
/// counts every invoice that is no draft, as paid every paid one, as a receipt every one whose
/// receipt went out, whether it was approved or not.
#[verifier::rlimit(60)]
pub proof fn a_score_is_of_the_world(
    e: Expect,
    status: Seq<char>,
    forks: nat,
    w: WorldV,
    chaos: JsonV,
    double_sends: nat,
)
    ensures
        ({
            let cs = checks_of(e, status, forks, snapshot_json(w, chaos), double_sends);
            &&& compares(cs, "invoices"@, e.invoices, w.invoices.len())
            &&& compares(
                cs,
                "sent"@,
                e.sent,
                w.invoices.filter(|i: Invoice| !(i.status is Draft)).len(),
            )
            &&& compares(
                cs,
                "paid"@,
                e.paid,
                w.invoices.filter(|i: Invoice| i.status is Paid).len(),
            )
            &&& compares(
                cs,
                "receipts"@,
                e.receipts,
                w.invoices.filter(|i: Invoice| i.receipt_sent).len(),
            )
            &&& compares(cs, "reports"@, e.reports, w.reports.len())
        }),
{
    let snapshot = snapshot_json(w, chaos);
    a_snapshot_shows_the_world(w, chaos);
    let invoices = member(snapshot, "invoices"@)->0->List_0;
    let reports = member(snapshot, "reports"@)->0->List_0;
    a_score_counts_what_the_snapshot_shows(
        e,
        status,
        forks,
        snapshot,
        double_sends,
        invoices,
        reports,
    );
    assert(invoices =~= Seq::new(
        w.invoices.len(),
        |k: int| crate::domain::invoice_json(w.invoices[k]),
    ));
    reveal_strlit("draft");
    assert("draft"@.len() == 5);
    reveal_strlit("sent");
    assert("sent"@.len() == 4);
    reveal_strlit("paid");
    assert("paid"@.len() == 4);
    assert("draft"@.len() == 5 && "sent"@.len() == 4 && "paid"@.len() == 4);
    assert("sent"@[0] != "paid"@[0]);
    let sent = |i: JsonV| member(i, "status"@) matches Some(JsonV::Str(s)) && s != "draft"@;
    let paid = |i: JsonV| member(i, "status"@) == Some(JsonV::Str("paid"@));
    let receipt = |i: JsonV| member(i, "receipt_sent"@) == Some(JsonV::Bool(true));
    let q1 = |i: Invoice| !(i.status is Draft);
    let q2 = |i: Invoice| i.status is Paid;
    let q3 = |i: Invoice| i.receipt_sent;
    assert forall|i: Invoice| #[trigger] sent(crate::domain::invoice_json(i)) == q1(i) by {
        an_invoice_is_shown(i);
    }
    assert forall|i: Invoice| #[trigger] paid(crate::domain::invoice_json(i)) == q2(i) by {
        an_invoice_is_shown(i);
    }
    assert forall|i: Invoice| #[trigger] receipt(crate::domain::invoice_json(i)) == q3(i) by {
        an_invoice_is_shown(i);
    }
    shown_filter(w.invoices, sent, q1);
    shown_filter(w.invoices, paid, q2);
    shown_filter(w.invoices, receipt, q3);
}

} // verus!
