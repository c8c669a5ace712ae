//! Tasks: the goal, the wants, what happens around them, and what the oracle must show at the
//! end.

use crate::intent::{clone_forks, forks_view, Constraints, Intent, IntentFork, IntentV};
use crate::json::{
    as_bool, as_list, as_str, bool_of, clone_obj, get_in, list_of, list_view, member, str_of,
    then_member, Json, JsonV,
};
use crate::ledger::Status;
use crate::object::{no_entries, put, put_entry, text_json};
use crate::text::{clone_strings, owned, same, views};
use vstd::prelude::*;

verus! {

/// What the oracle must show at the end. What is not said is not tested.
#[derive(Debug)]
pub struct Expect {
    pub status: String,
    pub invoices: Option<usize>,
    pub sent: Option<usize>,
    pub paid: Option<usize>,
    pub receipts: Option<usize>,
    pub reports: Option<usize>,
    pub forks: Option<usize>,
    pub double_sends: Option<usize>,
    /// What to expect instead when the arm answered a fork and resumed.
    pub after_resume: Option<Box<Expect>>,
}

impl Expect {
    /// The expectation that applies: the resumed one when a fork was answered, else this.
    pub fn applicable(&self, resumed: bool) -> (r: &Expect)
        ensures
            *r == (match (self.after_resume, resumed) {
                (Some(e), true) => *e,
                _ => *self,
            }),
    {
        match (&self.after_resume, resumed) {
            (Some(e), true) => e,
            _ => self,
        }
    }
}

/// What the script ceiling does for a task: a parallel program, declared rather than coded.
#[derive(Debug)]
pub struct ScriptSpec {
    /// Customers to invoice, each in its own lane.
    pub customers: Vec<String>,
    pub send: bool,
    /// Poll the invoice until paid. The ceiling may poll; it is the speed of light, not the
    /// claim.
    pub wait_paid: bool,
    pub receipt: bool,
    /// One report per invoice, after that lane's last step.
    pub report_each: bool,
    /// One report over every invoice, after every lane.
    pub report_all: bool,
}

/// What the outside world does during a task.
#[derive(Clone, Copy, Debug, PartialEq, Eq)]
pub struct Hooks {
    pub pay_after_create_ms: Option<u64>,
    /// The payment lands but its webhook is lost, so only reading the world reveals it.
    pub pay_silently: bool,
}

/// One task.
#[derive(Debug)]
pub struct Task {
    pub id: String,
    pub title: String,
    pub phase: u32,
    /// Length of the longest dependency chain in the task. Ground truth for the samples against
    /// depth, because a baseline arm has no plan to measure it from.
    pub depth: u32,
    pub seed: u64,
    pub goal: String,
    pub wants: Vec<String>,
    pub constraints: Constraints,
    pub forks: Vec<IntentFork>,
    pub chaos: Json,
    pub hooks: Hooks,
    pub script: Option<ScriptSpec>,
    pub expect: Expect,
}

impl Task {
    /// The intent that the task itself spells out.
    pub fn intent(&self) -> (r: Intent)
        ensures
            r@ == (IntentV {
                goal: self.goal@,
                wants: views(self.wants@),
                constraints: self.constraints,
                forks: forks_view(self.forks@),
            }),
    {
        Intent {
            goal: self.goal.clone(),
            wants: clone_strings(&self.wants),
            constraints: self.constraints,
            forks: clone_forks(&self.forks),
        }
    }
}

/// The chaos of a run: what the task says, with the latency of the run unless it sets its own.
pub open spec fn chaos_of(chaos: JsonV, latency_ms: u64) -> JsonV {
    let own = match chaos {
        JsonV::Obj(xs) => xs,
        _ => Seq::empty(),
    };
    if member(JsonV::Obj(own), "latency_ms"@) is Some {
        JsonV::Obj(own)
    } else {
        JsonV::Obj(put(own, "latency_ms"@, JsonV::Int(latency_ms as int)))
    }
}

/// The chaos of a run.
pub fn chaos_for(chaos: &Json, latency_ms: u64) -> (r: Json)
    ensures
        r@ == chaos_of(chaos@, latency_ms),
{
    let mut own = match chaos {
        Json::Obj(xs) => clone_obj(xs),
        _ => no_entries(),
    };
    let sets_it = crate::json::get_entry(&own, "latency_ms").is_some();
    if !sets_it {
        put_entry(&mut own, "latency_ms", Json::Int(latency_ms as i128));
    }
    Json::Obj(own)
}

// ---------- what the oracle shows ----------

/// Whether a fork was answered by a sample.
pub open spec fn answered(samples: Seq<JsonV>) -> bool {
    exists|i: int|
        0 <= i < samples.len() && str_of(member(#[trigger] samples[i], "kind"@)) == Some(
            "fork_answer"@,
        )
}

/// Whether a fork was answered by a default.
pub open spec fn defaulted(forks: Seq<JsonV>) -> bool {
    exists|i: int|
        0 <= i < forks.len() && (member(#[trigger] forks[i], "auto"@) matches Some(v) && !(v
            is Null))
}

/// The items at a place below `ledger`, or none.
pub open spec fn ledger_list(receipt: JsonV, k: Seq<char>) -> Seq<JsonV> {
    match list_of(then_member(member(receipt, "ledger"@), k)) {
        Some(xs) => xs,
        None => Seq::empty(),
    }
}

/// True when the fork was answered: by a planner sample, or by a default the intent declared.
pub fn resumed_after_fork(receipt: &Json) -> (r: bool)
    ensures
        r == (answered(ledger_list(receipt@, "samples"@)) || defaulted(
            ledger_list(receipt@, "forks"@),
        )),
{
    let ghost ss = ledger_list(receipt@, "samples"@);
    let ghost fs = ledger_list(receipt@, "forks"@);
    match as_list(get_in(receipt.get("ledger"), "samples")) {
        Some(xs) => {
            assert(ss == list_view(xs@));
            assert(ss.len() == xs@.len());
            let mut i: usize = 0;
            while i < xs.len()
                invariant
                    i <= xs@.len() == ss.len(),
                    ss == list_view(xs@),
                    ss == ledger_list(receipt@, "samples"@),
                    forall|j: int|
                        0 <= j < i ==> str_of(member(#[trigger] ss[j], "kind"@)) != Some(
                            "fork_answer"@,
                        ),
                decreases xs@.len() - i,
            {
                assert(ss[i as int] == xs@[i as int]@);
                match as_str(xs[i].get("kind")) {
                    Some(k) => {
                        if same(k, "fork_answer") {
                            return true;
                        }
                    },
                    None => {},
                }
                i += 1;
            }
        },
        None => {},
    }
    assert(!answered(ss));
    match as_list(get_in(receipt.get("ledger"), "forks")) {
        Some(xs) => {
            assert(fs == list_view(xs@));
            assert(fs.len() == xs@.len());
            let mut i: usize = 0;
            while i < xs.len()
                invariant
                    i <= xs@.len() == fs.len(),
                    fs == list_view(xs@),
                    fs == ledger_list(receipt@, "forks"@),
                    forall|j: int|
                        0 <= j < i ==> !(member(#[trigger] fs[j], "auto"@) matches Some(v) && !(v
                            is Null)),
                decreases xs@.len() - i,
            {
                assert(fs[i as int] == xs@[i as int]@);
                match xs[i].get("auto") {
                    Some(Json::Null) => {},
                    Some(_) => {
                        return true;
                    },
                    None => {},
                }
                i += 1;
            }
        },
        None => {},
    }
    false
}

/// One thing the oracle tested, with what was expected and what was seen.
#[derive(Debug)]
pub struct Check {
    pub name: String,
    pub expected: Json,
    pub actual: Json,
    pub ok: bool,
}

pub struct CheckV {
    pub name: Seq<char>,
    pub expected: JsonV,
    pub actual: JsonV,
    pub ok: bool,
}

impl View for Check {
    type V = CheckV;

    open spec fn view(&self) -> CheckV {
        CheckV {
            name: self.name@,
            expected: self.expected@,
            actual: self.actual@,
            ok: self.ok,
        }
    }
}

pub open spec fn checks_view(cs: Seq<Check>) -> Seq<CheckV> {
    cs.map_values(|c: Check| c@)
}

/// How many of a list are so.
pub open spec fn count(xs: Seq<JsonV>, p: spec_fn(JsonV) -> bool) -> nat
    decreases xs.len(),
{
    if xs.len() == 0 {
        0
    } else {
        count(xs.drop_last(), p) + if p(xs.last()) {
            1nat
        } else {
            0
        }
    }
}

/// An invoice that went out: a paid one did too, a draft did not.
pub open spec fn went_out() -> spec_fn(JsonV) -> bool {
    |i: JsonV| str_of(member(i, "status"@)) matches Some(s) && s != "draft"@
}

pub open spec fn is_paid() -> spec_fn(JsonV) -> bool {
    |i: JsonV| str_of(member(i, "status"@)) == Some("paid"@)
}

pub open spec fn has_receipt() -> spec_fn(JsonV) -> bool {
    |i: JsonV| bool_of(member(i, "receipt_sent"@)) == Some(true)
}

/// The items under a key, or none.
pub open spec fn items_at(v: JsonV, k: Seq<char>) -> Seq<JsonV> {
    match list_of(member(v, k)) {
        Some(xs) => xs,
        None => Seq::empty(),
    }
}

/// A number that was expected, tested; nothing where none was.
pub open spec fn number_check(name: Seq<char>, expected: Option<usize>, actual: nat) -> Seq<CheckV> {
    match expected {
        Some(e) => seq![
            CheckV {
                name,
                expected: JsonV::Int(e as int),
                actual: JsonV::Int(actual as int),
                ok: e == actual,
            },
        ],
        None => Seq::empty(),
    }
}

/// Everything the oracle tests. The world is read from the snapshot, never from the arm.
pub open spec fn checks_of(
    e: Expect,
    status: Seq<char>,
    forks: nat,
    snapshot: JsonV,
    double_sends: nat,
) -> Seq<CheckV> {
    let invoices = items_at(snapshot, "invoices"@);
    seq![
        CheckV {
            name: "status"@,
            expected: JsonV::Str(e.status@),
            actual: JsonV::Str(status),
            ok: e.status@ == status,
        },
    ] + number_check("invoices"@, e.invoices, invoices.len()) + number_check(
        "sent"@,
        e.sent,
        count(invoices, went_out()),
    ) + number_check("paid"@, e.paid, count(invoices, is_paid())) + number_check(
        "receipts"@,
        e.receipts,
        count(invoices, has_receipt()),
    ) + number_check("reports"@, e.reports, items_at(snapshot, "reports"@).len()) + number_check(
        "forks"@,
        e.forks,
        forks,
    ) + number_check("double_sends"@, e.double_sends, double_sends)
}

fn tally_invoices(xs: &Vec<Json>) -> (r: (usize, usize, usize))
    ensures
        ({
            let vs = list_view(xs@);
            &&& r.0 == count(vs, went_out())
            &&& r.1 == count(vs, is_paid())
            &&& r.2 == count(vs, has_receipt())
        }),
{
    let ghost vs = list_view(xs@);
    assert(vs.len() == xs@.len());
    let mut sent: usize = 0;
    let mut paid: usize = 0;
    let mut receipts: usize = 0;
    let mut i: usize = 0;
    while i < xs.len()
        invariant
            i <= xs@.len() == vs.len(),
            vs == list_view(xs@),
            sent <= i,
            paid <= i,
            receipts <= i,
            sent == count(vs.take(i as int), went_out()),
            paid == count(vs.take(i as int), is_paid()),
            receipts == count(vs.take(i as int), has_receipt()),
        decreases xs@.len() - i,
    {
        let n = xs.len();
        assert(i < n);
        proof {
            assert(vs.take(i + 1).drop_last() =~= vs.take(i as int));
            assert(vs.take(i + 1).last() == xs@[i as int]@);
        }
        match as_str(xs[i].get("status")) {
            Some(s) => {
                if !same(s, "draft") {
                    sent += 1;
                }
                if same(s, "paid") {
                    paid += 1;
                }
            },
            None => {},
        }
        match as_bool(xs[i].get("receipt_sent")) {
            Some(true) => {
                receipts += 1;
            },
            _ => {},
        }
        i += 1;
    }
    assert(vs.take(i as int) =~= vs);
    (sent, paid, receipts)
}

fn push_number(out: &mut Vec<Check>, name: &str, expected: Option<usize>, actual: usize)
    ensures
        checks_view(final(out)@) == checks_view(old(out)@) + number_check(
            name@,
            expected,
            actual as nat,
        ),
{
    let ghost before = checks_view(out@);
    match expected {
        Some(e) => {
            let c = Check {
                name: owned(name),
                expected: Json::Int(e as i128),
                actual: Json::Int(actual as i128),
                ok: e == actual,
            };
            out.push(c);
            assert(checks_view(out@) =~= before + seq![c@]);
        },
        None => {
            assert(before + Seq::<CheckV>::empty() =~= before);
        },
    }
}

/// Everything the oracle tests.
pub fn check(
    expect: &Expect,
    status: &str,
    forks: usize,
    snapshot: &Json,
    double_sends: usize,
) -> (r: Vec<Check>)
    ensures
        checks_view(r@) == checks_of(
            *expect,
            status@,
            forks as nat,
            snapshot@,
            double_sends as nat,
        ),
{
    let none: Vec<Json> = Vec::new();
    assert(list_view(none@) =~= Seq::<JsonV>::empty());
    let invoices: &Vec<Json> = match as_list(snapshot.get("invoices")) {
        Some(xs) => xs,
        None => &none,
    };
    let reports: &Vec<Json> = match as_list(snapshot.get("reports")) {
        Some(xs) => xs,
        None => &none,
    };
    assert(list_view(invoices@).len() == invoices@.len());
    assert(list_view(reports@).len() == reports@.len());
    let (sent, paid, receipts) = tally_invoices(invoices);
    let first = Check {
        name: owned("status"),
        expected: Json::Str(expect.status.clone()),
        actual: text_json(status),
        ok: same(expect.status.as_str(), status),
    };
    let ghost fv = first@;
    let mut out: Vec<Check> = Vec::new();
    out.push(first);
    assert(checks_view(out@) =~= seq![fv]);
    push_number(&mut out, "invoices", expect.invoices, invoices.len());
    push_number(&mut out, "sent", expect.sent, sent);
    push_number(&mut out, "paid", expect.paid, paid);
    push_number(&mut out, "receipts", expect.receipts, receipts);
    push_number(&mut out, "reports", expect.reports, reports.len());
    push_number(&mut out, "forks", expect.forks, forks);
    push_number(&mut out, "double_sends", expect.double_sends, double_sends);
    out
}

/// Whether every test passed.
pub open spec fn all_ok(cs: Seq<CheckV>) -> bool {
    forall|i: int| 0 <= i < cs.len() ==> (#[trigger] cs[i]).ok
}

/// Whether every test passed.
pub fn all_passed(cs: &Vec<Check>) -> (r: bool)
    ensures
        r == all_ok(checks_view(cs@)),
{
    let ghost vs = checks_view(cs@);
    let mut i: usize = 0;
    while i < cs.len()
        invariant
            i <= cs@.len() == vs.len(),
            vs == checks_view(cs@),
            forall|j: int| 0 <= j < i ==> (#[trigger] vs[j]).ok,
        decreases cs@.len() - i,
    {
        assert(vs[i as int] == cs@[i as int]@);
        if !cs[i].ok {
            return false;
        }
        i += 1;
    }
    true
}

/// Whether a number is as expected, where one is.
pub open spec fn meets(expected: Option<usize>, actual: nat) -> bool {
    expected matches Some(e) ==> e == actual
}

proof fn number_ok(name: Seq<char>, expected: Option<usize>, actual: nat)
    ensures
        all_ok(number_check(name, expected, actual)) == meets(expected, actual),
{
    match expected {
        Some(e) => {
            assert(number_check(name, expected, actual)[0].ok == (e == actual));
        },
        None => {},
    }
}

proof fn all_ok_add(a: Seq<CheckV>, b: Seq<CheckV>)
    ensures
        all_ok(a + b) == (all_ok(a) && all_ok(b)),
{
    if all_ok(a + b) {
        assert forall|i: int| 0 <= i < a.len() implies (#[trigger] a[i]).ok by {
            assert((a + b)[i] == a[i]);
        }
        assert forall|i: int| 0 <= i < b.len() implies (#[trigger] b[i]).ok by {
            assert((a + b)[a.len() + i] == b[i]);
        }
    }
}

/// A run is correct exactly when it ended as expected and every number that was expected is the
/// one that the snapshot shows.
pub proof fn correct_means_as_expected(
    e: Expect,
    status: Seq<char>,
    forks: nat,
    snapshot: JsonV,
    double_sends: nat,
)
    ensures
        ({
            let invoices = items_at(snapshot, "invoices"@);
            all_ok(checks_of(e, status, forks, snapshot, double_sends)) <==> e.status@ == status
                && meets(e.invoices, invoices.len()) && meets(e.sent, count(invoices, went_out()))
                && meets(e.paid, count(invoices, is_paid())) && meets(
                e.receipts,
                count(invoices, has_receipt()),
            ) && meets(e.reports, items_at(snapshot, "reports"@).len()) && meets(e.forks, forks)
                && meets(e.double_sends, double_sends)
        }),
{
    let invoices = items_at(snapshot, "invoices"@);
    let s0 = seq![
        CheckV {
            name: "status"@,
            expected: JsonV::Str(e.status@),
            actual: JsonV::Str(status),
            ok: e.status@ == status,
        },
    ];
    assert(s0[0].ok == (e.status@ == status));
    let n1 = number_check("invoices"@, e.invoices, invoices.len());
    let n2 = number_check("sent"@, e.sent, count(invoices, went_out()));
    let n3 = number_check("paid"@, e.paid, count(invoices, is_paid()));
    let n4 = number_check("receipts"@, e.receipts, count(invoices, has_receipt()));
    let n5 = number_check("reports"@, e.reports, items_at(snapshot, "reports"@).len());
    let n6 = number_check("forks"@, e.forks, forks);
    let n7 = number_check("double_sends"@, e.double_sends, double_sends);
    number_ok("invoices"@, e.invoices, invoices.len());
    number_ok("sent"@, e.sent, count(invoices, went_out()));
    number_ok("paid"@, e.paid, count(invoices, is_paid()));
    number_ok("receipts"@, e.receipts, count(invoices, has_receipt()));
    number_ok("reports"@, e.reports, items_at(snapshot, "reports"@).len());
    number_ok("forks"@, e.forks, forks);
    number_ok("double_sends"@, e.double_sends, double_sends);
    all_ok_add(s0, n1);
    all_ok_add(s0 + n1, n2);
    all_ok_add(s0 + n1 + n2, n3);
    all_ok_add(s0 + n1 + n2 + n3, n4);
    all_ok_add(s0 + n1 + n2 + n3 + n4, n5);
    all_ok_add(s0 + n1 + n2 + n3 + n4 + n5, n6);
    all_ok_add(s0 + n1 + n2 + n3 + n4 + n5 + n6, n7);
}

/// The name of a status.
pub open spec fn status_word(s: Status) -> Seq<char> {
    match s {
        Status::Committed => "committed"@,
        Status::NeedThink => "need_think"@,
        Status::Error => "error"@,
    }
}

/// The name of a status.
pub fn status_name(s: Status) -> (r: &'static str)
    ensures
        r@ == status_word(s),
{
    match s {
        Status::Committed => "committed",
        Status::NeedThink => "need_think",
        Status::Error => "error",
    }
}

} // verus!
