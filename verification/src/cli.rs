//! What the command line decides: whether a request holds up, what is said before anything is
//! done, and how the end is told.

use crate::cut::{
    contains_str, join, joined, occurs, replace, replaced, trim, trimmed,
};
use crate::intent::{clone_forks, Intent, IntentV};
use crate::json::{clone_obj, list_push, list_view, Json, JsonV};
use crate::ledger::{Receipt, ReceiptV, Status};
use crate::lint::{errs_view, lint_at, lint_code, lint_error_text, lint_want, LintError, LintErrorV};
use crate::measured::{receipt_fits, receipt_json};
use crate::object::{no_entries, one_entry, put, put_entry, text_json, two_entries};
use crate::plan::{depth_spec, nodes_view, spaces, Node, NodeV, Plan, PlanV};
use crate::text::{
    clone_strings, debug_str, debug_text, dec, dec_string, list_has, owned, push_dec, same,
    sort_dedup, sorted_unique, views,
};
use crate::world::{opt_str, surfaces_view, OpKind, OpV, World, WorldV};
use vstd::prelude::*;

verus! {

// ---------- how it ends ----------

/// What happened, as a number a caller can branch on.
#[derive(Clone, Copy, Debug, PartialEq, Eq, Structural)]
pub enum Exit {
    Done,
    WantsRejected,
    NeedsAnswer,
    Refused,
    Unreachable,
    PlannerFailed,
    RunFailed,
}

pub open spec fn exit_code(e: Exit) -> i32 {
    match e {
        Exit::Done => 0,
        Exit::WantsRejected => 10,
        Exit::NeedsAnswer => 11,
        Exit::Refused => 12,
        Exit::Unreachable => 13,
        Exit::PlannerFailed => 14,
        Exit::RunFailed => 15,
    }
}

impl Exit {
    /// The number. 1 is an unexpected error and 2 is bad usage, so these start at 10 and never
    /// collide with either.
    pub fn code(self) -> (r: i32)
        ensures
            r == exit_code(self),
    {
        match self {
            Exit::Done => 0,
            Exit::WantsRejected => 10,
            Exit::NeedsAnswer => 11,
            Exit::Refused => 12,
            Exit::Unreachable => 13,
            Exit::PlannerFailed => 14,
            Exit::RunFailed => 15,
        }
    }
}

/// Two outcomes never share a number, and none of them is 1 or 2.
pub proof fn exit_codes_differ(a: Exit, b: Exit)
    ensures
        exit_code(a) == exit_code(b) ==> a == b,
        exit_code(a) != 1 && exit_code(a) != 2,
{
}

/// A failure with a machine-readable code.
#[derive(Debug)]
pub struct Fail {
    pub exit: Exit,
    pub code: &'static str,
    pub message: String,
    pub detail: Json,
    /// A receipt, when the run got far enough to produce one. It becomes the body, so a failed run
    /// prints exactly one object with the same fields a successful run prints.
    pub body: Option<Json>,
}

pub struct FailV {
    pub exit: Exit,
    pub code: Seq<char>,
    pub message: Seq<char>,
    pub detail: JsonV,
    pub body: Option<JsonV>,
}

impl View for Fail {
    type V = FailV;

    open spec fn view(&self) -> FailV {
        FailV {
            exit: self.exit,
            code: self.code@,
            message: self.message@,
            detail: self.detail@,
            body: match self.body {
                Some(b) => Some(b@),
                None => None,
            },
        }
    }
}

/// A failure with nothing more to it.
pub open spec fn plain(exit: Exit, code: Seq<char>, message: Seq<char>) -> FailV {
    FailV { exit, code, message, detail: JsonV::Null, body: None }
}

/// A failure as one object.
pub open spec fn fail_json(f: FailV) -> JsonV {
    let own = match f.body {
        Some(JsonV::Obj(xs)) => xs,
        _ => Seq::empty(),
    };
    let said = put(
        put(put(own, "ok"@, JsonV::Bool(false)), "code"@, JsonV::Str(f.code)),
        "message"@,
        JsonV::Str(f.message),
    );
    JsonV::Obj(
        if f.detail is Null {
            said
        } else {
            put(said, "detail"@, f.detail)
        },
    )
}

impl Fail {
    pub fn new(exit: Exit, code: &'static str, message: String) -> (r: Fail)
        ensures
            r@ == plain(exit, code@, message@),
    {
        Fail { exit, code, message, detail: Json::Null, body: None }
    }

    pub fn with(self, detail: Json) -> (r: Fail)
        ensures
            r@ == (FailV { detail: detail@, ..self@ }),
    {
        Fail { exit: self.exit, code: self.code, message: self.message, detail, body: self.body }
    }

    pub fn with_body(self, body: Json) -> (r: Fail)
        ensures
            r@ == (FailV { body: Some(body@), ..self@ }),
    {
        Fail {
            exit: self.exit,
            code: self.code,
            message: self.message,
            detail: self.detail,
            body: Some(body),
        }
    }

    /// The failure as one object.
    pub fn to_json(&self) -> (r: Json)
        ensures
            r@ == fail_json(self@),
    {
        let mut o = match &self.body {
            Some(Json::Obj(xs)) => clone_obj(xs),
            _ => no_entries(),
        };
        put_entry(&mut o, "ok", Json::Bool(false));
        put_entry(&mut o, "code", text_json(self.code));
        put_entry(&mut o, "message", Json::Str(self.message.clone()));
        match &self.detail {
            Json::Null => {},
            d => {
                put_entry(&mut o, "detail", d.clone());
            },
        }
        Json::Obj(o)
    }
}

// ---------- lists of words ----------

pub open spec fn words_json(xs: Seq<Seq<char>>) -> JsonV {
    JsonV::List(xs.map_values(|x: Seq<char>| JsonV::Str(x)))
}

fn show_words(xs: &Vec<String>) -> (r: Json)
    ensures
        r@ == words_json(views(xs@)),
{
    let ghost all = words_json(views(xs@))->List_0;
    let mut out: Vec<Json> = Vec::new();
    let mut i: usize = 0;
    assert(list_view(out@) =~= all.take(0));
    while i < xs.len()
        invariant
            i <= xs@.len() == all.len(),
            all == words_json(views(xs@))->List_0,
            list_view(out@) == all.take(i as int),
        decreases xs@.len() - i,
    {
        let x = Json::Str(xs[i].clone());
        proof {
            list_push(out@, x);
            assert(views(xs@)[i as int] == xs@[i as int]@);
            assert(all[i as int] == JsonV::Str(xs@[i as int]@));
        }
        out.push(x);
        i += 1;
        assert(list_view(out@) =~= all.take(i as int));
    }
    assert(all.take(i as int) =~= all);
    Json::List(out)
}

/// Each of some words between others.
pub open spec fn wrapped(xs: Seq<Seq<char>>, a: Seq<char>, z: Seq<char>) -> Seq<Seq<char>> {
    xs.map_values(|x: Seq<char>| a + x + z)
}

fn wrap(xs: &Vec<String>, a: &str, z: &str) -> (r: Vec<String>)
    ensures
        views(r@) == wrapped(views(xs@), a@, z@),
{
    let ghost all = wrapped(views(xs@), a@, z@);
    let mut out: Vec<String> = Vec::new();
    let mut i: usize = 0;
    assert(views(out@) =~= all.take(0));
    while i < xs.len()
        invariant
            i <= xs@.len() == all.len(),
            all == wrapped(views(xs@), a@, z@),
            views(out@) == all.take(i as int),
        decreases xs@.len() - i,
    {
        let mut t = owned(a);
        t.push_str(xs[i].as_str());
        t.push_str(z);
        let ghost o = views(out@);
        assert(views(xs@)[i as int] == xs@[i as int]@);
        out.push(t);
        i += 1;
        assert(views(out@) =~= o.push(t@));
        assert(views(out@) =~= all.take(i as int));
    }
    assert(all.take(i as int) =~= all);
    out
}

// ---------- surfaces ----------

pub open spec fn first_of(xs: Seq<(Seq<char>, u32)>) -> Seq<Seq<char>> {
    xs.map_values(|x: (Seq<char>, u32)| x.0)
}

/// The surfaces that operations mention.
pub open spec fn mentioned(os: Seq<OpV>) -> Seq<Seq<char>>
    decreases os.len(),
{
    if os.len() == 0 {
        Seq::empty()
    } else {
        mentioned(os.drop_last()) + first_of(os.last().surfaces)
    }
}

/// The surfaces that an app offers.
pub open spec fn offered(w: WorldV) -> Seq<Seq<char>> {
    sort_dedup(mentioned(w.ops))
}

/// What is asked for and not there.
pub open spec fn absent(asked: Seq<Seq<char>>, there: Seq<Seq<char>>) -> Seq<Seq<char>>
    decreases asked.len(),
{
    if asked.len() == 0 {
        Seq::empty()
    } else if there.contains(asked.last()) {
        absent(asked.drop_last(), there)
    } else {
        absent(asked.drop_last(), there).push(asked.last())
    }
}

/// What is said of surfaces that the app does not offer.
pub open spec fn surface_fail(unknown: Seq<Seq<char>>, there: Seq<Seq<char>>) -> FailV {
    FailV {
        detail: JsonV::Obj(
            seq![("available"@, words_json(there)), ("unknown"@, words_json(unknown))],
        ),
        ..plain(
            Exit::WantsRejected,
            "unknown_surface"@,
            "--surfaces names "@ + joined(wrapped(unknown, "'"@, "'"@), ", "@)
                + ", which this app does not offer. It offers: "@ + joined(there, ", "@),
        )
    }
}

fn list_surfaces(world: &World) -> (r: Vec<String>)
    ensures
        views(r@) == offered(world@),
{
    let ghost os = world@.ops;
    let mut out: Vec<String> = Vec::new();
    let mut i: usize = 0;
    assert(os.len() == world.ops@.len());
    assert(views(out@) =~= mentioned(os.take(0)));
    while i < world.ops.len()
        invariant
            i <= world.ops@.len() == os.len(),
            os == world@.ops,
            views(out@) == mentioned(os.take(i as int)),
        decreases world.ops@.len() - i,
    {
        proof {
            assert(os.take(i + 1).drop_last() =~= os.take(i as int));
            assert(os.take(i + 1).last() == world.ops@[i as int]@);
        }
        let ss = &world.ops[i].surfaces;
        let ghost before = views(out@);
        let ghost all = first_of(surfaces_view(ss@));
        let mut j: usize = 0;
        assert(views(out@) =~= before + all.take(0));
        while j < ss.len()
            invariant
                j <= ss@.len() == all.len(),
                all == first_of(surfaces_view(ss@)),
                views(out@) == before + all.take(j as int),
            decreases ss@.len() - j,
        {
            let x = ss[j].0.clone();
            let ghost o = views(out@);
            out.push(x);
            assert(surfaces_view(ss@)[j as int] == (ss@[j as int].0@, ss@[j as int].1));
            j += 1;
            assert(views(out@) =~= o.push(x@));
            assert(views(out@) =~= before + all.take(j as int));
        }
        assert(all.take(j as int) =~= all);
        i += 1;
    }
    assert(os.take(i as int) =~= os);
    sorted_unique(&out)
}

fn find_absent(asked: &Vec<String>, there: &Vec<String>) -> (r: Vec<String>)
    ensures
        views(r@) == absent(views(asked@), views(there@)),
{
    let ghost vs = views(asked@);
    let ghost ts = views(there@);
    let mut out: Vec<String> = Vec::new();
    let mut i: usize = 0;
    assert(views(out@) =~= absent(vs.take(0), ts));
    while i < asked.len()
        invariant
            i <= asked@.len() == vs.len(),
            vs == views(asked@),
            ts == views(there@),
            views(out@) == absent(vs.take(i as int), ts),
        decreases asked@.len() - i,
    {
        proof {
            assert(vs.take(i + 1).drop_last() =~= vs.take(i as int));
            assert(vs.take(i + 1).last() == asked@[i as int]@);
        }
        if !list_has(there, asked[i].as_str()) {
            let x = asked[i].clone();
            let ghost o = views(out@);
            out.push(x);
            assert(views(out@) =~= o.push(x@));
        }
        i += 1;
    }
    assert(vs.take(i as int) =~= vs);
    out
}

/// A surface that an app never mentions is a typo, not a capability.
pub fn check_surfaces(asked: &Vec<String>, world: &World) -> (r: Option<Fail>)
    ensures
        ({
            let unknown = absent(views(asked@), offered(world@));
            match r {
                None => unknown.len() == 0,
                Some(f) => unknown.len() > 0 && f@ == surface_fail(unknown, offered(world@)),
            }
        }),
{
    let there = list_surfaces(world);
    let unknown = find_absent(asked, &there);
    assert(views(unknown@).len() == unknown@.len());
    if unknown.len() == 0 {
        return None;
    }
    let quoted = wrap(&unknown, "'", "'");
    let mut m = owned("--surfaces names ");
    m.push_str(join(&quoted, ", ").as_str());
    m.push_str(", which this app does not offer. It offers: ");
    m.push_str(join(&there, ", ").as_str());
    let detail = two_entries("available", show_words(&there), "unknown", show_words(&unknown));
    Some(Fail::new(Exit::WantsRejected, "unknown_surface", m).with(detail))
}

/// A surface that passes is one that some operation of the app has.
pub proof fn surfaces_that_pass_exist(asked: Seq<Seq<char>>, there: Seq<Seq<char>>)
    requires
        absent(asked, there).len() == 0,
    ensures
        forall|i: int| 0 <= i < asked.len() ==> there.contains(#[trigger] asked[i]),
    decreases asked.len(),
{
    if asked.len() > 0 {
        let d = asked.drop_last();
        surfaces_that_pass_exist(d, there);
        assert forall|i: int| 0 <= i < asked.len() implies there.contains(#[trigger] asked[i]) by {
            if i < d.len() {
                assert(d[i] == asked[i]);
            }
        }
    }
}

// ---------- wants that do not hold up ----------

/// What is said of placeholders without a value.
pub open spec fn missing_fail(missing: Seq<Seq<char>>) -> FailV {
    FailV {
        detail: JsonV::Obj(seq![("params"@, words_json(missing))]),
        ..plain(
            Exit::WantsRejected,
            "missing_parameters"@,
            "these placeholders still need values: "@ + joined(
                wrapped(missing, "--set "@, "=…"@),
                " "@,
            ),
        )
    }
}

/// What is said of placeholders without a value.
pub fn missing_parameters(missing: &Vec<String>) -> (r: Fail)
    ensures
        r@ == missing_fail(views(missing@)),
{
    let sets = wrap(missing, "--set ", "=…");
    let mut m = owned("these placeholders still need values: ");
    m.push_str(join(&sets, " ").as_str());
    Fail::new(Exit::WantsRejected, "missing_parameters", m).with(
        one_entry("params", show_words(missing)),
    )
}

/// Where in a want the trouble is.
pub open spec fn pointer(want: Seq<char>, at: int) -> Seq<char> {
    let n = vstd::utf8::encode_utf8(want).len();
    let k = if at < 0 {
        0
    } else if at < n {
        at
    } else {
        n as int
    };
    "    "@ + want + "\n    "@ + spaces(k as nat) + "^\n"@
}

/// One complaint, with the place in the want where there is one.
pub open spec fn lint_line(e: LintErrorV) -> Seq<char> {
    "\n  "@ + lint_error_text(e) + "\n"@ + (match (lint_want(e), lint_at(e)) {
        (Some(w), Some(at)) => pointer(w, at),
        _ => Seq::empty(),
    })
}

pub open spec fn lint_lines(es: Seq<LintErrorV>) -> Seq<char>
    decreases es.len(),
{
    if es.len() == 0 {
        Seq::empty()
    } else {
        lint_lines(es.drop_last()) + lint_line(es.last())
    }
}

pub open spec fn lint_entry(e: LintErrorV) -> JsonV {
    JsonV::Obj(
        seq![
            ("code"@, JsonV::Str(lint_code(e))),
            ("message"@, JsonV::Str(lint_error_text(e))),
        ],
    )
}

/// What is said of wants that do not hold up.
pub open spec fn lint_fail(es: Seq<LintErrorV>) -> FailV {
    FailV {
        detail: JsonV::Obj(
            seq![
                ("codes"@, words_json(es.map_values(|e: LintErrorV| lint_code(e)))),
                ("errors"@, JsonV::List(es.map_values(|e: LintErrorV| lint_entry(e)))),
            ],
        ),
        ..plain(
            Exit::WantsRejected,
            "wants_rejected"@,
            trimmed("These wants do not hold up:\n"@ + lint_lines(es)),
        )
    }
}

fn push_spaces(out: &mut String, n: usize)
    ensures
        final(out)@ == old(out)@ + spaces(n as nat),
{
    let ghost before = out@;
    let mut i: usize = 0;
    assert(before + spaces(0) =~= before);
    while i < n
        invariant
            i <= n,
            out@ == before + spaces(i as nat),
        decreases n - i,
    {
        out.push(' ');
        i += 1;
        assert(out@ =~= before + spaces(i as nat));
    }
}

fn complaint(e: &LintError) -> (r: String)
    ensures
        r@ == lint_line(e@),
{
    let mut t = owned("\n  ");
    t.push_str(e.to_string().as_str());
    t.push_str("\n");
    let ghost head = t@;
    match (e.want(), e.at()) {
        (Some(w), Some(at)) => {
            let n = w.as_bytes().len();
            let k: usize = if at < n {
                at
            } else {
                n
            };
            let mut p = owned("    ");
            p.push_str(w);
            p.push_str("\n    ");
            push_spaces(&mut p, k);
            p.push_str("^\n");
            assert(p@ == pointer(w@, at as int));
            t.push_str(p.as_str());
        },
        _ => {
            assert(head + Seq::<char>::empty() =~= head);
        },
    }
    t
}

/// What is said of wants that do not hold up.
pub fn wants_rejected(errs: &Vec<LintError>) -> (r: Fail)
    ensures
        r@ == lint_fail(errs_view(errs@)),
{
    let ghost es = errs_view(errs@);
    let ghost all_codes = es.map_values(|e: LintErrorV| lint_code(e));
    let ghost all_entries = es.map_values(|e: LintErrorV| lint_entry(e));
    let ghost head = "These wants do not hold up:\n"@;
    let mut prose = owned("These wants do not hold up:\n");
    let mut codes: Vec<String> = Vec::new();
    let mut entries: Vec<Json> = Vec::new();
    let mut i: usize = 0;
    assert(prose@ =~= head + lint_lines(es.take(0)));
    assert(views(codes@) =~= all_codes.take(0));
    assert(list_view(entries@) =~= all_entries.take(0));
    while i < errs.len()
        invariant
            i <= errs@.len() == es.len(),
            es == errs_view(errs@),
            all_codes == es.map_values(|e: LintErrorV| lint_code(e)),
            all_entries == es.map_values(|e: LintErrorV| lint_entry(e)),
            prose@ == head + lint_lines(es.take(i as int)),
            views(codes@) == all_codes.take(i as int),
            list_view(entries@) == all_entries.take(i as int),
        decreases errs@.len() - i,
    {
        let e = &errs[i];
        let line = complaint(e);
        proof {
            assert(es[i as int] == e@);
            assert(es.take(i + 1).drop_last() =~= es.take(i as int));
            assert(es.take(i + 1).last() == e@);
        }
        prose.push_str(line.as_str());
        let c = owned(e.code());
        let ghost oc = views(codes@);
        codes.push(c);
        let x = two_entries("code", text_json(e.code()), "message", Json::Str(e.to_string()));
        proof {
            list_push(entries@, x);
            assert(all_entries[i as int] == lint_entry(e@));
            assert(x@ == lint_entry(e@));
        }
        entries.push(x);
        i += 1;
        proof {
            assert(views(codes@) =~= oc.push(c@));
            assert(views(codes@) =~= all_codes.take(i as int));
            assert(list_view(entries@) =~= all_entries.take(i as int));
            assert(prose@ =~= head + lint_lines(es.take(i as int)));
        }
    }
    assert(es.take(i as int) =~= es);
    assert(all_codes.take(i as int) =~= all_codes);
    assert(all_entries.take(i as int) =~= all_entries);
    let detail = two_entries("codes", show_words(&codes), "errors", Json::List(entries));
    Fail::new(Exit::WantsRejected, "wants_rejected", trim(prose.as_str())).with(detail)
}

// ---------- before saying yes ----------

/// How many steps leave the system.
pub open spec fn leaving(ns: Seq<NodeV>) -> nat
    decreases ns.len(),
{
    if ns.len() == 0 {
        0
    } else {
        leaving(ns.drop_last()) + if ns.last().external {
            1nat
        } else {
            0
        }
    }
}

/// The operations that leave the system.
pub open spec fn leaving_ops(ns: Seq<NodeV>) -> Seq<Seq<char>>
    decreases ns.len(),
{
    if ns.len() == 0 {
        Seq::empty()
    } else if ns.last().external {
        leaving_ops(ns.drop_last()).push(ns.last().op)
    } else {
        leaving_ops(ns.drop_last())
    }
}

/// How many steps wait for something outside.
pub open spec fn waiting(ns: Seq<NodeV>) -> nat
    decreases ns.len(),
{
    if ns.len() == 0 {
        0
    } else {
        waiting(ns.drop_last()) + if ns.last().kind == OpKind::Event {
            1nat
        } else {
            0
        }
    }
}

/// How many steps need a screen.
pub open spec fn on_screen(ns: Seq<NodeV>) -> nat
    decreases ns.len(),
{
    if ns.len() == 0 {
        0
    } else {
        on_screen(ns.drop_last()) + if ns.last().surface == "a11y"@ || ns.last().surface
            == "pixels"@ {
            1nat
        } else {
            0
        }
    }
}

pub open spec fn plural_of(n: nat) -> Seq<char> {
    if n == 1 {
        ""@
    } else {
        "s"@
    }
}

/// An s, unless there is one.
pub fn plural(n: usize) -> (r: &'static str)
    ensures
        r@ == plural_of(n as nat),
{
    if n == 1 {
        ""
    } else {
        "s"
    }
}

/// A line, where there is something to say.
pub open spec fn line_if(said: bool, line: Seq<char>) -> Seq<char> {
    if said {
        line
    } else {
        ""@
    }
}

/// The part that is read before saying yes.
pub open spec fn description(p: PlanV, samples: u32) -> Seq<char> {
    let steps = p.nodes.len();
    let external = leaving(p.nodes);
    let waits = waiting(p.nodes);
    let screens = on_screen(p.nodes);
    ""@ + (dec(steps) + " step"@ + plural_of(steps) + ", "@ + dec(depth_spec(p)) + " deep.\n"@)
        + line_if(
        external > 0,
        dec(external) + " step"@ + plural_of(external) + " leave the system (email, money): "@
            + joined(sort_dedup(leaving_ops(p.nodes)), ", "@) + "\n"@,
    ) + line_if(
        waits > 0,
        dec(waits) + " step"@ + plural_of(waits) + " wait for something outside to happen.\n"@,
    ) + line_if(
        screens > 0,
        dec(screens) + " step"@ + plural_of(screens)
            + " need a screen, so they run one at a time.\n"@,
    ) + ("Planning cost "@ + dec(samples as nat) + " model call"@ + plural_of(samples as nat)
        + ".\n"@)
}

fn tally_steps(ns: &Vec<Node>) -> (r: (usize, usize, usize))
    ensures
        r.0 == leaving(nodes_view(ns@)),
        r.1 == waiting(nodes_view(ns@)),
        r.2 == on_screen(nodes_view(ns@)),
{
    let ghost vs = nodes_view(ns@);
    let mut external: usize = 0;
    let mut waits: usize = 0;
    let mut screens: usize = 0;
    let mut i: usize = 0;
    while i < ns.len()
        invariant
            i <= ns@.len() == vs.len(),
            vs == nodes_view(ns@),
            external <= i,
            waits <= i,
            screens <= i,
            external == leaving(vs.take(i as int)),
            waits == waiting(vs.take(i as int)),
            screens == on_screen(vs.take(i as int)),
        decreases ns@.len() - i,
    {
        let n = ns.len();
        assert(i < n);
        proof {
            assert(vs.take(i + 1).drop_last() =~= vs.take(i as int));
            assert(vs.take(i + 1).last() == ns@[i as int]@);
        }
        if ns[i].external {
            external += 1;
        }
        if ns[i].kind == OpKind::Event {
            waits += 1;
        }
        if same(ns[i].surface.as_str(), "a11y") || same(ns[i].surface.as_str(), "pixels") {
            screens += 1;
        }
        i += 1;
    }
    assert(vs.take(i as int) =~= vs);
    (external, waits, screens)
}

fn list_leaving(ns: &Vec<Node>) -> (r: Vec<String>)
    ensures
        views(r@) == leaving_ops(nodes_view(ns@)),
{
    let ghost vs = nodes_view(ns@);
    let mut out: Vec<String> = Vec::new();
    let mut i: usize = 0;
    assert(views(out@) =~= leaving_ops(vs.take(0)));
    while i < ns.len()
        invariant
            i <= ns@.len() == vs.len(),
            vs == nodes_view(ns@),
            views(out@) == leaving_ops(vs.take(i as int)),
        decreases ns@.len() - i,
    {
        proof {
            assert(vs.take(i + 1).drop_last() =~= vs.take(i as int));
            assert(vs.take(i + 1).last() == ns@[i as int]@);
        }
        if ns[i].external {
            let x = ns[i].op.clone();
            let ghost o = views(out@);
            out.push(x);
            assert(views(out@) =~= o.push(x@));
        }
        i += 1;
    }
    assert(vs.take(i as int) =~= vs);
    out
}

fn counted(n: usize, rest: &str) -> (r: String)
    ensures
        r@ == dec(n as nat) + " step"@ + plural_of(n as nat) + rest@,
{
    let mut t = dec_string(n as u128);
    t.push_str(" step");
    t.push_str(plural(n));
    t.push_str(rest);
    t
}

/// The part that is read before saying yes.
pub fn describe(plan: &Plan, samples: u32) -> (r: String)
    requires
        plan.edges@.len() < usize::MAX,
    ensures
        r@ == description(plan@, samples),
{
    assert(plan@.nodes.len() == plan.nodes@.len());
    let (external, waits, screens) = tally_steps(&plan.nodes);
    let ops = list_leaving(&plan.nodes);
    let kinds = sorted_unique(&ops);
    let mut t = owned("");
    let mut first = counted(plan.nodes.len(), ", ");
    push_dec(&mut first, plan.depth() as u128);
    first.push_str(" deep.\n");
    t.push_str(first.as_str());
    let mut second = owned("");
    if external > 0 {
        let mut l = counted(external, " leave the system (email, money): ");
        l.push_str(join(&kinds, ", ").as_str());
        l.push_str("\n");
        second = l;
    }
    t.push_str(second.as_str());
    let third = if waits > 0 {
        counted(waits, " wait for something outside to happen.\n")
    } else {
        owned("")
    };
    t.push_str(third.as_str());
    let fourth = if screens > 0 {
        counted(screens, " need a screen, so they run one at a time.\n")
    } else {
        owned("")
    };
    t.push_str(fourth.as_str());
    let mut last = owned("Planning cost ");
    push_dec(&mut last, samples as u128);
    last.push_str(" model call");
    last.push_str(plural(samples as usize));
    last.push_str(".\n");
    t.push_str(last.as_str());
    t
}

/// What stands in the way of running a plan: nothing to run against, or steps that leave the
/// system and nobody who said yes.
pub open spec fn obstacle(offline: bool, yes: bool, p: PlanV) -> Option<FailV> {
    let external = leaving(p.nodes);
    if offline {
        Some(
            plain(
                Exit::Unreachable,
                "offline"@,
                "--app is a file, so there is nothing to run against; give me the app's URL"@,
            ),
        )
    } else if external > 0 && !yes {
        Some(
            FailV {
                detail: JsonV::Obj(seq![("external_steps"@, JsonV::Int(external as int))]),
                ..plain(
                    Exit::Refused,
                    "needs_confirmation"@,
                    dec(external)
                        + " step(s) leave the system. Re-run with --yes once the plan above looks right."@,
                )
            },
        )
    } else {
        None
    }
}

pub open spec fn opt_fail(f: Option<Fail>) -> Option<FailV> {
    match f {
        Some(x) => Some(x@),
        None => None,
    }
}

/// What stands in the way of running a plan.
pub fn may_run(offline: bool, yes: bool, plan: &Plan) -> (r: Option<Fail>)
    ensures
        opt_fail(r) == obstacle(offline, yes, plan@),
{
    if offline {
        return Some(
            Fail::new(
                Exit::Unreachable,
                "offline",
                owned("--app is a file, so there is nothing to run against; give me the app's URL"),
            ),
        );
    }
    let (external, _, _) = tally_steps(&plan.nodes);
    if external > 0 && !yes {
        let mut m = dec_string(external as u128);
        m.push_str(
            " step(s) leave the system. Re-run with --yes once the plan above looks right.",
        );
        let detail = one_entry("external_steps", Json::Int(external as i128));
        return Some(Fail::new(Exit::Refused, "needs_confirmation", m).with(detail));
    }
    None
}

/// A plan with a step that leaves the system never runs unless somebody said yes.
pub proof fn nothing_leaves_unnoticed(offline: bool, p: PlanV, i: int)
    requires
        0 <= i < p.nodes.len(),
        p.nodes[i].external,
    ensures
        obstacle(offline, false, p) is Some,
{
    leaving_counts(p.nodes, i);
}

proof fn leaving_counts(ns: Seq<NodeV>, i: int)
    requires
        0 <= i < ns.len(),
        ns[i].external,
    ensures
        leaving(ns) > 0,
    decreases ns.len(),
{
    if i < ns.len() - 1 {
        leaving_counts(ns.drop_last(), i);
    }
}

// ---------- answers ----------

/// Whether a text stands in some want.
pub open spec fn stands_in(wants: Seq<Seq<char>>, t: Seq<char>) -> bool {
    exists|i: int| 0 <= i < wants.len() && occurs(#[trigger] wants[i], t)
}

/// The first place of an arrow, as what stands before and behind it.
pub open spec fn around(s: Seq<char>, t: Seq<char>) -> Option<(Seq<char>, Seq<char>)>
    decreases s.len(),
{
    if t.is_prefix_of(s) {
        Some((Seq::empty(), s.skip(t.len() as int)))
    } else if s.len() == 0 {
        None
    } else {
        match around(s.drop_first(), t) {
            Some((a, b)) => Some((seq![s[0]] + a, b)),
            None => None,
        }
    }
}

/// Wants with answers worked in, one after the other.
pub open spec fn answered(wants: Seq<Seq<char>>, answers: Seq<Seq<char>>) -> Result<
    Seq<Seq<char>>,
    FailV,
>
    decreases answers.len(),
{
    if answers.len() == 0 {
        Ok(wants)
    } else {
        match answered(wants, answers.drop_last()) {
            Err(f) => Err(f),
            Ok(ws) => {
                let a = answers.last();
                match around(a, "=>"@) {
                    None => Err(
                        plain(
                            Exit::WantsRejected,
                            "bad_answer"@,
                            "--answer takes OLD=>NEW, as in \"customer(name='Acme')=>customer(id=11)\"; got "@
                                + debug_text(a),
                        ),
                    ),
                    Some((x, y)) => {
                        let old_ = trimmed(x);
                        if stands_in(ws, old_) {
                            Ok(ws.map_values(|w: Seq<char>| replaced(w, old_, trimmed(y))))
                        } else {
                            Err(
                                FailV {
                                    detail: JsonV::Obj(seq![("wants"@, words_json(ws))]),
                                    ..plain(
                                        Exit::WantsRejected,
                                        "bad_answer"@,
                                        "no want contains "@ + debug_text(old_)
                                            + ", so this answer would change nothing"@,
                                    )
                                },
                            )
                        }
                    },
                }
            },
        }
    }
}

proof fn answered_stuck(wants: Seq<Seq<char>>, answers: Seq<Seq<char>>, k: int)
    requires
        0 <= k <= answers.len(),
        answered(wants, answers.take(k)) is Err,
    ensures
        answered(wants, answers) == answered(wants, answers.take(k)),
    decreases answers.len(),
{
    if k == answers.len() {
        assert(answers.take(k) =~= answers);
    } else {
        assert(answers.drop_last().take(k) =~= answers.take(k));
        answered_stuck(wants, answers.drop_last(), k);
    }
}

proof fn around_at(s: Seq<char>, t: Seq<char>, i: int)
    requires
        0 <= i <= s.len(),
        forall|j: int| 0 <= j < i ==> !t.is_prefix_of(#[trigger] s.skip(j)),
    ensures
        t.is_prefix_of(s.skip(i)) ==> around(s, t) == Some((s.take(i), s.skip(i + t.len()))),
        i == s.len() && !t.is_prefix_of(s.skip(i)) ==> around(s, t) is None,
    decreases i,
{
    assert(s.skip(0) =~= s);
    if i == 0 {
        assert(s.take(0) =~= Seq::<char>::empty());
    } else {
        assert(!t.is_prefix_of(s.skip(0)));
        let d = s.drop_first();
        assert forall|j: int| 0 <= j < i - 1 implies !t.is_prefix_of(#[trigger] d.skip(j)) by {
            assert(d.skip(j) =~= s.skip(j + 1));
        }
        around_at(d, t, i - 1);
        assert(d.skip(i - 1) =~= s.skip(i));
        assert(seq![s[0]] + d.take(i - 1) =~= s.take(i));
        if t.is_prefix_of(s.skip(i)) {
            assert(i + t.len() <= s.len());
            assert(d.skip(i - 1 + t.len()) =~= s.skip(i + t.len()));
        }
    }
}

fn split_around(s: &str, t: &str) -> (r: Option<(String, String)>)
    ensures
        match r {
            Some((a, b)) => around(s@, t@) == Some((a@, b@)),
            None => around(s@, t@) is None,
        },
{
    let cs = crate::text::chars_of(s);
    let ts = crate::text::chars_of(t);
    let n = cs.len();
    let m = ts.len();
    let mut i: usize = 0;
    loop
        invariant
            i <= n == cs@.len(),
            m == ts@.len(),
            cs@ == s@,
            ts@ == t@,
            forall|j: int| 0 <= j < i ==> !t@.is_prefix_of(#[trigger] s@.skip(j)),
        decreases n - i,
    {
        let mut k: usize = 0;
        while k < m && k < n - i && cs[i + k] == ts[k]
            invariant
                i <= n == cs@.len(),
                k <= m == ts@.len(),
                k <= n - i,
                cs@ == s@,
                ts@ == t@,
                forall|j: int| 0 <= j < k ==> s@[i + j] == t@[j],
            decreases m - k,
        {
            k += 1;
        }
        if k == m {
            proof {
                assert(t@ =~= s@.skip(i as int).take(m as int));
                assert(t@.is_prefix_of(s@.skip(i as int)));
                around_at(s@, t@, i as int);
                assert(s@.take(i as int) =~= s@.subrange(0, i as int));
                assert(s@.skip(i + m) =~= s@.subrange(i + m, n as int));
            }
            return Some(
                (
                    crate::text::string_of(&cs, 0, i),
                    crate::text::string_of(&cs, i + m, n),
                ),
            );
        }
        proof {
            if t@.is_prefix_of(s@.skip(i as int)) {
                assert(s@.skip(i as int)[k as int] == t@[k as int]);
                assert(s@[i + k] == t@[k as int]);
            }
        }
        if i == n {
            proof {
                around_at(s@, t@, n as int);
            }
            return None;
        }
        i += 1;
    }
}

fn found_in(wants: &Vec<String>, t: &str) -> (r: bool)
    ensures
        r == stands_in(views(wants@), t@),
{
    let ghost ws = views(wants@);
    let mut i: usize = 0;
    while i < wants.len()
        invariant
            i <= wants@.len() == ws.len(),
            ws == views(wants@),
            forall|j: int| 0 <= j < i ==> !occurs(#[trigger] ws[j], t@),
        decreases wants@.len() - i,
    {
        assert(ws[i as int] == wants@[i as int]@);
        if contains_str(wants[i].as_str(), t) {
            return true;
        }
        i += 1;
    }
    false
}

fn replace_all(wants: &Vec<String>, from: &str, to: &str) -> (r: Vec<String>)
    ensures
        views(r@) == views(wants@).map_values(|w: Seq<char>| replaced(w, from@, to@)),
{
    let ghost all = views(wants@).map_values(|w: Seq<char>| replaced(w, from@, to@));
    let mut out: Vec<String> = Vec::new();
    let mut i: usize = 0;
    assert(views(out@) =~= all.take(0));
    while i < wants.len()
        invariant
            i <= wants@.len() == all.len(),
            all == views(wants@).map_values(|w: Seq<char>| replaced(w, from@, to@)),
            views(out@) == all.take(i as int),
        decreases wants@.len() - i,
    {
        let w = replace(wants[i].as_str(), from, to);
        assert(views(wants@)[i as int] == wants@[i as int]@);
        let ghost o = views(out@);
        out.push(w);
        i += 1;
        assert(views(out@) =~= o.push(w@));
        assert(views(out@) =~= all.take(i as int));
    }
    assert(all.take(i as int) =~= all);
    out
}

pub open spec fn answer_view(r: Result<Intent, Fail>) -> Result<IntentV, FailV> {
    match r {
        Ok(x) => Ok(x@),
        Err(f) => Err(f@),
    }
}

/// Answer a fork by rewriting the ambiguous part of every want. Every other want keeps its text,
/// so it keeps its key and is not redone.
pub fn apply_answers(intent: &Intent, answers: &Vec<String>) -> (r: Result<Intent, Fail>)
    ensures
        answer_view(r) == (match answered(views(intent.wants@), views(answers@)) {
            Ok(ws) => Ok(IntentV { wants: ws, ..intent@ }),
            Err(f) => Err(f),
        }),
{
    let ghost all = views(answers@);
    let ghost first = views(intent.wants@);
    let mut wants = clone_strings(&intent.wants);
    let mut i: usize = 0;
    assert(all.take(0) =~= Seq::<Seq<char>>::empty());
    while i < answers.len()
        invariant
            i <= answers@.len() == all.len(),
            all == views(answers@),
            first == views(intent.wants@),
            answered(first, all.take(i as int)) == Ok::<Seq<Seq<char>>, FailV>(views(wants@)),
        decreases answers@.len() - i,
    {
        proof {
            assert(all.take(i + 1).drop_last() =~= all.take(i as int));
            assert(all.take(i + 1).last() == answers@[i as int]@);
        }
        match split_around(answers[i].as_str(), "=>") {
            None => {
                let mut m = owned(
                    "--answer takes OLD=>NEW, as in \"customer(name='Acme')=>customer(id=11)\"; got ",
                );
                m.push_str(debug_str(answers[i].as_str()).as_str());
                proof {
                    answered_stuck(first, all, i + 1);
                }
                return Err(Fail::new(Exit::WantsRejected, "bad_answer", m));
            },
            Some((x, y)) => {
                let from = trim(x.as_str());
                let to = trim(y.as_str());
                if !found_in(&wants, from.as_str()) {
                    let mut m = owned("no want contains ");
                    m.push_str(debug_str(from.as_str()).as_str());
                    m.push_str(", so this answer would change nothing");
                    proof {
                        answered_stuck(first, all, i + 1);
                    }
                    return Err(
                        Fail::new(Exit::WantsRejected, "bad_answer", m).with(
                            one_entry("wants", show_words(&wants)),
                        ),
                    );
                }
                wants = replace_all(&wants, from.as_str(), to.as_str());
            },
        }
        i += 1;
    }
    assert(all.take(i as int) =~= all);
    Ok(
        Intent {
            goal: intent.goal.clone(),
            wants,
            constraints: intent.constraints,
            forks: clone_forks(&intent.forks),
        },
    )
}

// ---------- the end of a run ----------

/// The receipt as one object that says whether the run committed.
pub open spec fn receipt_body(r: ReceiptV) -> JsonV {
    JsonV::Obj(put(receipt_json(r)->Obj_0, "ok"@, JsonV::Bool(r.status == Status::Committed)))
}

pub open spec fn text_or(t: Option<Seq<char>>, d: Seq<char>) -> Seq<char> {
    match t {
        Some(x) => x,
        None => d,
    }
}

/// How a run is told: a fork is a question, not a failure.
pub open spec fn verdict(r: ReceiptV) -> Result<JsonV, FailV> {
    match r.status {
        Status::Committed => Ok(receipt_body(r)),
        Status::NeedThink => Err(
            FailV {
                body: Some(receipt_body(r)),
                ..plain(
                    Exit::NeedsAnswer,
                    "needs_answer"@,
                    text_or(r.yield_reason, "the plan stopped to ask a question"@),
                )
            },
        ),
        Status::Error => Err(
            FailV {
                body: Some(receipt_body(r)),
                ..plain(Exit::RunFailed, "run_failed"@, text_or(r.error, "a step failed"@))
            },
        ),
    }
}

fn text_of(t: &Option<String>, d: &str) -> (r: String)
    ensures
        r@ == text_or(opt_str(*t), d@),
{
    match t {
        Some(x) => x.clone(),
        None => owned(d),
    }
}

pub open spec fn verdict_view(r: Result<Json, Fail>) -> Result<JsonV, FailV> {
    match r {
        Ok(v) => Ok(v@),
        Err(f) => Err(f@),
    }
}

/// How a run is told.
pub fn conclude(receipt: &Receipt) -> (r: Result<Json, Fail>)
    requires
        receipt_fits(receipt@),
    ensures
        verdict_view(r) == verdict(receipt@),
{
    let committed = match receipt.status {
        Status::Committed => true,
        _ => false,
    };
    let mut o = match receipt.to_json() {
        Json::Obj(xs) => xs,
        _ => no_entries(),
    };
    put_entry(&mut o, "ok", Json::Bool(committed));
    let body = Json::Obj(o);
    match receipt.status {
        Status::Committed => Ok(body),
        Status::NeedThink => Err(
            Fail::new(
                Exit::NeedsAnswer,
                "needs_answer",
                text_of(&receipt.yield_reason, "the plan stopped to ask a question"),
            ).with_body(body),
        ),
        Status::Error => Err(
            Fail::new(Exit::RunFailed, "run_failed", text_of(&receipt.error, "a step failed"))
                .with_body(body),
        ),
    }
}

/// A run exits with success exactly when it committed.
pub proof fn only_commits_succeed(r: ReceiptV)
    ensures
        verdict(r) is Ok <==> r.status == Status::Committed,
        verdict(r) matches Err(f) ==> f.exit != Exit::Done && exit_code(f.exit) != 0,
{
}

} // verus!
