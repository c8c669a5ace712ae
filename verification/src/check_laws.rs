//! What an audit recounts, what a run is held to, and what is done on the screen.

use crate::arms::{failed_check, failed_checks, judgement, owing};
use crate::audit::{doubles_of, greatest_at, least_at, run_ms_of, span_at, spans_at};
use crate::domain::{error_status, DomainErrorV};
use crate::effect::passing;
use crate::events::AppEventV;
use crate::json::{entry, member, JsonV};
use crate::lookup_laws::the_first_entry_counts;
use crate::report::RunResultV;
use crate::object::{keys_ascend, put_ok};
use crate::screen::{
    action_of, after_picture, base64_text, first_use, picture, screen_request, seen, shown, went,
    ActionV, CuaLoopV, SeenV,
};
use crate::tasks::{chaos_of, CheckV};
use vstd::prelude::*;

verus! {

// ---------- recounting ----------

/// Whether a row counts towards a width: any, all but the waits for the outside world, or those of
/// one surface.
pub open spec fn counts(x: JsonV, skip_events: bool, surface: Option<Seq<char>>) -> bool {
    &&& skip_events ==> member(x, "surface"@) != Some(JsonV::Str("event"@))
    &&& surface matches Some(s) ==> member(x, "surface"@) == Some(JsonV::Str(s))
}

/// The spans are those of the rows that count, in their order.
pub proof fn spans_are_of_the_rows_that_count(
    rows: Seq<JsonV>,
    x: JsonV,
    skip_events: bool,
    surface: Option<Seq<char>>,
    s: u64,
    e: u64,
)
    requires
        member(x, "started_us"@) == Some(JsonV::Int(s as int)),
        member(x, "ended_us"@) == Some(JsonV::Int(e as int)),
    ensures
        spans_at(Seq::empty(), skip_events, surface).len() == 0,
        counts(x, skip_events, surface) ==> spans_at(rows.push(x), skip_events, surface)
            == spans_at(rows, skip_events, surface).push((s as u128, e as u128)),
        !counts(x, skip_events, surface) ==> spans_at(rows.push(x), skip_events, surface)
            == spans_at(rows, skip_events, surface),
{
    assert(rows.push(x).drop_last() =~= rows);
    assert(span_at(x) == (s as u128, e as u128));
    if counts(x, skip_events, surface) {
        assert(crate::audit::looked_at(x, skip_events, surface));
    } else {
        assert(!crate::audit::looked_at(x, skip_events, surface));
    }
}

proof fn least_is_least(rows: Seq<JsonV>, k: Seq<char>, i: int, n: u64)
    requires
        0 <= i < rows.len(),
        member(rows[i], k) == Some(JsonV::Int(n as int)),
    ensures
        least_at(rows, k) matches Some(m) && m <= n,
        greatest_at(rows, k) matches Some(m) && m >= n,
    decreases rows.len(),
{
    if i < rows.len() - 1 {
        least_is_least(rows.drop_last(), k, i, n);
    }
}

proof fn least_stands_there(rows: Seq<JsonV>, k: Seq<char>, lo: u64, hi: u64)
    requires
        forall|j: int|
            0 <= j < rows.len() ==> (member(#[trigger] rows[j], k) matches Some(JsonV::Int(m))
                ==> lo <= m <= hi),
    ensures
        least_at(rows, k) matches Some(m) ==> lo <= m,
        greatest_at(rows, k) matches Some(m) ==> m <= hi,
    decreases rows.len(),
{
    if rows.len() > 0 {
        let d = rows.drop_last();
        assert forall|j: int| 0 <= j < d.len() implies (member(#[trigger] d[j], k) matches Some(
            JsonV::Int(m),
        ) ==> lo <= m <= hi) by {
            assert(d[j] == rows[j]);
        }
        least_stands_there(d, k, lo, hi);
        assert(rows[rows.len() - 1] == rows.last());
    }
}

/// The time of a row.
pub open spec fn time_of(x: JsonV, k: Seq<char>) -> int {
    match member(x, k) {
        Some(JsonV::Int(n)) => n,
        _ => 0,
    }
}

/// A run lasts from its first start to its last end.
pub proof fn a_run_lasts_from_first_to_last(rows: Seq<JsonV>, a: int, b: int)
    requires
        0 <= a < rows.len(),
        0 <= b < rows.len(),
        forall|j: int|
            0 <= j < rows.len() ==> (member(#[trigger] rows[j], "started_us"@) matches Some(
                JsonV::Int(s),
            ) && 0 <= s <= u64::MAX && time_of(rows[a], "started_us"@) <= s),
        forall|j: int|
            0 <= j < rows.len() ==> (member(#[trigger] rows[j], "ended_us"@) matches Some(
                JsonV::Int(e),
            ) && 0 <= e <= u64::MAX && e <= time_of(rows[b], "ended_us"@)),
        time_of(rows[a], "started_us"@) <= time_of(rows[b], "ended_us"@),
    ensures
        run_ms_of(rows) == (time_of(rows[b], "ended_us"@) - time_of(rows[a], "started_us"@)) / 1000,
{
    let s = time_of(rows[a], "started_us"@);
    let e = time_of(rows[b], "ended_us"@);
    assert(rows[a] == rows[a] && rows[b] == rows[b]);
    least_is_least(rows, "started_us"@, a, s as u64);
    least_is_least(rows, "ended_us"@, b, e as u64);
    least_stands_there(rows, "started_us"@, s as u64, u64::MAX);
    least_stands_there(rows, "ended_us"@, 0, e as u64);
}

/// A message repeats an earlier one of the same kind about the same invoice.
pub open spec fn repeats(a: JsonV, b: JsonV) -> bool {
    member(a, "invoice_id"@) == member(b, "invoice_id"@) && member(a, "kind"@) == member(b, "kind"@)
}

/// A message is complete.
pub open spec fn complete(m: JsonV) -> bool {
    &&& member(m, "invoice_id"@) matches Some(JsonV::Int(n)) && 0 <= n <= u64::MAX
    &&& member(m, "kind"@) is Some && member(m, "kind"@)->0 is Str
}

proof fn same_as_repeats(a: JsonV, b: JsonV)
    requires
        complete(a),
        complete(b),
    ensures
        crate::audit::same_message(a, b) <==> repeats(a, b),
{
}

proof fn doubles_keep(ms: Seq<JsonV>, m: JsonV, n: nat)
    requires
        n <= ms.len(),
    ensures
        doubles_of(ms.push(m), n) == doubles_of(ms, n),
    decreases n,
{
    if n > 0 {
        doubles_keep(ms, m, (n - 1) as nat);
        let t = ms.push(m);
        assert(t[n - 1] == ms[n - 1]);
        if crate::audit::repeats_at(ms, n - 1) {
            let j = choose|j: int|
                0 <= j < n - 1 && crate::audit::same_message(#[trigger] ms[j], ms[n - 1]);
            assert(t[j] == ms[j]);
            assert(crate::audit::repeats_at(t, n - 1));
        }
        if crate::audit::repeats_at(t, n - 1) {
            let j = choose|j: int|
                0 <= j < n - 1 && crate::audit::same_message(#[trigger] t[j], t[n - 1]);
            assert(t[j] == ms[j]);
            assert(crate::audit::repeats_at(ms, n - 1));
        }
    }
}

/// A message that repeats one before it is a double, and no other is.
pub proof fn a_repeated_message_is_a_double(ms: Seq<JsonV>, m: JsonV)
    requires
        complete(m),
        forall|i: int| 0 <= i < ms.len() ==> complete(#[trigger] ms[i]),
    ensures
        doubles_of(ms.push(m), ms.len() + 1) == doubles_of(ms, ms.len()) + if exists|j: int|
            0 <= j < ms.len() && repeats(#[trigger] ms[j], m) {
            1nat
        } else {
            0
        },
{
    let t = ms.push(m);
    let n = ms.len() as int;
    doubles_keep(ms, m, ms.len());
    assert(t[n] == m);
    if exists|j: int| 0 <= j < ms.len() && repeats(#[trigger] ms[j], m) {
        let j = choose|j: int| 0 <= j < ms.len() && repeats(#[trigger] ms[j], m);
        same_as_repeats(ms[j], m);
        assert(t[j] == ms[j]);
        assert(crate::audit::same_message(t[j], t[n]));
        assert(crate::audit::repeats_at(t, n));
    }
    if crate::audit::repeats_at(t, n) {
        let j = choose|j: int| 0 <= j < n && crate::audit::same_message(#[trigger] t[j], t[n]);
        assert(t[j] == ms[j]);
        same_as_repeats(ms[j], m);
        assert(repeats(ms[j], m));
    }
}

// ---------- runs ----------

/// A run's latency is what its task says, or else its own; nothing else of the chaos changes.
pub proof fn a_task_sets_its_own_latency(
    xs: Seq<(Seq<char>, JsonV)>,
    latency_ms: u64,
    other: Seq<char>,
)
    requires
        keys_ascend(xs),
    ensures
        entry(xs, "latency_ms"@) is Some ==> chaos_of(JsonV::Obj(xs), latency_ms) == JsonV::Obj(xs),
        entry(xs, "latency_ms"@) is None ==> member(
            chaos_of(JsonV::Obj(xs), latency_ms),
            "latency_ms"@,
        ) == Some(JsonV::Int(latency_ms as int)),
        other != "latency_ms"@ ==> member(chaos_of(JsonV::Obj(xs), latency_ms), other) == entry(
            xs,
            other,
        ),
{
    put_ok(xs, "latency_ms"@, JsonV::Int(latency_ms as int), other);
}

/// Whether an event is that of an invoice that appeared.
pub open spec fn appeared(e: AppEventV, id: u64) -> bool {
    e.kind == "invoice.created"@ && e.id == id
}

/// Every invoice that appeared and was not paid yet is owed, once, and nothing else is.
pub proof fn every_new_invoice_is_owed_once(es: Seq<AppEventV>, paid: Seq<u64>, id: u64)
    ensures
        owing(es, paid).contains(id) <==> !paid.contains(id) && exists|i: int|
            0 <= i < es.len() && appeared(#[trigger] es[i], id),
        owing(es, paid).no_duplicates(),
    decreases es.len(),
{
    if es.len() > 0 {
        let d = es.drop_last();
        let b = owing(d, paid);
        let r = owing(es, paid);
        every_new_invoice_is_owed_once(d, paid, id);
        if b.contains(id) {
            let i = choose|i: int| 0 <= i < d.len() && appeared(#[trigger] d[i], id);
            assert(appeared(es[i], id));
            let k = choose|k: int| 0 <= k < b.len() && b[k] == id;
            assert(r[k] == id);
        }
        if exists|i: int| 0 <= i < es.len() && appeared(#[trigger] es[i], id) {
            let i = choose|i: int| 0 <= i < es.len() && appeared(#[trigger] es[i], id);
            if i < d.len() {
                assert(appeared(d[i], id));
            } else if !paid.contains(id) && !b.contains(id) {
                assert(r[b.len() as int] == id);
            }
        }
        if r.contains(id) && !b.contains(id) {
            let k = choose|k: int| 0 <= k < r.len() && r[k] == id;
            if k < b.len() {
                assert(b[k] == id);
            }
            assert(appeared(es[es.len() - 1], id));
        }
        assert forall|i: int, j: int| 0 <= i < j < r.len() implies #[trigger] r[i]
            != #[trigger] r[j] by {
            if j == b.len() {
                assert(b[i] == r[i]);
            } else {
                assert(b[i] == r[i] && b[j] == r[j]);
            }
        }
    }
}

/// The checks that a run failed are told, in their order, and no others are.
pub proof fn the_failed_checks_are_told(cs: Seq<CheckV>)
    ensures
        failed_checks(cs) == cs.filter(|c: CheckV| !c.ok).map_values(|c: CheckV| failed_check(c)),
    decreases cs.len(),
{
    reveal(Seq::filter);
    let p = |c: CheckV| !c.ok;
    let f = |c: CheckV| failed_check(c);
    if cs.len() > 0 {
        let d = cs.drop_last();
        the_failed_checks_are_told(d);
        if !cs.last().ok {
            assert(cs.filter(p) == d.filter(p).push(cs.last()));
            assert(d.filter(p).push(cs.last()).map_values(f) =~= d.filter(p).map_values(f).push(
                failed_check(cs.last()),
            ));
        }
    } else {
        assert(cs.filter(p).map_values(f) =~= Seq::<Seq<char>>::empty());
    }
}

/// A run is called correct exactly where it is.
pub proof fn a_wrong_run_is_called_wrong(r: RunResultV)
    ensures
        r.correct <==> judgement(r) == "correct"@,
{
    reveal_strlit("correct");
    reveal_strlit("WRONG [");
    if !r.correct {
        assert(judgement(r)[0] == 'W');
        assert("correct"@[0] == 'c');
    }
}

// ---------- errors ----------

/// Only what may pass is answered with a status that asks to be tried again.
pub proof fn only_what_may_pass_is_tried_again(e: DomainErrorV)
    ensures
        passing(error_status(e)) <==> e is ChaosFail || e is RateLimited,
        e is NotFound <==> error_status(e) == 404,
        e is RateLimited <==> error_status(e) == 429,
        !(200 <= error_status(e) < 300),
{
}

// ---------- the screen ----------

/// An action is the one that its call names, at the place or with the words that it gives.
pub proof fn an_action_is_the_one_named(input: JsonV)
    ensures
        member(input, "action"@) == Some(JsonV::Str("click"@)) ==> {
            &&& action_of(input) is Click
            &&& member(input, "x"@) matches Some(x) ==> action_of(input)->Click_0 == x
            &&& member(input, "y"@) matches Some(y) ==> action_of(input)->Click_1 == y
        },
        member(input, "action"@) == Some(JsonV::Str("type"@)) ==> (member(input, "text"@)
            matches Some(JsonV::Str(t)) ==> action_of(input) == ActionV::Type(t)),
        member(input, "action"@) == Some(JsonV::Str("key"@)) ==> {
            &&& member(input, "key"@) matches Some(JsonV::Str(t)) ==> action_of(input)
                == ActionV::Key(t)
            &&& member(input, "key"@) is None ==> action_of(input) == ActionV::Key("Enter"@)
        },
        member(input, "action"@) == Some(JsonV::Str("wait"@)) ==> action_of(input) is Wait,
        member(input, "action"@) == Some(JsonV::Str("done"@)) ==> action_of(input) is Done,
        action_of(input) is Click ==> member(input, "action"@) == Some(JsonV::Str("click"@)),
        action_of(input) is Type ==> member(input, "action"@) == Some(JsonV::Str("type"@)),
        action_of(input) is Key ==> member(input, "action"@) == Some(JsonV::Str("key"@)),
        action_of(input) is Wait ==> member(input, "action"@) == Some(JsonV::Str("wait"@)),
        action_of(input) is Done ==> member(input, "action"@) == Some(JsonV::Str("done"@)),
        action_of(input) matches ActionV::Done(e) ==> !(e.status is Error),
{
    reveal_strlit("click");
    reveal_strlit("type");
    reveal_strlit("key");
    reveal_strlit("wait");
    reveal_strlit("done");
    reveal_strlit("");
    assert("click"@.len() == 5 && "type"@.len() == 4 && "key"@.len() == 3 && "wait"@.len() == 4
        && "done"@.len() == 4 && ""@.len() == 0);
    assert("type"@[0] == 't' && "wait"@[0] == 'w' && "done"@[0] == 'd');
}

/// The first call of a reply is acted on, under its own id.
pub proof fn the_first_action_is_taken(resp: JsonV, xs: Seq<JsonV>, k: int)
    requires
        member(resp, "content"@) == Some(JsonV::List(xs)),
        0 <= k < xs.len(),
        member(xs[k], "type"@) == Some(JsonV::Str("tool_use"@)),
        forall|j: int|
            0 <= j < k ==> member(#[trigger] xs[j], "type"@) != Some(JsonV::Str("tool_use"@)),
    ensures
        member(xs[k], "input"@) matches Some(v) ==> (seen(resp) matches SeenV::Act(id, _, a) && a
            == action_of(v) && (member(xs[k], "id"@) matches Some(JsonV::Str(i)) ==> id == i)),
{
    first_is_found(xs, k);
}

proof fn first_is_found(xs: Seq<JsonV>, k: int)
    requires
        0 <= k < xs.len(),
        member(xs[k], "type"@) == Some(JsonV::Str("tool_use"@)),
        forall|j: int|
            0 <= j < k ==> member(#[trigger] xs[j], "type"@) != Some(JsonV::Str("tool_use"@)),
    ensures
        first_use(xs) == Some(xs[k]),
    decreases k,
{
    if k > 0 {
        let t = xs.drop_first();
        assert(member(xs[0], "type"@) != Some(JsonV::Str("tool_use"@)));
        assert(t[k - 1] == xs[k]);
        assert forall|j: int| 0 <= j < k - 1 implies member(#[trigger] t[j], "type"@) != Some(
            JsonV::Str("tool_use"@),
        ) by {
            assert(t[j] == xs[j + 1]);
        }
        first_is_found(t, k - 1);
    }
}

/// Each turn adds one picture of the screen to the conversation, and the task stands only with the
/// first.
pub proof fn a_turn_adds_a_picture(l: CuaLoopV, png: Seq<u8>)
    ensures
        after_picture(l, png).messages.drop_last() == l.messages,
        l.turn == 0 ==> after_picture(l, png).messages.last() == shown(png, l.opening),
        l.turn > 0 ==> after_picture(l, png).messages.last() == shown(
            png,
            "Here is the screen after your action."@,
        ),
        l.turn < u32::MAX ==> after_picture(l, png).turn == l.turn + 1,
        after_picture(l, png).max_turns == l.max_turns,
{
    assert(after_picture(l, png).messages.drop_last() =~= l.messages);
}

/// A picture is what was seen, in base 64.
pub proof fn a_picture_is_what_was_seen(png: Seq<u8>)
    ensures
        member(picture(png), "type"@) == Some(JsonV::Str("image"@)),
        member(picture(png), "source"@) matches Some(s) && member(s, "data"@) == Some(
            JsonV::Str(base64_text(png)),
        ) && member(s, "media_type"@) == Some(JsonV::Str("image/png"@)) && member(s, "type"@)
            == Some(JsonV::Str("base64"@)),
{
    reveal_strlit("source");
    reveal_strlit("type");
    reveal_strlit("data");
    reveal_strlit("media_type");
    assert("source"@.len() == 6 && "type"@.len() == 4 && "data"@.len() == 4 && "media_type"@.len()
        == 10);
    assert("type"@[0] == 't' && "data"@[0] == 'd');
    let s = seq![
        ("data"@, JsonV::Str(base64_text(png))),
        ("media_type"@, JsonV::Str("image/png"@)),
        ("type"@, JsonV::Str("base64"@)),
    ];
    the_first_entry_counts(s, "data"@, 0);
    the_first_entry_counts(s, "media_type"@, 1);
    the_first_entry_counts(s, "type"@, 2);
    let xs = seq![("source"@, JsonV::Obj(s)), ("type"@, JsonV::Str("image"@))];
    assert(picture(png) == JsonV::Obj(xs));
    the_first_entry_counts(xs, "source"@, 0);
    the_first_entry_counts(xs, "type"@, 1);
}

/// The model is sent the whole conversation.
pub proof fn the_screen_loop_sends_the_conversation(ms: Seq<JsonV>)
    ensures
        entry(screen_request(ms), "messages"@) == Some(JsonV::List(ms)),
{
    reveal_strlit("max_tokens");
    reveal_strlit("messages");
    assert("max_tokens"@.len() == 10 && "messages"@.len() == 8);
    the_first_entry_counts(screen_request(ms), "messages"@, 1);
}

/// The model is told how an action went.
pub proof fn an_action_is_told(e: Seq<char>)
    ensures
        went(None) == "ok"@,
        went(Some(e)) == "error: "@ + e,
        went(Some(e)) != went(None),
{
    reveal_strlit("ok");
    reveal_strlit("error: ");
    assert("error: "@.len() == 7 && "ok"@.len() == 2);
}

} // verus!
