//! What a model is asked, and how its replies are taken.

use crate::cut::{joined, occurs};
use crate::effect::EffectErrorV;
use crate::json::{entry, json_text, member, JsonV};
use crate::ledger::LedgerV;
use crate::lint::{lint_error_text, LintErrorV};
use crate::lookup_laws::{a_missing_entry_is_none, the_first_entry_counts};
use crate::loops::{
    noted, offered, outcome_text, reading, result_block, result_blocks, turn_request, turns,
    uses_in, EndingV, ToolLoopV,
};
use crate::object::{keys_ascend, put_ok};
use crate::planner::{
    again_after, between, call_in, intent_in, names_in, notes_after, plan_text, rejection,
    replan_text, request_json, sent, source_of_text, texts_in, turn_after, usage_in, verdict_on,
    verdict_on_answer, Again, SourceV, Turn, VerdictV,
};
use crate::text::dec;
use crate::text_laws::a_text_occurs_where_it_stands;
use crate::world::WorldV;
use vstd::arithmetic::power2::{lemma_pow2_unfold, pow2};
use vstd::prelude::*;

verus! {

// ---------- requests ----------

/// What is sent names the model, how it thinks and how hard, says what to do on a refusal only
/// where that is asked for, and is otherwise what was to be sent.
pub proof fn a_request_names_its_model(
    body: Seq<(Seq<char>, JsonV)>,
    model: Seq<char>,
    effort: Seq<char>,
    fallbacks: bool,
    other: Seq<char>,
)
    requires
        keys_ascend(body),
    ensures
        ({
            let s = sent(body, model, effort, fallbacks);
            &&& entry(s, "model"@) == Some(JsonV::Str(model))
            &&& entry(s, "thinking"@) == Some(
                JsonV::Obj(seq![("type"@, JsonV::Str("adaptive"@))]),
            )
            &&& entry(s, "output_config"@) == Some(
                JsonV::Obj(seq![("effort"@, JsonV::Str(effort))]),
            )
            &&& fallbacks ==> entry(s, "fallbacks"@) == Some(JsonV::Str("default"@))
            &&& !fallbacks ==> entry(s, "fallbacks"@) == entry(body, "fallbacks"@)
            &&& other != "model"@ && other != "thinking"@ && other != "output_config"@ && other
                != "fallbacks"@ ==> entry(s, other) == entry(body, other)
        }),
{
    reveal_strlit("model");
    reveal_strlit("thinking");
    reveal_strlit("output_config");
    reveal_strlit("fallbacks");
    assert("thinking"@.len() == 8 && "fallbacks"@.len() == 9 && "output_config"@.len() == 13
        && "model"@.len() == 5);
    let th = JsonV::Obj(seq![("type"@, JsonV::Str("adaptive"@))]);
    let oc = JsonV::Obj(seq![("effort"@, JsonV::Str(effort))]);
    let fb = JsonV::Str("default"@);
    let a = crate::object::put(body, "model"@, JsonV::Str(model));
    let b = crate::object::put(a, "thinking"@, th);
    let c = crate::object::put(b, "output_config"@, oc);
    put_ok(body, "model"@, JsonV::Str(model), other);
    put_ok(body, "model"@, JsonV::Str(model), "fallbacks"@);
    put_ok(a, "thinking"@, th, "model"@);
    put_ok(a, "thinking"@, th, "fallbacks"@);
    put_ok(a, "thinking"@, th, other);
    put_ok(b, "output_config"@, oc, "model"@);
    put_ok(b, "output_config"@, oc, "thinking"@);
    put_ok(b, "output_config"@, oc, "fallbacks"@);
    put_ok(b, "output_config"@, oc, other);
    put_ok(c, "fallbacks"@, fb, "model"@);
    put_ok(c, "fallbacks"@, fb, "thinking"@);
    put_ok(c, "fallbacks"@, fb, "output_config"@);
    put_ok(c, "fallbacks"@, fb, other);
}

/// The planner is asked in one message of the user's.
pub proof fn the_planner_is_asked_once(user: Seq<char>)
    ensures
        entry(request_json(user), "messages"@) matches Some(JsonV::List(ms)) && ms.len() == 1
            && member(ms[0], "content"@) == Some(JsonV::Str(user)) && member(ms[0], "role"@)
            == Some(JsonV::Str("user"@)),
{
    reveal_strlit("max_tokens");
    reveal_strlit("messages");
    reveal_strlit("content");
    reveal_strlit("role");
    let m = seq![("content"@, JsonV::Str(user)), ("role"@, JsonV::Str("user"@))];
    assert("content"@.len() == 7 && "role"@.len() == 4);
    the_first_entry_counts(m, "content"@, 0);
    the_first_entry_counts(m, "role"@, 1);
    let xs = request_json(user);
    assert("max_tokens"@.len() == 10 && "messages"@.len() == 8);
    assert(xs[0].0 == "max_tokens"@);
    assert(xs[1] == ("messages"@, JsonV::List(seq![JsonV::Obj(m)])));
    the_first_entry_counts(xs, "messages"@, 1);
    assert(seq![JsonV::Obj(m)][0] == JsonV::Obj(m));
}

// ---------- replies ----------

/// A reply took in what it read fresh, what it read from the cache and what it put there; what it
/// does not say counts as nothing.
pub proof fn a_reply_says_what_it_took(u: JsonV, resp: JsonV, a: u64, b: u64, c: u64)
    requires
        member(resp, "usage"@) == Some(u),
    ensures
        member(u, "input_tokens"@) == Some(JsonV::Int(a as int)) && member(
            u,
            "cache_read_input_tokens"@,
        ) == Some(JsonV::Int(b as int)) && member(u, "cache_creation_input_tokens"@) == Some(
            JsonV::Int(c as int),
        ) ==> usage_in(resp) == a + b + c,
        member(u, "input_tokens"@) == Some(JsonV::Int(a as int)) && member(
            u,
            "cache_read_input_tokens"@,
        ) is None && member(u, "cache_creation_input_tokens"@) is None ==> usage_in(resp) == a,
{
}

/// A failure that may pass is tried again five times, and nothing else is; no wait is longer than
/// half a minute, the server's word goes first, and without it each wait doubles.
pub proof fn the_model_is_asked_again(status: u16, attempt: u32, after_s: Option<u64>)
    ensures
        again_after(status, attempt, after_s) is No <==> status == 200,
        again_after(status, attempt, after_s) is After <==> (status == 429 || status >= 500)
            && attempt < 6,
        again_after(status, attempt, after_s) matches Again::After(ms) ==> ms <= 30000,
        again_after(status, attempt, Some(30)) matches Again::After(ms) ==> ms == 30000,
        after_s matches Some(s) ==> (again_after(status, attempt, after_s) matches Again::After(ms)
            ==> (s <= 30 ==> ms == s * 1000) && (s > 30 ==> ms == 30000)),
        attempt < 5 ==> (again_after(status, attempt, None) matches Again::After(ms) ==> (
        again_after(status, (attempt + 1) as u32, None) matches Again::After(next) && (next == 2
            * ms || next == 30000))),
        again_after(429, 0, None) == Again::After(500),
{
    assert(pow2(0) == 1) by {
        vstd::arithmetic::power2::lemma2_to64();
    }
    lemma_pow2_unfold((attempt + 1) as nat);
    vstd::arithmetic::power2::lemma_pow2_pos(attempt as nat);
}

proof fn texts_step(xs: Seq<JsonV>, x: JsonV, t: Seq<char>)
    ensures
        member(x, "text"@) == Some(JsonV::Str(t)) ==> texts_in(xs.push(x)) == texts_in(xs).push(t),
        !(member(x, "text"@) matches Some(JsonV::Str(_))) ==> texts_in(xs.push(x)) == texts_in(xs),
{
    assert(xs.push(x).drop_last() =~= xs);
}

/// The words of a reply are those of its pieces of text, in their order.
pub proof fn words_are_those_of_the_texts(xs: Seq<JsonV>, x: JsonV, t: Seq<char>)
    ensures
        texts_in(Seq::empty()).len() == 0,
        member(x, "text"@) == Some(JsonV::Str(t)) ==> texts_in(xs.push(x)) == texts_in(xs).push(t),
        !(member(x, "text"@) matches Some(JsonV::Str(_))) ==> texts_in(xs.push(x)) == texts_in(xs),
{
    texts_step(xs, x, t);
}

/// The names of customers are those that they bear, in their order.
pub proof fn names_are_those_of_the_customers(xs: Seq<JsonV>, x: JsonV, n: Seq<char>)
    ensures
        names_in(Seq::empty()).len() == 0,
        member(x, "name"@) == Some(JsonV::Str(n)) ==> names_in(xs.push(x)) == names_in(xs).push(n),
        !(member(x, "name"@) matches Some(JsonV::Str(_))) ==> names_in(xs.push(x)) == names_in(xs),
{
    assert(xs.push(x).drop_last() =~= xs);
}

/// A call of the planner's tool.
pub open spec fn emits(b: JsonV) -> bool {
    member(b, "type"@) == Some(JsonV::Str("tool_use"@)) && member(b, "name"@) == Some(
        JsonV::Str("emit_intent"@),
    )
}

/// The first call of the planner's tool counts.
pub proof fn the_first_call_counts(xs: Seq<JsonV>, k: int)
    requires
        0 <= k < xs.len(),
        emits(xs[k]),
        forall|j: int| 0 <= j < k ==> !emits(#[trigger] xs[j]),
    ensures
        call_in(xs) == Some(xs[k]),
    decreases k,
{
    if k > 0 {
        let t = xs.drop_first();
        assert(!emits(xs[0]));
        assert(t[k - 1] == xs[k]);
        assert forall|j: int| 0 <= j < k - 1 implies !emits(#[trigger] t[j]) by {
            assert(t[j] == xs[j + 1]);
        }
        the_first_call_counts(t, k - 1);
    }
}

/// An intent in the words of a reply is the object from the first brace to the last.
pub proof fn an_object_is_taken_whole(t: Seq<char>, a: int, z: int)
    requires
        0 <= a < z < t.len(),
        t[a] == '{',
        forall|j: int| 0 <= j < a ==> #[trigger] t[j] != '{',
        t[z] == '}',
        forall|j: int| z < j < t.len() ==> #[trigger] t[j] != '}',
    ensures
        source_of_text(t) == SourceV::Object(t.subrange(a, z + 1)),
{
    reveal_strlit("{");
    assert("{"@.len() == 1);
    assert(t.subrange(a, a + 1) =~= "{"@);
    assert forall|j: int| 0 <= j < a implies #[trigger] t.subrange(j, j + "{"@.len()) != "{"@ by {
        assert(t.subrange(j, j + 1)[0] == t[j]);
    }
    assert(between(t, "{"@, '}', a, z));
    let (b, y) = choose|b: int, y: int| #[trigger] between(t, "{"@, '}', b, y);
    assert(t.subrange(b, b + 1)[0] == t[b]);
    assert(t[b] == '{');
    if b < a {
        assert(t[b] != '{');
    }
    if a < b {
        assert(t.subrange(a, a + "{"@.len()) != "{"@);
    }
    if y < z {
        assert(t[z] != '}');
    }
    if z < y {
        assert(t[y] != '}');
    }
}

/// An intent keeps the goal and the limits that it was asked with, and wants what it says.
pub proof fn an_intent_is_what_it_says(
    input: JsonV,
    goal: Seq<char>,
    limits: crate::intent::Constraints,
    ws: Seq<JsonV>,
    fs: Seq<JsonV>,
    i: int,
)
    ensures
        intent_in(input, goal, limits).goal == goal,
        intent_in(input, goal, limits).constraints == limits,
        member(input, "wants"@) == Some(JsonV::List(ws)) && (forall|k: int|
            0 <= k < ws.len() ==> #[trigger] ws[k] is Str) ==> intent_in(
            input,
            goal,
            limits,
        ).wants == ws.map_values(|w: JsonV| w->Str_0),
        member(input, "forks"@) == Some(JsonV::List(fs)) && 0 <= i < fs.len() ==> {
            let r = intent_in(input, goal, limits).forks;
            &&& r.len() == fs.len()
            &&& member(fs[i], "when"@) matches Some(JsonV::Str(w)) ==> r[i].when == w
            &&& member(fs[i], "ask"@) matches Some(JsonV::Str(a)) ==> r[i].ask == a
            &&& member(fs[i], "default"@) matches Some(JsonV::Str(d)) ==> r[i].default == Some(d)
            &&& member(fs[i], "default"@) is None ==> r[i].default is None
        },
{
    if member(input, "wants"@) == Some(JsonV::List(ws)) && (forall|k: int|
        0 <= k < ws.len() ==> #[trigger] ws[k] is Str) {
        all_strings_stay(ws);
    }
}

proof fn all_strings_stay(ws: Seq<JsonV>)
    requires
        forall|k: int| 0 <= k < ws.len() ==> #[trigger] ws[k] is Str,
    ensures
        crate::openapi::keep_strings(ws) == ws.map_values(|w: JsonV| w->Str_0),
    decreases ws.len(),
{
    if ws.len() > 0 {
        let d = ws.drop_last();
        assert forall|k: int| 0 <= k < d.len() implies #[trigger] d[k] is Str by {
            assert(d[k] == ws[k]);
        }
        all_strings_stay(d);
        assert(ws[ws.len() - 1] is Str);
        assert(ws.map_values(|w: JsonV| w->Str_0) =~= d.map_values(|w: JsonV| w->Str_0).push(
            ws.last()->Str_0,
        ));
    } else {
        assert(ws.map_values(|w: JsonV| w->Str_0) =~= Seq::<Seq<char>>::empty());
    }
}

// ---------- asking again ----------

proof fn in_joined(ps: Seq<Seq<char>>, sep: Seq<char>, i: int) -> (r: (Seq<char>, Seq<char>))
    requires
        0 <= i < ps.len(),
    ensures
        joined(ps, sep) == r.0 + ps[i] + r.1,
    decreases ps.len(),
{
    let e = Seq::<char>::empty();
    if ps.len() == 1 {
        assert(ps[0] =~= e + ps[0] + e);
        (e, e)
    } else if i == ps.len() - 1 {
        let a = joined(ps.drop_last(), sep) + sep;
        assert(a + ps.last() =~= a + ps[i] + e);
        (a, e)
    } else {
        let (a, b) = in_joined(ps.drop_last(), sep, i);
        let c = b + sep + ps.last();
        assert(joined(ps, sep) =~= a + ps[i] + c);
        (a, c)
    }
}

/// A planner that is asked again sees every error of the intent that was rejected, and every want
/// that it held.
pub proof fn every_error_is_told_back(
    w: WorldV,
    facts: Seq<char>,
    goal: Seq<char>,
    wants: Seq<Seq<char>>,
    errs: Seq<LintErrorV>,
    i: int,
)
    ensures
        0 <= i < errs.len() ==> occurs(
            replan_text(w, facts, goal, wants, errs),
            "- "@ + lint_error_text(errs[i]),
        ),
        0 <= i < wants.len() ==> occurs(replan_text(w, facts, goal, wants, errs), "  "@ + wants[i]),
{
    let t = replan_text(w, facts, goal, wants, errs);
    let wl = crate::planner::want_lines(wants);
    let el = crate::planner::err_lines(errs);
    let p = crate::planner::preamble(w, facts, goal);
    let h = "\n\nYour previous intent was:\n"@;
    let m = "\n\nIt was rejected:\n"@;
    let z = "\n\nEmit a corrected intent graph with emit_intent."@;
    assert(t == p + h + joined(wl, "\n"@) + m + joined(el, "\n"@) + z);
    if 0 <= i < errs.len() {
        let (a, b) = in_joined(el, "\n"@, i);
        let x = p + h + joined(wl, "\n"@) + m + a;
        assert(t =~= x + el[i] + (b + z));
        a_text_occurs_where_it_stands(x, el[i], b + z);
    }
    if 0 <= i < wants.len() {
        let (a, b) = in_joined(wl, "\n"@, i);
        let x = p + h + a;
        let y = b + m + joined(el, "\n"@) + z;
        assert(t =~= x + wl[i] + y);
        a_text_occurs_where_it_stands(x, wl[i], y);
    }
}

/// The planner is told the goal and the facts.
pub proof fn the_planner_is_told_the_goal(w: WorldV, facts: Seq<char>, goal: Seq<char>)
    ensures
        occurs(plan_text(w, facts, goal), goal),
        occurs(plan_text(w, facts, goal), facts),
{
    let a = "World model:\n"@ + crate::world::summary_text(w)
        + "\nWorld facts (read just now):\n"@;
    let z = "\n\nEmit the intent graph now with emit_intent."@;
    let t = plan_text(w, facts, goal);
    assert(t == a + facts + "\nGoal: "@ + goal + z);
    a_text_occurs_where_it_stands(a + facts + "\nGoal: "@, goal, z);
    assert(t =~= a + facts + ("\nGoal: "@ + goal + z));
    a_text_occurs_where_it_stands(a, facts, "\nGoal: "@ + goal + z);
}

/// An intent is accepted exactly where it has no errors; otherwise the planner is asked again,
/// twice, and a fork once.
pub proof fn only_errors_are_held_against(
    w: WorldV,
    facts: Seq<char>,
    goal: Seq<char>,
    wants: Seq<Seq<char>>,
    reasks: u32,
    errs: Seq<LintErrorV>,
    prompt: Seq<char>,
    retried: bool,
)
    ensures
        verdict_on(w, facts, goal, wants, reasks, errs) is Accept <==> errs.len() == 0,
        verdict_on(w, facts, goal, wants, reasks, errs) is AskAgain <==> errs.len() > 0 && reasks
            < 2,
        verdict_on_answer(prompt, retried, errs) is Accept <==> errs.len() == 0,
        verdict_on_answer(prompt, retried, errs) is AskAgain <==> errs.len() > 0 && !retried,
{
}

/// What is asked again is a sample of its own kind, and is counted.
pub proof fn asking_again_is_counted(t: Turn, v: VerdictV)
    requires
        t.reasks < u32::MAX,
    ensures
        v is AskAgain ==> turn_after(t, v).kind is Lint && turn_after(t, v).reasks == t.reasks + 1,
        !(v is AskAgain) ==> turn_after(t, v) == t,
{
}

/// A rejection is noted with its errors and its wants, and a clean intent is not.
pub proof fn a_rejection_is_noted(
    notes: Seq<JsonV>,
    k: Seq<char>,
    errs: Seq<LintErrorV>,
    wants: Seq<Seq<char>>,
)
    requires
        k != "wants"@,
    ensures
        errs.len() == 0 ==> notes_after(notes, k, errs, wants) == notes,
        errs.len() > 0 ==> {
            let r = notes_after(notes, k, errs, wants);
            &&& r.len() == notes.len() + 1
            &&& r.drop_last() == notes
            &&& member(r.last(), "wants"@) == Some(
                JsonV::List(wants.map_values(|x: Seq<char>| JsonV::Str(x))),
            )
            &&& member(r.last(), k) matches Some(JsonV::List(es)) && es.len() == errs.len()
                && forall|i: int|
                #![trigger es[i]]
                0 <= i < es.len() ==> es[i] == JsonV::Str(lint_error_text(errs[i]))
        },
{
    let xs = seq![
        (k, crate::planner::strs_json(crate::planner::err_texts(errs))),
        ("wants"@, crate::planner::strs_json(wants)),
    ];
    the_first_entry_counts(xs, k, 0);
    the_first_entry_counts(xs, "wants"@, 1);
    assert(rejection(k, errs, wants) == JsonV::Obj(xs));
    assert(notes.push(JsonV::Obj(xs)).drop_last() =~= notes);
}

// ---------- loops ----------

/// The closing words of a loop: a question asks, done is done, anything else has failed.
pub proof fn closing_words_are_taken_at_their_word(t: Seq<char>)
    ensures
        "?"@.is_suffix_of(t) ==> reading(t).status is NeedThink && reading(t).yield_reason == Some(
            t,
        ) && reading(t).error is None,
        !("?"@.is_suffix_of(t)) ==> reading(t).yield_reason is None,
        reading(t).status is Committed ==> reading(t).error is None,
        reading(t).status is Error ==> reading(t).error is Some,
        !("?"@.is_suffix_of(t)) && crate::cut::lower(crate::cut::trimmed(t)) == "done"@
            ==> reading(t).status is Committed,
{
}

/// A question that ended a loop is written down, and nothing else is.
pub proof fn a_question_is_written_down(l: LedgerV, e: EndingV)
    ensures
        e.yield_reason is None ==> noted(l, e) == l,
        e.yield_reason matches Some(t) ==> {
            let r = noted(l, e);
            &&& r.forks.len() == l.forks.len() + 1 && r.forks.drop_last() == l.forks
            &&& member(r.forks.last(), "ask"@) == Some(JsonV::Str(t))
            &&& r == LedgerV { forks: r.forks, ..l }
        },
{
    if let Some(t) = e.yield_reason {
        let xs = seq![("ask"@, JsonV::Str(t))];
        the_first_entry_counts(xs, "ask"@, 0);
        assert(l.forks.push(JsonV::Obj(xs)).drop_last() =~= l.forks);
    }
}

/// The calls of a reply are its blocks of that type, in their order, each with its own id, name
/// and input.
pub proof fn calls_are_taken_in_order(xs: Seq<JsonV>, b: JsonV)
    ensures
        uses_in(Seq::empty()).len() == 0,
        member(b, "type"@) != Some(JsonV::Str("tool_use"@)) ==> uses_in(xs.push(b)) == uses_in(xs),
        member(b, "type"@) == Some(JsonV::Str("tool_use"@)) ==> {
            let r = uses_in(xs.push(b));
            &&& r.len() == uses_in(xs).len() + 1 && r.drop_last() == uses_in(xs)
            &&& member(b, "id"@) matches Some(JsonV::Str(i)) ==> r.last().id == i
            &&& member(b, "name"@) matches Some(JsonV::Str(n)) ==> r.last().name == n
            &&& member(b, "input"@) matches Some(v) ==> r.last().input == v && (member(
                v,
                "idempotency_key"@,
            ) matches Some(JsonV::Str(k)) ==> r.last().key == Some(k)) && (member(
                v,
                "idempotency_key"@,
            ) is None ==> r.last().key is None)
        },
{
    assert(xs.push(b).drop_last() =~= xs);
    if member(b, "type"@) == Some(JsonV::Str("tool_use"@)) {
        let u = crate::loops::use_in(b);
        assert(uses_in(xs).push(u).drop_last() =~= uses_in(xs));
    }
}

/// A refusal ends a loop, calls are made, and without one the words close it.
pub proof fn a_reply_leads_on(resp: JsonV)
    ensures
        member(resp, "stop_reason"@) == Some(JsonV::Str("refusal"@)) ==> (crate::loops::heard(resp)
            matches crate::loops::HeardV::End(e) && e.status is Error),
        member(resp, "stop_reason"@) != Some(JsonV::Str("refusal"@)) ==> {
            let calls = uses_in(crate::planner::content_of(resp));
            &&& calls.len() > 0 ==> crate::loops::heard(resp) == crate::loops::HeardV::Calls(calls)
            &&& calls.len() == 0 ==> crate::loops::heard(resp) is End
        },
{
}

/// Each call is answered under its own id, with what it gave.
pub proof fn every_call_is_answered(rs: Seq<(Seq<char>, Seq<char>)>, i: int)
    ensures
        result_blocks(rs).len() == rs.len(),
        0 <= i < rs.len() ==> {
            let b = result_blocks(rs)[i];
            &&& member(b, "tool_use_id"@) == Some(JsonV::Str(rs[i].0))
            &&& member(b, "content"@) == Some(JsonV::Str(rs[i].1))
            &&& member(b, "type"@) == Some(JsonV::Str("tool_result"@))
        },
{
    if 0 <= i < rs.len() {
        reveal_strlit("content");
        reveal_strlit("tool_use_id");
        reveal_strlit("type");
        assert("content"@.len() == 7 && "tool_use_id"@.len() == 11 && "type"@.len() == 4);
        let xs = seq![
            ("content"@, JsonV::Str(rs[i].1)),
            ("tool_use_id"@, JsonV::Str(rs[i].0)),
            ("type"@, JsonV::Str("tool_result"@)),
        ];
        assert(result_block(rs[i].0, rs[i].1) == JsonV::Obj(xs));
        the_first_entry_counts(xs, "content"@, 0);
        the_first_entry_counts(xs, "tool_use_id"@, 1);
        the_first_entry_counts(xs, "type"@, 2);
    }
}

/// The model is told what a call gave, or what went wrong.
pub proof fn an_outcome_is_told(v: JsonV, m: Seq<char>, ms: u64)
    ensures
        outcome_text(Ok(v)) == json_text(v),
        outcome_text(Err(EffectErrorV::Fatal(m))) == "error: "@ + m,
        outcome_text(Err(EffectErrorV::Retryable(m))) == "error: "@ + m,
        occurs(outcome_text(Err(EffectErrorV::Throttled(ms, m))), m),
        occurs(outcome_text(Err(EffectErrorV::Throttled(ms, m))), dec(ms as nat)),
{
    let t = outcome_text(Err(EffectErrorV::Throttled(ms, m)));
    let a = "error: "@;
    let b = " (retry after "@;
    let z = " ms)"@;
    assert(t == a + m + b + dec(ms as nat) + z);
    assert(t =~= a + m + (b + dec(ms as nat) + z));
    a_text_occurs_where_it_stands(a, m, b + dec(ms as nat) + z);
    a_text_occurs_where_it_stands(a + m + b, dec(ms as nat), z);
}

/// A turn sends the whole conversation and every tool; only where calls may not run at once does
/// it say so.
pub proof fn a_turn_sends_the_conversation(l: ToolLoopV)
    ensures
        entry(turn_request(l), "messages"@) == Some(JsonV::List(l.messages)),
        entry(turn_request(l), "tools"@) == Some(JsonV::List(l.tools)),
        entry(turn_request(l), "tool_choice"@) is Some <==> !l.parallel,
{
    reveal_strlit("max_tokens");
    reveal_strlit("messages");
    reveal_strlit("system");
    reveal_strlit("tool_choice");
    reveal_strlit("tools");
    assert("max_tokens"@.len() == 10 && "messages"@.len() == 8 && "system"@.len() == 6
        && "tool_choice"@.len() == 11 && "tools"@.len() == 5);
    let xs = turn_request(l);
    the_first_entry_counts(xs, "messages"@, 1);
    if l.parallel {
        the_first_entry_counts(xs, "tools"@, 3);
        a_missing_entry_is_none(JsonV::Obj(xs), "tool_choice"@);
    } else {
        the_first_entry_counts(xs, "tool_choice"@, 3);
        the_first_entry_counts(xs, "tools"@, 4);
    }
}

/// A tool is offered under its own name, with its own words and its own input.
pub proof fn a_tool_is_offered_as_it_is(t: JsonV)
    ensures
        member(t, "name"@) matches Some(n) ==> member(offered(t), "name"@) == Some(n),
        member(t, "description"@) matches Some(d) ==> member(offered(t), "description"@) == Some(d),
        member(t, "inputSchema"@) matches Some(s) ==> member(offered(t), "input_schema"@) == Some(s),
{
    reveal_strlit("description");
    reveal_strlit("input_schema");
    reveal_strlit("name");
    assert("description"@.len() == 11 && "input_schema"@.len() == 12 && "name"@.len() == 4);
    let xs = seq![
        ("description"@, crate::json::member_or_null(t, "description"@)),
        ("input_schema"@, crate::json::member_or_null(t, "inputSchema"@)),
        ("name"@, crate::json::member_or_null(t, "name"@)),
    ];
    assert(offered(t) == JsonV::Obj(xs));
    the_first_entry_counts(xs, "description"@, 0);
    the_first_entry_counts(xs, "input_schema"@, 1);
    the_first_entry_counts(xs, "name"@, 2);
}

/// A loop has as many turns as it is given, and one at least.
pub proof fn a_loop_has_its_turns(n: u32)
    ensures
        n > 0 ==> turns(n) == n,
        turns(0) == 1,
{
}

} // verus!
