//! What the scheduler may conclude: from a glance, from a result, from a failure, and what it
//! hands to a call.

use crate::cut::trimmed;
use crate::effect::EffectErrorV;
use crate::json::{member, JsonV};
use crate::lookup_laws::{a_missing_entry_is_none, the_first_entry_counts};
use crate::plan::{ArgV, NodeV};
use crate::scheduler::{
    after_attempt_spec, confirmed, defaulted, evidence, fires, glance_args, glance_node, id_of,
    lowest, lowest_is_smallest, picked, resolved, resolved_args, resolved_list, shows, FailureV,
    NextV, Policy,
};
use crate::text::dec;
use crate::world::{CheckV, OpKind};
use vstd::arithmetic::power2::pow2;
use vstd::prelude::*;

verus! {

// ---------- glances ----------

/// A glance finishes a wait exactly where the field that the check names has the value that the
/// check names; any other value, and a field that is missing, never does.
pub proof fn only_the_fact_ends_a_wait(n: NodeV, c: CheckV, seen: Seq<(Seq<char>, JsonV)>, i: int)
    requires
        n.check == Some(c),
        0 <= i < seen.len(),
        seen[i].0 == c.field,
        forall|j: int| 0 <= j < i ==> (#[trigger] seen[j]).0 != c.field,
    ensures
        shows(n, JsonV::Obj(seen)) <==> seen[i].1 == c.value,
{
    the_first_entry_counts(seen, c.field, i);
}

/// Nothing that lacks the field ends a wait, and no wait without a check is ended by a glance.
pub proof fn what_does_not_say_it_ends_no_wait(n: NodeV, seen: JsonV)
    requires
        n.check matches Some(c) ==> (seen matches JsonV::Obj(xs) ==> forall|j: int|
            0 <= j < xs.len() ==> (#[trigger] xs[j]).0 != c.field),
    ensures
        !shows(n, seen),
{
    if let Some(c) = n.check {
        a_missing_entry_is_none(seen, c.field);
    }
}

/// A wait that a glance ended says so, and says for what and what was seen.
pub proof fn a_confirmed_wait_says_what_was_seen(op: Seq<char>, id: Option<u64>, state: JsonV)
    ensures
        member(confirmed(op, id, state), "checked"@) == Some(JsonV::Bool(true)),
        member(confirmed(op, id, state), "kind"@) == Some(JsonV::Str(op)),
        member(confirmed(op, id, state), "state"@) == Some(state),
        id matches Some(i) ==> member(confirmed(op, id, state), "id"@) == Some(
            JsonV::Int(i as int),
        ),
        id is None ==> member(confirmed(op, id, state), "id"@) == Some(JsonV::Null),
{
    reveal_strlit("checked");
    assert("checked"@.len() == 7);
    reveal_strlit("id");
    assert("id"@.len() == 2);
    reveal_strlit("kind");
    assert("kind"@.len() == 4);
    reveal_strlit("state");
    assert("state"@.len() == 5);
    let xs = confirmed(op, id, state)->Obj_0;
    the_first_entry_counts(xs, "checked"@, 0);
    the_first_entry_counts(xs, "id"@, 1);
    the_first_entry_counts(xs, "kind"@, 2);
    the_first_entry_counts(xs, "state"@, 3);
}

/// A glance is a read of its own over the API: the operation that the check names, without a key,
/// with the one argument that the check names as the wait has it, and under a name of its own.
pub proof fn a_glance_reads(
    n: NodeV,
    c: CheckV,
    glances: u32,
    args: Seq<(Seq<char>, JsonV)>,
    i: int,
)
    requires
        n.check == Some(c),
        0 <= i < args.len(),
        args[i].0 == c.arg,
        forall|j: int| 0 <= j < i ==> (#[trigger] args[j]).0 != c.arg,
    ensures
        glance_node(n, glances).op == c.op,
        glance_node(n, glances).kind == OpKind::Http,
        glance_node(n, glances).surface == "api"@,
        glance_node(n, glances).key is None,
        glance_node(n, glances).id == n.id + "~"@ + dec(glances as nat),
        glance_args(c.arg, args) == seq![(c.arg, args[i].1)],
{
    the_first_entry_counts(args, c.arg, i);
}

// ---------- forks ----------

/// A node asks where its result is not exactly one thing, or is nothing at all, as its fork says;
/// another condition never asks. A list counts its elements, anything else counts as one.
pub proof fn when_a_fork_asks(when: Seq<char>, output: JsonV)
    ensures
        trimmed(when) == "result.count != 1"@ ==> (fires(when, output) <==> (output matches
            JsonV::List(xs) && xs.len() != 1)),
        trimmed(when) == "result.count == 0"@ ==> (fires(when, output) <==> (output matches
            JsonV::List(xs) && xs.len() == 0)),
        trimmed(when) != "result.count != 1"@ && trimmed(when) != "result.count == 0"@ ==> !fires(
            when,
            output,
        ),
{
    reveal_strlit("result.count != 1");
    assert("result.count != 1"@.len() == 17);
    reveal_strlit("result.count == 0");
    assert("result.count == 0"@.len() == 17);
    assert("result.count != 1"@[13] != "result.count == 0"@[13]);
}

/// The evidence of a fork shows the result, how many there are, and the condition.
pub proof fn evidence_shows_the_result(when: Seq<char>, output: JsonV)
    ensures
        member(evidence(when, output), "result"@) == Some(output),
        member(evidence(when, output), "when"@) == Some(JsonV::Str(when)),
        output matches JsonV::List(xs) ==> member(evidence(when, output), "count"@) == Some(
            JsonV::Int(xs.len() as int),
        ),
        !(output is List) ==> member(evidence(when, output), "count"@) == Some(JsonV::Int(1)),
{
    reveal_strlit("count");
    assert("count"@.len() == 5);
    reveal_strlit("result");
    assert("result"@.len() == 6);
    reveal_strlit("when");
    assert("when"@.len() == 4);
    let xs = evidence(when, output)->Obj_0;
    the_first_entry_counts(xs, "count"@, 0);
    the_first_entry_counts(xs, "result"@, 1);
    the_first_entry_counts(xs, "when"@, 2);
}

proof fn lowest_there(xs: Seq<JsonV>, n: nat)
    requires
        n <= xs.len(),
    ensures
        lowest(xs, n) matches Some(b) ==> 0 <= b < n && id_of(xs[b]) is Some,
        lowest(xs, n) is None ==> forall|j: int| 0 <= j < n ==> id_of(#[trigger] xs[j]) is None,
    decreases n,
{
    if n > 0 {
        lowest_there(xs, (n - 1) as nat);
    }
}

/// A declared default picks one of the results, and none of them has a smaller id. Only the rule
/// that is known picks, and only from a list; where no result has an id, nothing is picked.
pub proof fn a_default_picks_the_lowest(rule: Option<Seq<char>>, output: JsonV)
    ensures
        picked(rule, output) matches Some(v) ==> rule == Some("lowest_id"@) && (output matches
            JsonV::List(xs) && xs.contains(v) && (member(v, "id"@) matches Some(JsonV::Int(m))
            && 0 <= m <= u64::MAX && forall|j: int, k: int|
            0 <= j < xs.len() && 0 <= k <= u64::MAX && #[trigger] member(xs[j], "id"@)
                == #[trigger] some_number(k) ==> m <= k)),
        picked(rule, output) is None && rule == Some("lowest_id"@) ==> (output matches
            JsonV::List(xs) ==> forall|j: int, k: int|
            0 <= j < xs.len() && 0 <= k <= u64::MAX ==> #[trigger] member(xs[j], "id"@)
                != #[trigger] some_number(k)),
{
    if let JsonV::List(xs) = output {
        if rule == Some("lowest_id"@) {
            lowest_there(xs, xs.len());
            if let Some(b) = lowest(xs, xs.len()) {
                let v = xs[b];
                assert(xs.contains(v));
                assert forall|j: int, k: int|
                    0 <= j < xs.len() && 0 <= k <= u64::MAX && #[trigger] member(xs[j], "id"@)
                        == #[trigger] some_number(k) implies member(v, "id"@)->0->Int_0 <= k by {
                    assert(id_of(xs[j]) == Some(k as u64));
                    lowest_is_smallest(xs, xs.len(), j);
                }
            } else {
                assert forall|j: int, k: int|
                    0 <= j < xs.len() && 0 <= k <= u64::MAX implies #[trigger] member(xs[j], "id"@)
                    != #[trigger] some_number(k) by {
                    assert(id_of(xs[j]) is None);
                }
            }
        }
    }
}

/// A number that is there.
pub open spec fn some_number(k: int) -> Option<JsonV> {
    Some(JsonV::Int(k))
}

/// A node with a fork that does not fire, or with none, finishes with what it saw. One that fires
/// is answered by the declared default where that picks something; otherwise it asks, and the
/// evidence goes with the question.
pub proof fn a_result_finishes_or_asks(n: NodeV, p: Policy, attempt: u32, v: JsonV)
    ensures
        n.fork is None ==> after_attempt_spec(n, p, attempt, Ok(v)) == NextV::Done(v),
        n.fork matches Some(f) ==> {
            &&& !fires(f.when, v) ==> after_attempt_spec(n, p, attempt, Ok(v)) == NextV::Done(v)
            &&& fires(f.when, v) && picked(f.default, v) is None ==> after_attempt_spec(
                n,
                p,
                attempt,
                Ok(v),
            ) == NextV::Fail(FailureV::Fork(evidence(f.when, v)))
            &&& fires(f.when, v) && picked(f.default, v) is Some ==> (after_attempt_spec(
                n,
                p,
                attempt,
                Ok(v),
            ) matches NextV::Done(d) && member(d, "chosen"@) == picked(f.default, v) && member(
                d,
                "__fork_ask"@,
            ) == Some(JsonV::Str(f.ask)) && member(d, "__evidence"@) == Some(evidence(f.when, v))
                && member(d, "__fork_default"@) == Some(JsonV::Str(f.default->0)) && member(
                d,
                "result"@,
            ) == Some(JsonV::List(seq![picked(f.default, v)->0])))
        },
{
    reveal_strlit("__evidence");
    assert("__evidence"@.len() == 10);
    reveal_strlit("__fork_ask");
    assert("__fork_ask"@.len() == 10);
    reveal_strlit("__fork_default");
    assert("__fork_default"@.len() == 14);
    reveal_strlit("chosen");
    assert("chosen"@.len() == 6);
    reveal_strlit("result");
    assert("result"@.len() == 6);
    assert("__evidence"@[2] != "__fork_ask"@[2]);
    assert("chosen"@[0] != "result"@[0]);
    if let Some(f) = n.fork {
        if let Some(c) = picked(f.default, v) {
            let d = defaulted(f.default->0, f.ask, evidence(f.when, v), c);
            let xs = d->Obj_0;
            the_first_entry_counts(xs, "__evidence"@, 0);
            the_first_entry_counts(xs, "__fork_ask"@, 1);
            the_first_entry_counts(xs, "__fork_default"@, 2);
            the_first_entry_counts(xs, "chosen"@, 3);
            the_first_entry_counts(xs, "result"@, 4);
        }
    }
}

// ---------- failures ----------

/// A failure that may pass is tried again until the attempts are used up, and then the node fails
/// and says after how many; a failure that cannot pass fails the node at once, in its own words.
pub proof fn failures_are_retried_or_final(n: NodeV, p: Policy, attempt: u32, msg: Seq<char>, ms: u64)
    requires
        attempt >= 1,
    ensures
        after_attempt_spec(n, p, attempt, Err(EffectErrorV::Retryable(msg))) is Again
            <==> attempt < p.max_attempts,
        after_attempt_spec(n, p, attempt, Err(EffectErrorV::Throttled(ms, msg))) is Again
            <==> attempt < 2 * p.max_attempts,
        attempt >= p.max_attempts ==> after_attempt_spec(
            n,
            p,
            attempt,
            Err(EffectErrorV::Retryable(msg)),
        ) == NextV::Fail(
            FailureV::Fatal("gave up after "@ + dec(attempt as nat) + " attempts: "@ + msg),
        ),
        attempt >= 2 * p.max_attempts ==> after_attempt_spec(
            n,
            p,
            attempt,
            Err(EffectErrorV::Throttled(ms, msg)),
        ) == NextV::Fail(
            FailureV::Fatal("gave up after "@ + dec(attempt as nat) + " attempts: "@ + msg),
        ),
        after_attempt_spec(n, p, attempt, Err(EffectErrorV::Fatal(msg))) == NextV::Fail(
            FailureV::Fatal(msg),
        ),
{
}

/// The first wait before another attempt is the policy's, and each one after it is twice the one
/// before.
pub proof fn each_wait_doubles(n: NodeV, p: Policy, attempt: u32, m: Seq<char>, m2: Seq<char>)
    requires
        1 <= attempt,
        attempt + 1 < p.max_attempts,
    ensures
        after_attempt_spec(n, p, 1, Err(EffectErrorV::Retryable(m))) == NextV::Again(
            p.backoff_ms as nat,
        ),
        after_attempt_spec(n, p, attempt, Err(EffectErrorV::Retryable(m))) matches NextV::Again(a)
            && after_attempt_spec(
            n,
            p,
            (attempt + 1) as u32,
            Err(EffectErrorV::Retryable(m2)),
        ) matches NextV::Again(b) && b == 2 * a,
{
    vstd::arithmetic::power2::lemma2_to64();
    vstd::arithmetic::power2::lemma_pow2_unfold(attempt as nat);
    assert(pow2(0) == 1);
    assert(p.backoff_ms as nat * pow2(0) == p.backoff_ms as nat) by (nonlinear_arith)
        requires
            pow2(0) == 1,
    ;
    let x = p.backoff_ms as int;
    let y = pow2((attempt - 1) as nat) as int;
    assert(x * (2 * y) == 2 * (x * y)) by (nonlinear_arith);
}

/// Where the server says when to come back, nobody comes sooner, and nobody much later.
pub proof fn nobody_comes_back_too_soon(n: NodeV, p: Policy, attempt: u32, m: Seq<char>, ms: u64)
    requires
        attempt < 2 * p.max_attempts,
    ensures
        after_attempt_spec(n, p, attempt, Err(EffectErrorV::Throttled(ms, m))) matches
            NextV::Again(w) && ms <= w < ms + 50,
{
}

// ---------- arguments ----------

/// A literal is handed over as it is; a reference is the field of what its node observed.
pub proof fn arguments_are_what_they_refer_to(
    v: JsonV,
    node: Seq<char>,
    field: Seq<char>,
    outputs: Map<Seq<char>, JsonV>,
    guarded: Seq<Seq<char>>,
)
    ensures
        resolved(ArgV::Lit(v), outputs, guarded) == Ok::<JsonV, Seq<char>>(v),
        !outputs.contains_key(node) ==> resolved(
            ArgV::Ref { node, field },
            outputs,
            guarded,
        ) is Err,
        outputs.contains_key(node) && !(outputs[node] is List) && member(
            outputs[node],
            "__fork_default"@,
        ) is None && member(outputs[node], field) is Some ==> resolved(
            ArgV::Ref { node, field },
            outputs,
            guarded,
        ) == Ok::<JsonV, Seq<char>>(member(outputs[node], field)->0),
        outputs.contains_key(node) && !(outputs[node] is List) && member(
            outputs[node],
            "__fork_default"@,
        ) is None && member(outputs[node], field) is None ==> resolved(
            ArgV::Ref { node, field },
            outputs,
            guarded,
        ) is Err,
        outputs.contains_key(node) && member(outputs[node], "__fork_default"@) is Some ==> (member(
            outputs[node],
            "chosen"@,
        ) matches Some(c) ==> (member(c, field) matches Some(x) ==> resolved(
            ArgV::Ref { node, field },
            outputs,
            guarded,
        ) == Ok::<JsonV, Seq<char>>(x))),
        outputs.contains_key(node) ==> (outputs[node] matches JsonV::List(xs) ==> {
            &&& guarded.contains(node) && xs.len() == 1 ==> (member(xs[0], field) matches Some(x)
                ==> resolved(ArgV::Ref { node, field }, outputs, guarded) == Ok::<
                JsonV,
                Seq<char>,
            >(x))
            &&& !guarded.contains(node) || xs.len() != 1 ==> resolved(
                ArgV::Ref { node, field },
                outputs,
                guarded,
            ) is Err
        }),
{
}

/// A list is handed over element by element, in its own order; where one of them cannot be
/// resolved, the list cannot.
pub proof fn lists_resolve_element_by_element(
    xs: Seq<ArgV>,
    outputs: Map<Seq<char>, JsonV>,
    guarded: Seq<Seq<char>>,
)
    ensures
        (forall|i: int| 0 <= i < xs.len() ==> resolved(#[trigger] xs[i], outputs, guarded) is Ok)
            <==> resolved(ArgV::List(xs), outputs, guarded) is Ok,
        resolved(ArgV::List(xs), outputs, guarded) matches Ok(v) ==> (v matches JsonV::List(ys)
            && ys.len() == xs.len() && forall|i: int|
            0 <= i < xs.len() ==> resolved(#[trigger] xs[i], outputs, guarded) == Ok::<
                JsonV,
                Seq<char>,
            >(ys[i])),
{
    list_resolves(xs, outputs, guarded);
}

proof fn list_resolves(xs: Seq<ArgV>, outputs: Map<Seq<char>, JsonV>, guarded: Seq<Seq<char>>)
    ensures
        (forall|i: int| 0 <= i < xs.len() ==> resolved(#[trigger] xs[i], outputs, guarded) is Ok)
            <==> resolved_list(xs, outputs, guarded) is Ok,
        resolved_list(xs, outputs, guarded) matches Ok(ys) ==> ys.len() == xs.len() && forall|
            i: int,
        |
            0 <= i < xs.len() ==> resolved(#[trigger] xs[i], outputs, guarded) == Ok::<
                JsonV,
                Seq<char>,
            >(ys[i]),
    decreases xs.len(),
{
    if xs.len() > 0 {
        let d = xs.drop_last();
        list_resolves(d, outputs, guarded);
        assert(forall|i: int| 0 <= i < d.len() ==> d[i] == xs[i]);
        let last = xs[xs.len() - 1];
        if forall|i: int| 0 <= i < xs.len() ==> resolved(#[trigger] xs[i], outputs, guarded) is Ok {
            assert(forall|i: int| 0 <= i < d.len() ==> resolved(#[trigger] d[i], outputs, guarded) is Ok);
        }
        if resolved_list(xs, outputs, guarded) is Ok {
            assert(resolved_list(d, outputs, guarded) is Ok);
            assert forall|i: int| 0 <= i < xs.len() implies resolved(
                #[trigger] xs[i],
                outputs,
                guarded,
            ) == Ok::<JsonV, Seq<char>>(resolved_list(xs, outputs, guarded)->Ok_0[i]) by {
                if i < d.len() {
                    assert(d[i] == xs[i]);
                }
            }
        }
    }
}

/// Every argument of a call keeps its name and its place, and has the value it resolves to; where
/// one cannot be resolved, there is no call.
pub proof fn a_call_has_every_argument(
    xs: Seq<(Seq<char>, ArgV)>,
    outputs: Map<Seq<char>, JsonV>,
    guarded: Seq<Seq<char>>,
)
    ensures
        (forall|i: int| 0 <= i < xs.len() ==> resolved((#[trigger] xs[i]).1, outputs, guarded) is Ok)
            <==> resolved_args(xs, outputs, guarded) is Ok,
        resolved_args(xs, outputs, guarded) matches Ok(ys) ==> ys.len() == xs.len() && forall|
            i: int,
        |
            0 <= i < xs.len() ==> (#[trigger] xs[i]).0 == ys[i].0 && resolved(
                xs[i].1,
                outputs,
                guarded,
            ) == Ok::<JsonV, Seq<char>>(ys[i].1),
    decreases xs.len(),
{
    if xs.len() > 0 {
        let d = xs.drop_last();
        a_call_has_every_argument(d, outputs, guarded);
        assert(forall|i: int| 0 <= i < d.len() ==> d[i] == xs[i]);
        assert(xs[xs.len() - 1] == xs.last());
        if forall|i: int|
            0 <= i < xs.len() ==> resolved((#[trigger] xs[i]).1, outputs, guarded) is Ok {
            assert(forall|i: int|
                0 <= i < d.len() ==> resolved((#[trigger] d[i]).1, outputs, guarded) is Ok);
        }
        if resolved_args(xs, outputs, guarded) is Ok {
            assert(resolved_args(d, outputs, guarded) is Ok);
            let ys = resolved_args(xs, outputs, guarded)->Ok_0;
            assert forall|i: int| 0 <= i < xs.len() implies (#[trigger] xs[i]).0 == ys[i].0
                && resolved(xs[i].1, outputs, guarded) == Ok::<JsonV, Seq<char>>(ys[i].1) by {
                if i < d.len() {
                    assert(d[i] == xs[i]);
                }
            }
        }
    }
}

} // verus!
