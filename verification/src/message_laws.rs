//! Every error names what it is about.

use crate::compile_model::CompileErrorV;
use crate::compiler::compile_error_text;
use crate::cut::occurs;
use crate::domain::{error_message, DomainErrorV};
use crate::effect::{effect_error_text, EffectErrorV};
use crate::events::{bus_error_text, BusErrorV};
use crate::lint::{lint_at, lint_code, lint_error_text, lint_want, LintErrorV};
use crate::planner::{answer_after, fork_text, preamble, Turn, VerdictV};
use crate::pred_parse::ParseErrorV;
use crate::pred_print::parse_error_text;
use crate::scheduler::{gave_up, wait_text, FailureV, NextV};
use crate::text::dec;
use crate::text_laws::a_text_occurs_where_it_stands;
use crate::world::WorldV;
use vstd::prelude::*;

verus! {

proof fn at_the_end(a: Seq<char>, x: Seq<char>)
    ensures
        occurs(a + x, x),
{
    assert(a + x =~= a + x + Seq::<char>::empty());
    a_text_occurs_where_it_stands(a, x, Seq::empty());
}

proof fn at_the_start(x: Seq<char>, a: Seq<char>)
    ensures
        occurs(x + a, x),
{
    assert(x + a =~= Seq::<char>::empty() + x + a);
    a_text_occurs_where_it_stands(Seq::empty(), x, a);
}

proof fn one_before(a: Seq<char>, x: Seq<char>, b: Seq<char>, c: Seq<char>)
    ensures
        occurs(a + x + b + c, x),
{
    assert(a + x + b + c =~= a + x + (b + c));
    a_text_occurs_where_it_stands(a, x, b + c);
}

proof fn two_before(a: Seq<char>, x: Seq<char>, b: Seq<char>, c: Seq<char>, d: Seq<char>)
    ensures
        occurs(a + x + b + c + d, x),
{
    assert(a + x + b + c + d =~= a + x + (b + c + d));
    a_text_occurs_where_it_stands(a, x, b + c + d);
}

// ---------- refusals of the world ----------

/// A refusal names the thing that it is about.
pub proof fn a_refusal_names_its_subject(what: Seq<char>, id: u64, name: Seq<char>, n: usize)
    ensures
        occurs(error_message(DomainErrorV::NotFound(what, id)), what),
        occurs(error_message(DomainErrorV::NotFound(what, id)), dec(id as nat)),
        occurs(error_message(DomainErrorV::NotApproved(id)), dec(id as nat)),
        occurs(error_message(DomainErrorV::NotPaid(id)), dec(id as nat)),
        occurs(error_message(DomainErrorV::Ambiguous(name, n)), name),
        occurs(error_message(DomainErrorV::Ambiguous(name, n)), dec(n as nat)),
        occurs(
            error_message(DomainErrorV::RateLimited { retry_after_ms: id }),
            dec(id as nat),
        ),
{
    let k = dec(id as nat);
    at_the_start(what, " "@ + k + " not found"@);
    assert(what + (" "@ + k + " not found"@) =~= what + " "@ + k + " not found"@);
    a_text_occurs_where_it_stands(what + " "@, k, " not found"@);
    a_text_occurs_where_it_stands("invoice "@, k, " is not approved; approval is UI-only"@);
    a_text_occurs_where_it_stands("invoice "@, k, " has no payment yet"@);
    let m = dec(n as nat);
    a_text_occurs_where_it_stands(m + " customers match '"@, name, "'"@);
    at_the_start(m, " customers match '"@ + name + "'"@);
    assert(m + (" customers match '"@ + name + "'"@) =~= m + " customers match '"@ + name + "'"@);
    a_text_occurs_where_it_stands("chaos: rate limited, retry after "@, k, " ms"@);
}

// ---------- wants and plans ----------

/// An error of the compiler names what it could not do.
pub proof fn a_compile_error_names_its_subject(
    k: Seq<char>,
    o: Seq<char>,
    ss: Seq<Seq<char>>,
    e: ParseErrorV,
)
    ensures
        occurs(compile_error_text(CompileErrorV::Unsatisfiable(k)), k),
        occurs(compile_error_text(CompileErrorV::NoSurface(o, ss)), o),
        occurs(compile_error_text(CompileErrorV::Unbound(k, o)), k),
        occurs(compile_error_text(CompileErrorV::Unbound(k, o)), o),
        occurs(compile_error_text(CompileErrorV::Cycle(k)), k),
        occurs(compile_error_text(CompileErrorV::Parse(k, e)), k),
        occurs(compile_error_text(CompileErrorV::Parse(k, e)), parse_error_text(e)),
{
    a_text_occurs_where_it_stands("nothing in the world model can make '"@, k, "' true"@);
    one_before(
        "operation "@,
        o,
        " has no available surface among "@,
        crate::text::debug_list_text(ss),
    );
    two_before("argument '"@, k, "' of "@, o, " is unbound"@);
    a_text_occurs_where_it_stands("argument '"@ + k + "' of "@, o, " is unbound"@);
    at_the_end("the plan has a cycle: "@, k);
    one_before("cannot parse want '"@, k, "': "@, parse_error_text(e));
    at_the_end("cannot parse want '"@ + k + "': "@, parse_error_text(e));
}

/// A complaint about a want names the want, and what in it is wrong.
pub proof fn a_complaint_names_its_want(
    want: Seq<char>,
    entity: Seq<char>,
    field: Seq<char>,
    e: ParseErrorV,
)
    ensures
        occurs(lint_error_text(LintErrorV::Unparseable { want, source: e }), want),
        occurs(lint_error_text(LintErrorV::VariableInWant { want }), want),
        occurs(lint_error_text(LintErrorV::UnknownEntity { want, entity }), want),
        occurs(lint_error_text(LintErrorV::UnknownEntity { want, entity }), entity),
        occurs(lint_error_text(LintErrorV::UnknownField { want, entity, field }), want),
        occurs(lint_error_text(LintErrorV::UnknownField { want, entity, field }), field),
        occurs(lint_error_text(LintErrorV::WantsAnEntityThatAlreadyExists { want }), want),
        occurs(lint_error_text(LintErrorV::Unsatisfiable { reason: want }), want),
{
    let q = "want '"@;
    one_before(q, want, "' does not parse: "@, parse_error_text(e));
    a_text_occurs_where_it_stands(q, want, "' uses a variable; wants must be concrete"@);
    two_before(q, want, "' names an unknown entity '"@, entity, "'"@);
    a_text_occurs_where_it_stands(q + want + "' names an unknown entity '"@, entity, "'"@);
    let z = "', which does not exist"@;
    let t = q + want + "' asks about '"@ + entity + "."@ + field + z;
    assert(t =~= q + want + ("' asks about '"@ + entity + "."@ + field + z));
    a_text_occurs_where_it_stands(q, want, "' asks about '"@ + entity + "."@ + field + z);
    a_text_occurs_where_it_stands(q + want + "' asks about '"@ + entity + "."@, field, z);
    a_text_occurs_where_it_stands(
        q,
        want,
        "' asks for an entity that already exists and is found, never made; refer to it inside another predicate"@,
    );
    at_the_end("intent cannot be compiled: "@, want);
}

/// Each sort of complaint has a name of its own, and is about its want.
pub proof fn complaints_are_told_apart(a: LintErrorV, b: LintErrorV)
    ensures
        lint_code(a) == lint_code(b) ==> {
            &&& a is Unparseable <==> b is Unparseable
            &&& a is VariableInWant <==> b is VariableInWant
            &&& a is UnknownEntity <==> b is UnknownEntity
            &&& a is UnknownField <==> b is UnknownField
            &&& a is WantsAnEntityThatAlreadyExists <==> b is WantsAnEntityThatAlreadyExists
            &&& a is Unsatisfiable <==> b is Unsatisfiable
            &&& a is Empty <==> b is Empty
        },
        lint_want(a) is None <==> a is Unsatisfiable || a is Empty,
        a matches LintErrorV::VariableInWant { want } ==> lint_want(a) == Some(want),
        a matches LintErrorV::UnknownEntity { want, .. } ==> lint_want(a) == Some(want),
        a matches LintErrorV::UnknownField { want, .. } ==> lint_want(a) == Some(want),
        a matches LintErrorV::Unparseable { want, .. } ==> lint_want(a) == Some(want),
        lint_at(a) is Some ==> a is Unparseable,
{
    reveal_strlit("unparseable");
    reveal_strlit("variable_in_want");
    reveal_strlit("unknown_entity");
    reveal_strlit("unknown_field");
    reveal_strlit("wants_an_entity_that_already_exists");
    reveal_strlit("unsatisfiable");
    reveal_strlit("empty");
    assert("unparseable"@.len() == 11);
    assert("variable_in_want"@.len() == 16);
    assert("unknown_entity"@.len() == 14);
    assert("unknown_field"@.len() == 13);
    assert("wants_an_entity_that_already_exists"@.len() == 35);
    assert("unsatisfiable"@.len() == 13);
    assert("empty"@.len() == 5);
    assert("unknown_field"@[2] == 'k' && "unsatisfiable"@[2] == 's');
}

// ---------- attempts ----------

/// A failed effect says what went wrong, and a wait that ran out says what it waited for.
pub proof fn a_failure_says_what_went_wrong(m: Seq<char>, ms: u64, op: Seq<char>, id: u64, n: u32)
    ensures
        occurs(effect_error_text(EffectErrorV::Retryable(m)), m),
        occurs(effect_error_text(EffectErrorV::Throttled(ms, m)), m),
        occurs(effect_error_text(EffectErrorV::Fatal(m)), m),
        occurs(wait_text(op, Some(id)), op),
        occurs(wait_text(op, Some(id)), dec(id as nat)),
        occurs(wait_text(op, None), op),
        bus_error_text(BusErrorV::Timeout { kind: op, id: Some(id) }) == wait_text(op, Some(id)),
        gave_up(n, m) matches NextV::Fail(FailureV::Fatal(t)) && occurs(t, m) && occurs(
            t,
            dec(n as nat),
        ),
{
    at_the_end("retryable: "@, m);
    at_the_end("throttled: "@, m);
    at_the_end("fatal: "@, m);
    let w = "timed out waiting for "@;
    let k = dec(id as nat);
    assert(wait_text(op, Some(id)) =~= w + op + (" id="@ + k));
    a_text_occurs_where_it_stands(w, op, " id="@ + k);
    assert(w + op + (" id="@ + k) =~= w + op + " id="@ + k);
    at_the_end(w + op + " id="@, k);
    a_text_occurs_where_it_stands(w, op, Seq::empty());
    let g = "gave up after "@;
    one_before(g, dec(n as nat), " attempts: "@, m);
    at_the_end(g + dec(n as nat) + " attempts: "@, m);
}

// ---------- questions ----------

/// A planner that is asked about a fork sees the question and the evidence.
pub proof fn a_fork_is_told_with_its_evidence(
    w: WorldV,
    facts: Seq<char>,
    goal: Seq<char>,
    question: Seq<char>,
    evidence: Seq<char>,
    wants: Seq<Seq<char>>,
)
    ensures
        occurs(fork_text(w, facts, goal, question, evidence, wants), question),
        occurs(fork_text(w, facts, goal, question, evidence, wants), evidence),
{
    let p = preamble(w, facts, goal)
        + "\n\nThe plan compiled from your intent stopped with a question:\n  "@;
    let m = "\nEvidence:\n"@;
    let h = "\n\nYour intent was:\n"@;
    let l = crate::cut::joined(crate::planner::want_lines(wants), "\n"@);
    let z = "\n\nAnswer by emitting the intent again with emit_intent. Rules: identify the chosen entity by id, e.g. customer(id=11), in every want that referred to the ambiguous one; keep every other want exactly as it was, character for character; if the ask.goal gives no basis to choose, choose the lowest id and say nothing else."@;
    let t = fork_text(w, facts, goal, question, evidence, wants);
    assert(t == p + question + m + evidence + h + l + z);
    told(p, question, m, evidence, h, l, z);
}

proof fn told(
    p: Seq<char>,
    q: Seq<char>,
    m: Seq<char>,
    e: Seq<char>,
    h: Seq<char>,
    l: Seq<char>,
    z: Seq<char>,
)
    ensures
        occurs(p + q + m + e + h + l + z, q),
        occurs(p + q + m + e + h + l + z, e),
{
    let t = p + q + m + e + h + l + z;
    assert(t =~= p + q + (m + e + h + l + z));
    a_text_occurs_where_it_stands(p, q, m + e + h + l + z);
    assert(t =~= (p + q + m) + e + (h + l + z));
    a_text_occurs_where_it_stands(p + q + m, e, h + l + z);
}

/// An answer that is asked for again stays of its kind, and is counted.
pub proof fn an_answer_is_counted(t: Turn, v: VerdictV)
    requires
        t.reasks < u32::MAX,
    ensures
        answer_after(t, v).kind == t.kind,
        v is AskAgain ==> answer_after(t, v).reasks == t.reasks + 1,
        !(v is AskAgain) ==> answer_after(t, v) == t,
{
}

} // verus!
