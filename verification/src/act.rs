//! From wants to a plan: what the command line does between reading the wants and running them.

use crate::cli::{
    lint_fail, missing_fail, missing_parameters, plain, wants_rejected, Exit, Fail, FailV,
};
use crate::compile_model::{compiles_to, CompileErrorV, OptionsV};
use crate::compiler::{compile, compile_error_text, CompileError, CompileOptions};
use crate::diff::{shows, too_wide, try_order, Tried};
use crate::intent::{Constraints, Intent, IntentV};
use crate::json::JsonV;
use crate::lint::{errs_view, lint, lints_to, LintErrorV};
use crate::object::{one_entry, text_json};
use crate::plan::{Plan, PlanV};
use crate::pred::{args_view, Val, ValV};
use crate::recipes::{fill, filled, placeholders, placeholders_of};
use crate::text::{owned, views};
use crate::world::{World, WorldV};
use vstd::prelude::*;

verus! {

/// The wants with the given values in place of their placeholders, or that some are still open.
pub open spec fn taken(
    goal: Seq<char>,
    raw: Seq<Seq<char>>,
    bind: Seq<(Seq<char>, ValV)>,
) -> Result<IntentV, FailV> {
    let wants = filled(raw, bind);
    let open = placeholders_of(wants);
    if open.len() > 0 {
        Err(missing_fail(open))
    } else {
        Ok(
            IntentV {
                goal,
                wants,
                constraints: Constraints { external_ok: true, spend_max_cents: None },
                forks: Seq::empty(),
            },
        )
    }
}

pub open spec fn taken_view(r: Result<Intent, Fail>) -> Result<IntentV, FailV> {
    match r {
        Ok(i) => Ok(i@),
        Err(f) => Err(f@),
    }
}

/// The intent behind raw wants: a recipe keeps its placeholders, and the given values fill them in
/// for this run.
pub fn take_wants(goal: &str, raw: &Vec<String>, bind: &Vec<(String, Val)>) -> (r: Result<
    Intent,
    Fail,
>)
    ensures
        taken_view(r) == taken(goal@, views(raw@), args_view(bind@)),
{
    let wants = fill(raw, bind);
    let open = placeholders(&wants);
    assert(views(open@).len() == open@.len());
    if open.len() > 0 {
        return Err(missing_parameters(&open));
    }
    let i = Intent {
        goal: owned(goal),
        wants,
        constraints: Constraints { external_ok: true, spend_max_cents: None },
        forks: Vec::new(),
    };
    assert(i@.forks =~= Seq::empty());
    Ok(i)
}

/// A refusal by the compiler, as a failure of the request.
pub open spec fn compile_fail(code: Seq<char>, e: CompileErrorV) -> FailV {
    FailV {
        detail: JsonV::Obj(seq![("error"@, JsonV::Str(compile_error_text(e)))]),
        ..plain(Exit::WantsRejected, code, compile_error_text(e))
    }
}

fn refused_with(code: &'static str, e: &CompileError) -> (r: Fail)
    ensures
        r@ == compile_fail(code@, e@),
{
    let t = e.to_string();
    let d = one_entry("error", text_json(t.as_str()));
    Fail::new(Exit::WantsRejected, code, t).with(d)
}

/// Whether this is what asking for a plan of an intent comes to: the compiled plan where the wants
/// hold up, what is wrong with them where they do not.
pub open spec fn planned(
    i: IntentV,
    w: WorldV,
    o: OptionsV,
    r: Result<PlanV, FailV>,
) -> bool {
    exists|errs: Seq<LintErrorV>|
        {
            &&& #[trigger] lints_to(i, w, o, errs)
            &&& errs.len() > 0 ==> r == Err::<PlanV, FailV>(lint_fail(errs))
            &&& errs.len() == 0 ==> compiled(i, w, o, r)
        }
}

/// Whether this is what compiling an intent comes to.
pub open spec fn compiled(i: IntentV, w: WorldV, o: OptionsV, r: Result<PlanV, FailV>) -> bool {
    match r {
        Ok(p) => compiles_to(i, w, o, Ok(p)),
        Err(f) => exists|e: CompileErrorV| #[trigger]
            compiles_to(i, w, o, Err(e)) && f == compile_fail("compile_failed"@, e),
    }
}

pub open spec fn planned_view(r: Result<Plan, Fail>) -> Result<PlanV, FailV> {
    match r {
        Ok(p) => Ok(p@),
        Err(f) => Err(f@),
    }
}

/// Compile an intent that was accepted before: one that is picked up again, or one whose question
/// was answered.
pub fn recompile(intent: &Intent, world: &World, opts: &CompileOptions) -> (r: Result<Plan, Fail>)
    ensures
        compiled(intent@, world@, opts@, planned_view(r)),
{
    match compile(intent, world, opts) {
        Ok(p) => Ok(p),
        Err(e) => {
            assert(compiles_to(intent@, world@, opts@, Err(e@)));
            Err(refused_with("compile_failed", &e))
        },
    }
}

/// Check the wants, and compile them where they hold up.
pub fn plan_wants(intent: &Intent, world: &World, opts: &CompileOptions) -> (r: Result<Plan, Fail>)
    ensures
        planned(intent@, world@, opts@, planned_view(r)),
{
    let errs = lint(intent, world, opts);
    let ghost ev = errs_view(errs@);
    assert(ev.len() == errs@.len());
    assert(lints_to(intent@, world@, opts@, ev));
    if errs.len() > 0 {
        return Err(wants_rejected(&errs));
    }
    recompile(intent, world, opts)
}

/// What trying the other order comes to: the plan and what changes, or which way round the wants
/// do not compile.
pub open spec fn order_tried(t: Tried) -> Result<(PlanV, Seq<Seq<char>>), FailV> {
    match t {
        Tried::Refused(e) => Err(compile_fail("compile_failed"@, e@)),
        Tried::RefusedReversed(e) => Err(compile_fail("compile_failed_reversed"@, e@)),
        Tried::Compared(p, d) => Ok((p@, views(d@))),
    }
}

pub open spec fn order_view(r: Result<(Plan, Vec<String>), Fail>) -> Result<
    (PlanV, Seq<Seq<char>>),
    FailV,
> {
    match r {
        Ok((p, d)) => Ok((p@, views(d@))),
        Err(f) => Err(f@),
    }
}

/// Try the wants the other way round. None where a plan is too wide to be measured.
pub fn check_order(intent: &Intent, world: &World, opts: &CompileOptions) -> (r: Option<
    Result<(Plan, Vec<String>), Fail>,
>)
    ensures
        match r {
            None => too_wide(intent@, world@, opts@) || too_wide(
                crate::diff::reversed(intent@),
                world@,
                opts@,
            ),
            Some(x) => exists|t: Tried| #[trigger]
                shows(intent@, world@, opts@, t) && order_view(x) == order_tried(t),
        },
{
    match try_order(intent, world, opts) {
        None => None,
        Some(t) => {
            let ghost was = t;
            let x: Result<(Plan, Vec<String>), Fail> = match t {
                Tried::Refused(e) => Err(refused_with("compile_failed", &e)),
                Tried::RefusedReversed(e) => Err(refused_with("compile_failed_reversed", &e)),
                Tried::Compared(p, d) => Ok((p, d)),
            };
            assert(shows(intent@, world@, opts@, was) && order_view(x) == order_tried(was));
            Some(x)
        },
    }
}

/// What is planned passed the checks: a plan is handed out only of wants that hold up, and it is
/// their compiled plan.
pub proof fn only_sound_wants_are_planned(i: IntentV, w: WorldV, o: OptionsV, p: PlanV)
    requires
        planned(i, w, o, Ok(p)),
    ensures
        compiles_to(i, w, o, Ok(p)),
        lints_to(i, w, o, Seq::empty()),
{
    let errs = choose|errs: Seq<LintErrorV>|
        {
            &&& #[trigger] lints_to(i, w, o, errs)
            &&& errs.len() > 0 ==> Ok::<PlanV, FailV>(p) == Err::<PlanV, FailV>(lint_fail(errs))
            &&& errs.len() == 0 ==> compiled(i, w, o, Ok(p))
        };
    assert(errs =~= Seq::empty());
}

} // verus!
