//! Checking an intent against the world model before anything is spent on it.

use crate::compile_laws::compiling_is_determined;
use crate::compile_model::{compiles_to, CompileErrorV, OptionsV};
use crate::compiler::{compile, compile_error_text, CompileError, CompileOptions};
use crate::intent::{Intent, IntentV};
use crate::plan::PlanV;
use crate::pred::{args_view, existence, vals_view, Pred, PredV, Val, ValV};
use crate::pred_parse::{parse_spec, ParseError, ParseErrorV};
use crate::pred_print::parse_error_text;
use crate::text::{list_has, owned, same, views};
use crate::validate::{pred_vars, vars_in_pred};
use crate::world::{find_entity, EntityV, OpV, World, WorldV};
use vstd::prelude::*;

verus! {

/// Why an intent cannot be trusted yet. Returned to the planner once, verbatim.
#[derive(Debug, PartialEq)]
pub enum LintError {
    Unparseable { want: String, source: ParseError },
    VariableInWant { want: String },
    UnknownEntity { want: String, entity: String },
    UnknownField { want: String, entity: String, field: String },
    WantsAnEntityThatAlreadyExists { want: String },
    Unsatisfiable { reason: String },
    Empty,
}

/// The mathematical content of a `LintError`.
pub enum LintErrorV {
    Unparseable { want: Seq<char>, source: ParseErrorV },
    VariableInWant { want: Seq<char> },
    UnknownEntity { want: Seq<char>, entity: Seq<char> },
    UnknownField { want: Seq<char>, entity: Seq<char>, field: Seq<char> },
    WantsAnEntityThatAlreadyExists { want: Seq<char> },
    Unsatisfiable { reason: Seq<char> },
    Empty,
}

impl View for LintError {
    type V = LintErrorV;

    open spec fn view(&self) -> LintErrorV {
        match self {
            LintError::Unparseable { want, source } => LintErrorV::Unparseable {
                want: want@,
                source: source@,
            },
            LintError::VariableInWant { want } => LintErrorV::VariableInWant { want: want@ },
            LintError::UnknownEntity { want, entity } => LintErrorV::UnknownEntity {
                want: want@,
                entity: entity@,
            },
            LintError::UnknownField { want, entity, field } => LintErrorV::UnknownField {
                want: want@,
                entity: entity@,
                field: field@,
            },
            LintError::WantsAnEntityThatAlreadyExists {
                want,
            } => LintErrorV::WantsAnEntityThatAlreadyExists { want: want@ },
            LintError::Unsatisfiable { reason } => LintErrorV::Unsatisfiable { reason: reason@ },
            LintError::Empty => LintErrorV::Empty,
        }
    }
}

pub open spec fn errs_view(es: Seq<LintError>) -> Seq<LintErrorV> {
    es.map_values(|e: LintError| e@)
}

/// The error in words.
pub open spec fn lint_error_text(e: LintErrorV) -> Seq<char> {
    match e {
        LintErrorV::Unparseable { want, source } => "want '"@ + want + "' does not parse: "@
            + parse_error_text(source),
        LintErrorV::VariableInWant { want } => "want '"@ + want
            + "' uses a variable; wants must be concrete"@,
        LintErrorV::UnknownEntity { want, entity } => "want '"@ + want
            + "' names an unknown entity '"@ + entity + "'"@,
        LintErrorV::UnknownField { want, entity, field } => "want '"@ + want + "' asks about '"@
            + entity + "."@ + field + "', which does not exist"@,
        LintErrorV::WantsAnEntityThatAlreadyExists { want } => "want '"@ + want
            + "' asks for an entity that already exists and is found, never made; refer to it inside another predicate"@,
        LintErrorV::Unsatisfiable { reason } => "intent cannot be compiled: "@ + reason,
        LintErrorV::Empty => "intent has no wants; every goal needs at least one fact that must become true"@,
    }
}

/// A stable name to branch on.
pub open spec fn lint_code(e: LintErrorV) -> Seq<char> {
    match e {
        LintErrorV::Unparseable { .. } => "unparseable"@,
        LintErrorV::VariableInWant { .. } => "variable_in_want"@,
        LintErrorV::UnknownEntity { .. } => "unknown_entity"@,
        LintErrorV::UnknownField { .. } => "unknown_field"@,
        LintErrorV::WantsAnEntityThatAlreadyExists { .. } => "wants_an_entity_that_already_exists"@,
        LintErrorV::Unsatisfiable { .. } => "unsatisfiable"@,
        LintErrorV::Empty => "empty"@,
    }
}

/// The want that an error is about, where it is about one.
pub open spec fn lint_want(e: LintErrorV) -> Option<Seq<char>> {
    match e {
        LintErrorV::Unparseable { want, .. } => Some(want),
        LintErrorV::VariableInWant { want } => Some(want),
        LintErrorV::UnknownEntity { want, .. } => Some(want),
        LintErrorV::UnknownField { want, .. } => Some(want),
        LintErrorV::WantsAnEntityThatAlreadyExists { want } => Some(want),
        _ => None,
    }
}

/// Where in the want it went wrong, where that is known.
pub open spec fn lint_at(e: LintErrorV) -> Option<int> {
    match e {
        LintErrorV::Unparseable { source, .. } => match source {
            ParseErrorV::Expected { at, .. } => Some(at),
            ParseErrorV::Unexpected { at, .. } => Some(at),
            ParseErrorV::Trailing { at, .. } => Some(at),
            _ => None,
        },
        _ => None,
    }
}

impl LintError {
    /// The error in words.
    pub fn to_string(&self) -> (r: String)
        ensures
            r@ == lint_error_text(self@),
    {
        let mut out = String::new();
        match self {
            LintError::Unparseable { want, source } => {
                out.push_str("want '");
                out.push_str(want.as_str());
                out.push_str("' does not parse: ");
                out.push_str(source.to_string().as_str());
            },
            LintError::VariableInWant { want } => {
                out.push_str("want '");
                out.push_str(want.as_str());
                out.push_str("' uses a variable; wants must be concrete");
            },
            LintError::UnknownEntity { want, entity } => {
                out.push_str("want '");
                out.push_str(want.as_str());
                out.push_str("' names an unknown entity '");
                out.push_str(entity.as_str());
                out.push_str("'");
            },
            LintError::UnknownField { want, entity, field } => {
                out.push_str("want '");
                out.push_str(want.as_str());
                out.push_str("' asks about '");
                out.push_str(entity.as_str());
                out.push_str(".");
                out.push_str(field.as_str());
                out.push_str("', which does not exist");
            },
            LintError::WantsAnEntityThatAlreadyExists { want } => {
                out.push_str("want '");
                out.push_str(want.as_str());
                out.push_str(
                    "' asks for an entity that already exists and is found, never made; refer to it inside another predicate",
                );
            },
            LintError::Unsatisfiable { reason } => {
                out.push_str("intent cannot be compiled: ");
                out.push_str(reason.as_str());
            },
            LintError::Empty => {
                out.push_str(
                    "intent has no wants; every goal needs at least one fact that must become true",
                );
            },
        }
        assert(out@ =~= lint_error_text(self@));
        out
    }

    /// A stable name to branch on.
    pub fn code(&self) -> (r: &'static str)
        ensures
            r@ == lint_code(self@),
    {
        match self {
            LintError::Unparseable { .. } => "unparseable",
            LintError::VariableInWant { .. } => "variable_in_want",
            LintError::UnknownEntity { .. } => "unknown_entity",
            LintError::UnknownField { .. } => "unknown_field",
            LintError::WantsAnEntityThatAlreadyExists { .. } => "wants_an_entity_that_already_exists",
            LintError::Unsatisfiable { .. } => "unsatisfiable",
            LintError::Empty => "empty",
        }
    }

    /// The want that the error is about.
    pub fn want(&self) -> (r: Option<&str>)
        ensures
            match r {
                Some(w) => lint_want(self@) == Some(w@),
                None => lint_want(self@) is None,
            },
    {
        match self {
            LintError::Unparseable { want, .. } => Some(want.as_str()),
            LintError::VariableInWant { want } => Some(want.as_str()),
            LintError::UnknownEntity { want, .. } => Some(want.as_str()),
            LintError::UnknownField { want, .. } => Some(want.as_str()),
            LintError::WantsAnEntityThatAlreadyExists { want } => Some(want.as_str()),
            _ => None,
        }
    }

    /// Where in the want it went wrong, counted in bytes.
    pub fn at(&self) -> (r: Option<usize>)
        ensures
            match r {
                Some(i) => lint_at(self@) == Some(i as int),
                None => lint_at(self@) is None,
            },
    {
        match self {
            LintError::Unparseable { source, .. } => match source {
                ParseError::Expected { at, .. } => Some(*at),
                ParseError::Unexpected { at, .. } => Some(*at),
                ParseError::Trailing { at, .. } => Some(*at),
                _ => None,
            },
            _ => None,
        }
    }
}

// ---------- what is wrong with a want ----------

/// What is wrong with the entity and the field of a predicate.
pub open spec fn subject_error(es: Seq<EntityV>, want: Seq<char>, p: PredV) -> Seq<LintErrorV> {
    match find_entity(es, p.entity) {
        None => seq![LintErrorV::UnknownEntity { want, entity: p.entity }],
        Some(e) => if p.field.len() > 0 && !existence(p.field) && !e.fields.contains(p.field) {
            seq![LintErrorV::UnknownField { want, entity: p.entity, field: p.field }]
        } else {
            Seq::empty()
        },
    }
}

/// What is wrong with a predicate and the entities named inside it, outermost first.
pub open spec fn pred_errors(es: Seq<EntityV>, want: Seq<char>, p: PredV) -> Seq<LintErrorV>
    decreases p,
{
    subject_error(es, want, p) + args_errors(es, want, p.args)
}

pub open spec fn args_errors(
    es: Seq<EntityV>,
    want: Seq<char>,
    xs: Seq<(Seq<char>, ValV)>,
) -> Seq<LintErrorV>
    decreases xs,
{
    if xs.len() == 0 {
        Seq::empty()
    } else {
        args_errors(es, want, xs.drop_last()) + val_errors(es, want, xs[xs.len() - 1].1)
    }
}

pub open spec fn val_errors(es: Seq<EntityV>, want: Seq<char>, v: ValV) -> Seq<LintErrorV>
    decreases v,
{
    match v {
        ValV::Entity(p) => pred_errors(es, want, *p),
        ValV::List(xs) => list_errors(es, want, xs),
        ValV::Each(xs) => list_errors(es, want, xs),
        ValV::All(x) => val_errors(es, want, *x),
        _ => Seq::empty(),
    }
}

pub open spec fn list_errors(es: Seq<EntityV>, want: Seq<char>, xs: Seq<ValV>) -> Seq<LintErrorV>
    decreases xs,
{
    if xs.len() == 0 {
        Seq::empty()
    } else {
        list_errors(es, want, xs.drop_last()) + val_errors(es, want, xs[xs.len() - 1])
    }
}

/// Whether an operation finds that entity, so that nothing makes it.
pub open spec fn finds(o: OpV, entity: Seq<char>) -> bool {
    (o.post matches Some(p) && p.field == "resolved"@) && o.produces == Some(entity)
}

pub open spec fn found_never_made(ops: Seq<OpV>, entity: Seq<char>) -> bool {
    exists|i: int| 0 <= i < ops.len() && finds(#[trigger] ops[i], entity)
}

/// What is wrong with a want.
pub open spec fn want_errors(w: WorldV, want: Seq<char>) -> Seq<LintErrorV> {
    match parse_spec(want) {
        Err(source) => seq![LintErrorV::Unparseable { want, source }],
        Ok(p) => (if vars_in_pred(p).len() > 0 {
            seq![LintErrorV::VariableInWant { want }]
        } else {
            Seq::empty()
        }) + pred_errors(w.entities, want, p) + (if existence(p.field) && found_never_made(
            w.ops,
            p.entity,
        ) {
            seq![LintErrorV::WantsAnEntityThatAlreadyExists { want }]
        } else {
            Seq::empty()
        }),
    }
}

pub open spec fn wants_errors(w: WorldV, wants: Seq<Seq<char>>) -> Seq<LintErrorV>
    decreases wants.len(),
{
    if wants.len() == 0 {
        Seq::empty()
    } else {
        wants_errors(w, wants.drop_last()) + want_errors(w, wants.last())
    }
}

/// Why an intent did not compile, in words.
pub open spec fn refusal(e: CompileErrorV) -> Seq<char> {
    match e {
        CompileErrorV::Parse(w, e) => w + ": "@ + parse_error_text(e),
        _ => compile_error_text(e),
    }
}

/// What linting reports of an outcome of compiling.
pub open spec fn compile_errors(r: Result<PlanV, CompileErrorV>) -> Seq<LintErrorV> {
    match r {
        Ok(_) => Seq::empty(),
        Err(e) => seq![LintErrorV::Unsatisfiable { reason: refusal(e) }],
    }
}

/// Whether `errs` is what linting an intent gives.
pub open spec fn lints_to(
    intent: IntentV,
    world: WorldV,
    opts: OptionsV,
    errs: Seq<LintErrorV>,
) -> bool {
    if intent.wants.len() == 0 {
        errs == seq![LintErrorV::Empty]
    } else if wants_errors(world, intent.wants).len() > 0 {
        errs == wants_errors(world, intent.wants)
    } else {
        exists|r: Result<PlanV, CompileErrorV>| #[trigger]
            compiles_to(intent, world, opts, r) && errs == compile_errors(r)
    }
}

// ---------- finding it ----------

fn report(out: &mut Vec<LintError>, e: LintError)
    ensures
        errs_view(final(out)@) == errs_view(old(out)@).push(e@),
        errs_view(final(out)@) == errs_view(old(out)@) + seq![e@],
{
    let ghost before = errs_view(out@);
    out.push(e);
    assert(errs_view(out@) =~= before.push(e@));
    assert(errs_view(out@) =~= before + seq![e@]);
}

fn lint_list(world: &World, want: &str, xs: &Vec<Val>, out: &mut Vec<LintError>)
    ensures
        errs_view(final(out)@) == errs_view(old(out)@) + list_errors(
            world@.entities,
            want@,
            vals_view(xs@),
        ),
    decreases xs,
{
    let ghost before = errs_view(out@);
    let ghost vs = vals_view(xs@);
    let ghost es = world@.entities;
    let mut i: usize = 0;
    assert(before + list_errors(es, want@, vs.take(0)) =~= before);
    while i < xs.len()
        invariant
            i <= xs@.len(),
            es == world@.entities,
            vs == vals_view(xs@),
            errs_view(out@) == before + list_errors(es, want@, vs.take(i as int)),
        decreases xs@.len() - i,
    {
        lint_val(world, want, &xs[i], out);
        proof {
            let p = vs.take(i + 1);
            assert(p.drop_last() =~= vs.take(i as int));
            assert(p[p.len() - 1] == xs@[i as int]@);
        }
        i += 1;
        assert(errs_view(out@) =~= before + list_errors(es, want@, vs.take(i as int)));
    }
    assert(vs.take(i as int) =~= vs);
}

fn lint_val(world: &World, want: &str, v: &Val, out: &mut Vec<LintError>)
    ensures
        errs_view(final(out)@) == errs_view(old(out)@) + val_errors(world@.entities, want@, v@),
    decreases v,
{
    match v {
        Val::Entity(p) => lint_pred(world, want, p, out),
        Val::List(xs) => lint_list(world, want, xs, out),
        Val::Each(xs) => lint_list(world, want, xs, out),
        Val::All(x) => lint_val(world, want, x, out),
        _ => {
            assert(errs_view(out@) + Seq::<LintErrorV>::empty() =~= errs_view(out@));
        },
    }
}

fn lint_pred(world: &World, want: &str, p: &Pred, out: &mut Vec<LintError>)
    ensures
        errs_view(final(out)@) == errs_view(old(out)@) + pred_errors(world@.entities, want@, p@),
    decreases p,
{
    let ghost start = errs_view(out@);
    let ghost es = world@.entities;
    match world.entity(p.entity.as_str()) {
        None => {
            report(
                out,
                LintError::UnknownEntity { want: owned(want), entity: p.entity.clone() },
            );
        },
        Some(e) => {
            let blank = same(p.field.as_str(), "");
            proof {
                reveal_strlit("");
                if p.field@.len() == 0 {
                    assert(p.field@ =~= ""@);
                }
            }
            if !blank && !p.is_existence() && !list_has(&e.fields, p.field.as_str()) {
                report(
                    out,
                    LintError::UnknownField {
                        want: owned(want),
                        entity: p.entity.clone(),
                        field: p.field.clone(),
                    },
                );
            } else {
                assert(start + Seq::<LintErrorV>::empty() =~= start);
            }
        },
    }
    let ghost before = errs_view(out@);
    assert(before == start + subject_error(es, want@, p@));
    let ghost vs = args_view(p.args@);
    let mut i: usize = 0;
    assert(before + args_errors(es, want@, vs.take(0)) =~= before);
    while i < p.args.len()
        invariant
            i <= p.args@.len(),
            es == world@.entities,
            vs == args_view(p.args@),
            errs_view(out@) == before + args_errors(es, want@, vs.take(i as int)),
            decreases_to!(p => p.args),
        decreases p.args@.len() - i,
    {
        lint_val(world, want, &p.args[i].1, out);
        proof {
            let q = vs.take(i + 1);
            assert(q.drop_last() =~= vs.take(i as int));
            assert(q[q.len() - 1] == (p.args@[i as int].0@, p.args@[i as int].1@));
        }
        i += 1;
        assert(errs_view(out@) =~= before + args_errors(es, want@, vs.take(i as int)));
    }
    assert(vs.take(i as int) =~= vs);
    assert(errs_view(out@) =~= start + pred_errors(es, want@, p@));
}

fn is_found(world: &World, entity: &str) -> (r: bool)
    ensures
        r == found_never_made(world@.ops, entity@),
{
    let ghost os = world@.ops;
    let mut i: usize = 0;
    while i < world.ops.len()
        invariant
            i <= world.ops@.len(),
            os == world@.ops,
            forall|j: int| 0 <= j < i ==> !finds(#[trigger] os[j], entity@),
        decreases world.ops@.len() - i,
    {
        let o = &world.ops[i];
        assert(os[i as int] == o@);
        let resolves = match &o.post {
            Some(p) => same(p.field.as_str(), "resolved"),
            None => false,
        };
        let produces = match &o.produces {
            Some(p) => same(p.as_str(), entity),
            None => false,
        };
        if resolves && produces {
            assert(finds(os[i as int], entity@));
            return true;
        }
        i += 1;
    }
    false
}

fn lint_want_into(world: &World, want: &str, out: &mut Vec<LintError>)
    ensures
        errs_view(final(out)@) == errs_view(old(out)@) + want_errors(world@, want@),
{
    let ghost before = errs_view(out@);
    match Pred::parse(want) {
        Err(source) => {
            report(out, LintError::Unparseable { want: owned(want), source });
        },
        Ok(p) => {
            let vars = pred_vars(&p);
            assert(views(vars@).len() == vars@.len());
            if vars.len() > 0 {
                report(out, LintError::VariableInWant { want: owned(want) });
            }
            lint_pred(world, want, &p, out);
            if p.is_existence() && is_found(world, p.entity.as_str()) {
                report(out, LintError::WantsAnEntityThatAlreadyExists { want: owned(want) });
            }
            assert(errs_view(out@) =~= before + want_errors(world@, want@));
        },
    }
}

/// Why an intent did not compile, in words.
fn refusal_text(e: &CompileError) -> (r: String)
    ensures
        r@ == refusal(e@),
{
    match e {
        CompileError::Parse(w, e) => {
            let mut out = owned(w.as_str());
            out.push_str(": ");
            out.push_str(e.to_string().as_str());
            out
        },
        _ => e.to_string(),
    }
}

/// Check an intent against the world model before spending anything on it.
pub fn lint(intent: &Intent, world: &World, opts: &CompileOptions) -> (r: Vec<LintError>)
    ensures
        lints_to(intent@, world@, opts@, errs_view(r@)),
{
    let mut errs: Vec<LintError> = Vec::new();
    let ghost ws = intent@.wants;
    assert(ws.len() == intent.wants@.len());
    if intent.wants.len() == 0 {
        errs.push(LintError::Empty);
        assert(errs_view(errs@) =~= seq![LintErrorV::Empty]);
        return errs;
    }
    let mut i: usize = 0;
    assert(errs_view(errs@) =~= wants_errors(world@, ws.take(0)));
    while i < intent.wants.len()
        invariant
            i <= intent.wants@.len(),
            ws == views(intent.wants@),
            errs_view(errs@) == wants_errors(world@, ws.take(i as int)),
        decreases intent.wants@.len() - i,
    {
        lint_want_into(world, intent.wants[i].as_str(), &mut errs);
        proof {
            assert(ws.take(i + 1).drop_last() =~= ws.take(i as int));
            assert(ws.take(i + 1).last() == intent.wants@[i as int]@);
        }
        i += 1;
    }
    assert(ws.take(i as int) =~= ws);
    assert(errs_view(errs@).len() == errs@.len());
    if errs.len() == 0 {
        let ghost none = errs_view(errs@);
        assert(none =~= Seq::<LintErrorV>::empty());
        match compile(intent, world, opts) {
            Ok(p) => {
                let ghost r = Ok::<PlanV, CompileErrorV>(p@);
                assert(compiles_to(intent@, world@, opts@, r));
                assert(errs_view(errs@) == compile_errors(r));
            },
            Err(e) => {
                let ghost r = Err::<PlanV, CompileErrorV>(e@);
                assert(compiles_to(intent@, world@, opts@, r));
                report(&mut errs, LintError::Unsatisfiable { reason: refusal_text(&e) });
                assert(errs_view(errs@) =~= compile_errors(r));
            },
        }
    }
    errs
}

/// An intent passes exactly when it has wants, nothing is wrong with any of them, and they
/// compile.
pub proof fn passes_iff_it_compiles(
    intent: IntentV,
    world: WorldV,
    opts: OptionsV,
    errs: Seq<LintErrorV>,
    r: Result<PlanV, CompileErrorV>,
)
    requires
        lints_to(intent, world, opts, errs),
        compiles_to(intent, world, opts, r),
    ensures
        (errs.len() == 0) == (intent.wants.len() > 0 && wants_errors(world, intent.wants).len() == 0
            && r is Ok),
{
    if intent.wants.len() > 0 && wants_errors(world, intent.wants).len() == 0 {
        let q = choose|q: Result<PlanV, CompileErrorV>| #[trigger]
            compiles_to(intent, world, opts, q) && errs == compile_errors(q);
        assert(q is Ok == r is Ok);
    }
}

/// Linting is determined: what is wrong with an intent is always told the same way.
pub proof fn linting_is_determined(
    intent: IntentV,
    world: WorldV,
    opts: OptionsV,
    es: Seq<LintErrorV>,
    fs: Seq<LintErrorV>,
)
    requires
        lints_to(intent, world, opts, es),
        lints_to(intent, world, opts, fs),
    ensures
        es == fs,
{
    if intent.wants.len() > 0 && wants_errors(world, intent.wants).len() == 0 {
        let q = choose|q: Result<PlanV, CompileErrorV>| #[trigger]
            compiles_to(intent, world, opts, q) && es == compile_errors(q);
        let r = choose|r: Result<PlanV, CompileErrorV>| #[trigger]
            compiles_to(intent, world, opts, r) && fs == compile_errors(r);
        compiling_is_determined(intent, world, opts, q, r);
    }
}

} // verus!
