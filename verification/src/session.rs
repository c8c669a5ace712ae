//! One object for planning against an app: its world model and the limits a run may use.

use crate::compile_model::{compiles_to, CompileErrorV, OptionsV};
use crate::compiler::{compile, compile_error_text, CompileError, CompileOptions};
use crate::intent::{Intent, IntentV};
use crate::lint::{errs_view, lint, lints_to, LintError, LintErrorV};
use crate::plan::{Plan, PlanV};
use crate::scheduler::{default_policy, default_pools, Policy, Pools};
use crate::text::{clone_strings, dec, owned, push_dec, views};
use crate::world::{World, WorldV};
use vstd::prelude::*;

verus! {

/// Why a goal did not become a plan. Both halves are worth telling apart: wants that do not hold
/// up are the author's to fix, and an intent that cannot be compiled is the world model's.
#[derive(Debug)]
pub enum PlanError {
    Wants(Vec<LintError>),
    Compile(CompileError),
}

pub enum PlanErrorV {
    Wants(Seq<LintErrorV>),
    Compile(CompileErrorV),
}

impl View for PlanError {
    type V = PlanErrorV;

    open spec fn view(&self) -> PlanErrorV {
        match self {
            PlanError::Wants(es) => PlanErrorV::Wants(errs_view(es@)),
            PlanError::Compile(e) => PlanErrorV::Compile(e@),
        }
    }
}

/// The error in words.
pub open spec fn plan_error_text(e: PlanErrorV) -> Seq<char> {
    match e {
        PlanErrorV::Wants(es) => dec(es.len()) + " want(s) do not hold up"@,
        PlanErrorV::Compile(e) => compile_error_text(e),
    }
}

impl PlanError {
    /// The error in words.
    pub fn to_string(&self) -> (r: String)
        ensures
            r@ == plan_error_text(self@),
    {
        match self {
            PlanError::Wants(es) => {
                assert(errs_view(es@).len() == es@.len());
                let mut out = String::new();
                push_dec(&mut out, es.len() as u128);
                assert(out@ =~= dec(es@.len()));
                out.push_str(" want(s) do not hold up");
                out
            },
            PlanError::Compile(e) => e.to_string(),
        }
    }
}

/// An app, ready to be asked for things.
pub struct Session {
    pub world: World,
    /// Which surfaces a plan may use, and the id its idempotency keys are scoped to.
    pub opts: CompileOptions,
    pub pools: Pools,
    pub policy: Policy,
}

pub struct SessionV {
    pub world: WorldV,
    pub opts: OptionsV,
    pub pools: Seq<(Seq<char>, usize)>,
    pub policy: Policy,
}

impl View for Session {
    type V = SessionV;

    open spec fn view(&self) -> SessionV {
        SessionV {
            world: self.world@,
            opts: self.opts@,
            pools: self.pools@,
            policy: self.policy,
        }
    }
}

/// Whether `r` is what planning an intent gives: what linting reports, or else the plan.
pub open spec fn plans_to(s: SessionV, intent: IntentV, r: Result<PlanV, PlanErrorV>) -> bool {
    match r {
        Ok(p) => lints_to(intent, s.world, s.opts, Seq::empty()) && compiles_to(
            intent,
            s.world,
            s.opts,
            Ok(p),
        ),
        Err(PlanErrorV::Wants(es)) => es.len() > 0 && lints_to(intent, s.world, s.opts, es),
        Err(PlanErrorV::Compile(_)) => false,
    }
}

impl Session {
    /// A world model with no app behind it: enough to lint, compile and inspect, never to run.
    pub fn offline(world: World) -> (r: Session)
        ensures
            r@ == (SessionV {
                world: world@,
                opts: OptionsV { plan_id: "plan"@, surfaces: seq!["api"@] },
                pools: default_pools(),
                policy: default_policy(),
            }),
    {
        Session {
            world,
            opts: CompileOptions::default(),
            pools: Pools::default(),
            policy: Policy::default(),
        }
    }

    /// Which surfaces the plan may use.
    pub fn surfaces(self, surfaces: &Vec<String>) -> (r: Session)
        ensures
            r@ == (SessionV {
                opts: OptionsV { surfaces: views(surfaces@), ..self@.opts },
                ..self@
            }),
    {
        Session {
            opts: CompileOptions {
                plan_id: self.opts.plan_id,
                surfaces: clone_strings(surfaces),
            },
            world: self.world,
            pools: self.pools,
            policy: self.policy,
        }
    }

    /// The name idempotency keys are scoped to. Two runs under the same id share their committed
    /// work; two runs under different ids do not.
    pub fn plan_id(self, id: &str) -> (r: Session)
        ensures
            r@ == (SessionV { opts: OptionsV { plan_id: id@, ..self@.opts }, ..self@ }),
    {
        Session {
            opts: CompileOptions { plan_id: owned(id), surfaces: self.opts.surfaces },
            world: self.world,
            pools: self.pools,
            policy: self.policy,
        }
    }

    pub fn limits(self, pools: Pools, policy: Policy) -> (r: Session)
        ensures
            r@ == (SessionV { pools: pools@, policy, ..self@ }),
    {
        Session { world: self.world, opts: self.opts, pools, policy }
    }

    /// Everything wrong with these wants, against this app, under these surfaces.
    pub fn lint(&self, intent: &Intent) -> (r: Vec<LintError>)
        ensures
            lints_to(intent@, self@.world, self@.opts, errs_view(r@)),
    {
        lint(intent, &self.world, &self.opts)
    }

    /// Lint, then compile. A plan that comes back from here is one this app can carry out.
    pub fn plan(&self, intent: &Intent) -> (r: Result<Plan, PlanError>)
        ensures
            plans_to(
                self@,
                intent@,
                match r {
                    Ok(p) => Ok(p@),
                    Err(e) => Err(e@),
                },
            ),
    {
        let errs = self.lint(intent);
        assert(errs_view(errs@).len() == errs@.len());
        if errs.len() > 0 {
            return Err(PlanError::Wants(errs));
        }
        assert(errs_view(errs@) =~= Seq::<LintErrorV>::empty());
        match compile(intent, &self.world, &self.opts) {
            Ok(p) => Ok(p),
            Err(e) => {
                proof {
                    crate::lint::passes_iff_it_compiles(
                        intent@,
                        self@.world,
                        self@.opts,
                        errs_view(errs@),
                        Err(e@),
                    );
                }
                Err(PlanError::Compile(e))
            },
        }
    }
}

/// What lints clean is planned: planning an intent fails exactly when linting reports something.
pub proof fn clean_intents_are_planned(
    s: SessionV,
    intent: IntentV,
    errs: Seq<LintErrorV>,
    r: Result<PlanV, PlanErrorV>,
)
    requires
        lints_to(intent, s.world, s.opts, errs),
        plans_to(s, intent, r),
    ensures
        r is Ok <==> errs.len() == 0,
{
    if r is Ok {
        crate::lint::passes_iff_it_compiles(intent, s.world, s.opts, errs, Ok(r->Ok_0));
        crate::lint::passes_iff_it_compiles(
            intent,
            s.world,
            s.opts,
            Seq::empty(),
            Ok(r->Ok_0),
        );
    } else {
        let es = r->Err_0->Wants_0;
        if errs.len() == 0 {
            let q = choose|q: Result<PlanV, CompileErrorV>| #[trigger]
                compiles_to(intent, s.world, s.opts, q) && errs == crate::lint::compile_errors(q);
            crate::lint::passes_iff_it_compiles(intent, s.world, s.opts, errs, q);
            crate::lint::passes_iff_it_compiles(intent, s.world, s.opts, es, q);
        }
    }
}

} // verus!
