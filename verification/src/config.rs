//! Every knob of a benchmark run.

use crate::cut::{pieces, split, trim, trimmed, upper, uppercase};
use crate::text::{list_has, owned, same, views};
use vstd::prelude::*;

verus! {

/// How a benchmark is run.
#[derive(Debug)]
pub struct RunOpts {
    /// Target app base URL. Ignored when the app is started here.
    pub app: String,
    /// Start the app next to this program on a free port, and stop it at the end.
    pub spawn: bool,
    pub tasks_dir: String,
    /// Comma-separated task ids. Default: every task at or below the phase.
    pub tasks: Option<String>,
    /// Comma-separated arms: A, B, B2, C, D, E.
    pub arms: String,
    pub runs: u32,
    /// Only tasks whose phase is at or below this.
    pub phase: u32,
    /// Surfaces arm D may compile to.
    pub surfaces: String,
    /// Added to every write by the app, so the target behaves like a real network service.
    pub latency_ms: u64,
    /// Where arm D's intent comes from: `handwritten` (the task file) or `model`.
    pub planner: String,
    /// Model for the planner and the model-driven arms.
    pub model: String,
    /// Effort for the model-driven arms' calls.
    pub effort: String,
    /// Effort for the planner's single sample.
    pub planner_effort: String,
    /// Disable the server-side refusal fallback.
    pub no_fallbacks: bool,
    /// Base URL of the model's API.
    pub base_url: Option<String>,
    /// Key of the model's API. Never written to disk.
    pub api_key: Option<String>,
    /// Directory for the planner's intent cache.
    pub plan_cache: Option<String>,
    pub out: Option<String>,
    /// How many turns a model-driven arm may take.
    pub max_turns: u32,
}

/// The names in a comma-separated list, without the whitespace around them.
pub open spec fn names_in(parts: Seq<Seq<char>>) -> Seq<Seq<char>> {
    parts.map_values(|p: Seq<char>| trimmed(p))
}

/// The names that are not empty.
pub open spec fn present(xs: Seq<Seq<char>>) -> Seq<Seq<char>>
    decreases xs.len(),
{
    if xs.len() == 0 {
        Seq::empty()
    } else if xs.last().len() > 0 {
        present(xs.drop_last()).push(xs.last())
    } else {
        present(xs.drop_last())
    }
}

/// Names in upper case.
pub open spec fn raised(xs: Seq<Seq<char>>) -> Seq<Seq<char>> {
    xs.map_values(|x: Seq<char>| upper(x))
}

/// The arms in a comma-separated list.
pub open spec fn arms_in(s: Seq<char>) -> Seq<Seq<char>> {
    present(raised(names_in(pieces(s, ','))))
}

/// Whether an arm is driven by a model.
pub open spec fn model_driven(arm: Seq<char>) -> bool {
    arm == "A"@ || arm == "B"@ || arm == "B2"@ || arm == "C"@
}

/// Whether some arm of a list is driven by a model.
pub open spec fn some_model_driven(arms: Seq<Seq<char>>) -> bool {
    exists|i: int| 0 <= i < arms.len() && model_driven(#[trigger] arms[i])
}

fn trim_all(parts: &Vec<String>) -> (r: Vec<String>)
    ensures
        views(r@) == names_in(views(parts@)),
{
    let ghost all = names_in(views(parts@));
    let mut out: Vec<String> = Vec::new();
    let mut i: usize = 0;
    assert(views(out@) =~= all.take(0));
    while i < parts.len()
        invariant
            i <= parts@.len() == all.len(),
            all == names_in(views(parts@)),
            views(out@) == all.take(i as int),
        decreases parts@.len() - i,
    {
        let x = trim(parts[i].as_str());
        let ghost o = views(out@);
        out.push(x);
        assert(views(parts@)[i as int] == parts@[i as int]@);
        i += 1;
        assert(views(out@) =~= o.push(x@));
        assert(views(out@) =~= all.take(i as int));
    }
    assert(all.take(i as int) =~= all);
    out
}

fn raise_all(parts: &Vec<String>) -> (r: Vec<String>)
    ensures
        views(r@) == raised(views(parts@)),
{
    let ghost all = raised(views(parts@));
    let mut out: Vec<String> = Vec::new();
    let mut i: usize = 0;
    assert(views(out@) =~= all.take(0));
    while i < parts.len()
        invariant
            i <= parts@.len() == all.len(),
            all == raised(views(parts@)),
            views(out@) == all.take(i as int),
        decreases parts@.len() - i,
    {
        let x = uppercase(parts[i].as_str());
        let ghost o = views(out@);
        out.push(x);
        assert(views(parts@)[i as int] == parts@[i as int]@);
        i += 1;
        assert(views(out@) =~= o.push(x@));
        assert(views(out@) =~= all.take(i as int));
    }
    assert(all.take(i as int) =~= all);
    out
}

/// The names that are not empty.
pub fn keep_present(xs: &Vec<String>) -> (r: Vec<String>)
    ensures
        views(r@) == present(views(xs@)),
{
    let ghost vs = views(xs@);
    let mut out: Vec<String> = Vec::new();
    let mut i: usize = 0;
    assert(views(out@) =~= present(vs.take(0)));
    while i < xs.len()
        invariant
            i <= xs@.len() == vs.len(),
            vs == views(xs@),
            views(out@) == present(vs.take(i as int)),
        decreases xs@.len() - i,
    {
        proof {
            assert(vs.take(i + 1).drop_last() =~= vs.take(i as int));
            assert(vs.take(i + 1).last() == xs@[i as int]@);
            reveal_strlit("");
        }
        if !same(xs[i].as_str(), "") {
            let x = xs[i].clone();
            let ghost o = views(out@);
            proof {
                if x@.len() == 0 {
                    assert(x@ =~= ""@);
                }
            }
            out.push(x);
            assert(views(out@) =~= o.push(x@));
        }
        i += 1;
    }
    assert(vs.take(i as int) =~= vs);
    out
}

/// Whether some arm of a list is driven by a model.
pub fn any_model_driven(arms: &Vec<String>) -> (r: bool)
    ensures
        r == some_model_driven(views(arms@)),
{
    let ghost vs = views(arms@);
    let mut i: usize = 0;
    while i < arms.len()
        invariant
            i <= arms@.len() == vs.len(),
            vs == views(arms@),
            forall|j: int| 0 <= j < i ==> !model_driven(#[trigger] vs[j]),
        decreases arms@.len() - i,
    {
        let a = arms[i].as_str();
        assert(vs[i as int] == a@);
        if same(a, "A") || same(a, "B") || same(a, "B2") || same(a, "C") {
            return true;
        }
        i += 1;
    }
    false
}

impl RunOpts {
    /// The knobs as they are when nothing is said.
    pub fn usual(model: &str) -> (r: RunOpts)
        ensures
            r.app@ == "http://127.0.0.1:47310"@,
            !r.spawn,
            r.tasks_dir@ == "tasks"@,
            r.tasks is None,
            r.arms@ == "D,E"@,
            r.runs == 5,
            r.phase == 3,
            r.surfaces@ == "api"@,
            r.latency_ms == 25,
            r.planner@ == "handwritten"@,
            r.model@ == model@,
            r.effort@ == "medium"@,
            r.planner_effort@ == "low"@,
            !r.no_fallbacks,
            r.base_url is None,
            r.api_key is None,
            r.plan_cache is None,
            r.out is None,
            r.max_turns == 40,
    {
        RunOpts {
            app: owned("http://127.0.0.1:47310"),
            spawn: false,
            tasks_dir: owned("tasks"),
            tasks: None,
            arms: owned("D,E"),
            runs: 5,
            phase: 3,
            surfaces: owned("api"),
            latency_ms: 25,
            planner: owned("handwritten"),
            model: owned(model),
            effort: owned("medium"),
            planner_effort: owned("low"),
            no_fallbacks: false,
            base_url: None,
            api_key: None,
            plan_cache: None,
            out: None,
            max_turns: 40,
        }
    }

    pub fn arm_list(&self) -> (r: Vec<String>)
        ensures
            views(r@) == arms_in(self.arms@),
    {
        let parts = split(self.arms.as_str(), ',');
        let trimmed_ = trim_all(&parts);
        let up = raise_all(&trimmed_);
        keep_present(&up)
    }

    pub fn surface_list(&self) -> (r: Vec<String>)
        ensures
            views(r@) == present(names_in(pieces(self.surfaces@, ','))),
    {
        let parts = split(self.surfaces.as_str(), ',');
        let ts = trim_all(&parts);
        keep_present(&ts)
    }

    pub fn task_filter(&self) -> (r: Option<Vec<String>>)
        ensures
            match (self.tasks, r) {
                (Some(t), Some(xs)) => views(xs@) == names_in(pieces(t@, ',')),
                (None, None) => true,
                _ => false,
            },
    {
        match &self.tasks {
            Some(t) => {
                let parts = split(t.as_str(), ',');
                Some(trim_all(&parts))
            },
            None => None,
        }
    }

    pub fn needs_model(&self) -> (r: bool)
        ensures
            r == (self.planner@ == "model"@ || some_model_driven(arms_in(self.arms@))),
    {
        if same(self.planner.as_str(), "model") {
            return true;
        }
        let arms = self.arm_list();
        any_model_driven(&arms)
    }

    /// Whether a task is run: one that is named, or with none named one of a phase that is not
    /// too late.
    pub fn takes_task(&self, id: &str, phase: u32) -> (r: bool)
        ensures
            r == (match self.tasks {
                Some(t) => names_in(pieces(t@, ',')).contains(id@),
                None => phase <= self.phase,
            }),
    {
        match self.task_filter() {
            Some(w) => list_has(&w, id),
            None => phase <= self.phase,
        }
    }

    /// The directory this run writes to, named after the clock when none is given.
    pub fn out_dir(&self, stamp: &str) -> (r: String)
        ensures
            r@ == (match self.out {
                Some(d) => d@,
                None => "results/"@ + stamp@,
            }),
    {
        match &self.out {
            Some(d) => d.clone(),
            None => {
                let mut t = owned("results/");
                t.push_str(stamp);
                t
            },
        }
    }

    /// How many pages the browser opens: as many as the page arms use at once, one where only a
    /// screen is used, none where neither is.
    pub fn pages(&self, per_surface: usize) -> (r: Option<usize>)
        ensures
            ({
                let arms = arms_in(self.arms@);
                let surfaces = present(names_in(pieces(self.surfaces@, ',')));
                r == (if arms.contains("C"@) || arms.contains("A"@) {
                    Some(per_surface)
                } else if surfaces.contains("a11y"@) || surfaces.contains("pixels"@) {
                    Some(1usize)
                } else {
                    None
                })
            }),
    {
        let arms = self.arm_list();
        let surfaces = self.surface_list();
        if list_has(&arms, "C") || list_has(&arms, "A") {
            Some(per_surface)
        } else if list_has(&surfaces, "a11y") || list_has(&surfaces, "pixels") {
            Some(1)
        } else {
            None
        }
    }
}

/// The names that are kept are those that are not empty, in their order: none is lost, none is
/// empty.
pub proof fn present_ok(xs: Seq<Seq<char>>)
    ensures
        forall|i: int| 0 <= i < present(xs).len() ==> (#[trigger] present(xs)[i]).len() > 0,
        forall|x: Seq<char>| xs.contains(x) && x.len() > 0 ==> #[trigger] present(xs).contains(x),
        forall|x: Seq<char>| #[trigger] present(xs).contains(x) ==> xs.contains(x),
    decreases xs.len(),
{
    if xs.len() > 0 {
        let d = xs.drop_last();
        present_ok(d);
        assert forall|x: Seq<char>| xs.contains(x) && x.len() > 0 implies #[trigger] present(
            xs,
        ).contains(x) by {
            let i = choose|i: int| 0 <= i < xs.len() && xs[i] == x;
            if i < d.len() {
                assert(d[i] == x);
                assert(present(d).contains(x));
                let j = choose|j: int| 0 <= j < present(d).len() && present(d)[j] == x;
                assert(present(xs)[j] == x);
            } else {
                assert(present(xs)[present(d).len() as int] == x);
            }
        }
        assert forall|x: Seq<char>| #[trigger] present(xs).contains(x) implies xs.contains(x) by {
            let j = choose|j: int| 0 <= j < present(xs).len() && present(xs)[j] == x;
            if j < present(d).len() {
                assert(present(d)[j] == x);
                assert(present(d).contains(x));
                let i = choose|i: int| 0 <= i < d.len() && d[i] == x;
                assert(xs[i] == x);
            } else {
                assert(xs[xs.len() - 1] == x);
            }
        }
    }
}

} // verus!
