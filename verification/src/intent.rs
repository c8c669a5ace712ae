//! What the planner emits: wants, constraints, and the forks where it agrees to be woken.
//! Never actions.

use crate::text::{clone_strings, views};
use crate::world::{clone_opt, opt_str};
use vstd::prelude::*;

verus! {

/// What a plan may do.
#[derive(Clone, Copy, Debug, PartialEq, Eq)]
pub struct Constraints {
    /// May the plan cause effects that leave the system (email, money)? Default yes.
    pub external_ok: bool,
    pub spend_max_cents: Option<i64>,
}

impl Default for Constraints {
    fn default() -> (r: Self)
        ensures
            r.external_ok,
            r.spend_max_cents is None,
    {
        Constraints { external_ok: true, spend_max_cents: None }
    }
}

/// A condition under which the planner agrees to be asked.
#[derive(Debug)]
pub struct IntentFork {
    pub when: String,
    pub ask: String,
    /// A resolution the planner declares up front, so the scheduler need not wake it:
    /// `lowest_id` picks the match with the smallest id.
    pub default: Option<String>,
}

pub struct IntentForkV {
    pub when: Seq<char>,
    pub ask: Seq<char>,
    pub default: Option<Seq<char>>,
}

impl View for IntentFork {
    type V = IntentForkV;

    open spec fn view(&self) -> IntentForkV {
        IntentForkV { when: self.when@, ask: self.ask@, default: opt_str(self.default) }
    }
}

impl Clone for IntentFork {
    fn clone(&self) -> (r: Self)
        ensures
            r@ == self@,
    {
        IntentFork {
            when: self.when.clone(),
            ask: self.ask.clone(),
            default: clone_opt(&self.default),
        }
    }
}

pub open spec fn forks_view(fs: Seq<IntentFork>) -> Seq<IntentForkV> {
    fs.map_values(|f: IntentFork| f@)
}

/// An intent graph: the goal, what must be true at the end, and when to ask.
#[derive(Debug)]
pub struct Intent {
    pub goal: String,
    /// Predicates, e.g. `invoice(customer=customer(name='Acme')).status='sent'`.
    pub wants: Vec<String>,
    pub constraints: Constraints,
    pub forks: Vec<IntentFork>,
}

pub struct IntentV {
    pub goal: Seq<char>,
    pub wants: Seq<Seq<char>>,
    pub constraints: Constraints,
    pub forks: Seq<IntentForkV>,
}

impl View for Intent {
    type V = IntentV;

    open spec fn view(&self) -> IntentV {
        IntentV {
            goal: self.goal@,
            wants: views(self.wants@),
            constraints: self.constraints,
            forks: forks_view(self.forks@),
        }
    }
}

impl Default for Intent {
    fn default() -> (r: Self)
        ensures
            r@.goal.len() == 0,
            r@.wants.len() == 0,
            r@.constraints.external_ok,
            r@.constraints.spend_max_cents is None,
            r@.forks.len() == 0,
    {
        Intent {
            goal: String::new(),
            wants: Vec::new(),
            constraints: Constraints { external_ok: true, spend_max_cents: None },
            forks: Vec::new(),
        }
    }
}

/// A copy of a list of forks.
pub fn clone_forks(fs: &Vec<IntentFork>) -> (r: Vec<IntentFork>)
    ensures
        forks_view(r@) == forks_view(fs@),
{
    let mut out: Vec<IntentFork> = Vec::new();
    let mut i: usize = 0;
    while i < fs.len()
        invariant
            i <= fs@.len(),
            forks_view(out@) == forks_view(fs@).take(i as int),
        decreases fs@.len() - i,
    {
        let f = fs[i].clone();
        let ghost o = forks_view(out@);
        out.push(f);
        assert(forks_view(out@) =~= o.push(f@));
        i += 1;
        assert(forks_view(out@) =~= forks_view(fs@).take(i as int));
    }
    assert(forks_view(fs@).take(i as int) =~= forks_view(fs@));
    out
}

impl Clone for Intent {
    fn clone(&self) -> (r: Self)
        ensures
            r@ == self@,
    {
        Intent {
            goal: self.goal.clone(),
            wants: clone_strings(&self.wants),
            constraints: self.constraints,
            forks: clone_forks(&self.forks),
        }
    }
}

} // verus!
