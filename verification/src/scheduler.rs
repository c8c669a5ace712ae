//! What the scheduler decides about a node: its arguments, its retries, its forks, its waits.
//! Zero model calls in here.

use crate::effect::{EffectError, EffectErrorV};
use crate::json::{
    as_u64, entry, get_entry, list_push, list_view, member, obj_view, same_json, u64_of, Json,
    JsonV,
};
use crate::object::{no_entries, push_entry};
use crate::outputs::Outputs;
use crate::plan::{arg_list_view, node_args_view, Arg, ArgV, GateKind, Node, NodeV};
use crate::text::{dec, list_has, owned, push_dec, same, views};
use crate::cut::{trim, trimmed};
use crate::world::OpKind;
use vstd::arithmetic::power2::pow2;
use vstd::prelude::*;

verus! {

// ---------- limits ----------

/// How many calls each surface takes at once.
#[derive(Debug)]
pub struct Pools {
    pub per_surface: Vec<(String, usize)>,
}

pub open spec fn pools_view(xs: Seq<(String, usize)>) -> Seq<(Seq<char>, usize)> {
    xs.map_values(|x: (String, usize)| (x.0@, x.1))
}

impl View for Pools {
    type V = Seq<(Seq<char>, usize)>;

    open spec fn view(&self) -> Seq<(Seq<char>, usize)> {
        pools_view(self.per_surface@)
    }
}

/// The limits where nothing else is said. A screen is one pair of hands.
pub open spec fn default_pools() -> Seq<(Seq<char>, usize)> {
    seq![
        ("a11y"@, 1usize),
        ("api"@, 64usize),
        ("mcp"@, 16usize),
        ("pixels"@, 1usize),
        ("webmcp"@, 4usize),
    ]
}

impl Default for Pools {
    fn default() -> (r: Self)
        ensures
            r@ == default_pools(),
    {
        let mut m: Vec<(String, usize)> = Vec::new();
        m.push((owned("a11y"), 1));
        m.push((owned("api"), 64));
        m.push((owned("mcp"), 16));
        m.push((owned("pixels"), 1));
        m.push((owned("webmcp"), 4));
        assert(pools_view(m@) =~= default_pools());
        Pools { per_surface: m }
    }
}

/// How long to try and to wait. Times are in milliseconds.
#[derive(Clone, Copy, Debug, PartialEq, Eq)]
pub struct Policy {
    pub max_attempts: u32,
    pub backoff_ms: u64,
    pub wait_timeout_ms: u64,
    pub node_timeout_ms: u64,
    /// While a wait has not fired, glance at the world this often. A lost webhook is not a lost
    /// fact. Long enough that a normal wait never reads at all.
    pub check_every_ms: u64,
}

/// Six attempts at 40 * 2^n ms is about 1.3 s of backoff: enough to outlast a one-second
/// rate-limit window.
pub open spec fn default_policy() -> Policy {
    Policy {
        max_attempts: 6,
        backoff_ms: 40,
        wait_timeout_ms: 30000,
        node_timeout_ms: 20000,
        check_every_ms: 3000,
    }
}

impl Default for Policy {
    fn default() -> (r: Self)
        ensures
            r == default_policy(),
    {
        Policy {
            max_attempts: 6,
            backoff_ms: 40,
            wait_timeout_ms: 30000,
            node_timeout_ms: 20000,
            check_every_ms: 3000,
        }
    }
}

// ---------- arguments ----------

/// What a reference to a node's output refers to. A fork resolved by a declared default refers to
/// the chosen element; a list is a referent only where the producing node's fork guard already
/// proved that it has exactly one element.
pub open spec fn referent(
    out: JsonV,
    node: Seq<char>,
    guarded: Seq<Seq<char>>,
) -> Result<JsonV, Seq<char>> {
    match out {
        JsonV::Obj(xs) => if entry(xs, "__fork_default"@) is Some {
            match entry(xs, "chosen"@) {
                Some(v) => Ok(v),
                None => Ok(JsonV::Null),
            }
        } else {
            Ok(out)
        },
        JsonV::List(xs) => if guarded.contains(node) && xs.len() == 1 {
            Ok(xs[0])
        } else {
            Err(
                "output of "@ + node + " is a list of "@ + dec(xs.len()) + " and "@ + node
                    + " has no fork guard"@,
            )
        },
        _ => Ok(out),
    }
}

/// The value of an argument, given what the finished nodes observed.
pub open spec fn resolved(
    a: ArgV,
    outputs: Map<Seq<char>, JsonV>,
    guarded: Seq<Seq<char>>,
) -> Result<JsonV, Seq<char>>
    decreases a,
{
    match a {
        ArgV::Lit(v) => Ok(v),
        ArgV::Ref { node, field } => if !outputs.contains_key(node) {
            Err("output of "@ + node + " missing"@)
        } else {
            match referent(outputs[node], node, guarded) {
                Err(e) => Err(e),
                Ok(v) => match member(v, field) {
                    Some(x) => Ok(x),
                    None => Err("output of "@ + node + " has no field "@ + field),
                },
            }
        },
        ArgV::List(xs) => match resolved_list(xs, outputs, guarded) {
            Ok(vs) => Ok(JsonV::List(vs)),
            Err(e) => Err(e),
        },
    }
}

pub open spec fn resolved_list(
    xs: Seq<ArgV>,
    outputs: Map<Seq<char>, JsonV>,
    guarded: Seq<Seq<char>>,
) -> Result<Seq<JsonV>, Seq<char>>
    decreases xs,
{
    if xs.len() == 0 {
        Ok(Seq::empty())
    } else {
        match resolved_list(xs.drop_last(), outputs, guarded) {
            Err(e) => Err(e),
            Ok(vs) => match resolved(xs[xs.len() - 1], outputs, guarded) {
                Err(e) => Err(e),
                Ok(v) => Ok(vs.push(v)),
            },
        }
    }
}

/// The values of all arguments of a node.
pub open spec fn resolved_args(
    xs: Seq<(Seq<char>, ArgV)>,
    outputs: Map<Seq<char>, JsonV>,
    guarded: Seq<Seq<char>>,
) -> Result<Seq<(Seq<char>, JsonV)>, Seq<char>>
    decreases xs.len(),
{
    if xs.len() == 0 {
        Ok(Seq::empty())
    } else {
        match resolved_args(xs.drop_last(), outputs, guarded) {
            Err(e) => Err(e),
            Ok(vs) => match resolved(xs.last().1, outputs, guarded) {
                Err(e) => Err(e),
                Ok(v) => Ok(vs.push((xs.last().0, v))),
            },
        }
    }
}

proof fn resolved_list_stuck(
    xs: Seq<ArgV>,
    outputs: Map<Seq<char>, JsonV>,
    guarded: Seq<Seq<char>>,
    k: int,
)
    requires
        0 <= k <= xs.len(),
        resolved_list(xs.take(k), outputs, guarded) is Err,
    ensures
        resolved_list(xs, outputs, guarded) == resolved_list(xs.take(k), outputs, guarded),
    decreases xs.len(),
{
    if k == xs.len() {
        assert(xs.take(k) =~= xs);
    } else {
        assert(xs.drop_last().take(k) =~= xs.take(k));
        resolved_list_stuck(xs.drop_last(), outputs, guarded, k);
    }
}

proof fn resolved_args_stuck(
    xs: Seq<(Seq<char>, ArgV)>,
    outputs: Map<Seq<char>, JsonV>,
    guarded: Seq<Seq<char>>,
    k: int,
)
    requires
        0 <= k <= xs.len(),
        resolved_args(xs.take(k), outputs, guarded) is Err,
    ensures
        resolved_args(xs, outputs, guarded) == resolved_args(xs.take(k), outputs, guarded),
    decreases xs.len(),
{
    if k == xs.len() {
        assert(xs.take(k) =~= xs);
    } else {
        assert(xs.drop_last().take(k) =~= xs.take(k));
        resolved_args_stuck(xs.drop_last(), outputs, guarded, k);
    }
}

fn find_referent(out: &Json, node: &str, guarded: &Vec<String>) -> (r: Result<Json, String>)
    ensures
        match (r, referent(out@, node@, views(guarded@))) {
            (Ok(v), Ok(w)) => v@ == w,
            (Err(e), Err(f)) => e@ == f,
            _ => false,
        },
{
    match out {
        Json::Obj(xs) => if get_entry(xs, "__fork_default").is_some() {
            match get_entry(xs, "chosen") {
                Some(v) => Ok(v.clone()),
                None => Ok(Json::Null),
            }
        } else {
            Ok(out.clone())
        },
        Json::List(xs) => {
            assert(list_view(xs@).len() == xs@.len());
            if list_has(guarded, node) && xs.len() == 1 {
                assert(list_view(xs@)[0] == xs@[0]@);
                Ok(xs[0].clone())
            } else {
                let mut e = owned("output of ");
                e.push_str(node);
                e.push_str(" is a list of ");
                push_dec(&mut e, xs.len() as u128);
                e.push_str(" and ");
                e.push_str(node);
                e.push_str(" has no fork guard");
                Err(e)
            }
        },
        _ => Ok(out.clone()),
    }
}

fn resolve_list(xs: &Vec<Arg>, outputs: &Outputs, guarded: &Vec<String>) -> (r: Result<
    Vec<Json>,
    String,
>)
    ensures
        match (r, resolved_list(arg_list_view(xs@), outputs@, views(guarded@))) {
            (Ok(v), Ok(w)) => list_view(v@) == w,
            (Err(e), Err(f)) => e@ == f,
            _ => false,
        },
    decreases xs,
{
    let ghost vs = arg_list_view(xs@);
    let ghost g = views(guarded@);
    let mut out: Vec<Json> = Vec::new();
    let mut i: usize = 0;
    assert(list_view(out@) =~= Seq::<JsonV>::empty());
    assert(vs.take(0) =~= Seq::<ArgV>::empty());
    while i < xs.len()
        invariant
            i <= xs@.len(),
            vs == arg_list_view(xs@),
            g == views(guarded@),
            resolved_list(vs.take(i as int), outputs@, g) == Ok::<Seq<JsonV>, Seq<char>>(
                list_view(out@),
            ),
        decreases xs@.len() - i,
    {
        proof {
            let p = vs.take(i + 1);
            assert(p.drop_last() =~= vs.take(i as int));
            assert(p[p.len() - 1] == xs@[i as int]@);
        }
        match resolve_arg(&xs[i], outputs, guarded) {
            Ok(v) => {
                proof {
                    list_push(out@, v);
                }
                out.push(v);
            },
            Err(e) => {
                proof {
                    resolved_list_stuck(vs, outputs@, g, i + 1);
                }
                return Err(e);
            },
        }
        i += 1;
    }
    assert(vs.take(i as int) =~= vs);
    Ok(out)
}

/// The value of an argument, given what the finished nodes observed.
pub fn resolve_arg(a: &Arg, outputs: &Outputs, guarded: &Vec<String>) -> (r: Result<Json, String>)
    ensures
        match (r, resolved(a@, outputs@, views(guarded@))) {
            (Ok(v), Ok(w)) => v@ == w,
            (Err(e), Err(f)) => e@ == f,
            _ => false,
        },
    decreases a,
{
    match a {
        Arg::Lit(v) => Ok(v.clone()),
        Arg::Ref { node, field } => match outputs.get(node.as_str()) {
            None => {
                let mut e = owned("output of ");
                e.push_str(node.as_str());
                e.push_str(" missing");
                Err(e)
            },
            Some(out) => {
                let v = find_referent(out, node.as_str(), guarded)?;
                match v.get(field.as_str()) {
                    Some(x) => Ok(x.clone()),
                    None => {
                        let mut e = owned("output of ");
                        e.push_str(node.as_str());
                        e.push_str(" has no field ");
                        e.push_str(field.as_str());
                        Err(e)
                    },
                }
            },
        },
        Arg::List(xs) => {
            let vs = resolve_list(xs, outputs, guarded)?;
            Ok(Json::List(vs))
        },
    }
}

/// The values of all arguments of a node.
pub fn resolve_args(node: &Node, outputs: &Outputs, guarded: &Vec<String>) -> (r: Result<
    Vec<(String, Json)>,
    String,
>)
    ensures
        match (r, resolved_args(node@.args, outputs@, views(guarded@))) {
            (Ok(v), Ok(w)) => obj_view(v@) == w,
            (Err(e), Err(f)) => e@ == f,
            _ => false,
        },
{
    let ghost vs = node@.args;
    let ghost g = views(guarded@);
    let mut out = no_entries();
    let mut i: usize = 0;
    assert(vs.take(0) =~= Seq::<(Seq<char>, ArgV)>::empty());
    while i < node.args.len()
        invariant
            i <= node.args@.len(),
            vs == node_args_view(node.args@),
            vs == node@.args,
            g == views(guarded@),
            resolved_args(vs.take(i as int), outputs@, g) == Ok::<
                Seq<(Seq<char>, JsonV)>,
                Seq<char>,
            >(obj_view(out@)),
        decreases node.args@.len() - i,
    {
        proof {
            assert(vs.take(i + 1).drop_last() =~= vs.take(i as int));
            assert(vs.take(i + 1).last() == (node.args@[i as int].0@, node.args@[i as int].1@));
        }
        match resolve_arg(&node.args[i].1, outputs, guarded) {
            Ok(v) => push_entry(&mut out, node.args[i].0.as_str(), v),
            Err(e) => {
                proof {
                    resolved_args_stuck(vs, outputs@, g, i + 1);
                }
                return Err(e);
            },
        }
        i += 1;
    }
    assert(vs.take(i as int) =~= vs);
    Ok(out)
}

// ---------- forks ----------

/// How many results there are: the elements of a list, and one of anything else.
pub open spec fn result_count(output: JsonV) -> nat {
    match output {
        JsonV::List(xs) => xs.len(),
        _ => 1,
    }
}

/// Whether a fork condition holds of a result. The world model knows two conditions.
pub open spec fn fires(when: Seq<char>, output: JsonV) -> bool {
    let n = result_count(output);
    (trimmed(when) == "result.count != 1"@ && n != 1) || (trimmed(when) == "result.count == 0"@
        && n == 0)
}

/// The evidence that a fork hands to the planner.
pub open spec fn evidence(when: Seq<char>, output: JsonV) -> JsonV {
    JsonV::Obj(
        seq![
            ("count"@, JsonV::Int(result_count(output) as int)),
            ("result"@, output),
            ("when"@, JsonV::Str(when)),
        ],
    )
}

/// The evidence of a fork that fires.
pub fn fork_fires(when: &str, output: &Json) -> (r: Option<Json>)
    ensures
        match r {
            Some(ev) => fires(when@, output@) && ev@ == evidence(when@, output@),
            None => !fires(when@, output@),
        },
{
    let count: usize = match output {
        Json::List(xs) => {
            assert(list_view(xs@).len() == xs@.len());
            xs.len()
        },
        _ => 1,
    };
    let cond = trim(when);
    proof {
        reveal_strlit("result.count != 1");
        reveal_strlit("result.count == 0");
        assert("result.count != 1"@[13] != "result.count == 0"@[13]);
    }
    let fire = if same(cond.as_str(), "result.count != 1") {
        count != 1
    } else if same(cond.as_str(), "result.count == 0") {
        count == 0
    } else {
        false
    };
    if fire {
        let mut o = no_entries();
        push_entry(&mut o, "count", Json::Int(count as i128));
        push_entry(&mut o, "result", output.clone());
        push_entry(&mut o, "when", Json::Str(owned(when)));
        assert(Json::Obj(o)@ == evidence(when@, output@)) by {
            assert(obj_view(o@) =~= seq![
                ("count"@, JsonV::Int(count as int)),
                ("result"@, output@),
                ("when"@, JsonV::Str(when@)),
            ]);
        }
        Some(Json::Obj(o))
    } else {
        None
    }
}

/// The id of a result.
pub open spec fn id_of(v: JsonV) -> Option<u64> {
    u64_of(member(v, "id"@))
}

/// The index of the first result with the smallest id, among the first `n`.
pub open spec fn lowest(xs: Seq<JsonV>, n: nat) -> Option<int>
    decreases n,
{
    if n == 0 {
        None
    } else {
        let best = lowest(xs, (n - 1) as nat);
        match id_of(xs[n - 1]) {
            None => best,
            Some(i) => match best {
                Some(b) => if i < id_of(xs[b])->0 {
                    Some(n - 1)
                } else {
                    best
                },
                None => Some(n - 1),
            },
        }
    }
}

/// The element that a declared rule picks. `lowest_id` picks the one with the smallest id.
pub open spec fn picked(rule: Option<Seq<char>>, output: JsonV) -> Option<JsonV> {
    match output {
        JsonV::List(xs) => if rule == Some("lowest_id"@) {
            match lowest(xs, xs.len()) {
                Some(i) => Some(xs[i]),
                None => None,
            }
        } else {
            None
        },
        _ => None,
    }
}

proof fn lowest_in_range(xs: Seq<JsonV>, n: nat)
    requires
        n <= xs.len(),
    ensures
        lowest(xs, n) matches Some(b) ==> 0 <= b < n && id_of(xs[b]) is Some,
    decreases n,
{
    if n > 0 {
        lowest_in_range(xs, (n - 1) as nat);
    }
}

/// The element that `lowest_id` picks has an id, and no element has a smaller one.
pub proof fn lowest_is_smallest(xs: Seq<JsonV>, n: nat, j: int)
    requires
        n <= xs.len(),
        0 <= j < n,
        id_of(xs[j]) is Some,
    ensures
        lowest(xs, n) matches Some(b) && 0 <= b < n && id_of(xs[b]) is Some && id_of(xs[b])->0
            <= id_of(xs[j])->0,
    decreases n,
{
    lowest_in_range(xs, n);
    lowest_in_range(xs, (n - 1) as nat);
    if j < n - 1 {
        lowest_is_smallest(xs, (n - 1) as nat, j);
    }
}

/// Resolve a fired fork by a rule the intent declared.
pub fn apply_fork_default(rule: Option<&str>, output: &Json) -> (r: Option<Json>)
    ensures
        match r {
            Some(v) => picked(
                match rule {
                    Some(s) => Some(s@),
                    None => None,
                },
                output@,
            ) == Some(v@),
            None => picked(
                match rule {
                    Some(s) => Some(s@),
                    None => None,
                },
                output@,
            ) is None,
        },
{
    let xs = match output {
        Json::List(xs) => xs,
        _ => {
            return None;
        },
    };
    let known = match rule {
        Some(s) => same(s, "lowest_id"),
        None => false,
    };
    if !known {
        return None;
    }
    let ghost vs = list_view(xs@);
    let mut best: Option<(usize, u64)> = None;
    let mut i: usize = 0;
    while i < xs.len()
        invariant
            i <= xs@.len(),
            vs == list_view(xs@),
            match best {
                Some((b, id)) => b < i && lowest(vs, i as nat) == Some(b as int) && id_of(
                    vs[b as int],
                ) == Some(id),
                None => lowest(vs, i as nat) is None,
            },
        decreases xs@.len() - i,
    {
        assert(vs[i as int] == xs@[i as int]@);
        match as_u64(xs[i].get("id")) {
            None => {},
            Some(id) => match best {
                Some((_, low)) => {
                    if id < low {
                        best = Some((i, id));
                    }
                },
                None => {
                    best = Some((i, id));
                },
            },
        }
        i += 1;
    }
    match best {
        Some((b, _)) => {
            assert(vs[b as int] == xs@[b as int]@);
            Some(xs[b].clone())
        },
        None => None,
    }
}

// ---------- one attempt ----------

/// Why a node did not finish.
#[derive(Debug)]
pub enum Failure {
    Fatal(String),
    Fork(Json),
    Gate(String),
}

pub enum FailureV {
    Fatal(Seq<char>),
    Fork(JsonV),
    Gate(Seq<char>),
}

impl View for Failure {
    type V = FailureV;

    open spec fn view(&self) -> FailureV {
        match self {
            Failure::Fatal(e) => FailureV::Fatal(e@),
            Failure::Fork(ev) => FailureV::Fork(ev@),
            Failure::Gate(k) => FailureV::Gate(k@),
        }
    }
}

/// What follows an attempt.
#[derive(Debug)]
pub enum Next {
    /// The node finished with this.
    Done(Json),
    Fail(Failure),
    /// Try again after so many milliseconds.
    Again(u64),
}

pub enum NextV {
    Done(JsonV),
    Fail(FailureV),
    Again(nat),
}

impl View for Next {
    type V = NextV;

    open spec fn view(&self) -> NextV {
        match self {
            Next::Done(v) => NextV::Done(v@),
            Next::Fail(f) => NextV::Fail(f@),
            Next::Again(ms) => NextV::Again(*ms as nat),
        }
    }
}

/// What a node finishes with when its fork was answered by a declared default.
pub open spec fn defaulted(rule: Seq<char>, ask: Seq<char>, ev: JsonV, chosen: JsonV) -> JsonV {
    JsonV::Obj(
        seq![
            ("__evidence"@, ev),
            ("__fork_ask"@, JsonV::Str(ask)),
            ("__fork_default"@, JsonV::Str(rule)),
            ("chosen"@, chosen),
            ("result"@, JsonV::List(seq![chosen])),
        ],
    )
}

/// What follows a result: it may fire the node's fork, and a declared default may answer that.
pub open spec fn after_result(n: NodeV, v: JsonV) -> NextV {
    match n.fork {
        None => NextV::Done(v),
        Some(f) => if !fires(f.when, v) {
            NextV::Done(v)
        } else {
            match picked(f.default, v) {
                Some(c) => NextV::Done(defaulted(f.default->0, f.ask, evidence(f.when, v), c)),
                None => NextV::Fail(FailureV::Fork(evidence(f.when, v))),
            }
        },
    }
}

pub open spec fn gave_up(attempt: u32, msg: Seq<char>) -> NextV {
    NextV::Fail(
        FailureV::Fatal("gave up after "@ + dec(attempt as nat) + " attempts: "@ + msg),
    )
}

/// How long to wait before another attempt: twice as long each time.
pub open spec fn backoff(p: Policy, attempt: u32) -> nat {
    p.backoff_ms as nat * pow2((attempt - 1) as nat)
}

/// What the server asked for plus a little spread, so that lanes do not all return at once.
pub open spec fn throttle(after_ms: u64, attempt: u32) -> nat {
    after_ms as nat + (attempt as nat * 7) % 50
}

/// What follows an attempt. Server-directed waiting has twice the attempts.
pub open spec fn after_attempt_spec(
    n: NodeV,
    p: Policy,
    attempt: u32,
    res: Result<JsonV, EffectErrorV>,
) -> NextV {
    match res {
        Ok(v) => after_result(n, v),
        Err(EffectErrorV::Retryable(msg)) => if attempt >= p.max_attempts {
            gave_up(attempt, msg)
        } else {
            NextV::Again(backoff(p, attempt))
        },
        Err(EffectErrorV::Throttled(after_ms, msg)) => if attempt >= 2 * p.max_attempts {
            gave_up(attempt, msg)
        } else {
            NextV::Again(throttle(after_ms, attempt))
        },
        Err(EffectErrorV::Fatal(msg)) => NextV::Fail(FailureV::Fatal(msg)),
    }
}

/// A node is tried at most twice as often as the policy says, whatever comes back; and after a
/// failure that is not the server's own request to wait, at most as often as it says.
pub proof fn attempts_are_bounded(
    n: NodeV,
    p: Policy,
    attempt: u32,
    res: Result<JsonV, EffectErrorV>,
)
    ensures
        after_attempt_spec(n, p, attempt, res) is Again ==> attempt < 2 * p.max_attempts,
        after_attempt_spec(n, p, attempt, res) is Again && !(res matches Err(
            EffectErrorV::Throttled(_, _),
        )) ==> attempt < p.max_attempts,
        attempt >= 2 * p.max_attempts ==> !(after_attempt_spec(n, p, attempt, res) is Again),
{
}

/// Once a result is there, the node is not tried again.
pub proof fn a_result_ends_the_attempts(n: NodeV, p: Policy, attempt: u32, v: JsonV)
    ensures
        !(after_attempt_spec(n, p, attempt, Ok(v)) is Again),
        n.fork is None ==> after_attempt_spec(n, p, attempt, Ok(v)) == NextV::Done(v),
{
}

fn give_up(attempt: u32, msg: &str) -> (r: Next)
    ensures
        r@ == gave_up(attempt, msg@),
{
    let mut e = owned("gave up after ");
    push_dec(&mut e, attempt as u128);
    e.push_str(" attempts: ");
    e.push_str(msg);
    Next::Fail(Failure::Fatal(e))
}

fn settle(node: &Node, v: &Json) -> (r: Next)
    ensures
        r@ == after_result(node@, v@),
{
    match &node.fork {
        None => Next::Done(v.clone()),
        Some(f) => match fork_fires(f.when.as_str(), v) {
            None => Next::Done(v.clone()),
            Some(ev) => {
                let rule: Option<&str> = match &f.default {
                    Some(s) => Some(s.as_str()),
                    None => None,
                };
                match apply_fork_default(rule, v) {
                    None => Next::Fail(Failure::Fork(ev)),
                    Some(c) => {
                        let name: String = match rule {
                            Some(s) => owned(s),
                            None => String::new(),
                        };
                        let mut one: Vec<Json> = Vec::new();
                        proof {
                            list_push(one@, c);
                        }
                        let ghost cv = c@;
                        one.push(c.clone());
                        assert(list_view(one@) =~= seq![cv]);
                        let mut o = no_entries();
                        push_entry(&mut o, "__evidence", ev);
                        push_entry(&mut o, "__fork_ask", Json::Str(f.ask.clone()));
                        push_entry(&mut o, "__fork_default", Json::Str(name));
                        push_entry(&mut o, "chosen", c);
                        push_entry(&mut o, "result", Json::List(one));
                        assert(obj_view(o@) =~= seq![
                            ("__evidence"@, ev@),
                            ("__fork_ask"@, JsonV::Str(f.ask@)),
                            ("__fork_default"@, JsonV::Str(name@)),
                            ("chosen"@, cv),
                            ("result"@, JsonV::List(seq![cv])),
                        ]);
                        Next::Done(Json::Obj(o))
                    },
                }
            },
        },
    }
}

/// Twice `n` for each step, where it fits.
fn doubled(n: u64, steps: u32) -> (r: u64)
    requires
        n as nat * pow2(steps as nat) <= u64::MAX,
    ensures
        r == n as nat * pow2(steps as nat),
{
    let mut out: u64 = n;
    let mut i: u32 = 0;
    proof {
        vstd::arithmetic::power2::lemma2_to64();
        assert(pow2(0) == 1);
    }
    while i < steps
        invariant
            i <= steps,
            n as nat * pow2(steps as nat) <= u64::MAX,
            out == n as nat * pow2(i as nat),
        decreases steps - i,
    {
        proof {
            vstd::arithmetic::power2::lemma_pow2_unfold((i + 1) as nat);
            let a = n as int;
            let b = pow2(i as nat) as int;
            assert(a * (2 * b) == 2 * (a * b)) by (nonlinear_arith);
            if (i + 1) < steps {
                vstd::arithmetic::power2::lemma_pow2_strictly_increases(
                    (i + 1) as nat,
                    steps as nat,
                );
            }
            let c = pow2((i + 1) as nat) as int;
            let d = pow2(steps as nat) as int;
            assert(a * c <= a * d) by (nonlinear_arith)
                requires
                    0 <= a,
                    c <= d,
            ;
        }
        out = out * 2;
        i += 1;
    }
    out
}

/// Whether the wait that follows an attempt can be counted.
pub open spec fn wait_fits(p: Policy, attempt: u32, res: Result<Json, EffectError>) -> bool {
    match res {
        Err(EffectError::Retryable(_)) => attempt < p.max_attempts ==> backoff(p, attempt)
            <= u64::MAX,
        Err(EffectError::Throttled(ms, _)) => attempt < 2 * p.max_attempts ==> throttle(ms, attempt)
            <= u64::MAX,
        _ => true,
    }
}

/// Whether `n` can be doubled so often.
fn doubles(n: u64, steps: u32) -> (r: bool)
    ensures
        r == (n as nat * pow2(steps as nat) <= u64::MAX),
{
    if n == 0 {
        return true;
    }
    let mut out: u64 = n;
    let mut i: u32 = 0;
    proof {
        vstd::arithmetic::power2::lemma2_to64();
        assert(pow2(0) == 1);
    }
    while i < steps
        invariant
            n > 0,
            i <= steps,
            out == n as nat * pow2(i as nat),
        decreases steps - i,
    {
        proof {
            vstd::arithmetic::power2::lemma_pow2_unfold((i + 1) as nat);
            let a = n as int;
            let b = pow2(i as nat) as int;
            assert(a * (2 * b) == 2 * (a * b)) by (nonlinear_arith);
            if (i + 1) < steps {
                vstd::arithmetic::power2::lemma_pow2_strictly_increases(
                    (i + 1) as nat,
                    steps as nat,
                );
            }
            let c = pow2((i + 1) as nat) as int;
            let d = pow2(steps as nat) as int;
            assert(a * c <= a * d) by (nonlinear_arith)
                requires
                    0 <= a,
                    c <= d,
            ;
        }
        if out > 0x7FFF_FFFF_FFFF_FFFF {
            return false;
        }
        out = out * 2;
        i += 1;
    }
    true
}

/// Whether the wait that follows an attempt can be counted.
pub fn can_wait(policy: &Policy, attempt: u32, res: &Result<Json, EffectError>) -> (r: bool)
    requires
        attempt >= 1,
    ensures
        r == wait_fits(*policy, attempt, *res),
{
    match res {
        Err(EffectError::Retryable(_)) => attempt >= policy.max_attempts || doubles(
            policy.backoff_ms,
            attempt - 1,
        ),
        Err(EffectError::Throttled(ms, _)) => {
            let spread: u64 = (attempt as u64 * 7) % 50;
            attempt as u64 >= policy.max_attempts as u64 * 2 || *ms <= 0xFFFF_FFFF_FFFF_FFFF - spread
        },
        _ => true,
    }
}

/// What follows an attempt: the node is done, or it failed, or it is tried again.
pub fn after_attempt(
    node: &Node,
    policy: &Policy,
    attempt: u32,
    res: &Result<Json, EffectError>,
) -> (r: Next)
    requires
        attempt >= 1,
        wait_fits(*policy, attempt, *res),
    ensures
        r@ == after_attempt_spec(
            node@,
            *policy,
            attempt,
            match res {
                Ok(v) => Ok(v@),
                Err(e) => Err(e@),
            },
        ),
{
    match res {
        Ok(v) => settle(node, v),
        Err(EffectError::Retryable(msg)) => if attempt >= policy.max_attempts {
            give_up(attempt, msg.as_str())
        } else {
            Next::Again(doubled(policy.backoff_ms, attempt - 1))
        },
        Err(EffectError::Throttled(after_ms, msg)) => if attempt as u64 >= policy.max_attempts as u64
            * 2 {
            give_up(attempt, msg.as_str())
        } else {
            let spread: u64 = (attempt as u64 * 7) % 50;
            Next::Again(*after_ms + spread)
        },
        Err(EffectError::Fatal(msg)) => Next::Fail(Failure::Fatal(msg.clone())),
    }
}

/// Why a node whose surface nothing reaches cannot run.
pub fn no_effector(node: &Node) -> (r: Failure)
    ensures
        r@ == FailureV::Fatal("no effector for surface "@ + node@.surface),
{
    let mut e = owned("no effector for surface ");
    e.push_str(node.surface.as_str());
    Failure::Fatal(e)
}

/// The name of a gate.
pub open spec fn gate_name(k: GateKind) -> Seq<char> {
    match k {
        GateKind::External => "external"@,
        GateKind::Spend => "spend"@,
    }
}

pub fn gate_kind_name(k: GateKind) -> (r: &'static str)
    ensures
        r@ == gate_name(k),
{
    match k {
        GateKind::External => "external",
        GateKind::Spend => "spend",
    }
}

// ---------- waits ----------

/// What a wait does next: listen for a while, or give up.
#[derive(Debug)]
pub enum Wait {
    /// Listen for so many milliseconds.
    Listen(u64),
    GiveUp(String),
}

/// The words for a wait that took too long.
pub open spec fn wait_text(op: Seq<char>, id: Option<u64>) -> Seq<char> {
    "timed out waiting for "@ + op + match id {
        Some(i) => " id="@ + dec(i as nat),
        None => Seq::empty(),
    }
}

/// What a wait does while `remaining_ms` are left: it listens until the next glance is due, but
/// no longer than it may wait.
pub fn next_wait(op: &str, id: Option<u64>, remaining_ms: u64, policy: &Policy) -> (r: Wait)
    ensures
        match r {
            Wait::Listen(ms) => remaining_ms > 0 && ms == (if remaining_ms < policy.check_every_ms {
                remaining_ms
            } else {
                policy.check_every_ms
            }),
            Wait::GiveUp(t) => remaining_ms == 0 && t@ == wait_text(op@, id),
        },
{
    if remaining_ms == 0 {
        let mut t = owned("timed out waiting for ");
        t.push_str(op);
        match id {
            Some(i) => {
                let ghost before = t@;
                t.push_str(" id=");
                push_dec(&mut t, i as u128);
                assert(t@ =~= before + (" id="@ + dec(i as nat)));
            },
            None => {
                assert(t@ + Seq::<char>::empty() =~= t@);
            },
        }
        Wait::GiveUp(t)
    } else if remaining_ms < policy.check_every_ms {
        Wait::Listen(remaining_ms)
    } else {
        Wait::Listen(policy.check_every_ms)
    }
}

/// The arguments of a glance: the one that the check names, where the wait has it.
pub open spec fn glance_args(
    arg: Seq<char>,
    args: Seq<(Seq<char>, JsonV)>,
) -> Seq<(Seq<char>, JsonV)> {
    match entry(args, arg) {
        Some(v) => seq![(arg, v)],
        None => Seq::empty(),
    }
}

/// The read that glances at the world for a wait: a node of its own, without a key.
pub open spec fn glance_node(n: NodeV, glances: u32) -> NodeV
    recommends
        n.check is Some,
{
    NodeV {
        id: n.id + "~"@ + dec(glances as nat),
        op: n.check->0.op,
        kind: OpKind::Http,
        surface: "api"@,
        key: None,
        ..n
    }
}

/// The read that glances at the world for a wait, and its arguments. A wait without a check has
/// none.
pub fn glance(node: &Node, args: &Vec<(String, Json)>, glances: u32) -> (r: Option<
    (Node, Vec<(String, Json)>),
>)
    ensures
        match r {
            None => node@.check is None,
            Some((n, a)) => node@.check is Some && n@ == glance_node(node@, glances) && obj_view(
                a@,
            ) == glance_args(node@.check->0.arg, obj_view(args@)),
        },
{
    match &node.check {
        None => None,
        Some(check) => {
            let mut n = node.clone();
            n.id.push_str("~");
            push_dec(&mut n.id, glances as u128);
            n.op = check.op.clone();
            n.kind = OpKind::Http;
            n.surface = owned("api");
            n.key = None;
            let mut a = no_entries();
            match get_entry(args, check.arg.as_str()) {
                Some(v) => {
                    push_entry(&mut a, check.arg.as_str(), v.clone());
                    assert(obj_view(a@) =~= seq![(check.arg@, v@)]);
                },
                None => {},
            }
            Some((n, a))
        },
    }
}

/// An id, or nothing.
pub open spec fn id_json(id: Option<u64>) -> JsonV {
    match id {
        Some(i) => JsonV::Int(i as int),
        None => JsonV::Null,
    }
}

/// What a wait finishes with when a glance saw the fact.
pub open spec fn confirmed(op: Seq<char>, id: Option<u64>, state: JsonV) -> JsonV {
    JsonV::Obj(
        seq![
            ("checked"@, JsonV::Bool(true)),
            ("id"@, id_json(id)),
            ("kind"@, JsonV::Str(op)),
            ("state"@, state),
        ],
    )
}

/// Whether what a glance saw is the fact that the wait is for.
pub open spec fn shows(n: NodeV, seen: JsonV) -> bool {
    n.check matches Some(c) && member(seen, c.field) == Some(c.value)
}

/// What a wait finishes with after a glance, if it saw the fact.
pub fn after_glance(node: &Node, id: Option<u64>, seen: &Json) -> (r: Option<Json>)
    ensures
        match r {
            Some(v) => shows(node@, seen@) && v@ == confirmed(node@.op, id, seen@),
            None => !shows(node@, seen@),
        },
        r is Some <==> (node@.check matches Some(c) && member(seen@, c.field) == Some(c.value)),
{
    match &node.check {
        None => None,
        Some(c) => match seen.get(c.field.as_str()) {
            None => None,
            Some(v) => if same_json(v, &c.value) {
                let idv = match id {
                    Some(i) => Json::Int(i as i128),
                    None => Json::Null,
                };
                assert(idv@ == id_json(id));
                let mut o = no_entries();
                push_entry(&mut o, "checked", Json::Bool(true));
                push_entry(&mut o, "id", idv);
                push_entry(&mut o, "kind", Json::Str(node.op.clone()));
                push_entry(&mut o, "state", seen.clone());
                assert(obj_view(o@) =~= seq![
                    ("checked"@, JsonV::Bool(true)),
                    ("id"@, idv@),
                    ("kind"@, JsonV::Str(node.op@)),
                    ("state"@, seen@),
                ]);
                let r = Json::Obj(o);
                assert(r@ == confirmed(node@.op, id, seen@));
                Some(r)
            } else {
                None
            },
        },
    }
}

} // verus!
