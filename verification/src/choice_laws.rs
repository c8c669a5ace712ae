//! Which operation is chosen for a want, and what is done before it.

use crate::compile_model::{
    build, by_id, candidate, candidates, dep_edges, insert_op, known_by_ref, op_le, refs_in,
    requirements, satisfy, satisfy_all, satisfy_wants, settled, to_unify, try_ops, unify,
    CompileErrorV, Env, State,
};
use crate::pred::{lookup, PredV, ValV};
use crate::pred_parse::{parse_spec, ParseErrorV};
use crate::pred_unroll::subst_pred;
use crate::pred_unroll::unroll_spec;
use crate::text::{sort_dedup, sort_dedup_ok};
use crate::world::OpV;
use vstd::prelude::*;

verus! {

// ---------- candidates ----------

/// Whether a field asks that something be there.
pub open spec fn asks_for_being(field: Seq<char>) -> bool {
    field == "exists"@ || field == "resolved"@
}

/// Whether an operation makes true what a predicate asks: it is about the same field of the same
/// entity, and what is to be there it brings forth.
pub open spec fn makes(o: OpV, p: PredV) -> bool {
    o.post matches Some(q) && q.entity == p.entity && (q.field == p.field || (asks_for_being(q.field)
        && asks_for_being(p.field))) && (asks_for_being(p.field) ==> o.produces == Some(p.entity))
}

proof fn inserted(s: Seq<OpV>, o: OpV, x: OpV)
    ensures
        insert_op(s, o).contains(x) <==> s.contains(x) || x == o,
    decreases s.len(),
{
    let r = insert_op(s, o);
    if s.len() == 0 || op_le(s.last(), o) {
        assert(r == s.push(o));
        assert(r[s.len() as int] == o);
        if s.contains(x) {
            let k = choose|k: int| 0 <= k < s.len() && s[k] == x;
            assert(r[k] == x);
        }
        if r.contains(x) {
            let k = choose|k: int| 0 <= k < r.len() && r[k] == x;
            if k < s.len() {
                assert(s[k] == x);
            }
        }
    } else {
        let d = s.drop_last();
        let q = insert_op(d, o);
        inserted(d, o, x);
        assert(r == q.push(s.last()));
        assert(r[q.len() as int] == s.last());
        if q.contains(x) {
            let k = choose|k: int| 0 <= k < q.len() && q[k] == x;
            assert(r[k] == x);
        }
        if s.contains(x) {
            let k = choose|k: int| 0 <= k < s.len() && s[k] == x;
            if k < d.len() {
                assert(d[k] == x);
            }
        }
        if d.contains(x) {
            let k = choose|k: int| 0 <= k < d.len() && d[k] == x;
            assert(s[k] == x);
        }
        if r.contains(x) {
            let k = choose|k: int| 0 <= k < r.len() && r[k] == x;
            if k < q.len() {
                assert(q[k] == x);
            } else {
                assert(s[s.len() - 1] == x);
            }
        }
    }
}

/// No operation that writes stands before one that only reads.
pub open spec fn readers_first(os: Seq<OpV>) -> bool {
    forall|i: int, j: int|
        0 <= i < j < os.len() && (#[trigger] os[j]).writes.len() == 0 ==> (
        #[trigger] os[i]).writes.len() == 0
}

proof fn inserting_keeps_readers_first(s: Seq<OpV>, o: OpV)
    requires
        readers_first(s),
    ensures
        readers_first(insert_op(s, o)),
    decreases s.len(),
{
    let r = insert_op(s, o);
    if s.len() == 0 || op_le(s.last(), o) {
        assert forall|i: int, j: int|
            0 <= i < j < r.len() && (#[trigger] r[j]).writes.len() == 0 implies (
        #[trigger] r[i]).writes.len() == 0 by {
            if j == s.len() {
                assert(s.last().writes.len() == 0);
                assert(s[s.len() - 1] == s.last());
                assert(r[i] == s[i]);
            } else {
                assert(r[i] == s[i] && r[j] == s[j]);
            }
        }
    } else {
        let d = s.drop_last();
        let q = insert_op(d, o);
        assert forall|i: int, j: int|
            0 <= i < j < d.len() && (#[trigger] d[j]).writes.len() == 0 implies (
        #[trigger] d[i]).writes.len() == 0 by {
            assert(d[i] == s[i] && d[j] == s[j]);
        }
        inserting_keeps_readers_first(d, o);
        assert forall|i: int, j: int|
            0 <= i < j < r.len() && (#[trigger] r[j]).writes.len() == 0 implies (
        #[trigger] r[i]).writes.len() == 0 by {
            if j == q.len() {
                assert(s[s.len() - 1].writes.len() == 0);
                inserted(d, o, q[i]);
                assert(q.contains(q[i]));
                if d.contains(q[i]) {
                    let k = choose|k: int| 0 <= k < d.len() && d[k] == q[i];
                    assert(s[k] == q[i]);
                }
                assert(r[i] == q[i]);
            } else {
                assert(r[i] == q[i] && r[j] == q[j]);
            }
        }
    }
}

/// An operation is tried for a want exactly where it makes it true; and what finds is tried before
/// what makes.
pub proof fn what_is_tried_makes_it_true(ops: Seq<OpV>, p: PredV, o: OpV)
    ensures
        candidates(ops, p).contains(o) <==> ops.contains(o) && makes(o, p),
        asks_for_being(p.field) ==> readers_first(candidates(ops, p)),
    decreases ops.len(),
{
    let r = candidates(ops, p);
    if ops.len() > 0 {
        let d = ops.drop_last();
        let x = ops.last();
        let q = candidates(d, p);
        what_is_tried_makes_it_true(d, p, o);
        assert(candidate(x, p) <==> makes(x, p));
        if ops.contains(o) {
            let k = choose|k: int| 0 <= k < ops.len() && ops[k] == o;
            if k < d.len() {
                assert(d[k] == o);
            }
        }
        if d.contains(o) {
            let k = choose|k: int| 0 <= k < d.len() && d[k] == o;
            assert(ops[k] == o);
        }
        assert(ops[ops.len() - 1] == x);
        if candidate(x, p) {
            if asks_for_being(p.field) {
                inserted(q, x, o);
                inserting_keeps_readers_first(q, x);
            } else {
                assert(r == q.push(x));
                assert(r[q.len() as int] == x);
                if q.contains(o) {
                    let k = choose|k: int| 0 <= k < q.len() && q[k] == o;
                    assert(r[k] == o);
                }
                if r.contains(o) {
                    let k = choose|k: int| 0 <= k < r.len() && r[k] == o;
                    if k < q.len() {
                        assert(q[k] == o);
                    }
                }
            }
        }
    }
}

proof fn built_last(
    env: Env,
    fuel: nat,
    st: State,
    op: OpV,
    b: Seq<(Seq<char>, ValV)>,
    want: PredV,
)
    requires
        build(env, fuel, st, op, b, want) is Ok,
    ensures
        ({
            let (st2, id) = build(env, fuel, st, op, b, want)->Ok_0;
            st2.nodes.len() > 0 && st2.nodes.last().id == id && st2.nodes.last().op == op.name
        }),
{
}

/// The first operation whose postcondition fits is built: its node is the last of the plan so far,
/// and the want is that node's.
pub proof fn the_first_that_fits_is_built(
    env: Env,
    fuel: nat,
    st: State,
    p: PredV,
    ops: Seq<OpV>,
) -> (r: (int, Option<Seq<char>>))
    requires
        try_ops(env, fuel, st, p, ops) is Ok,
    ensures
        ({
            let (st2, id) = try_ops(env, fuel, st, p, ops)->Ok_0;
            let (k, target) = r;
            &&& 0 <= k < ops.len()
            &&& unify(ops[k].post->0, to_unify(ops[k].post->0, p, target)) is Some
            &&& st2.nodes.len() > 0
            &&& st2.nodes.last().id == id
            &&& st2.nodes.last().op == ops[k].name
            &&& st2.memo.last() == (crate::pred_print::pred_text(p), id)
        }),
    decreases ops.len(),
{
    let op = ops[0];
    let post = op.post->0;
    let found: Result<(State, Option<Seq<char>>), CompileErrorV> = if by_id(
        post,
        p,
    ) {
        match satisfy(env, fuel, st, crate::pred::as_exists_spec(p)) {
            Err(e) => Err(e),
            Ok((st1, t)) => Ok((st1, Some(t))),
        }
    } else {
        Ok((st, None))
    };
    let (st1, target) = found->Ok_0;
    if unify(post, to_unify(post, p, target)) is None {
        let (k, t) = the_first_that_fits_is_built(env, fuel, st1, p, ops.drop_first());
        assert(ops.drop_first()[k] == ops[k + 1]);
        (k + 1, t)
    } else {
        let b = unify(post, to_unify(post, p, target))->0;
        let t = crate::pred_print::pred_text(p);
        built_last(env, fuel, st1, op, b, p);
        let (st2, id) = build(env, fuel, st1, op, b, p)->Ok_0;
        let st3 = crate::compile_model::remember(st2, t, id);
        assert(try_ops(env, fuel, st, p, ops) == Ok::<(State, Seq<char>), CompileErrorV>(
            (st3, id),
        ));
        assert(st3.memo.last() == (t, id));
        (0, target)
    }
}

/// Where an operation knows a thing by its id alone and the want knows it otherwise, the thing is
/// looked for first, and the operation is held to the one that was found; a want for the thing
/// itself is not looked for, and one that gives the id is taken as it is.
pub proof fn a_thing_is_looked_for_first(post: PredV, p: PredV, t: Seq<char>, x: ValV)
    requires
        post.args == seq![("id"@, x)],
        p.field != "exists"@ && p.field != "resolved"@,
    ensures
        lookup(p.args, "id"@) is None ==> by_id(post, p),
        lookup(p.args, "id"@) is Some ==> !by_id(post, p),
        to_unify(post, p, Some(t)).args == seq![("id"@, ValV::Ref(t, "id"@))],
        to_unify(post, p, Some(t)).entity == p.entity,
        to_unify(post, p, Some(t)).field == p.field,
        to_unify(post, p, Some(t)).value == p.value,
        to_unify(post, p, None) == p,
{
    assert(post.args[0].0 == "id"@);
}

/// A want that a thing be there is met by the node that it refers to.
pub proof fn a_reference_is_there_already(p: PredV, n: Seq<char>, f: Seq<char>)
    ensures
        (p.field == "exists"@ || p.field == "resolved"@) && lookup(p.args, "id"@) == Some(
            ValV::Ref(n, f),
        ) ==> known_by_ref(p) == Some(n),
        p.field != "exists"@ && p.field != "resolved"@ ==> known_by_ref(p) is None,
        !(lookup(p.args, "id"@) matches Some(ValV::Ref(_, _))) ==> known_by_ref(p) is None,
{
}

// ---------- requirements ----------

/// The requirement needs no looking up: it asks that something be there which is already named by
/// a node, or by its id alone.
pub open spec fn already_named(r: PredV) -> bool {
    asks_for_being(r.field) && (refs_in(r.args).len() > 0 || (r.args.len() == 1 && (lookup(
        r.args,
        "id"@,
    ) matches Some(ValV::Num(_)))))
}

/// Satisfying a predicate gave that node.
pub open spec fn gave(env: Env, fuel: nat, before: State, p: PredV, after: State, id: Seq<char>) -> bool {
    satisfy(env, fuel, before, p) == Ok::<(State, Seq<char>), CompileErrorV>((after, id))
}

/// The requirement is seen to: what it names, or the node that makes it true, is waited for.
pub open spec fn seen_to(
    env: Env,
    fuel: nat,
    r: PredV,
    deps: Seq<Seq<char>>,
) -> bool {
    if already_named(r) {
        forall|m: Seq<char>| #[trigger] refs_in(r.args).contains(m) ==> deps.contains(m)
    } else {
        exists|a: State, z: State, id: Seq<char>| #[trigger]
            gave(env, fuel, a, r, z, id) && deps.contains(id)
    }
}

proof fn more_is_no_less(a: Seq<Seq<char>>, b: Seq<Seq<char>>, x: Seq<char>)
    ensures
        a.contains(x) || b.contains(x) ==> (a + b).contains(x),
{
    if a.contains(x) {
        let k = choose|k: int| 0 <= k < a.len() && a[k] == x;
        assert((a + b)[k] == x);
    }
    if b.contains(x) {
        let k = choose|k: int| 0 <= k < b.len() && b[k] == x;
        assert((a + b)[a.len() + k] == x);
    }
}

proof fn still_seen_to(
    env: Env,
    fuel: nat,
    r: PredV,
    deps: Seq<Seq<char>>,
    more: Seq<Seq<char>>,
)
    requires
        seen_to(env, fuel, r, deps),
    ensures
        seen_to(env, fuel, r, deps + more),
{
    if already_named(r) {
        assert forall|m: Seq<char>| #[trigger] refs_in(r.args).contains(m) implies (deps
            + more).contains(m) by {
            more_is_no_less(deps, more, m);
        }
    } else {
        let (a, z, id) = choose|a: State, z: State, id: Seq<char>| #[trigger]
            gave(env, fuel, a, r, z, id) && deps.contains(id);
        more_is_no_less(deps, more, id);
        assert(gave(env, fuel, a, r, z, id) && (deps + more).contains(id));
    }
}

/// Every requirement of an operation, with its values filled in, is seen to before the operation.
pub proof fn every_requirement_is_seen_to(
    env: Env,
    fuel: nat,
    st: State,
    reqs: Seq<PredV>,
    b: Seq<(Seq<char>, ValV)>,
    i: int,
)
    requires
        requirements(env, fuel, st, reqs, b) is Ok,
        0 <= i < reqs.len(),
    ensures
        seen_to(
            env,
            fuel,
            subst_pred(reqs[i], b),
            requirements(env, fuel, st, reqs, b)->Ok_0.1,
        ),
    decreases reqs.len(),
{
    let d = reqs.drop_last();
    let (st1, deps) = requirements(env, fuel, st, d, b)->Ok_0;
    let r = subst_pred(reqs.last(), b);
    let all = requirements(env, fuel, st, reqs, b)->Ok_0.1;
    assert(settled(r) <==> already_named(r));
    if settled(r) {
        assert(all == deps + refs_in(r.args));
        if i < d.len() {
            every_requirement_is_seen_to(env, fuel, st, d, b, i);
            assert(d[i] == reqs[i]);
            still_seen_to(env, fuel, subst_pred(reqs[i], b), deps, refs_in(r.args));
        } else {
            assert forall|m: Seq<char>| #[trigger] refs_in(r.args).contains(m) implies (deps
                + refs_in(r.args)).contains(m) by {
                more_is_no_less(deps, refs_in(r.args), m);
            }
        }
    } else {
        let (st2, id) = satisfy(env, fuel, st1, r)->Ok_0;
        assert(all == deps.push(id));
        assert(deps.push(id) =~= deps + seq![id]);
        if i < d.len() {
            every_requirement_is_seen_to(env, fuel, st, d, b, i);
            assert(d[i] == reqs[i]);
            still_seen_to(env, fuel, subst_pred(reqs[i], b), deps, seq![id]);
        } else {
            assert(all[deps.len() as int] == id);
            assert(gave(env, fuel, st1, r, st2, id) && all.contains(id));
        }
    }
}

proof fn every_dependency_has_its_edge(ds: Seq<Seq<char>>, id: Seq<char>, d: Seq<char>)
    requires
        ds.contains(d),
        d != id,
    ensures
        dep_edges(ds, id).contains((d, id)),
    decreases ds.len(),
{
    let t = ds.drop_last();
    let r = dep_edges(t, id);
    if ds.last() == d {
        assert(dep_edges(ds, id)[r.len() as int] == (d, id));
    } else {
        let k = choose|k: int| 0 <= k < ds.len() && ds[k] == d;
        assert(t[k] == d);
        every_dependency_has_its_edge(t, id, d);
        let j = choose|j: int| 0 <= j < r.len() && r[j] == (d, id);
        assert(dep_edges(ds, id)[j] == (d, id));
    }
}

/// A node that is built waits for every node that its requirements gave, and for every node that
/// its values refer to.
pub proof fn a_node_waits_for_its_requirements(
    env: Env,
    fuel: nat,
    st: State,
    op: OpV,
    b: Seq<(Seq<char>, ValV)>,
    want: PredV,
    d: Seq<char>,
)
    requires
        build(env, fuel, st, op, b, want) is Ok,
        requirements(env, fuel, st, op.requires_, b)->Ok_0.1.contains(d) || refs_in(b).contains(d),
        d != build(env, fuel, st, op, b, want)->Ok_0.1,
    ensures
        build(env, fuel, st, op, b, want)->Ok_0.0.deps.contains(
            (d, build(env, fuel, st, op, b, want)->Ok_0.1),
        ),
{
    let (st1, deps) = requirements(env, fuel, st, op.requires_, b)->Ok_0;
    let (st2, id) = build(env, fuel, st, op, b, want)->Ok_0;
    let all = deps + refs_in(b);
    more_is_no_less(deps, refs_in(b), d);
    sort_dedup_ok(all);
    assert(sort_dedup(all).contains(d));
    every_dependency_has_its_edge(sort_dedup(all), id, d);
    let es = dep_edges(sort_dedup(all), id);
    assert(st2.deps == st1.deps + es);
    let k = choose|k: int| 0 <= k < es.len() && es[k] == (d, id);
    assert(st2.deps[st1.deps.len() + k] == (d, id));
}

// ---------- wants ----------

/// The predicate was satisfied by some node.
pub open spec fn was_satisfied(env: Env, fuel: nat, p: PredV) -> bool {
    exists|a: State, z: State, id: Seq<char>| #[trigger] gave(env, fuel, a, p, z, id)
}

proof fn all_are_satisfied(env: Env, fuel: nat, st: State, ps: Seq<PredV>, j: int)
    requires
        satisfy_all(env, fuel, st, ps) is Ok,
        0 <= j < ps.len(),
    ensures
        was_satisfied(env, fuel, ps[j]),
    decreases ps.len(),
{
    let d = ps.drop_last();
    let st1 = satisfy_all(env, fuel, st, d)->Ok_0;
    if j < d.len() {
        all_are_satisfied(env, fuel, st, d, j);
        assert(d[j] == ps[j]);
    } else {
        let (st2, id) = satisfy(env, fuel, st1, ps.last())->Ok_0;
        assert(gave(env, fuel, st1, ps[j], st2, id));
    }
}

/// What a want asks for, each of several by itself; nothing where it does not parse.
#[verifier::opaque]
pub open spec fn asked_by(want: Seq<char>) -> Option<Seq<PredV>> {
    match parse_spec(want) {
        Ok(p) => Some(unroll_spec(p)),
        Err(_) => None,
    }
}

/// Whether wants can be satisfied in turn.
#[verifier::opaque]
pub open spec fn can_be_satisfied(env: Env, fuel: nat, wants: Seq<Seq<char>>) -> bool {
    satisfy_wants(env, fuel, wants) is Ok
}

/// All of them were satisfied, one after the other.
pub open spec fn in_turn(env: Env, fuel: nat, st: State, ps: Seq<PredV>) -> bool {
    satisfy_all(env, fuel, st, ps) is Ok
}

proof fn one_want_more(env: Env, fuel: nat, wants: Seq<Seq<char>>) -> (st: State)
    requires
        can_be_satisfied(env, fuel, wants),
        wants.len() > 0,
    ensures
        can_be_satisfied(env, fuel, wants.drop_last()),
        asked_by(wants.last()) is Some,
        in_turn(env, fuel, st, asked_by(wants.last())->0),
{
    reveal(can_be_satisfied);
    reveal(asked_by);
    let st = satisfy_wants(env, fuel, wants.drop_last())->Ok_0;
    assert(satisfy_wants(env, fuel, wants.drop_last()) is Ok);
    assert(parse_spec(wants.last()) is Ok);
    let p = parse_spec(wants.last())->Ok_0;
    assert(satisfy_wants(env, fuel, wants) == satisfy_all(env, fuel, st, unroll_spec(p)));
    assert(asked_by(wants.last()) == Some(unroll_spec(p)));
    st
}

proof fn each_want_is_satisfied(env: Env, fuel: nat, wants: Seq<Seq<char>>, i: int, j: int)
    requires
        can_be_satisfied(env, fuel, wants),
        0 <= i < wants.len(),
    ensures
        asked_by(wants[i]) matches Some(ps) && (0 <= j < ps.len() ==> was_satisfied(
            env,
            fuel,
            ps[j],
        )),
    decreases wants.len(),
{
    let st = one_want_more(env, fuel, wants);
    let d = wants.drop_last();
    if i < d.len() {
        each_want_is_satisfied(env, fuel, d, i, j);
        assert(d[i] == wants[i]);
    } else {
        let ps = asked_by(wants.last())->0;
        if 0 <= j < ps.len() {
            all_are_satisfied(env, fuel, st, ps, j);
        }
    }
}

/// Wants are satisfied only where every one of them parses and everything it asks for, each of
/// several by itself, is satisfied.
pub proof fn every_want_is_satisfied(
    env: Env,
    fuel: nat,
    wants: Seq<Seq<char>>,
    i: int,
    j: int,
    p: PredV,
)
    requires
        satisfy_wants(env, fuel, wants) is Ok,
        0 <= i < wants.len(),
    ensures
        parse_spec(wants[i]) is Ok,
        parse_spec(wants[i]) == Ok::<PredV, ParseErrorV>(p) && 0 <= j < unroll_spec(p).len()
            ==> was_satisfied(env, fuel, unroll_spec(p)[j]),
{
    assert(can_be_satisfied(env, fuel, wants)) by {
        reveal(can_be_satisfied);
    }
    each_want_is_satisfied(env, fuel, wants, i, j);
    reveal(asked_by);
}

} // verus!
