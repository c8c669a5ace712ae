//! The order of wants does not show: the same wants in another order give the same plan, up to
//! the names of its nodes.

use crate::clear::{clear, clear_binds, clear_list, clear_lookup, clear_pred, marked, telling_pred_clear};
use crate::compile_laws::{
    expand_same, node_names_differ, same_content, same_content_list, same_content_pred,
};
use crate::compile_model::{
    all_edges, any_conflict, candidates, compiles_to, conflicts, depth_limit, env_of,
    footprint_edges, last_of, list_tokens, node_name, pair_edge, resource, resources, row_edges,
    rows_edges, satisfy_wants, token, val_tokens, Env, OptionsV, State,
};
use crate::cut::{cut, pos, pos_at, trim_back, trim_front};
use crate::goals::{den_at, goals_differ, ren, ren_args, ren_list, ren_lookup, ren_pred};
use crate::graph::{leads, reach, step, walk};
use crate::intent::IntentV;
use crate::json::JsonV;
use crate::naming::{
    free_of_nodes, grounded, grounded_args, grounded_list, grounded_lookup, grounded_pred, named,
    wants_free_of_nodes,
};
use crate::openapi::{derived_requirements_can_be_told, reqs_told, world_of};
use crate::plan::{ids_of, NodeV, PlanV};
use crate::pred::{lookup, PredV, ValV};
use crate::races::rows_edges_has;
use crate::read_laws::what_is_read_can_be_told;
use crate::reduce::{dedupe_ok, others, reduce_contains, redundant};
use crate::seqs::add_has;
use crate::settling::{
    comes_up, find_way, known, max, node_from, plain_ops, plain_reqs, plain_want, plain_wants,
    satisfy_wants_settles,
    sourced, Way,
};
use crate::text::int_dec;
use crate::world::{OpV, WorldV};
use vstd::prelude::*;

verus! {

// ---------- what corresponds ----------

/// A pairing of the nodes of two plans: each node of the first has one of the second, and each
/// of the second is taken once.
pub open spec fn pairs_up(n: nat, m: nat, f: Seq<int>) -> bool {
    &&& n == m
    &&& f.len() == n
    &&& forall|i: int| 0 <= i < f.len() ==> 0 <= #[trigger] f[i] < m
    &&& forall|i: int, j: int|
        0 <= i < f.len() && 0 <= j < f.len() && i != j ==> #[trigger] f[i] != #[trigger] f[j]
    &&& forall|k: int| 0 <= k < m ==> #[trigger] f.contains(k)
}

/// Two nodes that do the same work the same way.
pub open spec fn same_work(a: NodeV, b: NodeV) -> bool {
    a.op == b.op && a.kind == b.kind && a.surface == b.surface && a.key == b.key
}

/// Two plans with the same work in the same order, up to the names of nodes.
pub open spec fn same_dag(p: PlanV, q: PlanV, f: Seq<int>) -> bool {
    &&& pairs_up(p.nodes.len(), q.nodes.len(), f)
    &&& forall|i: int|
        0 <= i < f.len() ==> #[trigger] same_work(p.nodes[i], q.nodes[f[i]])
    &&& forall|i: int, j: int|
        #![trigger p.edges.contains((p.nodes[i].id, p.nodes[j].id))]
        #![trigger q.edges.contains((q.nodes[f[i]].id, q.nodes[f[j]].id))]
        0 <= i < f.len() && 0 <= j < f.len() ==> (p.edges.contains((p.nodes[i].id, p.nodes[j].id))
            <==> q.edges.contains((q.nodes[f[i]].id, q.nodes[f[j]].id)))
}

// ---------- nodes ----------

spec fn place(d: Seq<Seq<char>>, x: Seq<char>) -> int {
    choose|j: int| 0 <= j < d.len() && d[j] == x
}

/// Each node of one state in the place of its goal in the other.
spec fn pairing(d: Seq<Seq<char>>, e: Seq<Seq<char>>) -> Seq<int> {
    Seq::new(d.len(), |i: int| place(e, d[i]))
}

/// Two states whose nodes have the same goals.
spec fn same_goals(strict: bool, env: Env, s: State, d: Seq<Seq<char>>, t: State, e: Seq<Seq<char>>) -> bool {
    &&& known(strict, env, s, d)
    &&& known(strict, env, t, e)
    &&& d.to_set() == e.to_set()
}

proof fn placed(d: Seq<Seq<char>>, e: Seq<Seq<char>>, i: int)
    requires
        d.to_set() == e.to_set(),
        0 <= i < d.len(),
    ensures
        0 <= place(e, d[i]) < e.len(),
        e[place(e, d[i])] == d[i],
        pairing(d, e)[i] == place(e, d[i]),
{
    assert(d.contains(d[i]));
    assert(d.to_set().contains(d[i]));
    assert(e.contains(d[i]));
}

proof fn pairing_pairs(d: Seq<Seq<char>>, e: Seq<Seq<char>>)
    requires
        d.to_set() == e.to_set(),
        d.no_duplicates(),
        e.no_duplicates(),
    ensures
        pairs_up(d.len(), e.len(), pairing(d, e)),
        forall|i: int| 0 <= i < d.len() ==> e[#[trigger] pairing(d, e)[i]] == d[i],
{
    let f = pairing(d, e);
    d.unique_seq_to_set();
    e.unique_seq_to_set();
    assert forall|i: int| 0 <= i < f.len() implies 0 <= #[trigger] f[i] < e.len() && e[f[i]]
        == d[i] by {
        placed(d, e, i);
    }
    assert forall|i: int, j: int| 0 <= i < f.len() && 0 <= j < f.len() && i != j implies
        #[trigger] f[i] != #[trigger] f[j] by {
        placed(d, e, i);
        placed(d, e, j);
    }
    assert forall|k: int| 0 <= k < e.len() implies #[trigger] f.contains(k) by {
        let i = place(d, e[k]);
        placed(e, d, k);
        placed(d, e, i);
        assert(f[i] == k);
    }
}

/// What two nodes with one goal were made of.
spec fn twins(
    strict: bool,
    env: Env,
    s: State,
    d: Seq<Seq<char>>,
    i: int,
    p: PredV,
    b: Seq<(Seq<char>, ValV)>,
    t: State,
    e: Seq<Seq<char>>,
    j: int,
    q: PredV,
    c: Seq<(Seq<char>, ValV)>,
    w: Way,
) -> bool {
    &&& exists|f: nat| node_from(strict, env, s, d, i, p, b, w, f)
    &&& exists|f: nat| node_from(strict, env, t, e, j, q, c, w, f)
    &&& ren_pred(p, d) == ren_pred(q, e)
    &&& ren_args(b, d) == ren_args(c, e)
}

proof fn twins_exist(
    strict: bool,
    env: Env,
    s: State,
    d: Seq<Seq<char>>,
    i: int,
    t: State,
    e: Seq<Seq<char>>,
    j: int,
) -> (r: (PredV, Seq<(Seq<char>, ValV)>, PredV, Seq<(Seq<char>, ValV)>, Way))
    requires
        known(strict, env, s, d),
        known(strict, env, t, e),
        0 <= i < d.len(),
        0 <= j < e.len(),
        d[i] == e[j],
    ensures
        twins(strict, env, s, d, i, r.0, r.1, t, e, j, r.2, r.3, r.4),
{
    assert(sourced(strict, env, s, d, i));
    assert(sourced(strict, env, t, e, j));
    let (p, b, w, f) = choose|p: PredV, b: Seq<(Seq<char>, ValV)>, w: Way, f: nat|
        node_from(strict, env, s, d, i, p, b, w, f);
    let (q, c, v, h) = choose|p: PredV, b: Seq<(Seq<char>, ValV)>, w: Way, f: nat|
        node_from(strict, env, t, e, j, p, b, w, f);
    goals_differ(ren_pred(p, d), ren_pred(q, e));
    let g = max(f, h);
    let x = ren_pred(p, d);
    assert(find_way(env.ops, g, x, candidates(env.ops, x)) == Some(w));
    assert(find_way(env.ops, g, x, candidates(env.ops, x)) == Some(v));
    (p, b, q, c, w)
}

proof fn last_of_name(c: Seq<(Seq<char>, Seq<char>)>, k: nat, n: nat)
    requires
        k < n <= c.len(),
        forall|i: int| 0 <= i < n ==> (#[trigger] c[i]).0 == node_name(i as nat),
    ensures
        last_of(c.take(n as int), node_name(k)) == Some(c[k as int].1),
    decreases n,
{
    let t = c.take(n as int);
    assert(t.last() == c[n - 1]);
    if k != n - 1 {
        node_names_differ(k, (n - 1) as nat);
        assert(t.drop_last() =~= c.take(n - 1));
        last_of_name(c, k, (n - 1) as nat);
    }
}

/// Content addresses agree wherever goals do, below the `i`-th node of the one and the `j`-th of
/// the other.
spec fn agree(s: State, d: Seq<Seq<char>>, i: int, t: State, e: Seq<Seq<char>>, j: int) -> bool {
    &&& d.len() == s.canon.len()
    &&& e.len() == t.canon.len()
    &&& 0 <= i <= d.len()
    &&& 0 <= j <= e.len()
    &&& forall|k: int| 0 <= k < d.len() ==> (#[trigger] s.canon[k]).0 == node_name(k as nat)
    &&& forall|k: int| 0 <= k < e.len() ==> (#[trigger] t.canon[k]).0 == node_name(k as nat)
    &&& forall|k: int, l: int|
        #![trigger d[k], e[l]]
        0 <= k < i && 0 <= l < j && d[k] == e[l] ==> s.canon[k].1 == t.canon[l].1
}

proof fn same_content_val_of(
    s: State,
    d: Seq<Seq<char>>,
    i: int,
    t: State,
    e: Seq<Seq<char>>,
    j: int,
    v: ValV,
    w: ValV,
)
    requires
        agree(s, d, i, t, e, j),
        grounded(v, i as nat),
        grounded(w, j as nat),
        ren(v, d) == ren(w, e),
    ensures
        same_content(s.canon.take(i), v, t.canon.take(j), w),
    decreases v, 0nat,
{
    let (x, y) = (s.canon.take(i), t.canon.take(j));
    match (v, w) {
        (ValV::Ref(m, _), ValV::Ref(n, _)) => {
            let k = choose|k: nat| k < i as nat && m == #[trigger] node_name(k);
            let l = choose|k: nat| k < j as nat && n == #[trigger] node_name(k);
            den_at(d, k);
            den_at(e, l);
            assert(d[k as int] == e[l as int]);
            last_of_name(s.canon, k, i as nat);
            last_of_name(t.canon, l, j as nat);
        },
        (ValV::List(xs), ValV::List(ys)) => {
            assert(ren(v, d) == ValV::List(ren_list(xs, d)));
            assert(ren(w, e) == ValV::List(ren_list(ys, e)));
            same_content_list_of(s, d, i, t, e, j, xs, ys);
            assert(same_content_list(x, xs, y, ys));
        },
        (ValV::Each(xs), ValV::Each(ys)) => {
            assert(ren(v, d) == ValV::Each(ren_list(xs, d)));
            assert(ren(w, e) == ValV::Each(ren_list(ys, e)));
            same_content_list_of(s, d, i, t, e, j, xs, ys);
            assert(same_content_list(x, xs, y, ys));
        },
        (ValV::Entity(p), ValV::Entity(q)) => {
            same_content_pred_of(s, d, i, t, e, j, *p, *q);
        },
        (ValV::All(a), ValV::All(b)) => {
            same_content_val_of(s, d, i, t, e, j, *a, *b);
        },
        _ => {},
    }
}

proof fn same_content_list_of(
    s: State,
    d: Seq<Seq<char>>,
    i: int,
    t: State,
    e: Seq<Seq<char>>,
    j: int,
    xs: Seq<ValV>,
    ys: Seq<ValV>,
)
    requires
        agree(s, d, i, t, e, j),
        grounded_list(xs, i as nat),
        grounded_list(ys, j as nat),
        ren_list(xs, d) == ren_list(ys, e),
    ensures
        same_content_list(s.canon.take(i), xs, t.canon.take(j), ys),
    decreases xs, 0nat,
{
    assert(ren_list(xs, d).len() == xs.len() && ren_list(ys, e).len() == ys.len());
    assert forall|k: int| #![trigger xs[k]] 0 <= k < xs.len() implies same_content(
        s.canon.take(i),
        xs[k],
        t.canon.take(j),
        ys[k],
    ) by {
        assert(grounded(xs[k], i as nat) && grounded(ys[k], j as nat));
        assert(ren_list(xs, d)[k] == ren(xs[k], d));
        assert(ren_list(ys, e)[k] == ren(ys[k], e));
        same_content_val_of(s, d, i, t, e, j, xs[k], ys[k]);
    }
}

proof fn same_content_pred_of(
    s: State,
    d: Seq<Seq<char>>,
    i: int,
    t: State,
    e: Seq<Seq<char>>,
    j: int,
    p: PredV,
    q: PredV,
)
    requires
        agree(s, d, i, t, e, j),
        grounded_pred(p, i as nat),
        grounded_pred(q, j as nat),
        ren_pred(p, d) == ren_pred(q, e),
    ensures
        same_content_pred(s.canon.take(i), p, t.canon.take(j), q),
    decreases p, 1nat,
{
    let (xs, ys) = (p.args, q.args);
    assert(ren_args(xs, d).len() == xs.len() && ren_args(ys, e).len() == ys.len());
    same_content_val_of(s, d, i, t, e, j, p.value, q.value);
    assert forall|k: int| #![trigger p.args[k]] 0 <= k < xs.len() implies p.args[k].0
        == q.args[k].0 && same_content(
        s.canon.take(i),
        p.args[k].1,
        t.canon.take(j),
        q.args[k].1,
    ) by {
        assert(grounded(xs[k].1, i as nat) && grounded(ys[k].1, j as nat));
        assert(ren_args(xs, d)[k] == (xs[k].0, ren(xs[k].1, d)));
        assert(ren_args(ys, e)[k] == (ys[k].0, ren(ys[k].1, e)));
        same_content_val_of(s, d, i, t, e, j, xs[k].1, ys[k].1);
    }
}

/// Nodes with one goal have one content address.
proof fn addresses_agree(
    strict: bool,
    env: Env,
    s: State,
    d: Seq<Seq<char>>,
    i: int,
    t: State,
    e: Seq<Seq<char>>,
    j: int,
)
    requires
        known(strict, env, s, d),
        known(strict, env, t, e),
        0 <= i < d.len(),
        0 <= j < e.len(),
        d[i] == e[j],
    ensures
        s.canon[i].1 == t.canon[j].1,
    decreases i,
{
    let (p, b, q, c, w) = twins_exist(strict, env, s, d, i, t, e, j);
    let f = choose|f: nat| node_from(strict, env, s, d, i, p, b, w, f);
    let h = choose|f: nat| node_from(strict, env, t, e, j, q, c, w, f);
    assert forall|k: int| 0 <= k < d.len() implies (#[trigger] s.canon[k]).0 == node_name(
        k as nat,
    ) by {
        assert(sourced(strict, env, s, d, k));
    }
    assert forall|k: int| 0 <= k < e.len() implies (#[trigger] t.canon[k]).0 == node_name(
        k as nat,
    ) by {
        assert(sourced(strict, env, t, e, k));
    }
    assert forall|k: int, l: int|
        #![trigger d[k], e[l]]
        0 <= k < i && 0 <= l < j && d[k] == e[l] implies s.canon[k].1 == t.canon[l].1 by {
        addresses_agree(strict, env, s, d, k, t, e, l);
    }
    assert(agree(s, d, i, t, e, j));
    same_content_pred_of(s, d, i, t, e, j, p, q);
    expand_same(s.canon.take(i), p, t.canon.take(j), q);
}

// ---------- footprints ----------

/// Two resources that are the same up to the names of nodes.
spec fn twin_token(d: Seq<Seq<char>>, x: Seq<char>, e: Seq<Seq<char>>, y: Seq<char>) -> bool {
    &&& token(x).0 == token(y).0
    &&& (token(x).1 == token(y).1 && !marked(token(x).1)) || exists|k: nat, l: nat|
        k < d.len() && l < e.len() && d[k as int] == e[l as int] && token(x).1 == seq!['@']
            + #[trigger] node_name(k) && token(y).1 == seq!['@'] + #[trigger] node_name(l)
}

spec fn twin_tokens(
    d: Seq<Seq<char>>,
    xs: Seq<Seq<char>>,
    e: Seq<Seq<char>>,
    ys: Seq<Seq<char>>,
) -> bool {
    xs.len() == ys.len() && forall|i: int|
        #![trigger xs[i]]
        0 <= i < xs.len() ==> twin_token(d, xs[i], e, ys[i])
}

/// No footprint names an item the way a node's product is named.
pub open spec fn plain_footprints(ops: Seq<OpV>) -> bool {
    forall|i: int|
        0 <= i < ops.len() ==> plain_specs((#[trigger] ops[i]).reads) && plain_specs(ops[i].writes)
}

pub open spec fn plain_specs(ss: Seq<Seq<char>>) -> bool {
    forall|i: int|
        0 <= i < ss.len() ==> (cut(#[trigger] ss[i], ':') matches Some((_, sel)) ==> !marked(sel))
}

proof fn star_is_no_mark()
    ensures
        !marked("*"@),
{
    reveal_strlit("*");
    if marked("*"@) {
        let k = choose|k: nat| "*"@ == seq!['@'] + #[trigger] node_name(k);
        assert((seq!['@'] + node_name(k))[0] == '@');
    }
}

proof fn number_is_no_mark(n: int)
    ensures
        !marked(int_dec(n)),
{
    if marked(int_dec(n)) {
        let k = choose|k: nat| int_dec(n) == seq!['@'] + #[trigger] node_name(k);
        assert(int_dec(n)[0] == '@');
        crate::code::dec_digits(if n < 0 { (-n) as nat } else { n as nat });
    }
}

/// The entity and the item of a resource that is put together.
proof fn token_of(entity: Seq<char>, item: Seq<char>)
    requires
        !entity.contains(':'),
    ensures
        token(entity + seq![':'] + item) == (entity, item),
{
    let s = entity + seq![':'] + item;
    assert(s[entity.len() as int] == ':');
    assert(s.contains(':'));
    assert forall|j: int| 0 <= j < entity.len() implies s[j] != ':' by {
        assert(s[j] == entity[j]);
        assert(entity.contains(entity[j]));
    }
    pos_at(s, ':', entity.len() as int);
    assert(s.take(entity.len() as int) =~= entity);
    assert(s.skip(entity.len() as int + 1) =~= item);
}

proof fn pos_is_first(s: Seq<char>, c: char)
    ensures
        pos(s, c) <= s.len(),
        forall|j: int| 0 <= j < pos(s, c) ==> s[j] != c,
    decreases s.len(),
{
    if s.len() > 0 && s[0] != c {
        let t = s.drop_first();
        pos_is_first(t, c);
        assert forall|j: int| 0 <= j < pos(s, c) implies s[j] != c by {
            if j > 0 {
                assert(t[j - 1] == s[j]);
            }
        }
    }
}

proof fn cut_entity(s: Seq<char>)
    ensures
        cut(s, ':') matches Some((entity, _)) ==> !entity.contains(':'),
{
    if s.contains(':') {
        pos_is_first(s, ':');
        let entity = (cut(s, ':')->0).0;
        if entity.contains(':') {
            let i = choose|i: int| 0 <= i < entity.len() && entity[i] == ':';
            assert(s[i] == ':');
        }
    }
}

proof fn spellings(entity: Seq<char>, item: Seq<char>)
    ensures
        entity + ":@"@ + item == entity + seq![':'] + (seq!['@'] + item),
        entity + ":"@ + item == entity + seq![':'] + item,
        entity + ":*"@ == entity + seq![':'] + "*"@,
{
    reveal_strlit(":@");
    reveal_strlit(":");
    reveal_strlit(":*");
    reveal_strlit("*");
    assert(entity + ":@"@ + item =~= entity + seq![':'] + (seq!['@'] + item));
    assert(entity + ":"@ + item =~= entity + seq![':'] + item);
    assert(entity + ":*"@ =~= entity + seq![':'] + "*"@);
}

proof fn twin_star(d: Seq<Seq<char>>, e: Seq<Seq<char>>, entity: Seq<char>)
    requires
        !entity.contains(':'),
    ensures
        twin_tokens(d, seq![entity + ":*"@], e, seq![entity + ":*"@]),
{
    spellings(entity, Seq::empty());
    star_is_no_mark();
    token_of(entity, "*"@);
}

proof fn twin_val_tokens(
    d: Seq<Seq<char>>,
    e: Seq<Seq<char>>,
    entity: Seq<char>,
    v: ValV,
    w: ValV,
)
    requires
        !entity.contains(':'),
        grounded(v, d.len()),
        grounded(w, e.len()),
        clear(true, v),
        ren(v, d) == ren(w, e),
    ensures
        twin_tokens(d, val_tokens(entity, v), e, val_tokens(entity, w)),
    decreases v, 0nat,
{
    match (v, w) {
        (ValV::Ref(m, _), ValV::Ref(n, _)) => {
            let k = choose|k: nat| k < d.len() && m == #[trigger] node_name(k);
            let l = choose|k: nat| k < e.len() && n == #[trigger] node_name(k);
            den_at(d, k);
            den_at(e, l);
            spellings(entity, m);
            spellings(entity, n);
            token_of(entity, seq!['@'] + m);
            token_of(entity, seq!['@'] + n);
            assert(twin_token(d, entity + ":@"@ + m, e, entity + ":@"@ + n));
        },
        (ValV::Num(x), _) => {
            spellings(entity, int_dec(x));
            token_of(entity, int_dec(x));
            number_is_no_mark(x);
        },
        (ValV::Str(s), _) => {
            spellings(entity, s);
            token_of(entity, s);
        },
        (ValV::List(xs), ValV::List(ys)) => {
            assert(ren(v, d) == ValV::List(ren_list(xs, d)));
            assert(ren(w, e) == ValV::List(ren_list(ys, e)));
            twin_list_tokens(d, e, entity, xs, ys);
            assert(val_tokens(entity, v) == list_tokens(entity, xs));
            assert(val_tokens(entity, w) == list_tokens(entity, ys));
        },
        _ => {
            twin_star(d, e, entity);
        },
    }
}

proof fn twin_add(
    d: Seq<Seq<char>>,
    a: Seq<Seq<char>>,
    b: Seq<Seq<char>>,
    e: Seq<Seq<char>>,
    x: Seq<Seq<char>>,
    y: Seq<Seq<char>>,
)
    requires
        twin_tokens(d, a, e, x),
        twin_tokens(d, b, e, y),
    ensures
        twin_tokens(d, a + b, e, x + y),
{
    assert forall|i: int| #![trigger (a + b)[i]] 0 <= i < (a + b).len() implies twin_token(
        d,
        (a + b)[i],
        e,
        (x + y)[i],
    ) by {
        if i < a.len() {
            assert(twin_token(d, a[i], e, x[i]));
        } else {
            assert(twin_token(d, b[i - a.len()], e, y[i - x.len()]));
        }
    }
}

proof fn twin_list_tokens(
    d: Seq<Seq<char>>,
    e: Seq<Seq<char>>,
    entity: Seq<char>,
    xs: Seq<ValV>,
    ys: Seq<ValV>,
)
    requires
        !entity.contains(':'),
        grounded_list(xs, d.len()),
        grounded_list(ys, e.len()),
        clear_list(true, xs),
        ren_list(xs, d) == ren_list(ys, e),
    ensures
        twin_tokens(d, list_tokens(entity, xs), e, list_tokens(entity, ys)),
    decreases xs, 0nat,
{
    let (rx, ry) = (ren_list(xs, d), ren_list(ys, e));
    assert(rx.len() == xs.len() && ry.len() == ys.len());
    if xs.len() > 0 {
        let (a, b) = (xs.drop_last(), ys.drop_last());
        let (v, w) = (xs[xs.len() - 1], ys[ys.len() - 1]);
        assert(rx.drop_last() =~= ren_list(a, d));
        assert(ry.drop_last() =~= ren_list(b, e));
        assert(rx[rx.len() - 1] == ren(v, d) && ry[ry.len() - 1] == ren(w, e));
        assert(grounded(v, d.len()) && grounded(w, e.len()) && clear(true, v));
        assert(grounded_list(a, d.len()) && grounded_list(b, e.len()) && clear_list(true, a));
        twin_list_tokens(d, e, entity, a, b);
        twin_val_tokens(d, e, entity, v, w);
        twin_add(
            d,
            list_tokens(entity, a),
            val_tokens(entity, v),
            e,
            list_tokens(entity, b),
            val_tokens(entity, w),
        );
    }
}

proof fn twin_resource(
    d: Seq<Seq<char>>,
    i: nat,
    b: Seq<(Seq<char>, ValV)>,
    e: Seq<Seq<char>>,
    j: nat,
    c: Seq<(Seq<char>, ValV)>,
    spec_: Seq<char>,
)
    requires
        i < d.len(),
        j < e.len(),
        d[i as int] == e[j as int],
        grounded_args(b, d.len()),
        grounded_args(c, e.len()),
        clear_binds(true, b),
        ren_args(b, d) == ren_args(c, e),
        cut(spec_, ':') matches Some((_, sel)) ==> !marked(sel),
    ensures
        twin_tokens(
            d,
            resource(spec_, b, node_name(i)),
            e,
            resource(spec_, c, node_name(j)),
        ),
{
    cut_entity(spec_);
    match cut(spec_, ':') {
        None => {
            star_is_no_mark();
        },
        Some((entity, sel)) => {
            let name = trim_back(trim_front(sel, '$'), "[]"@);
            twin_star(d, e, entity);
            if sel == "*"@ {
            } else if sel == "new"@ {
                spellings(entity, node_name(i));
                spellings(entity, node_name(j));
                token_of(entity, seq!['@'] + node_name(i));
                token_of(entity, seq!['@'] + node_name(j));
                assert(twin_token(
                    d,
                    entity + ":@"@ + node_name(i),
                    e,
                    entity + ":@"@ + node_name(j),
                ));
            } else if "$"@.is_prefix_of(sel) {
                ren_lookup(b, name, d);
                ren_lookup(c, name, e);
                grounded_lookup(b, name, d.len());
                grounded_lookup(c, name, e.len());
                clear_lookup(true, b, name);
                if let Some(v) = lookup(b, name) {
                    twin_val_tokens(d, e, entity, v, lookup(c, name)->0);
                }
            } else {
                spellings(entity, sel);
                token_of(entity, sel);
            }
        },
    }
}

proof fn twin_resources(
    d: Seq<Seq<char>>,
    i: nat,
    b: Seq<(Seq<char>, ValV)>,
    e: Seq<Seq<char>>,
    j: nat,
    c: Seq<(Seq<char>, ValV)>,
    specs: Seq<Seq<char>>,
)
    requires
        i < d.len(),
        j < e.len(),
        d[i as int] == e[j as int],
        grounded_args(b, d.len()),
        grounded_args(c, e.len()),
        clear_binds(true, b),
        ren_args(b, d) == ren_args(c, e),
        plain_specs(specs),
    ensures
        twin_tokens(
            d,
            resources(specs, b, node_name(i)),
            e,
            resources(specs, c, node_name(j)),
        ),
    decreases specs.len(),
{
    if specs.len() > 0 {
        let front = specs.drop_last();
        assert(plain_specs(front)) by {
            assert forall|k: int| 0 <= k < front.len() implies (cut(
                #[trigger] front[k],
                ':',
            ) matches Some((_, sel)) ==> !marked(sel)) by {
                assert(front[k] == specs[k]);
            }
        }
        let last = specs[specs.len() - 1];
        assert(cut(last, ':') matches Some((_, sel)) ==> !marked(sel));
        twin_resources(d, i, b, e, j, c, front);
        twin_resource(d, i, b, e, j, c, last);
        twin_add(
            d,
            resources(front, b, node_name(i)),
            resource(last, b, node_name(i)),
            e,
            resources(front, c, node_name(j)),
            resource(last, c, node_name(j)),
        );
    }
}

proof fn twin_conflicts(
    d: Seq<Seq<char>>,
    x: Seq<char>,
    y: Seq<char>,
    e: Seq<Seq<char>>,
    u: Seq<char>,
    v: Seq<char>,
)
    requires
        d.no_duplicates(),
        e.no_duplicates(),
        twin_token(d, x, e, u),
        twin_token(d, y, e, v),
    ensures
        conflicts(x, y) == conflicts(u, v),
{
    star_is_no_mark();
    let (a, b, p, q) = (token(x).1, token(y).1, token(u).1, token(v).1);
    if !(a == p && !marked(a)) && !(b == q && !marked(b)) {
        let (k, l) = choose|k: nat, l: nat|
            k < d.len() && l < e.len() && d[k as int] == e[l as int] && a == seq!['@']
                + #[trigger] node_name(k) && p == seq!['@'] + #[trigger] node_name(l);
        let (m, n) = choose|m: nat, n: nat|
            m < d.len() && n < e.len() && d[m as int] == e[n as int] && b == seq!['@']
                + #[trigger] node_name(m) && q == seq!['@'] + #[trigger] node_name(n);
        assert(a.skip(1) =~= node_name(k) && b.skip(1) =~= node_name(m));
        assert(p.skip(1) =~= node_name(l) && q.skip(1) =~= node_name(n));
        if k != m {
            node_names_differ(k, m);
        }
        if l != n {
            node_names_differ(l, n);
        }
    }
}

proof fn twin_any_conflict(
    d: Seq<Seq<char>>,
    xs: Seq<Seq<char>>,
    ys: Seq<Seq<char>>,
    e: Seq<Seq<char>>,
    us: Seq<Seq<char>>,
    vs: Seq<Seq<char>>,
)
    requires
        d.no_duplicates(),
        e.no_duplicates(),
        twin_tokens(d, xs, e, us),
        twin_tokens(d, ys, e, vs),
    ensures
        any_conflict(xs, ys) == any_conflict(us, vs),
{
    if any_conflict(xs, ys) {
        let (i, j) = choose|i: int, j: int|
            0 <= i < xs.len() && 0 <= j < ys.len() && conflicts(#[trigger] xs[i], #[trigger] ys[j]);
        twin_conflicts(d, xs[i], ys[j], e, us[i], vs[j]);
        assert(conflicts(us[i], vs[j]));
    }
    if any_conflict(us, vs) {
        let (i, j) = choose|i: int, j: int|
            0 <= i < us.len() && 0 <= j < vs.len() && conflicts(#[trigger] us[i], #[trigger] vs[j]);
        assert(twin_token(d, xs[i], e, us[i]) && twin_token(d, ys[j], e, vs[j]));
        twin_conflicts(d, xs[i], ys[j], e, us[i], vs[j]);
        assert(conflicts(xs[i], ys[j]));
    }
}

// ---------- nodes with one goal ----------

proof fn way_is_declared(ops: Seq<OpV>, fuel: nat, pred: PredV, cs: Seq<OpV>)
    ensures
        find_way(ops, fuel, pred, cs) matches Some(w) ==> cs.contains(w.op),
    decreases cs.len(),
{
    if cs.len() > 0 {
        let rest = cs.drop_first();
        way_is_declared(ops, fuel, pred, rest);
        assert(cs[0] == cs[0]);
        if let Some(w) = find_way(ops, fuel, pred, cs) {
            if w.op != cs[0] {
                let k = choose|k: int| 0 <= k < rest.len() && rest[k] == w.op;
                assert(cs[k + 1] == w.op);
            }
        }
    }
}

/// Two nodes that do the same work and touch the same things.
spec fn matched(a: NodeV, d: Seq<Seq<char>>, b: NodeV, e: Seq<Seq<char>>) -> bool {
    &&& same_work(a, b)
    &&& a.before == b.before
    &&& twin_tokens(d, a.reads, e, b.reads)
    &&& twin_tokens(d, a.writes, e, b.writes)
}

proof fn nodes_match(
    env: Env,
    s: State,
    d: Seq<Seq<char>>,
    i: int,
    t: State,
    e: Seq<Seq<char>>,
    j: int,
)
    requires
        known(true, env, s, d),
        known(true, env, t, e),
        plain_footprints(env.ops),
        0 <= i < d.len(),
        0 <= j < e.len(),
        d[i] == e[j],
    ensures
        matched(s.nodes[i], d, t.nodes[j], e),
{
    let (p, b, q, c, w) = twins_exist(true, env, s, d, i, t, e, j);
    let f = choose|f: nat| node_from(true, env, s, d, i, p, b, w, f);
    let h = choose|f: nat| node_from(true, env, t, e, j, q, c, w, f);
    let x = ren_pred(p, d);
    assert(find_way(env.ops, f, x, candidates(env.ops, x)) == Some(w));
    way_is_declared(env.ops, f, x, candidates(env.ops, x));
    crate::naming::candidates_declared(env.ops, x);
    let k = choose|k: int| 0 <= k < env.ops.len() && env.ops[k] == w.op;
    assert(plain_specs(env.ops[k].reads) && plain_specs(env.ops[k].writes));
    crate::naming::grounded_args_mono(b, i as nat, d.len());
    crate::naming::grounded_args_mono(c, j as nat, e.len());
    twin_resources(d, i as nat, b, e, j as nat, c, w.op.reads);
    twin_resources(d, i as nat, b, e, j as nat, c, w.op.writes);
    addresses_agree(true, env, s, d, i, t, e, j);
}

// ---------- as much is touched ----------

proof fn as_many_tokens(d: Seq<Seq<char>>, e: Seq<Seq<char>>, entity: Seq<char>, v: ValV, w: ValV)
    requires
        ren(v, d) == ren(w, e),
    ensures
        val_tokens(entity, v).len() == val_tokens(entity, w).len(),
    decreases v, 0nat,
{
    if let (ValV::List(xs), ValV::List(ys)) = (v, w) {
        assert(ren(v, d) == ValV::List(ren_list(xs, d)));
        assert(ren(w, e) == ValV::List(ren_list(ys, e)));
        as_many_in_lists(d, e, entity, xs, ys);
        assert(val_tokens(entity, v) == list_tokens(entity, xs));
        assert(val_tokens(entity, w) == list_tokens(entity, ys));
    }
}

proof fn as_many_in_lists(
    d: Seq<Seq<char>>,
    e: Seq<Seq<char>>,
    entity: Seq<char>,
    xs: Seq<ValV>,
    ys: Seq<ValV>,
)
    requires
        ren_list(xs, d) == ren_list(ys, e),
    ensures
        list_tokens(entity, xs).len() == list_tokens(entity, ys).len(),
    decreases xs, 0nat,
{
    let (rs, ts) = (ren_list(xs, d), ren_list(ys, e));
    assert(rs.len() == xs.len() && ts.len() == ys.len());
    if xs.len() > 0 {
        let (a, b) = (xs.drop_last(), ys.drop_last());
        assert(ren_list(a, d) =~= rs.drop_last());
        assert(ren_list(b, e) =~= ts.drop_last());
        as_many_in_lists(d, e, entity, a, b);
        assert(rs[xs.len() - 1] == ren(xs[xs.len() - 1], d));
        assert(ts[ys.len() - 1] == ren(ys[ys.len() - 1], e));
        as_many_tokens(d, e, entity, xs[xs.len() - 1], ys[ys.len() - 1]);
    }
}

proof fn as_many_resources(
    d: Seq<Seq<char>>,
    b: Seq<(Seq<char>, ValV)>,
    m: Seq<char>,
    e: Seq<Seq<char>>,
    c: Seq<(Seq<char>, ValV)>,
    n: Seq<char>,
    specs: Seq<Seq<char>>,
)
    requires
        ren_args(b, d) == ren_args(c, e),
    ensures
        resources(specs, b, m).len() == resources(specs, c, n).len(),
    decreases specs.len(),
{
    if specs.len() > 0 {
        as_many_resources(d, b, m, e, c, n, specs.drop_last());
        if let Some((entity, sel)) = cut(specs.last(), ':') {
            let name = trim_back(trim_front(sel, '$'), "[]"@);
            ren_lookup(b, name, d);
            ren_lookup(c, name, e);
            if let (Some(v), Some(w)) = (lookup(b, name), lookup(c, name)) {
                as_many_tokens(d, e, entity, v, w);
            }
        }
    }
}

/// Nodes with the same goal do the same work under the same key.
proof fn nodes_do_the_same(
    strict: bool,
    env: Env,
    s: State,
    d: Seq<Seq<char>>,
    i: int,
    t: State,
    e: Seq<Seq<char>>,
    j: int,
)
    requires
        known(strict, env, s, d),
        known(strict, env, t, e),
        0 <= i < d.len(),
        0 <= j < e.len(),
        d[i] == e[j],
    ensures
        same_work(s.nodes[i], t.nodes[j]),
{
    let (p, b, q, c, w) = twins_exist(strict, env, s, d, i, t, e, j);
    let f = choose|f: nat| node_from(strict, env, s, d, i, p, b, w, f);
    let h = choose|f: nat| node_from(strict, env, t, e, j, q, c, w, f);
    as_many_resources(d, b, s.nodes[i].id, e, c, t.nodes[j].id, w.op.writes);
    addresses_agree(strict, env, s, d, i, t, e, j);
}

/// Dependencies lie the same way between nodes with the same goals.
proof fn deps_carry_over(
    strict: bool,
    env: Env,
    s: State,
    d: Seq<Seq<char>>,
    i: int,
    j: int,
    t: State,
    e: Seq<Seq<char>>,
    k: int,
    l: int,
)
    requires
        known(strict, env, s, d),
        known(strict, env, t, e),
        0 <= i < d.len(),
        0 <= j < d.len(),
        0 <= k < e.len(),
        0 <= l < e.len(),
        d[i] == e[k],
        d[j] == e[l],
        s.deps.contains((node_name(i as nat), node_name(j as nat))),
    ensures
        i < j,
        k < l,
        t.deps.contains((node_name(k as nat), node_name(l as nat))),
{
    let (p, b, q, c, w) = twins_exist(strict, env, s, d, j, t, e, l);
    let f = choose|f: nat| node_from(strict, env, s, d, j, p, b, w, f);
    let h = choose|f: nat| node_from(strict, env, t, e, l, q, c, w, f);
    let (x, y) = (node_name(i as nat), node_name(k as nat));
    assert(s.nodes[j].id == node_name(j as nat) && t.nodes[l].id == node_name(l as nat));
    assert(s.deps.contains((x, s.nodes[j].id)));
    assert(named(x, j as nat));
    let a = choose|a: nat| a < j as nat && x == #[trigger] node_name(a);
    if a != i {
        node_names_differ(a, i as nat);
    }
    den_at(d, i as nat);
    den_at(e, k as nat);
    assert(w.deps.contains(d[i]));
    let m = choose|m: int| 0 <= m < l && #[trigger] e[m] == d[i];
    assert(m == k);
    assert(named(y, l as nat));
    assert(t.deps.contains((y, t.nodes[l].id)));
}

/// Along dependencies nodes come later and later, in the one state and in the other.
proof fn dep_walk(
    strict: bool,
    env: Env,
    s: State,
    d: Seq<Seq<char>>,
    t: State,
    e: Seq<Seq<char>>,
    w: Seq<Seq<char>>,
    i: int,
    k: int,
) -> (a: int)
    requires
        same_goals(strict, env, s, d, t, e),
        walk(s.deps, w),
        0 <= i < d.len(),
        w[0] == node_name(i as nat),
        0 <= k < w.len(),
    ensures
        0 <= a < d.len(),
        w[k] == node_name(a as nat),
        k > 0 ==> i < a && place(e, d[i]) < place(e, d[a]),
        k == 0 ==> a == i,
    decreases k,
{
    if k == 0 {
        i
    } else {
        let a = dep_walk(strict, env, s, d, t, e, w, i, k - 1);
        assert(step(s.deps, w, k - 1));
        let m = choose|m: int| 0 <= m < s.deps.len() && s.deps[m] == (w[k - 1], w[k - 1 + 1]);
        assert(named(s.deps[m].1, d.len()));
        let c = choose|c: nat| c < d.len() && w[k] == #[trigger] node_name(c);
        placed(d, e, a);
        placed(d, e, c as int);
        placed(d, e, i);
        deps_carry_over(strict, env, s, d, a, c as int, t, e, place(e, d[a]), place(e, d[c as int]));
        c as int
    }
}

proof fn dep_reach_orders(
    strict: bool,
    env: Env,
    s: State,
    d: Seq<Seq<char>>,
    t: State,
    e: Seq<Seq<char>>,
    i: int,
    j: int,
)
    requires
        same_goals(strict, env, s, d, t, e),
        0 <= i < d.len(),
        0 <= j < d.len(),
        reach(s.deps, node_name(i as nat), node_name(j as nat)),
    ensures
        i < j,
        place(e, d[i]) < place(e, d[j]),
{
    let w = choose|w: Seq<Seq<char>>|
        #[trigger] leads(s.deps, w, node_name(i as nat), node_name(j as nat));
    let a = dep_walk(strict, env, s, d, t, e, w, i, w.len() - 1);
    if a != j {
        node_names_differ(a as nat, j as nat);
    }
}

// ---------- edges ----------

proof fn row_edges_from(ns: Seq<NodeV>, i: int, j: int, x: (Seq<char>, Seq<char>)) -> (k: int)
    requires
        0 <= i,
        j <= ns.len(),
        row_edges(ns, i, j).contains(x),
    ensures
        i < k < j,
        pair_edge(ns[i], ns[k]) == Some(x),
    decreases j - i,
{
    let r = row_edges(ns, i, j);
    let s = row_edges(ns, i, j - 1);
    let m = choose|m: int| 0 <= m < r.len() && r[m] == x;
    if pair_edge(ns[i], ns[j - 1]) == Some(x) {
        j - 1
    } else {
        if pair_edge(ns[i], ns[j - 1]) is Some {
            assert(m < s.len());
            assert(s[m] == x);
        }
        row_edges_from(ns, i, j - 1, x)
    }
}

proof fn rows_edges_from(ns: Seq<NodeV>, n: int, x: (Seq<char>, Seq<char>)) -> (r: (int, int))
    requires
        n <= ns.len(),
        rows_edges(ns, n).contains(x),
    ensures
        0 <= r.0 < r.1 < ns.len(),
        pair_edge(ns[r.0], ns[r.1]) == Some(x),
    decreases n,
{
    let (a, b) = (rows_edges(ns, n - 1), row_edges(ns, n - 1, ns.len() as int));
    add_has(a, b);
    if b.contains(x) {
        (n - 1, row_edges_from(ns, n - 1, ns.len() as int, x))
    } else {
        rows_edges_from(ns, n - 1, x)
    }
}

/// Whether footprints demand an edge from one node to another.
spec fn demanded(ns: Seq<NodeV>, i: int, j: int) -> bool {
    if i < j {
        pair_edge(ns[i], ns[j]) == Some((ns[i].id, ns[j].id))
    } else {
        i != j && pair_edge(ns[j], ns[i]) == Some((ns[i].id, ns[j].id))
    }
}

proof fn footprint_edges_are(ns: Seq<NodeV>, i: int, j: int)
    requires
        0 <= i < ns.len(),
        0 <= j < ns.len(),
        forall|k: int| 0 <= k < ns.len() ==> (#[trigger] ns[k]).id == node_name(k as nat),
    ensures
        i != j ==> (footprint_edges(ns).contains((ns[i].id, ns[j].id)) <==> demanded(ns, i, j)),
{
    let x = (ns[i].id, ns[j].id);
    if i != j {
        if footprint_edges(ns).contains(x) {
            let (a, b) = rows_edges_from(ns, ns.len() as int, x);
            if a != i {
                node_names_differ(a as nat, i as nat);
            }
            if a != j {
                node_names_differ(a as nat, j as nat);
            }
            if b != i {
                node_names_differ(b as nat, i as nat);
            }
            if b != j {
                node_names_differ(b as nat, j as nat);
            }
        }
        if demanded(ns, i, j) {
            if i < j {
                rows_edges_has(ns, ns.len() as int, i, j);
            } else {
                rows_edges_has(ns, ns.len() as int, j, i);
            }
        }
    }
}

/// Nothing but the data decides how nodes are ordered: of two that write the same thing, one
/// depends on the other or exactly one is declared to go first, and no two that do not each read
/// what the other writes.
pub open spec fn order_is_decided(
    ns: Seq<NodeV>,
    deps: Seq<(Seq<char>, Seq<char>)>,
) -> bool {
    forall|i: int, j: int|
        0 <= i < ns.len() && 0 <= j < ns.len() && i != j ==> #[trigger] pair_decided(
            ns[i],
            ns[j],
            deps,
        )
}

pub open spec fn pair_decided(a: NodeV, b: NodeV, deps: Seq<(Seq<char>, Seq<char>)>) -> bool {
    if any_conflict(a.writes, b.writes) {
        ||| reach(deps, a.id, b.id)
        ||| reach(deps, b.id, a.id)
        ||| a.before.contains(b.op) != b.before.contains(a.op)
    } else {
        !(any_conflict(a.writes, b.reads) && any_conflict(b.writes, a.reads))
    }
}

proof fn demands_carry_over(
    env: Env,
    s: State,
    d: Seq<Seq<char>>,
    t: State,
    e: Seq<Seq<char>>,
    i: int,
    j: int,
)
    requires
        same_goals(true, env, s, d, t, e),
        plain_footprints(env.ops),
        order_is_decided(s.nodes, s.deps),
        0 <= i < d.len(),
        0 <= j < d.len(),
        i != j,
    ensures
        demanded(s.nodes, i, j) == demanded(t.nodes, place(e, d[i]), place(e, d[j])),
{
    let (k, l) = (place(e, d[i]), place(e, d[j]));
    placed(d, e, i);
    placed(d, e, j);
    nodes_match(env, s, d, i, t, e, k);
    nodes_match(env, s, d, j, t, e, l);
    let (a, b, x, y) = (s.nodes[i], s.nodes[j], t.nodes[k], t.nodes[l]);
    twin_any_conflict(d, a.writes, b.writes, e, x.writes, y.writes);
    twin_any_conflict(d, b.writes, a.writes, e, y.writes, x.writes);
    twin_any_conflict(d, a.writes, b.reads, e, x.writes, y.reads);
    twin_any_conflict(d, b.writes, a.reads, e, y.writes, x.reads);
    crate::compile_laws::conflict_is_mutual(a.writes, b.writes);
    assert(pair_decided(s.nodes[i], s.nodes[j], s.deps));
    assert(a.id == node_name(i as nat) && b.id == node_name(j as nat));
    assert(x.id == node_name(k as nat) && y.id == node_name(l as nat));
    node_names_differ(i as nat, j as nat);
    node_names_differ(k as nat, l as nat);
    if any_conflict(a.writes, b.writes) {
        if reach(s.deps, a.id, b.id) {
            dep_reach_orders(true, env, s, d, t, e, i, j);
        }
        if reach(s.deps, b.id, a.id) {
            dep_reach_orders(true, env, s, d, t, e, j, i);
        }
    }
}

/// Every edge joins two of the first `n` nodes.
spec fn among(es: Seq<(Seq<char>, Seq<char>)>, n: nat) -> bool {
    forall|x: (Seq<char>, Seq<char>)| #[trigger] es.contains(x) ==> named(x.0, n) && named(x.1, n)
}

proof fn edges_are_among(strict: bool, env: Env, s: State, d: Seq<Seq<char>>)
    requires
        known(strict, env, s, d),
    ensures
        among(all_edges(s), d.len()),
{
    let foot = footprint_edges(s.nodes);
    dedupe_ok(s.deps + foot);
    add_has(s.deps, foot);
    assert forall|x: (Seq<char>, Seq<char>)| #[trigger] all_edges(s).contains(x) implies named(
        x.0,
        d.len(),
    ) && named(x.1, d.len()) by {
        if s.deps.contains(x) {
            let k = choose|k: int| 0 <= k < s.deps.len() && s.deps[k] == x;
            assert(named(s.deps[k].0, d.len()));
        } else {
            let (a, b) = rows_edges_from(s.nodes, s.nodes.len() as int, x);
            assert(s.nodes[a].id == node_name(a as nat) && s.nodes[b].id == node_name(b as nat));
        }
    }
}

/// The edges of one graph are edges of the other, node for node.
spec fn carries(
    es: Seq<(Seq<char>, Seq<char>)>,
    d: Seq<Seq<char>>,
    fs: Seq<(Seq<char>, Seq<char>)>,
    e: Seq<Seq<char>>,
) -> bool {
    forall|i: int, j: int|
        0 <= i < d.len() && 0 <= j < d.len() && #[trigger] es.contains(
            (node_name(i as nat), node_name(j as nat)),
        ) ==> fs.contains(
            (node_name(place(e, d[i]) as nat), node_name(place(e, d[j]) as nat)),
        )
}

proof fn edges_carry_over(env: Env, s: State, d: Seq<Seq<char>>, t: State, e: Seq<Seq<char>>)
    requires
        same_goals(true, env, s, d, t, e),
        plain_footprints(env.ops),
        order_is_decided(s.nodes, s.deps),
    ensures
        forall|i: int, j: int|
            0 <= i < d.len() && 0 <= j < d.len() ==> #[trigger] all_edges(s).contains(
                (node_name(i as nat), node_name(j as nat)),
            ) == all_edges(t).contains(
                (node_name(place(e, d[i]) as nat), node_name(place(e, d[j]) as nat)),
            ),
{
    dedupe_ok(s.deps + footprint_edges(s.nodes));
    add_has(s.deps, footprint_edges(s.nodes));
    dedupe_ok(t.deps + footprint_edges(t.nodes));
    add_has(t.deps, footprint_edges(t.nodes));
    assert forall|i: int, j: int| 0 <= i < d.len() && 0 <= j < d.len() implies #[trigger] all_edges(
        s,
    ).contains((node_name(i as nat), node_name(j as nat))) == all_edges(t).contains(
        (node_name(place(e, d[i]) as nat), node_name(place(e, d[j]) as nat)),
    ) by {
        let (k, l) = (place(e, d[i]), place(e, d[j]));
        placed(d, e, i);
        placed(d, e, j);
        let x = (node_name(i as nat), node_name(j as nat));
        let y = (node_name(k as nat), node_name(l as nat));
        if i != j {
            node_names_differ(i as nat, j as nat);
            node_names_differ(k as nat, l as nat);
            demands_carry_over(env, s, d, t, e, i, j);
            assert(s.nodes[i].id == x.0 && s.nodes[j].id == x.1);
            assert(t.nodes[k].id == y.0 && t.nodes[l].id == y.1);
            footprint_edges_are(s.nodes, i, j);
            footprint_edges_are(t.nodes, k, l);
            if s.deps.contains(x) {
                deps_carry_over(true, env, s, d, i, j, t, e, k, l);
            }
            if t.deps.contains(y) {
                deps_carry_over(true, env, t, e, k, l, s, d, i, j);
            }
        }
    }
}

/// A walk in one graph is a walk in the other.
proof fn walk_carries(
    es: Seq<(Seq<char>, Seq<char>)>,
    d: Seq<Seq<char>>,
    fs: Seq<(Seq<char>, Seq<char>)>,
    e: Seq<Seq<char>>,
    i: int,
    j: int,
)
    requires
        d.to_set() == e.to_set(),
        among(es, d.len()),
        carries(es, d, fs, e),
        0 <= i < d.len(),
        0 <= j < d.len(),
        reach(es, node_name(i as nat), node_name(j as nat)),
    ensures
        reach(fs, node_name(place(e, d[i]) as nat), node_name(place(e, d[j]) as nat)),
{
    let w = choose|w: Seq<Seq<char>>| #[trigger] leads(es, w, node_name(i as nat), node_name(j as nat));
    let to = |x: Seq<char>|
        node_name(
            place(e, d[(choose|k: nat| k < d.len() && x == #[trigger] node_name(k)) as int]) as nat,
        );
    let v = w.map_values(to);
    assert forall|k: int| 0 <= k < v.len() - 1 implies #[trigger] step(fs, v, k) by {
        assert(step(es, w, k));
        let x = (w[k], w[k + 1]);
        assert(es.contains(x));
        let a = choose|a: nat| a < d.len() && x.0 == #[trigger] node_name(a);
        let b = choose|b: nat| b < d.len() && x.1 == #[trigger] node_name(b);
        assert(es.contains((node_name(a), node_name(b))));
        assert(es.contains((node_name(a as int as nat), node_name(b as int as nat))));
        name_told(d, a as int);
        name_told(d, b as int);
        assert(v[k] == to(w[k]) && v[k + 1] == to(w[k + 1]));
    }
    name_told(d, i);
    name_told(d, j);
    assert(v[0] == to(w[0]));
    assert(v.last() == to(w.last()));
    assert(leads(
        fs,
        v,
        node_name(place(e, d[i]) as nat),
        node_name(place(e, d[j]) as nat),
    ));
}

proof fn name_told(d: Seq<Seq<char>>, i: int)
    requires
        0 <= i < d.len(),
    ensures
        (choose|k: nat| k < d.len() && node_name(i as nat) == #[trigger] node_name(k)) == i,
{
    let x = node_name(i as nat);
    assert(x == node_name(i as nat));
    let k = choose|k: nat| k < d.len() && x == #[trigger] node_name(k);
    if k != i {
        node_names_differ(k, i as nat);
    }
}

/// Whether an edge carries information shows the same in both graphs.
proof fn needs_carry_over(
    es: Seq<(Seq<char>, Seq<char>)>,
    d: Seq<Seq<char>>,
    fs: Seq<(Seq<char>, Seq<char>)>,
    e: Seq<Seq<char>>,
    i: int,
    j: int,
)
    requires
        d.to_set() == e.to_set(),
        d.no_duplicates(),
        e.no_duplicates(),
        among(es, d.len()),
        carries(es, d, fs, e),
        0 <= i < d.len(),
        0 <= j < d.len(),
        redundant(es, (node_name(i as nat), node_name(j as nat))),
    ensures
        redundant(fs, (node_name(place(e, d[i]) as nat), node_name(place(e, d[j]) as nat))),
{
    let x = (node_name(i as nat), node_name(j as nat));
    let y = (node_name(place(e, d[i]) as nat), node_name(place(e, d[j]) as nat));
    let (os, ps) = (others(es, x), others(fs, y));
    assert forall|z: (Seq<char>, Seq<char>)| #[trigger] os.contains(z) implies named(z.0, d.len())
        && named(z.1, d.len()) by {
        others_are(es, x, z);
    }
    assert forall|a: int, b: int|
        0 <= a < d.len() && 0 <= b < d.len() && #[trigger] os.contains(
            (node_name(a as nat), node_name(b as nat)),
        ) implies ps.contains(
        (node_name(place(e, d[a]) as nat), node_name(place(e, d[b]) as nat)),
    ) by {
        let z = (node_name(a as nat), node_name(b as nat));
        let u = (node_name(place(e, d[a]) as nat), node_name(place(e, d[b]) as nat));
        others_are(es, x, z);
        others_are(fs, y, u);
        placed(d, e, a);
        placed(d, e, b);
        placed(d, e, i);
        placed(d, e, j);
        if u == y {
            if place(e, d[a]) != place(e, d[i]) {
                node_names_differ(place(e, d[a]) as nat, place(e, d[i]) as nat);
            }
            if place(e, d[b]) != place(e, d[j]) {
                node_names_differ(place(e, d[b]) as nat, place(e, d[j]) as nat);
            }
            assert(d[a] == d[i] && d[b] == d[j]);
        }
    }
    walk_carries(os, d, ps, e, i, j);
}

proof fn others_are(
    es: Seq<(Seq<char>, Seq<char>)>,
    x: (Seq<char>, Seq<char>),
    z: (Seq<char>, Seq<char>),
)
    ensures
        others(es, x).contains(z) <==> es.contains(z) && z != x,
{
    crate::seqs::filter_has(es, crate::reduce::differs(x), z);
}

proof fn place_back(d: Seq<Seq<char>>, e: Seq<Seq<char>>, i: int)
    requires
        d.to_set() == e.to_set(),
        d.no_duplicates(),
        0 <= i < d.len(),
    ensures
        place(d, e[place(e, d[i])]) == i,
{
    placed(d, e, i);
    placed(e, d, place(e, d[i]));
}

// ---------- the laws ----------

/// What two intents share that differ at most in the order of their wants.
pub open spec fn same_wants(a: IntentV, b: IntentV) -> bool {
    &&& a.wants.to_multiset() == b.wants.to_multiset()
    &&& a.goal == b.goal
    &&& a.forks == b.forks
    &&& a.constraints == b.constraints
}

proof fn wants_have_the_same(a: Seq<Seq<char>>, b: Seq<Seq<char>>, x: Seq<char>)
    requires
        a.to_multiset() == b.to_multiset(),
    ensures
        a.contains(x) <==> b.contains(x),
{
    a.to_multiset_ensures();
    b.to_multiset_ensures();
    assert(a.contains(x) <==> a.to_multiset().count(x) > 0);
    assert(b.contains(x) <==> b.to_multiset().count(x) > 0);
}

pub proof fn wants_stay_plain(strict: bool, a: Seq<Seq<char>>, b: Seq<Seq<char>>)
    requires
        a.to_multiset() == b.to_multiset(),
        plain_wants(strict, a),
    ensures
        plain_wants(strict, b),
{
    assert forall|i: int| 0 <= i < b.len() implies plain_want(strict, #[trigger] b[i]) by {
        wants_have_the_same(a, b, b[i]);
        assert(b.contains(b[i]));
        let k = choose|k: int| 0 <= k < a.len() && a[k] == b[i];
        assert(plain_want(strict, a[k]));
    }
}

/// What is read from a text can be told from its text, so wants that refer to no node are plain.
proof fn free_wants_are_plain(wants: Seq<Seq<char>>)
    requires
        wants_free_of_nodes(wants),
    ensures
        plain_wants(false, wants),
{
    assert forall|i: int| 0 <= i < wants.len() implies plain_want(false, #[trigger] wants[i]) by {
        if let Ok(p) = crate::pred_parse::parse_spec(wants[i]) {
            what_is_read_can_be_told(wants[i], p);
            telling_pred_clear(p);
        }
    }
}

/// No postcondition and no requirement refers to a node by its name.
pub open spec fn ops_free_of_nodes(ops: Seq<OpV>) -> bool {
    free_of_nodes(ops) && forall|i: int|
        0 <= i < ops.len() ==> ((#[trigger] ops[i]).post matches Some(p) ==> grounded_pred(p, 0))
}

/// In a world that was read from a document, only references to nodes stand in the way: where there
/// are none, the order of wants decides neither the work nor its keys.
pub proof fn derived_worlds_are_plain(doc: JsonV, w: WorldV)
    requires
        world_of(doc) == Ok::<WorldV, crate::world::WorldErrorV>(w),
        ops_free_of_nodes(w.ops),
    ensures
        plain_ops(false, w.ops),
{
    derived_requirements_can_be_told(doc);
    assert forall|i: int| 0 <= i < w.ops.len() implies plain_reqs(
        false,
        (#[trigger] w.ops[i]).requires_,
    ) by {
        let rs = w.ops[i].requires_;
        assert(reqs_told(rs));
        assert forall|j: int| 0 <= j < rs.len() implies grounded_pred(#[trigger] rs[j], 0)
            && clear_pred(false, rs[j]) by {
            assert(grounded_pred(w.ops[i].requires_[j], 0));
            telling_pred_clear(rs[j]);
        }
    }
}

/// The dependencies between the nodes of a plan, before footprints are looked at.
pub open spec fn dependencies(intent: IntentV, world: WorldV, opts: OptionsV) -> Seq<
    (Seq<char>, Seq<char>),
> {
    (satisfy_wants(env_of(intent, world, opts), depth_limit(), intent.wants)->Ok_0).deps
}

proof fn goals_are_the_same(
    strict: bool,
    i1: IntentV,
    i2: IntentV,
    world: WorldV,
    opts: OptionsV,
    p1: PlanV,
    p2: PlanV,
) -> (r: (State, Seq<Seq<char>>, State, Seq<Seq<char>>))
    requires
        same_wants(i1, i2),
        compiles_to(i1, world, opts, Ok(p1)),
        compiles_to(i2, world, opts, Ok(p2)),
        plain_ops(strict, world.ops),
        plain_wants(strict, i1.wants),
    ensures
        same_goals(strict, env_of(i1, world, opts), r.0, r.1, r.2, r.3),
        satisfy_wants(env_of(i1, world, opts), depth_limit(), i1.wants) == Ok::<
            State,
            crate::compile_model::CompileErrorV,
        >(r.0),
        satisfy_wants(env_of(i2, world, opts), depth_limit(), i2.wants) == Ok::<
            State,
            crate::compile_model::CompileErrorV,
        >(r.2),
{
    let env = env_of(i1, world, opts);
    assert(env_of(i2, world, opts) == env);
    wants_stay_plain(strict, i1.wants, i2.wants);
    let s = satisfy_wants(env, depth_limit(), i1.wants)->Ok_0;
    let t = satisfy_wants(env, depth_limit(), i2.wants)->Ok_0;
    let d = satisfy_wants_settles(strict, env, depth_limit(), i1.wants);
    let e = satisfy_wants_settles(strict, env, depth_limit(), i2.wants);
    assert forall|x: Seq<char>| d.contains(x) <==> #[trigger] e.contains(x) by {
        if d.contains(x) {
            let i = choose|i: int|
                0 <= i < i1.wants.len() && comes_up(env.ops, #[trigger] i1.wants[i], x);
            wants_have_the_same(i1.wants, i2.wants, i1.wants[i]);
            assert(i1.wants.contains(i1.wants[i]));
            let k = choose|k: int| 0 <= k < i2.wants.len() && i2.wants[k] == i1.wants[i];
            assert(comes_up(env.ops, i2.wants[k], x));
        }
        if e.contains(x) {
            let i = choose|i: int|
                0 <= i < i2.wants.len() && comes_up(env.ops, #[trigger] i2.wants[i], x);
            wants_have_the_same(i1.wants, i2.wants, i2.wants[i]);
            assert(i2.wants.contains(i2.wants[i]));
            let k = choose|k: int| 0 <= k < i1.wants.len() && i1.wants[k] == i2.wants[i];
            assert(comes_up(env.ops, i1.wants[k], x));
        }
    }
    assert(d.to_set() =~= e.to_set()) by {
        assert forall|x: Seq<char>| #[trigger] d.to_set().contains(x) <==> e.to_set().contains(
            x,
        ) by {
            assert(d.to_set().contains(x) <==> d.contains(x));
            assert(e.to_set().contains(x) <==> e.contains(x));
        }
    }
    (s, d, t, e)
}

/// The same wants in another order make the same nodes: the same operations on the same surfaces
/// under the same keys, wherever nothing refers to a node by its name.
pub proof fn want_order_keeps_the_work(
    i1: IntentV,
    i2: IntentV,
    world: WorldV,
    opts: OptionsV,
    p1: PlanV,
    p2: PlanV,
) -> (f: Seq<int>)
    requires
        same_wants(i1, i2),
        compiles_to(i1, world, opts, Ok(p1)),
        compiles_to(i2, world, opts, Ok(p2)),
        plain_ops(false, world.ops),
        wants_free_of_nodes(i1.wants),
    ensures
        pairs_up(p1.nodes.len(), p2.nodes.len(), f),
        forall|i: int| 0 <= i < f.len() ==> #[trigger] same_work(p1.nodes[i], p2.nodes[f[i]]),
{
    free_wants_are_plain(i1.wants);
    let (s, d, t, e) = goals_are_the_same(false, i1, i2, world, opts, p1, p2);
    let f = pairing(d, e);
    pairing_pairs(d, e);
    assert forall|i: int| 0 <= i < f.len() implies #[trigger] same_work(
        p1.nodes[i],
        p2.nodes[f[i]],
    ) by {
        nodes_do_the_same(false, env_of(i1, world, opts), s, d, i, t, e, f[i]);
    }
    f
}

/// The keys of a plan.
pub open spec fn carries_key(p: PlanV, k: Seq<char>) -> bool {
    exists|i: int| 0 <= i < p.nodes.len() && (#[trigger] p.nodes[i]).key == Some(k)
}

/// The same wants in the opposite order carry the same keys, so that a run of the one plan
/// finishes what a run of the other has begun.
pub proof fn reversed_wants_keep_the_keys(
    i1: IntentV,
    i2: IntentV,
    world: WorldV,
    opts: OptionsV,
    p1: PlanV,
    p2: PlanV,
)
    requires
        i2 == (IntentV { wants: i1.wants.reverse(), ..i1 }),
        compiles_to(i1, world, opts, Ok(p1)),
        compiles_to(i2, world, opts, Ok(p2)),
        plain_ops(false, world.ops),
        wants_free_of_nodes(i1.wants),
    ensures
        forall|k: Seq<char>| #[trigger] carries_key(p1, k) <==> carries_key(p2, k),
{
    i1.wants.lemma_reverse_to_multiset();
    let f = want_order_keeps_the_work(i1, i2, world, opts, p1, p2);
    assert(i2.wants.reverse() =~= i1.wants);
    i2.wants.lemma_reverse_to_multiset();
    assert forall|i: int| 0 <= i < i2.wants.len() implies (crate::pred_parse::parse_spec(
        #[trigger] i2.wants[i],
    ) matches Ok(p) ==> grounded_pred(p, 0)) by {
        assert(i2.wants[i] == i1.wants[i1.wants.len() - 1 - i]);
    }
    let g = want_order_keeps_the_work(i2, i1, world, opts, p2, p1);
    assert forall|k: Seq<char>| #[trigger] carries_key(p1, k) <==> carries_key(p2, k) by {
        if carries_key(p1, k) {
            let i = choose|i: int| 0 <= i < p1.nodes.len() && (#[trigger] p1.nodes[i]).key == Some(
                k,
            );
            assert(same_work(p1.nodes[i], p2.nodes[f[i]]));
            assert(p2.nodes[f[i]].key == Some(k));
        }
        if carries_key(p2, k) {
            let i = choose|i: int| 0 <= i < p2.nodes.len() && (#[trigger] p2.nodes[i]).key == Some(
                k,
            );
            assert(same_work(p2.nodes[i], p1.nodes[g[i]]));
            assert(p1.nodes[g[i]].key == Some(k));
        }
    }
}

/// The order of wants does not show: wherever nothing but the data decides how nodes are ordered,
/// the same wants in another order give the same plan, up to the names of its nodes.
pub proof fn want_order_does_not_show(
    i1: IntentV,
    i2: IntentV,
    world: WorldV,
    opts: OptionsV,
    p1: PlanV,
    p2: PlanV,
) -> (f: Seq<int>)
    requires
        same_wants(i1, i2),
        compiles_to(i1, world, opts, Ok(p1)),
        compiles_to(i2, world, opts, Ok(p2)),
        plain_ops(true, world.ops),
        plain_footprints(world.ops),
        plain_wants(true, i1.wants),
        order_is_decided(p1.nodes, dependencies(i1, world, opts)),
    ensures
        same_dag(p1, p2, f),
{
    let env = env_of(i1, world, opts);
    let (s, d, t, e) = goals_are_the_same(true, i1, i2, world, opts, p1, p2);
    let f = pairing(d, e);
    pairing_pairs(d, e);
    assert forall|i: int| 0 <= i < f.len() implies #[trigger] same_work(
        p1.nodes[i],
        p2.nodes[f[i]],
    ) by {
        nodes_match(env, s, d, i, t, e, f[i]);
    }
    edges_carry_over(env, s, d, t, e);
    edges_are_among(true, env, s, d);
    edges_are_among(true, env, t, e);
    let (es, fs) = (all_edges(s), all_edges(t));
    reduce_contains(ids_of(s.nodes), es);
    reduce_contains(ids_of(t.nodes), fs);
    assert(carries(es, d, fs, e));
    assert(carries(fs, e, es, d)) by {
        assert forall|k: int, l: int|
            0 <= k < e.len() && 0 <= l < e.len() && #[trigger] fs.contains(
                (node_name(k as nat), node_name(l as nat)),
            ) implies es.contains(
            (node_name(place(d, e[k]) as nat), node_name(place(d, e[l]) as nat)),
        ) by {
            let (i, j) = (place(d, e[k]), place(d, e[l]));
            placed(e, d, k);
            placed(e, d, l);
            place_back(e, d, k);
            place_back(e, d, l);
            assert(es.contains((node_name(i as nat), node_name(j as nat))) == fs.contains(
                (node_name(place(e, d[i]) as nat), node_name(place(e, d[j]) as nat)),
            ));
        }
    }
    assert forall|i: int, j: int|
        #![trigger p1.edges.contains((p1.nodes[i].id, p1.nodes[j].id))]
        #![trigger p2.edges.contains((p2.nodes[f[i]].id, p2.nodes[f[j]].id))]
        0 <= i < f.len() && 0 <= j < f.len() implies (p1.edges.contains(
        (p1.nodes[i].id, p1.nodes[j].id),
    ) <==> p2.edges.contains((p2.nodes[f[i]].id, p2.nodes[f[j]].id))) by {
        placed(d, e, i);
        placed(d, e, j);
        let (k, l) = (f[i], f[j]);
        assert(k == place(e, d[i]) && l == place(e, d[j]));
        let x = (node_name(i as nat), node_name(j as nat));
        let y = (node_name(k as nat), node_name(l as nat));
        assert(s.nodes[i].id == x.0 && s.nodes[j].id == x.1);
        assert(t.nodes[k].id == y.0 && t.nodes[l].id == y.1);
        assert(es.contains(x) == fs.contains(y));
        if redundant(es, x) {
            needs_carry_over(es, d, fs, e, i, j);
        }
        if redundant(fs, y) {
            needs_carry_over(fs, e, es, d, k, l);
            place_back(d, e, i);
            place_back(d, e, j);
        }
    }
    f
}

} // verus!
