//! The fingerprint of a world model: everything a plan depends on. A recipe or a cache that keeps
//! it notices a drifted app before anything runs.

use crate::code::{code, code_tells, pred_tree, pred_tree_tells, push_code, three, tree_of, two};
use crate::compile_model::{compiles_to, CompileErrorV, OptionsV};
use crate::hash::{hash_prefix, hash_text};
use crate::intent::IntentV;
use crate::json::{clone_obj, list_push, list_view, Json, JsonV};
use crate::order::{sort_strings, sorted, sorted_ignores_order};
use crate::plan::PlanV;
use crate::pred::{preds_view, Pred, PredV};
use crate::text::views;
use crate::world::{
    entities_view, ops_view, params_view, surfaces_view, CheckV, Check, Entity, EntityV, Fork,
    ForkV, Op, OpKind, OpV, Param, ParamIn, ParamV, UiSpec, UiSpecV, World, WorldV,
};
use vstd::prelude::*;

verus! {

pub open spec fn kind_number(k: OpKind) -> int {
    match k {
        OpKind::Http => 0,
        OpKind::Ui => 1,
        OpKind::Event => 2,
    }
}

pub open spec fn place_number(p: ParamIn) -> int {
    match p {
        ParamIn::Path => 0,
        ParamIn::Query => 1,
        ParamIn::Body => 2,
    }
}

pub open spec fn texts_tree(xs: Seq<Seq<char>>) -> JsonV {
    JsonV::List(xs.map_values(|s: Seq<char>| JsonV::Str(s)))
}

pub open spec fn preds_tree(ps: Seq<PredV>) -> JsonV {
    JsonV::List(ps.map_values(|p: PredV| pred_tree(p)))
}

pub open spec fn param_tree(p: ParamV) -> JsonV {
    JsonV::List(seq![JsonV::Str(p.name), JsonV::Int(place_number(p.location))])
}

pub open spec fn params_tree(ps: Seq<ParamV>) -> JsonV {
    JsonV::List(ps.map_values(|p: ParamV| param_tree(p)))
}

pub open spec fn surface_tree(s: (Seq<char>, u32)) -> JsonV {
    JsonV::List(seq![JsonV::Str(s.0), JsonV::Int(s.1 as int)])
}

pub open spec fn surfaces_tree(ss: Seq<(Seq<char>, u32)>) -> JsonV {
    JsonV::List(ss.map_values(|s: (Seq<char>, u32)| surface_tree(s)))
}

pub open spec fn text_tree(o: Option<Seq<char>>) -> JsonV {
    match o {
        Some(x) => JsonV::Str(x),
        None => JsonV::Null,
    }
}

pub open spec fn post_tree(o: Option<PredV>) -> JsonV {
    match o {
        Some(p) => pred_tree(p),
        None => JsonV::Null,
    }
}

pub open spec fn fork_tree(o: Option<ForkV>) -> JsonV {
    match o {
        Some(f) => JsonV::List(
            seq![JsonV::Str(f.when), JsonV::Str(f.ask), text_tree(f.default)],
        ),
        None => JsonV::Null,
    }
}

pub open spec fn ui_tree(o: Option<UiSpecV>) -> JsonV {
    match o {
        Some(u) => JsonV::List(seq![JsonV::Str(u.route), u.control]),
        None => JsonV::Null,
    }
}

pub open spec fn check_tree(o: Option<CheckV>) -> JsonV {
    match o {
        Some(c) => JsonV::List(
            seq![JsonV::Str(c.op), JsonV::Str(c.arg), JsonV::Str(c.field), c.value],
        ),
        None => JsonV::Null,
    }
}

/// An operation, all of it.
pub open spec fn op_tree(o: OpV) -> JsonV {
    JsonV::List(
        seq![
            JsonV::Str(o.name),
            JsonV::Int(kind_number(o.kind)),
            JsonV::Str(o.method),
            JsonV::Str(o.path),
            params_tree(o.params),
            post_tree(o.post),
            preds_tree(o.requires_),
            text_tree(o.produces),
            texts_tree(o.reads),
            texts_tree(o.writes),
            JsonV::Bool(o.external),
            surfaces_tree(o.surfaces),
            JsonV::Obj(o.defaults),
            fork_tree(o.fork),
            ui_tree(o.ui),
            check_tree(o.check),
            texts_tree(o.before),
        ],
    )
}

pub open spec fn ops_tree(os: Seq<OpV>) -> JsonV {
    JsonV::List(os.map_values(|o: OpV| op_tree(o)))
}

/// An entity. The order of its fields does not show.
pub open spec fn entity_tree(e: EntityV) -> JsonV {
    JsonV::List(seq![JsonV::Str(e.name), JsonV::Str(e.id), texts_tree(sorted(e.fields))])
}

pub open spec fn entities_tree(es: Seq<EntityV>) -> JsonV {
    JsonV::List(es.map_values(|e: EntityV| entity_tree(e)))
}

/// What the fingerprint is taken of: the operations as they are declared, and the entities.
pub open spec fn print_of(w: WorldV) -> Seq<char> {
    code(JsonV::List(seq![ops_tree(w.ops), entities_tree(w.entities)]))
}

/// The fingerprint of a world model.
pub open spec fn fingerprint_of(w: WorldV) -> Seq<char> {
    hash_text(print_of(w), 16)
}

// ---------- what the print tells ----------

/// An entity shows the same in whatever order its fields are listed.
pub proof fn entity_print_ignores_order(a: EntityV, b: EntityV)
    requires
        a.name == b.name,
        a.id == b.id,
        a.fields.to_multiset() == b.fields.to_multiset(),
    ensures
        entity_tree(a) == entity_tree(b),
{
    sorted_ignores_order(a.fields, b.fields);
}

proof fn texts_tell(a: Seq<Seq<char>>, b: Seq<Seq<char>>)
    requires
        texts_tree(a) == texts_tree(b),
    ensures
        a == b,
{
    let f = |s: Seq<char>| JsonV::Str(s);
    let (x, y) = (a.map_values(f), b.map_values(f));
    assert(x == y);
    assert(x.len() == a.len() && y.len() == b.len());
    assert forall|i: int| 0 <= i < a.len() implies a[i] == b[i] by {
        assert(x[i] == JsonV::Str(a[i]) && y[i] == JsonV::Str(b[i]));
    }
    assert(a =~= b);
}

proof fn preds_tell(a: Seq<PredV>, b: Seq<PredV>)
    requires
        preds_tree(a) == preds_tree(b),
    ensures
        a == b,
{
    let f = |p: PredV| pred_tree(p);
    let (x, y) = (a.map_values(f), b.map_values(f));
    assert(x == y);
    assert(x.len() == a.len() && y.len() == b.len());
    assert forall|i: int| 0 <= i < a.len() implies a[i] == b[i] by {
        assert(x[i] == pred_tree(a[i]) && y[i] == pred_tree(b[i]));
        pred_tree_tells(a[i], b[i]);
    }
    assert(a =~= b);
}

proof fn params_tell(a: Seq<ParamV>, b: Seq<ParamV>)
    requires
        params_tree(a) == params_tree(b),
    ensures
        a == b,
{
    let f = |p: ParamV| param_tree(p);
    let (x, y) = (a.map_values(f), b.map_values(f));
    assert(x == y);
    assert(x.len() == a.len() && y.len() == b.len());
    assert forall|i: int| 0 <= i < a.len() implies a[i] == b[i] by {
        assert(x[i] == param_tree(a[i]) && y[i] == param_tree(b[i]));
        let (u, v) = (x[i]->List_0, y[i]->List_0);
        assert(u[0] == v[0] && u[1] == v[1]);
    }
    assert(a =~= b);
}

proof fn surfaces_tell(a: Seq<(Seq<char>, u32)>, b: Seq<(Seq<char>, u32)>)
    requires
        surfaces_tree(a) == surfaces_tree(b),
    ensures
        a == b,
{
    let f = |s: (Seq<char>, u32)| surface_tree(s);
    let (x, y) = (a.map_values(f), b.map_values(f));
    assert(x == y);
    assert(x.len() == a.len() && y.len() == b.len());
    assert forall|i: int| 0 <= i < a.len() implies a[i] == b[i] by {
        assert(x[i] == surface_tree(a[i]) && y[i] == surface_tree(b[i]));
        let (u, v) = (x[i]->List_0, y[i]->List_0);
        assert(u[0] == v[0] && u[1] == v[1]);
    }
    assert(a =~= b);
}

proof fn extras_tell(a: OpV, b: OpV)
    requires
        fork_tree(a.fork) == fork_tree(b.fork),
        ui_tree(a.ui) == ui_tree(b.ui),
        check_tree(a.check) == check_tree(b.check),
    ensures
        a.fork == b.fork,
        a.ui == b.ui,
        a.check == b.check,
{
    if a.fork is Some {
        let (u, v) = (fork_tree(a.fork)->List_0, fork_tree(b.fork)->List_0);
        assert(u[0] == v[0] && u[1] == v[1] && u[2] == v[2]);
    }
    if a.ui is Some {
        let (u, v) = (ui_tree(a.ui)->List_0, ui_tree(b.ui)->List_0);
        assert(u[0] == v[0] && u[1] == v[1]);
    }
    if a.check is Some {
        let (u, v) = (check_tree(a.check)->List_0, check_tree(b.check)->List_0);
        assert(u[0] == v[0] && u[1] == v[1] && u[2] == v[2] && u[3] == v[3]);
    }
}

proof fn op_tells(a: OpV, b: OpV)
    requires
        op_tree(a) == op_tree(b),
    ensures
        a == b,
{
    let (u, v) = (op_tree(a)->List_0, op_tree(b)->List_0);
    assert(u[0] == v[0] && u[1] == v[1] && u[2] == v[2] && u[3] == v[3]);
    assert(u[4] == v[4] && u[5] == v[5] && u[6] == v[6] && u[7] == v[7]);
    assert(u[8] == v[8] && u[9] == v[9] && u[10] == v[10] && u[11] == v[11]);
    assert(u[12] == v[12] && u[13] == v[13] && u[14] == v[14] && u[15] == v[15]);
    assert(u[16] == v[16]);
    params_tell(a.params, b.params);
    preds_tell(a.requires_, b.requires_);
    if a.post is Some && b.post is Some {
        pred_tree_tells(a.post->0, b.post->0);
    }
    texts_tell(a.reads, b.reads);
    texts_tell(a.writes, b.writes);
    texts_tell(a.before, b.before);
    surfaces_tell(a.surfaces, b.surfaces);
    extras_tell(a, b);
}

/// Worlds with one print have the same operations, in the same order.
pub proof fn one_print_one_set_of_operations(a: WorldV, b: WorldV)
    requires
        print_of(a) == print_of(b),
    ensures
        a.ops == b.ops,
{
    let (x, y) = (
        JsonV::List(seq![ops_tree(a.ops), entities_tree(a.entities)]),
        JsonV::List(seq![ops_tree(b.ops), entities_tree(b.entities)]),
    );
    code_tells(x, y);
    assert(x->List_0[0] == y->List_0[0]);
    let f = |o: OpV| op_tree(o);
    let (u, v) = (a.ops.map_values(f), b.ops.map_values(f));
    assert(u == v);
    assert(u.len() == a.ops.len() && v.len() == b.ops.len());
    assert forall|i: int| 0 <= i < a.ops.len() implies a.ops[i] == b.ops[i] by {
        assert(u[i] == op_tree(a.ops[i]) && v[i] == op_tree(b.ops[i]));
        op_tells(a.ops[i], b.ops[i]);
    }
    assert(a.ops =~= b.ops);
}

/// Two worlds with one print compile the same wants the same way. (Their fingerprints are hashes
/// of the print.)
pub proof fn one_print_compiles_one_way(
    a: WorldV,
    b: WorldV,
    intent: IntentV,
    opts: OptionsV,
    r: Result<PlanV, CompileErrorV>,
)
    requires
        print_of(a) == print_of(b),
    ensures
        compiles_to(intent, a, opts, r) == compiles_to(intent, b, opts, r),
{
    one_print_one_set_of_operations(a, b);
}

// ---------- writing it down ----------

fn tree_of_texts(xs: &Vec<String>) -> (r: Json)
    ensures
        r@ == texts_tree(views(xs@)),
{
    let ghost all = texts_tree(views(xs@))->List_0;
    let mut out: Vec<Json> = Vec::new();
    let mut i: usize = 0;
    assert(list_view(out@) =~= all.take(0));
    while i < xs.len()
        invariant
            i <= xs@.len() == all.len(),
            all == texts_tree(views(xs@))->List_0,
            list_view(out@) == all.take(i as int),
        decreases xs@.len() - i,
    {
        let x = Json::Str(xs[i].clone());
        proof {
            list_push(out@, x);
            assert(all[i as int] == JsonV::Str(views(xs@)[i as int]));
        }
        out.push(x);
        i += 1;
        assert(list_view(out@) =~= all.take(i as int));
    }
    assert(all.take(i as int) =~= all);
    Json::List(out)
}

fn tree_of_preds(xs: &Vec<Pred>) -> (r: Json)
    ensures
        r@ == preds_tree(preds_view(xs@)),
{
    let ghost all = preds_tree(preds_view(xs@))->List_0;
    let mut out: Vec<Json> = Vec::new();
    let mut i: usize = 0;
    assert(list_view(out@) =~= all.take(0));
    while i < xs.len()
        invariant
            i <= xs@.len() == all.len(),
            all == preds_tree(preds_view(xs@))->List_0,
            list_view(out@) == all.take(i as int),
        decreases xs@.len() - i,
    {
        let x = tree_of(&xs[i]);
        proof {
            list_push(out@, x);
            assert(all[i as int] == pred_tree(xs@[i as int]@));
        }
        out.push(x);
        i += 1;
        assert(list_view(out@) =~= all.take(i as int));
    }
    assert(all.take(i as int) =~= all);
    Json::List(out)
}

fn tree_of_param(p: &Param) -> (r: Json)
    ensures
        r@ == param_tree(p@),
{
    let n: i128 = match p.location {
        ParamIn::Path => 0,
        ParamIn::Query => 1,
        ParamIn::Body => 2,
    };
    two(Json::Str(p.name.clone()), Json::Int(n))
}

fn tree_of_params(xs: &Vec<Param>) -> (r: Json)
    ensures
        r@ == params_tree(params_view(xs@)),
{
    let ghost all = params_tree(params_view(xs@))->List_0;
    let mut out: Vec<Json> = Vec::new();
    let mut i: usize = 0;
    assert(list_view(out@) =~= all.take(0));
    while i < xs.len()
        invariant
            i <= xs@.len() == all.len(),
            all == params_tree(params_view(xs@))->List_0,
            list_view(out@) == all.take(i as int),
        decreases xs@.len() - i,
    {
        let x = tree_of_param(&xs[i]);
        proof {
            list_push(out@, x);
            assert(all[i as int] == param_tree(xs@[i as int]@));
        }
        out.push(x);
        i += 1;
        assert(list_view(out@) =~= all.take(i as int));
    }
    assert(all.take(i as int) =~= all);
    Json::List(out)
}

fn tree_of_surfaces(xs: &Vec<(String, u32)>) -> (r: Json)
    ensures
        r@ == surfaces_tree(surfaces_view(xs@)),
{
    let ghost all = surfaces_tree(surfaces_view(xs@))->List_0;
    let mut out: Vec<Json> = Vec::new();
    let mut i: usize = 0;
    assert(list_view(out@) =~= all.take(0));
    while i < xs.len()
        invariant
            i <= xs@.len() == all.len(),
            all == surfaces_tree(surfaces_view(xs@))->List_0,
            list_view(out@) == all.take(i as int),
        decreases xs@.len() - i,
    {
        let x = two(Json::Str(xs[i].0.clone()), Json::Int(xs[i].1 as i128));
        proof {
            list_push(out@, x);
            assert(all[i as int] == surface_tree((xs@[i as int].0@, xs@[i as int].1)));
        }
        out.push(x);
        i += 1;
        assert(list_view(out@) =~= all.take(i as int));
    }
    assert(all.take(i as int) =~= all);
    Json::List(out)
}

fn tree_of_text(o: &Option<String>) -> (r: Json)
    ensures
        r@ == text_tree(crate::world::opt_str(*o)),
{
    match o {
        Some(s) => Json::Str(s.clone()),
        None => Json::Null,
    }
}

fn tree_of_fork(o: &Option<Fork>) -> (r: Json)
    ensures
        r@ == fork_tree(crate::world::opt_fork(*o)),
{
    match o {
        Some(f) => three(
            Json::Str(f.when.clone()),
            Json::Str(f.ask.clone()),
            tree_of_text(&f.default),
        ),
        None => Json::Null,
    }
}

fn tree_of_ui(o: &Option<UiSpec>) -> (r: Json)
    ensures
        r@ == ui_tree(crate::world::opt_ui(*o)),
{
    match o {
        Some(u) => two(Json::Str(u.route.clone()), u.control.clone()),
        None => Json::Null,
    }
}

fn tree_of_check(o: &Option<Check>) -> (r: Json)
    ensures
        r@ == check_tree(crate::world::opt_check(*o)),
{
    match o {
        Some(c) => {
            let xs = vec![
                Json::Str(c.op.clone()),
                Json::Str(c.arg.clone()),
                Json::Str(c.field.clone()),
                c.value.clone(),
            ];
            assert(list_view(xs@) =~= check_tree(Some(c@))->List_0);
            Json::List(xs)
        },
        None => Json::Null,
    }
}

fn tree_of_op(o: &Op) -> (r: Json)
    ensures
        r@ == op_tree(o@),
{
    let kind: i128 = match o.kind {
        OpKind::Http => 0,
        OpKind::Ui => 1,
        OpKind::Event => 2,
    };
    let post = match &o.post {
        Some(p) => tree_of(p),
        None => Json::Null,
    };
    let xs = vec![
        Json::Str(o.name.clone()),
        Json::Int(kind),
        Json::Str(o.method.clone()),
        Json::Str(o.path.clone()),
        tree_of_params(&o.params),
        post,
        tree_of_preds(&o.requires_),
        tree_of_text(&o.produces),
        tree_of_texts(&o.reads),
        tree_of_texts(&o.writes),
        Json::Bool(o.external),
        tree_of_surfaces(&o.surfaces),
        Json::Obj(clone_obj(&o.defaults)),
        tree_of_fork(&o.fork),
        tree_of_ui(&o.ui),
        tree_of_check(&o.check),
        tree_of_texts(&o.before),
    ];
    assert(list_view(xs@) =~= op_tree(o@)->List_0);
    Json::List(xs)
}

fn tree_of_entity(e: &Entity) -> (r: Json)
    ensures
        r@ == entity_tree(e@),
{
    let fields = sort_strings(&e.fields);
    three(Json::Str(e.name.clone()), Json::Str(e.id.clone()), tree_of_texts(&fields))
}

impl World {
    /// A stable hash of everything a plan depends on: which operations exist and in what order,
    /// what they take, promise and touch, and where they can be reached. Two apps with the same
    /// fingerprint compile the same wants the same way.
    pub fn fingerprint(&self) -> (r: String)
        ensures
            r@ == fingerprint_of(self@),
            r@.len() == 32,
    {
        let ghost os = ops_tree(ops_view(self.ops@))->List_0;
        let mut ops: Vec<Json> = Vec::new();
        let mut i: usize = 0;
        assert(list_view(ops@) =~= os.take(0));
        while i < self.ops.len()
            invariant
                i <= self.ops@.len() == os.len(),
                os == ops_tree(ops_view(self.ops@))->List_0,
                list_view(ops@) == os.take(i as int),
            decreases self.ops@.len() - i,
        {
            let x = tree_of_op(&self.ops[i]);
            proof {
                list_push(ops@, x);
                assert(os[i as int] == op_tree(self.ops@[i as int]@));
            }
            ops.push(x);
            i += 1;
            assert(list_view(ops@) =~= os.take(i as int));
        }
        assert(os.take(i as int) =~= os);
        let ghost es = entities_tree(entities_view(self.entities@))->List_0;
        let mut entities: Vec<Json> = Vec::new();
        let mut j: usize = 0;
        assert(list_view(entities@) =~= es.take(0));
        while j < self.entities.len()
            invariant
                j <= self.entities@.len() == es.len(),
                es == entities_tree(entities_view(self.entities@))->List_0,
                list_view(entities@) == es.take(j as int),
            decreases self.entities@.len() - j,
        {
            let x = tree_of_entity(&self.entities[j]);
            proof {
                list_push(entities@, x);
                assert(es[j as int] == entity_tree(self.entities@[j as int]@));
            }
            entities.push(x);
            j += 1;
            assert(list_view(entities@) =~= es.take(j as int));
        }
        assert(es.take(j as int) =~= es);
        let all = two(Json::List(ops), Json::List(entities));
        let mut out = String::new();
        push_code(&mut out, &all);
        assert(out@ =~= print_of(self@));
        hash_prefix(out.as_str(), 16)
    }
}

} // verus!
