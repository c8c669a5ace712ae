//! Reading a world model for what cannot be right. No app needs to be running.
//!
//! A wrong block does not fail loudly: it compiles a plan that is quietly incorrect.

use crate::cut::{cut, ends_with, split_once, strip_prefix, trim_back, trim_end_str, without_prefix, without_suffix};
use crate::graph::{edges_view, reach, reachable};
use crate::json::JsonV;
use crate::pred::{args_view, vals_view, Pred, PredV, Val, ValV};
use crate::text::{list_has, owned, same, views};
use crate::world::{
    entities_view, ops_view, params_view, Entity, EntityV, Op, OpKind, OpV, ParamV, World,
    WorldV,
};
use vstd::prelude::*;

verus! {

/// Something wrong with the world model itself, found by reading it.
#[derive(Debug)]
pub struct Finding {
    /// The operation this is about, or `(document)` for the model as a whole.
    pub op: String,
    /// A stable name to branch on.
    pub code: &'static str,
    pub message: String,
    /// `true` when a plan compiled against this model can be *wrong*, not merely poorer.
    pub fatal: bool,
}

/// The mathematical content of a `Finding`.
pub struct FindingV {
    pub op: Seq<char>,
    pub code: Seq<char>,
    pub message: Seq<char>,
    pub fatal: bool,
}

impl View for Finding {
    type V = FindingV;

    open spec fn view(&self) -> FindingV {
        FindingV { op: self.op@, code: self.code@, message: self.message@, fatal: self.fatal }
    }
}

pub open spec fn findings_view(fs: Seq<Finding>) -> Seq<FindingV> {
    fs.map_values(|f: Finding| f@)
}

// ---------- variables ----------

/// The variables that a value mentions, in the order of the text.
pub open spec fn vars_in(v: ValV) -> Seq<Seq<char>>
    decreases v,
{
    match v {
        ValV::Var(n, _) => seq![n],
        ValV::List(xs) => vars_in_list(xs),
        ValV::Each(xs) => vars_in_list(xs),
        ValV::All(x) => vars_in(*x),
        ValV::Entity(p) => vars_in_pred(*p),
        _ => Seq::empty(),
    }
}

pub open spec fn vars_in_list(xs: Seq<ValV>) -> Seq<Seq<char>>
    decreases xs,
{
    if xs.len() == 0 {
        Seq::empty()
    } else {
        vars_in_list(xs.drop_last()) + vars_in(xs[xs.len() - 1])
    }
}

pub open spec fn vars_in_args(xs: Seq<(Seq<char>, ValV)>) -> Seq<Seq<char>>
    decreases xs,
{
    if xs.len() == 0 {
        Seq::empty()
    } else {
        vars_in_args(xs.drop_last()) + vars_in(xs[xs.len() - 1].1)
    }
}

pub open spec fn vars_in_pred(p: PredV) -> Seq<Seq<char>>
    decreases p,
{
    vars_in_args(p.args) + vars_in(p.value)
}

fn push_vars_list(xs: &Vec<Val>, out: &mut Vec<String>)
    ensures
        views(final(out)@) == views(old(out)@) + vars_in_list(vals_view(xs@)),
    decreases xs,
{
    let ghost before = views(out@);
    let ghost vs = vals_view(xs@);
    let mut i: usize = 0;
    assert(before + vars_in_list(vs.take(0)) =~= before);
    while i < xs.len()
        invariant
            i <= xs@.len(),
            vs == vals_view(xs@),
            views(out@) == before + vars_in_list(vs.take(i as int)),
        decreases xs@.len() - i,
    {
        vars_of(&xs[i], out);
        proof {
            let p = vs.take(i + 1);
            assert(p.drop_last() =~= vs.take(i as int));
            assert(p[p.len() - 1] == xs@[i as int]@);
        }
        i += 1;
        assert(views(out@) =~= before + vars_in_list(vs.take(i as int)));
    }
    assert(vs.take(i as int) =~= vs);
}

fn push_vars_pred(p: &Pred, out: &mut Vec<String>)
    ensures
        views(final(out)@) == views(old(out)@) + vars_in_pred(p@),
    decreases p,
{
    let ghost before = views(out@);
    let ghost vs = args_view(p.args@);
    let mut i: usize = 0;
    assert(before + vars_in_args(vs.take(0)) =~= before);
    while i < p.args.len()
        invariant
            i <= p.args@.len(),
            vs == args_view(p.args@),
            views(out@) == before + vars_in_args(vs.take(i as int)),
            decreases_to!(p => p.args),
        decreases p.args@.len() - i,
    {
        vars_of(&p.args[i].1, out);
        proof {
            let q = vs.take(i + 1);
            assert(q.drop_last() =~= vs.take(i as int));
            assert(q[q.len() - 1] == (p.args@[i as int].0@, p.args@[i as int].1@));
        }
        i += 1;
        assert(views(out@) =~= before + vars_in_args(vs.take(i as int)));
    }
    assert(vs.take(i as int) =~= vs);
    vars_of(&p.value, out);
    assert(views(out@) =~= before + vars_in_pred(p@));
}

/// Append the variables that a value mentions.
pub fn vars_of(v: &Val, out: &mut Vec<String>)
    ensures
        views(final(out)@) == views(old(out)@) + vars_in(v@),
    decreases v,
{
    let ghost before = views(out@);
    match v {
        Val::Var(n, _) => {
            out.push(n.clone());
            assert(views(out@) =~= before + seq![n@]);
        },
        Val::List(xs) => push_vars_list(xs, out),
        Val::Each(xs) => push_vars_list(xs, out),
        Val::All(x) => vars_of(x, out),
        Val::Entity(p) => push_vars_pred(p, out),
        _ => {
            assert(before + Seq::<Seq<char>>::empty() =~= before);
        },
    }
}

/// The variables that a predicate mentions.
pub fn pred_vars(p: &Pred) -> (r: Vec<String>)
    ensures
        views(r@) == vars_in_pred(p@),
{
    let mut out: Vec<String> = Vec::new();
    push_vars_pred(p, &mut out);
    assert(views(Seq::<String>::empty()) + vars_in_pred(p@) =~= vars_in_pred(p@));
    out
}

// ---------- what a name can mean ----------

/// The entity of that name. A later one takes the place of an earlier one.
pub open spec fn last_entity(es: Seq<EntityV>, name: Seq<char>) -> Option<EntityV>
    decreases es.len(),
{
    if es.len() == 0 {
        None
    } else if es.last().name == name {
        Some(es.last())
    } else {
        last_entity(es.drop_last(), name)
    }
}

fn known<'a>(es: &'a Vec<Entity>, name: &str) -> (r: Option<&'a Entity>)
    ensures
        match r {
            Some(e) => last_entity(entities_view(es@), name@) == Some(e@),
            None => last_entity(entities_view(es@), name@) is None,
        },
{
    let ghost vs = entities_view(es@);
    let mut i: usize = es.len();
    assert(vs.take(i as int) =~= vs);
    while i > 0
        invariant
            i <= es@.len(),
            vs == entities_view(es@),
            last_entity(vs, name@) == last_entity(vs.take(i as int), name@),
        decreases i,
    {
        proof {
            assert(vs.take(i as int).drop_last() =~= vs.take(i - 1));
            assert(vs.take(i as int).last() == es@[i - 1]@);
        }
        i -= 1;
        if same(es[i].name.as_str(), name) {
            return Some(&es[i]);
        }
    }
    None
}

/// The names of parameters.
pub open spec fn param_names(ps: Seq<ParamV>) -> Seq<Seq<char>> {
    ps.map_values(|p: ParamV| p.name)
}

/// The names that have a default.
pub open spec fn default_names(ds: Seq<(Seq<char>, JsonV)>) -> Seq<Seq<char>> {
    ds.map_values(|d: (Seq<char>, JsonV)| d.0)
}

/// What a `$var` of an operation can be filled from: its parameters and its defaults.
pub open spec fn fillable(o: OpV) -> Seq<Seq<char>> {
    param_names(o.params) + default_names(o.defaults)
}

fn fillable_names(o: &Op) -> (r: Vec<String>)
    ensures
        views(r@) == fillable(o@),
{
    let ghost a = param_names(o@.params);
    let ghost b = default_names(o@.defaults);
    let mut out: Vec<String> = Vec::new();
    let mut i: usize = 0;
    assert(views(out@) =~= a.take(0));
    while i < o.params.len()
        invariant
            i <= o.params@.len() == a.len(),
            a == param_names(params_view(o.params@)),
            views(out@) == a.take(i as int),
        decreases o.params@.len() - i,
    {
        let ghost s = views(out@);
        out.push(o.params[i].name.clone());
        assert(views(out@) =~= s.push(o.params@[i as int].name@));
        assert(a[i as int] == o.params@[i as int].name@);
        i += 1;
        assert(views(out@) =~= a.take(i as int));
    }
    assert(a.take(i as int) =~= a);
    let mut j: usize = 0;
    assert(a + b.take(0) =~= a);
    assert(o@.defaults == crate::json::obj_view(o.defaults@));
    while j < o.defaults.len()
        invariant
            j <= o.defaults@.len() == b.len(),
            b == default_names(crate::json::obj_view(o.defaults@)),
            views(out@) == a + b.take(j as int),
        decreases o.defaults@.len() - j,
    {
        let ghost s = views(out@);
        out.push(o.defaults[j].0.clone());
        assert(views(out@) =~= s.push(o.defaults@[j as int].0@));
        assert(b[j as int] == o.defaults@[j as int].0@);
        j += 1;
        assert(views(out@) =~= a + b.take(j as int));
    }
    assert(b.take(j as int) =~= b);
    out
}

/// The names of operations.
pub open spec fn op_names(os: Seq<OpV>) -> Seq<Seq<char>> {
    os.map_values(|o: OpV| o.name)
}

fn names_of(ops: &Vec<Op>) -> (r: Vec<String>)
    ensures
        views(r@) == op_names(ops_view(ops@)),
{
    let ghost a = op_names(ops_view(ops@));
    let mut out: Vec<String> = Vec::new();
    let mut i: usize = 0;
    assert(views(out@) =~= a.take(0));
    while i < ops.len()
        invariant
            i <= ops@.len() == a.len(),
            a == op_names(ops_view(ops@)),
            views(out@) == a.take(i as int),
        decreases ops@.len() - i,
    {
        let ghost s = views(out@);
        out.push(ops[i].name.clone());
        assert(views(out@) =~= s.push(ops@[i as int].name@));
        assert(a[i as int] == ops@[i as int].name@);
        i += 1;
        assert(views(out@) =~= a.take(i as int));
    }
    assert(a.take(i as int) =~= a);
    out
}

// ---------- what is found ----------

/// Fields every entity has: `exists` is "make me one", `resolved` is "find me the one".
pub open spec fn pseudo_field(f: Seq<char>) -> bool {
    f == "exists"@ || f == "resolved"@
}

/// What is wrong with the entity and the field that a predicate is about.
pub open spec fn subject_findings(
    es: Seq<EntityV>,
    op: Seq<char>,
    p: PredV,
    field: Seq<char>,
) -> Seq<FindingV> {
    match last_entity(es, p.entity) {
        None => seq![
            FindingV {
                op,
                code: "unknown_entity"@,
                message: field + " names entity '"@ + p.entity
                    + "', which is not in x-reverse-webmcp-entities"@,
                fatal: true,
            },
        ],
        Some(e) => if p.field.len() > 0 && !pseudo_field(p.field) && !e.fields.contains(p.field) {
            seq![
                FindingV {
                    op,
                    code: "unknown_field"@,
                    message: field + " asks about '"@ + p.entity + "."@ + p.field
                        + "', which the entity does not have"@,
                    fatal: true,
                },
            ]
        } else {
            Seq::empty()
        },
    }
}

/// The variables that nothing can fill.
pub open spec fn variable_findings(
    fill: Seq<Seq<char>>,
    op: Seq<char>,
    vars: Seq<Seq<char>>,
    field: Seq<char>,
) -> Seq<FindingV>
    decreases vars.len(),
{
    if vars.len() == 0 {
        Seq::empty()
    } else {
        let rest = variable_findings(fill, op, vars.drop_last(), field);
        if fill.contains(vars.last()) {
            rest
        } else {
            rest.push(
                FindingV {
                    op,
                    code: "unfillable_variable"@,
                    message: field + " uses $"@ + vars.last()
                        + ", but the operation has no parameter or default by that name, so nothing can fill it"@,
                    fatal: true,
                },
            )
        }
    }
}

pub open spec fn pred_findings(
    es: Seq<EntityV>,
    fill: Seq<Seq<char>>,
    op: Seq<char>,
    p: PredV,
    field: Seq<char>,
) -> Seq<FindingV> {
    subject_findings(es, op, p, field) + variable_findings(fill, op, vars_in_pred(p), field)
}

pub open spec fn require_findings(
    es: Seq<EntityV>,
    fill: Seq<Seq<char>>,
    op: Seq<char>,
    ps: Seq<PredV>,
) -> Seq<FindingV>
    decreases ps.len(),
{
    if ps.len() == 0 {
        Seq::empty()
    } else {
        require_findings(es, fill, op, ps.drop_last()) + pred_findings(
            es,
            fill,
            op,
            ps.last(),
            "requires"@,
        )
    }
}

/// The variable that a selector names.
pub open spec fn selector_var(sel: Seq<char>) -> Option<Seq<char>> {
    match without_prefix(sel, "$"@) {
        Some(v) => Some(trim_back(v, "[]"@)),
        None => None,
    }
}

/// What is wrong with one entry of a footprint.
pub open spec fn entry_findings(
    es: Seq<EntityV>,
    fill: Seq<Seq<char>>,
    op: Seq<char>,
    entry: Seq<char>,
    which: Seq<char>,
) -> Seq<FindingV> {
    match cut(entry, ':') {
        None => seq![
            FindingV {
                op,
                code: "malformed_footprint"@,
                message: which + " entry '"@ + entry + "' is not `entity:selector`"@,
                fatal: true,
            },
        ],
        Some((entity, sel)) => (if last_entity(es, entity) is None {
            seq![
                FindingV {
                    op,
                    code: "unknown_entity"@,
                    message: which + " names entity '"@ + entity
                        + "', which is not in x-reverse-webmcp-entities"@,
                    fatal: true,
                },
            ]
        } else {
            Seq::empty()
        }) + (match selector_var(sel) {
            None => Seq::empty(),
            Some(var) => if fill.contains(var) {
                Seq::empty()
            } else {
                seq![
                    FindingV {
                        op,
                        code: "unbound_footprint_param"@,
                        message: which + " '"@ + entry + "' names $"@ + var
                            + ", which is not a parameter; it widens to '"@ + entity
                            + ":*' and serialises the plan"@,
                        fatal: true,
                    },
                ]
            },
        }),
    }
}

pub open spec fn footprint_findings(
    es: Seq<EntityV>,
    fill: Seq<Seq<char>>,
    op: Seq<char>,
    entries: Seq<Seq<char>>,
    which: Seq<char>,
) -> Seq<FindingV>
    decreases entries.len(),
{
    if entries.len() == 0 {
        Seq::empty()
    } else {
        footprint_findings(es, fill, op, entries.drop_last(), which) + entry_findings(
            es,
            fill,
            op,
            entries.last(),
            which,
        )
    }
}

pub open spec fn before_findings(
    names: Seq<Seq<char>>,
    op: Seq<char>,
    before: Seq<Seq<char>>,
) -> Seq<FindingV>
    decreases before.len(),
{
    if before.len() == 0 {
        Seq::empty()
    } else {
        let rest = before_findings(names, op, before.drop_last());
        if names.contains(before.last()) {
            rest
        } else {
            rest.push(
                FindingV {
                    op,
                    code: "before_unknown_op"@,
                    message: "before names '"@ + before.last()
                        + "', which is not an operation in this document"@,
                    fatal: true,
                },
            )
        }
    }
}

pub open spec fn produce_findings(es: Seq<EntityV>, o: OpV) -> Seq<FindingV> {
    match o.produces {
        None => Seq::empty(),
        Some(p) => if last_entity(es, p) is None {
            seq![
                FindingV {
                    op: o.name,
                    code: "unknown_entity"@,
                    message: "produces '"@ + p + "', which is not in x-reverse-webmcp-entities"@,
                    fatal: true,
                },
            ]
        } else {
            Seq::empty()
        },
    }
}

/// What its kind asks of an operation.
pub open spec fn kind_findings(o: OpV) -> Seq<FindingV> {
    if o.kind != OpKind::Event && o.surfaces.len() == 0 {
        seq![
            FindingV {
                op: o.name,
                code: "no_surfaces"@,
                message: "no surfaces, so nothing can ever call it"@,
                fatal: true,
            },
        ]
    } else if o.kind == OpKind::Http && o.post is None {
        seq![
            FindingV {
                op: o.name,
                code: "no_postcondition"@,
                message: "no post, so no want can ask for it; it can still serve a `requires` or a check"@,
                fatal: false,
            },
        ]
    } else if o.kind == OpKind::Event && o.check is None {
        seq![
            FindingV {
                op: o.name,
                code: "event_without_check"@,
                message: "no check, so a lost event can only be waited for, never confirmed by reading"@,
                fatal: false,
            },
        ]
    } else {
        Seq::empty()
    }
}

pub open spec fn post_findings(es: Seq<EntityV>, o: OpV) -> Seq<FindingV> {
    match o.post {
        Some(p) => pred_findings(es, fillable(o), o.name, p, "post"@),
        None => Seq::empty(),
    }
}

/// What is wrong with an operation.
pub open spec fn op_findings(w: WorldV, o: OpV) -> Seq<FindingV> {
    post_findings(w.entities, o) + require_findings(w.entities, fillable(o), o.name, o.requires_)
        + produce_findings(w.entities, o) + footprint_findings(
        w.entities,
        fillable(o),
        o.name,
        o.reads,
        "reads"@,
    ) + footprint_findings(w.entities, fillable(o), o.name, o.writes, "writes"@) + before_findings(
        op_names(w.ops),
        o.name,
        o.before,
    ) + kind_findings(o)
}

pub open spec fn ops_findings(w: WorldV, os: Seq<OpV>) -> Seq<FindingV>
    decreases os.len(),
{
    if os.len() == 0 {
        Seq::empty()
    } else {
        ops_findings(w, os.drop_last()) + op_findings(w, os.last())
    }
}

/// What is wrong with the model as a whole.
pub open spec fn document_findings(w: WorldV) -> Seq<FindingV> {
    (if w.entities.len() == 0 {
        seq![
            FindingV {
                op: "(document)"@,
                code: "no_entities"@,
                message: "x-reverse-webmcp-entities is missing or empty, so no want can name anything"@,
                fatal: true,
            },
        ]
    } else {
        Seq::empty()
    }) + (if exists|i: int| 0 <= i < w.ops.len() && (#[trigger] w.ops[i]).post is Some {
        Seq::empty()
    } else {
        seq![
            FindingV {
                op: "(document)"@,
                code: "nothing_plannable"@,
                message: "no operation declares a `post`, so no goal can ever be compiled"@,
                fatal: true,
            },
        ]
    })
}

// ---------- the order of writers ----------

/// The pairs of an operation and one that it must precede.
pub open spec fn pairs(name: Seq<char>, before: Seq<Seq<char>>) -> Seq<(Seq<char>, Seq<char>)> {
    before.map_values(|b: Seq<char>| (name, b))
}

/// The declared precedence. Of operations of one name the first counts.
pub open spec fn precedence(os: Seq<OpV>) -> Seq<(Seq<char>, Seq<char>)>
    decreases os.len(),
{
    if os.len() == 0 {
        Seq::empty()
    } else if op_names(os.drop_last()).contains(os.last().name) {
        precedence(os.drop_last())
    } else {
        precedence(os.drop_last()) + pairs(os.last().name, os.last().before)
    }
}

/// Whether one operation comes before another, directly or through a chain of `before`.
pub open spec fn ordered(w: WorldV, from: Seq<char>, to: Seq<char>) -> bool {
    reach(precedence(w.ops), from, to)
}

/// Whether an entry of a footprint is of something new.
pub open spec fn of_new(entry: Seq<char>) -> bool {
    without_suffix(entry, ":new"@) is Some
}

/// The first thing not new that both write.
pub open spec fn shared(a: Seq<Seq<char>>, b: Seq<Seq<char>>) -> Option<Seq<char>>
    decreases a.len(),
{
    if a.len() == 0 {
        None
    } else if !of_new(a[0]) && b.contains(a[0]) {
        Some(a[0])
    } else {
        shared(a.drop_first(), b)
    }
}

/// What is found of two operations: that both write one thing and nothing orders them.
pub open spec fn pair_findings(w: WorldV, a: OpV, b: OpV) -> Seq<FindingV> {
    match shared(a.writes, b.writes) {
        None => Seq::empty(),
        Some(s) => if ordered(w, a.name, b.name) || ordered(w, b.name, a.name) {
            Seq::empty()
        } else {
            seq![
                FindingV {
                    op: a.name + " / "@ + b.name,
                    code: "unordered_writers"@,
                    message: "writes "@ + s
                        + " as well, and neither declares `before` the other, so their order is whatever the want order happens to be"@,
                    fatal: false,
                },
            ]
        },
    }
}

/// What is found of an operation and the `k` that follow it.
pub open spec fn pairs_after(w: WorldV, i: int, k: nat) -> Seq<FindingV>
    decreases k,
{
    if k == 0 {
        Seq::empty()
    } else {
        pairs_after(w, i, (k - 1) as nat) + pair_findings(w, w.ops[i], w.ops[i + k])
    }
}

/// What is found of the first `n` operations, each with all that follow it.
pub open spec fn writer_findings(w: WorldV, n: nat) -> Seq<FindingV>
    decreases n,
{
    if n == 0 {
        Seq::empty()
    } else {
        writer_findings(w, (n - 1) as nat) + pairs_after(w, n - 1, (w.ops.len() - n) as nat)
    }
}

/// Everything that is found.
pub open spec fn validate_spec(w: WorldV) -> Seq<FindingV> {
    document_findings(w) + ops_findings(w, w.ops) + writer_findings(w, w.ops.len())
}

// ---------- finding it ----------

fn note(out: &mut Vec<Finding>, op: &str, code: &'static str, message: String, fatal: bool)
    ensures
        findings_view(final(out)@) == findings_view(old(out)@).push(
            FindingV { op: op@, code: code@, message: message@, fatal },
        ),
{
    let ghost before = findings_view(out@);
    let f = Finding { op: owned(op), code, message, fatal };
    out.push(f);
    assert(findings_view(out@) =~= before.push(f@));
}

proof fn one<A>(s: Seq<A>, x: A)
    ensures
        s.push(x) == s + seq![x],
        s + Seq::<A>::empty() == s,
{
    assert(s.push(x) =~= s + seq![x]);
    assert(s + Seq::<A>::empty() =~= s);
}

fn note_subject(es: &Vec<Entity>, op: &str, p: &Pred, field: &str, out: &mut Vec<Finding>)
    ensures
        findings_view(final(out)@) == findings_view(old(out)@) + subject_findings(
            entities_view(es@),
            op@,
            p@,
            field@,
        ),
{
    let ghost before = findings_view(out@);
    match known(es, p.entity.as_str()) {
        None => {
            let mut m = owned(field);
            m.push_str(" names entity '");
            m.push_str(p.entity.as_str());
            m.push_str("', which is not in x-reverse-webmcp-entities");
            note(out, op, "unknown_entity", m, true);
            proof {
                one(before, findings_view(out@).last());
            }
        },
        Some(e) => {
            let blank = same(p.field.as_str(), "");
            proof {
                reveal_strlit("");
                if p.field@.len() == 0 {
                    assert(p.field@ =~= ""@);
                }
            }
            if !blank && !same(p.field.as_str(), "exists") && !same(p.field.as_str(), "resolved")
                && !list_has(&e.fields, p.field.as_str()) {
                let mut m = owned(field);
                m.push_str(" asks about '");
                m.push_str(p.entity.as_str());
                m.push_str(".");
                m.push_str(p.field.as_str());
                m.push_str("', which the entity does not have");
                note(out, op, "unknown_field", m, true);
                proof {
                    one(before, findings_view(out@).last());
                }
            } else {
                assert(before + Seq::<FindingV>::empty() =~= before);
            }
        },
    }
}

fn note_variables(
    fill: &Vec<String>,
    op: &str,
    vars: &Vec<String>,
    field: &str,
    out: &mut Vec<Finding>,
)
    ensures
        findings_view(final(out)@) == findings_view(old(out)@) + variable_findings(
            views(fill@),
            op@,
            views(vars@),
            field@,
        ),
{
    let ghost before = findings_view(out@);
    let ghost vs = views(vars@);
    let ghost fs = views(fill@);
    let mut i: usize = 0;
    assert(before + variable_findings(fs, op@, vs.take(0), field@) =~= before);
    while i < vars.len()
        invariant
            i <= vars@.len(),
            vs == views(vars@),
            fs == views(fill@),
            findings_view(out@) == before + variable_findings(fs, op@, vs.take(i as int), field@),
        decreases vars@.len() - i,
    {
        proof {
            assert(vs.take(i + 1).drop_last() =~= vs.take(i as int));
            assert(vs.take(i + 1).last() == vars@[i as int]@);
        }
        if !list_has(fill, vars[i].as_str()) {
            let mut m = owned(field);
            m.push_str(" uses $");
            m.push_str(vars[i].as_str());
            m.push_str(
                ", but the operation has no parameter or default by that name, so nothing can fill it",
            );
            note(out, op, "unfillable_variable", m, true);
        }
        i += 1;
        assert(findings_view(out@) =~= before + variable_findings(
            fs,
            op@,
            vs.take(i as int),
            field@,
        ));
    }
    assert(vs.take(i as int) =~= vs);
}

fn note_pred(
    es: &Vec<Entity>,
    fill: &Vec<String>,
    op: &str,
    p: &Pred,
    field: &str,
    out: &mut Vec<Finding>,
)
    ensures
        findings_view(final(out)@) == findings_view(old(out)@) + pred_findings(
            entities_view(es@),
            views(fill@),
            op@,
            p@,
            field@,
        ),
{
    let ghost before = findings_view(out@);
    note_subject(es, op, p, field, out);
    let vars = pred_vars(p);
    note_variables(fill, op, &vars, field, out);
    assert(findings_view(out@) =~= before + pred_findings(
        entities_view(es@),
        views(fill@),
        op@,
        p@,
        field@,
    ));
}

fn note_requires(
    es: &Vec<Entity>,
    fill: &Vec<String>,
    op: &str,
    ps: &Vec<Pred>,
    out: &mut Vec<Finding>,
)
    ensures
        findings_view(final(out)@) == findings_view(old(out)@) + require_findings(
            entities_view(es@),
            views(fill@),
            op@,
            crate::pred::preds_view(ps@),
        ),
{
    let ghost before = findings_view(out@);
    let ghost vs = crate::pred::preds_view(ps@);
    let ghost fs = views(fill@);
    let ghost ev = entities_view(es@);
    let mut i: usize = 0;
    assert(before + require_findings(ev, fs, op@, vs.take(0)) =~= before);
    while i < ps.len()
        invariant
            i <= ps@.len(),
            vs == crate::pred::preds_view(ps@),
            fs == views(fill@),
            ev == entities_view(es@),
            findings_view(out@) == before + require_findings(ev, fs, op@, vs.take(i as int)),
        decreases ps@.len() - i,
    {
        proof {
            assert(vs.take(i + 1).drop_last() =~= vs.take(i as int));
            assert(vs.take(i + 1).last() == ps@[i as int]@);
        }
        note_pred(es, fill, op, &ps[i], "requires", out);
        i += 1;
        assert(findings_view(out@) =~= before + require_findings(ev, fs, op@, vs.take(i as int)));
    }
    assert(vs.take(i as int) =~= vs);
}

fn note_entry(
    es: &Vec<Entity>,
    fill: &Vec<String>,
    op: &str,
    entry: &str,
    which: &str,
    out: &mut Vec<Finding>,
)
    ensures
        findings_view(final(out)@) == findings_view(old(out)@) + entry_findings(
            entities_view(es@),
            views(fill@),
            op@,
            entry@,
            which@,
        ),
{
    let ghost before = findings_view(out@);
    match split_once(entry, ':') {
        None => {
            let mut m = owned(which);
            m.push_str(" entry '");
            m.push_str(entry);
            m.push_str("' is not `entity:selector`");
            note(out, op, "malformed_footprint", m, true);
            proof {
                one(before, findings_view(out@).last());
            }
        },
        Some((entity, sel)) => {
            if known(es, entity.as_str()).is_none() {
                let mut m = owned(which);
                m.push_str(" names entity '");
                m.push_str(entity.as_str());
                m.push_str("', which is not in x-reverse-webmcp-entities");
                note(out, op, "unknown_entity", m, true);
            }
            match strip_prefix(sel.as_str(), "$") {
                None => {},
                Some(v) => {
                    let var = trim_end_str(v.as_str(), "[]");
                    if !list_has(fill, var.as_str()) {
                        let mut m = owned(which);
                        m.push_str(" '");
                        m.push_str(entry);
                        m.push_str("' names $");
                        m.push_str(var.as_str());
                        m.push_str(", which is not a parameter; it widens to '");
                        m.push_str(entity.as_str());
                        m.push_str(":*' and serialises the plan");
                        note(out, op, "unbound_footprint_param", m, true);
                    }
                },
            }
            assert(findings_view(out@) =~= before + entry_findings(
                entities_view(es@),
                views(fill@),
                op@,
                entry@,
                which@,
            ));
        },
    }
}

fn note_footprint(
    es: &Vec<Entity>,
    fill: &Vec<String>,
    op: &str,
    entries: &Vec<String>,
    which: &str,
    out: &mut Vec<Finding>,
)
    ensures
        findings_view(final(out)@) == findings_view(old(out)@) + footprint_findings(
            entities_view(es@),
            views(fill@),
            op@,
            views(entries@),
            which@,
        ),
{
    let ghost before = findings_view(out@);
    let ghost vs = views(entries@);
    let ghost fs = views(fill@);
    let ghost ev = entities_view(es@);
    let mut i: usize = 0;
    assert(before + footprint_findings(ev, fs, op@, vs.take(0), which@) =~= before);
    while i < entries.len()
        invariant
            i <= entries@.len(),
            vs == views(entries@),
            fs == views(fill@),
            ev == entities_view(es@),
            findings_view(out@) == before + footprint_findings(
                ev,
                fs,
                op@,
                vs.take(i as int),
                which@,
            ),
        decreases entries@.len() - i,
    {
        proof {
            assert(vs.take(i + 1).drop_last() =~= vs.take(i as int));
            assert(vs.take(i + 1).last() == entries@[i as int]@);
        }
        note_entry(es, fill, op, entries[i].as_str(), which, out);
        i += 1;
        assert(findings_view(out@) =~= before + footprint_findings(
            ev,
            fs,
            op@,
            vs.take(i as int),
            which@,
        ));
    }
    assert(vs.take(i as int) =~= vs);
}

fn note_before(names: &Vec<String>, op: &str, before_: &Vec<String>, out: &mut Vec<Finding>)
    ensures
        findings_view(final(out)@) == findings_view(old(out)@) + before_findings(
            views(names@),
            op@,
            views(before_@),
        ),
{
    let ghost start = findings_view(out@);
    let ghost vs = views(before_@);
    let ghost ns = views(names@);
    let mut i: usize = 0;
    assert(start + before_findings(ns, op@, vs.take(0)) =~= start);
    while i < before_.len()
        invariant
            i <= before_@.len(),
            vs == views(before_@),
            ns == views(names@),
            findings_view(out@) == start + before_findings(ns, op@, vs.take(i as int)),
        decreases before_@.len() - i,
    {
        proof {
            assert(vs.take(i + 1).drop_last() =~= vs.take(i as int));
            assert(vs.take(i + 1).last() == before_@[i as int]@);
        }
        if !list_has(names, before_[i].as_str()) {
            let mut m = owned("before names '");
            m.push_str(before_[i].as_str());
            m.push_str("', which is not an operation in this document");
            note(out, op, "before_unknown_op", m, true);
        }
        i += 1;
        assert(findings_view(out@) =~= start + before_findings(ns, op@, vs.take(i as int)));
    }
    assert(vs.take(i as int) =~= vs);
}

fn note_kind(o: &Op, out: &mut Vec<Finding>)
    ensures
        findings_view(final(out)@) == findings_view(old(out)@) + kind_findings(o@),
{
    let ghost before = findings_view(out@);
    assert(o@.surfaces.len() == o.surfaces@.len());
    let name = o.name.as_str();
    if o.kind != OpKind::Event && o.surfaces.len() == 0 {
        note(out, name, "no_surfaces", owned("no surfaces, so nothing can ever call it"), true);
    } else if o.kind == OpKind::Http && o.post.is_none() {
        note(
            out,
            name,
            "no_postcondition",
            owned(
                "no post, so no want can ask for it; it can still serve a `requires` or a check",
            ),
            false,
        );
    } else if o.kind == OpKind::Event && o.check.is_none() {
        note(
            out,
            name,
            "event_without_check",
            owned(
                "no check, so a lost event can only be waited for, never confirmed by reading",
            ),
            false,
        );
    }
    assert(findings_view(out@) =~= before + kind_findings(o@));
}

impl World {
    fn note_op(&self, names: &Vec<String>, o: &Op, out: &mut Vec<Finding>)
        requires
            views(names@) == op_names(self@.ops),
        ensures
            findings_view(final(out)@) == findings_view(old(out)@) + op_findings(self@, o@),
    {
        let ghost s0 = findings_view(out@);
        let fill = fillable_names(o);
        let name = o.name.as_str();
        let es = &self.entities;
        let ghost ev = self@.entities;
        match &o.post {
            Some(p) => note_pred(es, &fill, name, p, "post", out),
            None => {
                assert(s0 + Seq::<FindingV>::empty() =~= s0);
            },
        }
        let ghost a = post_findings(ev, o@);
        note_requires(es, &fill, name, &o.requires_, out);
        let ghost b = require_findings(ev, fillable(o@), o@.name, o@.requires_);
        let ghost s2 = findings_view(out@);
        match &o.produces {
            Some(p) => {
                if known(es, p.as_str()).is_none() {
                    let mut m = owned("produces '");
                    m.push_str(p.as_str());
                    m.push_str("', which is not in x-reverse-webmcp-entities");
                    note(out, name, "unknown_entity", m, true);
                }
            },
            None => {},
        }
        let ghost c = produce_findings(ev, o@);
        assert(findings_view(out@) =~= s2 + c);
        note_footprint(es, &fill, name, &o.reads, "reads", out);
        let ghost d = footprint_findings(ev, fillable(o@), o@.name, o@.reads, "reads"@);
        note_footprint(es, &fill, name, &o.writes, "writes", out);
        let ghost e = footprint_findings(ev, fillable(o@), o@.name, o@.writes, "writes"@);
        note_before(names, name, &o.before, out);
        let ghost f = before_findings(op_names(self@.ops), o@.name, o@.before);
        note_kind(o, out);
        let ghost g = kind_findings(o@);
        assert(findings_view(out@) == s0 + a + b + c + d + e + f + g);
        assert(s0 + a + b + c + d + e + f + g =~= s0 + (a + b + c + d + e + f + g));
    }

    fn declared(&self) -> (r: Vec<(String, String)>)
        ensures
            edges_view(r@) == precedence(self@.ops),
    {
        let ghost os = self@.ops;
        let mut out: Vec<(String, String)> = Vec::new();
        let mut names: Vec<String> = Vec::new();
        let mut i: usize = 0;
        assert(edges_view(out@) =~= precedence(os.take(0)));
        assert(views(names@) =~= op_names(os.take(0)));
        while i < self.ops.len()
            invariant
                i <= self.ops@.len(),
                os == self@.ops,
                edges_view(out@) == precedence(os.take(i as int)),
                views(names@) == op_names(os.take(i as int)),
            decreases self.ops@.len() - i,
        {
            let o = &self.ops[i];
            let ghost before = edges_view(out@);
            let ghost ps = pairs(o@.name, o@.before);
            proof {
                assert(os.take(i + 1).drop_last() =~= os.take(i as int));
                assert(os.take(i + 1).last() == o@);
            }
            if !list_has(&names, o.name.as_str()) {
                let mut j: usize = 0;
                assert(before + ps.take(0) =~= before);
                while j < o.before.len()
                    invariant
                        j <= o.before@.len() == ps.len(),
                        ps == pairs(o@.name, o@.before),
                        edges_view(out@) == before + ps.take(j as int),
                    decreases o.before@.len() - j,
                {
                    let ghost s = edges_view(out@);
                    out.push((o.name.clone(), o.before[j].clone()));
                    assert(edges_view(out@) =~= s.push((o.name@, o.before@[j as int]@)));
                    assert(o@.before[j as int] == o.before@[j as int]@);
                    assert(ps[j as int] == (o.name@, o.before@[j as int]@));
                    j += 1;
                    assert(edges_view(out@) =~= before + ps.take(j as int));
                }
                assert(ps.take(j as int) =~= ps);
            }
            let ghost ns = views(names@);
            names.push(o.name.clone());
            assert(views(names@) =~= ns.push(o.name@));
            i += 1;
            assert(views(names@) =~= op_names(os.take(i as int)));
        }
        assert(os.take(i as int) =~= os);
        out
    }

    /// Whether one operation comes before another, directly or through a chain of `before`.
    pub fn ordered(&self, from: &str, to: &str) -> (r: bool)
        ensures
            r == ordered(self@, from@, to@),
    {
        let edges = self.declared();
        reachable(from, to, &edges)
    }

    fn note_pair(&self, a: &Op, b: &Op, out: &mut Vec<Finding>)
        ensures
            findings_view(final(out)@) == findings_view(old(out)@) + pair_findings(self@, a@, b@),
    {
        let ghost before = findings_view(out@);
        match first_shared(&a.writes, &b.writes) {
            None => {},
            Some(i) => {
                if !self.ordered(a.name.as_str(), b.name.as_str()) && !self.ordered(
                    b.name.as_str(),
                    a.name.as_str(),
                ) {
                    let mut m = owned("writes ");
                    m.push_str(a.writes[i].as_str());
                    m.push_str(
                        " as well, and neither declares `before` the other, so their order is whatever the want order happens to be",
                    );
                    let mut both = owned(a.name.as_str());
                    both.push_str(" / ");
                    both.push_str(b.name.as_str());
                    note(out, both.as_str(), "unordered_writers", m, false);
                }
            },
        }
        assert(findings_view(out@) =~= before + pair_findings(self@, a@, b@));
    }

    /// Two operations that write the same thing have no order in a footprint: a footprint says
    /// *what* is touched, never *when*. Only the world model knows, and it says so with `before`.
    /// Creators are exempt: `entity:new` is ordered first by the data dependency on what it
    /// produces.
    pub fn unordered_writers(&self) -> (r: Vec<Finding>)
        ensures
            findings_view(r@) == writer_findings(self@, self@.ops.len()),
    {
        let ghost w = self@;
        let mut out: Vec<Finding> = Vec::new();
        let mut i: usize = 0;
        assert(findings_view(out@) =~= writer_findings(w, 0));
        while i < self.ops.len()
            invariant
                i <= self.ops@.len(),
                w == self@,
                findings_view(out@) == writer_findings(w, i as nat),
            decreases self.ops@.len() - i,
        {
            let ghost before = findings_view(out@);
            let mut j: usize = i + 1;
            assert(before + pairs_after(w, i as int, 0) =~= before);
            while j < self.ops.len()
                invariant
                    i < j <= self.ops@.len(),
                    w == self@,
                    findings_view(out@) == before + pairs_after(w, i as int, (j - i - 1) as nat),
                decreases self.ops@.len() - j,
            {
                self.note_pair(&self.ops[i], &self.ops[j], &mut out);
                j += 1;
                proof {
                    let k = (j - i - 1) as nat;
                    assert(w.ops[i as int] == self.ops@[i as int]@);
                    assert(w.ops[i + k] == self.ops@[j - 1]@);
                    assert(findings_view(out@) =~= before + pairs_after(w, i as int, k));
                }
            }
            i += 1;
        }
        out
    }

    /// Read the model and report what cannot be right. Fatal findings mean a plan built on this
    /// model can be wrong; the rest are things that will merely work less well than they could.
    pub fn validate(&self) -> (r: Vec<Finding>)
        ensures
            findings_view(r@) == validate_spec(self@),
    {
        let ghost w = self@;
        let mut out: Vec<Finding> = Vec::new();
        assert(w.entities.len() == self.entities@.len());
        if self.entities.len() == 0 {
            note(
                &mut out,
                "(document)",
                "no_entities",
                owned(
                    "x-reverse-webmcp-entities is missing or empty, so no want can name anything",
                ),
                true,
            );
        }
        let mut plannable = false;
        let mut k: usize = 0;
        while k < self.ops.len() && !plannable
            invariant
                k <= self.ops@.len(),
                w == self@,
                plannable ==> exists|i: int|
                    0 <= i < w.ops.len() && (#[trigger] w.ops[i]).post is Some,
                !plannable ==> forall|i: int| 0 <= i < k ==> (#[trigger] w.ops[i]).post is None,
            decreases self.ops@.len() - k + (if plannable { 0int } else { 1int }),
        {
            assert(w.ops[k as int] == self.ops@[k as int]@);
            if self.ops[k].post.is_some() {
                plannable = true;
            } else {
                k += 1;
            }
        }
        if !plannable {
            note(
                &mut out,
                "(document)",
                "nothing_plannable",
                owned("no operation declares a `post`, so no goal can ever be compiled"),
                true,
            );
        }
        assert(findings_view(out@) =~= document_findings(w));
        let ghost first = findings_view(out@);
        let names = names_of(&self.ops);
        let mut i: usize = 0;
        assert(first + ops_findings(w, w.ops.take(0)) =~= first);
        while i < self.ops.len()
            invariant
                i <= self.ops@.len(),
                w == self@,
                views(names@) == op_names(w.ops),
                findings_view(out@) == first + ops_findings(w, w.ops.take(i as int)),
            decreases self.ops@.len() - i,
        {
            proof {
                assert(w.ops.take(i + 1).drop_last() =~= w.ops.take(i as int));
                assert(w.ops.take(i + 1).last() == self.ops@[i as int]@);
            }
            self.note_op(&names, &self.ops[i], &mut out);
            i += 1;
            assert(findings_view(out@) =~= first + ops_findings(w, w.ops.take(i as int)));
        }
        assert(w.ops.take(i as int) =~= w.ops);
        let mut more = self.unordered_writers();
        let ghost a = findings_view(out@);
        let ghost b = findings_view(more@);
        out.append(&mut more);
        assert(findings_view(out@) =~= a + b);
        out
    }
}

proof fn shared_skip(a: Seq<Seq<char>>, b: Seq<Seq<char>>, i: int)
    requires
        0 <= i <= a.len(),
        forall|j: int| 0 <= j < i ==> of_new(#[trigger] a[j]) || !b.contains(a[j]),
    ensures
        shared(a, b) == shared(a.skip(i), b),
    decreases i,
{
    if i == 0 {
        assert(a.skip(0) =~= a);
    } else {
        assert(of_new(a[0]) || !b.contains(a[0]));
        let t = a.drop_first();
        assert forall|j: int| 0 <= j < i - 1 implies of_new(#[trigger] t[j]) || !b.contains(
            t[j],
        ) by {
            assert(t[j] == a[j + 1]);
        }
        shared_skip(t, b, i - 1);
        assert(t.skip(i - 1) =~= a.skip(i));
    }
}

fn first_shared(a: &Vec<String>, b: &Vec<String>) -> (r: Option<usize>)
    ensures
        match r {
            Some(i) => i < a@.len() && shared(views(a@), views(b@)) == Some(a@[i as int]@),
            None => shared(views(a@), views(b@)) is None,
        },
{
    let ghost x = views(a@);
    let ghost y = views(b@);
    let mut i: usize = 0;
    while i < a.len()
        invariant
            i <= a@.len(),
            x == views(a@),
            y == views(b@),
            forall|j: int| 0 <= j < i ==> of_new(#[trigger] x[j]) || !y.contains(x[j]),
        decreases a@.len() - i,
    {
        assert(x[i as int] == a@[i as int]@);
        if !ends_with(a[i].as_str(), ":new") && list_has(b, a[i].as_str()) {
            proof {
                shared_skip(x, y, i as int);
                assert(x.skip(i as int)[0] == x[i as int]);
            }
            return Some(i);
        }
        i += 1;
    }
    proof {
        shared_skip(x, y, i as int);
        assert(x.skip(i as int).len() == 0);
    }
    None
}

// ---------- what a clean model has ----------

/// No finding is fatal.
pub open spec fn harmless(fs: Seq<FindingV>) -> bool {
    forall|i: int| 0 <= i < fs.len() ==> !(#[trigger] fs[i]).fatal
}

proof fn harmless_parts(a: Seq<FindingV>, b: Seq<FindingV>)
    ensures
        harmless(a + b) == (harmless(a) && harmless(b)),
{
    if harmless(a + b) {
        assert forall|i: int| 0 <= i < a.len() implies !(#[trigger] a[i]).fatal by {
            assert((a + b)[i] == a[i]);
        }
        assert forall|i: int| 0 <= i < b.len() implies !(#[trigger] b[i]).fatal by {
            assert((a + b)[a.len() + i] == b[i]);
        }
    }
    if harmless(a) && harmless(b) {
        assert forall|i: int| 0 <= i < (a + b).len() implies !(#[trigger] (a + b)[i]).fatal by {
            if i < a.len() {
                assert((a + b)[i] == a[i]);
            } else {
                assert((a + b)[i] == b[i - a.len()]);
            }
        }
    }
}

/// The entity is known, the field is one it has, and every variable can be filled.
pub open spec fn pred_coherent(es: Seq<EntityV>, fill: Seq<Seq<char>>, p: PredV) -> bool {
    &&& last_entity(es, p.entity) matches Some(e) && (p.field.len() == 0 || pseudo_field(p.field)
        || e.fields.contains(p.field))
    &&& forall|v: Seq<char>| #[trigger] vars_in_pred(p).contains(v) ==> fill.contains(v)
}

/// The entry is `entity:selector`, the entity is known, and a variable it names can be filled.
pub open spec fn entry_coherent(es: Seq<EntityV>, fill: Seq<Seq<char>>, entry: Seq<char>) -> bool {
    match cut(entry, ':') {
        None => false,
        Some((entity, sel)) => last_entity(es, entity) is Some && match selector_var(sel) {
            Some(v) => fill.contains(v),
            None => true,
        },
    }
}

/// What an operation of a coherent model has.
pub open spec fn op_coherent(w: WorldV, o: OpV) -> bool {
    &&& o.post matches Some(p) ==> pred_coherent(w.entities, fillable(o), p)
    &&& forall|i: int|
        0 <= i < o.requires_.len() ==> pred_coherent(
            w.entities,
            fillable(o),
            #[trigger] o.requires_[i],
        )
    &&& o.produces matches Some(p) ==> last_entity(w.entities, p) is Some
    &&& forall|i: int|
        0 <= i < o.reads.len() ==> entry_coherent(w.entities, fillable(o), #[trigger] o.reads[i])
    &&& forall|i: int|
        0 <= i < o.writes.len() ==> entry_coherent(w.entities, fillable(o), #[trigger] o.writes[i])
    &&& forall|i: int|
        0 <= i < o.before.len() ==> op_names(w.ops).contains(#[trigger] o.before[i])
    &&& o.kind != OpKind::Event ==> o.surfaces.len() > 0
}

proof fn variables_clean(
    fill: Seq<Seq<char>>,
    op: Seq<char>,
    vars: Seq<Seq<char>>,
    field: Seq<char>,
)
    requires
        harmless(variable_findings(fill, op, vars, field)),
    ensures
        forall|v: Seq<char>| #[trigger] vars.contains(v) ==> fill.contains(v),
    decreases vars.len(),
{
    if vars.len() > 0 {
        let rest = variable_findings(fill, op, vars.drop_last(), field);
        let all = variable_findings(fill, op, vars, field);
        if !fill.contains(vars.last()) {
            assert(all.last().fatal);
            assert(all[all.len() - 1].fatal);
        }
        variables_clean(fill, op, vars.drop_last(), field);
        assert forall|v: Seq<char>| #[trigger] vars.contains(v) implies fill.contains(v) by {
            if v != vars.last() {
                let k = choose|k: int| 0 <= k < vars.len() && vars[k] == v;
                assert(vars.drop_last()[k] == v);
                assert(vars.drop_last().contains(v));
            }
        }
    }
}

proof fn pred_clean(
    es: Seq<EntityV>,
    fill: Seq<Seq<char>>,
    op: Seq<char>,
    p: PredV,
    field: Seq<char>,
)
    requires
        harmless(pred_findings(es, fill, op, p, field)),
    ensures
        pred_coherent(es, fill, p),
{
    let a = subject_findings(es, op, p, field);
    harmless_parts(a, variable_findings(fill, op, vars_in_pred(p), field));
    variables_clean(fill, op, vars_in_pred(p), field);
    if a.len() > 0 {
        assert(a[0].fatal);
    }
}

proof fn requires_clean(es: Seq<EntityV>, fill: Seq<Seq<char>>, op: Seq<char>, ps: Seq<PredV>)
    requires
        harmless(require_findings(es, fill, op, ps)),
    ensures
        forall|i: int| 0 <= i < ps.len() ==> pred_coherent(es, fill, #[trigger] ps[i]),
    decreases ps.len(),
{
    if ps.len() > 0 {
        let t = ps.drop_last();
        harmless_parts(
            require_findings(es, fill, op, t),
            pred_findings(es, fill, op, ps.last(), "requires"@),
        );
        requires_clean(es, fill, op, t);
        pred_clean(es, fill, op, ps.last(), "requires"@);
        assert forall|i: int| 0 <= i < ps.len() implies pred_coherent(
            es,
            fill,
            #[trigger] ps[i],
        ) by {
            if i < t.len() {
                assert(t[i] == ps[i]);
            }
        }
    }
}

proof fn footprint_clean(
    es: Seq<EntityV>,
    fill: Seq<Seq<char>>,
    op: Seq<char>,
    entries: Seq<Seq<char>>,
    which: Seq<char>,
)
    requires
        harmless(footprint_findings(es, fill, op, entries, which)),
    ensures
        forall|i: int| 0 <= i < entries.len() ==> entry_coherent(es, fill, #[trigger] entries[i]),
    decreases entries.len(),
{
    if entries.len() > 0 {
        let t = entries.drop_last();
        let e = entries.last();
        let last = entry_findings(es, fill, op, e, which);
        harmless_parts(footprint_findings(es, fill, op, t, which), last);
        footprint_clean(es, fill, op, t, which);
        if last.len() > 0 {
            assert(last[0].fatal);
        }
        assert(entry_coherent(es, fill, e));
        assert forall|i: int| 0 <= i < entries.len() implies entry_coherent(
            es,
            fill,
            #[trigger] entries[i],
        ) by {
            if i < t.len() {
                assert(t[i] == entries[i]);
            }
        }
    }
}

proof fn before_clean(names: Seq<Seq<char>>, op: Seq<char>, before: Seq<Seq<char>>)
    requires
        harmless(before_findings(names, op, before)),
    ensures
        forall|i: int| 0 <= i < before.len() ==> names.contains(#[trigger] before[i]),
    decreases before.len(),
{
    if before.len() > 0 {
        let t = before.drop_last();
        let rest = before_findings(names, op, t);
        let all = before_findings(names, op, before);
        if !names.contains(before.last()) {
            assert(all[all.len() - 1].fatal);
        }
        before_clean(names, op, t);
        assert forall|i: int| 0 <= i < before.len() implies names.contains(
            #[trigger] before[i],
        ) by {
            if i < t.len() {
                assert(t[i] == before[i]);
            }
        }
    }
}

proof fn op_clean(w: WorldV, o: OpV)
    requires
        harmless(op_findings(w, o)),
    ensures
        op_coherent(w, o),
{
    let ev = w.entities;
    let a = post_findings(ev, o);
    let b = require_findings(ev, fillable(o), o.name, o.requires_);
    let c = produce_findings(ev, o);
    let d = footprint_findings(ev, fillable(o), o.name, o.reads, "reads"@);
    let e = footprint_findings(ev, fillable(o), o.name, o.writes, "writes"@);
    let f = before_findings(op_names(w.ops), o.name, o.before);
    let g = kind_findings(o);
    harmless_parts(a + b + c + d + e + f, g);
    harmless_parts(a + b + c + d + e, f);
    harmless_parts(a + b + c + d, e);
    harmless_parts(a + b + c, d);
    harmless_parts(a + b, c);
    harmless_parts(a, b);
    if o.post is Some {
        pred_clean(ev, fillable(o), o.name, o.post->0, "post"@);
    }
    requires_clean(ev, fillable(o), o.name, o.requires_);
    if c.len() > 0 {
        assert(c[0].fatal);
    }
    footprint_clean(ev, fillable(o), o.name, o.reads, "reads"@);
    footprint_clean(ev, fillable(o), o.name, o.writes, "writes"@);
    before_clean(op_names(w.ops), o.name, o.before);
    if o.kind != OpKind::Event && o.surfaces.len() == 0 {
        assert(g[0].fatal);
    }
}

proof fn ops_clean(w: WorldV, os: Seq<OpV>)
    requires
        harmless(ops_findings(w, os)),
    ensures
        forall|i: int| 0 <= i < os.len() ==> op_coherent(w, #[trigger] os[i]),
    decreases os.len(),
{
    if os.len() > 0 {
        let t = os.drop_last();
        harmless_parts(ops_findings(w, t), op_findings(w, os.last()));
        ops_clean(w, t);
        op_clean(w, os.last());
        assert forall|i: int| 0 <= i < os.len() implies op_coherent(w, #[trigger] os[i]) by {
            if i < t.len() {
                assert(t[i] == os[i]);
            }
        }
    }
}

/// A model without a fatal finding has entities, something to plan for, and in every operation
/// only known entities and fields, variables that something fills, footprints that bind, and
/// precedence over operations that are there.
pub proof fn clean_model_is_coherent(w: WorldV)
    requires
        harmless(validate_spec(w)),
    ensures
        w.entities.len() > 0,
        exists|i: int| 0 <= i < w.ops.len() && (#[trigger] w.ops[i]).post is Some,
        forall|i: int| 0 <= i < w.ops.len() ==> op_coherent(w, #[trigger] w.ops[i]),
{
    let a = document_findings(w);
    let b = ops_findings(w, w.ops);
    harmless_parts(a + b, writer_findings(w, w.ops.len()));
    harmless_parts(a, b);
    if a.len() > 0 {
        assert(a[0].fatal);
    }
    ops_clean(w, w.ops);
}

/// An entry of `before` orders the two operations, whatever else is declared.
pub proof fn declared_before_is_ordered(w: WorldV, i: int, j: int)
    requires
        0 <= i < w.ops.len(),
        0 <= j < w.ops[i].before.len(),
        forall|k: int| 0 <= k < i ==> (#[trigger] w.ops[k]).name != w.ops[i].name,
    ensures
        ordered(w, w.ops[i].name, w.ops[i].before[j]),
{
    precedence_has(w.ops, i, j);
    crate::graph::reach_edge(precedence(w.ops), w.ops[i].name, w.ops[i].before[j]);
}

proof fn precedence_has(os: Seq<OpV>, i: int, j: int)
    requires
        0 <= i < os.len(),
        0 <= j < os[i].before.len(),
        forall|k: int| 0 <= k < i ==> (#[trigger] os[k]).name != os[i].name,
    ensures
        precedence(os).contains((os[i].name, os[i].before[j])),
    decreases os.len(),
{
    let t = os.drop_last();
    let e = (os[i].name, os[i].before[j]);
    if i < t.len() {
        assert forall|k: int| 0 <= k < i implies (#[trigger] t[k]).name != t[i].name by {
            assert(t[k] == os[k]);
        }
        precedence_has(t, i, j);
        let k = choose|k: int| 0 <= k < precedence(t).len() && precedence(t)[k] == e;
        assert(precedence(os)[k] == e);
    } else {
        if op_names(t).contains(os.last().name) {
            let k = choose|k: int| 0 <= k < op_names(t).len() && op_names(t)[k] == os.last().name;
            assert(os[k].name == os[i].name);
        }
        let ps = pairs(os[i].name, os[i].before);
        assert(ps[j] == e);
        assert(precedence(os)[precedence(t).len() + j] == e);
    }
}

} // verus!
