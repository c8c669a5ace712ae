//! The world model: which entities there are, and which operations make what true.
//!
//! Each operation carries a postcondition, its requirements, its read and write footprint, and
//! the surfaces that expose it with their cost.

use crate::json::{Json, JsonV};
use crate::pred::{preds_view, Pred, PredV};
use crate::pred_parse::{ParseError, ParseErrorV};
use crate::pred_print::{parse_error_text, pred_text};
use crate::cut::{join, joined};
use crate::text::{same, views};
use vstd::prelude::*;

verus! {

/// What an optional string holds.
pub open spec fn opt_str(o: Option<String>) -> Option<Seq<char>> {
    match o {
        Some(s) => Some(s@),
        None => None,
    }
}

/// A copy of an optional string.
pub fn clone_opt(o: &Option<String>) -> (r: Option<String>)
    ensures
        r == *o,
        opt_str(r) == opt_str(*o),
{
    match o {
        Some(s) => Some(s.clone()),
        None => None,
    }
}

/// Why no world model could be had.
#[derive(Debug)]
pub enum WorldError {
    NoPaths,
    MissingOperationId { method: String, path: String },
    Predicate { op: String, field: &'static str, source: ParseError },
    Fetch(String),
}

pub enum WorldErrorV {
    NoPaths,
    MissingOperationId { method: Seq<char>, path: Seq<char> },
    Predicate { op: Seq<char>, field: Seq<char>, source: ParseErrorV },
    Fetch(Seq<char>),
}

impl View for WorldError {
    type V = WorldErrorV;

    open spec fn view(&self) -> WorldErrorV {
        match self {
            WorldError::NoPaths => WorldErrorV::NoPaths,
            WorldError::MissingOperationId { method, path } => WorldErrorV::MissingOperationId {
                method: method@,
                path: path@,
            },
            WorldError::Predicate { op, field, source } => WorldErrorV::Predicate {
                op: op@,
                field: field@,
                source: source@,
            },
            WorldError::Fetch(m) => WorldErrorV::Fetch(m@),
        }
    }
}

/// The text of a world error.
pub open spec fn world_error_text(e: WorldErrorV) -> Seq<char> {
    match e {
        WorldErrorV::NoPaths => "openapi document has no paths"@,
        WorldErrorV::MissingOperationId { method, path } => method + " "@ + path
            + ": no operationId"@,
        WorldErrorV::Predicate { op, field, source } => op + ": "@ + field + ": "@
            + parse_error_text(source),
        WorldErrorV::Fetch(m) => "fetching openapi: "@ + m,
    }
}

impl WorldError {
    /// The error in words.
    pub fn to_string(&self) -> (r: String)
        ensures
            r@ == world_error_text(self@),
    {
        let mut out = String::new();
        match self {
            WorldError::NoPaths => {
                out.push_str("openapi document has no paths");
            },
            WorldError::MissingOperationId { method, path } => {
                out.push_str(method.as_str());
                out.push_str(" ");
                out.push_str(path.as_str());
                out.push_str(": no operationId");
            },
            WorldError::Predicate { op, field, source } => {
                out.push_str(op.as_str());
                out.push_str(": ");
                out.push_str(*field);
                out.push_str(": ");
                out.push_str(source.to_string().as_str());
            },
            WorldError::Fetch(m) => {
                out.push_str("fetching openapi: ");
                out.push_str(m.as_str());
            },
        }
        assert(out@ =~= world_error_text(self@));
        out
    }
}

/// Where a parameter of a request stands.
#[derive(Clone, Copy, Debug, PartialEq, Eq, Structural)]
pub enum ParamIn {
    Path,
    Query,
    Body,
}

/// A parameter of an operation.
#[derive(Debug)]
pub struct Param {
    pub name: String,
    pub location: ParamIn,
}

pub struct ParamV {
    pub name: Seq<char>,
    pub location: ParamIn,
}

impl View for Param {
    type V = ParamV;

    open spec fn view(&self) -> ParamV {
        ParamV { name: self.name@, location: self.location }
    }
}

impl Clone for Param {
    fn clone(&self) -> (r: Self)
        ensures
            r@ == self@,
    {
        Param { name: self.name.clone(), location: self.location }
    }
}

/// A condition under which a plan stops to ask, the question, and a resolution that was declared
/// up front.
#[derive(Debug)]
pub struct Fork {
    pub when: String,
    pub ask: String,
    /// Declared by the intent: resolve without waking the planner. `lowest_id` today.
    pub default: Option<String>,
}

pub struct ForkV {
    pub when: Seq<char>,
    pub ask: Seq<char>,
    pub default: Option<Seq<char>>,
}

impl View for Fork {
    type V = ForkV;

    open spec fn view(&self) -> ForkV {
        ForkV { when: self.when@, ask: self.ask@, default: opt_str(self.default) }
    }
}

impl Clone for Fork {
    fn clone(&self) -> (r: Self)
        ensures
            r@ == self@,
    {
        Fork {
            when: self.when.clone(),
            ask: self.ask.clone(),
            default: clone_opt(&self.default),
        }
    }
}

/// How to confirm an event's postcondition by reading the world, for when the event is lost.
#[derive(Debug, PartialEq)]
pub struct Check {
    pub op: String,
    pub arg: String,
    pub field: String,
    pub value: Json,
}

pub struct CheckV {
    pub op: Seq<char>,
    pub arg: Seq<char>,
    pub field: Seq<char>,
    pub value: JsonV,
}

impl View for Check {
    type V = CheckV;

    open spec fn view(&self) -> CheckV {
        CheckV { op: self.op@, arg: self.arg@, field: self.field@, value: self.value@ }
    }
}

impl Clone for Check {
    fn clone(&self) -> (r: Self)
        ensures
            r@ == self@,
    {
        Check {
            op: self.op.clone(),
            arg: self.arg.clone(),
            field: self.field.clone(),
            value: self.value.clone(),
        }
    }
}

/// How to reach an operation that only a screen offers.
#[derive(Debug)]
pub struct UiSpec {
    pub route: String,
    pub control: Json,
}

pub struct UiSpecV {
    pub route: Seq<char>,
    pub control: JsonV,
}

impl View for UiSpec {
    type V = UiSpecV;

    open spec fn view(&self) -> UiSpecV {
        UiSpecV { route: self.route@, control: self.control@ }
    }
}

impl Clone for UiSpec {
    fn clone(&self) -> (r: Self)
        ensures
            r@ == self@,
    {
        UiSpec { route: self.route.clone(), control: self.control.clone() }
    }
}

/// What an optional value of a viewed type holds.
pub open spec fn opt_fork(o: Option<Fork>) -> Option<ForkV> {
    match o {
        Some(x) => Some(x@),
        None => None,
    }
}

pub open spec fn opt_ui(o: Option<UiSpec>) -> Option<UiSpecV> {
    match o {
        Some(x) => Some(x@),
        None => None,
    }
}

pub open spec fn opt_check(o: Option<Check>) -> Option<CheckV> {
    match o {
        Some(x) => Some(x@),
        None => None,
    }
}

pub open spec fn opt_pred(o: Option<Pred>) -> Option<PredV> {
    match o {
        Some(x) => Some(x@),
        None => None,
    }
}

/// What kind of step an operation is.
#[derive(Clone, Copy, Debug, PartialEq, Eq, Structural)]
pub enum OpKind {
    /// An HTTP operation.
    Http,
    /// An action that only a screen offers.
    Ui,
    /// Something the outside world does; satisfied by waiting on an event.
    Event,
}

/// An operation of the app.
#[derive(Debug)]
pub struct Op {
    pub name: String,
    pub kind: OpKind,
    pub method: String,
    pub path: String,
    pub params: Vec<Param>,
    pub post: Option<Pred>,
    pub requires_: Vec<Pred>,
    pub produces: Option<String>,
    pub reads: Vec<String>,
    pub writes: Vec<String>,
    pub external: bool,
    /// The surfaces that expose the operation with their cost, in ascending order.
    pub surfaces: Vec<(String, u32)>,
    /// Values for parameters that nothing binds, in ascending order.
    pub defaults: Vec<(String, Json)>,
    pub fork: Option<Fork>,
    pub ui: Option<UiSpec>,
    pub check: Option<Check>,
    /// Operations this one must precede when both touch the same entity. Two writes to one
    /// thing have no order in a footprint; only the world model knows, so it says so here.
    pub before: Vec<String>,
}

pub struct OpV {
    pub name: Seq<char>,
    pub kind: OpKind,
    pub method: Seq<char>,
    pub path: Seq<char>,
    pub params: Seq<ParamV>,
    pub post: Option<PredV>,
    pub requires_: Seq<PredV>,
    pub produces: Option<Seq<char>>,
    pub reads: Seq<Seq<char>>,
    pub writes: Seq<Seq<char>>,
    pub external: bool,
    pub surfaces: Seq<(Seq<char>, u32)>,
    pub defaults: Seq<(Seq<char>, JsonV)>,
    pub fork: Option<ForkV>,
    pub ui: Option<UiSpecV>,
    pub check: Option<CheckV>,
    pub before: Seq<Seq<char>>,
}

pub open spec fn params_view(ps: Seq<Param>) -> Seq<ParamV> {
    ps.map_values(|p: Param| p@)
}

pub open spec fn surfaces_view(ss: Seq<(String, u32)>) -> Seq<(Seq<char>, u32)> {
    ss.map_values(|s: (String, u32)| (s.0@, s.1))
}

impl View for Op {
    type V = OpV;

    open spec fn view(&self) -> OpV {
        OpV {
            name: self.name@,
            kind: self.kind,
            method: self.method@,
            path: self.path@,
            params: params_view(self.params@),
            post: opt_pred(self.post),
            requires_: preds_view(self.requires_@),
            produces: opt_str(self.produces),
            reads: views(self.reads@),
            writes: views(self.writes@),
            external: self.external,
            surfaces: surfaces_view(self.surfaces@),
            defaults: crate::json::obj_view(self.defaults@),
            fork: opt_fork(self.fork),
            ui: opt_ui(self.ui),
            check: opt_check(self.check),
            before: views(self.before@),
        }
    }
}

impl Op {
    /// Whether the operation changes anything.
    pub fn is_write(&self) -> (r: bool)
        ensures
            r == (self@.writes.len() > 0),
    {
        self.writes.len() > 0
    }
}

/// An entity: its name, the field that identifies it, and its fields.
#[derive(Debug)]
pub struct Entity {
    pub name: String,
    pub id: String,
    pub fields: Vec<String>,
}

pub struct EntityV {
    pub name: Seq<char>,
    pub id: Seq<char>,
    pub fields: Seq<Seq<char>>,
}

impl View for Entity {
    type V = EntityV;

    open spec fn view(&self) -> EntityV {
        EntityV { name: self.name@, id: self.id@, fields: views(self.fields@) }
    }
}

/// The world model.
#[derive(Debug)]
pub struct World {
    pub entities: Vec<Entity>,
    pub ops: Vec<Op>,
}

pub struct WorldV {
    pub entities: Seq<EntityV>,
    pub ops: Seq<OpV>,
}

pub open spec fn entities_view(es: Seq<Entity>) -> Seq<EntityV> {
    es.map_values(|e: Entity| e@)
}

pub open spec fn ops_view(os: Seq<Op>) -> Seq<OpV> {
    os.map_values(|o: Op| o@)
}

impl View for World {
    type V = WorldV;

    open spec fn view(&self) -> WorldV {
        WorldV { entities: entities_view(self.entities@), ops: ops_view(self.ops@) }
    }
}

/// The first operation of that name.
pub open spec fn find_op(ops: Seq<OpV>, name: Seq<char>) -> Option<OpV>
    decreases ops.len(),
{
    if ops.len() == 0 {
        None
    } else if ops[0].name == name {
        Some(ops[0])
    } else {
        find_op(ops.drop_first(), name)
    }
}

/// The first entity of that name.
pub open spec fn find_entity(es: Seq<EntityV>, name: Seq<char>) -> Option<EntityV>
    decreases es.len(),
{
    if es.len() == 0 {
        None
    } else if es[0].name == name {
        Some(es[0])
    } else {
        find_entity(es.drop_first(), name)
    }
}

proof fn find_op_skip(ops: Seq<OpV>, name: Seq<char>, i: int)
    requires
        0 <= i <= ops.len(),
        forall|j: int| 0 <= j < i ==> (#[trigger] ops[j]).name != name,
    ensures
        find_op(ops, name) == find_op(ops.skip(i), name),
    decreases i,
{
    if i == 0 {
        assert(ops.skip(0) =~= ops);
    } else {
        assert(ops[0].name != name);
        let t = ops.drop_first();
        assert forall|j: int| 0 <= j < i - 1 implies (#[trigger] t[j]).name != name by {
            assert(t[j] == ops[j + 1]);
        }
        find_op_skip(t, name, i - 1);
        assert(t.skip(i - 1) =~= ops.skip(i));
    }
}

proof fn find_entity_skip(es: Seq<EntityV>, name: Seq<char>, i: int)
    requires
        0 <= i <= es.len(),
        forall|j: int| 0 <= j < i ==> (#[trigger] es[j]).name != name,
    ensures
        find_entity(es, name) == find_entity(es.skip(i), name),
    decreases i,
{
    if i == 0 {
        assert(es.skip(0) =~= es);
    } else {
        assert(es[0].name != name);
        let t = es.drop_first();
        assert forall|j: int| 0 <= j < i - 1 implies (#[trigger] t[j]).name != name by {
            assert(t[j] == es[j + 1]);
        }
        find_entity_skip(t, name, i - 1);
        assert(t.skip(i - 1) =~= es.skip(i));
    }
}

/// What can make things true: the kind of an operation, for people.
pub open spec fn via(kind: OpKind) -> Seq<char> {
    match kind {
        OpKind::Http => "api"@,
        OpKind::Ui => "ui only"@,
        OpKind::Event => "event from outside"@,
    }
}

pub open spec fn entity_line(e: EntityV) -> Seq<char> {
    "  "@ + e.name + "("@ + e.id + "): "@ + joined(e.fields, ", "@) + "\n"@
}

pub open spec fn op_line(o: OpV) -> Seq<char> {
    match o.post {
        Some(p) => "  "@ + pred_text(p) + "    ["@ + via(o.kind) + ": "@ + o.name + "]\n"@,
        None => Seq::empty(),
    }
}

pub open spec fn entity_lines(es: Seq<EntityV>) -> Seq<char>
    decreases es.len(),
{
    if es.len() == 0 {
        Seq::empty()
    } else {
        entity_lines(es.drop_last()) + entity_line(es.last())
    }
}

pub open spec fn op_lines(os: Seq<OpV>) -> Seq<char>
    decreases os.len(),
{
    if os.len() == 0 {
        Seq::empty()
    } else {
        op_lines(os.drop_last()) + op_line(os.last())
    }
}

/// The description of a world model: what exists and what can be made true.
pub open spec fn summary_text(w: WorldV) -> Seq<char> {
    "entities:\n"@ + entity_lines(w.entities) + "can make true:\n"@ + op_lines(w.ops)
}

impl World {
    /// The first operation of that name.
    pub fn op(&self, name: &str) -> (r: Option<&Op>)
        ensures
            match r {
                Some(o) => find_op(self@.ops, name@) == Some(o@),
                None => find_op(self@.ops, name@) is None,
            },
    {
        let ghost s = self@.ops;
        let mut i: usize = 0;
        while i < self.ops.len()
            invariant
                i <= self.ops@.len(),
                s == ops_view(self.ops@),
                forall|j: int| 0 <= j < i ==> (#[trigger] s[j]).name != name@,
            decreases self.ops@.len() - i,
        {
            if same(self.ops[i].name.as_str(), name) {
                proof {
                    find_op_skip(s, name@, i as int);
                    assert(s.skip(i as int)[0] == s[i as int]);
                }
                return Some(&self.ops[i]);
            }
            i += 1;
        }
        proof {
            find_op_skip(s, name@, i as int);
        }
        None
    }

    /// The first entity of that name.
    pub fn entity(&self, name: &str) -> (r: Option<&Entity>)
        ensures
            match r {
                Some(e) => find_entity(self@.entities, name@) == Some(e@),
                None => find_entity(self@.entities, name@) is None,
            },
    {
        let ghost s = self@.entities;
        let mut i: usize = 0;
        while i < self.entities.len()
            invariant
                i <= self.entities@.len(),
                s == entities_view(self.entities@),
                forall|j: int| 0 <= j < i ==> (#[trigger] s[j]).name != name@,
            decreases self.entities@.len() - i,
        {
            if same(self.entities[i].name.as_str(), name) {
                proof {
                    find_entity_skip(s, name@, i as int);
                    assert(s.skip(i as int)[0] == s[i as int]);
                }
                return Some(&self.entities[i]);
            }
            i += 1;
        }
        proof {
            find_entity_skip(s, name@, i as int);
        }
        None
    }

    /// A compact description for a planner prompt: what exists and what can be made true.
    pub fn summary(&self) -> (r: String)
        ensures
            r@ == summary_text(self@),
    {
        let mut out = String::new();
        out.push_str("entities:\n");
        let ghost es = self@.entities;
        let mut i: usize = 0;
        assert(out@ =~= "entities:\n"@ + entity_lines(es.take(0)));
        while i < self.entities.len()
            invariant
                i <= self.entities@.len(),
                es == entities_view(self.entities@),
                out@ == "entities:\n"@ + entity_lines(es.take(i as int)),
            decreases self.entities@.len() - i,
        {
            let e = &self.entities[i];
            out.push_str("  ");
            out.push_str(e.name.as_str());
            out.push_str("(");
            out.push_str(e.id.as_str());
            out.push_str("): ");
            out.push_str(join(&e.fields, ", ").as_str());
            out.push_str("\n");
            proof {
                assert(es.take(i + 1).drop_last() =~= es.take(i as int));
                assert(es.take(i + 1).last() == e@);
            }
            i += 1;
            assert(out@ =~= "entities:\n"@ + entity_lines(es.take(i as int)));
        }
        assert(es.take(i as int) =~= es);
        out.push_str("can make true:\n");
        let ghost head = out@;
        let ghost os = self@.ops;
        let mut j: usize = 0;
        assert(out@ =~= head + op_lines(os.take(0)));
        while j < self.ops.len()
            invariant
                j <= self.ops@.len(),
                os == ops_view(self.ops@),
                out@ == head + op_lines(os.take(j as int)),
            decreases self.ops@.len() - j,
        {
            let o = &self.ops[j];
            match &o.post {
                Some(p) => {
                    out.push_str("  ");
                    p.write_to(&mut out);
                    out.push_str("    [");
                    match o.kind {
                        OpKind::Http => {
                            out.push_str("api");
                        },
                        OpKind::Ui => {
                            out.push_str("ui only");
                        },
                        OpKind::Event => {
                            out.push_str("event from outside");
                        },
                    }
                    out.push_str(": ");
                    out.push_str(o.name.as_str());
                    out.push_str("]\n");
                },
                None => {},
            }
            proof {
                assert(os.take(j + 1).drop_last() =~= os.take(j as int));
                assert(os.take(j + 1).last() == o@);
            }
            j += 1;
            assert(out@ =~= head + op_lines(os.take(j as int)));
        }
        assert(os.take(j as int) =~= os);
        assert(out@ =~= summary_text(self@));
        out
    }
}

} // verus!
