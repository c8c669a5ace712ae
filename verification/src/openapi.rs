//! Deriving the world model from an app's OpenAPI document.
//!
//! Each operation carries an `x-reverse-webmcp` block: postcondition, requirements, read and write
//! footprint, which surfaces expose it and at what cost. Entities, events and UI-only actions come
//! from `x-reverse-webmcp-entities`, `x-reverse-webmcp-events` and `x-reverse-webmcp-ui` at the
//! document root.

use crate::cut::{
    pieces, split, strip_prefix, strip_suffix, upper, uppercase, without_prefix, without_suffix,
};
use crate::json::{
    as_bool, as_list, as_obj, as_str, as_u64, bool_of, clone_obj, get_in, json_of, list_of, list_view,
    member, obj_of, obj_view, opt_view, parse_text, str_of, then_member, u64_of, Json, JsonV,
};
use crate::pred::{preds_view, Pred, PredV};
use crate::pred_parse::parse_spec;
use crate::read_laws::what_is_read_can_be_told;
use crate::tell::telling_pred;
use crate::text::{owned, views};
use crate::world::{
    entities_view, opt_check, opt_fork, opt_pred, opt_str, ops_view, params_view, surfaces_view,
    Check, CheckV, Entity, EntityV, Fork, ForkV, Op, OpKind, OpV, Param, ParamIn, ParamV, UiSpec,
    UiSpecV, World, world_error_text, WorldError, WorldErrorV, WorldV,
};
use vstd::prelude::*;

verus! {

// ---------- the pieces of a block ----------

/// The strings among some values.
pub open spec fn keep_strings(xs: Seq<JsonV>) -> Seq<Seq<char>>
    decreases xs.len(),
{
    if xs.len() == 0 {
        Seq::empty()
    } else {
        match xs.last() {
            JsonV::Str(s) => keep_strings(xs.drop_last()).push(s),
            _ => keep_strings(xs.drop_last()),
        }
    }
}

/// The strings of the array that a value is.
pub open spec fn strings_of(v: Option<JsonV>) -> Seq<Seq<char>> {
    match list_of(v) {
        Some(xs) => keep_strings(xs),
        None => Seq::empty(),
    }
}

/// Predicates, or the first that does not parse.
pub open spec fn parse_all(ss: Seq<Seq<char>>, op: Seq<char>, field: Seq<char>) -> Result<
    Seq<PredV>,
    WorldErrorV,
>
    decreases ss.len(),
{
    if ss.len() == 0 {
        Ok(Seq::empty())
    } else {
        match parse_all(ss.drop_last(), op, field) {
            Err(e) => Err(e),
            Ok(ps) => match parse_spec(ss.last()) {
                Ok(p) => Ok(ps.push(p)),
                Err(source) => Err(WorldErrorV::Predicate { op, field, source }),
            },
        }
    }
}

/// The postcondition of a block, where it has one.
pub open spec fn post_of(v: Option<JsonV>, op: Seq<char>) -> Result<Option<PredV>, WorldErrorV> {
    match str_of(v) {
        None => Ok(None),
        Some(s) => match parse_spec(s) {
            Ok(p) => Ok(Some(p)),
            Err(source) => Err(WorldErrorV::Predicate { op, field: "post"@, source }),
        },
    }
}

/// Surfaces and their cost. Only a whole number that is not negative is a cost.
pub open spec fn costs(xs: Seq<(Seq<char>, JsonV)>) -> Seq<(Seq<char>, u32)>
    decreases xs.len(),
{
    if xs.len() == 0 {
        Seq::empty()
    } else {
        match u64_of(Some(xs.last().1)) {
            Some(c) => costs(xs.drop_last()).push((xs.last().0, c as u32)),
            None => costs(xs.drop_last()),
        }
    }
}

pub open spec fn surfaces_of(v: Option<JsonV>) -> Seq<(Seq<char>, u32)> {
    match obj_of(v) {
        Some(xs) => costs(xs),
        None => Seq::empty(),
    }
}

/// The fork of a block: one without a condition is none.
pub open spec fn fork_of(v: Option<JsonV>) -> Option<ForkV> {
    match str_of(then_member(v, "when"@)) {
        None => None,
        Some(when) => Some(
            ForkV {
                when,
                ask: match str_of(then_member(v, "ask"@)) {
                    Some(a) => a,
                    None => Seq::empty(),
                },
                default: None,
            },
        ),
    }
}

/// How to confirm an event: an object with all four members, or an array of the four.
pub open spec fn check_of(v: Option<JsonV>) -> Option<CheckV> {
    match v {
        Some(JsonV::Obj(_)) => match (
            str_of(then_member(v, "op"@)),
            str_of(then_member(v, "arg"@)),
            str_of(then_member(v, "field"@)),
            then_member(v, "value"@),
        ) {
            (Some(op), Some(arg), Some(field), Some(value)) => Some(
                CheckV { op, arg, field, value },
            ),
            _ => None,
        },
        Some(JsonV::List(xs)) => if xs.len() == 4 {
            match (str_of(Some(xs[0])), str_of(Some(xs[1])), str_of(Some(xs[2]))) {
                (Some(op), Some(arg), Some(field)) => Some(CheckV { op, arg, field, value: xs[3] }),
                _ => None,
            }
        } else {
            None
        },
        _ => None,
    }
}

/// A string, or another where there is none.
pub open spec fn or_text(v: Option<Seq<char>>, other: Seq<char>) -> Seq<char> {
    match v {
        Some(s) => s,
        None => other,
    }
}

// ---------- entities ----------

pub open spec fn entity_of(x: (Seq<char>, JsonV)) -> EntityV {
    EntityV {
        name: x.0,
        id: or_text(str_of(member(x.1, "id"@)), "id"@),
        fields: strings_of(member(x.1, "fields"@)),
    }
}

pub open spec fn entities_of(doc: JsonV) -> Seq<EntityV> {
    match obj_of(member(doc, "x-reverse-webmcp-entities"@)) {
        Some(xs) => xs.map_values(|x: (Seq<char>, JsonV)| entity_of(x)),
        None => Seq::empty(),
    }
}

// ---------- operations ----------

/// A parameter of a request: in the path where it says so, else in the query.
pub open spec fn param_of(p: JsonV) -> ParamV {
    ParamV {
        name: or_text(str_of(member(p, "name"@)), Seq::empty()),
        location: if str_of(member(p, "in"@)) == Some("path"@) {
            ParamIn::Path
        } else {
            ParamIn::Query
        },
    }
}

/// The properties of a JSON request body.
pub open spec fn body_of(spec_: JsonV) -> Option<JsonV> {
    then_member(
        then_member(
            then_member(
                then_member(member(spec_, "requestBody"@), "content"@),
                "application/json"@,
            ),
            "schema"@,
        ),
        "properties"@,
    )
}

/// The parameters of an operation: those of the request, then those of the body.
pub open spec fn params_of(spec_: JsonV) -> Seq<ParamV> {
    (match list_of(member(spec_, "parameters"@)) {
        Some(ps) => ps.map_values(|p: JsonV| param_of(p)),
        None => Seq::empty(),
    }) + (match obj_of(body_of(spec_)) {
        Some(xs) => xs.map_values(
            |x: (Seq<char>, JsonV)| ParamV { name: x.0, location: ParamIn::Body },
        ),
        None => Seq::empty(),
    })
}

/// The operation of a method under a path: none without a block.
pub open spec fn http_op(path: Seq<char>, method: Seq<char>, spec_: JsonV) -> Result<
    Option<OpV>,
    WorldErrorV,
> {
    match member(spec_, "x-reverse-webmcp"@) {
        None => Ok(None),
        Some(zh) => match str_of(member(spec_, "operationId"@)) {
            None => Err(WorldErrorV::MissingOperationId { method, path }),
            Some(name) => match post_of(member(zh, "post"@), name) {
                Err(e) => Err(e),
                Ok(post) => match parse_all(
                    strings_of(member(zh, "requires"@)),
                    name,
                    "requires"@,
                ) {
                    Err(e) => Err(e),
                    Ok(reqs) => Ok(
                        Some(
                            OpV {
                                name,
                                kind: OpKind::Http,
                                method: upper(method),
                                path,
                                params: params_of(spec_),
                                post,
                                requires_: reqs,
                                produces: str_of(member(zh, "produces"@)),
                                reads: strings_of(member(zh, "reads"@)),
                                writes: strings_of(member(zh, "writes"@)),
                                external: bool_of(member(zh, "external"@)) == Some(true),
                                surfaces: surfaces_of(member(zh, "surfaces"@)),
                                defaults: match obj_of(member(zh, "defaults"@)) {
                                    Some(xs) => xs,
                                    None => Seq::empty(),
                                },
                                fork: fork_of(member(zh, "fork"@)),
                                ui: None,
                                check: None,
                                before: strings_of(member(zh, "before"@)),
                            },
                        ),
                    ),
                },
            },
        },
    }
}

/// The operations under a path, on top of those before it.
pub open spec fn add_methods(
    ops: Seq<OpV>,
    path: Seq<char>,
    methods: Seq<(Seq<char>, JsonV)>,
) -> Result<Seq<OpV>, WorldErrorV>
    decreases methods.len(),
{
    if methods.len() == 0 {
        Ok(ops)
    } else {
        match add_methods(ops, path, methods.drop_last()) {
            Err(e) => Err(e),
            Ok(os) => match http_op(path, methods.last().0, methods.last().1) {
                Err(e) => Err(e),
                Ok(None) => Ok(os),
                Ok(Some(o)) => Ok(os.push(o)),
            },
        }
    }
}

/// The operations of all paths.
pub open spec fn add_paths(paths: Seq<(Seq<char>, JsonV)>) -> Result<Seq<OpV>, WorldErrorV>
    decreases paths.len(),
{
    if paths.len() == 0 {
        Ok(Seq::empty())
    } else {
        match add_paths(paths.drop_last()) {
            Err(e) => Err(e),
            Ok(os) => match paths.last().1 {
                JsonV::Obj(methods) => add_methods(os, paths.last().0, methods),
                _ => Ok(os),
            },
        }
    }
}

/// The placeholders of a route, as path parameters.
pub open spec fn route_params(segs: Seq<Seq<char>>) -> Seq<ParamV>
    decreases segs.len(),
{
    if segs.len() == 0 {
        Seq::empty()
    } else {
        let rest = route_params(segs.drop_last());
        match placeholder(segs.last()) {
            Some(name) => rest.push(ParamV { name, location: ParamIn::Path }),
            None => rest,
        }
    }
}

/// The name in a segment of the form `{name}`.
pub open spec fn placeholder(seg: Seq<char>) -> Option<Seq<char>> {
    match without_prefix(seg, "{"@) {
        Some(s) => without_suffix(s, "}"@),
        None => None,
    }
}

/// An action that only a screen offers.
pub open spec fn ui_op(name: Seq<char>, zh: JsonV) -> Result<OpV, WorldErrorV> {
    let route = or_text(str_of(member(zh, "route"@)), "/"@);
    match post_of(member(zh, "post"@), name) {
        Err(e) => Err(e),
        Ok(post) => match parse_all(strings_of(member(zh, "requires"@)), name, "requires"@) {
            Err(e) => Err(e),
            Ok(reqs) => Ok(
                OpV {
                    name,
                    kind: OpKind::Ui,
                    method: "UI"@,
                    path: route,
                    params: route_params(pieces(route, '/')),
                    post,
                    requires_: reqs,
                    produces: None,
                    reads: strings_of(member(zh, "reads"@)),
                    writes: strings_of(member(zh, "writes"@)),
                    external: false,
                    surfaces: surfaces_of(member(zh, "surfaces"@)),
                    defaults: Seq::empty(),
                    fork: None,
                    ui: Some(
                        UiSpecV {
                            route,
                            control: match member(zh, "control"@) {
                                Some(c) => c,
                                None => JsonV::Null,
                            },
                        },
                    ),
                    check: None,
                    before: strings_of(member(zh, "before"@)),
                },
            ),
        },
    }
}

pub open spec fn add_ui(ops: Seq<OpV>, xs: Seq<(Seq<char>, JsonV)>) -> Result<
    Seq<OpV>,
    WorldErrorV,
>
    decreases xs.len(),
{
    if xs.len() == 0 {
        Ok(ops)
    } else {
        match add_ui(ops, xs.drop_last()) {
            Err(e) => Err(e),
            Ok(os) => match ui_op(xs.last().0, xs.last().1) {
                Err(e) => Err(e),
                Ok(o) => Ok(os.push(o)),
            },
        }
    }
}

/// Something that the outside world does.
pub open spec fn event_op(name: Seq<char>, zh: JsonV) -> Result<OpV, WorldErrorV> {
    match post_of(member(zh, "post"@), name) {
        Err(e) => Err(e),
        Ok(post) => Ok(
            OpV {
                name,
                kind: OpKind::Event,
                method: "EVENT"@,
                path: Seq::empty(),
                params: seq![ParamV { name: "id"@, location: ParamIn::Query }],
                post,
                requires_: Seq::empty(),
                produces: None,
                reads: Seq::empty(),
                writes: Seq::empty(),
                external: false,
                surfaces: Seq::empty(),
                defaults: Seq::empty(),
                fork: None,
                ui: None,
                check: check_of(member(zh, "check"@)),
                before: Seq::empty(),
            },
        ),
    }
}

pub open spec fn add_events(ops: Seq<OpV>, xs: Seq<(Seq<char>, JsonV)>) -> Result<
    Seq<OpV>,
    WorldErrorV,
>
    decreases xs.len(),
{
    if xs.len() == 0 {
        Ok(ops)
    } else {
        match add_events(ops, xs.drop_last()) {
            Err(e) => Err(e),
            Ok(os) => match event_op(xs.last().0, xs.last().1) {
                Err(e) => Err(e),
                Ok(o) => Ok(os.push(o)),
            },
        }
    }
}

/// The entries of an object, or none.
pub open spec fn entries_or_none(v: Option<JsonV>) -> Seq<(Seq<char>, JsonV)> {
    match obj_of(v) {
        Some(xs) => xs,
        None => Seq::empty(),
    }
}

/// The world model that a document describes, or the first thing in it that is wrong.
pub open spec fn world_of(doc: JsonV) -> Result<WorldV, WorldErrorV> {
    match obj_of(member(doc, "paths"@)) {
        None => Err(WorldErrorV::NoPaths),
        Some(paths) => match add_paths(paths) {
            Err(e) => Err(e),
            Ok(a) => match add_ui(a, entries_or_none(member(doc, "x-reverse-webmcp-ui"@))) {
                Err(e) => Err(e),
                Ok(b) => match add_events(
                    b,
                    entries_or_none(member(doc, "x-reverse-webmcp-events"@)),
                ) {
                    Err(e) => Err(e),
                    Ok(ops) => Ok(WorldV { entities: entities_of(doc), ops }),
                },
            },
        },
    }
}

// ---------- reading the pieces ----------

/// The strings of the array that a value is.
pub fn read_strings(v: Option<&Json>) -> (r: Vec<String>)
    ensures
        views(r@) == strings_of(opt_view(v)),
{
    let mut out: Vec<String> = Vec::new();
    match as_list(v) {
        None => {
            assert(views(out@) =~= Seq::<Seq<char>>::empty());
        },
        Some(xs) => {
            let ghost vs = list_view(xs@);
            let mut i: usize = 0;
            assert(views(out@) =~= keep_strings(vs.take(0)));
            while i < xs.len()
                invariant
                    i <= xs@.len(),
                    vs == list_view(xs@),
                    views(out@) == keep_strings(vs.take(i as int)),
                decreases xs@.len() - i,
            {
                proof {
                    assert(vs.take(i + 1).drop_last() =~= vs.take(i as int));
                    assert(vs.take(i + 1).last() == xs@[i as int]@);
                }
                match &xs[i] {
                    Json::Str(s) => {
                        let ghost o = views(out@);
                        out.push(s.clone());
                        assert(views(out@) =~= o.push(s@));
                    },
                    _ => {},
                }
                i += 1;
            }
            assert(vs.take(i as int) =~= vs);
        },
    }
    out
}

proof fn parse_all_stuck(ss: Seq<Seq<char>>, op: Seq<char>, field: Seq<char>, k: int)
    requires
        0 <= k <= ss.len(),
        parse_all(ss.take(k), op, field) is Err,
    ensures
        parse_all(ss, op, field) == parse_all(ss.take(k), op, field),
    decreases ss.len(),
{
    if k == ss.len() {
        assert(ss.take(k) =~= ss);
    } else {
        assert(ss.drop_last().take(k) =~= ss.take(k));
        parse_all_stuck(ss.drop_last(), op, field, k);
    }
}

fn read_preds(v: Option<&Json>, op: &str) -> (r: Result<Vec<Pred>, WorldError>)
    ensures
        match (r, parse_all(strings_of(opt_view(v)), op@, "requires"@)) {
            (Ok(ps), Ok(ws)) => preds_view(ps@) == ws,
            (Err(e), Err(f)) => e@ == f,
            _ => false,
        },
{
    let texts = read_strings(v);
    let ghost ss = views(texts@);
    let mut out: Vec<Pred> = Vec::new();
    let mut i: usize = 0;
    assert(preds_view(out@) =~= Seq::<PredV>::empty());
    assert(ss.take(0) =~= Seq::<Seq<char>>::empty());
    while i < texts.len()
        invariant
            i <= texts@.len(),
            ss == views(texts@),
            parse_all(ss.take(i as int), op@, "requires"@) == Ok::<Seq<PredV>, WorldErrorV>(
                preds_view(out@),
            ),
            ss == strings_of(opt_view(v)),
        decreases texts@.len() - i,
    {
        proof {
            assert(ss.take(i + 1).drop_last() =~= ss.take(i as int));
            assert(ss.take(i + 1).last() == texts@[i as int]@);
        }
        match Pred::parse(texts[i].as_str()) {
            Ok(p) => {
                let ghost o = preds_view(out@);
                out.push(p);
                assert(preds_view(out@) =~= o.push(p@));
            },
            Err(source) => {
                proof {
                    parse_all_stuck(ss, op@, "requires"@, i + 1);
                }
                return Err(WorldError::Predicate { op: owned(op), field: "requires", source });
            },
        }
        i += 1;
    }
    assert(ss.take(i as int) =~= ss);
    Ok(out)
}

fn read_post(v: Option<&Json>, op: &str) -> (r: Result<Option<Pred>, WorldError>)
    ensures
        match (r, post_of(opt_view(v), op@)) {
            (Ok(p), Ok(w)) => opt_pred(p) == w,
            (Err(e), Err(f)) => e@ == f,
            _ => false,
        },
{
    match as_str(v) {
        None => Ok(None),
        Some(s) => match Pred::parse(s) {
            Ok(p) => Ok(Some(p)),
            Err(source) => Err(WorldError::Predicate { op: owned(op), field: "post", source }),
        },
    }
}

fn read_surfaces(v: Option<&Json>) -> (r: Vec<(String, u32)>)
    ensures
        surfaces_view(r@) == surfaces_of(opt_view(v)),
{
    let mut out: Vec<(String, u32)> = Vec::new();
    match as_obj(v) {
        None => {
            assert(surfaces_view(out@) =~= Seq::<(Seq<char>, u32)>::empty());
        },
        Some(xs) => {
            let ghost vs = obj_view(xs@);
            let mut i: usize = 0;
            assert(surfaces_view(out@) =~= costs(vs.take(0)));
            while i < xs.len()
                invariant
                    i <= xs@.len(),
                    vs == obj_view(xs@),
                    surfaces_view(out@) == costs(vs.take(i as int)),
                decreases xs@.len() - i,
            {
                proof {
                    assert(vs.take(i + 1).drop_last() =~= vs.take(i as int));
                    assert(vs.take(i + 1).last() == (xs@[i as int].0@, xs@[i as int].1@));
                }
                match as_u64(Some(&xs[i].1)) {
                    Some(c) => {
                        let ghost o = surfaces_view(out@);
                        #[verifier::truncate]
                        let cost: u32 = c as u32;
                        out.push((xs[i].0.clone(), cost));
                        assert(surfaces_view(out@) =~= o.push((xs@[i as int].0@, cost)));
                    },
                    None => {},
                }
                i += 1;
            }
            assert(vs.take(i as int) =~= vs);
        },
    }
    out
}

fn text_or(v: Option<&str>, other: &str) -> (r: String)
    ensures
        r@ == (match v {
            Some(s) => s@,
            None => other@,
        }),
{
    match v {
        Some(s) => owned(s),
        None => owned(other),
    }
}

fn read_fork(v: Option<&Json>) -> (r: Option<Fork>)
    ensures
        opt_fork(r) == fork_of(opt_view(v)),
{
    match as_str(get_in(v, "when")) {
        None => None,
        Some(when) => {
            let ask = text_or(as_str(get_in(v, "ask")), "");
            proof {
                reveal_strlit("");
                assert(""@ =~= Seq::<char>::empty());
            }
            Some(Fork { when: owned(when), ask, default: None })
        },
    }
}

fn read_check(v: Option<&Json>) -> (r: Option<Check>)
    ensures
        opt_check(r) == check_of(opt_view(v)),
{
    match v {
        Some(Json::Obj(_)) => match (
            as_str(get_in(v, "op")),
            as_str(get_in(v, "arg")),
            as_str(get_in(v, "field")),
            get_in(v, "value"),
        ) {
            (Some(op), Some(arg), Some(field), Some(value)) => Some(
                Check {
                    op: owned(op),
                    arg: owned(arg),
                    field: owned(field),
                    value: value.clone(),
                },
            ),
            _ => None,
        },
        Some(Json::List(xs)) => {
            assert(list_view(xs@).len() == xs@.len());
            if xs.len() == 4 {
                assert(list_view(xs@)[0] == xs@[0]@);
                assert(list_view(xs@)[1] == xs@[1]@);
                assert(list_view(xs@)[2] == xs@[2]@);
                assert(list_view(xs@)[3] == xs@[3]@);
                match (as_str(Some(&xs[0])), as_str(Some(&xs[1])), as_str(Some(&xs[2]))) {
                    (Some(op), Some(arg), Some(field)) => Some(
                        Check {
                            op: owned(op),
                            arg: owned(arg),
                            field: owned(field),
                            value: xs[3].clone(),
                        },
                    ),
                    _ => None,
                }
            } else {
                None
            }
        },
        _ => None,
    }
}

fn read_entities(doc: &Json) -> (r: Vec<Entity>)
    ensures
        entities_view(r@) == entities_of(doc@),
{
    let mut out: Vec<Entity> = Vec::new();
    match as_obj(doc.get("x-reverse-webmcp-entities")) {
        None => {
            assert(entities_view(out@) =~= Seq::<EntityV>::empty());
        },
        Some(xs) => {
            let ghost all = entities_of(doc@);
            let mut i: usize = 0;
            assert(all.len() == xs@.len());
            while i < xs.len()
                invariant
                    i <= xs@.len() == all.len(),
                    all == obj_view(xs@).map_values(|x: (Seq<char>, JsonV)| entity_of(x)),
                    entities_view(out@) == all.take(i as int),
                decreases xs@.len() - i,
            {
                let x = &xs[i].1;
                let e = Entity {
                    name: xs[i].0.clone(),
                    id: text_or(as_str(x.get("id")), "id"),
                    fields: read_strings(x.get("fields")),
                };
                assert(obj_view(xs@)[i as int] == (xs@[i as int].0@, xs@[i as int].1@));
                assert(all[i as int] == e@);
                let ghost o = entities_view(out@);
                out.push(e);
                assert(entities_view(out@) =~= o.push(e@));
                i += 1;
                assert(entities_view(out@) =~= all.take(i as int));
            }
            assert(all.take(i as int) =~= all);
        },
    }
    out
}

fn read_params(spec_: &Json) -> (r: Vec<Param>)
    ensures
        params_view(r@) == params_of(spec_@),
{
    let mut out: Vec<Param> = Vec::new();
    let ghost first = match list_of(member(spec_@, "parameters"@)) {
        Some(ps) => ps.map_values(|p: JsonV| param_of(p)),
        None => Seq::empty(),
    };
    match as_list(spec_.get("parameters")) {
        None => {
            assert(params_view(out@) =~= first);
        },
        Some(ps) => {
            let mut i: usize = 0;
            assert(first.len() == ps@.len());
            while i < ps.len()
                invariant
                    i <= ps@.len() == first.len(),
                    first == list_view(ps@).map_values(|p: JsonV| param_of(p)),
                    params_view(out@) == first.take(i as int),
                decreases ps@.len() - i,
            {
                let name = text_or(as_str(ps[i].get("name")), "");
                proof {
                    reveal_strlit("");
                    assert(""@ =~= Seq::<char>::empty());
                }
                let location = match as_str(ps[i].get("in")) {
                    Some(s) => if crate::text::same(s, "path") {
                        ParamIn::Path
                    } else {
                        ParamIn::Query
                    },
                    None => ParamIn::Query,
                };
                let p = Param { name, location };
                assert(list_view(ps@)[i as int] == ps@[i as int]@);
                assert(first[i as int] == p@);
                let ghost o = params_view(out@);
                out.push(p);
                assert(params_view(out@) =~= o.push(p@));
                i += 1;
                assert(params_view(out@) =~= first.take(i as int));
            }
            assert(first.take(i as int) =~= first);
        },
    }
    let body = get_in(
        get_in(
            get_in(get_in(spec_.get("requestBody"), "content"), "application/json"),
            "schema",
        ),
        "properties",
    );
    let ghost second = match obj_of(body_of(spec_@)) {
        Some(xs) => xs.map_values(
            |x: (Seq<char>, JsonV)| ParamV { name: x.0, location: ParamIn::Body },
        ),
        None => Seq::empty(),
    };
    match as_obj(body) {
        None => {
            assert(first + second =~= first);
        },
        Some(xs) => {
            let mut i: usize = 0;
            assert(second.len() == xs@.len());
            assert(first + second.take(0) =~= first);
            while i < xs.len()
                invariant
                    i <= xs@.len() == second.len(),
                    second == obj_view(xs@).map_values(
                        |x: (Seq<char>, JsonV)| ParamV { name: x.0, location: ParamIn::Body },
                    ),
                    params_view(out@) == first + second.take(i as int),
                decreases xs@.len() - i,
            {
                let p = Param { name: xs[i].0.clone(), location: ParamIn::Body };
                assert(obj_view(xs@)[i as int] == (xs@[i as int].0@, xs@[i as int].1@));
                assert(second[i as int] == p@);
                let ghost o = params_view(out@);
                out.push(p);
                assert(params_view(out@) =~= o.push(p@));
                i += 1;
                assert(params_view(out@) =~= first + second.take(i as int));
            }
            assert(second.take(i as int) =~= second);
        },
    }
    out
}

// ---------- operations ----------

fn read_produces(v: Option<&Json>) -> (r: Option<String>)
    ensures
        opt_str(r) == str_of(opt_view(v)),
{
    match as_str(v) {
        Some(s) => Some(owned(s)),
        None => None,
    }
}

fn read_http(path: &str, method: &str, spec_: &Json) -> (r: Result<Option<Op>, WorldError>)
    ensures
        match (r, http_op(path@, method@, spec_@)) {
            (Ok(Some(o)), Ok(Some(w))) => o@ == w,
            (Ok(None), Ok(None)) => true,
            (Err(e), Err(f)) => e@ == f,
            _ => false,
        },
{
    let zh = match spec_.get("x-reverse-webmcp") {
        Some(zh) => zh,
        None => {
            return Ok(None);
        },
    };
    let name = match as_str(spec_.get("operationId")) {
        Some(n) => n,
        None => {
            return Err(
                WorldError::MissingOperationId { method: owned(method), path: owned(path) },
            );
        },
    };
    let post = read_post(zh.get("post"), name)?;
    let reqs = read_preds(zh.get("requires"), name)?;
    let defaults: Vec<(String, Json)> = match as_obj(zh.get("defaults")) {
        Some(xs) => clone_obj(xs),
        None => Vec::new(),
    };
    assert(defaults@.len() == 0 ==> obj_view(defaults@) =~= Seq::<(Seq<char>, JsonV)>::empty());
    let external: bool = match as_bool(zh.get("external")) {
        Some(b) => b,
        None => false,
    };
    let op = Op {
        name: owned(name),
        kind: OpKind::Http,
        method: uppercase(method),
        path: owned(path),
        params: read_params(spec_),
        post,
        requires_: reqs,
        produces: read_produces(zh.get("produces")),
        reads: read_strings(zh.get("reads")),
        writes: read_strings(zh.get("writes")),
        external,
        surfaces: read_surfaces(zh.get("surfaces")),
        defaults,
        fork: read_fork(zh.get("fork")),
        ui: None,
        check: None,
        before: read_strings(zh.get("before")),
    };
    Ok(Some(op))
}

proof fn add_methods_stuck(
    ops: Seq<OpV>,
    path: Seq<char>,
    xs: Seq<(Seq<char>, JsonV)>,
    k: int,
)
    requires
        0 <= k <= xs.len(),
        add_methods(ops, path, xs.take(k)) is Err,
    ensures
        add_methods(ops, path, xs) == add_methods(ops, path, xs.take(k)),
    decreases xs.len(),
{
    if k == xs.len() {
        assert(xs.take(k) =~= xs);
    } else {
        assert(xs.drop_last().take(k) =~= xs.take(k));
        add_methods_stuck(ops, path, xs.drop_last(), k);
    }
}

proof fn add_paths_stuck(xs: Seq<(Seq<char>, JsonV)>, k: int)
    requires
        0 <= k <= xs.len(),
        add_paths(xs.take(k)) is Err,
    ensures
        add_paths(xs) == add_paths(xs.take(k)),
    decreases xs.len(),
{
    if k == xs.len() {
        assert(xs.take(k) =~= xs);
    } else {
        assert(xs.drop_last().take(k) =~= xs.take(k));
        add_paths_stuck(xs.drop_last(), k);
    }
}

proof fn add_ui_stuck(ops: Seq<OpV>, xs: Seq<(Seq<char>, JsonV)>, k: int)
    requires
        0 <= k <= xs.len(),
        add_ui(ops, xs.take(k)) is Err,
    ensures
        add_ui(ops, xs) == add_ui(ops, xs.take(k)),
    decreases xs.len(),
{
    if k == xs.len() {
        assert(xs.take(k) =~= xs);
    } else {
        assert(xs.drop_last().take(k) =~= xs.take(k));
        add_ui_stuck(ops, xs.drop_last(), k);
    }
}

proof fn add_events_stuck(ops: Seq<OpV>, xs: Seq<(Seq<char>, JsonV)>, k: int)
    requires
        0 <= k <= xs.len(),
        add_events(ops, xs.take(k)) is Err,
    ensures
        add_events(ops, xs) == add_events(ops, xs.take(k)),
    decreases xs.len(),
{
    if k == xs.len() {
        assert(xs.take(k) =~= xs);
    } else {
        assert(xs.drop_last().take(k) =~= xs.take(k));
        add_events_stuck(ops, xs.drop_last(), k);
    }
}

fn read_methods(path: &str, methods: &Vec<(String, Json)>, ops: &mut Vec<Op>) -> (r: Result<
    (),
    WorldError,
>)
    ensures
        match (r, add_methods(ops_view(old(ops)@), path@, obj_view(methods@))) {
            (Ok(_), Ok(w)) => ops_view(final(ops)@) == w,
            (Err(e), Err(f)) => e@ == f,
            _ => false,
        },
{
    let ghost before = ops_view(ops@);
    let ghost ms = obj_view(methods@);
    let mut i: usize = 0;
    assert(ms.take(0) =~= Seq::<(Seq<char>, JsonV)>::empty());
    while i < methods.len()
        invariant
            i <= methods@.len(),
            before == ops_view(old(ops)@),
            ms == obj_view(methods@),
            add_methods(before, path@, ms.take(i as int)) == Ok::<Seq<OpV>, WorldErrorV>(
                ops_view(ops@),
            ),
        decreases methods@.len() - i,
    {
        proof {
            assert(ms.take(i + 1).drop_last() =~= ms.take(i as int));
            assert(ms.take(i + 1).last() == (methods@[i as int].0@, methods@[i as int].1@));
        }
        match read_http(path, methods[i].0.as_str(), &methods[i].1) {
            Ok(Some(o)) => {
                let ghost s = ops_view(ops@);
                ops.push(o);
                assert(ops_view(ops@) =~= s.push(o@));
            },
            Ok(None) => {},
            Err(e) => {
                proof {
                    add_methods_stuck(before, path@, ms, i + 1);
                }
                return Err(e);
            },
        }
        i += 1;
    }
    assert(ms.take(i as int) =~= ms);
    Ok(())
}

fn read_route(route: &str) -> (r: Vec<Param>)
    ensures
        params_view(r@) == route_params(pieces(route@, '/')),
{
    let segs = split(route, '/');
    let ghost ss = views(segs@);
    let mut out: Vec<Param> = Vec::new();
    let mut i: usize = 0;
    assert(params_view(out@) =~= route_params(ss.take(0)));
    while i < segs.len()
        invariant
            i <= segs@.len(),
            ss == views(segs@),
            params_view(out@) == route_params(ss.take(i as int)),
        decreases segs@.len() - i,
    {
        proof {
            assert(ss.take(i + 1).drop_last() =~= ss.take(i as int));
            assert(ss.take(i + 1).last() == segs@[i as int]@);
        }
        let name: Option<String> = match strip_prefix(segs[i].as_str(), "{") {
            Some(s) => strip_suffix(s.as_str(), "}"),
            None => None,
        };
        match name {
            Some(n) => {
                let p = Param { name: n, location: ParamIn::Path };
                let ghost o = params_view(out@);
                out.push(p);
                assert(params_view(out@) =~= o.push(p@));
            },
            None => {},
        }
        i += 1;
    }
    assert(ss.take(i as int) =~= ss);
    out
}

fn read_ui(name: &str, zh: &Json) -> (r: Result<Op, WorldError>)
    ensures
        match (r, ui_op(name@, zh@)) {
            (Ok(o), Ok(w)) => o@ == w,
            (Err(e), Err(f)) => e@ == f,
            _ => false,
        },
{
    let post = read_post(zh.get("post"), name)?;
    let route = text_or(as_str(zh.get("route")), "/");
    let reqs = read_preds(zh.get("requires"), name)?;
    let control: Json = match zh.get("control") {
        Some(c) => c.clone(),
        None => Json::Null,
    };
    let defaults: Vec<(String, Json)> = Vec::new();
    assert(obj_view(defaults@) =~= Seq::<(Seq<char>, JsonV)>::empty());
    Ok(
        Op {
            name: owned(name),
            kind: OpKind::Ui,
            method: owned("UI"),
            path: route.clone(),
            params: read_route(route.as_str()),
            post,
            requires_: reqs,
            produces: None,
            reads: read_strings(zh.get("reads")),
            writes: read_strings(zh.get("writes")),
            external: false,
            surfaces: read_surfaces(zh.get("surfaces")),
            defaults,
            fork: None,
            ui: Some(UiSpec { route, control }),
            check: None,
            before: read_strings(zh.get("before")),
        },
    )
}

fn read_event(name: &str, zh: &Json) -> (r: Result<Op, WorldError>)
    ensures
        match (r, event_op(name@, zh@)) {
            (Ok(o), Ok(w)) => o@ == w,
            (Err(e), Err(f)) => e@ == f,
            _ => false,
        },
{
    let post = read_post(zh.get("post"), name)?;
    let mut params: Vec<Param> = Vec::new();
    let p = Param { name: owned("id"), location: ParamIn::Query };
    params.push(p);
    assert(params_view(params@) =~= seq![p@]);
    let defaults: Vec<(String, Json)> = Vec::new();
    assert(obj_view(defaults@) =~= Seq::<(Seq<char>, JsonV)>::empty());
    let reqs: Vec<Pred> = Vec::new();
    assert(preds_view(reqs@) =~= Seq::<PredV>::empty());
    let surfaces: Vec<(String, u32)> = Vec::new();
    assert(surfaces_view(surfaces@) =~= Seq::<(Seq<char>, u32)>::empty());
    let none: Vec<String> = Vec::new();
    assert(views(none@) =~= Seq::<Seq<char>>::empty());
    let path = String::new();
    Ok(
        Op {
            name: owned(name),
            kind: OpKind::Event,
            method: owned("EVENT"),
            path,
            params,
            post,
            requires_: reqs,
            produces: None,
            reads: Vec::new(),
            writes: Vec::new(),
            external: false,
            surfaces,
            defaults,
            fork: None,
            ui: None,
            check: read_check(zh.get("check")),
            before: none,
        },
    )
}

/// Why the text of a document is no world model.
#[derive(Debug)]
pub enum DocError {
    /// It is no JSON.
    Json(String),
    World(WorldError),
}

pub enum DocErrorV {
    Json(Seq<char>),
    World(WorldErrorV),
}

impl View for DocError {
    type V = DocErrorV;

    open spec fn view(&self) -> DocErrorV {
        match self {
            DocError::Json(e) => DocErrorV::Json(e@),
            DocError::World(e) => DocErrorV::World(e@),
        }
    }
}

/// The text of a document error.
pub open spec fn doc_error_text(e: DocErrorV) -> Seq<char> {
    match e {
        DocErrorV::Json(m) => m,
        DocErrorV::World(w) => world_error_text(w),
    }
}

impl DocError {
    pub fn to_string(&self) -> (r: String)
        ensures
            r@ == doc_error_text(self@),
    {
        match self {
            DocError::Json(m) => m.clone(),
            DocError::World(w) => w.to_string(),
        }
    }
}

/// The world model that the text of a document describes.
pub open spec fn world_in(text: Seq<char>) -> Result<WorldV, DocErrorV> {
    match json_of(text) {
        Err(e) => Err(DocErrorV::Json(e)),
        Ok(doc) => match world_of(doc) {
            Err(e) => Err(DocErrorV::World(e)),
            Ok(w) => Ok(w),
        },
    }
}

impl World {
    /// Derive the world model from the text of an OpenAPI document.
    pub fn from_text(text: &str) -> (r: Result<World, DocError>)
        ensures
            match (r, world_in(text@)) {
                (Ok(w), Ok(v)) => w@ == v,
                (Err(e), Err(f)) => e@ == f,
                _ => false,
            },
    {
        match parse_text(text) {
            Err(e) => Err(DocError::Json(e)),
            Ok(doc) => match World::from_openapi(&doc) {
                Err(e) => Err(DocError::World(e)),
                Ok(w) => Ok(w),
            },
        }
    }

    /// Derive the world model from an OpenAPI document.
    pub fn from_openapi(doc: &Json) -> (r: Result<World, WorldError>)
        ensures
            match (r, world_of(doc@)) {
                (Ok(w), Ok(v)) => w@ == v,
                (Err(e), Err(f)) => e@ == f,
                _ => false,
            },
    {
        let entities = read_entities(doc);
        let mut ops: Vec<Op> = Vec::new();
        let paths = match as_obj(doc.get("paths")) {
            Some(p) => p,
            None => {
                return Err(WorldError::NoPaths);
            },
        };
        let ghost ps = obj_view(paths@);
        let mut i: usize = 0;
        assert(ops_view(ops@) =~= Seq::<OpV>::empty());
        assert(ps.take(0) =~= Seq::<(Seq<char>, JsonV)>::empty());
        while i < paths.len()
            invariant
                i <= paths@.len(),
                ps == obj_view(paths@),
                add_paths(ps.take(i as int)) == Ok::<Seq<OpV>, WorldErrorV>(ops_view(ops@)),
                obj_of(member(doc@, "paths"@)) == Some(ps),
            decreases paths@.len() - i,
        {
            proof {
                assert(ps.take(i + 1).drop_last() =~= ps.take(i as int));
                assert(ps.take(i + 1).last() == (paths@[i as int].0@, paths@[i as int].1@));
            }
            match &paths[i].1 {
                Json::Obj(methods) => {
                    match read_methods(paths[i].0.as_str(), methods, &mut ops) {
                        Ok(_) => {},
                        Err(e) => {
                            proof {
                                add_paths_stuck(ps, i + 1);
                            }
                            return Err(e);
                        },
                    }
                },
                _ => {},
            }
            i += 1;
        }
        assert(ps.take(i as int) =~= ps);
        let ghost a = ops_view(ops@);
        let ghost us = entries_or_none(member(doc@, "x-reverse-webmcp-ui"@));
        match as_obj(doc.get("x-reverse-webmcp-ui")) {
            None => {},
            Some(xs) => {
                let mut j: usize = 0;
                assert(us.take(0) =~= Seq::<(Seq<char>, JsonV)>::empty());
                while j < xs.len()
                    invariant
                        j <= xs@.len(),
                        us == obj_view(xs@),
                        add_ui(a, us.take(j as int)) == Ok::<Seq<OpV>, WorldErrorV>(ops_view(ops@)),
                        obj_of(member(doc@, "paths"@)) == Some(ps),
                        add_paths(ps) == Ok::<Seq<OpV>, WorldErrorV>(a),
                        us == entries_or_none(member(doc@, "x-reverse-webmcp-ui"@)),
                    decreases xs@.len() - j,
                {
                    proof {
                        assert(us.take(j + 1).drop_last() =~= us.take(j as int));
                        assert(us.take(j + 1).last() == (xs@[j as int].0@, xs@[j as int].1@));
                    }
                    match read_ui(xs[j].0.as_str(), &xs[j].1) {
                        Ok(o) => {
                            let ghost s = ops_view(ops@);
                            ops.push(o);
                            assert(ops_view(ops@) =~= s.push(o@));
                        },
                        Err(e) => {
                            proof {
                                add_ui_stuck(a, us, j + 1);
                            }
                            return Err(e);
                        },
                    }
                    j += 1;
                }
                assert(us.take(j as int) =~= us);
            },
        }
        let ghost b = ops_view(ops@);
        let ghost vs = entries_or_none(member(doc@, "x-reverse-webmcp-events"@));
        match as_obj(doc.get("x-reverse-webmcp-events")) {
            None => {},
            Some(xs) => {
                let mut j: usize = 0;
                assert(vs.take(0) =~= Seq::<(Seq<char>, JsonV)>::empty());
                while j < xs.len()
                    invariant
                        j <= xs@.len(),
                        vs == obj_view(xs@),
                        add_events(b, vs.take(j as int)) == Ok::<Seq<OpV>, WorldErrorV>(
                            ops_view(ops@),
                        ),
                        obj_of(member(doc@, "paths"@)) == Some(ps),
                        add_paths(ps) == Ok::<Seq<OpV>, WorldErrorV>(a),
                        add_ui(a, us) == Ok::<Seq<OpV>, WorldErrorV>(b),
                        us == entries_or_none(member(doc@, "x-reverse-webmcp-ui"@)),
                        vs == entries_or_none(member(doc@, "x-reverse-webmcp-events"@)),
                    decreases xs@.len() - j,
                {
                    proof {
                        assert(vs.take(j + 1).drop_last() =~= vs.take(j as int));
                        assert(vs.take(j + 1).last() == (xs@[j as int].0@, xs@[j as int].1@));
                    }
                    match read_event(xs[j].0.as_str(), &xs[j].1) {
                        Ok(o) => {
                            let ghost s = ops_view(ops@);
                            ops.push(o);
                            assert(ops_view(ops@) =~= s.push(o@));
                        },
                        Err(e) => {
                            proof {
                                add_events_stuck(b, vs, j + 1);
                            }
                            return Err(e);
                        },
                    }
                    j += 1;
                }
                assert(vs.take(j as int) =~= vs);
            },
        }
        Ok(World { entities, ops })
    }
}

// ---------- what the kinds of operation have ----------

/// What an operation of each kind looks like: only an event waits without touching anything, only
/// a screen's action has a screen, only an event has a check.
pub open spec fn kind_shape(o: OpV) -> bool {
    match o.kind {
        OpKind::Http => o.ui is None && o.check is None,
        OpKind::Ui => o.ui is Some && o.check is None && !o.external && o.fork is None,
        OpKind::Event => o.writes.len() == 0 && o.reads.len() == 0 && o.requires_.len() == 0
            && o.surfaces.len() == 0 && o.ui is None && o.fork is None && !o.external,
    }
}

pub open spec fn kinds_shaped(ops: Seq<OpV>) -> bool {
    forall|i: int| 0 <= i < ops.len() ==> kind_shape(#[trigger] ops[i])
}

proof fn methods_shaped(ops: Seq<OpV>, path: Seq<char>, xs: Seq<(Seq<char>, JsonV)>)
    requires
        kinds_shaped(ops),
    ensures
        add_methods(ops, path, xs) matches Ok(r) ==> kinds_shaped(r),
    decreases xs.len(),
{
    if xs.len() > 0 {
        methods_shaped(ops, path, xs.drop_last());
    }
}

proof fn paths_shaped(xs: Seq<(Seq<char>, JsonV)>)
    ensures
        add_paths(xs) matches Ok(r) ==> kinds_shaped(r),
    decreases xs.len(),
{
    if xs.len() > 0 {
        paths_shaped(xs.drop_last());
        if add_paths(xs.drop_last()) is Ok {
            let os = add_paths(xs.drop_last())->Ok_0;
            if xs.last().1 is Obj {
                methods_shaped(os, xs.last().0, xs.last().1->Obj_0);
            }
        }
    }
}

proof fn ui_shaped(ops: Seq<OpV>, xs: Seq<(Seq<char>, JsonV)>)
    requires
        kinds_shaped(ops),
    ensures
        add_ui(ops, xs) matches Ok(r) ==> kinds_shaped(r),
    decreases xs.len(),
{
    if xs.len() > 0 {
        ui_shaped(ops, xs.drop_last());
    }
}

proof fn events_shaped(ops: Seq<OpV>, xs: Seq<(Seq<char>, JsonV)>)
    requires
        kinds_shaped(ops),
    ensures
        add_events(ops, xs) matches Ok(r) ==> kinds_shaped(r),
    decreases xs.len(),
{
    if xs.len() > 0 {
        events_shaped(ops, xs.drop_last());
    }
}

/// In every derived world an event is never a write, and each kind of operation has only what
/// belongs to its kind.
pub proof fn derived_kinds_are_shaped(doc: JsonV)
    ensures
        world_of(doc) matches Ok(w) ==> kinds_shaped(w.ops),
{
    if world_of(doc) is Ok {
        let paths = obj_of(member(doc, "paths"@))->0;
        paths_shaped(paths);
        let a = add_paths(paths)->Ok_0;
        let us = entries_or_none(member(doc, "x-reverse-webmcp-ui"@));
        ui_shaped(a, us);
        let b = add_ui(a, us)->Ok_0;
        events_shaped(b, entries_or_none(member(doc, "x-reverse-webmcp-events"@)));
    }
}

// ---------- requirements can be told from their texts ----------

/// Every requirement of every operation can be told from its text.
pub open spec fn all_told(ops: Seq<OpV>) -> bool {
    forall|i: int| 0 <= i < ops.len() ==> reqs_told((#[trigger] ops[i]).requires_)
}

pub open spec fn reqs_told(rs: Seq<PredV>) -> bool {
    forall|j: int| 0 <= j < rs.len() ==> telling_pred(#[trigger] rs[j])
}

proof fn parsed_told(ss: Seq<Seq<char>>, op: Seq<char>, field: Seq<char>)
    ensures
        parse_all(ss, op, field) matches Ok(rs) ==> reqs_told(rs),
    decreases ss.len(),
{
    if ss.len() > 0 {
        parsed_told(ss.drop_last(), op, field);
        if let Ok(p) = parse_spec(ss.last()) {
            what_is_read_can_be_told(ss.last(), p);
        }
    }
}

proof fn methods_told(ops: Seq<OpV>, path: Seq<char>, xs: Seq<(Seq<char>, JsonV)>)
    requires
        all_told(ops),
    ensures
        add_methods(ops, path, xs) matches Ok(r) ==> all_told(r),
    decreases xs.len(),
{
    if xs.len() > 0 {
        methods_told(ops, path, xs.drop_last());
        if let Some(zh) = member(xs.last().1, "x-reverse-webmcp"@) {
            if let Some(name) = str_of(member(xs.last().1, "operationId"@)) {
                parsed_told(strings_of(member(zh, "requires"@)), name, "requires"@);
            }
        }
    }
}

proof fn paths_told(xs: Seq<(Seq<char>, JsonV)>)
    ensures
        add_paths(xs) matches Ok(r) ==> all_told(r),
    decreases xs.len(),
{
    if xs.len() > 0 {
        paths_told(xs.drop_last());
        if add_paths(xs.drop_last()) is Ok {
            let os = add_paths(xs.drop_last())->Ok_0;
            if xs.last().1 is Obj {
                methods_told(os, xs.last().0, xs.last().1->Obj_0);
            }
        }
    }
}

proof fn ui_told(ops: Seq<OpV>, xs: Seq<(Seq<char>, JsonV)>)
    requires
        all_told(ops),
    ensures
        add_ui(ops, xs) matches Ok(r) ==> all_told(r),
    decreases xs.len(),
{
    if xs.len() > 0 {
        ui_told(ops, xs.drop_last());
        let (name, zh) = xs.last();
        parsed_told(strings_of(member(zh, "requires"@)), name, "requires"@);
    }
}

proof fn events_told(ops: Seq<OpV>, xs: Seq<(Seq<char>, JsonV)>)
    requires
        all_told(ops),
    ensures
        add_events(ops, xs) matches Ok(r) ==> all_told(r),
    decreases xs.len(),
{
    if xs.len() > 0 {
        events_told(ops, xs.drop_last());
    }
}

/// In every derived world the requirements can be told from their texts.
pub proof fn derived_requirements_can_be_told(doc: JsonV)
    ensures
        world_of(doc) matches Ok(w) ==> all_told(w.ops),
{
    if world_of(doc) is Ok {
        let paths = obj_of(member(doc, "paths"@))->0;
        paths_told(paths);
        let a = add_paths(paths)->Ok_0;
        let us = entries_or_none(member(doc, "x-reverse-webmcp-ui"@));
        ui_told(a, us);
        let b = add_ui(a, us)->Ok_0;
        events_told(b, entries_or_none(member(doc, "x-reverse-webmcp-events"@)));
    }
}

// ---------- a document that declares nothing ----------

/// No method under a path carries a block.
pub open spec fn bare(item: JsonV) -> bool {
    item matches JsonV::Obj(methods) ==> forall|i: int|
        0 <= i < methods.len() ==> member((#[trigger] methods[i]).1, "x-reverse-webmcp"@) is None
}

proof fn bare_methods(ops: Seq<OpV>, path: Seq<char>, xs: Seq<(Seq<char>, JsonV)>)
    requires
        bare(JsonV::Obj(xs)),
    ensures
        add_methods(ops, path, xs) == Ok::<Seq<OpV>, WorldErrorV>(ops),
    decreases xs.len(),
{
    if xs.len() > 0 {
        assert(member(xs[xs.len() - 1].1, "x-reverse-webmcp"@) is None);
        bare_methods(ops, path, xs.drop_last());
    }
}

proof fn bare_paths(xs: Seq<(Seq<char>, JsonV)>)
    requires
        forall|i: int| 0 <= i < xs.len() ==> bare((#[trigger] xs[i]).1),
    ensures
        add_paths(xs) == Ok::<Seq<OpV>, WorldErrorV>(Seq::empty()),
    decreases xs.len(),
{
    if xs.len() > 0 {
        bare_paths(xs.drop_last());
        assert(bare(xs[xs.len() - 1].1));
        if let JsonV::Obj(methods) = xs.last().1 {
            bare_methods(Seq::empty(), xs.last().0, methods);
        }
    }
}

/// A document without blocks derives a world without operations: it does not fail, and nothing
/// can be asked of it.
pub proof fn a_bare_document_declares_nothing(doc: JsonV, paths: Seq<(Seq<char>, JsonV)>)
    requires
        obj_of(member(doc, "paths"@)) == Some(paths),
        forall|i: int| 0 <= i < paths.len() ==> bare((#[trigger] paths[i]).1),
        member(doc, "x-reverse-webmcp-ui"@) is None,
        member(doc, "x-reverse-webmcp-events"@) is None,
    ensures
        world_of(doc) matches Ok(w) && w.ops.len() == 0,
{
    bare_paths(paths);
}

} // verus!
