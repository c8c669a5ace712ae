//! What a document declares is what the world model holds: every block becomes an operation, with
//! each part from where the document says it.

use crate::cut::{pieces, upper};
use crate::json::{member, JsonV};
use crate::openapi::{
    add_events, add_methods, add_paths, add_ui, check_of, costs, event_op, fork_of, http_op,
    keep_strings, param_of, params_of, parse_all, route_params, surfaces_of, ui_op, world_of,
};
use crate::pred::PredV;
use crate::pred_parse::{parse_spec, ParseErrorV};
use crate::text_laws::what_was_added_is_taken_off;
use crate::world::{CheckV, OpKind, OpV, ParamIn, ParamV, WorldErrorV, WorldV};
use vstd::prelude::*;

verus! {

/// A list of texts.
pub open spec fn texts(ss: Seq<Seq<char>>) -> JsonV {
    JsonV::List(ss.map_values(|s: Seq<char>| JsonV::Str(s)))
}

proof fn texts_are_kept(ss: Seq<Seq<char>>)
    ensures
        keep_strings(ss.map_values(|s: Seq<char>| JsonV::Str(s))) == ss,
    decreases ss.len(),
{
    let f = |s: Seq<char>| JsonV::Str(s);
    if ss.len() > 0 {
        texts_are_kept(ss.drop_last());
        assert(ss.map_values(f).drop_last() =~= ss.drop_last().map_values(f));
        assert(ss.drop_last().push(ss.last()) =~= ss);
    } else {
        assert(keep_strings(ss.map_values(f)) =~= ss);
    }
}

/// An operation over HTTP has the name, the method and the path under which it stands, and from
/// its block what it reads and writes, what it produces, whether it leaves the system and what it
/// precedes.
pub proof fn a_block_becomes_its_operation(
    path: Seq<char>,
    method: Seq<char>,
    spec_: JsonV,
    zh: JsonV,
    name: Seq<char>,
    reads: Seq<Seq<char>>,
    writes: Seq<Seq<char>>,
    before: Seq<Seq<char>>,
    o: OpV,
)
    requires
        member(spec_, "x-reverse-webmcp"@) == Some(zh),
        member(spec_, "operationId"@) == Some(JsonV::Str(name)),
        http_op(path, method, spec_) == Ok::<Option<OpV>, WorldErrorV>(Some(o)),
    ensures
        o.name == name,
        o.kind == OpKind::Http,
        o.path == path,
        o.method == upper(method),
        member(zh, "reads"@) == Some(texts(reads)) ==> o.reads == reads,
        member(zh, "writes"@) == Some(texts(writes)) ==> o.writes == writes,
        member(zh, "before"@) == Some(texts(before)) ==> o.before == before,
        member(zh, "reads"@) is None ==> o.reads.len() == 0,
        member(zh, "writes"@) is None ==> o.writes.len() == 0,
        o.external <==> member(zh, "external"@) == Some(JsonV::Bool(true)),
        forall|e: Seq<char>|
            member(zh, "produces"@) == Some(JsonV::Str(e)) ==> #[trigger] o.produces == Some(e),
        member(zh, "produces"@) is None ==> o.produces is None,
        member(zh, "post"@) is None ==> o.post is None,
        forall|t: Seq<char>|
            member(zh, "post"@) == Some(JsonV::Str(t)) ==> (#[trigger] parse_spec(t) matches Ok(p)
                && o.post == Some(p)),
        member(zh, "defaults"@) matches Some(JsonV::Obj(xs)) ==> o.defaults == xs,
        o.ui is None && o.check is None,
{
    texts_are_kept(reads);
    texts_are_kept(writes);
    texts_are_kept(before);
}

/// A method without a block declares nothing; a block without an operation id, and one whose
/// postcondition does not parse, is refused.
pub proof fn a_bad_block_is_refused(path: Seq<char>, method: Seq<char>, spec_: JsonV, zh: JsonV)
    ensures
        member(spec_, "x-reverse-webmcp"@) is None ==> http_op(path, method, spec_) == Ok::<
            Option<OpV>,
            WorldErrorV,
        >(None),
        member(spec_, "x-reverse-webmcp"@) is Some && member(spec_, "operationId"@) is None
            ==> http_op(path, method, spec_) == Err::<Option<OpV>, WorldErrorV>(
            WorldErrorV::MissingOperationId { method, path },
        ),
        forall|t: Seq<char>|
            member(spec_, "x-reverse-webmcp"@) == Some(zh) && member(zh, "post"@) == Some(
                JsonV::Str(t),
            ) && #[trigger] parse_spec(t) is Err ==> http_op(path, method, spec_) is Err,
{
}

/// A parameter stands in the path where the document says `path`, and else in the query; the
/// properties of a JSON body are parameters too, and stand in the body.
pub proof fn parameters_stand_where_declared(p: JsonV, name: Seq<char>, spec_: JsonV, i: int)
    requires
        member(p, "name"@) == Some(JsonV::Str(name)),
    ensures
        param_of(p).name == name,
        param_of(p).location is Path <==> member(p, "in"@) == Some(JsonV::Str("path"@)),
        param_of(p).location is Query <==> member(p, "in"@) != Some(JsonV::Str("path"@)),
        member(spec_, "parameters"@) matches Some(JsonV::List(ps)) && 0 <= i < ps.len() ==> (
        member(spec_, "parameters"@)->0->List_0)[i] == p ==> params_of(spec_)[i].name == name,
        crate::openapi::body_of(spec_) matches Some(JsonV::Obj(xs)) ==> 0 <= i < xs.len() ==> {
            let ps = params_of(spec_);
            let p = ps[ps.len() - xs.len() + i];
            ps.len() >= xs.len() && p.name == xs[i].0 && p.location is Body
        },
{
}

/// How an event is confirmed is read under its own names, and only where all four are there.
pub proof fn a_check_is_read_by_name(
    xs: Seq<(Seq<char>, JsonV)>,
    op: Seq<char>,
    arg: Seq<char>,
    field: Seq<char>,
    value: JsonV,
)
    ensures
        ({
            let v = JsonV::Obj(xs);
            &&& member(v, "op"@) == Some(JsonV::Str(op)) && member(v, "arg"@) == Some(
                JsonV::Str(arg),
            ) && member(v, "field"@) == Some(JsonV::Str(field)) && member(v, "value"@) == Some(
                value,
            ) ==> check_of(Some(v)) == Some(CheckV { op, arg, field, value })
            &&& member(v, "op"@) is None || member(v, "arg"@) is None || member(v, "field"@) is None
                || member(v, "value"@) is None ==> check_of(Some(v)) is None
        }),
        check_of(None) is None,
{
}

/// A fork asks under the condition that it names, in the words that it gives.
pub proof fn a_fork_is_read_by_name(v: JsonV, when: Seq<char>, ask: Seq<char>)
    ensures
        member(v, "when"@) == Some(JsonV::Str(when)) && member(v, "ask"@) == Some(JsonV::Str(ask))
            ==> (fork_of(Some(v)) matches Some(f) && f.when == when && f.ask == ask
            && f.default is None),
        member(v, "when"@) is None ==> fork_of(Some(v)) is None,
        fork_of(None) is None,
{
}

/// Every surface costs what the document says, as far as that is a whole number.
pub proof fn surfaces_cost_what_is_declared(xs: Seq<(Seq<char>, JsonV)>, s: Seq<char>, c: u32)
    ensures
        costs(xs.push((s, JsonV::Int(c as int)))) == costs(xs).push((s, c)),
        surfaces_of(Some(JsonV::Obj(xs))) == costs(xs),
        surfaces_of(None).len() == 0,
        costs(Seq::empty()).len() == 0,
{
    let ys = xs.push((s, JsonV::Int(c as int)));
    assert(ys.drop_last() =~= xs);
}

/// An action of the screen is on its route, has its control, and its placeholders are its
/// parameters; an event waits for an id and touches nothing.
pub proof fn actions_and_events_are_as_declared(
    name: Seq<char>,
    zh: JsonV,
    route: Seq<char>,
    control: JsonV,
    o: OpV,
    e: OpV,
)
    ensures
        ui_op(name, zh) == Ok::<OpV, WorldErrorV>(o) && member(zh, "route"@) == Some(
            JsonV::Str(route),
        ) && member(zh, "control"@) == Some(control) ==> o.name == name && o.kind == OpKind::Ui
            && o.path == route && (o.ui matches Some(u) && u.route == route && u.control
            == control) && !o.external,
        event_op(name, zh) == Ok::<OpV, WorldErrorV>(e) ==> e.name == name && e.kind
            == OpKind::Event && e.params.len() == 1 && e.params[0].name == "id"@ && e.writes.len()
            == 0 && e.reads.len() == 0 && e.check == check_of(member(zh, "check"@)),
{
}

/// An operation needs what its block requires, is on the surfaces that its block gives, asks as its
/// block says, and takes the parameters of its document.
pub proof fn a_block_keeps_its_parts(
    path: Seq<char>,
    method: Seq<char>,
    spec_: JsonV,
    zh: JsonV,
    rs: Seq<Seq<char>>,
    o: OpV,
)
    requires
        member(spec_, "x-reverse-webmcp"@) == Some(zh),
        http_op(path, method, spec_) == Ok::<Option<OpV>, WorldErrorV>(Some(o)),
    ensures
        o.params == params_of(spec_),
        o.surfaces == surfaces_of(member(zh, "surfaces"@)),
        o.fork == fork_of(member(zh, "fork"@)),
        member(zh, "requires"@) == Some(texts(rs)) ==> parse_all(rs, o.name, "requires"@) == Ok::<
            Seq<PredV>,
            WorldErrorV,
        >(o.requires_),
        member(zh, "requires"@) is None ==> o.requires_.len() == 0,
{
    texts_are_kept(rs);
}

/// An action of the screen touches, needs and precedes what its block says, and takes what stands
/// in braces on its route.
pub proof fn an_action_keeps_its_parts(
    name: Seq<char>,
    zh: JsonV,
    route: Seq<char>,
    ws: Seq<Seq<char>>,
    o: OpV,
)
    requires
        ui_op(name, zh) == Ok::<OpV, WorldErrorV>(o),
    ensures
        member(zh, "route"@) == Some(JsonV::Str(route)) ==> o.params == route_params(
            pieces(route, '/'),
        ),
        member(zh, "writes"@) == Some(texts(ws)) ==> o.writes == ws,
        member(zh, "reads"@) == Some(texts(ws)) ==> o.reads == ws,
        member(zh, "before"@) == Some(texts(ws)) ==> o.before == ws,
        member(zh, "requires"@) == Some(texts(ws)) ==> parse_all(ws, name, "requires"@) == Ok::<
            Seq<PredV>,
            WorldErrorV,
        >(o.requires_),
        o.surfaces == surfaces_of(member(zh, "surfaces"@)),
        member(zh, "post"@) is None ==> o.post is None,
        member(zh, "post"@) matches Some(JsonV::Str(t)) ==> (parse_spec(t) matches Ok(p) && o.post
            == Some(p)),
{
    texts_are_kept(ws);
}

/// An event makes true what its block says.
pub proof fn an_event_makes_true_what_is_declared(name: Seq<char>, zh: JsonV, e: OpV)
    requires
        event_op(name, zh) == Ok::<OpV, WorldErrorV>(e),
    ensures
        member(zh, "post"@) is None ==> e.post is None,
        member(zh, "post"@) matches Some(JsonV::Str(t)) ==> (parse_spec(t) matches Ok(p) && e.post
            == Some(p)),
        e.requires_.len() == 0 && e.before.len() == 0 && !e.external,
{
}

/// The text is that of the predicate.
#[verifier::opaque]
pub open spec fn says(text: Seq<char>, p: PredV) -> bool {
    parse_spec(text) == Ok::<PredV, ParseErrorV>(p)
}

proof fn one_more_parsed(ss: Seq<Seq<char>>, op: Seq<char>, field: Seq<char>)
    requires
        ss.len() > 0,
        parse_all(ss, op, field) is Ok,
    ensures
        parse_all(ss.drop_last(), op, field) is Ok,
        says(ss.last(), parse_all(ss, op, field)->Ok_0.last()),
        parse_all(ss, op, field)->Ok_0 == parse_all(ss.drop_last(), op, field)->Ok_0.push(
            parse_all(ss, op, field)->Ok_0.last(),
        ),
{
    reveal(says);
    let ps = parse_all(ss.drop_last(), op, field)->Ok_0;
    let p = parse_spec(ss.last())->Ok_0;
    assert(ps.push(p).last() == p);
}

/// Requirements are read one by one, in their order; none is left out.
pub proof fn requirements_are_read_in_order(
    ss: Seq<Seq<char>>,
    op: Seq<char>,
    field: Seq<char>,
    i: int,
)
    requires
        parse_all(ss, op, field) is Ok,
    ensures
        parse_all(ss, op, field)->Ok_0.len() == ss.len(),
        0 <= i < ss.len() ==> says(ss[i], parse_all(ss, op, field)->Ok_0[i]),
    decreases ss.len(),
{
    if ss.len() > 0 {
        one_more_parsed(ss, op, field);
        requirements_are_read_in_order(ss.drop_last(), op, field, i);
        if 0 <= i < ss.len() - 1 {
            assert(ss.drop_last()[i] == ss[i]);
        }
    }
}

/// A segment in braces is a parameter of the path under its name; any other is none.
pub proof fn a_route_names_its_parameters(segs: Seq<Seq<char>>, seg: Seq<char>, name: Seq<char>)
    ensures
        route_params(Seq::empty()).len() == 0,
        route_params(segs.push("{"@ + name + "}"@)) == route_params(segs).push(
            ParamV { name, location: ParamIn::Path },
        ),
        !("{"@.is_prefix_of(seg)) ==> route_params(segs.push(seg)) == route_params(segs),
{
    let t = "{"@ + name + "}"@;
    assert(t =~= "{"@ + (name + "}"@));
    what_was_added_is_taken_off(name + "}"@, "{"@);
    what_was_added_is_taken_off(name, "}"@);
    assert(segs.push(t).drop_last() =~= segs);
    assert(segs.push(seg).drop_last() =~= segs);
}

// ---------- nothing is lost, nothing is made up ----------

/// The operation stands among these.
pub open spec fn among(os: Seq<OpV>, o: OpV) -> bool {
    exists|k: int| 0 <= k < os.len() && #[trigger] os[k] == o
}

/// These begin with those.
pub open spec fn begins(os: Seq<OpV>, ops: Seq<OpV>) -> bool {
    ops.len() <= os.len() && forall|k: int| 0 <= k < ops.len() ==> #[trigger] os[k] == ops[k]
}

proof fn still_among(os: Seq<OpV>, ops: Seq<OpV>, o: OpV)
    requires
        begins(os, ops),
        among(ops, o),
    ensures
        among(os, o),
{
    let k = choose|k: int| 0 <= k < ops.len() && #[trigger] ops[k] == o;
    assert(os[k] == o);
}

proof fn pushed(os: Seq<OpV>, ops: Seq<OpV>, o: OpV)
    requires
        begins(os, ops),
    ensures
        begins(os.push(o), ops),
        begins(os.push(o), os),
        among(os.push(o), o),
{
    assert(os.push(o)[os.len() as int] == o);
}

/// What a method under a path came to.
#[verifier::opaque]
pub open spec fn read_method(path: Seq<char>, m: (Seq<char>, JsonV)) -> Result<
    Option<OpV>,
    WorldErrorV,
> {
    http_op(path, m.0, m.1)
}

proof fn method_step(ops: Seq<OpV>, path: Seq<char>, methods: Seq<(Seq<char>, JsonV)>)
    requires
        methods.len() > 0,
    ensures
        add_methods(ops, path, methods) == match add_methods(ops, path, methods.drop_last()) {
            Err(e) => Err(e),
            Ok(os) => match read_method(path, methods.last()) {
                Err(e) => Err(e),
                Ok(None) => Ok(os),
                Ok(Some(o)) => Ok(os.push(o)),
            },
        },
{
    reveal(read_method);
}

proof fn methods_are_added(
    ops: Seq<OpV>,
    path: Seq<char>,
    methods: Seq<(Seq<char>, JsonV)>,
    j: int,
)
    ensures
        add_methods(ops, path, methods) matches Ok(os) ==> {
            &&& begins(os, ops)
            &&& 0 <= j < methods.len() ==> (read_method(path, methods[j]) matches Ok(Some(o))
                ==> among(os, o))
            &&& 0 <= j < methods.len() ==> read_method(path, methods[j]) is Ok
        },
    decreases methods.len(),
{
    if methods.len() > 0 {
        let d = methods.drop_last();
        methods_are_added(ops, path, d, j);
        method_step(ops, path, methods);
        if let Ok(before) = add_methods(ops, path, d) {
            if let Ok(os) = add_methods(ops, path, methods) {
                if let Ok(Some(o)) = read_method(path, methods.last()) {
                    pushed(before, ops, o);
                }
                if 0 <= j < d.len() {
                    assert(d[j] == methods[j]);
                    if let Ok(Some(o)) = read_method(path, methods[j]) {
                        still_among(os, before, o);
                    }
                }
            }
        }
    }
}

proof fn paths_are_added(paths: Seq<(Seq<char>, JsonV)>, i: int, j: int)
    ensures
        add_paths(paths) matches Ok(os) ==> (0 <= i < paths.len() ==> (paths[i].1 matches
            JsonV::Obj(ms) ==> (0 <= j < ms.len() ==> read_method(paths[i].0, ms[j]) is Ok && (
        read_method(paths[i].0, ms[j]) matches Ok(Some(o)) ==> among(os, o))))),
    decreases paths.len(),
{
    if paths.len() > 0 {
        let d = paths.drop_last();
        paths_are_added(d, i, j);
        if let Ok(before) = add_paths(d) {
            if let Ok(os) = add_paths(paths) {
                if let JsonV::Obj(ms) = paths.last().1 {
                    methods_are_added(before, paths.last().0, ms, j);
                }
                if 0 <= i < d.len() {
                    assert(d[i] == paths[i]);
                    if let JsonV::Obj(ms) = paths[i].1 {
                        if 0 <= j < ms.len() {
                            if let Ok(Some(o)) = read_method(paths[i].0, ms[j]) {
                                still_among(os, before, o);
                            }
                        }
                    }
                }
            }
        }
    }
}

/// What an action of the screen came to.
#[verifier::opaque]
pub open spec fn read_action(x: (Seq<char>, JsonV)) -> Result<OpV, WorldErrorV> {
    ui_op(x.0, x.1)
}

proof fn action_step(ops: Seq<OpV>, xs: Seq<(Seq<char>, JsonV)>)
    requires
        xs.len() > 0,
    ensures
        add_ui(ops, xs) == match add_ui(ops, xs.drop_last()) {
            Err(e) => Err(e),
            Ok(os) => match read_action(xs.last()) {
                Err(e) => Err(e),
                Ok(o) => Ok(os.push(o)),
            },
        },
{
    reveal(read_action);
}

proof fn ui_is_added(ops: Seq<OpV>, xs: Seq<(Seq<char>, JsonV)>, j: int)
    ensures
        add_ui(ops, xs) matches Ok(os) ==> {
            &&& begins(os, ops)
            &&& 0 <= j < xs.len() ==> (read_action(xs[j]) matches Ok(o) && among(os, o))
        },
    decreases xs.len(),
{
    if xs.len() > 0 {
        let d = xs.drop_last();
        ui_is_added(ops, d, j);
        action_step(ops, xs);
        if let Ok(before) = add_ui(ops, d) {
            if let Ok(o) = read_action(xs.last()) {
                pushed(before, ops, o);
                if 0 <= j < d.len() {
                    assert(d[j] == xs[j]);
                    still_among(before.push(o), before, read_action(xs[j])->Ok_0);
                }
            }
        }
    }
}

/// What an event came to.
#[verifier::opaque]
pub open spec fn read_event(x: (Seq<char>, JsonV)) -> Result<OpV, WorldErrorV> {
    event_op(x.0, x.1)
}

proof fn event_step(ops: Seq<OpV>, xs: Seq<(Seq<char>, JsonV)>)
    requires
        xs.len() > 0,
    ensures
        add_events(ops, xs) == match add_events(ops, xs.drop_last()) {
            Err(e) => Err(e),
            Ok(os) => match read_event(xs.last()) {
                Err(e) => Err(e),
                Ok(o) => Ok(os.push(o)),
            },
        },
{
    reveal(read_event);
}

proof fn events_are_added(ops: Seq<OpV>, xs: Seq<(Seq<char>, JsonV)>, j: int)
    ensures
        add_events(ops, xs) matches Ok(os) ==> {
            &&& begins(os, ops)
            &&& 0 <= j < xs.len() ==> (read_event(xs[j]) matches Ok(o) && among(os, o))
        },
    decreases xs.len(),
{
    if xs.len() > 0 {
        let d = xs.drop_last();
        events_are_added(ops, d, j);
        event_step(ops, xs);
        if let Ok(before) = add_events(ops, d) {
            if let Ok(o) = read_event(xs.last()) {
                pushed(before, ops, o);
                if 0 <= j < d.len() {
                    assert(d[j] == xs[j]);
                    still_among(before.push(o), before, read_event(xs[j])->Ok_0);
                }
            }
        }
    }
}

/// Every block of a document that gives a world is an operation of that world: of every method
/// under every path, of every action of the screen and of every event.
pub proof fn every_block_is_an_operation(
    doc: JsonV,
    w: WorldV,
    paths: Seq<(Seq<char>, JsonV)>,
    i: int,
    j: int,
)
    requires
        world_of(doc) == Ok::<WorldV, WorldErrorV>(w),
        member(doc, "paths"@) == Some(JsonV::Obj(paths)),
    ensures
        0 <= i < paths.len() ==> (paths[i].1 matches JsonV::Obj(ms) ==> (0 <= j < ms.len()
            ==> read_method(paths[i].0, ms[j]) is Ok && (read_method(paths[i].0, ms[j]) matches Ok(
            Some(o),
        ) ==> among(w.ops, o)))),
        member(doc, "x-reverse-webmcp-ui"@) matches Some(JsonV::Obj(us)) ==> (0 <= j < us.len()
            ==> (read_action(us[j]) matches Ok(o) && among(w.ops, o))),
        member(doc, "x-reverse-webmcp-events"@) matches Some(JsonV::Obj(es)) ==> (0 <= j < es.len()
            ==> (read_event(es[j]) matches Ok(o) && among(w.ops, o))),
        member(doc, "x-reverse-webmcp-entities"@) matches Some(JsonV::Obj(ns)) ==> w.entities.len()
            == ns.len() && (0 <= j < ns.len() ==> w.entities[j].name == ns[j].0),
{
    let us = crate::openapi::entries_or_none(member(doc, "x-reverse-webmcp-ui"@));
    let es = crate::openapi::entries_or_none(member(doc, "x-reverse-webmcp-events"@));
    let a = add_paths(paths)->Ok_0;
    let b = add_ui(a, us)->Ok_0;
    paths_are_added(paths, i, j);
    ui_is_added(a, us, j);
    events_are_added(b, es, j);
    assert(begins(b, a) && begins(w.ops, b));
    if 0 <= i < paths.len() {
        if let JsonV::Obj(ms) = paths[i].1 {
            if 0 <= j < ms.len() {
                if let Ok(Some(o)) = read_method(paths[i].0, ms[j]) {
                    still_among(b, a, o);
                    still_among(w.ops, b, o);
                }
            }
        }
    }
    if 0 <= j < us.len() {
        still_among(w.ops, b, read_action(us[j])->Ok_0);
    }
}

/// What a block came to is what it declares.
pub proof fn blocks_are_read_as_they_stand(path: Seq<char>, x: (Seq<char>, JsonV))
    ensures
        read_method(path, x) == http_op(path, x.0, x.1),
        read_action(x) == ui_op(x.0, x.1),
        read_event(x) == event_op(x.0, x.1),
{
    reveal(read_method);
    reveal(read_action);
    reveal(read_event);
}

/// A document without paths is refused, whatever else it holds.
pub proof fn without_paths_there_is_no_world(doc: JsonV)
    requires
        !(member(doc, "paths"@) matches Some(JsonV::Obj(_))),
    ensures
        world_of(doc) == Err::<WorldV, WorldErrorV>(WorldErrorV::NoPaths),
{
}

} // verus!
