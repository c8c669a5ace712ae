//! The blocks that a plain OpenAPI document still needs, one per operation, for somebody to fill
//! in.

use crate::cut::{eq_ignore_ascii_case, same_ascii_case, upper, uppercase};
use crate::json::{
    as_list, as_obj, as_str, get_in, list_of, list_push, list_view, member, obj_of, obj_view,
    str_of, then_member, Json, JsonV,
};
use crate::object::{no_entries, one_entry, one_item, push_entry, put, put_entry, text_json};
use crate::text::{owned, same, views};
use vstd::prelude::*;

verus! {

/// The names among parameters.
pub open spec fn names_among(xs: Seq<JsonV>) -> Seq<Seq<char>>
    decreases xs.len(),
{
    if xs.len() == 0 {
        Seq::empty()
    } else {
        match str_of(member(xs.last(), "name"@)) {
            Some(n) => names_among(xs.drop_last()).push(n),
            None => names_among(xs.drop_last()),
        }
    }
}

/// The schema of what is posted.
pub open spec fn body_properties(op: JsonV) -> Option<JsonV> {
    then_member(
        then_member(
            then_member(
                then_member(member(op, "requestBody"@), "content"@),
                "application/json"@,
            ),
            "schema"@,
        ),
        "properties"@,
    )
}

pub open spec fn keys_of(xs: Seq<(Seq<char>, JsonV)>) -> Seq<Seq<char>> {
    xs.map_values(|x: (Seq<char>, JsonV)| x.0)
}

/// What an operation can be given: its parameters, then what is posted.
pub open spec fn parameters(op: JsonV) -> Seq<Seq<char>> {
    let listed = match list_of(member(op, "parameters"@)) {
        Some(xs) => names_among(xs),
        None => Seq::empty(),
    };
    listed + (match obj_of(body_properties(op)) {
        Some(xs) => keys_of(xs),
        None => Seq::empty(),
    })
}

pub open spec fn texts(xs: Seq<Seq<char>>) -> JsonV {
    JsonV::List(xs.map_values(|x: Seq<char>| JsonV::Str(x)))
}

/// The word for what a reading operation touches.
pub open spec fn reads_of(reading: bool) -> JsonV {
    if reading {
        texts(seq!["entity:*"@])
    } else {
        texts(Seq::empty())
    }
}

/// The word for what any other operation touches.
pub open spec fn writes_of(reading: bool) -> JsonV {
    if reading {
        texts(Seq::empty())
    } else {
        texts(seq!["entity:new"@])
    }
}

/// What the postcondition is meant to be.
pub const POST_HINT: &'static str = "entity(arg=$param).field=value   # what is true afterwards; drop the whole block for a read";

/// The block of an operation, to be filled in. A GET reads and a POST writes, more often than
/// not: a starting point, not a guess to trust.
pub open spec fn block(method: Seq<char>, op: JsonV) -> JsonV {
    let reading = same_ascii_case(method, "get"@);
    JsonV::Obj(
        seq![
            ("_parameters_you_can_use"@, texts(parameters(op))),
            ("before"@, texts(Seq::empty())),
            ("external"@, JsonV::Bool(false)),
            ("post"@, JsonV::Str(POST_HINT@)),
            ("produces"@, JsonV::Null),
            ("reads"@, reads_of(reading)),
            ("requires"@, texts(Seq::empty())),
            ("surfaces"@, JsonV::Obj(seq![("api"@, JsonV::Int(1))])),
            ("writes"@, writes_of(reading)),
        ],
    )
}

/// What an operation is called: by its id, or by its method and path.
pub open spec fn title(path: Seq<char>, method: Seq<char>, op: JsonV) -> Seq<char> {
    match str_of(member(op, "operationId"@)) {
        Some(n) => if n.len() > 0 {
            n
        } else {
            upper(method) + " "@ + path
        },
        None => upper(method) + " "@ + path,
    }
}

/// How many operations have their block, and the blocks of those that do not.
pub struct Blocks {
    pub already: nat,
    pub todo: Seq<(Seq<char>, JsonV)>,
}

/// One more operation.
pub open spec fn with_op(b: Blocks, path: Seq<char>, method: Seq<char>, op: JsonV) -> Blocks {
    if member(op, "x-reverse-webmcp"@) is Some {
        Blocks { already: b.already + 1, ..b }
    } else {
        Blocks { todo: put(b.todo, title(path, method, op), block(method, op)), ..b }
    }
}

/// The operations of a path.
pub open spec fn with_methods(b: Blocks, path: Seq<char>, ms: Seq<(Seq<char>, JsonV)>) -> Blocks
    decreases ms.len(),
{
    if ms.len() == 0 {
        b
    } else {
        with_op(with_methods(b, path, ms.drop_last()), path, ms.last().0, ms.last().1)
    }
}

/// The operations of paths.
pub open spec fn with_paths(ps: Seq<(Seq<char>, JsonV)>) -> Blocks
    decreases ps.len(),
{
    if ps.len() == 0 {
        Blocks { already: 0, todo: Seq::empty() }
    } else {
        let rest = with_paths(ps.drop_last());
        match obj_of(Some(ps.last().1)) {
            Some(ms) => with_methods(rest, ps.last().0, ms),
            None => rest,
        }
    }
}

/// The blocks of a document, where it has paths at all.
pub open spec fn blocks_of(doc: JsonV) -> Option<Blocks> {
    match obj_of(member(doc, "paths"@)) {
        Some(ps) => Some(with_paths(ps)),
        None => None,
    }
}

fn push_name(out: &mut Vec<String>, n: &str)
    ensures
        views(final(out)@) == views(old(out)@).push(n@),
{
    let ghost o = views(out@);
    out.push(owned(n));
    assert(views(out@) =~= o.push(n@));
}

fn read_parameters(op: &Json) -> (r: Vec<String>)
    ensures
        views(r@) == parameters(op@),
{
    let mut out: Vec<String> = Vec::new();
    assert(views(out@) =~= Seq::<Seq<char>>::empty());
    match as_list(op.get("parameters")) {
        Some(xs) => {
            let ghost vs = list_view(xs@);
            assert(vs.len() == xs@.len());
            let mut i: usize = 0;
            assert(views(out@) =~= names_among(vs.take(0)));
            while i < xs.len()
                invariant
                    i <= xs@.len() == vs.len(),
                    vs == list_view(xs@),
                    views(out@) == names_among(vs.take(i as int)),
                decreases xs@.len() - i,
            {
                proof {
                    assert(vs.take(i + 1).drop_last() =~= vs.take(i as int));
                    assert(vs.take(i + 1).last() == xs@[i as int]@);
                }
                match as_str(xs[i].get("name")) {
                    Some(n) => push_name(&mut out, n),
                    None => {},
                }
                i += 1;
            }
            assert(vs.take(i as int) =~= vs);
        },
        None => {},
    }
    let ghost listed = views(out@);
    let schema = get_in(
        get_in(get_in(get_in(op.get("requestBody"), "content"), "application/json"), "schema"),
        "properties",
    );
    match as_obj(schema) {
        Some(xs) => {
            let ghost all = keys_of(obj_view(xs@));
            let mut i: usize = 0;
            assert(views(out@) =~= listed + all.take(0));
            assert(obj_view(xs@).len() == xs@.len());
            while i < xs.len()
                invariant
                    i <= xs@.len() == all.len(),
                    all == keys_of(obj_view(xs@)),
                    views(out@) == listed + all.take(i as int),
                decreases xs@.len() - i,
            {
                assert(obj_view(xs@)[i as int].0 == xs@[i as int].0@);
                push_name(&mut out, xs[i].0.as_str());
                i += 1;
                assert(views(out@) =~= listed + all.take(i as int));
            }
            assert(all.take(i as int) =~= all);
        },
        None => {
            assert(listed + Seq::<Seq<char>>::empty() =~= listed);
        },
    }
    out
}

fn texts_json(xs: &Vec<String>) -> (r: Json)
    ensures
        r@ == texts(views(xs@)),
{
    let ghost all = texts(views(xs@))->List_0;
    let mut out: Vec<Json> = Vec::new();
    let mut i: usize = 0;
    assert(list_view(out@) =~= all.take(0));
    while i < xs.len()
        invariant
            i <= xs@.len() == all.len(),
            all == texts(views(xs@))->List_0,
            list_view(out@) == all.take(i as int),
        decreases xs@.len() - i,
    {
        let x = Json::Str(xs[i].clone());
        proof {
            list_push(out@, x);
            assert(views(xs@)[i as int] == xs@[i as int]@);
            assert(all[i as int] == JsonV::Str(xs@[i as int]@));
        }
        out.push(x);
        i += 1;
        assert(list_view(out@) =~= all.take(i as int));
    }
    assert(all.take(i as int) =~= all);
    Json::List(out)
}

fn no_texts() -> (r: Json)
    ensures
        r@ == texts(Seq::empty()),
{
    let none: Vec<Json> = Vec::new();
    assert(list_view(none@) =~= texts(Seq::empty())->List_0);
    Json::List(none)
}

fn one_text(t: &str) -> (r: Json)
    ensures
        r@ == texts(seq![t@]),
{
    let r = one_item(text_json(t));
    assert(r@->List_0 =~= texts(seq![t@])->List_0);
    r
}

fn make_block(method: &str, op: &Json) -> (r: Json)
    ensures
        r@ == block(method@, op@),
{
    let reading = eq_ignore_ascii_case(method, "get");
    let params = read_parameters(op);
    let mut o = no_entries();
    push_entry(&mut o, "_parameters_you_can_use", texts_json(&params));
    push_entry(&mut o, "before", no_texts());
    push_entry(&mut o, "external", Json::Bool(false));
    push_entry(&mut o, "post", text_json(POST_HINT));
    push_entry(&mut o, "produces", Json::Null);
    push_entry(
        &mut o,
        "reads",
        if reading {
            one_text("entity:*")
        } else {
            no_texts()
        },
    );
    push_entry(&mut o, "requires", no_texts());
    push_entry(&mut o, "surfaces", one_entry("api", Json::Int(1)));
    push_entry(
        &mut o,
        "writes",
        if reading {
            no_texts()
        } else {
            one_text("entity:new")
        },
    );
    assert(obj_view(o@) =~= block(method@, op@)->Obj_0);
    Json::Obj(o)
}

fn make_title(path: &str, method: &str, op: &Json) -> (r: String)
    ensures
        r@ == title(path@, method@, op@),
{
    match as_str(op.get("operationId")) {
        Some(n) => {
            proof {
                reveal_strlit("");
                if n@.len() == 0 {
                    assert(n@ =~= ""@);
                }
            }
            if !same(n, "") {
                return owned(n);
            }
        },
        None => {},
    }
    let mut t = uppercase(method);
    t.push_str(" ");
    t.push_str(path);
    t
}

/// What `init_blocks` finds: how many operations have their block, and the blocks of the rest.
#[derive(Debug)]
pub struct Skeleton {
    pub already: u128,
    pub todo: Vec<(String, Json)>,
}

/// Read a plain OpenAPI document: the block that each operation still needs. None where it has no
/// paths.
pub fn init_blocks(doc: &Json) -> (r: Option<Skeleton>)
    ensures
        match (r, blocks_of(doc@)) {
            (Some(s), Some(b)) => s.already == b.already && obj_view(s.todo@) == b.todo,
            (None, None) => true,
            _ => false,
        },
{
    let paths = match as_obj(doc.get("paths")) {
        Some(ps) => ps,
        None => {
            return None;
        },
    };
    let ghost ps = obj_view(paths@);
    assert(ps.len() == paths@.len());
    let mut already: u128 = 0;
    let mut todo = no_entries();
    let mut i: usize = 0;
    while i < paths.len()
        invariant
            i <= paths@.len() == ps.len(),
            ps == obj_view(paths@),
            already == with_paths(ps.take(i as int)).already,
            already <= i * 0xFFFF_FFFF_FFFF_FFFF,
            obj_view(todo@) == with_paths(ps.take(i as int)).todo,
        decreases paths@.len() - i,
    {
        let ghost rest = with_paths(ps.take(i as int));
        proof {
            assert(ps.take(i + 1).drop_last() =~= ps.take(i as int));
            assert(ps.take(i + 1).last() == (paths@[i as int].0@, paths@[i as int].1@));
        }
        match as_obj(Some(&paths[i].1)) {
            None => {},
            Some(methods) => {
                let ghost ms = obj_view(methods@);
                let ghost path = paths@[i as int].0@;
                assert(ms.len() == methods@.len());
                assert(with_paths(ps.take(i + 1)) == with_methods(rest, path, ms));
                let mut j: usize = 0;
                while j < methods.len()
                    invariant
                        i < paths@.len(),
                        j <= methods@.len() == ms.len(),
                        ms == obj_view(methods@),
                        path == paths@[i as int].0@,
                        already == with_methods(rest, path, ms.take(j as int)).already,
                        already <= i * 0xFFFF_FFFF_FFFF_FFFF + j,
                        obj_view(todo@) == with_methods(rest, path, ms.take(j as int)).todo,
                    decreases methods@.len() - j,
                {
                    proof {
                        assert(ms.take(j + 1).drop_last() =~= ms.take(j as int));
                        assert(ms.take(j + 1).last() == (methods@[j as int].0@, methods@[j as int].1@));
                    }
                    let op = &methods[j].1;
                    if op.get("x-reverse-webmcp").is_some() {
                        already = already + 1;
                    } else {
                        let t = make_title(paths[i].0.as_str(), methods[j].0.as_str(), op);
                        let b = make_block(methods[j].0.as_str(), op);
                        put_entry(&mut todo, t.as_str(), b);
                    }
                    j += 1;
                }
                assert(ms.take(j as int) =~= ms);
            },
        }
        i += 1;
    }
    assert(ps.take(i as int) =~= ps);
    Some(Skeleton { already, todo })
}

/// The root of the document, to be filled in.
pub fn entities_hint() -> (r: Json)
    ensures
        r@ == JsonV::Obj(
            seq![
                (
                    "x-reverse-webmcp-entities"@,
                    JsonV::Obj(
                        seq![
                            (
                                "entity"@,
                                JsonV::Obj(
                                    seq![
                                        ("fields"@, texts(seq!["a_field"@])),
                                        ("id"@, JsonV::Str("id"@)),
                                    ],
                                ),
                            ),
                        ],
                    ),
                ),
            ],
        ),
{
    one_entry(
        "x-reverse-webmcp-entities",
        one_entry(
            "entity",
            crate::object::two_entries("fields", one_text("a_field"), "id", text_json("id")),
        ),
    )
}

} // verus!
