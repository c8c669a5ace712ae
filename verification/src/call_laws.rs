//! What goes out over a surface and what comes back: each argument where the operation puts it,
//! each reply for what it says.

use crate::cut::replaced;
use crate::effect::{
    call_message, classified, placed, plain, reply_of, request_for, tool_args, tool_reply,
    EffectErrorV, ReplyV,
};
use crate::events::{first_wanted, AppEventV};
use crate::json::{entry, json_text, member, JsonV};
use crate::lookup_laws::the_first_entry_counts;
use crate::object::{keys_ascend, put_ok};
use crate::plan::NodeV;
use crate::text::dec;
use crate::world::{find_op, OpKind, OpV, ParamV, WorldV};
use vstd::prelude::*;

verus! {

// ---------- requests ----------

proof fn first_op(ops: Seq<OpV>, name: Seq<char>, k: int)
    requires
        0 <= k < ops.len(),
        ops[k].name == name,
        forall|j: int| 0 <= j < k ==> (#[trigger] ops[j]).name != name,
    ensures
        find_op(ops, name) == Some(ops[k]),
    decreases k,
{
    if k > 0 {
        let t = ops.drop_first();
        assert(ops[0].name != name);
        assert(t[k - 1] == ops[k]);
        assert forall|j: int| 0 <= j < k - 1 implies (#[trigger] t[j]).name != name by {
            assert(t[j] == ops[j + 1]);
        }
        first_op(t, name, k - 1);
    }
}

proof fn no_op(ops: Seq<OpV>, name: Seq<char>)
    requires
        forall|j: int| 0 <= j < ops.len() ==> (#[trigger] ops[j]).name != name,
    ensures
        find_op(ops, name) is None,
    decreases ops.len(),
{
    if ops.len() > 0 {
        let t = ops.drop_first();
        assert(ops[0].name != name);
        assert forall|j: int| 0 <= j < t.len() implies (#[trigger] t[j]).name != name by {
            assert(t[j] == ops[j + 1]);
        }
        no_op(t, name);
    }
}

/// A node is carried out by the method of its operation, under its own key, below the address
/// that was given. An operation that is unknown, or is none over HTTP, or whose method is unknown
/// is not tried.
pub proof fn a_request_is_of_its_operation(
    w: WorldV,
    base: Seq<char>,
    n: NodeV,
    args: Seq<(Seq<char>, JsonV)>,
    k: int,
)
    ensures
        (forall|j: int| 0 <= j < w.ops.len() ==> (#[trigger] w.ops[j]).name != n.op) ==> (
        request_for(w, base, n, args) matches Err(EffectErrorV::Fatal(_))),
        0 <= k < w.ops.len() && w.ops[k].name == n.op && (forall|j: int|
            0 <= j < k ==> (#[trigger] w.ops[j]).name != n.op) ==> {
            &&& w.ops[k].kind != OpKind::Http ==> (request_for(w, base, n, args) matches Err(
                EffectErrorV::Fatal(_),
            ))
            &&& request_for(w, base, n, args) matches Ok(r) ==> r.method == w.ops[k].method && r.key
                == n.key && base.is_prefix_of(r.url)
            &&& w.ops[k].kind == OpKind::Http && (w.ops[k].method == "GET"@ || w.ops[k].method
                == "POST"@ || w.ops[k].method == "PUT"@ || w.ops[k].method == "DELETE"@)
                ==> request_for(w, base, n, args) is Ok
            &&& request_for(w, base, n, args) matches Ok(r) ==> (w.ops[k].method == "POST"@
                ==> r.body is Some)
        },
{
    if forall|j: int| 0 <= j < w.ops.len() ==> (#[trigger] w.ops[j]).name != n.op {
        no_op(w.ops, n.op);
    }
    if 0 <= k < w.ops.len() && w.ops[k].name == n.op && (forall|j: int|
        0 <= j < k ==> (#[trigger] w.ops[j]).name != n.op) {
        first_op(w.ops, n.op, k);
        if let Ok(r) = request_for(w, base, n, args) {
            assert(r.url.subrange(0, base.len() as int) =~= base);
        }
    }
}

/// Every argument goes where its parameter says: into the query under its own name, into the body
/// as it is. What no parameter names goes nowhere, and what is not given is left out.
pub proof fn arguments_go_where_they_belong(
    path: Seq<char>,
    ps: Seq<ParamV>,
    args: Seq<(Seq<char>, JsonV)>,
    name: Seq<char>,
)
    ensures
        forall|s: Seq<char>| #[trigger]
            placed(path, ps, args).query.contains((name, s)) <==> (exists|i: int|
                0 <= i < ps.len() && (#[trigger] ps[i]).name == name && ps[i].location
                    is Query) && (entry(args, name) matches Some(v) && s == plain(v)),
        (exists|i: int| 0 <= i < ps.len() && (#[trigger] ps[i]).name == name && ps[i].location is Body)
            ==> entry(placed(path, ps, args).body, name) == entry(args, name),
        !(exists|i: int|
            0 <= i < ps.len() && (#[trigger] ps[i]).name == name && ps[i].location is Body)
            ==> entry(placed(path, ps, args).body, name) is None,
        keys_ascend(placed(path, ps, args).body),
    decreases ps.len(),
{
    if ps.len() > 0 {
        let d = ps.drop_last();
        let p = ps.last();
        arguments_go_where_they_belong(path, d, args, name);
        let rest = placed(path, d, args);
        let all = placed(path, ps, args);
        assert(ps[ps.len() - 1] == p);
        assert(forall|i: int| 0 <= i < d.len() ==> d[i] == ps[i]);
        let q1 = exists|i: int|
            0 <= i < d.len() && (#[trigger] d[i]).name == name && d[i].location is Query;
        let q2 = exists|i: int|
            0 <= i < ps.len() && (#[trigger] ps[i]).name == name && ps[i].location is Query;
        let b1 = exists|i: int|
            0 <= i < d.len() && (#[trigger] d[i]).name == name && d[i].location is Body;
        let b2 = exists|i: int|
            0 <= i < ps.len() && (#[trigger] ps[i]).name == name && ps[i].location is Body;
        if q1 {
            let i = choose|i: int|
                0 <= i < d.len() && (#[trigger] d[i]).name == name && d[i].location is Query;
            assert(ps[i] == d[i]);
        }
        if b1 {
            let i = choose|i: int|
                0 <= i < d.len() && (#[trigger] d[i]).name == name && d[i].location is Body;
            assert(ps[i] == d[i]);
        }
        if q2 {
            let i = choose|i: int|
                0 <= i < ps.len() && (#[trigger] ps[i]).name == name && ps[i].location is Query;
            if i < d.len() {
                assert(d[i] == ps[i]);
            }
        }
        if b2 {
            let i = choose|i: int|
                0 <= i < ps.len() && (#[trigger] ps[i]).name == name && ps[i].location is Body;
            if i < d.len() {
                assert(d[i] == ps[i]);
            }
        }
        if let Some(v) = entry(args, p.name) {
            crate::seqs::push_has(rest.query, (p.name, plain(v)));
            put_ok(rest.body, p.name, v, name);
        }
    } else {
        assert(placed(path, ps, args).body.len() == 0);
    }
}

/// A path parameter fills its own hole: where it is the last one and is given, what stands in its
/// braces is replaced by the value, a text without quotes and anything else as it is written.
pub proof fn a_path_parameter_fills_its_hole(
    path: Seq<char>,
    front: Seq<ParamV>,
    p: ParamV,
    args: Seq<(Seq<char>, JsonV)>,
    v: JsonV,
)
    requires
        p.location is Path,
        entry(args, p.name) == Some(v),
    ensures
        placed(path, front.push(p), args).path == replaced(
            placed(path, front, args).path,
            "{"@ + p.name + "}"@,
            plain(v),
        ),
        placed(path, Seq::empty(), args).path == path,
        v matches JsonV::Str(s) ==> plain(v) == s,
        !(v is Str) ==> plain(v) == json_text(v),
{
    assert(front.push(p).drop_last() =~= front);
}

/// Replacing fills the hole and leaves what is around it: a text in front in which no hole begins
/// stays, and what comes behind is replaced in turn. A text without the hole stays as it is.
pub proof fn replacing_fills_the_hole(
    a: Seq<char>,
    from: Seq<char>,
    b: Seq<char>,
    to: Seq<char>,
)
    requires
        from.len() > 0,
        !a.contains(from[0]),
    ensures
        replaced(a + from + b, from, to) == a + to + replaced(b, from, to),
        replaced(a, from, to) == a,
    decreases a.len(),
{
    let s = a + from + b;
    if a.len() == 0 {
        assert(s =~= from + b);
        assert(from.is_prefix_of(s)) by {
            assert(s.subrange(0, from.len() as int) =~= from);
        }
        assert(s.skip(from.len() as int) =~= b);
        assert(a + to + replaced(b, from, to) =~= to + replaced(b, from, to));
        assert(!from.is_prefix_of(a));
    } else {
        let t = a.drop_first();
        assert(!t.contains(from[0])) by {
            if t.contains(from[0]) {
                let i = choose|i: int| 0 <= i < t.len() && t[i] == from[0];
                assert(a[i + 1] == from[0]);
            }
        }
        replacing_fills_the_hole(t, from, b, to);
        assert(a.contains(a[0]));
        assert(s[0] == a[0]);
        assert(!from.is_prefix_of(s));
        assert(!from.is_prefix_of(a));
        assert(s.drop_first() =~= t + from + b);
        assert(seq![a[0]] + (t + to + replaced(b, from, to)) =~= a + to + replaced(b, from, to));
        assert(seq![a[0]] + t =~= a);
    }
}

/// A tool is called by the name of the operation, with the node's arguments; the key goes along
/// under its own name and touches no other argument.
pub proof fn a_tool_call_carries_the_key(
    n: NodeV,
    args: Seq<(Seq<char>, JsonV)>,
    other: Seq<char>,
    input: JsonV,
)
    requires
        keys_ascend(args),
        other != "idempotency_key"@,
    ensures
        n.key matches Some(k) ==> member(tool_args(n, args), "idempotency_key"@) == Some(
            JsonV::Str(k),
        ),
        member(tool_args(n, args), other) == member(JsonV::Obj(args), other),
        n.key is None ==> tool_args(n, args) == JsonV::Obj(args),
        member(call_message(n.op, input), "method"@) == Some(JsonV::Str("tools/call"@)),
        member(call_message(n.op, input), "params"@) matches Some(p) && member(p, "name"@) == Some(
            JsonV::Str(n.op),
        ) && member(p, "arguments"@) == Some(input),
{
    if let Some(k) = n.key {
        put_ok(args, "idempotency_key"@, JsonV::Str(k), other);
        put_ok(args, "idempotency_key"@, JsonV::Str(k), "idempotency_key"@);
    }
    reveal_strlit("id");
    assert("id"@.len() == 2);
    reveal_strlit("jsonrpc");
    assert("jsonrpc"@.len() == 7);
    reveal_strlit("method");
    assert("method"@.len() == 6);
    reveal_strlit("params");
    assert("params"@.len() == 6);
    reveal_strlit("arguments");
    assert("arguments"@.len() == 9);
    reveal_strlit("name");
    assert("name"@.len() == 4);
    assert("method"@[0] != "params"@[0]);
    let xs = call_message(n.op, input)->Obj_0;
    the_first_entry_counts(xs, "method"@, 2);
    the_first_entry_counts(xs, "params"@, 3);
    let ps = xs[3].1->Obj_0;
    the_first_entry_counts(ps, "arguments"@, 0);
    the_first_entry_counts(ps, "name"@, 1);
}

// ---------- replies ----------

/// A reply from 200 to 299 gives what its body parses to, and a body that does not parse cannot
/// be retried. Any other status is a failure: 429 and from 500 on it may pass, otherwise not. It
/// says the status, and what the body's `error` says.
pub proof fn a_reply_is_taken_for_its_status(status: u16, text: Seq<char>, v: JsonV, e: Seq<char>)
    ensures
        200 <= status < 300 ==> reply_of(status, text, Ok(v)) == Ok::<JsonV, EffectErrorV>(v),
        200 <= status < 300 ==> (reply_of(status, text, Err(e)) matches Err(EffectErrorV::Fatal(_))),
        status == 429 || status >= 500 ==> (reply_of(status, text, Ok(v)) matches Err(
            EffectErrorV::Retryable(_),
        )) && (reply_of(status, text, Err(e)) matches Err(EffectErrorV::Retryable(_))),
        !(200 <= status < 300) && status != 429 && status < 500 ==> (reply_of(
            status,
            text,
            Ok(v),
        ) matches Err(EffectErrorV::Fatal(_))) && (reply_of(status, text, Err(e)) matches Err(
            EffectErrorV::Fatal(_),
        )),
        member(v, "error"@) matches Some(JsonV::Str(m)) ==> (classified(status, Some(v), text)
            matches EffectErrorV::Retryable(t) ==> t == dec(status as nat) + " "@ + m) && (
        classified(status, Some(v), text) matches EffectErrorV::Fatal(t) ==> t == dec(
            status as nat,
        ) + " "@ + m),
        text.len() <= 200 ==> (classified(status, None, text) matches EffectErrorV::Fatal(t) ==> t
            == dec(status as nat) + " "@ + text),
{
}

/// A tool's reply gives its structured content; marked as an error it is a failure, that may pass
/// exactly where the status it carries is 429 or 500 and above. An error of the door itself does
/// not pass.
pub proof fn a_tool_reply_is_taken_for_what_it_says(
    v: JsonV,
    result: JsonV,
    sc: JsonV,
    status: u16,
)
    requires
        member(v, "error"@) is None,
        member(v, "result"@) == Some(result),
    ensures
        member(result, "isError"@) != Some(JsonV::Bool(true)) && member(
            result,
            "structuredContent"@,
        ) == Some(sc) ==> tool_reply(v) == ReplyV::Value(sc),
        member(result, "isError"@) == Some(JsonV::Bool(true)) ==> tool_reply(v) is Failed,
        member(result, "isError"@) == Some(JsonV::Bool(true)) && member(result, "_status"@) == Some(
            JsonV::Int(status as int),
        ) ==> (tool_reply(v) matches ReplyV::Failed(EffectErrorV::Retryable(_)) <==> status == 429
            || status >= 500),
        member(result, "isError"@) == Some(JsonV::Bool(true)) && member(result, "_status"@) is None
            ==> (tool_reply(v) matches ReplyV::Failed(EffectErrorV::Retryable(_))),
{
}

/// An error that the door reports is final, and is told as it is.
pub proof fn an_error_of_the_door_is_final(v: JsonV, e: JsonV)
    requires
        member(v, "error"@) == Some(e),
    ensures
        tool_reply(v) == ReplyV::Failed(EffectErrorV::Fatal(json_text(e))),
{
}

// ---------- events ----------

/// A wait is met by the first event of its kind and, where it is about one thing, of that thing;
/// events of another kind or about another thing never meet it.
pub proof fn a_wait_is_met_by_its_event(
    es: Seq<AppEventV>,
    kind: Seq<char>,
    id: Option<u64>,
    i: int,
)
    ensures
        first_wanted(es, kind, id) matches Some(e) ==> es.contains(e) && e.kind == kind && (
        id matches Some(x) ==> e.id == x),
        0 <= i < es.len() && es[i].kind == kind && (id is None || id == Some(es[i].id)) && (forall|
            j: int,
        |
            0 <= j < i ==> (#[trigger] es[j]).kind != kind || !(id is None || id == Some(
                es[j].id,
            ))) ==> first_wanted(es, kind, id) == Some(es[i]),
    decreases es.len(),
{
    if es.len() > 0 {
        let t = es.drop_first();
        a_wait_is_met_by_its_event(t, kind, id, i - 1);
        if 0 < i < es.len() {
            assert(t[i - 1] == es[i]);
            if forall|j: int|
                0 <= j < i ==> (#[trigger] es[j]).kind != kind || !(id is None || id == Some(
                    es[j].id,
                )) {
                assert forall|j: int| 0 <= j < i - 1 implies (#[trigger] t[j]).kind != kind || !(
                id is None || id == Some(t[j].id)) by {
                    assert(t[j] == es[j + 1]);
                }
                assert(es[0].kind != kind || !(id is None || id == Some(es[0].id)));
            }
        }
        if let Some(e) = first_wanted(es, kind, id) {
            if t.contains(e) {
                let k = choose|k: int| 0 <= k < t.len() && t[k] == e;
                assert(es[k + 1] == e);
            } else {
                assert(es[0] == e);
            }
        }
    }
}

} // verus!
