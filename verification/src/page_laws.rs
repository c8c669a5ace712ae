//! What is done on a page, and what is shown of a model, a run and a benchmark.

use crate::cut::{occurs, replaced};
use crate::effect::{plain, EffectErrorV};
use crate::json::{entry, json_text, member, JsonV};
use crate::ledger::EffectSummaryV;
use crate::lookup_laws::the_first_entry_counts;
use crate::names::{group, long_run, prefix_of, run_prefixes, spelled_out};
use crate::object::{keys_ascend, put_ok};
use crate::page::{
    browser, clicked, filled_in, first_there, looked, page_for, usual, NextV, OnPageV, TRIES,
};
use crate::plan::NodeV;
use crate::pred::PredV;
use crate::pred_print::pred_text;
use crate::recorder::writes;
use crate::report::CellV;
use crate::show::{
    effect_line, effect_lines, finding_json, findings_json, op_json, order_json, review_json,
    unplannable_of,
};
use crate::skeleton::{block, title, with_op, Blocks};
use crate::tables::{cell_at, double_class, escaped, ok_class, row_html, rows_html, task_errors};
use crate::text_laws::a_text_occurs_where_it_stands;
use crate::validate::FindingV;
use crate::world::{
    entity_line, entity_lines, find_op, op_line, op_lines, summary_text, EntityV, OpV, UiSpecV,
    WorldV,
};
use vstd::prelude::*;

verus! {

// ---------- pages ----------

/// A template is filled in argument by argument.
pub proof fn a_template_is_filled_in(t: Seq<char>, args: Seq<(Seq<char>, JsonV)>, k: Seq<char>, v: JsonV)
    ensures
        filled_in(t, Seq::empty()) == t,
        filled_in(t, args.push((k, v))) == replaced(filled_in(t, args), "{"@ + k + "}"@, plain(v)),
{
    assert(args.push((k, v)).drop_last() =~= args);
}

/// A node goes to the route of its screen, under the address that was given, and watches the
/// invoice that it is about; a node without a screen goes nowhere.
pub proof fn a_node_goes_to_its_page(
    base: Seq<char>,
    n: NodeV,
    args: Seq<(Seq<char>, JsonV)>,
    ui: UiSpecV,
    id: JsonV,
)
    ensures
        n.ui is None ==> (page_for(base, n, args) matches Err(EffectErrorV::Fatal(_))),
        n.ui == Some(ui) ==> {
            &&& page_for(base, n, args) matches Ok(p) && p.url == base + filled_in(ui.route, args)
            &&& member(ui.control, "role"@) matches Some(JsonV::Str(r)) ==> page_for(
                base,
                n,
                args,
            )->Ok_0.role == r
            &&& member(ui.control, "role"@) is None ==> page_for(base, n, args)->Ok_0.role
                == "button"@
            &&& member(ui.control, "name"@) matches Some(JsonV::Str(r)) ==> page_for(
                base,
                n,
                args,
            )->Ok_0.name == filled_in(r, args)
            &&& entry(args, "id"@) == Some(id) ==> page_for(base, n, args)->Ok_0.watch == Some(
                base + "/api/invoices/"@ + json_text(id),
            )
            &&& entry(args, "id"@) is None ==> page_for(base, n, args)->Ok_0.watch is None
        },
{
}

/// A click has worked where the page says so, and only there; it is tried again while there are
/// tries left, and then it is an error.
pub proof fn a_click_is_believed_when_it_worked(
    p: OnPageV,
    got: Result<JsonV, Seq<char>>,
    seen: JsonV,
    tries: u32,
)
    ensures
        clicked(p, got, tries) is Go <==> (got matches Ok(v) && v == JsonV::Bool(true)),
        clicked(p, got, tries) is Again ==> tries < TRIES,
        tries >= TRIES && !(clicked(p, got, tries) is Go) ==> clicked(p, got, tries) is Stop,
        looked(p, seen, tries) is Go <==> member(seen, "approved"@) == Some(JsonV::Bool(true)),
        looked(p, seen, tries) is Again ==> tries < TRIES,
        tries >= TRIES && !(looked(p, seen, tries) is Go) ==> looked(p, seen, tries) is Stop,
        got matches Err(e) ==> (clicked(p, got, tries) matches NextV::Stop(x) ==> x
            == EffectErrorV::Fatal(e)),
{
}

proof fn first_there_is_first(ps: Seq<Seq<char>>, exists: Seq<bool>, k: int)
    requires
        0 <= k < ps.len(),
        k < exists.len(),
        exists[k],
        forall|j: int| 0 <= j < k ==> !#[trigger] exists[j],
    ensures
        first_there(ps, exists) == Some(ps[k]),
    decreases k,
{
    if k > 0 {
        assert(!exists[0]);
        let t = exists.drop_first();
        assert(t[k - 1] == exists[k]);
        assert forall|j: int| 0 <= j < k - 1 implies !#[trigger] t[j] by {
            assert(t[j] == exists[j + 1]);
        }
        first_there_is_first(ps.drop_first(), t, k - 1);
    }
}

/// No browser where none is wanted, the one that was named where one was, else the first that is
/// there.
pub proof fn a_browser_is_found(named: Seq<char>, exists: Seq<bool>, skip: Seq<char>, k: int)
    ensures
        browser(None, Some(named), exists) == Some(named),
        browser(Some("0"@), Some(named), exists) == Some(named),
        skip != "0"@ && skip.len() > 0 ==> browser(Some(skip), Some(named), exists) is None
            && browser(Some(skip), None, exists) is None,
        0 <= k < usual().len() && k < exists.len() && exists[k] && (forall|j: int|
            0 <= j < k ==> !#[trigger] exists[j]) ==> browser(None, None, exists) == Some(
            usual()[k],
        ),
{
    if 0 <= k < usual().len() && k < exists.len() && exists[k] && (forall|j: int|
        0 <= j < k ==> !#[trigger] exists[j]) {
        first_there_is_first(usual(), exists, k);
    }
}

// ---------- models ----------

/// Nothing can be planned through the operations that make nothing true.
pub proof fn what_makes_nothing_true_is_told(os: Seq<OpV>)
    ensures
        unplannable_of(os) == os.filter(|o: OpV| o.post is None).map_values(|o: OpV| o.name),
    decreases os.len(),
{
    reveal(Seq::filter);
    let p = |o: OpV| o.post is None;
    let f = |o: OpV| o.name;
    if os.len() > 0 {
        let d = os.drop_last();
        what_makes_nothing_true_is_told(d);
        if os.last().post is None {
            assert(os.filter(p) == d.filter(p).push(os.last()));
            assert(d.filter(p).push(os.last()).map_values(f) =~= d.filter(p).map_values(f).push(
                os.last().name,
            ));
        }
    } else {
        assert(os.filter(p).map_values(f) =~= Seq::<Seq<char>>::empty());
    }
}

/// The findings of one sort are shown, in their order.
pub proof fn findings_are_sorted_out(fs: Seq<FindingV>, fatal: bool)
    ensures
        findings_json(fs, fatal) == fs.filter(|f: FindingV| f.fatal == fatal).map_values(
            |f: FindingV| finding_json(f),
        ),
    decreases fs.len(),
{
    reveal(Seq::filter);
    let p = |f: FindingV| f.fatal == fatal;
    let g = |f: FindingV| finding_json(f);
    if fs.len() > 0 {
        let d = fs.drop_last();
        findings_are_sorted_out(d, fatal);
        if fs.last().fatal == fatal {
            assert(fs.filter(p) == d.filter(p).push(fs.last()));
            assert(d.filter(p).push(fs.last()).map_values(g) =~= d.filter(p).map_values(g).push(
                finding_json(fs.last()),
            ));
        }
    } else {
        assert(fs.filter(p).map_values(g) =~= Seq::<JsonV>::empty());
    }
}

proof fn fatal_shows(fs: Seq<FindingV>, i: int)
    requires
        0 <= i < fs.len(),
        fs[i].fatal,
    ensures
        findings_json(fs, true).len() > 0,
    decreases fs.len(),
{
    if i < fs.len() - 1 {
        fatal_shows(fs.drop_last(), i);
    }
}

proof fn harmless_shows_nothing(fs: Seq<FindingV>)
    requires
        forall|i: int| 0 <= i < fs.len() ==> !(#[trigger] fs[i]).fatal,
    ensures
        findings_json(fs, true).len() == 0,
    decreases fs.len(),
{
    if fs.len() > 0 {
        let d = fs.drop_last();
        assert forall|i: int| 0 <= i < d.len() implies !(#[trigger] d[i]).fatal by {
            assert(d[i] == fs[i]);
        }
        assert(!fs[fs.len() - 1].fatal);
        harmless_shows_nothing(d);
    }
}

/// A review passes exactly where nothing is fatal.
pub proof fn a_review_passes_without_faults(w: WorldV, fs: Seq<FindingV>, i: int)
    ensures
        0 <= i < fs.len() && fs[i].fatal ==> member(review_json(w, fs), "ok"@) == Some(
            JsonV::Bool(false),
        ),
        (forall|k: int| 0 <= k < fs.len() ==> !(#[trigger] fs[k]).fatal) ==> member(
            review_json(w, fs),
            "ok"@,
        ) == Some(JsonV::Bool(true)),
{
    reveal_strlit("entities");
    reveal_strlit("errors");
    reveal_strlit("ok");
    assert("entities"@.len() == 8 && "errors"@.len() == 6 && "ok"@.len() == 2);
    let xs = review_json(w, fs)->Obj_0;
    assert(review_json(w, fs) == JsonV::Obj(xs));
    the_first_entry_counts(xs, "ok"@, 2);
    if 0 <= i < fs.len() && fs[i].fatal {
        fatal_shows(fs, i);
    }
    if forall|k: int| 0 <= k < fs.len() ==> !(#[trigger] fs[k]).fatal {
        harmless_shows_nothing(fs);
    }
}

/// The other order is well exactly where nothing changed.
pub proof fn an_order_is_well_without_differences(
    wants: nat,
    steps: nat,
    differences: Seq<Seq<char>>,
)
    ensures
        member(order_json(wants, steps, differences), "ok"@) == Some(
            JsonV::Bool(differences.len() == 0),
        ),
        member(order_json(wants, steps, differences), "differences"@) == Some(
            JsonV::List(differences.map_values(|x: Seq<char>| JsonV::Str(x))),
        ),
{
    reveal_strlit("differences");
    reveal_strlit("ok");
    assert("differences"@.len() == 11 && "ok"@.len() == 2);
    let xs = order_json(wants, steps, differences)->Obj_0;
    the_first_entry_counts(xs, "differences"@, 0);
    the_first_entry_counts(xs, "ok"@, 1);
}

/// An operation is shown with what it makes true and what it touches.
pub proof fn an_operation_is_shown(o: OpV)
    ensures
        member(op_json(o), "op"@) == Some(JsonV::Str(o.name)),
        o.post matches Some(p) ==> member(op_json(o), "makes_true"@) == Some(
            JsonV::Str(pred_text(p)),
        ),
        o.post is None ==> member(op_json(o), "makes_true"@) == Some(JsonV::Null),
        member(op_json(o), "reads"@) == Some(
            JsonV::List(o.reads.map_values(|x: Seq<char>| JsonV::Str(x))),
        ),
        member(op_json(o), "writes"@) == Some(
            JsonV::List(o.writes.map_values(|x: Seq<char>| JsonV::Str(x))),
        ),
{
    reveal_strlit("kind");
    reveal_strlit("makes_true");
    reveal_strlit("op");
    reveal_strlit("reads");
    reveal_strlit("requires");
    reveal_strlit("surfaces");
    reveal_strlit("writes");
    assert("kind"@.len() == 4 && "makes_true"@.len() == 10 && "op"@.len() == 2 && "reads"@.len() == 5
        && "requires"@.len() == 8 && "surfaces"@.len() == 8 && "writes"@.len() == 6);
    let xs = op_json(o)->Obj_0;
    the_first_entry_counts(xs, "makes_true"@, 1);
    the_first_entry_counts(xs, "op"@, 2);
    the_first_entry_counts(xs, "reads"@, 3);
    the_first_entry_counts(xs, "writes"@, 6);
}

proof fn entity_line_stands(es: Seq<EntityV>, i: int) -> (r: (Seq<char>, Seq<char>))
    requires
        0 <= i < es.len(),
    ensures
        entity_lines(es) == r.0 + entity_line(es[i]) + r.1,
    decreases es.len(),
{
    let d = es.drop_last();
    if i < d.len() {
        let (a, b) = entity_line_stands(d, i);
        let z = b + entity_line(es.last());
        assert(entity_lines(es) =~= a + entity_line(es[i]) + z);
        (a, z)
    } else {
        let e = Seq::<char>::empty();
        assert(entity_lines(es) =~= entity_lines(d) + entity_line(es[i]) + e);
        (entity_lines(d), e)
    }
}

proof fn op_line_stands(os: Seq<OpV>, i: int) -> (r: (Seq<char>, Seq<char>))
    requires
        0 <= i < os.len(),
    ensures
        op_lines(os) == r.0 + op_line(os[i]) + r.1,
    decreases os.len(),
{
    let d = os.drop_last();
    if i < d.len() {
        let (a, b) = op_line_stands(d, i);
        let z = b + op_line(os.last());
        assert(op_lines(os) =~= a + op_line(os[i]) + z);
        (a, z)
    } else {
        let e = Seq::<char>::empty();
        assert(op_lines(os) =~= op_lines(d) + op_line(os[i]) + e);
        (op_lines(d), e)
    }
}

proof fn stands_inside(
    x: Seq<char>,
    a: Seq<char>,
    l: Seq<char>,
    b: Seq<char>,
    y: Seq<char>,
)
    ensures
        occurs(x + (a + l + b) + y, l),
        occurs(x + (a + l + b), l),
{
    assert(x + (a + l + b) + y =~= (x + a) + l + (b + y));
    a_text_occurs_where_it_stands(x + a, l, b + y);
    assert(x + (a + l + b) =~= (x + a) + l + b);
    a_text_occurs_where_it_stands(x + a, l, b);
}

/// The description of a model holds a line for every entity.
pub proof fn every_entity_is_described(w: WorldV, i: int)
    requires
        0 <= i < w.entities.len(),
    ensures
        occurs(summary_text(w), entity_line(w.entities[i])),
{
    let h = "entities:\n"@;
    let y = "can make true:\n"@ + op_lines(w.ops);
    let (a, b) = entity_line_stands(w.entities, i);
    stands_inside(h, a, entity_line(w.entities[i]), b, y);
    assert(summary_text(w) =~= h + entity_lines(w.entities) + y);
}

/// The description of a model holds a line for every operation that makes something true.
pub proof fn every_operation_is_described(w: WorldV, i: int)
    requires
        0 <= i < w.ops.len(),
    ensures
        occurs(summary_text(w), op_line(w.ops[i])),
{
    let x = "entities:\n"@ + entity_lines(w.entities) + "can make true:\n"@;
    let (a, b) = op_line_stands(w.ops, i);
    stands_inside(x, a, op_line(w.ops[i]), b, Seq::empty());
    assert(summary_text(w) == x + op_lines(w.ops));
}

/// The line of an operation says what it makes true and what it is called.
pub proof fn an_operation_is_described(o: OpV, p: PredV)
    requires
        o.post == Some(p),
    ensures
        op_line(o) == "  "@ + pred_text(p) + "    ["@ + crate::world::via(o.kind) + ": "@ + o.name
            + "]\n"@,
{
}

/// An operation writes where the model says that it does.
pub proof fn an_operation_writes_what_is_declared(w: WorldV, op: Seq<char>)
    ensures
        find_op(w.ops, op) matches Some(o) ==> (writes(w, op) <==> o.writes.len() > 0),
        find_op(w.ops, op) is None ==> !writes(w, op),
{
}

/// An operation that is declared already is counted; any other gets a block of its own.
pub proof fn what_is_not_declared_gets_a_block(
    b: Blocks,
    path: Seq<char>,
    method: Seq<char>,
    op: JsonV,
    other: Seq<char>,
)
    requires
        keys_ascend(b.todo),
    ensures
        member(op, "x-reverse-webmcp"@) is Some ==> with_op(b, path, method, op).already
            == b.already + 1 && with_op(b, path, method, op).todo == b.todo,
        member(op, "x-reverse-webmcp"@) is None ==> {
            let r = with_op(b, path, method, op);
            &&& r.already == b.already
            &&& entry(r.todo, title(path, method, op)) == Some(block(method, op))
            &&& other != title(path, method, op) ==> entry(r.todo, other) == entry(b.todo, other)
        },
        member(op, "operationId"@) matches Some(JsonV::Str(n)) ==> n.len() > 0 ==> title(
            path,
            method,
            op,
        ) == n,
{
    put_ok(b.todo, title(path, method, op), block(method, op), other);
}

// ---------- names ----------

/// The names of a run are those with its prefix.
pub proof fn a_run_of_names_has_one_prefix(names: Seq<Seq<char>>, p: Seq<char>)
    ensures
        group(names, p) == names.filter(|n: Seq<char>| prefix_of(n) == p),
    decreases names.len(),
{
    reveal(Seq::filter);
    if names.len() > 0 {
        a_run_of_names_has_one_prefix(names.drop_last(), p);
    }
}

/// Every name is told: by itself, or by its prefix where that has twenty names at least.
pub proof fn every_name_is_told(all: Seq<Seq<char>>, names: Seq<Seq<char>>, i: int)
    requires
        0 <= i < names.len(),
    ensures
        long_run(all, prefix_of(names[i])) <==> prefix_of(names[i]).len() > 0 && all.filter(
            |n: Seq<char>| prefix_of(n) == prefix_of(names[i]),
        ).len() >= 20,
        !long_run(all, prefix_of(names[i])) ==> spelled_out(all, names).contains(names[i]),
        long_run(all, prefix_of(names[i])) ==> run_prefixes(all, names).contains(
            prefix_of(names[i]),
        ),
    decreases names.len(),
{
    a_run_of_names_has_one_prefix(all, prefix_of(names[i]));
    let d = names.drop_last();
    let s = spelled_out(all, d);
    let r = run_prefixes(all, d);
    if i < d.len() {
        every_name_is_told(all, d, i);
        if s.contains(names[i]) {
            let k = choose|k: int| 0 <= k < s.len() && s[k] == names[i];
            assert(spelled_out(all, names)[k] == names[i]);
        }
        if r.contains(prefix_of(names[i])) {
            let k = choose|k: int| 0 <= k < r.len() && r[k] == prefix_of(names[i]);
            assert(run_prefixes(all, names)[k] == prefix_of(names[i]));
        }
    } else if long_run(all, prefix_of(names[i])) {
        assert(run_prefixes(all, names)[r.len() as int] == prefix_of(names[i]));
    } else {
        assert(spelled_out(all, names)[s.len() as int] == names[i]);
    }
}

// ---------- runs ----------

proof fn effect_line_stands(es: Seq<EffectSummaryV>, i: int) -> (r: (Seq<char>, Seq<char>))
    requires
        0 <= i < es.len(),
    ensures
        effect_lines(es) == r.0 + effect_line(es[i]) + r.1,
    decreases es.len(),
{
    let d = es.drop_last();
    if i < d.len() {
        let (a, b) = effect_line_stands(d, i);
        let z = b + effect_line(es.last());
        assert(effect_lines(es) =~= a + effect_line(es[i]) + z);
        (a, z)
    } else {
        let e = Seq::<char>::empty();
        assert(effect_lines(es) =~= effect_lines(d) + effect_line(es[i]) + e);
        (effect_lines(d), e)
    }
}

/// Each effect of a run has its line.
pub proof fn every_effect_has_its_line(es: Seq<EffectSummaryV>, i: int)
    requires
        0 <= i < es.len(),
    ensures
        occurs(effect_lines(es), effect_line(es[i])),
{
    let (a, b) = effect_line_stands(es, i);
    a_text_occurs_where_it_stands(a, effect_line(es[i]), b);
}

proof fn third_of(a: Seq<char>, m: Seq<char>, z: Seq<char>)
    requires
        a.len() == 2,
        m.len() > 0,
    ensures
        (a + m + z)[2] == m[0],
{
}

/// The line of an effect says whether it failed.
pub proof fn a_failed_effect_says_so(e: EffectSummaryV)
    ensures
        e.ok ==> effect_line(e)[2] == 'o',
        !e.ok ==> effect_line(e)[2] == 'F',
{
    reveal_strlit("  ");
    reveal_strlit("ok  ");
    reveal_strlit("FAIL");
    let m = if e.ok {
        "ok  "@
    } else {
        "FAIL"@
    };
    let z = " "@ + e.op + " "@ + crate::show::id_text(e.observed) + "\n"@;
    assert("  "@.len() == 2 && m.len() == 4);
    third_of("  "@, m, z);
    assert(effect_line(e) =~= "  "@ + m + z);
}

// ---------- tables ----------

/// The first cell of a task and an arm is shown.
pub proof fn the_first_cell_counts(cs: Seq<CellV>, k: int)
    requires
        0 <= k < cs.len(),
        forall|j: int|
            0 <= j < k ==> !((#[trigger] cs[j]).task == cs[k].task && cs[j].arm == cs[k].arm),
    ensures
        cell_at(cs, cs[k].task, cs[k].arm) == Some(cs[k]),
    decreases k,
{
    if k > 0 {
        assert(!(cs[0].task == cs[k].task && cs[0].arm == cs[k].arm));
        let t = cs.drop_first();
        assert(t[k - 1] == cs[k]);
        assert forall|j: int| 0 <= j < k - 1 implies !((#[trigger] t[j]).task == t[k - 1].task
            && t[j].arm == t[k - 1].arm) by {
            assert(t[j] == cs[j + 1]);
        }
        the_first_cell_counts(t, k - 1);
    }
}

/// Every cell of a task has its row, and every error of its runs is told.
pub proof fn every_cell_has_its_row(cs: Seq<CellV>, i: int, e: Seq<char>)
    requires
        0 <= i < cs.len(),
    ensures
        occurs(rows_html(cs, cs[i].task), row_html(cs[i])),
        cs[i].errors.contains(e) ==> task_errors(cs, cs[i].task).contains(e),
{
    let (a, b) = row_stands(cs, i);
    a_text_occurs_where_it_stands(a, row_html(cs[i]), b);
    if cs[i].errors.contains(e) {
        error_is_told(cs, i, e);
    }
}

proof fn row_stands(cs: Seq<CellV>, i: int) -> (r: (Seq<char>, Seq<char>))
    requires
        0 <= i < cs.len(),
    ensures
        rows_html(cs, cs[i].task) == r.0 + row_html(cs[i]) + r.1,
    decreases cs.len(),
{
    let d = cs.drop_last();
    let t = cs[i].task;
    if i < d.len() {
        assert(d[i] == cs[i]);
        let (a, b) = row_stands(d, i);
        if cs.last().task == t {
            let z = b + row_html(cs.last());
            assert(rows_html(cs, t) =~= a + row_html(cs[i]) + z);
            (a, z)
        } else {
            (a, b)
        }
    } else {
        let e = Seq::<char>::empty();
        assert(rows_html(cs, t) =~= rows_html(d, t) + row_html(cs[i]) + e);
        (rows_html(d, t), e)
    }
}

proof fn error_is_told(cs: Seq<CellV>, i: int, e: Seq<char>)
    requires
        0 <= i < cs.len(),
        cs[i].errors.contains(e),
    ensures
        task_errors(cs, cs[i].task).contains(e),
    decreases cs.len(),
{
    let d = cs.drop_last();
    let t = cs[i].task;
    let a = task_errors(d, t);
    if i < d.len() {
        assert(d[i] == cs[i]);
        error_is_told(d, i, e);
        let k = choose|k: int| 0 <= k < a.len() && a[k] == e;
        assert(task_errors(cs, t)[k] == e);
    } else {
        let b = cs.last().errors;
        let k = choose|k: int| 0 <= k < b.len() && b[k] == e;
        assert(task_errors(cs, t)[a.len() + k] == e);
    }
}

/// A cell is marked well only where all of its runs were correct, and a double send is marked.
pub proof fn a_cell_is_marked(c: CellV)
    ensures
        ok_class(c) == "ok"@ <==> c.runs > 0 && c.correct == c.runs,
        double_class(c) == "bad"@ <==> c.double_sends_total > 0,
{
    reveal_strlit("ok");
    reveal_strlit("bad");
    reveal_strlit("");
    assert("ok"@.len() == 2 && "bad"@.len() == 3 && ""@.len() == 0);
}

proof fn one_by_one(s: Seq<char>, c: char, to: Seq<char>, d: char)
    requires
        !to.contains(d),
        d == c || !s.contains(d),
    ensures
        !replaced(s, seq![c], to).contains(d),
    decreases s.len(),
{
    let f = seq![c];
    let r = replaced(s, f, to);
    if s.len() == 0 {
        assert(!f.is_prefix_of(s));
    } else {
        let t = s.drop_first();
        if !(d == c) {
            if t.contains(d) {
                let k = choose|k: int| 0 <= k < t.len() && t[k] == d;
                assert(s[k + 1] == d);
            }
        }
        assert(s.skip(1) =~= t);
        one_by_one(t, c, to, d);
        if f.is_prefix_of(s) {
            assert(r == to + replaced(s.skip(1), f, to));
            if r.contains(d) {
                let k = choose|k: int| 0 <= k < r.len() && r[k] == d;
                if k < to.len() {
                    assert(to[k] == d);
                } else {
                    assert(replaced(t, f, to)[k - to.len()] == d);
                }
            }
        } else {
            if s[0] == c {
                assert(s.subrange(0, 1) =~= f);
            }
            assert(r == seq![s[0]] + replaced(t, f, to));
            if r.contains(d) {
                let k = choose|k: int| 0 <= k < r.len() && r[k] == d;
                if k == 0 {
                    assert(s[0] == d);
                    assert(s.contains(s[0]));
                } else {
                    assert(replaced(t, f, to)[k - 1] == d);
                }
            }
        }
    }
}

/// A text that stands on a page opens and closes no tag.
pub proof fn a_text_on_a_page_holds_no_tag(s: Seq<char>)
    ensures
        !escaped(s).contains('<'),
        !escaped(s).contains('>'),
{
    reveal_strlit("&");
    reveal_strlit("<");
    reveal_strlit(">");
    reveal_strlit("&amp;");
    reveal_strlit("&lt;");
    reveal_strlit("&gt;");
    assert("<"@ =~= seq!['<']);
    assert(">"@ =~= seq!['>']);
    assert(!"&lt;"@.contains('<')) by {
        assert forall|k: int| 0 <= k < "&lt;"@.len() implies #[trigger] "&lt;"@[k] != '<' by {}
    }
    assert(!"&gt;"@.contains('<')) by {
        assert forall|k: int| 0 <= k < "&gt;"@.len() implies #[trigger] "&gt;"@[k] != '<' by {}
    }
    assert(!"&gt;"@.contains('>')) by {
        assert forall|k: int| 0 <= k < "&gt;"@.len() implies #[trigger] "&gt;"@[k] != '>' by {}
    }
    let a = replaced(s, "&"@, "&amp;"@);
    let b = replaced(a, "<"@, "&lt;"@);
    one_by_one(a, '<', "&lt;"@, '<');
    one_by_one(b, '>', "&gt;"@, '<');
    one_by_one(b, '>', "&gt;"@, '>');
}

} // verus!
