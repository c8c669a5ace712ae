//! What a scripted lane does, and whom a selector stands for.

use crate::json::{member, JsonV};
use crate::lookup_laws::the_first_entry_counts;
use crate::pred::{PredV, ValV};
use crate::script::{
    attempt_row, call_at, report_call, script_ending, stage_after, then_of, AnswerV, ScriptCallV,
    Stage, ThenV,
};
use crate::selectors::{
    args_expanded, expanded, list_expanded, names_for, selector_of, selectors_in,
    selectors_in_args, selectors_of, want_expanded, wants_expanded,
};
use crate::tasks::ScriptSpec;
use crate::text::dec;
use vstd::prelude::*;

verus! {

// ---------- lanes ----------

/// A lane goes on with a customer only where exactly one bears the name, and with that one; where
/// there are none or several, it says how many.
pub proof fn a_lane_needs_one_customer(s: ScriptSpec, name: Seq<char>, v: JsonV, c: u64)
    ensures
        stage_after(s, name, Stage::Find, v) == Ok::<Stage, Seq<char>>(Stage::Create(c)) <==> (v
            matches JsonV::List(xs) && xs.len() == 1 && member(xs[0], "id"@) == Some(
            JsonV::Int(c as int),
        )),
        v matches JsonV::List(xs) ==> xs.len() != 1 ==> stage_after(s, name, Stage::Find, v)
            == Err::<Stage, Seq<char>>("fork:"@ + dec(xs.len()) + " customers named "@ + name),
        !(v is List) ==> stage_after(s, name, Stage::Find, v) == Err::<Stage, Seq<char>>(
            "fork:"@ + dec(0) + " customers named "@ + name,
        ),
        stage_after(s, name, Stage::Find, v) matches Ok(t) ==> t is Create,
{
}

/// A lane works on the invoice that its creation answered with, and keeps to it.
pub proof fn a_lane_keeps_to_its_invoice(
    s: ScriptSpec,
    name: Seq<char>,
    stage: Stage,
    v: JsonV,
    id: u64,
)
    requires
        match stage {
            Stage::Create(_) => member(v, "id"@) == Some(JsonV::Int(id as int)),
            Stage::Send(i) => i == id,
            Stage::Poll(i) => i == id,
            Stage::Receipt(i) => i == id,
            Stage::Report(i) => i == id,
            Stage::Finished(i) => i == id,
            Stage::Find => false,
        },
    ensures
        match stage_after(s, name, stage, v) {
            Ok(Stage::Send(i)) => i == id,
            Ok(Stage::Poll(i)) => i == id,
            Ok(Stage::Receipt(i)) => i == id,
            Ok(Stage::Report(i)) => i == id,
            Ok(Stage::Finished(i)) => i == id,
            _ => false,
        },
{
}

/// The steps come in order, each where it is declared: a lane sends what it created, waits for the
/// payment of what it sent, sends the receipt for what was paid, and reports at the end.
pub proof fn a_lane_takes_every_declared_step(s: ScriptSpec, name: Seq<char>, v: JsonV, id: u64)
    requires
        member(v, "id"@) == Some(JsonV::Int(id as int)),
    ensures
        s.send ==> stage_after(s, name, Stage::Create(0), v) == Ok::<Stage, Seq<char>>(
            Stage::Send(id),
        ),
        !s.send && s.wait_paid ==> stage_after(s, name, Stage::Create(0), v) == Ok::<
            Stage,
            Seq<char>,
        >(Stage::Poll(id)),
        s.wait_paid ==> stage_after(s, name, Stage::Send(id), v) == Ok::<Stage, Seq<char>>(
            Stage::Poll(id),
        ),
        !s.wait_paid && s.receipt ==> stage_after(s, name, Stage::Send(id), v) == Ok::<
            Stage,
            Seq<char>,
        >(Stage::Receipt(id)),
        !s.wait_paid && !s.receipt && s.report_each ==> stage_after(s, name, Stage::Send(id), v)
            == Ok::<Stage, Seq<char>>(Stage::Report(id)),
        s.report_each ==> stage_after(s, name, Stage::Receipt(id), v) == Ok::<Stage, Seq<char>>(
            Stage::Report(id),
        ),
        !s.report_each ==> stage_after(s, name, Stage::Receipt(id), v) == Ok::<Stage, Seq<char>>(
            Stage::Finished(id),
        ),
        stage_after(s, name, Stage::Report(id), v) == Ok::<Stage, Seq<char>>(Stage::Finished(id)),
        !s.send && !s.wait_paid && !s.receipt && !s.report_each ==> stage_after(
            s,
            name,
            Stage::Create(0),
            v,
        ) == Ok::<Stage, Seq<char>>(Stage::Finished(id)),
{
}

/// A lane waits until the invoice is paid, and no longer; then it sends the receipt where one is
/// declared.
pub proof fn a_lane_waits_for_the_payment(s: ScriptSpec, name: Seq<char>, v: JsonV, id: u64)
    ensures
        stage_after(s, name, Stage::Poll(id), v) == Ok::<Stage, Seq<char>>(Stage::Poll(id)) <==> (
        member(v, "status"@) != Some(JsonV::Str("paid"@))),
        member(v, "status"@) == Some(JsonV::Str("paid"@)) && s.receipt ==> stage_after(
            s,
            name,
            Stage::Poll(id),
            v,
        ) == Ok::<Stage, Seq<char>>(Stage::Receipt(id)),
        member(v, "status"@) == Some(JsonV::Str("paid"@)) && !s.receipt && s.report_each
            ==> stage_after(s, name, Stage::Poll(id), v) == Ok::<Stage, Seq<char>>(
            Stage::Report(id),
        ),
        member(v, "status"@) == Some(JsonV::Str("paid"@)) && !s.receipt && !s.report_each
            ==> stage_after(s, name, Stage::Poll(id), v) == Ok::<Stage, Seq<char>>(
            Stage::Finished(id),
        ),
{
}

/// Each call is of its stage's operation and about its stage's item. Only writes carry a key, and
/// each write of a lane carries one of its own.
pub proof fn a_call_is_of_its_stage(name: Seq<char>, prefix: Seq<char>, stage: Stage)
    ensures
        stage is Finished <==> call_at(name, prefix, stage) is None,
        call_at(name, prefix, stage) matches Some(c) ==> {
            &&& c.post <==> c.key is Some
            &&& c.post <==> !(stage is Find) && !(stage is Poll)
        },
        stage is Find ==> {
            let c = call_at(name, prefix, stage)->0;
            c.op == "listCustomers"@ && c.path == "/api/customers?name="@ + name && c.body is None
        },
        stage matches Stage::Create(u) ==> {
            let c = call_at(name, prefix, stage)->0;
            &&& c.op == "createInvoice"@ && c.path == "/api/invoices"@
            &&& c.body matches Some(b) && member(b, "customer_id"@) == Some(JsonV::Int(u as int))
                && member(b, "amount_cents"@) == Some(JsonV::Int(10000))
            &&& c.key == Some(prefix + "/"@ + name + "/"@ + "create"@)
        },
        stage matches Stage::Send(id) ==> {
            let c = call_at(name, prefix, stage)->0;
            &&& c.op == "sendInvoice"@ && c.path == "/api/invoices/"@ + dec(id as nat) + "/send"@
            &&& c.body is None && c.key == Some(prefix + "/"@ + name + "/"@ + "send"@)
        },
        stage matches Stage::Poll(id) ==> {
            let c = call_at(name, prefix, stage)->0;
            c.op == "getInvoice"@ && c.path == "/api/invoices/"@ + dec(id as nat) && c.body is None
        },
        stage matches Stage::Receipt(id) ==> {
            let c = call_at(name, prefix, stage)->0;
            &&& c.op == "sendReceipt"@ && c.path == "/api/invoices/"@ + dec(id as nat)
                + "/receipt"@
            &&& c.body is None && c.key == Some(prefix + "/"@ + name + "/"@ + "receipt"@)
        },
        stage matches Stage::Report(id) ==> {
            let c = call_at(name, prefix, stage)->0;
            &&& c.op == "createReport"@ && c.path == "/api/reports"@
            &&& c.body matches Some(b) && member(b, "invoice_ids"@) == Some(
                JsonV::List(seq![JsonV::Int(id as int)]),
            )
            &&& c.key == Some(prefix + "/"@ + name + "/"@ + "report"@)
        },
{
    reveal_strlit("customer_id");
    assert("customer_id"@.len() == 11);
    reveal_strlit("amount_cents");
    assert("amount_cents"@.len() == 12);
    if let Stage::Create(u) = stage {
        let xs = seq![
            ("amount_cents"@, JsonV::Int(10000)),
            ("customer_id"@, JsonV::Int(u as int)),
        ];
        assert(call_at(name, prefix, stage)->0.body == Some(JsonV::Obj(xs)));
        the_first_entry_counts(xs, "amount_cents"@, 0);
        the_first_entry_counts(xs, "customer_id"@, 1);
    }
    if let Stage::Report(id) = stage {
        a_report_is_over_its_invoices(seq![id], prefix + "/"@ + name + "/"@ + "report"@);
        assert(seq![id].map_values(|i: u64| JsonV::Int(i as int)) =~= seq![JsonV::Int(id as int)]);
    }
}

/// A report is over the invoices that it was asked for, in their order.
pub proof fn a_report_is_over_its_invoices(ids: Seq<u64>, key: Seq<char>)
    ensures
        report_call(ids, key).op == "createReport"@,
        report_call(ids, key).post,
        report_call(ids, key).key == Some(key),
        report_call(ids, key).body matches Some(b) && member(b, "invoice_ids"@) == Some(
            JsonV::List(ids.map_values(|i: u64| JsonV::Int(i as int))),
        ),
{
    let xs = seq![("invoice_ids"@, JsonV::List(ids.map_values(|i: u64| JsonV::Int(i as int))))];
    the_first_entry_counts(xs, "invoice_ids"@, 0);
}

/// A failure is tried again only where the next try may succeed, three times at most, and each
/// wait for a reply that says so is twice as long as the one before.
pub proof fn a_lane_tries_again(attempt: u32, a: AnswerV)
    ensures
        then_of(attempt, a) is Good <==> (a matches AnswerV::Status(s, _) && 200 <= s < 300),
        then_of(attempt, a) is Again <==> attempt < 4 && (match a {
            AnswerV::Status(s, _) => s == 429 || s >= 500,
            AnswerV::Nothing(_) => true,
        }),
        a matches AnswerV::Status(s, v) ==> 200 <= s < 300 ==> then_of(attempt, a) == ThenV::Good(
            v,
        ),
        a matches AnswerV::Nothing(e) ==> attempt >= 4 ==> then_of(attempt, a) == ThenV::Bad(e),
        a is Status && then_of(1, a) is Again ==> then_of(1, a) == ThenV::Again(40) && then_of(2, a)
            == ThenV::Again(80) && then_of(3, a) == ThenV::Again(160),
        a is Nothing && attempt < 4 ==> then_of(attempt, a) == ThenV::Again(40),
{
}

/// A row of a script says what was called and what came of it.
pub proof fn a_row_says_what_came_of_a_call(
    node: Seq<char>,
    call: ScriptCallV,
    attempt: u32,
    start: u128,
    end: u128,
    a: AnswerV,
)
    ensures
        ({
            let r = attempt_row(node, call, attempt, start, end, a);
            &&& r.node == node && r.op == call.op && r.key == call.key && r.attempt == attempt
            &&& r.started_us == start && r.ended_us == end && r.surface == "api"@
            &&& r.write <==> call.post
            &&& r.ok <==> (a matches AnswerV::Status(s, _) && 200 <= s < 300)
            &&& r.ok <==> r.error is None
            &&& a matches AnswerV::Status(_, v) ==> r.observed == v
            &&& a matches AnswerV::Nothing(e) ==> r.observed is Null && r.error == Some(e)
            &&& a matches AnswerV::Status(s, v) ==> !r.ok ==> (member(v, "error"@) matches Some(
                JsonV::Str(e),
            ) ==> r.error == Some(dec(s as nat) + " "@ + e))
        }),
{
}

/// A script whose name was not that of one customer asks, any other error fails it, and without
/// one it is done.
pub proof fn a_script_ends_as_its_error_says(e: Seq<char>, rest: Seq<char>)
    ensures
        script_ending(None).status is Committed,
        script_ending(None).error is None,
        script_ending(Some("fork:"@ + rest)).status is NeedThink,
        script_ending(Some("fork:"@ + rest)).yield_reason == Some("fork:"@ + rest),
        script_ending(Some("fork:"@ + rest)).error is None,
        !("fork:"@.is_prefix_of(e)) ==> script_ending(Some(e)).status is Error && script_ending(
            Some(e),
        ).error == Some(e),
{
    let t = "fork:"@ + rest;
    assert(t.subrange(0, "fork:"@.len() as int) =~= "fork:"@);
}

// ---------- selectors ----------

/// The first row of a selector counts.
pub proof fn the_first_row_counts(
    rows: Seq<(Option<Seq<char>>, Seq<Seq<char>>)>,
    sel: Option<Seq<char>>,
    k: int,
)
    requires
        0 <= k < rows.len(),
        rows[k].0 == sel,
        forall|j: int| 0 <= j < k ==> (#[trigger] rows[j]).0 != sel,
    ensures
        names_for(rows, sel) == rows[k].1,
    decreases k,
{
    if k > 0 {
        let t = rows.drop_first();
        assert(rows[0].0 != sel);
        assert(t[k - 1] == rows[k]);
        assert forall|j: int| 0 <= j < k - 1 implies (#[trigger] t[j]).0 != sel by {
            assert(t[j] == rows[j + 1]);
        }
        the_first_row_counts(t, sel, k - 1);
    }
}

/// A selector that no row is for stands for nobody.
pub proof fn without_a_row_nobody_is_selected(
    rows: Seq<(Option<Seq<char>>, Seq<Seq<char>>)>,
    sel: Option<Seq<char>>,
)
    requires
        forall|j: int| 0 <= j < rows.len() ==> (#[trigger] rows[j]).0 != sel,
    ensures
        names_for(rows, sel).len() == 0,
    decreases rows.len(),
{
    if rows.len() > 0 {
        let t = rows.drop_first();
        assert(rows[0].0 != sel);
        assert forall|j: int| 0 <= j < t.len() implies (#[trigger] t[j]).0 != sel by {
            assert(t[j] == rows[j + 1]);
        }
        without_a_row_nobody_is_selected(t, sel);
    }
}

/// An `each` over the customers with a prefix, or over all, becomes one over those customers by
/// their names, in their order.
pub proof fn a_selector_stands_for_whom_it_selects(
    p: PredV,
    sel: Option<Seq<char>>,
    rows: Seq<(Option<Seq<char>>, Seq<Seq<char>>)>,
    k: int,
    i: int,
)
    requires
        p.entity == "customer"@,
        match sel {
            None => p.args.len() == 0,
            Some(x) => p.args == seq![("name_prefix"@, ValV::Str(x))],
        },
        0 <= k < rows.len(),
        rows[k].0 == sel,
        forall|j: int| 0 <= j < k ==> (#[trigger] rows[j]).0 != sel,
    ensures
        ({
            let e = ValV::Each(seq![ValV::Entity(Box::new(p))]);
            &&& selectors_in(e) == seq![sel]
            &&& expanded(e, rows) matches ValV::Each(xs) && xs.len() == rows[k].1.len() && (0 <= i
                < xs.len() ==> (xs[i] matches ValV::Entity(q) && q.entity == "customer"@ && q.args
                == seq![("name"@, ValV::Str(rows[k].1[i]))]))
        }),
{
    let v = ValV::Entity(Box::new(p));
    let e = ValV::Each(seq![v]);
    the_first_row_counts(rows, sel, k);
    assert(seq![v][0] == v);
    if let Some(x) = sel {
        assert(p.args[0] == ("name_prefix"@, ValV::Str(x)));
        assert(crate::pred::lookup(p.args, "name_prefix"@) == Some(ValV::Str(x)));
    } else {
        assert(crate::pred::lookup(p.args, "name_prefix"@) is None);
    }
    assert(selector_of(v) == Some(sel));
    assert(crate::selectors::selecting(seq![v]));
    assert(selectors_in(e) == seq![sel]);
}

/// Only an entity named customer selects, and only by a prefix or wholly.
pub proof fn only_customers_are_selected(v: ValV)
    ensures
        selector_of(v) matches Some(s) ==> (v matches ValV::Entity(p) && p.entity == "customer"@ && (
        s is None ==> p.args.len() == 0) && (s matches Some(x) ==> crate::pred::lookup(
            p.args,
            "name_prefix"@,
        ) == Some(ValV::Str(x)))),
{
}

/// Arguments keep their names and places.
pub proof fn arguments_are_expanded_in_place(
    xs: Seq<(Seq<char>, ValV)>,
    t: Seq<(Option<Seq<char>>, Seq<Seq<char>>)>,
    i: int,
)
    ensures
        args_expanded(xs, t).len() == xs.len(),
        0 <= i < xs.len() ==> args_expanded(xs, t)[i] == (xs[i].0, expanded(xs[i].1, t)),
    decreases xs.len(),
{
    if xs.len() > 0 {
        arguments_are_expanded_in_place(xs.drop_last(), t, i);
    }
}

/// Elements keep their places.
pub proof fn elements_are_expanded_in_place(
    xs: Seq<ValV>,
    t: Seq<(Option<Seq<char>>, Seq<Seq<char>>)>,
    i: int,
)
    ensures
        list_expanded(xs, t).len() == xs.len(),
        0 <= i < xs.len() ==> list_expanded(xs, t)[i] == expanded(xs[i], t),
    decreases xs.len(),
{
    if xs.len() > 0 {
        elements_are_expanded_in_place(xs.drop_last(), t, i);
    }
}

proof fn args_bring(xs: Seq<(Seq<char>, ValV)>, i: int, s: Option<Seq<char>>)
    requires
        0 <= i < xs.len(),
        selectors_in(xs[i].1).contains(s),
    ensures
        selectors_in_args(xs).contains(s),
    decreases xs.len(),
{
    let a = selectors_in_args(xs.drop_last());
    let b = selectors_in(xs[xs.len() - 1].1);
    if i < xs.len() - 1 {
        args_bring(xs.drop_last(), i, s);
        let k = choose|k: int| 0 <= k < a.len() && a[k] == s;
        assert((a + b)[k] == s);
    } else {
        let k = choose|k: int| 0 <= k < b.len() && b[k] == s;
        assert((a + b)[a.len() + k] == s);
    }
}

/// Every selector in a want is asked for.
pub proof fn every_selector_is_asked_for(
    wants: Seq<Seq<char>>,
    i: int,
    p: PredV,
    j: int,
    s: Option<Seq<char>>,
)
    requires
        0 <= i < wants.len(),
        crate::pred_parse::parse_spec(wants[i]) == Ok::<PredV, crate::pred_parse::ParseErrorV>(p),
        0 <= j < p.args.len(),
        selectors_in(p.args[j].1).contains(s),
    ensures
        selectors_of(wants).contains(s),
    decreases wants.len(),
{
    let a = selectors_of(wants.drop_last());
    if i < wants.len() - 1 {
        assert(wants.drop_last()[i] == wants[i]);
        every_selector_is_asked_for(wants.drop_last(), i, p, j, s);
        let k = choose|k: int| 0 <= k < a.len() && a[k] == s;
        assert(selectors_of(wants)[k] == s);
    } else {
        args_bring(p.args, j, s);
        let b = selectors_in_args(p.args);
        let k = choose|k: int| 0 <= k < b.len() && b[k] == s;
        assert(selectors_of(wants)[a.len() + k] == s);
    }
}

/// Each want is expanded in its place; one that does not parse, or in which no selector stands,
/// stays as it was written.
pub proof fn wants_are_expanded_in_place(
    wants: Seq<Seq<char>>,
    t: Seq<(Option<Seq<char>>, Seq<Seq<char>>)>,
    i: int,
)
    ensures
        wants_expanded(wants, t).len() == wants.len(),
        0 <= i < wants.len() ==> wants_expanded(wants, t)[i] == want_expanded(wants[i], t),
        0 <= i < wants.len() && crate::pred_parse::parse_spec(wants[i]) is Err
            ==> wants_expanded(wants, t)[i] == wants[i],
{
}

} // verus!
