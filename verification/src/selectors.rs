//! Selectors: `each(customer(name_prefix='X'))` stands for every customer whose name starts so,
//! `each(customer())` for every customer. They are expanded from what the app says exists, before
//! compiling, so that keys come out identical to the written-out form.

use crate::intent::{clone_forks, Intent, IntentV};
use crate::pred::{
    args_push, args_view, lookup, vals_push, vals_view, Pred, PredV, Val, ValV,
};
use crate::pred_parse::parse_spec;
use crate::pred_print::pred_text;
use crate::text::{owned, same, views};
use crate::world::opt_str;
use vstd::prelude::*;

verus! {

/// The selector that a value is: `Some(None)` selects every customer, `Some(Some(p))` those whose
/// names start with `p`.
pub open spec fn selector_of(v: ValV) -> Option<Option<Seq<char>>> {
    match v {
        ValV::Entity(p) => if p.entity == "customer"@ {
            match lookup(p.args, "name_prefix"@) {
                Some(ValV::Str(x)) => Some(Some(x)),
                _ => if p.args.len() == 0 {
                    Some(None)
                } else {
                    None
                },
            }
        } else {
            None
        },
        _ => None,
    }
}

/// The names that a selector selects: none where the table does not know it.
pub open spec fn names_for(
    rows: Seq<(Option<Seq<char>>, Seq<Seq<char>>)>,
    sel: Option<Seq<char>>,
) -> Seq<Seq<char>>
    decreases rows.len(),
{
    if rows.len() == 0 {
        Seq::empty()
    } else if rows[0].0 == sel {
        rows[0].1
    } else {
        names_for(rows.drop_first(), sel)
    }
}

/// A customer, by name.
pub open spec fn by_name(n: Seq<char>) -> ValV {
    ValV::Entity(
        Box::new(
            PredV {
                entity: "customer"@,
                args: seq![("name"@, ValV::Str(n))],
                field: Seq::empty(),
                value: ValV::Bool(true),
            },
        ),
    )
}

pub open spec fn customers(names: Seq<Seq<char>>) -> Seq<ValV> {
    names.map_values(|n: Seq<char>| by_name(n))
}

/// Whether an `each` stands for a selector.
pub open spec fn selecting(items: Seq<ValV>) -> bool {
    items.len() == 1 && selector_of(items[0]) is Some
}

/// Whether a selector stands in a value.
pub open spec fn touched(v: ValV) -> bool
    decreases v,
{
    match v {
        ValV::Each(items) => selecting(items),
        ValV::Entity(p) => args_touched(p.args),
        ValV::All(x) => touched(*x),
        ValV::List(xs) => list_touched(xs),
        _ => false,
    }
}

pub open spec fn list_touched(xs: Seq<ValV>) -> bool
    decreases xs,
{
    if xs.len() == 0 {
        false
    } else {
        list_touched(xs.drop_last()) || touched(xs[xs.len() - 1])
    }
}

pub open spec fn args_touched(xs: Seq<(Seq<char>, ValV)>) -> bool
    decreases xs,
{
    if xs.len() == 0 {
        false
    } else {
        args_touched(xs.drop_last()) || touched(xs[xs.len() - 1].1)
    }
}

/// A value with every selector replaced by what it selects.
pub open spec fn expanded(v: ValV, t: Seq<(Option<Seq<char>>, Seq<Seq<char>>)>) -> ValV
    decreases v,
{
    match v {
        ValV::Each(items) => if selecting(items) {
            ValV::Each(customers(names_for(t, selector_of(items[0])->0)))
        } else {
            v
        },
        ValV::Entity(p) => ValV::Entity(
            Box::new(
                PredV {
                    entity: p.entity,
                    args: args_expanded(p.args, t),
                    field: p.field,
                    value: p.value,
                },
            ),
        ),
        ValV::All(x) => ValV::All(Box::new(expanded(*x, t))),
        ValV::List(xs) => ValV::List(list_expanded(xs, t)),
        _ => v,
    }
}

pub open spec fn list_expanded(
    xs: Seq<ValV>,
    t: Seq<(Option<Seq<char>>, Seq<Seq<char>>)>,
) -> Seq<ValV>
    decreases xs,
{
    if xs.len() == 0 {
        Seq::empty()
    } else {
        list_expanded(xs.drop_last(), t).push(expanded(xs[xs.len() - 1], t))
    }
}

pub open spec fn args_expanded(
    xs: Seq<(Seq<char>, ValV)>,
    t: Seq<(Option<Seq<char>>, Seq<Seq<char>>)>,
) -> Seq<(Seq<char>, ValV)>
    decreases xs,
{
    if xs.len() == 0 {
        Seq::empty()
    } else {
        args_expanded(xs.drop_last(), t).push(
            (xs[xs.len() - 1].0, expanded(xs[xs.len() - 1].1, t)),
        )
    }
}

/// A want with its selectors expanded. One without selectors stays as it was written.
pub open spec fn want_expanded(
    want: Seq<char>,
    t: Seq<(Option<Seq<char>>, Seq<Seq<char>>)>,
) -> Seq<char> {
    match parse_spec(want) {
        Ok(p) => if args_touched(p.args) {
            pred_text(PredV { args: args_expanded(p.args, t), ..p })
        } else {
            want
        },
        Err(_) => want,
    }
}

pub open spec fn wants_expanded(
    wants: Seq<Seq<char>>,
    t: Seq<(Option<Seq<char>>, Seq<Seq<char>>)>,
) -> Seq<Seq<char>> {
    wants.map_values(|w: Seq<char>| want_expanded(w, t))
}

/// The selectors that stand in a value, in order.
pub open spec fn selectors_in(v: ValV) -> Seq<Option<Seq<char>>>
    decreases v,
{
    match v {
        ValV::Each(items) => if selecting(items) {
            seq![selector_of(items[0])->0]
        } else {
            Seq::empty()
        },
        ValV::Entity(p) => selectors_in_args(p.args),
        ValV::All(x) => selectors_in(*x),
        ValV::List(xs) => selectors_in_list(xs),
        _ => Seq::empty(),
    }
}

pub open spec fn selectors_in_list(xs: Seq<ValV>) -> Seq<Option<Seq<char>>>
    decreases xs,
{
    if xs.len() == 0 {
        Seq::empty()
    } else {
        selectors_in_list(xs.drop_last()) + selectors_in(xs[xs.len() - 1])
    }
}

pub open spec fn selectors_in_args(xs: Seq<(Seq<char>, ValV)>) -> Seq<Option<Seq<char>>>
    decreases xs,
{
    if xs.len() == 0 {
        Seq::empty()
    } else {
        selectors_in_args(xs.drop_last()) + selectors_in(xs[xs.len() - 1].1)
    }
}

/// The selectors that stand in wants, in order.
pub open spec fn selectors_of(wants: Seq<Seq<char>>) -> Seq<Option<Seq<char>>>
    decreases wants.len(),
{
    if wants.len() == 0 {
        Seq::empty()
    } else {
        selectors_of(wants.drop_last()) + match parse_spec(wants.last()) {
            Ok(p) => selectors_in_args(p.args),
            Err(_) => Seq::empty(),
        }
    }
}

// ---------- reading ----------

pub open spec fn sels_view(xs: Seq<Option<String>>) -> Seq<Option<Seq<char>>> {
    xs.map_values(|x: Option<String>| opt_str(x))
}

pub open spec fn table_view(t: Seq<(Option<String>, Vec<String>)>) -> Seq<
    (Option<Seq<char>>, Seq<Seq<char>>),
> {
    t.map_values(|r: (Option<String>, Vec<String>)| (opt_str(r.0), views(r.1@)))
}

fn read_selector(v: &Val) -> (r: Option<Option<String>>)
    ensures
        match r {
            Some(s) => selector_of(v@) == Some(opt_str(s)),
            None => selector_of(v@) is None,
        },
{
    match v {
        Val::Entity(p) => {
            assert(args_view(p.args@).len() == p.args@.len());
            if same(p.entity.as_str(), "customer") {
                match p.arg("name_prefix") {
                    Some(Val::Str(x)) => Some(Some(x.clone())),
                    _ => if p.args.len() == 0 {
                        Some(None)
                    } else {
                        None
                    },
                }
            } else {
                None
            }
        },
        _ => None,
    }
}

fn push_selectors_list(xs: &Vec<Val>, out: &mut Vec<Option<String>>)
    ensures
        sels_view(final(out)@) == sels_view(old(out)@) + selectors_in_list(vals_view(xs@)),
    decreases xs,
{
    let ghost before = sels_view(out@);
    let ghost vs = vals_view(xs@);
    let mut i: usize = 0;
    assert(before + selectors_in_list(vs.take(0)) =~= before);
    while i < xs.len()
        invariant
            i <= xs@.len(),
            vs == vals_view(xs@),
            sels_view(out@) == before + selectors_in_list(vs.take(i as int)),
        decreases xs@.len() - i,
    {
        push_selectors(&xs[i], out);
        proof {
            let p = vs.take(i + 1);
            assert(p.drop_last() =~= vs.take(i as int));
            assert(p[p.len() - 1] == xs@[i as int]@);
        }
        i += 1;
        assert(sels_view(out@) =~= before + selectors_in_list(vs.take(i as int)));
    }
    assert(vs.take(i as int) =~= vs);
}

fn push_selectors_args(xs: &Vec<(String, Val)>, out: &mut Vec<Option<String>>)
    ensures
        sels_view(final(out)@) == sels_view(old(out)@) + selectors_in_args(args_view(xs@)),
    decreases xs,
{
    let ghost before = sels_view(out@);
    let ghost vs = args_view(xs@);
    let mut i: usize = 0;
    assert(before + selectors_in_args(vs.take(0)) =~= before);
    while i < xs.len()
        invariant
            i <= xs@.len(),
            vs == args_view(xs@),
            sels_view(out@) == before + selectors_in_args(vs.take(i as int)),
        decreases xs@.len() - i,
    {
        push_selectors(&xs[i].1, out);
        proof {
            let p = vs.take(i + 1);
            assert(p.drop_last() =~= vs.take(i as int));
            assert(p[p.len() - 1] == (xs@[i as int].0@, xs@[i as int].1@));
        }
        i += 1;
        assert(sels_view(out@) =~= before + selectors_in_args(vs.take(i as int)));
    }
    assert(vs.take(i as int) =~= vs);
}

fn push_selectors(v: &Val, out: &mut Vec<Option<String>>)
    ensures
        sels_view(final(out)@) == sels_view(old(out)@) + selectors_in(v@),
    decreases v,
{
    let ghost before = sels_view(out@);
    match v {
        Val::Each(items) => {
            assert(v@ == ValV::Each(vals_view(items@)));
            assert(vals_view(items@).len() == items@.len());
            if items.len() == 1 {
                assert(vals_view(items@)[0] == items@[0]@);
                match read_selector(&items[0]) {
                    Some(s) => {
                        out.push(s);
                        assert(sels_view(out@) =~= before + seq![opt_str(s)]);
                    },
                    None => {
                        assert(before + Seq::<Option<Seq<char>>>::empty() =~= before);
                    },
                }
            } else {
                assert(before + Seq::<Option<Seq<char>>>::empty() =~= before);
            }
        },
        Val::Entity(p) => {
            assert(crate::pred::pred_view(**p).args == args_view(p.args@));
            push_selectors_args(&p.args, out);
        },
        Val::All(x) => push_selectors(x, out),
        Val::List(xs) => push_selectors_list(xs, out),
        _ => {
            assert(before + Seq::<Option<Seq<char>>>::empty() =~= before);
        },
    }
}

/// The selectors that stand in the wants of an intent: what has to be read from the app.
pub fn selectors(intent: &Intent) -> (r: Vec<Option<String>>)
    ensures
        sels_view(r@) == selectors_of(intent@.wants),
{
    let ghost ws = intent@.wants;
    let mut out: Vec<Option<String>> = Vec::new();
    let mut i: usize = 0;
    assert(sels_view(out@) =~= selectors_of(ws.take(0)));
    while i < intent.wants.len()
        invariant
            i <= intent.wants@.len(),
            ws == intent@.wants,
            sels_view(out@) == selectors_of(ws.take(i as int)),
        decreases intent.wants@.len() - i,
    {
        proof {
            assert(ws.take(i + 1).drop_last() =~= ws.take(i as int));
            assert(ws.take(i + 1).last() == intent.wants@[i as int]@);
        }
        let ghost o = sels_view(out@);
        match Pred::parse(intent.wants[i].as_str()) {
            Ok(p) => push_selectors_args(&p.args, &mut out),
            Err(_) => {
                assert(o + Seq::<Option<Seq<char>>>::empty() =~= o);
            },
        }
        i += 1;
    }
    assert(ws.take(i as int) =~= ws);
    out
}

// ---------- expanding ----------

proof fn names_for_skip(
    rows: Seq<(Option<Seq<char>>, Seq<Seq<char>>)>,
    sel: Option<Seq<char>>,
    i: int,
)
    requires
        0 <= i <= rows.len(),
        forall|j: int| 0 <= j < i ==> (#[trigger] rows[j]).0 != sel,
    ensures
        names_for(rows, sel) == names_for(rows.skip(i), sel),
    decreases i,
{
    if i == 0 {
        assert(rows.skip(0) =~= rows);
    } else {
        assert(rows[0].0 != sel);
        let t = rows.drop_first();
        assert forall|j: int| 0 <= j < i - 1 implies (#[trigger] t[j]).0 != sel by {
            assert(t[j] == rows[j + 1]);
        }
        names_for_skip(t, sel, i - 1);
        assert(t.skip(i - 1) =~= rows.skip(i));
    }
}

fn same_selector(a: &Option<String>, b: &Option<String>) -> (r: bool)
    ensures
        r == (opt_str(*a) == opt_str(*b)),
{
    match (a, b) {
        (Some(x), Some(y)) => same(x.as_str(), y.as_str()),
        (None, None) => true,
        _ => false,
    }
}

fn customer_vals(names: &Vec<String>) -> (r: Vec<Val>)
    ensures
        vals_view(r@) == customers(views(names@)),
{
    let ghost all = customers(views(names@));
    let mut out: Vec<Val> = Vec::new();
    let mut i: usize = 0;
    assert(vals_view(out@) =~= all.take(0));
    while i < names.len()
        invariant
            i <= names@.len() == all.len(),
            all == customers(views(names@)),
            vals_view(out@) == all.take(i as int),
        decreases names@.len() - i,
    {
        let mut args: Vec<(String, Val)> = Vec::new();
        let x = (owned("name"), Val::Str(names[i].clone()));
        proof {
            args_push(args@, x);
        }
        args.push(x);
        assert(args_view(args@) =~= seq![("name"@, ValV::Str(names@[i as int]@))]);
        let p = Pred {
            entity: owned("customer"),
            args,
            field: String::new(),
            value: Val::Bool(true),
        };
        assert(p@.field =~= Seq::<char>::empty());
        let v = Val::Entity(Box::new(p));
        assert(v@ == by_name(names@[i as int]@));
        proof {
            vals_push(out@, v);
        }
        out.push(v);
        assert(all[i as int] == by_name(views(names@)[i as int]));
        i += 1;
        assert(vals_view(out@) =~= all.take(i as int));
    }
    assert(all.take(i as int) =~= all);
    out
}

fn selected(table: &Vec<(Option<String>, Vec<String>)>, sel: &Option<String>) -> (r: Vec<Val>)
    ensures
        vals_view(r@) == customers(names_for(table_view(table@), opt_str(*sel))),
{
    let ghost t = table_view(table@);
    let mut i: usize = 0;
    while i < table.len()
        invariant
            i <= table@.len(),
            t == table_view(table@),
            forall|j: int| 0 <= j < i ==> (#[trigger] t[j]).0 != opt_str(*sel),
        decreases table@.len() - i,
    {
        assert(t[i as int] == (opt_str(table@[i as int].0), views(table@[i as int].1@)));
        if same_selector(&table[i].0, sel) {
            proof {
                names_for_skip(t, opt_str(*sel), i as int);
                assert(t.skip(i as int)[0] == t[i as int]);
            }
            return customer_vals(&table[i].1);
        }
        i += 1;
    }
    proof {
        names_for_skip(t, opt_str(*sel), i as int);
        assert(t.skip(i as int).len() == 0);
    }
    let out: Vec<Val> = Vec::new();
    assert(vals_view(out@) =~= customers(Seq::empty()));
    out
}

fn expand_list(xs: &Vec<Val>, table: &Vec<(Option<String>, Vec<String>)>) -> (r: (bool, Vec<Val>))
    ensures
        r.0 == list_touched(vals_view(xs@)),
        vals_view(r.1@) == list_expanded(vals_view(xs@), table_view(table@)),
    decreases xs,
{
    let ghost vs = vals_view(xs@);
    let ghost t = table_view(table@);
    let mut hit = false;
    let mut out: Vec<Val> = Vec::new();
    let mut i: usize = 0;
    assert(vals_view(out@) =~= list_expanded(vs.take(0), t));
    while i < xs.len()
        invariant
            i <= xs@.len(),
            vs == vals_view(xs@),
            t == table_view(table@),
            hit == list_touched(vs.take(i as int)),
            vals_view(out@) == list_expanded(vs.take(i as int), t),
        decreases xs@.len() - i,
    {
        proof {
            let p = vs.take(i + 1);
            assert(p.drop_last() =~= vs.take(i as int));
            assert(p[p.len() - 1] == xs@[i as int]@);
        }
        let (h, v) = expand_both(&xs[i], table);
        hit = hit || h;
        proof {
            vals_push(out@, v);
        }
        out.push(v);
        i += 1;
    }
    assert(vs.take(i as int) =~= vs);
    (hit, out)
}

fn expand_args(xs: &Vec<(String, Val)>, table: &Vec<(Option<String>, Vec<String>)>) -> (r: (
    bool,
    Vec<(String, Val)>,
))
    ensures
        r.0 == args_touched(args_view(xs@)),
        args_view(r.1@) == args_expanded(args_view(xs@), table_view(table@)),
    decreases xs,
{
    let ghost vs = args_view(xs@);
    let ghost t = table_view(table@);
    let mut hit = false;
    let mut out: Vec<(String, Val)> = Vec::new();
    let mut i: usize = 0;
    assert(args_view(out@) =~= args_expanded(vs.take(0), t));
    while i < xs.len()
        invariant
            i <= xs@.len(),
            vs == args_view(xs@),
            t == table_view(table@),
            hit == args_touched(vs.take(i as int)),
            args_view(out@) == args_expanded(vs.take(i as int), t),
        decreases xs@.len() - i,
    {
        proof {
            let p = vs.take(i + 1);
            assert(p.drop_last() =~= vs.take(i as int));
            assert(p[p.len() - 1] == (xs@[i as int].0@, xs@[i as int].1@));
        }
        let (h, v) = expand_both(&xs[i].1, table);
        hit = hit || h;
        let x = (xs[i].0.clone(), v);
        proof {
            args_push(out@, x);
        }
        out.push(x);
        i += 1;
    }
    assert(vs.take(i as int) =~= vs);
    (hit, out)
}

fn expand_both(v: &Val, table: &Vec<(Option<String>, Vec<String>)>) -> (r: (bool, Val))
    ensures
        r.0 == touched(v@),
        r.1@ == expanded(v@, table_view(table@)),
    decreases v,
{
    match v {
        Val::Each(items) => {
            assert(v@ == ValV::Each(vals_view(items@)));
            assert(vals_view(items@).len() == items@.len());
            if items.len() == 1 {
                assert(vals_view(items@)[0] == items@[0]@);
                match read_selector(&items[0]) {
                    Some(s) => (true, Val::Each(selected(table, &s))),
                    None => (false, v.clone()),
                }
            } else {
                (false, v.clone())
            }
        },
        Val::Entity(p) => {
            assert(crate::pred::pred_view(**p).args == args_view(p.args@));
            let (hit, args) = expand_args(&p.args, table);
            let q = Pred {
                entity: p.entity.clone(),
                args,
                field: p.field.clone(),
                value: p.value.clone(),
            };
            assert(crate::pred::pred_view(q).args == args_view(q.args@));
            let r = Val::Entity(Box::new(q));
            (hit, r)
        },
        Val::All(x) => {
            let (hit, y) = expand_both(x, table);
            (hit, Val::All(Box::new(y)))
        },
        Val::List(xs) => {
            let (hit, ys) = expand_list(xs, table);
            (hit, Val::List(ys))
        },
        _ => (false, v.clone()),
    }
}

/// A value with its selectors expanded, where it has any.
pub fn expand_val(v: &Val, table: &Vec<(Option<String>, Vec<String>)>) -> (r: Option<Val>)
    ensures
        match r {
            Some(x) => touched(v@) && x@ == expanded(v@, table_view(table@)),
            None => !touched(v@),
        },
{
    let (hit, x) = expand_both(v, table);
    if hit {
        Some(x)
    } else {
        None
    }
}

fn expand_want(want: &str, table: &Vec<(Option<String>, Vec<String>)>) -> (r: String)
    ensures
        r@ == want_expanded(want@, table_view(table@)),
{
    match Pred::parse(want) {
        Err(_) => owned(want),
        Ok(p) => {
            let (hit, args) = expand_args(&p.args, table);
            if hit {
                let q = Pred { entity: p.entity, args, field: p.field, value: p.value };
                q.to_string()
            } else {
                owned(want)
            }
        },
    }
}

/// An intent with its selectors expanded from what the app said.
pub fn expand_selectors(intent: &Intent, table: &Vec<(Option<String>, Vec<String>)>) -> (r: Intent)
    ensures
        r@ == (IntentV {
            wants: wants_expanded(intent@.wants, table_view(table@)),
            ..intent@
        }),
{
    let ghost t = table_view(table@);
    let ghost all = wants_expanded(intent@.wants, t);
    let mut wants: Vec<String> = Vec::new();
    let mut i: usize = 0;
    assert(views(wants@) =~= all.take(0));
    while i < intent.wants.len()
        invariant
            i <= intent.wants@.len() == all.len(),
            t == table_view(table@),
            all == wants_expanded(views(intent.wants@), t),
            views(wants@) == all.take(i as int),
        decreases intent.wants@.len() - i,
    {
        let w = expand_want(intent.wants[i].as_str(), table);
        let ghost o = views(wants@);
        wants.push(w);
        assert(views(wants@) =~= o.push(w@));
        assert(all[i as int] == want_expanded(views(intent.wants@)[i as int], t));
        i += 1;
        assert(views(wants@) =~= all.take(i as int));
    }
    assert(all.take(i as int) =~= all);
    Intent {
        goal: intent.goal.clone(),
        wants,
        constraints: intent.constraints,
        forks: clone_forks(&intent.forks),
    }
}

// ---------- what expanding keeps ----------

proof fn named_is_no_selector(n: Seq<char>)
    ensures
        selector_of(by_name(n)) is None,
{
    reveal_strlit("name");
    reveal_strlit("name_prefix");
    assert("name"@.len() != "name_prefix"@.len());
    let args = seq![("name"@, ValV::Str(n))];
    assert(args.drop_first().len() == 0);
    reveal_with_fuel(lookup, 3);
    assert(lookup(args, "name_prefix"@) is None);
}

/// Nothing is left to expand once selectors are expanded.
pub proof fn expanding_leaves_no_selector(
    v: ValV,
    t: Seq<(Option<Seq<char>>, Seq<Seq<char>>)>,
)
    ensures
        !touched(expanded(v, t)),
    decreases v,
{
    match v {
        ValV::Each(items) => {
            if selecting(items) {
                let names = names_for(t, selector_of(items[0])->0);
                let cs = customers(names);
                if cs.len() == 1 {
                    assert(cs[0] == by_name(names[0]));
                    named_is_no_selector(names[0]);
                }
            }
        },
        ValV::Entity(p) => args_leave_no_selector(p.args, t),
        ValV::All(x) => expanding_leaves_no_selector(*x, t),
        ValV::List(xs) => list_leaves_no_selector(xs, t),
        _ => {},
    }
}

proof fn list_leaves_no_selector(xs: Seq<ValV>, t: Seq<(Option<Seq<char>>, Seq<Seq<char>>)>)
    ensures
        !list_touched(list_expanded(xs, t)),
    decreases xs,
{
    if xs.len() > 0 {
        list_leaves_no_selector(xs.drop_last(), t);
        expanding_leaves_no_selector(xs[xs.len() - 1], t);
        let r = list_expanded(xs, t);
        assert(r.drop_last() =~= list_expanded(xs.drop_last(), t));
    }
}

proof fn args_leave_no_selector(
    xs: Seq<(Seq<char>, ValV)>,
    t: Seq<(Option<Seq<char>>, Seq<Seq<char>>)>,
)
    ensures
        !args_touched(args_expanded(xs, t)),
    decreases xs,
{
    if xs.len() > 0 {
        args_leave_no_selector(xs.drop_last(), t);
        expanding_leaves_no_selector(xs[xs.len() - 1].1, t);
        let r = args_expanded(xs, t);
        assert(r.drop_last() =~= args_expanded(xs.drop_last(), t));
    }
}

/// A value without selectors is left as it is.
pub proof fn expanding_keeps_the_rest(v: ValV, t: Seq<(Option<Seq<char>>, Seq<Seq<char>>)>)
    requires
        !touched(v),
    ensures
        expanded(v, t) == v,
    decreases v,
{
    match v {
        ValV::Entity(p) => args_kept(p.args, t),
        ValV::All(x) => expanding_keeps_the_rest(*x, t),
        ValV::List(xs) => list_kept(xs, t),
        _ => {},
    }
}

proof fn list_kept(xs: Seq<ValV>, t: Seq<(Option<Seq<char>>, Seq<Seq<char>>)>)
    requires
        !list_touched(xs),
    ensures
        list_expanded(xs, t) == xs,
    decreases xs,
{
    if xs.len() > 0 {
        list_kept(xs.drop_last(), t);
        expanding_keeps_the_rest(xs[xs.len() - 1], t);
        assert(list_expanded(xs, t) =~= xs);
    } else {
        assert(list_expanded(xs, t) =~= xs);
    }
}

proof fn args_kept(xs: Seq<(Seq<char>, ValV)>, t: Seq<(Option<Seq<char>>, Seq<Seq<char>>)>)
    requires
        !args_touched(xs),
    ensures
        args_expanded(xs, t) == xs,
    decreases xs,
{
    if xs.len() > 0 {
        args_kept(xs.drop_last(), t);
        expanding_keeps_the_rest(xs[xs.len() - 1].1, t);
        assert(args_expanded(xs, t) =~= xs);
    } else {
        assert(args_expanded(xs, t) =~= xs);
    }
}

} // verus!
