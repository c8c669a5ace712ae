//! What the command line prints.

use crate::api::{show_list, shown_list, Shown};
use crate::cli::{
    plain, plural, plural_of, words_json, Exit, Fail, FailV,
};
use crate::cut::{join, joined};
use crate::effect::{beginning, head};
use crate::json::{json_text, list_push, list_view, member, obj_view, Json, JsonV};
use crate::ledger::{effects_view, EffectSummary, EffectSummaryV, Receipt, ReceiptV, Status};
use crate::object::{no_entries, push_entry, text_json, four_entries};
use crate::plan::{padded, push_padded};
use crate::pred::{Pred, PredV};
use crate::pred_print::pred_text;
use crate::recipes::Recipe;
use crate::text::{dec, dec_string, owned, views};
use crate::validate::{findings_view, Finding, FindingV};
use crate::world::{surfaces_view, Entity, EntityV, Op, OpKind, OpV, World, WorldV};
use vstd::prelude::*;

verus! {

// ---------- where the wants come from ----------

/// Where the wants come from: a saved run, a model once, a file, or a recipe that already worked.
#[derive(Clone, Copy, Debug, PartialEq, Eq, Structural)]
pub enum WantsFrom {
    Resume,
    Goal,
    File,
    Recipe,
}

/// Where the wants come from, or that nothing was said.
pub fn wants_from(resume: bool, goal: bool, file: bool, recipe: bool) -> (r: Result<
    WantsFrom,
    Fail,
>)
    ensures
        match r {
            Ok(s) => s == (if resume {
                WantsFrom::Resume
            } else if goal {
                WantsFrom::Goal
            } else if file {
                WantsFrom::File
            } else {
                WantsFrom::Recipe
            }) && (resume || goal || file || recipe),
            Err(f) => !resume && !goal && !file && !recipe && f@ == plain(
                Exit::WantsRejected,
                "no_source"@,
                "say what you want: --goal \"...\", --wants FILE, --recipe NAME, or --resume FILE (--world to look around first)"@,
            ),
        },
{
    if resume {
        Ok(WantsFrom::Resume)
    } else if goal {
        Ok(WantsFrom::Goal)
    } else if file {
        Ok(WantsFrom::File)
    } else if recipe {
        Ok(WantsFrom::Recipe)
    } else {
        Err(
            Fail::new(
                Exit::WantsRejected,
                "no_source",
                owned(
                    "say what you want: --goal \"...\", --wants FILE, --recipe NAME, or --resume FILE (--world to look around first)",
                ),
            ),
        )
    }
}

/// What is done about a question that a run stopped with.
#[derive(Clone, Copy, Debug, PartialEq, Eq, Structural)]
pub enum ForkStep {
    /// The run did not stop with one, or nobody said what they meant: it stands.
    Stand,
    /// Rewrite the wants with the answers that were given.
    Rewrite,
    /// Ask the model which one was meant.
    AskModel,
}

/// What is done about a question that a run stopped with: answers that were given come before the
/// model, and without either the question stands.
pub fn fork_step(status: Status, answers: usize, with_model: bool) -> (r: ForkStep)
    ensures
        r == (if status != Status::NeedThink {
            ForkStep::Stand
        } else if answers > 0 {
            ForkStep::Rewrite
        } else if with_model {
            ForkStep::AskModel
        } else {
            ForkStep::Stand
        }),
{
    match status {
        Status::NeedThink => if answers > 0 {
            ForkStep::Rewrite
        } else if with_model {
            ForkStep::AskModel
        } else {
            ForkStep::Stand
        },
        _ => ForkStep::Stand,
    }
}

// ---------- recipes ----------

/// The parameters of a recipe, as they are given.
pub open spec fn params_text(params: Seq<Seq<char>>) -> Seq<char> {
    if params.len() == 0 {
        "no parameters"@
    } else {
        "--set "@ + joined(params, "=… --set "@) + "=…"@
    }
}

/// The line of a recipe.
pub open spec fn recipe_line(r: Recipe) -> Seq<char> {
    ""@ + padded(r.name@, 16) + " "@ + padded(beginning(r.goal@, 34), 34) + " "@ + padded(
        r.app@,
        28,
    ) + " "@ + params_text(views(r.params@))
}

/// The line of a recipe.
pub fn list_line(r: &Recipe) -> (t: String)
    ensures
        t@ == recipe_line(*r),
{
    let mut t = owned("");
    push_padded(&mut t, r.name.as_str(), 16);
    t.push_str(" ");
    push_padded(&mut t, head(r.goal.as_str(), 34).as_str(), 34);
    t.push_str(" ");
    push_padded(&mut t, r.app.as_str(), 28);
    t.push_str(" ");
    assert(views(r.params@).len() == r.params@.len());
    let p = if r.params.len() == 0 {
        owned("no parameters")
    } else {
        let mut s = owned("--set ");
        s.push_str(join(&r.params, "=… --set ").as_str());
        s.push_str("=…");
        s
    };
    t.push_str(p.as_str());
    t
}

// ---------- the receipt ----------

pub open spec fn id_text(v: JsonV) -> Seq<char> {
    match member(v, "id"@) {
        Some(i) => "#"@ + json_text(i),
        None => ""@,
    }
}

/// The line of an effect.
pub open spec fn effect_line(e: EffectSummaryV) -> Seq<char> {
    "  "@ + (if e.ok {
        "ok  "@
    } else {
        "FAIL"@
    }) + " "@ + e.op + " "@ + id_text(e.observed) + "\n"@
}

pub open spec fn effect_lines(es: Seq<EffectSummaryV>) -> Seq<char>
    decreases es.len(),
{
    if es.len() == 0 {
        Seq::empty()
    } else {
        effect_lines(es.drop_last()) + effect_line(es.last())
    }
}

pub open spec fn status_title(s: Status) -> Seq<char> {
    match s {
        Status::Committed => "Committed"@,
        Status::NeedThink => "NeedThink"@,
        Status::Error => "Error"@,
    }
}

pub open spec fn question_text(q: Option<Seq<char>>) -> Seq<char> {
    match q {
        Some(t) => "\nIt stopped to ask: "@ + t
            + "\nAnswer with --answer \"OLD=>NEW\", or --answer-with-model to let the model choose.\n"@,
        None => ""@,
    }
}

pub open spec fn stop_text(e: Option<Seq<char>>) -> Seq<char> {
    match e {
        Some(t) => "\nIt stopped: "@ + t + "\n"@,
        None => ""@,
    }
}

/// The receipt as it is read.
pub open spec fn receipt_lines(r: ReceiptV) -> Seq<char> {
    "\n"@ + effect_lines(r.effects) + "\n"@ + status_title(r.status) + " · "@ + dec(
        r.samples as nat,
    ) + " model call"@ + plural_of(r.samples as nat) + " · "@ + dec(r.plan_ms) + " ms planning · "@
        + dec(r.busy_ms) + " ms running · "@ + dec(r.max_parallel) + " at once\n"@
        + question_text(r.yield_reason) + stop_text(r.error)
}

fn line_of(e: &EffectSummary) -> (t: String)
    ensures
        t@ == effect_line(e@),
{
    let mut t = owned("  ");
    t.push_str(
        if e.ok {
            "ok  "
        } else {
            "FAIL"
        },
    );
    t.push_str(" ");
    t.push_str(e.op.as_str());
    t.push_str(" ");
    let id = match e.observed.get("id") {
        Some(i) => {
            let mut s = owned("#");
            s.push_str(i.to_string().as_str());
            s
        },
        None => owned(""),
    };
    t.push_str(id.as_str());
    t.push_str("\n");
    t
}

fn effects_text(es: &Vec<EffectSummary>) -> (t: String)
    ensures
        t@ == effect_lines(effects_view(es@)),
{
    let ghost vs = effects_view(es@);
    let mut t = String::new();
    let mut i: usize = 0;
    assert(t@ =~= effect_lines(vs.take(0)));
    while i < es.len()
        invariant
            i <= es@.len() == vs.len(),
            vs == effects_view(es@),
            t@ == effect_lines(vs.take(i as int)),
        decreases es@.len() - i,
    {
        proof {
            assert(vs.take(i + 1).drop_last() =~= vs.take(i as int));
            assert(vs.take(i + 1).last() == es@[i as int]@);
        }
        t.push_str(line_of(&es[i]).as_str());
        i += 1;
    }
    assert(vs.take(i as int) =~= vs);
    t
}

/// The receipt as it is read.
pub fn receipt_text(r: &Receipt) -> (t: String)
    ensures
        t@ == receipt_lines(r@),
{
    let mut t = owned("\n");
    t.push_str(effects_text(&r.effects).as_str());
    t.push_str("\n");
    t.push_str(
        match r.status {
            Status::Committed => "Committed",
            Status::NeedThink => "NeedThink",
            Status::Error => "Error",
        },
    );
    t.push_str(" · ");
    t.push_str(dec_string(r.samples as u128).as_str());
    t.push_str(" model call");
    t.push_str(plural(r.samples as usize));
    t.push_str(" · ");
    t.push_str(dec_string(r.plan_ms).as_str());
    t.push_str(" ms planning · ");
    t.push_str(dec_string(r.busy_ms).as_str());
    t.push_str(" ms running · ");
    t.push_str(dec_string(r.max_parallel as u128).as_str());
    t.push_str(" at once\n");
    let q = match &r.yield_reason {
        Some(x) => {
            let mut s = owned("\nIt stopped to ask: ");
            s.push_str(x.as_str());
            s.push_str(
                "\nAnswer with --answer \"OLD=>NEW\", or --answer-with-model to let the model choose.\n",
            );
            s
        },
        None => owned(""),
    };
    t.push_str(q.as_str());
    let e = match &r.error {
        Some(x) => {
            let mut s = owned("\nIt stopped: ");
            s.push_str(x.as_str());
            s.push_str("\n");
            s
        },
        None => owned(""),
    };
    t.push_str(e.as_str());
    t
}

// ---------- the world ----------

/// The operations without a postcondition: nothing can be planned through them.
pub open spec fn unplannable_of(os: Seq<OpV>) -> Seq<Seq<char>>
    decreases os.len(),
{
    if os.len() == 0 {
        Seq::empty()
    } else if os.last().post is None {
        unplannable_of(os.drop_last()).push(os.last().name)
    } else {
        unplannable_of(os.drop_last())
    }
}

/// The operations without a postcondition.
pub fn unplannable(world: &World) -> (r: Vec<String>)
    ensures
        views(r@) == unplannable_of(world@.ops),
{
    let ghost os = world@.ops;
    assert(os.len() == world.ops@.len());
    let mut out: Vec<String> = Vec::new();
    let mut i: usize = 0;
    assert(views(out@) =~= unplannable_of(os.take(0)));
    while i < world.ops.len()
        invariant
            i <= world.ops@.len() == os.len(),
            os == world@.ops,
            views(out@) == unplannable_of(os.take(i as int)),
        decreases world.ops@.len() - i,
    {
        proof {
            assert(os.take(i + 1).drop_last() =~= os.take(i as int));
            assert(os.take(i + 1).last() == world.ops@[i as int]@);
        }
        match &world.ops[i].post {
            None => {
                let x = world.ops[i].name.clone();
                let ghost o = views(out@);
                out.push(x);
                assert(views(out@) =~= o.push(x@));
            },
            Some(_) => {},
        }
        i += 1;
    }
    assert(os.take(i as int) =~= os);
    out
}

pub open spec fn kind_text(k: OpKind) -> Seq<char> {
    match k {
        OpKind::Http => "http"@,
        OpKind::Ui => "ui"@,
        OpKind::Event => "event"@,
    }
}

fn kind_word(k: OpKind) -> (r: &'static str)
    ensures
        r@ == kind_text(k),
{
    match k {
        OpKind::Http => "http",
        OpKind::Ui => "ui",
        OpKind::Event => "event",
    }
}

pub open spec fn post_json(p: Option<PredV>) -> JsonV {
    match p {
        Some(x) => JsonV::Str(pred_text(x)),
        None => JsonV::Null,
    }
}

pub open spec fn costs_json(ss: Seq<(Seq<char>, u32)>) -> JsonV {
    JsonV::Obj(ss.map_values(|s: (Seq<char>, u32)| (s.0, JsonV::Int(s.1 as int))))
}

pub open spec fn preds_json(ps: Seq<PredV>) -> JsonV {
    JsonV::List(ps.map_values(|p: PredV| JsonV::Str(pred_text(p))))
}

pub open spec fn op_json(o: OpV) -> JsonV {
    JsonV::Obj(
        seq![
            ("kind"@, JsonV::Str(kind_text(o.kind))),
            ("makes_true"@, post_json(o.post)),
            ("op"@, JsonV::Str(o.name)),
            ("reads"@, words_json(o.reads)),
            ("requires"@, preds_json(o.requires_)),
            ("surfaces"@, costs_json(o.surfaces)),
            ("writes"@, words_json(o.writes)),
        ],
    )
}

fn words(xs: &Vec<String>) -> (r: Json)
    ensures
        r@ == words_json(views(xs@)),
{
    let ghost all = words_json(views(xs@))->List_0;
    let mut out: Vec<Json> = Vec::new();
    let mut i: usize = 0;
    assert(list_view(out@) =~= all.take(0));
    while i < xs.len()
        invariant
            i <= xs@.len() == all.len(),
            all == words_json(views(xs@))->List_0,
            list_view(out@) == all.take(i as int),
        decreases xs@.len() - i,
    {
        let x = Json::Str(xs[i].clone());
        proof {
            list_push(out@, x);
            assert(views(xs@)[i as int] == xs@[i as int]@);
            assert(all[i as int] == JsonV::Str(xs@[i as int]@));
        }
        out.push(x);
        i += 1;
        assert(list_view(out@) =~= all.take(i as int));
    }
    assert(all.take(i as int) =~= all);
    Json::List(out)
}

impl Shown for Pred {
    open spec fn fits(&self) -> bool {
        true
    }

    open spec fn shown(&self) -> JsonV {
        JsonV::Str(pred_text(self@))
    }

    fn show(&self) -> (r: Json) {
        Json::Str(self.to_string())
    }
}

fn costs(ss: &Vec<(String, u32)>) -> (r: Json)
    ensures
        r@ == costs_json(surfaces_view(ss@)),
{
    let ghost all = costs_json(surfaces_view(ss@))->Obj_0;
    let mut out = no_entries();
    let mut i: usize = 0;
    assert(obj_view(out@) =~= all.take(0));
    while i < ss.len()
        invariant
            i <= ss@.len() == all.len(),
            all == costs_json(surfaces_view(ss@))->Obj_0,
            obj_view(out@) == all.take(i as int),
        decreases ss@.len() - i,
    {
        push_entry(&mut out, ss[i].0.as_str(), Json::Int(ss[i].1 as i128));
        assert(surfaces_view(ss@)[i as int] == (ss@[i as int].0@, ss@[i as int].1));
        i += 1;
        assert(obj_view(out@) =~= all.take(i as int));
    }
    assert(all.take(i as int) =~= all);
    Json::Obj(out)
}

impl Shown for Op {
    open spec fn fits(&self) -> bool {
        true
    }

    open spec fn shown(&self) -> JsonV {
        op_json(self@)
    }

    fn show(&self) -> (r: Json) {
        let post = match &self.post {
            Some(p) => Json::Str(p.to_string()),
            None => Json::Null,
        };
        let requires_ = show_list(&self.requires_);
        assert(shown_list(self.requires_@) =~= preds_json(self@.requires_)->List_0);
        let mut o = no_entries();
        push_entry(&mut o, "kind", text_json(kind_word(self.kind)));
        push_entry(&mut o, "makes_true", post);
        push_entry(&mut o, "op", Json::Str(self.name.clone()));
        push_entry(&mut o, "reads", words(&self.reads));
        push_entry(&mut o, "requires", requires_);
        push_entry(&mut o, "surfaces", costs(&self.surfaces));
        push_entry(&mut o, "writes", words(&self.writes));
        assert(obj_view(o@) =~= op_json(self@)->Obj_0);
        Json::Obj(o)
    }
}

pub open spec fn entity_json(e: EntityV) -> JsonV {
    JsonV::Obj(
        seq![
            ("fields"@, words_json(e.fields)),
            ("id"@, JsonV::Str(e.id)),
            ("name"@, JsonV::Str(e.name)),
        ],
    )
}

impl Shown for Entity {
    open spec fn fits(&self) -> bool {
        true
    }

    open spec fn shown(&self) -> JsonV {
        entity_json(self@)
    }

    fn show(&self) -> (r: Json) {
        crate::object::three_entries(
            "fields",
            words(&self.fields),
            "id",
            Json::Str(self.id.clone()),
            "name",
            Json::Str(self.name.clone()),
        )
    }
}

/// What an app can be asked for, as one object.
pub open spec fn world_json(w: WorldV) -> JsonV {
    JsonV::Obj(
        seq![
            ("entities"@, JsonV::List(w.entities.map_values(|e: EntityV| entity_json(e)))),
            ("operations"@, JsonV::List(w.ops.map_values(|o: OpV| op_json(o)))),
        ],
    )
}

/// What an app can be asked for, as one object.
pub fn show_world(w: &World) -> (r: Json)
    ensures
        r@ == world_json(w@),
{
    let es = show_list(&w.entities);
    let os = show_list(&w.ops);
    let r = crate::object::two_entries("entities", es, "operations", os);
    proof {
        assert(shown_list(w.entities@) =~= w@.entities.map_values(|e: EntityV| entity_json(e)));
        assert(shown_list(w.ops@) =~= w@.ops.map_values(|o: OpV| op_json(o)));
        assert(r@->Obj_0 =~= world_json(w@)->Obj_0);
    }
    r
}

// ---------- findings ----------

pub open spec fn finding_json(f: FindingV) -> JsonV {
    JsonV::Obj(
        seq![
            ("code"@, JsonV::Str(f.code)),
            ("fatal"@, JsonV::Bool(f.fatal)),
            ("message"@, JsonV::Str(f.message)),
            ("op"@, JsonV::Str(f.op)),
        ],
    )
}

/// The findings that are fatal, or those that are not.
pub open spec fn findings_json(fs: Seq<FindingV>, fatal: bool) -> Seq<JsonV>
    decreases fs.len(),
{
    if fs.len() == 0 {
        Seq::empty()
    } else if fs.last().fatal == fatal {
        findings_json(fs.drop_last(), fatal).push(finding_json(fs.last()))
    } else {
        findings_json(fs.drop_last(), fatal)
    }
}

/// The review of a world model, as one object.
pub open spec fn review_json(w: WorldV, fs: Seq<FindingV>) -> JsonV {
    let bad = findings_json(fs, true);
    JsonV::Obj(
        seq![
            ("entities"@, JsonV::Int(w.entities.len() as int)),
            ("errors"@, JsonV::List(bad)),
            ("ok"@, JsonV::Bool(bad.len() == 0)),
            ("operations"@, JsonV::Int(w.ops.len() as int)),
            ("warnings"@, JsonV::List(findings_json(fs, false))),
        ],
    )
}

fn sift(fs: &Vec<Finding>, fatal: bool) -> (r: Vec<Json>)
    ensures
        list_view(r@) == findings_json(findings_view(fs@), fatal),
{
    let ghost vs = findings_view(fs@);
    let mut out: Vec<Json> = Vec::new();
    let mut i: usize = 0;
    assert(list_view(out@) =~= findings_json(vs.take(0), fatal));
    while i < fs.len()
        invariant
            i <= fs@.len() == vs.len(),
            vs == findings_view(fs@),
            list_view(out@) == findings_json(vs.take(i as int), fatal),
        decreases fs@.len() - i,
    {
        proof {
            assert(vs.take(i + 1).drop_last() =~= vs.take(i as int));
            assert(vs.take(i + 1).last() == fs@[i as int]@);
        }
        if fs[i].fatal == fatal {
            let x = four_entries(
                "code",
                text_json(fs[i].code),
                "fatal",
                Json::Bool(fs[i].fatal),
                "message",
                Json::Str(fs[i].message.clone()),
                "op",
                Json::Str(fs[i].op.clone()),
            );
            proof {
                list_push(out@, x);
            }
            out.push(x);
        }
        i += 1;
    }
    assert(vs.take(i as int) =~= vs);
    out
}

/// The review of a world model: one object whichever way it goes, with a failure where a plan
/// compiled against the model can be wrong.
pub fn review(w: &World, fs: &Vec<Finding>) -> (r: (Json, Option<Fail>))
    ensures
        r.0@ == review_json(w@, findings_view(fs@)),
        ({
            let bad = findings_json(findings_view(fs@), true).len();
            match r.1 {
                None => bad == 0,
                Some(f) => bad > 0 && f@ == (FailV {
                    body: Some(review_json(w@, findings_view(fs@))),
                    ..plain(
                        Exit::WantsRejected,
                        "world_invalid"@,
                        dec(bad) + " problem(s) in the world model"@,
                    )
                }),
            }
        }),
{
    let bad = sift(fs, true);
    let n = bad.len();
    assert(list_view(bad@).len() == n);
    let warnings = sift(fs, false);
    assert(w@.entities.len() == w.entities@.len() && w@.ops.len() == w.ops@.len());
    let mut o = no_entries();
    push_entry(&mut o, "entities", Json::Int(w.entities.len() as i128));
    push_entry(&mut o, "errors", Json::List(bad));
    push_entry(&mut o, "ok", Json::Bool(n == 0));
    push_entry(&mut o, "operations", Json::Int(w.ops.len() as i128));
    push_entry(&mut o, "warnings", Json::List(warnings));
    assert(obj_view(o@) =~= review_json(w@, findings_view(fs@))->Obj_0);
    let body = Json::Obj(o);
    if n == 0 {
        return (body, None);
    }
    let mut m = dec_string(n as u128);
    m.push_str(" problem(s) in the world model");
    let again = body.clone();
    (body, Some(Fail::new(Exit::WantsRejected, "world_invalid", m).with_body(again)))
}

// ---------- the other order ----------

/// What trying the other order showed, as one object.
pub open spec fn order_json(wants: nat, steps: nat, differences: Seq<Seq<char>>) -> JsonV {
    JsonV::Obj(
        seq![
            ("differences"@, words_json(differences)),
            ("ok"@, JsonV::Bool(differences.len() == 0)),
            ("steps"@, JsonV::Int(steps as int)),
            ("wants"@, JsonV::Int(wants as int)),
        ],
    )
}

/// What trying the other order showed: one object, with a failure where the plan depends on the
/// order in which the wants were written.
pub fn order_report(wants: usize, steps: usize, differences: &Vec<String>) -> (r: (
    Json,
    Option<Fail>,
))
    ensures
        r.0@ == order_json(wants as nat, steps as nat, views(differences@)),
        match r.1 {
            None => differences@.len() == 0,
            Some(f) => differences@.len() > 0 && f@ == (FailV {
                body: Some(order_json(wants as nat, steps as nat, views(differences@))),
                ..plain(
                    Exit::WantsRejected,
                    "order_dependent"@,
                    "the plan depends on the order the wants were written in"@,
                )
            }),
        },
{
    assert(views(differences@).len() == differences@.len());
    let body = four_entries(
        "differences",
        words(differences),
        "ok",
        Json::Bool(differences.len() == 0),
        "steps",
        Json::Int(steps as i128),
        "wants",
        Json::Int(wants as i128),
    );
    if differences.len() == 0 {
        return (body, None);
    }
    let again = body.clone();
    (
        body,
        Some(
            Fail::new(
                Exit::WantsRejected,
                "order_dependent",
                owned("the plan depends on the order the wants were written in"),
            ).with_body(again),
        ),
    )
}

} // verus!
