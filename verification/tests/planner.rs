//! Turning a goal into wants that hold up: the planner's loop with scripted replies, and lint.

use rwmcp::arms::unplanned;
use rwmcp::compiler::{compile, CompileOptions};
use rwmcp::intent::{Constraints, Intent};
use rwmcp::invoicing::World as App;
use rwmcp::json::{parse_text, Json};
use rwmcp::ledger::{Ledger, Sample, SampleKind};
use rwmcp::lint::{lint, LintError};
use rwmcp::names::summarise_names;
use rwmcp::planner::{
    after_reply, beta_header, complete_request, credentials, first_answer, first_turn, fork_question, hear_intent, hear_reply, plan_request,
    read_intent, take_answer, take_turn, usage, usage_fits, Again, Ask, Auth, Credentials, Ctx, Heard, IntentCache, Verdict,
};
use rwmcp::selectors::{expand_selectors, selectors};
use rwmcp::world::World;
use sha2::Digest;

/// The world model of the invoicing app.
const DOC: &str = r#"{
  "openapi": "3.1.0",
  "x-reverse-webmcp-entities": {
    "customer": {"id": "id", "fields": ["name", "email"]},
    "invoice": {"id": "id", "fields": ["customer", "amount_cents", "status", "approved", "receipt_sent"]},
    "report": {"id": "id", "fields": ["invoices", "total_cents"]}
  },
  "paths": {
    "/api/customers": {
      "get": {
        "operationId": "listCustomers",
        "parameters": [{"name": "name", "in": "query"}],
        "x-reverse-webmcp": {
          "post": "customer(name=$name).resolved",
          "produces": "customer",
          "reads": ["customer:*"],
          "surfaces": {"api": 1, "mcp": 2, "webmcp": 3},
          "fork": {"when": "result.count != 1", "ask": "Which customer named $name?"}
        }
      }
    },
    "/api/invoices": {
      "post": {
        "operationId": "createInvoice",
        "requestBody": {"content": {"application/json": {"schema": {"properties": {"customer_id": {}, "amount_cents": {}}}}}},
        "x-reverse-webmcp": {
          "post": "invoice(customer=$customer_id).exists",
          "requires": ["customer(id=$customer_id).exists"],
          "produces": "invoice",
          "reads": ["customer:$customer_id"],
          "writes": ["invoice:new"],
          "defaults": {"amount_cents": 10000},
          "surfaces": {"api": 1, "mcp": 2, "webmcp": 3}
        }
      }
    },
    "/api/invoices/{id}": {
      "get": {
        "operationId": "getInvoice",
        "parameters": [{"name": "id", "in": "path"}],
        "x-reverse-webmcp": {"reads": ["invoice:$id"], "surfaces": {"api": 1, "mcp": 2}}
      }
    },
    "/api/invoices/{id}/receipt": {
      "post": {
        "operationId": "sendReceipt",
        "parameters": [{"name": "id", "in": "path"}],
        "x-reverse-webmcp": {
          "post": "invoice(id=$id).receipt_sent=true",
          "requires": ["invoice(id=$id).status='paid'"],
          "reads": ["invoice:$id"],
          "writes": ["invoice:$id"],
          "external": true,
          "surfaces": {"api": 1, "mcp": 2}
        }
      }
    },
    "/api/invoices/{id}/send": {
      "post": {
        "operationId": "sendInvoice",
        "parameters": [{"name": "id", "in": "path"}],
        "x-reverse-webmcp": {
          "post": "invoice(id=$id).status='sent'",
          "requires": ["invoice(id=$id).exists"],
          "reads": ["invoice:$id"],
          "writes": ["invoice:$id"],
          "external": true,
          "before": ["sendReceipt"],
          "surfaces": {"api": 1, "mcp": 2, "webmcp": 3}
        }
      }
    },
    "/api/reports": {
      "post": {
        "operationId": "createReport",
        "requestBody": {"content": {"application/json": {"schema": {"properties": {"invoice_ids": {}}}}}},
        "x-reverse-webmcp": {
          "post": "report(invoices=$invoice_ids).exists",
          "requires": ["invoice(id=$invoice_ids[]).exists"],
          "produces": "report",
          "reads": ["invoice:$invoice_ids[]"],
          "writes": ["report:new"],
          "surfaces": {"api": 1, "mcp": 2}
        }
      }
    }
  },
  "x-reverse-webmcp-ui": {
    "approveInvoice": {
      "post": "invoice(id=$id).approved=true",
      "requires": ["invoice(id=$id).exists"],
      "reads": ["invoice:$id"],
      "writes": ["invoice:$id"],
      "route": "/invoices/{id}",
      "control": {"role": "button", "name": "Approve invoice {id}"},
      "before": ["sendInvoice", "sendReceipt"],
      "surfaces": {"a11y": 5, "pixels": 9}
    }
  },
  "x-reverse-webmcp-events": {
    "payment.received": {
      "post": "invoice(id=$id).status='paid'",
      "check": {"op": "getInvoice", "arg": "id", "field": "status", "value": "paid"}
    }
  }
}"#;

fn read(text: &str) -> Json {
    parse_text(text).unwrap()
}

fn world() -> World {
    World::from_openapi(&read(DOC)).unwrap()
}

fn intent(wants: &[&str]) -> Intent {
    Intent { goal: "test".to_string(), wants: wants.iter().map(|s| s.to_string()).collect(), ..Default::default() }
}

/// A model that gives these replies one after the other.
struct Scripted(Vec<String>);

impl Scripted {
    fn wants(lists: &[&[&str]]) -> Scripted {
        Scripted(
            lists
                .iter()
                .map(|ws| {
                    let list: Vec<String> = ws.iter().map(|w| serde_json::to_string(w).unwrap()).collect();
                    format!(r#"{{"content": [{{"type": "tool_use", "name": "emit_intent", "input": {{"wants": [{}]}}}}]}}"#, list.join(","))
                })
                .collect(),
        )
    }

    fn sample(&mut self, ledger: &mut Ledger, kind: SampleKind) -> Json {
        let text = self.0.remove(0);
        ledger.record_sample(Sample {
            seq: 0,
            kind,
            started_us: 0,
            ended_us: 1000,
            tokens_in: 10,
            tokens_out: 5,
            model: "stub".to_string(),
            effort: "low".to_string(),
        });
        read(&text)
    }
}

/// Ask for an intent until one holds up, as the planner does.
fn plan_with_lint(ask: &Ask, ctx: &Ctx, sampler: &mut Scripted, ledger: &mut Ledger, table: &Vec<(Option<String>, Vec<String>)>) -> Result<Intent, String> {
    let first = plan_request(ask, ctx);
    assert!(first.iter().any(|(k, _)| k == "tools"));
    let mut turn = first_turn();
    loop {
        let resp = sampler.sample(ledger, turn.kind);
        let intent = expand_selectors(&hear_intent(&resp, ask, ledger), table);
        let (verdict, next) = take_turn(ask, ctx, &intent, turn, ledger);
        turn = next;
        match verdict {
            Verdict::Accept => return Ok(intent),
            Verdict::AskAgain(_) => {}
            Verdict::GiveUp(e) => return Err(e),
        }
    }
}

fn task() -> Ask {
    Ask::with("Create an invoice for Acme and send it.", &Constraints::default())
}

fn try_plan(sampler: &mut Scripted, ledger: &mut Ledger) -> Result<Intent, String> {
    let (w, opts) = (world(), CompileOptions::default());
    let ctx = Ctx::new(&w, &opts).facts("  customers (1): Acme");
    plan_with_lint(&task(), &ctx, sampler, ledger, &Vec::new())
}

#[test]
fn a_bad_first_intent_costs_exactly_one_more_sample() {
    let mut sampler = Scripted::wants(&[
        &["customer(name='Acme').exists", "invoice(customer=customer(name=$name)).exists"],
        &["invoice(customer=customer(name='Acme')).exists", "invoice(customer=customer(name='Acme')).status='sent'"],
    ]);
    let mut ledger = Ledger::new(0);
    let intent = try_plan(&mut sampler, &mut ledger).unwrap();
    assert_eq!(intent.wants.len(), 2);
    assert_eq!(ledger.sample_count(), 2);
    assert_eq!(ledger.samples[0].kind, SampleKind::Plan);
    assert_eq!(ledger.samples[1].kind, SampleKind::Lint);
    assert_eq!(ledger.plan_us(), 1000);
}

#[test]
fn a_good_first_intent_costs_one_sample() {
    let mut sampler = Scripted::wants(&[&["invoice(customer=customer(name='Acme')).status='sent'"]]);
    let mut ledger = Ledger::new(0);
    try_plan(&mut sampler, &mut ledger).unwrap();
    assert_eq!(ledger.sample_count(), 1);
}

#[test]
fn two_bad_intents_then_a_good_one_is_three_samples() {
    let mut sampler =
        Scripted::wants(&[&["nonsense("], &["customer(name='Acme').exists"], &["invoice(customer=customer(name='Acme')).status='sent'"]]);
    let mut ledger = Ledger::new(0);
    let intent = try_plan(&mut sampler, &mut ledger).unwrap();
    assert_eq!(intent.wants.len(), 1);
    assert_eq!(ledger.sample_count(), 3);
    assert_eq!(ledger.notes.len(), 2, "both rejections are on record");
}

#[test]
fn three_bad_intents_is_an_error_not_a_fourth_sample() {
    let mut sampler = Scripted::wants(&[&["nonsense("], &["customer(name='Acme').exists"], &[], &["should not be asked"]]);
    let mut ledger = Ledger::new(0);
    let err = try_plan(&mut sampler, &mut ledger).unwrap_err();
    assert!(err.contains("two re-asks"), "{err}");
    assert_eq!(ledger.sample_count(), 3);
}

#[test]
fn a_failed_planner_is_an_error_not_the_handwritten_intent() {
    let mut sampler = Scripted::wants(&[&[], &[], &[]]);
    let mut ledger = Ledger::new(0);
    let err = try_plan(&mut sampler, &mut ledger).unwrap_err();
    let u = unplanned("T1-r1", "goal", &err);
    assert!(u.error.starts_with("planner:"), "{}", u.error);
    assert_eq!(ledger.sample_count(), 3, "plan and two re-asks");
    assert!(u.plan.nodes.is_empty(), "nothing ran");
}

#[test]
fn long_runs_of_numbered_names_are_summarised() {
    let mut names: Vec<String> = vec!["Acme".to_string(), "Globex".to_string()];
    names.extend((1..=300).map(|i| format!("Customer {i:03}")));
    let s = summarise_names(&names);
    assert_eq!(s, "Acme, Globex, and 300 named 'Customer 001' … 'Customer 300' (prefix 'Customer ')");
    assert_eq!(summarise_names(&vec!["Acme".to_string(), "Wayne 7".to_string()]), "Acme, Wayne 7");
}

#[test]
fn a_repeat_goal_costs_zero_samples() {
    // The key of an intent that was planned before is found again, and a changed world never hits.
    let w = world();
    let api = vec!["api".to_string()];
    let goal = task().goal;
    let key = IntentCache::key(&goal, "facts", &api, &w);
    assert_eq!(key, IntentCache::key(&goal, "facts", &api, &w));
    assert_eq!(key, IntentCache::key(&format!("  {goal}\n"), "facts ", &api, &w));
    assert_eq!(IntentCache::file(&goal, "facts", &api, &w), format!("{key}.json"));
    assert_ne!(key, IntentCache::key(&goal, "other facts", &api, &w));
    assert_ne!(key, IntentCache::key(&goal, "facts", &vec!["api".to_string(), "mcp".to_string()], &w));
    assert_eq!(IntentCache::new("cache").dir, "cache");
    let text = format!("{goal}\nfacts\napi\n{}", w.fingerprint());
    assert_eq!(key, hex::encode(&sha2::Sha256::digest(text.as_bytes())[..16]));
}

#[test]
fn a_tool_call_rendered_as_text_is_still_an_intent() {
    let mut sampler = Scripted(vec![
        r#"{"content": [{"type": "text", "text": "```0eemit_intentcallwants=[\"invoice(customer=customer(name='Acme')).exists\", \"invoice(customer=customer(name='Acme')).status='sent'\"]"}]}"#
            .to_string(),
    ]);
    let mut ledger = Ledger::new(0);
    let intent = try_plan(&mut sampler, &mut ledger).unwrap();
    assert_eq!(intent.wants.len(), 2);
    assert_eq!(ledger.sample_count(), 1);
}

#[test]
fn an_unparseable_reply_is_re_asked_not_fatal() {
    let mut sampler = Scripted::wants(&[&["invoice(customer=customer(name='Acme')).status='sent'"]]);
    sampler.0.insert(0, r#"{"content": [{"type": "text", "text": "Sure! Let me think about that."}]}"#.to_string());
    let mut ledger = Ledger::new(0);
    let intent = try_plan(&mut sampler, &mut ledger).unwrap();
    assert_eq!(intent.wants.len(), 1);
    assert_eq!(ledger.sample_count(), 2);
    assert!(ledger.notes.iter().any(|n| n.get("unparseable").is_some()));
}

fn names(seed: u64, prefix: &str) -> Vec<String> {
    App::seeded(seed).find_customers_by_prefix(prefix).iter().map(|c| c.name.clone()).collect()
}

#[test]
fn a_prefix_selector_becomes_the_matching_names() {
    let wanted = intent(&[
        "invoice(customer=each(customer(name_prefix='Customer '))).exists",
        "invoice(customer=each(customer(name_prefix='Customer '))).status='sent'",
    ]);
    assert!(selectors(&wanted).iter().all(|s| s.as_deref() == Some("Customer ")));
    let table = vec![(Some("Customer ".to_string()), names(11, "Customer "))];
    let expanded = expand_selectors(&wanted, &table);
    assert!(expanded.wants[0].contains("customer(name='Customer 001')"));
    assert!(expanded.wants[0].contains("customer(name='Customer 300')"));
    assert!(!expanded.wants[0].contains("name_prefix"));
    let plan = compile(&expanded, &world(), &CompileOptions::default()).unwrap();
    assert_eq!(plan.nodes.len(), 900);
    // Untouched wants pass through unchanged.
    let plain = intent(&["invoice(customer=customer(name='Acme')).exists"]);
    assert!(selectors(&plain).is_empty());
    assert_eq!(expand_selectors(&plain, &table).wants, plain.wants);
}

#[test]
fn a_selector_from_the_planner_passes_lint_in_one_sample() {
    let mut sampler = Scripted::wants(&[&[
        "invoice(customer=each(customer(name_prefix='Customer '))).exists",
        "invoice(customer=each(customer(name_prefix='Customer '))).status='sent'",
    ]]);
    let (w, opts) = (world(), CompileOptions::default());
    let ctx = Ctx::new(&w, &opts).at("http://app");
    let table = vec![(Some("Customer ".to_string()), names(11, "Customer "))];
    let mut ledger = Ledger::new(0);
    let intent = plan_with_lint(&Ask::new("bulk"), &ctx, &mut sampler, &mut ledger, &table).unwrap();
    assert_eq!(ledger.sample_count(), 1, "the selector is expanded before lint, so no re-ask");
    assert!(intent.wants[0].contains("customer(name='Customer 300')"));
    assert_eq!(compile(&intent, &w, &opts).unwrap().nodes.len(), 900);
}

fn lint_one(want: &str) -> Vec<LintError> {
    lint(&intent(&[want]), &world(), &CompileOptions::default())
}

type Expect = fn(&LintError) -> bool;

#[test]
fn an_empty_intent_is_rejected() {
    let errs = lint(&intent(&[]), &world(), &CompileOptions::default());
    assert!(matches!(errs.as_slice(), [LintError::Empty]));
}

#[test]
fn the_table() {
    let cases: Vec<(&str, Expect)> = vec![
        ("invoice(customer=customer(name='Acme')).exists", |_| false),
        ("invoice(customer=customer(name='Acme')).status='sent'", |_| false),
        ("invoice(", |e| matches!(e, LintError::Unparseable { .. })),
        ("invoice(customer=customer(name=$name)).exists", |e| matches!(e, LintError::VariableInWant { .. })),
        ("widget(name='x').exists", |e| matches!(e, LintError::UnknownEntity { entity, .. } if entity == "widget")),
        ("invoice(customer=customer(name='Acme')).colour='red'", |e| matches!(e, LintError::UnknownField { field, .. } if field == "colour")),
        ("customer(name='Acme').exists", |e| matches!(e, LintError::WantsAnEntityThatAlreadyExists { .. })),
        ("invoice(customer=customer(name='Acme')).approved=true", |e| matches!(e, LintError::Unsatisfiable { .. })),
    ];
    for (want, expected) in cases {
        let errs = lint_one(want);
        if errs.is_empty() {
            assert!(!expected(&LintError::Unsatisfiable { reason: String::new() }), "{want}: expected an error, got none");
            continue;
        }
        assert!(errs.iter().any(expected), "{want}: got {}", errs[0].to_string());
    }
}

#[test]
fn lint_errors_carry_a_code_and_a_place() {
    let e = &lint_one("invoice(")[0];
    assert_eq!(e.code(), "unparseable");
    assert_eq!(e.want(), Some("invoice("));
    assert_eq!(e.at(), Some(8));
    assert_eq!(lint_one("widget(name='x').exists")[0].code(), "unknown_entity");
}

#[test]
fn a_passing_failure_is_tried_again_and_a_lasting_one_is_not() {
    assert_eq!(after_reply(200, 1, None), Again::No);
    assert!(matches!(after_reply(529, 1, None), Again::After(_)));
    assert_eq!(after_reply(429, 1, Some(3)), Again::After(3000));
    assert_eq!(after_reply(400, 1, None), Again::Fail);
    assert_eq!(after_reply(500, 6, None), Again::Fail);
}

#[test]
fn credentials_come_from_the_nearest_source() {
    let known = |c: Credentials| match c {
        Credentials::Known(Auth::ApiKey(k)) => format!("key {k}"),
        Credentials::Known(Auth::Bearer(t)) => format!("token {t}"),
        Credentials::AskProfile => "profile".to_string(),
    };
    let home = "https://api.anthropic.com";
    assert_eq!(known(credentials(Some("a"), Some("b"), Some("c"), home)), "key a");
    assert_eq!(known(credentials(None, Some("b"), Some("c"), home)), "key b");
    assert_eq!(known(credentials(None, None, Some("c"), home)), "token c");
    assert_eq!(known(credentials(None, None, None, home)), "profile");
    assert_eq!(known(credentials(None, None, None, "http://localhost:1")), "key local-gateway");
    assert_eq!(beta_header(false, false), None);
    assert_eq!(beta_header(true, false).unwrap(), "oauth-2025-04-20");
    assert!(beta_header(true, true).unwrap().contains(','));
}

#[test]
fn a_request_names_the_model_and_the_usage_is_read_back() {
    let mut body = plan_request(&Ask::new("g"), &Ctx::new(&world(), &CompileOptions::default()));
    complete_request(&mut body, "m", "low", true);
    let text = Json::Obj(body).to_string();
    assert!(text.contains(r#""model":"m""#) && text.contains(r#""effort":"low""#) && text.contains(r#""fallbacks":"default""#));
    assert_eq!(usage(&read(r#"{"usage": {"input_tokens": 7, "cache_read_input_tokens": 3, "output_tokens": 2}}"#)), (10, 2));
    assert_eq!(usage(&Json::Null), (0, 0));
}

/// A reply whose only content is a text.
fn said(text: &str) -> Json {
    read(&format!("{{\"content\": [{{\"type\": \"text\", \"text\": {}}}]}}", Json::Str(text.to_string()).to_string()))
}

#[test]
fn an_intent_is_read_from_the_text_of_a_reply() {
    let i = read_intent(&said("Here: {\"wants\": [\"a(x=1).exists\", 7], \"forks\": [{\"when\": \"w\", \"ask\": \"q\"}]} done"), &task()).unwrap();
    assert_eq!(i.wants, ["a(x=1).exists"]);
    assert_eq!((i.goal.as_str(), i.forks.len(), i.forks[0].ask.as_str()), (task().goal.as_str(), 1, "q"));
    let i = read_intent(&said("emit_intentcallwants=[\"b(y=2).exists\"]"), &task()).unwrap();
    assert_eq!(i.wants, ["b(y=2).exists"]);
    let e = read_intent(&said("{\"wants\": }"), &task()).unwrap_err();
    assert_eq!(e, serde_json::from_str::<serde_json::Value>("{\"wants\": }").unwrap_err().to_string());
    assert_eq!(read_intent(&said("no idea"), &task()).unwrap_err(), "planner emitted no intent: no idea");
}

#[test]
fn a_reply_without_an_intent_is_an_empty_one_and_is_noted() {
    let mut ledger = Ledger::new(0);
    let i = hear_intent(&said("no idea"), &task(), &mut ledger);
    assert!(i.wants.is_empty() && i.forks.is_empty());
    assert_eq!(ledger.notes.len(), 1);
    assert_eq!(ledger.notes[0].get("unparseable").unwrap().to_string(), "\"planner emitted no intent: no idea\"");
}

#[test]
fn what_the_model_says_is_read_tried_again_or_told() {
    assert!(matches!(hear_reply(200, 1, None, "{\"a\": [1]}"), Heard::Reply(v) if v.to_string() == "{\"a\":[1]}"));
    assert!(matches!(hear_reply(200, 1, None, "{"), Heard::Failed(e) if e.contains("EOF")));
    assert!(matches!(hear_reply(429, 1, Some(3), "busy"), Heard::Again(3000)));
    assert!(matches!(hear_reply(529, 6, None, "busy"), Heard::Failed(e) if e == "model API 529: busy"));
    assert!(matches!(hear_reply(400, 1, None, "no"), Heard::Failed(e) if e == "model API 400: no"));
}

#[test]
fn tokens_are_summed_only_where_they_fit() {
    assert!(usage_fits(&read(r#"{"usage": {"input_tokens": 7, "cache_read_input_tokens": 3}}"#)));
    assert!(!usage_fits(&read(r#"{"usage": {"input_tokens": 18446744073709551615, "cache_read_input_tokens": 1}}"#)));
    assert!(usage_fits(&Json::Null));
}

#[test]
fn a_fork_is_asked_with_its_evidence_over_several_lines() {
    let (w, opts) = (world(), CompileOptions::default());
    let ctx = Ctx::new(&w, &opts);
    let prior = Intent { wants: vec!["a(x=1).exists".to_string()], ..Default::default() };
    let prompt = fork_question(&task(), &ctx, &prior, "Which?", &read(r#"{"count": 2, "rows": []}"#));
    assert!(prompt.contains("with a question:\n  Which?\nEvidence:\n{\n  \"count\": 2,\n  \"rows\": []\n}\n\nYour intent was:\n  a(x=1).exists\n\n"), "{prompt}");
}

#[test]
fn an_answer_to_a_fork_goes_back_once() {
    let (w, opts) = (world(), CompileOptions::default());
    let ctx = Ctx::new(&w, &opts);
    let mut ledger = Ledger::new(0);
    let bad = Intent::default();
    let first = first_answer();
    assert_eq!((first.kind, first.reasks), (SampleKind::ForkAnswer, 0));
    let (v, second) = take_answer(&ctx, "p", &bad, first, &mut ledger);
    assert!(matches!(v, Verdict::AskAgain(_)));
    assert_eq!((second.kind, second.reasks), (SampleKind::ForkAnswer, 1));
    let (v, third) = take_answer(&ctx, "p", &bad, second, &mut ledger);
    assert!(matches!(v, Verdict::GiveUp(_)));
    assert_eq!(third, second);
}

#[test]
fn a_plan_goes_back_twice_as_a_lint_sample() {
    let (w, opts) = (world(), CompileOptions::default());
    let ctx = Ctx::new(&w, &opts);
    let mut ledger = Ledger::new(0);
    let mut turn = first_turn();
    let mut kinds = vec![turn.kind];
    while let (Verdict::AskAgain(_), next) = take_turn(&task(), &ctx, &Intent::default(), turn, &mut ledger) {
        turn = next;
        kinds.push(turn.kind);
    }
    assert_eq!(kinds, [SampleKind::Plan, SampleKind::Lint, SampleKind::Lint]);
    assert_eq!(turn.reasks, 2);
}
