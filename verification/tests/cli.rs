//! What the command line decides and says.

use rwmcp::act::{check_order, plan_wants, recompile, take_wants};
use rwmcp::cli::{apply_answers, check_surfaces, conclude, describe, may_run, plural, Exit};
use rwmcp::compiler::CompileOptions;
use rwmcp::intent::Intent;
use rwmcp::json::{as_list, parse_text, Json};
use rwmcp::ledger::{Ledger, Receipt, Row, Status};
use rwmcp::plan::Plan;
use rwmcp::recipes::{app_for, bindings, fill, placeholders, read_number, read_wants, Recipe};
use rwmcp::show::{
    fork_step, list_line, order_report, receipt_text, review, show_world, unplannable, wants_from, ForkStep, WantsFrom,
};
use rwmcp::skeleton::init_blocks;
use rwmcp::world::World;

/// The world model of the invoicing app.
const DOC: &str = r#"{
  "openapi": "3.1.0",
  "x-reverse-webmcp-entities": {
    "customer": {"id": "id", "fields": ["name", "email"]},
    "invoice": {"id": "id", "fields": ["customer", "amount_cents", "status", "approved", "receipt_sent"]},
    "report": {"id": "id", "fields": ["invoices", "total_cents"]}
  },
  "paths": {
    "/api/customers": {
      "get": {
        "operationId": "listCustomers",
        "parameters": [{"name": "name", "in": "query"}],
        "x-reverse-webmcp": {
          "post": "customer(name=$name).resolved",
          "produces": "customer",
          "reads": ["customer:*"],
          "surfaces": {"api": 1, "mcp": 2, "webmcp": 3},
          "fork": {"when": "result.count != 1", "ask": "Which customer named $name?"}
        }
      }
    },
    "/api/invoices": {
      "post": {
        "operationId": "createInvoice",
        "requestBody": {"content": {"application/json": {"schema": {"properties": {"customer_id": {}, "amount_cents": {}}}}}},
        "x-reverse-webmcp": {
          "post": "invoice(customer=$customer_id).exists",
          "requires": ["customer(id=$customer_id).exists"],
          "produces": "invoice",
          "reads": ["customer:$customer_id"],
          "writes": ["invoice:new"],
          "defaults": {"amount_cents": 10000},
          "surfaces": {"api": 1, "mcp": 2, "webmcp": 3}
        }
      }
    },
    "/api/invoices/{id}": {
      "get": {
        "operationId": "getInvoice",
        "parameters": [{"name": "id", "in": "path"}],
        "x-reverse-webmcp": {"reads": ["invoice:$id"], "surfaces": {"api": 1, "mcp": 2}}
      }
    },
    "/api/invoices/{id}/receipt": {
      "post": {
        "operationId": "sendReceipt",
        "parameters": [{"name": "id", "in": "path"}],
        "x-reverse-webmcp": {
          "post": "invoice(id=$id).receipt_sent=true",
          "requires": ["invoice(id=$id).status='paid'"],
          "reads": ["invoice:$id"],
          "writes": ["invoice:$id"],
          "external": true,
          "surfaces": {"api": 1, "mcp": 2}
        }
      }
    },
    "/api/invoices/{id}/send": {
      "post": {
        "operationId": "sendInvoice",
        "parameters": [{"name": "id", "in": "path"}],
        "x-reverse-webmcp": {
          "post": "invoice(id=$id).status='sent'",
          "requires": ["invoice(id=$id).exists"],
          "reads": ["invoice:$id"],
          "writes": ["invoice:$id"],
          "external": true,
          "before": ["sendReceipt"],
          "surfaces": {"api": 1, "mcp": 2, "webmcp": 3}
        }
      }
    },
    "/api/reports": {
      "post": {
        "operationId": "createReport",
        "requestBody": {"content": {"application/json": {"schema": {"properties": {"invoice_ids": {}}}}}},
        "x-reverse-webmcp": {
          "post": "report(invoices=$invoice_ids).exists",
          "requires": ["invoice(id=$invoice_ids[]).exists"],
          "produces": "report",
          "reads": ["invoice:$invoice_ids[]"],
          "writes": ["report:new"],
          "surfaces": {"api": 1, "mcp": 2}
        }
      }
    }
  },
  "x-reverse-webmcp-ui": {
    "approveInvoice": {
      "post": "invoice(id=$id).approved=true",
      "requires": ["invoice(id=$id).exists"],
      "reads": ["invoice:$id"],
      "writes": ["invoice:$id"],
      "route": "/invoices/{id}",
      "control": {"role": "button", "name": "Approve invoice {id}"},
      "before": ["sendInvoice", "sendReceipt"],
      "surfaces": {"a11y": 5, "pixels": 9}
    }
  },
  "x-reverse-webmcp-events": {
    "payment.received": {
      "post": "invoice(id=$id).status='paid'",
      "check": {"op": "getInvoice", "arg": "id", "field": "status", "value": "paid"}
    }
  }
}"#;

fn read(text: &str) -> Json {
    parse_text(text).unwrap()
}

fn world() -> World {
    World::from_openapi(&read(DOC)).unwrap()
}

fn intent(wants: &[&str]) -> Intent {
    Intent { goal: "test".to_string(), wants: wants.iter().map(|s| s.to_string()).collect(), ..Default::default() }
}

fn strings(xs: &[&str]) -> Vec<String> {
    xs.iter().map(|s| s.to_string()).collect()
}

fn sent() -> Plan {
    plan_wants(&intent(&["invoice(customer=customer(name='Acme')).status='sent'"]), &world(), &CompileOptions::default()).ok().unwrap()
}

fn receipt(status: Status) -> Receipt {
    let plan = sent();
    let mut l = Ledger::new(0);
    l.rows.push(Row {
        node: "B".to_string(),
        op: "createInvoice".to_string(),
        surface: "api".to_string(),
        key: plan.node("B").unwrap().key.clone(),
        attempt: 1,
        started_us: 0,
        ended_us: 3000,
        ok: true,
        write: true,
        error: None,
        observed: read(r#"{"id": 12}"#),
    });
    let (q, e) = match status {
        Status::Committed => (None, None),
        Status::NeedThink => (Some("Which Acme?".to_string()), None),
        Status::Error => (None, Some("boom".to_string())),
    };
    l.receipt(&plan, status, q, None, e, 1)
}

#[test]
fn world_reports_what_the_app_can_be_asked_for() {
    let w = world();
    assert!(w.summary().contains("invoice(id=$id).status='sent'"));
    let shown = show_world(&w);
    let ops = as_list(shown.get("operations")).unwrap();
    let send = ops.iter().find(|o| o.get("op").unwrap().to_string() == "\"sendInvoice\"").unwrap();
    assert_eq!(send.get("makes_true").unwrap().to_string(), "\"invoice(id=$id).status='sent'\"");
    assert_eq!(send.get("kind").unwrap().to_string(), "\"http\"");
    assert_eq!(send.get("surfaces").unwrap().to_string(), r#"{"api":1,"mcp":2,"webmcp":3}"#);
    assert_eq!(as_list(shown.get("entities")).unwrap().len(), 3);
    assert_eq!(unplannable(&w), ["getInvoice"]);
}

#[test]
fn a_wants_file_plans_and_runs_with_no_model_call() {
    let text = "# the two things\ninvoice(customer=customer(name=$who)).exists  # make it\n\n  invoice(customer=customer(name=$who)).status='sent'\n";
    let raw = read_wants(text);
    assert_eq!(raw.len(), 2);
    assert_eq!(placeholders(&raw), ["who"]);
    let bind = bindings(&strings(&["who=Globex"])).unwrap();
    let i = take_wants("wants from w.txt", &raw, &bind).ok().unwrap();
    assert_eq!(i.wants[0], "invoice(customer=customer(name='Globex')).exists");
    let plan = plan_wants(&i, &world(), &CompileOptions::default()).ok().unwrap();
    let said = describe(&plan, 0);
    assert!(said.contains("3 steps, 3 deep."), "{said}");
    assert!(said.contains("1 step leave the system (email, money): sendInvoice"), "{said}");
    assert!(said.contains("Planning cost 0 model calls."), "{said}");
}

#[test]
fn a_dry_run_stops_before_the_first_effect() {
    let plan = sent();
    let f = may_run(false, false, &plan).unwrap();
    assert_eq!((f.exit.code(), f.code), (12, "needs_confirmation"));
    assert_eq!(f.message, "1 step(s) leave the system. Re-run with --yes once the plan above looks right.");
    assert!(may_run(false, true, &plan).is_none());
    assert_eq!(may_run(true, true, &plan).unwrap().exit.code(), 13);
}

#[test]
fn a_bad_want_is_explained_and_nothing_is_planned() {
    let f = match plan_wants(&intent(&["invoice(customer=?)"]), &world(), &CompileOptions::default()) {
        Err(f) => f,
        Ok(_) => panic!("the want does not parse"),
    };
    assert_eq!((f.exit.code(), f.code), (10, "wants_rejected"));
    assert!(f.message.starts_with("These wants do not hold up:"), "{}", f.message);
    assert!(f.message.contains("    invoice(customer=?)\n                     ^"), "{}", f.message);
    let body = f.to_json();
    assert_eq!(body.get("ok").unwrap().to_string(), "false");
    assert_eq!(body.get("code").unwrap().to_string(), "\"wants_rejected\"");
    assert_eq!(body.get("detail").unwrap().get("codes").unwrap().to_string(), "[\"unparseable\"]");
}

#[test]
fn an_openapi_file_can_be_inspected_without_a_running_app() {
    let (body, fail) = review(&world(), &world().validate());
    assert!(fail.is_none());
    assert_eq!(body.get("ok").unwrap().to_string(), "true");
    assert_eq!(body.get("entities").unwrap().to_string(), "3");
    let broken = World::from_openapi(&read(&DOC.replace("\"before\": [\"sendReceipt\"]", "\"before\": [\"nowhere\"]"))).unwrap();
    let (body, fail) = review(&broken, &broken.validate());
    let fail = fail.unwrap();
    assert_eq!((fail.exit.code(), fail.code, fail.message.as_str()), (10, "world_invalid", "1 problem(s) in the world model"));
    assert_eq!(as_list(body.get("errors")).unwrap().len(), 1);
}

#[test]
fn a_surface_nobody_offers_is_a_typo() {
    assert!(check_surfaces(&strings(&["api", "a11y"]), &world()).is_none());
    let f = check_surfaces(&strings(&["api", "apii"]), &world()).unwrap();
    assert_eq!(f.code, "unknown_surface");
    assert_eq!(f.message, "--surfaces names 'apii', which this app does not offer. It offers: a11y, api, mcp, pixels, webmcp");
}

#[test]
fn placeholders_without_values_are_asked_for() {
    let f = match take_wants("g", &strings(&["invoice(customer=$who).amount=$cents"]), &Vec::new()) {
        Err(f) => f,
        Ok(_) => panic!("nothing was bound"),
    };
    assert_eq!(f.code, "missing_parameters");
    assert_eq!(f.message, "these placeholders still need values: --set who=… --set cents=…");
    assert_eq!(f.to_json().get("detail").unwrap().to_string(), r#"{"params":["who","cents"]}"#);
}

#[test]
fn values_are_numbers_where_they_read_as_such() {
    let b = bindings(&strings(&["n=-5", " who = Acme", "big=99999999999999999999", "n=7"])).unwrap();
    let text = fill(&strings(&["a(n=$n,big=$big,who=$who).exists"]), &b);
    assert_eq!(text, ["a(n=7,big='99999999999999999999',who=' Acme').exists"], "the last value counts");
    assert_eq!(bindings(&strings(&["nothing"])).unwrap_err(), "--set wants KEY=VALUE, got \"nothing\"");
    assert_eq!(read_number("+3"), Some(3));
    assert_eq!(read_number("-9223372036854775808"), Some(i64::MIN));
    assert_eq!(read_number("9223372036854775808"), None);
    assert_eq!(read_number(""), None);
    assert_eq!(read_number("-"), None);
    assert_eq!(fill(&strings(&["a(x=$n).exists", "broken("]), &b), ["a(x=7).exists", "broken("]);
}

#[test]
fn a_recipe_remembers_its_app_and_what_it_expects() {
    let r = Recipe::keep("billing", "http://localhost:8000", "invoice every customer and send it", &strings(&["invoice(customer=$who).exists"]));
    assert_eq!(r.params, ["who"]);
    assert_eq!(app_for(None, Some(&r)), "http://localhost:8000");
    assert_eq!(app_for(Some("http://x"), Some(&r)), "http://x");
    assert_eq!(app_for(None, None), "http://127.0.0.1:47310");
    assert_eq!(
        list_line(&r),
        "billing          invoice every customer and send it http://localhost:8000        --set who=…"
    );
    assert_eq!(Recipe::path_for("dir", "billing"), "dir/billing.json");
}

#[test]
fn answers_rewrite_every_want() {
    let i = intent(&["invoice(customer=customer(name='Acme')).exists", "invoice(customer=customer(name='Acme')).status='sent'"]);
    let a = apply_answers(&i, &strings(&["customer(name='Acme') => customer(id=11)"])).ok().unwrap();
    assert_eq!(a.wants[1], "invoice(customer=customer(id=11)).status='sent'");
    for bad in ["no arrow", "Globex=>x"] {
        match apply_answers(&i, &strings(&[bad])) {
            Err(f) => assert_eq!((f.exit.code(), f.code), (10, "bad_answer")),
            Ok(_) => panic!("{bad}"),
        }
    }
}

#[test]
fn a_run_ends_with_a_number_to_branch_on() {
    let ok = conclude(&receipt(Status::Committed)).ok().unwrap();
    assert_eq!(ok.get("ok").unwrap().to_string(), "true");
    for (status, exit, code, message) in
        [(Status::NeedThink, 11, "needs_answer", "Which Acme?"), (Status::Error, 15, "run_failed", "boom")]
    {
        match conclude(&receipt(status)) {
            Err(f) => {
                assert_eq!((f.exit.code(), f.code, f.message.as_str()), (exit, code, message));
                assert_eq!(f.to_json().get("ok").unwrap().to_string(), "false");
                assert_eq!(f.to_json().get("samples").unwrap().to_string(), "0");
            }
            Ok(_) => panic!("only a commit succeeds"),
        }
    }
    assert_eq!([Exit::Done.code(), Exit::PlannerFailed.code()], [0, 14]);
}

#[test]
fn a_receipt_reads_well() {
    assert_eq!(
        receipt_text(&receipt(Status::NeedThink)),
        "\n  ok   createInvoice #12\n\nNeedThink · 0 model calls · 0 ms planning · 3 ms running · 1 at once\n\nIt stopped to ask: Which Acme?\nAnswer with --answer \"OLD=>NEW\", or --answer-with-model to let the model choose.\n"
    );
    assert!(receipt_text(&receipt(Status::Error)).ends_with("\n\nIt stopped: boom\n"));
    assert_eq!([plural(0), plural(1), plural(2)], ["s", "", "s"]);
}

#[test]
fn wants_come_from_one_place() {
    assert!(matches!(wants_from(true, true, false, false), Ok(WantsFrom::Resume)));
    assert!(matches!(wants_from(false, true, true, false), Ok(WantsFrom::Goal)));
    assert!(matches!(wants_from(false, false, true, true), Ok(WantsFrom::File)));
    assert!(matches!(wants_from(false, false, false, true), Ok(WantsFrom::Recipe)));
    match wants_from(false, false, false, false) {
        Err(f) => assert_eq!(f.code, "no_source"),
        Ok(_) => panic!("nothing was said"),
    }
    assert_eq!(fork_step(Status::NeedThink, 1, true), ForkStep::Rewrite);
    assert_eq!(fork_step(Status::NeedThink, 0, true), ForkStep::AskModel);
    assert_eq!(fork_step(Status::NeedThink, 0, false), ForkStep::Stand);
    assert_eq!(fork_step(Status::Error, 1, true), ForkStep::Stand);
}

#[test]
fn the_order_of_the_wants_is_tried_both_ways() {
    let i = intent(&["invoice(customer=customer(name='Acme')).status='sent'", "report(invoices=[invoice(customer=customer(name='Acme'))]).exists"]);
    let (plan, differences) = check_order(&i, &world(), &CompileOptions::default()).unwrap().ok().unwrap();
    let (body, fail) = order_report(i.wants.len(), plan.nodes.len(), &differences);
    assert!(fail.is_none());
    assert_eq!(body.to_string(), r#"{"differences":[],"ok":true,"steps":4,"wants":2}"#);
    let (body, fail) = order_report(1, 2, &strings(&["x"]));
    assert_eq!(body.get("ok").unwrap().to_string(), "false");
    assert_eq!(fail.unwrap().code, "order_dependent");
    match check_order(&intent(&["widget().exists"]), &world(), &CompileOptions::default()).unwrap() {
        Err(f) => assert_eq!(f.code, "compile_failed"),
        Ok(_) => panic!("nothing makes a widget"),
    }
    assert!(recompile(&i, &world(), &CompileOptions::default()).is_ok());
}

#[test]
fn a_plain_document_gets_a_block_to_fill_in() {
    let doc = read(
        r#"{"paths": {"/a": {"get": {"operationId": "listA", "parameters": [{"name": "q"}]}, "post": {}},
            "/b": {"get": {"operationId": "listB", "x-reverse-webmcp": {}}}}}"#,
    );
    let s = init_blocks(&doc).unwrap();
    assert_eq!(s.already, 1);
    let names: Vec<&str> = s.todo.iter().map(|(k, _)| k.as_str()).collect();
    assert_eq!(names, ["POST /a", "listA"]);
    assert_eq!(s.todo[1].1.get("reads").unwrap().to_string(), r#"["entity:*"]"#);
    assert_eq!(s.todo[0].1.get("writes").unwrap().to_string(), r#"["entity:new"]"#);
    assert_eq!(s.todo[1].1.get("_parameters_you_can_use").unwrap().to_string(), r#"["q"]"#);
    assert!(init_blocks(&read("{}")).is_none());
}

#[test]
fn placeholders_come_once_each_in_the_order_found() {
    assert_eq!(placeholders(&strings(&["p(a=$z,b=$a,c=$z).exists", "q(x=$m,y=$a).exists"])), ["z", "a", "m"]);
}
