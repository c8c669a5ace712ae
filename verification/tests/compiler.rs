//! Compiling wants into a plan, against the world model of the invoicing app.

use std::collections::HashSet;

use rwmcp::compiler::{compile, CompileError, CompileOptions};
use rwmcp::diff::{plan_diff, try_order, Tried};
use rwmcp::intent::Intent;
use rwmcp::json::{parse_text, Json};
use rwmcp::openapi::DocError;
use rwmcp::plan::{Arg, Node, Plan};
use rwmcp::world::{OpKind, ParamIn, World, WorldError};
use sha2::Digest;

/// The world model of the invoicing app.
const DOC: &str = r#"{
  "openapi": "3.1.0",
  "x-reverse-webmcp-entities": {
    "customer": {"id": "id", "fields": ["name", "email"]},
    "invoice": {"id": "id", "fields": ["customer", "amount_cents", "status", "approved", "receipt_sent"]},
    "report": {"id": "id", "fields": ["invoices", "total_cents"]}
  },
  "paths": {
    "/api/customers": {
      "get": {
        "operationId": "listCustomers",
        "parameters": [{"name": "name", "in": "query"}],
        "x-reverse-webmcp": {
          "post": "customer(name=$name).resolved",
          "produces": "customer",
          "reads": ["customer:*"],
          "surfaces": {"api": 1, "mcp": 2, "webmcp": 3},
          "fork": {"when": "result.count != 1", "ask": "Which customer named $name?"}
        }
      }
    },
    "/api/invoices": {
      "post": {
        "operationId": "createInvoice",
        "requestBody": {"content": {"application/json": {"schema": {"properties": {"customer_id": {}, "amount_cents": {}}}}}},
        "x-reverse-webmcp": {
          "post": "invoice(customer=$customer_id).exists",
          "requires": ["customer(id=$customer_id).exists"],
          "produces": "invoice",
          "reads": ["customer:$customer_id"],
          "writes": ["invoice:new"],
          "defaults": {"amount_cents": 10000},
          "surfaces": {"api": 1, "mcp": 2, "webmcp": 3}
        }
      }
    },
    "/api/invoices/{id}": {
      "get": {
        "operationId": "getInvoice",
        "parameters": [{"name": "id", "in": "path"}],
        "x-reverse-webmcp": {"reads": ["invoice:$id"], "surfaces": {"api": 1, "mcp": 2}}
      }
    },
    "/api/invoices/{id}/receipt": {
      "post": {
        "operationId": "sendReceipt",
        "parameters": [{"name": "id", "in": "path"}],
        "x-reverse-webmcp": {
          "post": "invoice(id=$id).receipt_sent=true",
          "requires": ["invoice(id=$id).status='paid'"],
          "reads": ["invoice:$id"],
          "writes": ["invoice:$id"],
          "external": true,
          "surfaces": {"api": 1, "mcp": 2}
        }
      }
    },
    "/api/invoices/{id}/send": {
      "post": {
        "operationId": "sendInvoice",
        "parameters": [{"name": "id", "in": "path"}],
        "x-reverse-webmcp": {
          "post": "invoice(id=$id).status='sent'",
          "requires": ["invoice(id=$id).exists"],
          "reads": ["invoice:$id"],
          "writes": ["invoice:$id"],
          "external": true,
          "before": ["sendReceipt"],
          "surfaces": {"api": 1, "mcp": 2, "webmcp": 3}
        }
      }
    },
    "/api/reports": {
      "post": {
        "operationId": "createReport",
        "requestBody": {"content": {"application/json": {"schema": {"properties": {"invoice_ids": {}}}}}},
        "x-reverse-webmcp": {
          "post": "report(invoices=$invoice_ids).exists",
          "requires": ["invoice(id=$invoice_ids[]).exists"],
          "produces": "report",
          "reads": ["invoice:$invoice_ids[]"],
          "writes": ["report:new"],
          "surfaces": {"api": 1, "mcp": 2}
        }
      }
    }
  },
  "x-reverse-webmcp-ui": {
    "approveInvoice": {
      "post": "invoice(id=$id).approved=true",
      "requires": ["invoice(id=$id).exists"],
      "reads": ["invoice:$id"],
      "writes": ["invoice:$id"],
      "route": "/invoices/{id}",
      "control": {"role": "button", "name": "Approve invoice {id}"},
      "before": ["sendInvoice", "sendReceipt"],
      "surfaces": {"a11y": 5, "pixels": 9}
    }
  },
  "x-reverse-webmcp-events": {
    "payment.received": {
      "post": "invoice(id=$id).status='paid'",
      "check": {"op": "getInvoice", "arg": "id", "field": "status", "value": "paid"}
    }
  }
}"#;

fn read(text: &str) -> Json {
    parse_text(text).unwrap()
}

fn world() -> World {
    World::from_openapi(&read(DOC)).unwrap()
}

fn intent(wants: &[&str]) -> Intent {
    Intent { goal: "test".to_string(), wants: wants.iter().map(|s| s.to_string()).collect(), ..Default::default() }
}

fn surfaces(names: &[&str]) -> CompileOptions {
    CompileOptions { plan_id: "p".to_string(), surfaces: names.iter().map(|s| s.to_string()).collect() }
}

fn wants(strings: &[String]) -> Intent {
    intent(&strings.iter().map(|s| s.as_str()).collect::<Vec<_>>())
}

#[test]
fn two_customers_are_two_lanes() {
    let plan = compile(
        &intent(&[
            "invoice(customer=customer(name='Acme')).exists",
            "invoice(customer=customer(name='Acme')).status='sent'",
            "invoice(customer=customer(name='Globex')).exists",
            "invoice(customer=customer(name='Globex')).status='sent'",
        ]),
        &world(),
        &CompileOptions::default(),
    )
    .unwrap();
    println!("{}", plan.render());
    // lookup, create, send per customer
    assert_eq!(plan.nodes.len(), 6);
    // No edge crosses from the Acme lane into the Globex lane.
    let lane_a: HashSet<&str> = ["A", "B", "C"].into();
    for (x, y) in &plan.edges {
        assert_eq!(lane_a.contains(x.as_str()), lane_a.contains(y.as_str()), "edge {x}->{y} crosses lanes");
    }
    assert_eq!(plan.depth(), 3);
    assert!(plan.node("B").unwrap().key.is_some());
    assert!(plan.node("A").unwrap().key.is_none());
    assert!(plan.node("A").unwrap().fork.is_some());
}

/// Walk args back to the lookup node and read the customer name this lane is about.
fn lane_name(plan: &Plan, node: &Node) -> String {
    let mut cur = node;
    loop {
        for (k, a) in &cur.args {
            if let (true, Arg::Lit(Json::Str(name))) = (k == "name", a) {
                return name.clone();
            }
        }
        let next = cur.args.iter().flat_map(|(_, a)| a.refs()).next().expect("a ref back to the lookup");
        cur = plan.node(&next).unwrap();
    }
}

#[test]
fn each_fans_out_into_independent_lanes() {
    let plan = compile(
        &intent(&[
            "invoice(customer=customer(name=each(['Acme','Globex','Initech']))).exists",
            "invoice(customer=customer(name=each(['Acme','Globex','Initech']))).status='sent'",
        ]),
        &world(),
        &CompileOptions::default(),
    )
    .unwrap();
    assert_eq!(plan.nodes.len(), 9, "{}", plan.render());
    assert_eq!(plan.depth(), 3);
    assert_eq!(plan.nodes.iter().filter(|n| n.op == "sendInvoice").count(), 3);
    // Same keys as the fully written-out form.
    let long = compile(
        &intent(&[
            "invoice(customer=customer(name='Acme')).exists",
            "invoice(customer=customer(name='Globex')).exists",
            "invoice(customer=customer(name='Initech')).exists",
            "invoice(customer=customer(name='Acme')).status='sent'",
            "invoice(customer=customer(name='Globex')).status='sent'",
            "invoice(customer=customer(name='Initech')).status='sent'",
        ]),
        &world(),
        &CompileOptions::default(),
    )
    .unwrap();
    let mut k1: Vec<_> = plan.nodes.iter().filter_map(|n| n.key.clone()).collect();
    let mut k2: Vec<_> = long.nodes.iter().filter_map(|n| n.key.clone()).collect();
    k1.sort();
    k2.sort();
    assert_eq!(k1, k2);
}

#[test]
fn three_hundred_lanes_compile_fast() {
    let names: Vec<String> = (1..=300).map(|i| format!("'Customer {i:03}'")).collect();
    let list = names.join(",");
    let t0 = std::time::Instant::now();
    let plan = compile(
        &intent(&[
            &format!("invoice(customer=customer(name=each([{list}]))).exists"),
            &format!("invoice(customer=customer(name=each([{list}]))).status='sent'"),
        ]),
        &world(),
        &CompileOptions::default(),
    )
    .unwrap();
    let took = t0.elapsed();
    assert_eq!(plan.nodes.len(), 900);
    assert_eq!(plan.depth(), 3);
    // The generous bound here only has to catch a return to quadratic.
    assert!(took < std::time::Duration::from_secs(10), "compile took {took:?}");
}

#[test]
fn one_report_over_every_invoice_from_one_want() {
    let plan = compile(
        &intent(&[
            "invoice(customer=each([customer(name='Acme'),customer(name='Globex'),customer(name='Initech')])).exists",
            "invoice(customer=each([customer(name='Acme'),customer(name='Globex'),customer(name='Initech')])).status='sent'",
            "report(invoices=[all(invoice(customer=each([customer(name='Acme'),customer(name='Globex'),customer(name='Initech')])))]).exists",
        ]),
        &world(),
        &CompileOptions::default(),
    )
    .unwrap();
    assert_eq!(plan.nodes.iter().filter(|n| n.op == "createReport").count(), 1, "{}", plan.render());
    assert_eq!(plan.nodes.iter().filter(|n| n.op == "sendInvoice").count(), 3);
    let report = plan.nodes.iter().find(|n| n.op == "createReport").unwrap();
    assert_eq!(plan.preds_of(&report.id).len(), 3, "the report joins all three lanes");
}

/// The order the wants were written in must not change the plan.
#[test]
fn edges_follow_the_data_not_the_want_order() {
    let two = "each([customer(name='Acme'),customer(name='Globex')])";
    let natural = wants(&[
        format!("invoice(customer={two}).exists"),
        format!("invoice(customer={two}).status='sent'"),
        format!("report(invoices=[all(invoice(customer={two}))]).exists"),
    ]);
    let mut reversed = natural.clone();
    reversed.wants.reverse();
    for (name, i) in [("natural", &natural), ("reversed", &reversed)] {
        let plan = compile(i, &world(), &CompileOptions::default()).unwrap();
        let report = plan.nodes.iter().find(|n| n.op == "createReport").unwrap();
        let sends: Vec<&Node> = plan.nodes.iter().filter(|n| n.op == "sendInvoice").collect();
        assert_eq!(sends.len(), 2, "{name}\n{}", plan.render());
        for s in &sends {
            assert!(reaches(&plan, &s.id, &report.id), "{name}: the report must wait for send {}\n{}", s.id, plan.render());
            assert!(!reaches(&plan, &report.id, &s.id), "{name}: the report must not precede send {}", s.id);
        }
    }
}

/// Approval precedes sending because the world model says so, not because of want order.
#[test]
fn declared_precedence_orders_two_writers() {
    let one = "customer(name='Acme')";
    let opts = surfaces(&["api", "a11y"]);
    for ws in [
        vec![format!("invoice(customer={one}).approved=true"), format!("invoice(customer={one}).status='sent'")],
        vec![format!("invoice(customer={one}).status='sent'"), format!("invoice(customer={one}).approved=true")],
    ] {
        let plan = compile(&wants(&ws), &world(), &opts).unwrap();
        let approve = plan.nodes.iter().find(|n| n.op == "approveInvoice").unwrap();
        let send = plan.nodes.iter().find(|n| n.op == "sendInvoice").unwrap();
        assert!(reaches(&plan, &approve.id, &send.id), "approve before send\n{}", plan.render());
        assert!(!reaches(&plan, &send.id, &approve.id));
    }
}

fn reaches(plan: &Plan, from: &str, to: &str) -> bool {
    let mut stack = vec![from.to_string()];
    let mut seen = HashSet::new();
    while let Some(x) = stack.pop() {
        for (a, b) in &plan.edges {
            if *a == x && seen.insert(b.clone()) {
                if b == to {
                    return true;
                }
                stack.push(b.clone());
            }
        }
    }
    false
}

#[test]
fn keys_survive_node_renumbering() {
    let a = intent(&[
        "invoice(customer=customer(name='Acme')).exists",
        "invoice(customer=customer(name='Acme')).status='sent'",
        "invoice(customer=customer(name='Globex')).exists",
        "invoice(customer=customer(name='Globex')).status='sent'",
    ]);
    let mut reversed = a.clone();
    reversed.wants.reverse();
    let p1 = compile(&a, &world(), &CompileOptions::default()).unwrap();
    let p2 = compile(&reversed, &world(), &CompileOptions::default()).unwrap();
    let send = |p: &Plan, name: &str| p.nodes.iter().find(|n| n.op == "sendInvoice" && lane_name(p, n) == name).cloned().unwrap();
    let (s1, s2) = (send(&p1, "Acme"), send(&p2, "Acme"));
    assert_ne!(s1.id, s2.id, "the node was renumbered");
    assert_eq!(s1.key, s2.key, "but its key is the same");
    assert_ne!(send(&p1, "Acme").key, send(&p1, "Globex").key);
    assert!(s1.key.as_deref().unwrap().starts_with("plan/"));
    assert_eq!(s1.key.as_deref().unwrap().len(), "plan/".len() + 16);
}

#[test]
fn a_literal_id_needs_no_lookup_and_no_fork() {
    let plan = compile(
        &intent(&["invoice(customer=customer(id=11)).exists", "invoice(customer=customer(id=11)).status='sent'"]),
        &world(),
        &CompileOptions::default(),
    )
    .unwrap();
    assert_eq!(plan.nodes.len(), 2, "{}", plan.render());
    assert!(plan.nodes.iter().all(|n| n.op != "listCustomers"));
    let a = plan.node("A").unwrap();
    let (_, arg) = a.args.iter().find(|(k, _)| k == "customer_id").unwrap();
    assert!(matches!(arg, Arg::Lit(Json::Int(11))));
}

#[test]
fn report_waits_for_sends_and_emails_start_early() {
    let plan = compile(
        &intent(&[
            "invoice(customer=customer(name='Acme')).exists",
            "invoice(customer=customer(name='Acme')).status='sent'",
            "invoice(customer=customer(name='Globex')).exists",
            "invoice(customer=customer(name='Globex')).status='sent'",
            "invoice(customer=customer(name='Initech')).exists",
            "invoice(customer=customer(name='Initech')).status='sent'",
            "report(invoices=[invoice(customer=customer(name='Acme')),invoice(customer=customer(name='Globex')),invoice(customer=customer(name='Initech'))]).exists",
        ]),
        &world(),
        &CompileOptions::default(),
    )
    .unwrap();
    println!("{}", plan.render());
    let report = plan.nodes.iter().find(|n| n.op == "createReport").unwrap();
    let sends: Vec<&Node> = plan.nodes.iter().filter(|n| n.op == "sendInvoice").collect();
    assert_eq!(sends.len(), 3);
    let preds = plan.preds_of(&report.id);
    for s in &sends {
        assert!(preds.contains(&s.id.as_str()), "report must wait for send {}", s.id);
    }
    // Each send depends only on its own create, never on another lane's.
    for s in &sends {
        assert_eq!(plan.preds_of(&s.id).len(), 1);
    }
}

#[test]
fn receipt_waits_on_the_payment_event() {
    let plan = compile(
        &intent(&[
            "invoice(customer=customer(name='Acme')).exists",
            "invoice(customer=customer(name='Acme')).status='sent'",
            "invoice(customer=customer(name='Acme')).receipt_sent=true",
        ]),
        &world(),
        &CompileOptions::default(),
    )
    .unwrap();
    println!("{}", plan.render());
    let wait = plan.nodes.iter().find(|n| n.kind == OpKind::Event).expect("a wait node");
    assert_eq!(wait.op, "payment.received");
    let receipt = plan.nodes.iter().find(|n| n.op == "sendReceipt").unwrap();
    assert!(plan.preds_of(&receipt.id).contains(&wait.id.as_str()));
}

#[test]
fn ui_only_approve_needs_a_screen_surface() {
    let i = intent(&["invoice(customer=customer(name='Acme')).exists", "invoice(customer=customer(name='Acme')).approved=true"]);
    let err = compile(&i, &world(), &CompileOptions::default()).unwrap_err();
    assert!(matches!(err, CompileError::NoSurface(..)), "{}", err.to_string());
    let plan = compile(&i, &world(), &surfaces(&["api", "a11y"])).unwrap();
    let approve = plan.nodes.iter().find(|n| n.op == "approveInvoice").unwrap();
    assert_eq!(approve.surface, "a11y");
    assert_eq!(approve.kind, OpKind::Ui);
}

#[test]
fn world_derives_from_the_target_app_spec() {
    let w = world();
    assert!(w.op("createInvoice").is_some());
    assert_eq!(w.op("createInvoice").unwrap().params.iter().filter(|p| p.location == ParamIn::Body).count(), 2);
    assert_eq!(w.op("sendInvoice").unwrap().params[0].location, ParamIn::Path);
    assert_eq!(w.op("approveInvoice").unwrap().kind, OpKind::Ui);
    assert_eq!(w.op("payment.received").unwrap().kind, OpKind::Event);
    assert!(w.summary().contains("invoice(id=$id).status='sent'"));
}

#[test]
fn every_refusal_of_the_compiler_comes_up() {
    let w = world();
    let o = CompileOptions::default();
    let refused = |wants: &[&str]| compile(&intent(wants), &w, &o).unwrap_err();
    assert!(matches!(refused(&[]), CompileError::Empty));
    assert!(matches!(refused(&["invoice("]), CompileError::Parse(..)));
    assert!(matches!(refused(&["widget(name='x').exists"]), CompileError::Unsatisfiable(..)));
    assert!(matches!(refused(&["customer(name=$who).exists"]), CompileError::Unbound(..)));
    assert_eq!(
        refused(&["invoice("]).to_string(),
        "cannot parse want 'invoice(': expected identifier at byte 8"
    );
    // Approval needs a sent invoice, and must come before the sending.
    let doc = DOC.replace(
        "approved=true\",\n      \"requires\": [\"invoice(id=$id).exists\"]",
        "approved=true\",\n      \"requires\": [\"invoice(id=$id).status='sent'\"]",
    );
    assert_ne!(doc, DOC);
    let looped = World::from_openapi(&read(&doc)).unwrap();
    let e = compile(&intent(&["invoice(customer=customer(id=1)).approved=true"]), &looped, &surfaces(&["api", "a11y"])).unwrap_err();
    assert!(matches!(e, CompileError::Cycle(..)), "{}", e.to_string());
    assert!(e.to_string().contains("B \u{2192} C \u{2192} B"), "{}", e.to_string());
}

#[test]
fn a_document_that_describes_nothing_is_refused() {
    assert!(matches!(World::from_openapi(&read("{}")), Err(WorldError::NoPaths)));
    let nameless = r#"{"paths": {"/a": {"get": {"x-reverse-webmcp": {}}}}}"#;
    assert!(matches!(World::from_openapi(&read(nameless)), Err(WorldError::MissingOperationId { .. })));
    let wrong = r#"{"paths": {"/a": {"get": {"operationId": "a", "x-reverse-webmcp": {"post": "a("}}}}}"#;
    assert!(matches!(World::from_openapi(&read(wrong)), Err(WorldError::Predicate { .. })));
    // The method of an operation is written in capitals.
    let plain = r#"{"paths": {"/a": {"get": {"operationId": "a", "x-reverse-webmcp": {}}}}}"#;
    assert_eq!(World::from_openapi(&read(plain)).unwrap().op("a").unwrap().method, "GET");
}

#[test]
fn a_world_model_is_checked() {
    assert_eq!(world().validate().iter().filter(|f| f.fatal).count(), 0);
    let w = World::from_openapi(&read(&DOC.replace("invoice:$id\"", "invoice:$nr\""))).unwrap();
    assert!(w.validate().iter().any(|f| f.fatal && f.code == "unbound_footprint_param"));
    let w = World::from_openapi(&read(&DOC.replace("\"before\": [\"sendReceipt\"]", "\"before\": [\"nowhere\"]"))).unwrap();
    assert!(w.validate().iter().any(|f| f.fatal && f.code == "before_unknown_op"));
    let w = World::from_openapi(&read(r#"{"paths": {}}"#)).unwrap();
    let codes: Vec<&str> = w.validate().iter().map(|f| f.code).collect();
    assert_eq!(codes, ["no_entities", "nothing_plannable"]);
}

#[test]
fn a_fingerprint_ignores_the_order_of_fields() {
    let a = world().fingerprint();
    let b = World::from_openapi(&read(&DOC.replace("[\"name\", \"email\"]", "[\"email\", \"name\"]"))).unwrap().fingerprint();
    assert_eq!(a, b);
    assert_eq!(a.len(), 32);
    assert!(a.chars().all(|c| c.is_ascii_hexdigit()));
    let c = World::from_openapi(&read(&DOC.replace("[\"name\", \"email\"]", "[\"email\"]"))).unwrap().fingerprint();
    assert_ne!(a, c);
}

#[test]
fn a_fingerprint_is_the_hash_of_the_model() {
    let doc = r#"{"x-reverse-webmcp-entities": {"a": {"id": "id", "fields": ["z", "y"]}}, "paths": {}}"#;
    let text = "l2:l0:l1:l3:s1:as2:idl2:s1:ys1:z";
    let digest = sha2::Sha256::digest(text.as_bytes());
    assert_eq!(World::from_openapi(&read(doc)).unwrap().fingerprint(), hex::encode(&digest[..16]));
}

#[test]
fn the_other_order_gives_the_same_plan() {
    let i = intent(&[
        "invoice(customer=customer(name='Acme')).status='sent'",
        "report(invoices=[invoice(customer=customer(name='Acme'))]).exists",
    ]);
    match try_order(&i, &world(), &CompileOptions::default()) {
        Some(Tried::Compared(p, d)) => {
            assert_eq!(p.nodes.len(), 4);
            assert!(d.is_empty(), "{d:?}");
        }
        _ => panic!("both ways compile"),
    }
}

#[test]
fn plans_that_differ_say_how() {
    let w = world();
    let o = CompileOptions::default();
    let a = compile(&intent(&["invoice(customer=customer(name='Acme')).exists"]), &w, &o).unwrap();
    let b = compile(&intent(&["invoice(customer=customer(name='Acme')).status='sent'"]), &w, &o).unwrap();
    assert_eq!(
        plan_diff(&a, &b),
        ["2 steps one way, 3 the other", "2 deep one way, 3 the other", "only in the reversed order: createInvoice -> sendInvoice"]
    );
    assert!(plan_diff(&a, &a).is_empty());
}

#[test]
fn a_document_without_blocks_plans_nothing() {
    // The blocks go by another name here, so none is seen.
    let w = World::from_openapi(&read(&DOC.replace("x-reverse-webmcp", "x-other"))).unwrap();
    assert_eq!(w.ops.len(), 0);
    let e = compile(&intent(&["invoice(customer=customer(name='Acme')).exists"]), &w, &surfaces(&["api"])).unwrap_err();
    assert!(matches!(e, CompileError::Unsatisfiable(..)), "{}", e.to_string());
    let e = compile(&intent(&["invoice(id=$A.id).exists"]), &w, &surfaces(&["api"])).unwrap_err();
    assert!(matches!(e, CompileError::Empty), "{}", e.to_string());
}

#[test]
fn nodes_are_named_by_their_places_and_edges_join_them() {
    let names: Vec<String> = (0..30).map(|k| format!("invoice(customer=customer(name='N{k}')).exists")).collect();
    let p = compile(&wants(&names), &world(), &surfaces(&["api"])).unwrap();
    let ids: Vec<&str> = p.nodes.iter().map(|n| n.id.as_str()).collect();
    assert_eq!(&ids[..2], &["A", "B"]);
    assert_eq!(&ids[25..28], &["Z", "A1", "B1"]);
    for (a, b) in &p.edges {
        assert!(ids.contains(&a.as_str()) && ids.contains(&b.as_str()));
    }
    // A want that names a node the plan does not have waits for it in vain.
    let p = compile(&intent(&["invoice(customer=$Z.id).exists"]), &world(), &surfaces(&["api"])).unwrap();
    assert_eq!(p.edges, vec![("Z".to_string(), "A".to_string())]);
}

#[test]
fn a_fingerprint_shows_whatever_a_plan_depends_on() {
    let a = world().fingerprint();
    for (from, to) in [
        ("{\"amount_cents\": 10000}", "{\"amount_cents\": 20000}"),
        ("\"before\": [\"sendReceipt\"]", "\"before\": []"),
        ("Which customer named $name?", "Which one is $name?"),
        ("\"writes\": [\"invoice:new\"]", "\"writes\": [\"invoice:*\"]"),
        ("\"requires\": [\"customer(id=$customer_id).exists\"]", "\"requires\": []"),
        ("{\"a11y\": 5, \"pixels\": 9}", "{\"a11y\": 6, \"pixels\": 9}"),
    ] {
        assert!(DOC.contains(from), "{from}");
        assert_ne!(a, World::from_openapi(&read(&DOC.replacen(from, to, 1))).unwrap().fingerprint(), "{from}");
    }
}

fn keys(p: &Plan) -> Vec<String> {
    let mut ks: Vec<String> = p.nodes.iter().filter_map(|n| n.key.clone()).collect();
    ks.sort();
    ks
}

/// The edges of a plan, its nodes shown by operation, surface and key.
fn shape(p: &Plan) -> Vec<String> {
    let show = |id: &str| {
        let n = p.node(id).unwrap();
        format!("{} {} {:?} {:?}", n.op, n.surface, n.key, lane_name(p, n))
    };
    let mut es: Vec<String> = p.edges.iter().map(|(a, b)| format!("{} -> {}", show(a), show(b))).collect();
    es.sort();
    es
}

#[test]
fn the_order_of_wants_does_not_show() {
    let mut ws = vec![
        "invoice(customer=customer(name='Acme')).status='sent'".to_string(),
        "invoice(customer=customer(name='Globex')).exists".to_string(),
        "invoice(customer=customer(name='Acme')).exists".to_string(),
        "invoice(customer=customer(name='Caf\u{e9}')).status='sent'".to_string(),
        "invoice(customer=customer(name='B\\\\')).exists".to_string(),
    ];
    let o = surfaces(&["api"]);
    let first = compile(&wants(&ws), &world(), &o).unwrap();
    assert_eq!(keys(&first).len(), 6);
    for _ in 0..4 {
        ws.rotate_left(1);
        let other = compile(&wants(&ws), &world(), &o).unwrap();
        assert_eq!(other.nodes.len(), first.nodes.len());
        assert_eq!(keys(&other), keys(&first));
        assert_eq!(shape(&other), shape(&first));
    }
    ws.reverse();
    assert_eq!(keys(&compile(&wants(&ws), &world(), &o).unwrap()), keys(&first));
}

#[test]
fn a_key_is_the_plan_id_and_sixteen_digits() {
    let p = compile(&intent(&["invoice(customer=customer(name='Acme')).status='sent'"]), &world(), &surfaces(&["api"])).unwrap();
    for n in &p.nodes {
        assert_eq!(n.key.is_some(), n.kind == OpKind::Http && !n.writes.is_empty(), "{}", n.op);
        if let Some(k) = &n.key {
            let (id, hash) = k.split_once('/').unwrap();
            assert_eq!((id, hash.len()), ("p", 16));
            assert!(hash.chars().all(|c| c.is_ascii_digit() || ('a'..='f').contains(&c)), "{k}");
        }
    }
}

#[test]
fn plans_under_different_ids_share_no_key() {
    let i = intent(&["invoice(customer=customer(name='Acme')).status='sent'"]);
    let under = |id: &str| {
        let o = CompileOptions { plan_id: id.to_string(), ..surfaces(&["api"]) };
        keys(&compile(&i, &world(), &o).unwrap())
    };
    assert_eq!(under("p"), under("p"));
    assert!(under("p").iter().all(|k| !under("q").contains(k) && !under("p/q").contains(k)));
}

#[test]
fn a_world_model_is_read_from_text() {
    assert_eq!(World::from_text(DOC).unwrap().fingerprint(), world().fingerprint());
    let e = World::from_text("{").unwrap_err();
    assert!(matches!(&e, DocError::Json(m) if m.starts_with("EOF")));
    assert!(e.to_string().starts_with("EOF"));
    let e = World::from_text("{}").unwrap_err();
    assert!(matches!(&e, DocError::World(WorldError::NoPaths)));
    assert_eq!(e.to_string(), WorldError::NoPaths.to_string());
}

#[test]
fn reversed_wants_keep_the_keys_whatever_their_strings() {
    let mut ws = vec![
        "invoice(customer=customer(name='@A')).status='sent'".to_string(),
        "invoice(customer=customer(name='@B')).exists".to_string(),
    ];
    let o = surfaces(&["api"]);
    let first = keys(&compile(&wants(&ws), &world(), &o).unwrap());
    ws.reverse();
    assert_eq!(keys(&compile(&wants(&ws), &world(), &o).unwrap()), first);
}
