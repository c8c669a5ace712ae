//! What was done and how long it took: spans, ledgers, recorded rows, events.

use std::sync::Arc;

use rwmcp::compiler::{compile, CompileOptions};
use rwmcp::events::{AppEvent, EventLog, Feed};
use rwmcp::intent::Intent;
use rwmcp::json::{parse_text, Json};
use rwmcp::ledger::{Ledger, Row, Sample, SampleKind, Status};
use rwmcp::plan::Plan;
use rwmcp::recorder::Recorder;
use rwmcp::spans::{max_overlap, union_length};
use rwmcp::world::World;

/// The world model of the invoicing app.
const DOC: &str = r#"{
  "openapi": "3.1.0",
  "x-reverse-webmcp-entities": {
    "customer": {"id": "id", "fields": ["name", "email"]},
    "invoice": {"id": "id", "fields": ["customer", "amount_cents", "status", "approved", "receipt_sent"]},
    "report": {"id": "id", "fields": ["invoices", "total_cents"]}
  },
  "paths": {
    "/api/customers": {
      "get": {
        "operationId": "listCustomers",
        "parameters": [{"name": "name", "in": "query"}],
        "x-reverse-webmcp": {
          "post": "customer(name=$name).resolved",
          "produces": "customer",
          "reads": ["customer:*"],
          "surfaces": {"api": 1, "mcp": 2, "webmcp": 3},
          "fork": {"when": "result.count != 1", "ask": "Which customer named $name?"}
        }
      }
    },
    "/api/invoices": {
      "post": {
        "operationId": "createInvoice",
        "requestBody": {"content": {"application/json": {"schema": {"properties": {"customer_id": {}, "amount_cents": {}}}}}},
        "x-reverse-webmcp": {
          "post": "invoice(customer=$customer_id).exists",
          "requires": ["customer(id=$customer_id).exists"],
          "produces": "invoice",
          "reads": ["customer:$customer_id"],
          "writes": ["invoice:new"],
          "defaults": {"amount_cents": 10000},
          "surfaces": {"api": 1, "mcp": 2, "webmcp": 3}
        }
      }
    },
    "/api/invoices/{id}": {
      "get": {
        "operationId": "getInvoice",
        "parameters": [{"name": "id", "in": "path"}],
        "x-reverse-webmcp": {"reads": ["invoice:$id"], "surfaces": {"api": 1, "mcp": 2}}
      }
    },
    "/api/invoices/{id}/receipt": {
      "post": {
        "operationId": "sendReceipt",
        "parameters": [{"name": "id", "in": "path"}],
        "x-reverse-webmcp": {
          "post": "invoice(id=$id).receipt_sent=true",
          "requires": ["invoice(id=$id).status='paid'"],
          "reads": ["invoice:$id"],
          "writes": ["invoice:$id"],
          "external": true,
          "surfaces": {"api": 1, "mcp": 2}
        }
      }
    },
    "/api/invoices/{id}/send": {
      "post": {
        "operationId": "sendInvoice",
        "parameters": [{"name": "id", "in": "path"}],
        "x-reverse-webmcp": {
          "post": "invoice(id=$id).status='sent'",
          "requires": ["invoice(id=$id).exists"],
          "reads": ["invoice:$id"],
          "writes": ["invoice:$id"],
          "external": true,
          "before": ["sendReceipt"],
          "surfaces": {"api": 1, "mcp": 2, "webmcp": 3}
        }
      }
    },
    "/api/reports": {
      "post": {
        "operationId": "createReport",
        "requestBody": {"content": {"application/json": {"schema": {"properties": {"invoice_ids": {}}}}}},
        "x-reverse-webmcp": {
          "post": "report(invoices=$invoice_ids).exists",
          "requires": ["invoice(id=$invoice_ids[]).exists"],
          "produces": "report",
          "reads": ["invoice:$invoice_ids[]"],
          "writes": ["report:new"],
          "surfaces": {"api": 1, "mcp": 2}
        }
      }
    }
  },
  "x-reverse-webmcp-ui": {
    "approveInvoice": {
      "post": "invoice(id=$id).approved=true",
      "requires": ["invoice(id=$id).exists"],
      "reads": ["invoice:$id"],
      "writes": ["invoice:$id"],
      "route": "/invoices/{id}",
      "control": {"role": "button", "name": "Approve invoice {id}"},
      "before": ["sendInvoice", "sendReceipt"],
      "surfaces": {"a11y": 5, "pixels": 9}
    }
  },
  "x-reverse-webmcp-events": {
    "payment.received": {
      "post": "invoice(id=$id).status='paid'",
      "check": {"op": "getInvoice", "arg": "id", "field": "status", "value": "paid"}
    }
  }
}"#;

fn read(text: &str) -> Json {
    parse_text(text).unwrap()
}

fn world() -> World {
    World::from_openapi(&read(DOC)).unwrap()
}

fn intent(wants: &[&str]) -> Intent {
    Intent { goal: "test".to_string(), wants: wants.iter().map(|s| s.to_string()).collect(), ..Default::default() }
}

#[test]
fn union_counts_overlaps_once() {
    assert_eq!(union_length(&vec![(0, 10), (5, 15)]), 15);
    assert_eq!(union_length(&vec![(0, 10), (20, 30)]), 20);
    assert_eq!(union_length(&vec![(0, 10), (0, 10)]), 10);
    assert_eq!(union_length(&Vec::new()), 0);
}

#[test]
fn ledger_overlap_counts_in_flight() {
    assert_eq!(max_overlap(&vec![(0, 10), (5, 15), (12, 20)]), 2);
    assert_eq!(max_overlap(&vec![(0, 10), (10, 20)]), 1);
    assert_eq!(max_overlap(&vec![(0, 10), (0, 10), (0, 10)]), 3);
    assert_eq!(max_overlap(&Vec::new()), 0);
}

#[test]
fn a_span_that_takes_no_time_still_counts_once() {
    assert_eq!(max_overlap(&vec![(5, 5), (5, 5)]), 2);
    assert_eq!(max_overlap(&vec![(5, 3)]), 1);
    assert_eq!(union_length(&vec![(5, 5), (7, 3)]), 0);
}

fn sample(kind: SampleKind, s: u128, e: u128, tin: u64, tout: u64) -> Sample {
    Sample { seq: 0, kind, started_us: s, ended_us: e, tokens_in: tin, tokens_out: tout, model: "grok-4.6".to_string(), effort: "low".to_string() }
}

fn row(node: &str, s: u128, e: u128) -> Row {
    Row {
        node: node.to_string(),
        op: "createInvoice".to_string(),
        surface: "api".to_string(),
        key: None,
        attempt: 1,
        started_us: s,
        ended_us: e,
        ok: true,
        write: true,
        error: None,
        observed: Json::Obj(Vec::new()),
    }
}

fn nothing() -> Plan {
    Plan { plan_id: "p".to_string(), goal: String::new(), nodes: Vec::new(), edges: Vec::new(), gates: Vec::new() }
}

#[test]
fn one_slow_thought_and_ten_fast_effects() {
    let mut l = Ledger::new(0);
    l.record_sample(sample(SampleKind::Plan, 1_000_000, 6_000_000, 900, 120));
    for i in 0..10 {
        l.rows.push(row(&format!("n{i}"), 6_010_000, 6_013_000));
    }
    let r = l.receipt(&nothing(), Status::Committed, None, None, None, 0);
    assert_eq!(r.plan_ms, 5000);
    assert_eq!(r.run_ms, 3);
    assert_eq!(r.max_parallel, 10);
    assert_eq!(r.samples, 1);
    assert_eq!((r.tokens_in, r.tokens_out), (900, 120));
}

#[test]
fn overlapping_samples_are_not_double_counted() {
    let mut l = Ledger::new(0);
    l.record_sample(sample(SampleKind::Turn, 0, 4_000_000, 1, 1));
    l.record_sample(sample(SampleKind::Turn, 2_000_000, 5_000_000, 1, 1));
    assert_eq!(l.plan_us(), 5_000_000);
    assert_eq!(l.sample_count(), 2);
    assert_eq!(l.run_us(), 0, "no effects, no run time");
}

#[test]
fn a_gap_between_calls_is_run_time_but_not_busy_time() {
    let mut l = Ledger::new(0);
    l.rows.push(row("A", 0, 1000));
    l.rows.push(row("B", 9000, 10000));
    assert_eq!(l.run_us(), 10000);
    assert_eq!(l.busy_us(), 2000);
    assert_eq!(l.max_parallel(), 1);
}

fn two_overlapping(rec: &mut Recorder, surface: &str, prefix: &str) {
    let first = rec.next_node_id(prefix);
    let second = rec.next_node_id(prefix);
    let a = rec.start(&first, "createInvoice", surface, Some("k1".to_string()), 1, 100);
    let b = rec.start(&second, "listCustomers", surface, None, 1, 101);
    rec.finish(a, &Ok(Json::Obj(vec![("id".to_string(), Json::Int(1))])), 3101);
    rec.finish(b, &Err("boom".to_string()), 3102);
}

#[test]
fn every_arm_records_the_same_shape() {
    let mut shapes = Vec::new();
    for (surface, prefix) in [("api", "A"), ("api", "s"), ("mcp", "t")] {
        let mut rec = Recorder::new(Arc::new(world()));
        two_overlapping(&mut rec, surface, prefix);
        let mut ledger = Ledger::new(0);
        rec.drain_into(&mut ledger);
        assert_eq!(ledger.rows.len(), 2);
        assert_eq!(ledger.rows[0].node, format!("{prefix}1"));
        assert_eq!(ledger.max_parallel(), 2, "{surface}: both effects were in flight together");
        let create = ledger.rows.iter().find(|r| r.op == "createInvoice").unwrap();
        let list = ledger.rows.iter().find(|r| r.op == "listCustomers").unwrap();
        assert!(create.write, "write-ness comes from the world model");
        assert!(!list.write);
        assert!(create.ok && !list.ok);
        assert_eq!(list.error.as_deref(), Some("boom"));
        assert_eq!(create.key.as_deref(), Some("k1"));
        shapes.push((create.write, list.write, create.ok, list.ok, create.attempt));
    }
    assert!(shapes.windows(2).all(|w| w[0] == w[1]), "{shapes:?}");
}

#[test]
fn an_event_wait_is_never_a_write() {
    let rec = Recorder::new(Arc::new(world()));
    assert!(!rec.is_write("payment.received"));
    assert!(rec.is_write("sendInvoice"));
    assert!(!rec.is_write("getInvoice"));
    assert!(!rec.is_write("no-such-op"));
}

#[test]
fn rows_come_out_in_the_order_they_started() {
    let mut rec = Recorder::new(Arc::new(world()));
    let late = rec.start("B", "getInvoice", "api", None, 1, 50);
    let early = rec.start("A", "getInvoice", "api", None, 1, 10);
    rec.finish(late, &Ok(Json::Null), 60);
    rec.finish(early, &Ok(Json::Null), 70);
    let mut ledger = Ledger::new(0);
    rec.drain_into(&mut ledger);
    assert_eq!(ledger.rows.iter().map(|r| r.node.as_str()).collect::<Vec<_>>(), ["A", "B"]);
    assert!(rec.rows().is_empty());
}

#[test]
fn only_a_key_proves_a_node_done() {
    let plan = compile(
        &intent(&["invoice(customer=customer(name='Acme')).status='sent'"]),
        &world(),
        &CompileOptions::default(),
    )
    .unwrap();
    let mut l = Ledger::new(0);
    assert_eq!(l.completed(&plan).len(), 0);
    let mut r = row("somewhere else", 0, 1);
    r.key = plan.node("B").unwrap().key.clone();
    l.rows.push(r);
    let done = l.completed(&plan);
    assert_eq!(done.len(), 1);
    assert!(done.has("B") && !done.has("A"));
}

#[test]
fn events_are_cut_out_of_the_stream_whatever_its_pieces() {
    let stream = "event: message\ndata: {\"seq\":1}\n\ndata: {\"seq\":2}\n\n";
    let mut whole = Feed::new();
    let all = whole.push(stream);
    let mut piecewise = Feed::new();
    let mut got: Vec<String> = Vec::new();
    for c in stream.chars() {
        got.extend(piecewise.push(&c.to_string()));
    }
    assert_eq!(all, got);
    assert_eq!(all, ["{\"seq\":1}", "{\"seq\":2}"]);
}

#[test]
fn an_event_reads_back() {
    let e = AppEvent { seq: 4, kind: "invoice.created".to_string(), entity: "invoice".to_string(), id: 9, data: Json::Null };
    let back = AppEvent::from_json(&e.to_json()).unwrap();
    assert_eq!((back.seq, back.kind.as_str(), back.entity.as_str(), back.id), (4, "invoice.created", "invoice", 9));
    assert!(AppEvent::from_json(&Json::Null).is_none());
    assert!(AppEvent::from_text(&e.to_json().to_string()).unwrap().to_json() == e.to_json());
    assert!(AppEvent::from_text("{").is_none() && AppEvent::from_text("{}").is_none());
    let mut log = EventLog::new();
    log.push(e);
    assert!(log.find("invoice.created", Some(9)).is_some());
    assert!(log.find("invoice.created", Some(8)).is_none());
    assert!(log.find("invoice.created", None).is_some());
}
