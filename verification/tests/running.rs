//! Plans carried out against the invoicing app, on a clock of the test's own.

use std::sync::Arc;

use rwmcp::api::{show_list, ApiError};
use rwmcp::arms::{after_answer, Onward, Payer};
use rwmcp::cli::may_run;
use rwmcp::compiler::{compile, CompileOptions};
use rwmcp::domain::{DomainError, Event};
use rwmcp::effect::{api_answer, api_request, classify_text, mcp_answer, EffectError, Request};
use rwmcp::events::AppEvent;
use rwmcp::intent::{Intent, IntentFork};
use rwmcp::invoicing::{World as App, Written};
use rwmcp::json::{as_list, as_u64, parse_text, Json};
use rwmcp::ledger::{Ledger, Receipt, Sample, SampleKind, Status};
use rwmcp::outputs::Outputs;
use rwmcp::plan::{Node, Plan};
use rwmcp::recorder::{Attempt, Recorder};
use rwmcp::run::{can_run, Outcome, Run, Step};
use rwmcp::scheduler::{after_attempt, after_glance, can_wait, glance, next_wait, Next, Policy, Wait};
use rwmcp::session::{PlanError, Session};
use rwmcp::show::{fork_step, ForkStep};
use rwmcp::tasks::resumed_after_fork;
use rwmcp::world::{OpKind, World};

/// The world model of the invoicing app.
const DOC: &str = r#"{
  "openapi": "3.1.0",
  "x-reverse-webmcp-entities": {
    "customer": {"id": "id", "fields": ["name", "email"]},
    "invoice": {"id": "id", "fields": ["customer", "amount_cents", "status", "approved", "receipt_sent"]},
    "report": {"id": "id", "fields": ["invoices", "total_cents"]}
  },
  "paths": {
    "/api/customers": {
      "get": {
        "operationId": "listCustomers",
        "parameters": [{"name": "name", "in": "query"}],
        "x-reverse-webmcp": {
          "post": "customer(name=$name).resolved",
          "produces": "customer",
          "reads": ["customer:*"],
          "surfaces": {"api": 1, "mcp": 2, "webmcp": 3},
          "fork": {"when": "result.count != 1", "ask": "Which customer named $name?"}
        }
      }
    },
    "/api/invoices": {
      "post": {
        "operationId": "createInvoice",
        "requestBody": {"content": {"application/json": {"schema": {"properties": {"customer_id": {}, "amount_cents": {}}}}}},
        "x-reverse-webmcp": {
          "post": "invoice(customer=$customer_id).exists",
          "requires": ["customer(id=$customer_id).exists"],
          "produces": "invoice",
          "reads": ["customer:$customer_id"],
          "writes": ["invoice:new"],
          "defaults": {"amount_cents": 10000},
          "surfaces": {"api": 1, "mcp": 2, "webmcp": 3}
        }
      }
    },
    "/api/invoices/{id}": {
      "get": {
        "operationId": "getInvoice",
        "parameters": [{"name": "id", "in": "path"}],
        "x-reverse-webmcp": {"reads": ["invoice:$id"], "surfaces": {"api": 1, "mcp": 2}}
      }
    },
    "/api/invoices/{id}/receipt": {
      "post": {
        "operationId": "sendReceipt",
        "parameters": [{"name": "id", "in": "path"}],
        "x-reverse-webmcp": {
          "post": "invoice(id=$id).receipt_sent=true",
          "requires": ["invoice(id=$id).status='paid'"],
          "reads": ["invoice:$id"],
          "writes": ["invoice:$id"],
          "external": true,
          "surfaces": {"api": 1, "mcp": 2}
        }
      }
    },
    "/api/invoices/{id}/send": {
      "post": {
        "operationId": "sendInvoice",
        "parameters": [{"name": "id", "in": "path"}],
        "x-reverse-webmcp": {
          "post": "invoice(id=$id).status='sent'",
          "requires": ["invoice(id=$id).exists"],
          "reads": ["invoice:$id"],
          "writes": ["invoice:$id"],
          "external": true,
          "before": ["sendReceipt"],
          "surfaces": {"api": 1, "mcp": 2, "webmcp": 3}
        }
      }
    },
    "/api/reports": {
      "post": {
        "operationId": "createReport",
        "requestBody": {"content": {"application/json": {"schema": {"properties": {"invoice_ids": {}}}}}},
        "x-reverse-webmcp": {
          "post": "report(invoices=$invoice_ids).exists",
          "requires": ["invoice(id=$invoice_ids[]).exists"],
          "produces": "report",
          "reads": ["invoice:$invoice_ids[]"],
          "writes": ["report:new"],
          "surfaces": {"api": 1, "mcp": 2}
        }
      }
    }
  },
  "x-reverse-webmcp-ui": {
    "approveInvoice": {
      "post": "invoice(id=$id).approved=true",
      "requires": ["invoice(id=$id).exists"],
      "reads": ["invoice:$id"],
      "writes": ["invoice:$id"],
      "route": "/invoices/{id}",
      "control": {"role": "button", "name": "Approve invoice {id}"},
      "before": ["sendInvoice", "sendReceipt"],
      "surfaces": {"a11y": 5, "pixels": 9}
    }
  },
  "x-reverse-webmcp-events": {
    "payment.received": {
      "post": "invoice(id=$id).status='paid'",
      "check": {"op": "getInvoice", "arg": "id", "field": "status", "value": "paid"}
    }
  }
}"#;

fn read(text: &str) -> Json {
    parse_text(text).unwrap()
}

fn world() -> World {
    World::from_openapi(&read(DOC)).unwrap()
}

fn intent(wants: &[&str]) -> Intent {
    Intent { goal: "test".to_string(), wants: wants.iter().map(|s| s.to_string()).collect(), ..Default::default() }
}

/// The invoicing app behind its interface, with a clock of its own.
struct Sim {
    app: App,
    now_us: u128,
    latency_us: u128,
    seen: Vec<AppEvent>,
    payer: Payer,
    pays: bool,
    silent: bool,
    payments: Vec<(u128, u64)>,
}

impl Sim {
    fn new(seed: u64) -> Sim {
        Sim {
            app: App::seeded(seed),
            now_us: 1_000_000,
            latency_us: 25_000,
            seen: Vec::new(),
            payer: Payer::new(),
            pays: false,
            silent: false,
            payments: Vec::new(),
        }
    }

    fn publish(&mut self, events: &[Event]) {
        for e in events {
            self.seen.push(AppEvent::from_json(&e.to_json()).unwrap());
        }
        if self.pays {
            for id in self.payer.due(&self.seen) {
                self.payments.push((self.now_us + 300_000, id));
            }
        }
    }

    /// Let every payment happen that is due by now.
    fn settle(&mut self) {
        let due: Vec<u64> = self.payments.iter().filter(|p| p.0 <= self.now_us).map(|p| p.1).collect();
        self.payments.retain(|p| p.0 > self.now_us);
        for id in due {
            assert!(self.app.has_room());
            let (_, events) = self.app.receive_payment(id, self.silent, self.now_us / 1000).unwrap();
            self.publish(&events);
        }
    }

    fn written(&mut self, r: Result<Written, DomainError>) -> (u16, String) {
        match r {
            Ok(w) => {
                self.publish(&w.events);
                (200, w.value.to_string())
            }
            Err(e) => refused(&e),
        }
    }

    /// Serve a request the way the app's routes do.
    fn serve(&mut self, req: &Request) -> (u16, String) {
        assert!(self.app.has_room());
        let now = self.now_us / 1000;
        let path = req.url.strip_prefix("http://app").unwrap();
        let key = req.key.as_deref();
        let parts: Vec<&str> = path.trim_start_matches('/').split('/').collect();
        let body = req.body.clone().unwrap_or(Json::Null);
        match (req.method.as_str(), parts.as_slice()) {
            ("GET", ["api", "customers"]) => {
                let name = req.query.iter().find(|(k, _)| k == "name").map(|(_, v)| v.as_str());
                (200, show_list(&self.app.find_customers(name)).to_string())
            }
            ("POST", ["api", "invoices"]) => {
                let cid = as_u64(body.get("customer_id")).unwrap();
                let amount = as_u64(body.get("amount_cents")).unwrap() as i64;
                let r = self.app.create_invoice("api", key, cid, amount, now);
                self.written(r)
            }
            ("GET", ["api", "invoices", id]) => match self.app.invoice(id.parse().unwrap()) {
                Ok(i) => (200, i.to_json().to_string()),
                Err(e) => refused(&e),
            },
            ("POST", ["api", "invoices", id, "send"]) => {
                let r = self.app.send_invoice("api", key, id.parse().unwrap(), false, now);
                self.written(r)
            }
            ("POST", ["api", "invoices", id, "receipt"]) => {
                let r = self.app.send_receipt("api", key, id.parse().unwrap(), now);
                self.written(r)
            }
            ("POST", ["api", "reports"]) => {
                let ids: Vec<u64> = as_list(body.get("invoice_ids")).unwrap().iter().map(|x| as_u64(Some(x)).unwrap()).collect();
                assert!(self.app.report_fits(&ids));
                let r = self.app.create_report("api", key, &ids, now);
                self.written(r)
            }
            other => panic!("no such route: {other:?}"),
        }
    }

    fn call(&mut self, world: &World, node: &Node, args: &Vec<(String, Json)>) -> Result<Json, EffectError> {
        let req = api_request(world, "http://app", node, args)?;
        let (status, text) = self.serve(&req);
        api_answer(status, &text)
    }

    fn state(&self) -> Json {
        self.app.snapshot(Json::Null)
    }

    fn rows(&self, what: &str) -> Vec<Json> {
        match self.state().get(what) {
            Some(Json::List(xs)) => xs.clone(),
            _ => panic!("no {what}"),
        }
    }
}

fn refused(e: &DomainError) -> (u16, String) {
    let a = ApiError::refusal(e);
    (a.0, a.body().to_string())
}

fn field(v: &Json, k: &str) -> String {
    v.get(k).map(|x| x.to_string()).unwrap_or_default()
}

/// A call that was made and has not come back.
struct InFlight {
    ends_us: u128,
    id: String,
    attempt: Attempt,
    number: u32,
    args: Vec<(String, Json)>,
    res: Result<Json, EffectError>,
}

/// Run a plan against the app, many calls at a time, skipping what is done.
fn carry_out(sim: &mut Sim, plan: &Plan, ledger: &mut Ledger, done: Outputs, policy: &Policy, broken: Option<&str>) -> Outcome {
    let w = Arc::new(world());
    let mut rec = Recorder::new(w.clone());
    let mut run = Run::new(plan, done);
    let mut flying: Vec<InFlight> = Vec::new();
    loop {
        let launched = run.launch(plan);
        if launched.is_empty() && flying.is_empty() {
            break;
        }
        for (id, step) in launched {
            let node = plan.node(&id).unwrap();
            match step {
                Step::Refuse(f) => run.finish(plan, ledger, &id, Err(f)),
                Step::Execute(args) => {
                    let attempt = rec.start(&id, &node.op, &node.surface, node.key.clone(), 1, sim.now_us);
                    if node.kind == OpKind::Event {
                        let (ends_us, res) = wait(sim, &w, node, &args, policy, &mut rec);
                        flying.push(InFlight { ends_us, id, attempt, number: 1, args, res });
                    } else {
                        let res = if broken == Some(node.op.as_str()) {
                            Err(EffectError::Fatal("simulated outage".to_string()))
                        } else {
                            sim.call(&w, node, &args)
                        };
                        flying.push(InFlight { ends_us: sim.now_us + sim.latency_us, id, attempt, number: 1, args, res });
                    }
                }
            }
        }
        if flying.is_empty() {
            continue;
        }
        let k = (0..flying.len()).min_by_key(|k| flying[*k].ends_us).unwrap();
        let f = flying.remove(k);
        sim.now_us = sim.now_us.max(f.ends_us);
        sim.settle();
        let told = match &f.res {
            Ok(v) => Ok(v.clone()),
            Err(e) => Err(e.to_string()),
        };
        rec.finish(f.attempt, &told, sim.now_us);
        let node = plan.node(&f.id).unwrap();
        match after_attempt(node, policy, f.number, &f.res) {
            Next::Done(v) => run.finish(plan, ledger, &f.id, Ok(v)),
            Next::Fail(e) => run.finish(plan, ledger, &f.id, Err(e)),
            Next::Again(ms) => {
                sim.now_us += ms as u128 * 1000;
                let attempt = rec.start(&f.id, &node.op, &node.surface, node.key.clone(), f.number + 1, sim.now_us);
                let res = sim.call(&w, node, &f.args);
                flying.push(InFlight { ends_us: sim.now_us + sim.latency_us, id: f.id, attempt, number: f.number + 1, args: f.args, res });
            }
        }
    }
    rec.drain_into(ledger);
    run.close(plan)
}

/// Wait for an event, with a glance at the world now and then.
fn wait(sim: &mut Sim, w: &World, node: &Node, args: &Vec<(String, Json)>, policy: &Policy, rec: &mut Recorder) -> (u128, Result<Json, EffectError>) {
    let id = args.iter().find(|(k, _)| k == "id").and_then(|(_, v)| as_u64(Some(v)));
    let started = sim.now_us;
    let back = sim.now_us;
    let mut glances: u32 = 0;
    loop {
        let waited = ((sim.now_us - started) / 1000) as u64;
        let left = policy.wait_timeout_ms.saturating_sub(waited);
        let listen = match next_wait(&node.op, id, left, policy) {
            Wait::Listen(ms) => ms,
            Wait::GiveUp(t) => {
                let end = sim.now_us;
                sim.now_us = back;
                return (end, Err(EffectError::Fatal(t)));
            }
        };
        let until = sim.now_us + listen as u128 * 1000;
        let mine = sim.payments.iter().find(|p| Some(p.1) == id && p.0 <= until).cloned();
        if let (Some((at, _)), false) = (mine, sim.silent) {
            sim.now_us = at;
            sim.settle();
            let ev = sim.seen.iter().find(|e| e.kind == node.op && Some(e.id) == id).unwrap().to_json();
            sim.now_us = back;
            return (at, Ok(ev));
        }
        sim.now_us = until;
        sim.settle();
        glances += 1;
        if let Some((n, a)) = glance(node, args, glances) {
            let attempt = rec.start(&n.id, &n.op, &n.surface, None, 1, sim.now_us);
            let seen = sim.call(w, &n, &a);
            rec.finish(attempt, &seen.as_ref().map(|v| v.clone()).map_err(|e| e.to_string()), sim.now_us);
            if let Some(v) = seen.ok().and_then(|s| after_glance(node, id, &s)) {
                let end = sim.now_us;
                sim.now_us = back;
                return (end, Ok(v));
            }
        }
    }
}

fn wants(names: &[&str], report: bool) -> Vec<String> {
    let mut w = Vec::new();
    for n in names {
        w.push(format!("invoice(customer=customer(name='{n}')).exists"));
        w.push(format!("invoice(customer=customer(name='{n}')).status='sent'"));
    }
    if report {
        let refs: Vec<String> = names.iter().map(|n| format!("invoice(customer=customer(name='{n}'))")).collect();
        w.push(format!("report(invoices=[{}]).exists", refs.join(",")));
    }
    w
}

fn plan_of(wants: &[String], plan_id: &str) -> Plan {
    let i = intent(&wants.iter().map(|s| s.as_str()).collect::<Vec<_>>());
    compile(&i, &world(), &CompileOptions { plan_id: plan_id.to_string(), surfaces: vec!["api".to_string()] }).unwrap()
}

fn run(sim: &mut Sim, wants: &[String]) -> Receipt {
    let plan = plan_of(wants, "e2e");
    let mut ledger = Ledger::new(sim.now_us / 1000);
    let done = ledger.completed(&plan);
    let o = carry_out(sim, &plan, &mut ledger, done, &Policy::default(), None);
    ledger.receipt(&plan, o.status, o.yield_reason, o.evidence, o.error, sim.now_us / 1000)
}

const TEN: [&str; 10] = ["Acme", "Globex", "Initech", "Umbrella", "Hooli", "Vandelay", "Stark", "Wayne", "Wonka", "Tyrell"];

#[test]
fn end_to_end_t2_runs_ten_wide_with_one_key_per_write() {
    let mut sim = Sim::new(2);
    let r = run(&mut sim, &wants(&TEN, false));
    assert_eq!(r.status, Status::Committed, "{:?}", r.error);
    assert!(r.max_parallel >= 10, "max_parallel {}", r.max_parallel);
    assert_eq!(r.samples, 0);
    assert_eq!(sim.app.double_sends(), 0);
    let keyed = sim.app.effects.iter().filter(|e| e.key.is_some()).count();
    assert_eq!(keyed, 20, "ten creates and ten sends, each keyed");
    assert!(sim.rows("invoices").iter().all(|i| field(i, "status") == "\"sent\""));
}

#[test]
fn end_to_end_t3_joins_on_the_report_and_starts_emails_early() {
    let mut sim = Sim::new(3);
    let r = run(&mut sim, &wants(&TEN[..3], true));
    assert_eq!(r.status, Status::Committed, "{:?}", r.error);
    assert!(r.max_parallel >= 3, "max_parallel {}", r.max_parallel);
    assert_eq!(sim.app.double_sends(), 0);
    // The report row starts after every send row has ended.
    let rows = &r.ledger.rows;
    let report = rows.iter().find(|x| x.op == "createReport").unwrap();
    let last_send_end = rows.iter().filter(|x| x.op == "sendInvoice").map(|x| x.ended_us).max().unwrap();
    assert!(report.started_us >= last_send_end, "the join held");
    // Each send starts before the last create ends: emails do not wait for all three invoices.
    let first_send_start = rows.iter().filter(|x| x.op == "sendInvoice").map(|x| x.started_us).min().unwrap();
    let last_create_end = rows.iter().filter(|x| x.op == "createInvoice").map(|x| x.ended_us).max().unwrap();
    assert!(first_send_start <= last_create_end + 2000, "a send waited for a create it did not depend on");
    assert_eq!(sim.rows("reports").len(), 1);
}

#[test]
fn t4_waits_for_the_payment_event_instead_of_polling() {
    let mut sim = Sim::new(4);
    sim.pays = true;
    let mut w = wants(&["Acme"], false);
    w.push("invoice(customer=customer(name='Acme')).receipt_sent=true".to_string());
    let r = run(&mut sim, &w);
    assert_eq!(r.status, Status::Committed, "{:?}", r.error);
    let wait = r.ledger.rows.iter().find(|x| x.surface == "event").expect("a wait row");
    assert!(wait.ok);
    assert!(wait.ended_us - wait.started_us >= 200_000, "the wait really waited");
    let reads = r.ledger.rows.iter().filter(|x| x.op == "getInvoice").count();
    assert_eq!(reads, 0, "no polling");
    assert_eq!(sim.app.double_sends(), 0);
    assert_eq!(field(&sim.rows("invoices")[0], "receipt_sent"), "true");
}

#[test]
fn a_lost_webhook_is_caught_by_the_state_check() {
    let mut sim = Sim::new(4);
    sim.pays = true;
    sim.silent = true;
    let mut w = wants(&["Acme"], false);
    w.push("invoice(customer=customer(name='Acme')).receipt_sent=true".to_string());
    let plan = plan_of(&w, "lost");
    let policy = Policy { check_every_ms: 700, ..Default::default() };
    let mut ledger = Ledger::new(0);
    let done = ledger.completed(&plan);
    let outcome = carry_out(&mut sim, &plan, &mut ledger, done, &policy, None);
    assert_eq!(outcome.status, Status::Committed, "{:?}", outcome.error);
    let wait = ledger.rows.iter().find(|x| x.surface == "event").unwrap();
    assert!(wait.ok);
    assert_eq!(field(&wait.observed, "checked"), "true", "the fact was confirmed by a read, not an event");
    let glances = ledger.rows.iter().filter(|x| x.op == "getInvoice").count();
    assert!((1..=3).contains(&glances), "a glance or two, not a poll storm: {glances}");
    assert_eq!(field(&sim.rows("invoices")[0], "receipt_sent"), "true");
}

#[test]
fn end_to_end_t6_two_acmes_yield_once_without_writing() {
    let mut sim = Sim::new(6);
    let r = run(&mut sim, &wants(&["Acme"], false));
    assert_eq!(r.status, Status::NeedThink);
    assert_eq!(r.forks_taken, 1);
    assert!(r.yield_reason.as_deref().unwrap_or("").contains("Acme"));
    assert_eq!(sim.app.effects.len(), 0, "nothing was written before the question");
}

#[test]
fn the_report_fails_then_the_plan_resumes_without_a_double_send() {
    let mut sim = Sim::new(3);
    let plan = plan_of(&wants(&["Acme", "Globex", "Initech"], true), "resume");
    let mut ledger = Ledger::new(0);
    let done = ledger.completed(&plan);
    let first = carry_out(&mut sim, &plan, &mut ledger, done, &Policy::default(), Some("createReport"));
    assert_eq!(first.status, Status::Error, "{:?}", first.error);
    let sends_before = ledger.rows.iter().filter(|r| r.op == "sendInvoice" && r.ok).count();
    assert_eq!(sends_before, 3);
    let rows_before = ledger.rows.len();
    let keys_before: Vec<Option<String>> = plan.nodes.iter().map(|n| n.key.clone()).collect();

    // The outage ends. Resume the same plan against the same ledger.
    let done = ledger.completed(&plan);
    assert_eq!(done.len(), 6, "three creates and three sends are proven done by their keys");
    let second = carry_out(&mut sim, &plan, &mut ledger, done, &Policy::default(), None);
    assert_eq!(second.status, Status::Committed, "{:?}", second.error);

    let new_rows = &ledger.rows[rows_before..];
    let new_writes: Vec<&str> = new_rows.iter().filter(|r| r.write).map(|r| r.op.as_str()).collect();
    assert_eq!(new_writes, vec!["createReport"], "exactly one new write");
    assert!(new_rows.iter().all(|r| r.op != "sendInvoice" && r.op != "createInvoice"), "nothing was re-sent");
    assert_eq!(plan.nodes.iter().map(|n| n.key.clone()).collect::<Vec<_>>(), keys_before, "unchanged lanes keep their keys");

    assert_eq!(sim.app.double_sends(), 0);
    assert_eq!(sim.rows("reports").len(), 1);
    assert_eq!(sim.rows("outbox").len(), 3);
}

/// The three lines the docs promise, with nothing else assembled by hand.
#[test]
fn connect_plan_run() {
    let mut sim = Sim::new(2);
    let session = Session::offline(world());
    let plan = session.plan(&intent(&["invoice(customer=customer(name='Acme')).status='sent'"])).unwrap();
    assert_eq!(plan.nodes.len(), 3);
    let mut ledger = Ledger::new(0);
    let done = ledger.completed(&plan);
    let o = carry_out(&mut sim, &plan, &mut ledger, done, &session.policy, None);
    assert_eq!(o.status, Status::Committed);
    assert_eq!(ledger.sample_count(), 0, "no model is involved in running a plan");
}

/// Wants that do not hold up come back as wants, not as a string.
#[test]
fn bad_wants_come_back_typed() {
    let session = Session::offline(world());
    match session.plan(&intent(&["widget(name='x').exists"])) {
        Err(PlanError::Wants(errs)) => assert_eq!(errs[0].code(), "unknown_entity"),
        _ => panic!("expected lint errors"),
    }
}

/// Two sessions under one plan id share their committed work, which is what makes a crashed run
/// safe to start again.
#[test]
fn the_same_plan_id_does_not_repeat_committed_work() {
    let mut sim = Sim::new(2);
    let wanted = intent(&["invoice(customer=customer(name='Acme')).status='sent'"]);
    let mut go = |plan_id: &str| {
        let session = Session::offline(world()).plan_id(plan_id);
        let plan = session.plan(&wanted).unwrap();
        let mut ledger = Ledger::new(0);
        let done = ledger.completed(&plan);
        let o = carry_out(&mut sim, &plan, &mut ledger, done, &session.policy, None);
        assert_eq!(o.status, Status::Committed);
        sim.rows("invoices").len()
    };
    assert_eq!(go("shared"), 1);
    assert_eq!(go("shared"), 1, "the second run matched the first run's keys");
    // A different id is a different run, and does the work again.
    assert_eq!(go("elsewhere"), 2);
}

#[test]
fn an_offline_session_plans_but_will_not_run() {
    let session = Session::offline(world());
    let plan = session.plan(&intent(&["invoice(customer=customer(name='Acme')).exists"])).unwrap();
    assert_eq!(plan.nodes.len(), 2);
    let f = may_run(true, true, &plan).unwrap();
    assert!(f.message.contains("nothing to run against"), "{}", f.message);
}

#[test]
fn a_fork_is_answered_once_and_the_plan_resumes() {
    let mut sim = Sim::new(6);
    let w = world();
    let opts = CompileOptions { plan_id: "T6-r1".to_string(), surfaces: vec!["api".to_string()] };
    let first = intent(&["invoice(customer=customer(name='Acme')).exists", "invoice(customer=customer(name='Acme')).status='sent'"]);
    let plan = compile(&first, &w, &opts).unwrap();
    let mut ledger = Ledger::new(0);
    let done = ledger.completed(&plan);
    let o = carry_out(&mut sim, &plan, &mut ledger, done, &Policy::default(), None);
    assert_eq!(o.status, Status::NeedThink);
    assert_eq!(fork_step(o.status, 0, true), ForkStep::AskModel);
    ledger.record_sample(Sample {
        seq: 0,
        kind: SampleKind::ForkAnswer,
        started_us: 0,
        ended_us: 1,
        tokens_in: 1,
        tokens_out: 1,
        model: "stub".to_string(),
        effort: "low".to_string(),
    });
    let answer = intent(&["invoice(customer=customer(id=1)).exists", "invoice(customer=customer(id=1)).status='sent'"]);
    let plan = match after_answer(&Ok(answer), &w, &opts) {
        Onward::Resume(p) => p,
        _ => panic!("the answer compiles"),
    };
    let done = ledger.completed(&plan);
    let o = carry_out(&mut sim, &plan, &mut ledger, done, &Policy::default(), None);
    assert_eq!(o.status, Status::Committed, "{:?}", o.error);
    let r = ledger.receipt(&plan, o.status, o.yield_reason, o.evidence, o.error, 0);
    assert_eq!(r.forks_taken, 1);
    assert_eq!(r.samples, 1, "one fork-answer sample");
    let invoices = sim.rows("invoices");
    assert_eq!(invoices.len(), 1);
    assert_eq!(field(&invoices[0], "customer_id"), "1");
    assert_eq!(field(&invoices[0], "status"), "\"sent\"");
    assert_eq!(sim.app.double_sends(), 0);
    assert!(r.times_fit());
    assert!(resumed_after_fork(&r.to_json()));
}

#[test]
fn an_empty_fork_answer_leaves_the_question_open() {
    let opts = CompileOptions::default();
    match after_answer(&Err("fork answer rejected twice: the intent is empty".to_string()), &world(), &opts) {
        Onward::Open(t) => assert!(t.contains("fork answer"), "{t}"),
        _ => panic!("the question stays open"),
    }
}

#[test]
fn an_outside_effect_that_is_not_allowed_is_refused_before_it_starts() {
    let mut sim = Sim::new(2);
    let mut i = intent(&["invoice(customer=customer(name='Acme')).status='sent'"]);
    i.constraints.external_ok = false;
    let plan = compile(&i, &world(), &CompileOptions::default()).unwrap();
    let mut ledger = Ledger::new(0);
    let done = ledger.completed(&plan);
    let o = carry_out(&mut sim, &plan, &mut ledger, done, &Policy::default(), None);
    assert_eq!(o.status, Status::NeedThink);
    assert_eq!(sim.rows("outbox").len(), 0, "nothing left the system");
}

#[test]
fn a_fork_with_a_default_is_settled_without_asking() {
    let mut sim = Sim::new(6);
    let mut i = intent(&["invoice(customer=customer(name='Acme')).status='sent'"]);
    i.forks.push(IntentFork {
        when: "result.count != 1".to_string(),
        ask: "Which $name?".to_string(),
        default: Some("lowest_id".to_string()),
    });
    let plan = compile(&i, &world(), &CompileOptions::default()).unwrap();
    let mut ledger = Ledger::new(0);
    let done = ledger.completed(&plan);
    let o = carry_out(&mut sim, &plan, &mut ledger, done, &Policy::default(), None);
    assert_eq!(o.status, Status::Committed, "{:?}", o.error);
    assert_eq!(ledger.forks.len(), 1);
    assert_eq!(field(&sim.rows("invoices")[0], "customer_id"), "1");
}

#[test]
fn a_refused_write_comes_back_when_it_was_told_to() {
    let mut sim = Sim::new(2);
    sim.app.chaos.rate_limit_per_sec = 1;
    let r = run(&mut sim, &wants(&["Acme"], false));
    assert_eq!(r.status, Status::Committed, "{:?}", r.error);
    let tried: u32 = r.ledger.rows.iter().filter(|x| x.op == "sendInvoice").map(|x| x.attempt).max().unwrap();
    assert!(tried >= 2, "the second write of the second was refused once");
    assert_eq!(sim.app.double_sends(), 0);
}

#[test]
fn failures_are_retried_only_where_that_can_help() {
    let plan = plan_of(&wants(&["Acme"], false), "p");
    let node = plan.node("B").unwrap();
    let policy = Policy::default();
    assert!(matches!(after_attempt(node, &policy, 1, &Err(EffectError::Retryable("x".to_string()))), Next::Again(40)));
    assert!(matches!(after_attempt(node, &policy, 2, &Err(EffectError::Retryable("x".to_string()))), Next::Again(80)));
    assert!(matches!(after_attempt(node, &policy, 6, &Err(EffectError::Retryable("x".to_string()))), Next::Fail(_)));
    assert!(matches!(after_attempt(node, &policy, 1, &Err(EffectError::Throttled(500, "x".to_string()))), Next::Again(507)));
    assert!(matches!(after_attempt(node, &policy, 1, &Err(EffectError::Fatal("x".to_string()))), Next::Fail(_)));
    assert!(matches!(after_attempt(node, &policy, 1, &Ok(Json::Null)), Next::Done(_)));
}

#[test]
fn a_run_is_as_wide_as_its_edges_allow_and_overlapping_work_runs_apart() {
    let plan = plan_of(&wants(&["Acme", "Globex"], true), "wide");
    let mut ledger = Ledger::new(0);
    let mut run = Run::new(&plan, Outputs::new());
    let mut done: Vec<String> = Vec::new();
    let mut running: Vec<String> = Vec::new();
    while done.len() < plan.nodes.len() {
        for (id, _) in run.launch(&plan) {
            running.push(id);
        }
        for n in &plan.nodes {
            let waits = plan.edges.iter().any(|(a, b)| *b == n.id && !done.contains(a));
            assert_eq!(running.contains(&n.id), !waits && !done.contains(&n.id), "{}", n.id);
        }
        for a in &running {
            for b in &running {
                let (x, y) = (plan.node(a).unwrap(), plan.node(b).unwrap());
                assert!(a == b || !x.writes.iter().any(|w| y.writes.contains(w) || y.reads.contains(w)), "{a} and {b}");
            }
        }
        let id = running.remove(0);
        run.finish(&plan, &mut ledger, &id, Ok(read(r#"{"id": 7}"#)));
        done.push(id);
    }
    assert!(run.launch(&plan).is_empty(), "everything has finished");
}

#[test]
fn a_body_is_read_as_the_status_says() {
    assert_eq!(api_answer(200, " {\"id\": 3} ").unwrap().to_string(), "{\"id\":3}");
    assert!(matches!(api_answer(200, "{"), Err(EffectError::Fatal(m)) if m.starts_with("bad json: EOF")));
    assert!(matches!(api_answer(409, "{\"error\": \"taken\"}"), Err(EffectError::Fatal(m)) if m == "409 taken"));
    assert!(matches!(api_answer(503, "{\"error\": 1}"), Err(EffectError::Retryable(m)) if m == "503 {\"error\": 1}"));
    assert!(matches!(classify_text(429, "slow down"), EffectError::Retryable(m) if m == "429 slow down"));
    assert!(matches!(classify_text(404, &"x".repeat(300)), EffectError::Fatal(m) if m == format!("404 {}", "x".repeat(200))));
}

#[test]
fn the_text_of_a_tool_is_read_where_it_is_json() {
    let said = |t: &str| read(&format!("{{\"result\": {{\"content\": [{{\"text\": {}}}]}}}}", Json::Str(t.to_string()).to_string()));
    assert_eq!(mcp_answer(&said("{\"id\": 4}")).unwrap().to_string(), "{\"id\":4}");
    assert_eq!(mcp_answer(&said("all good")).unwrap().to_string(), "\"all good\"");
    assert_eq!(mcp_answer(&read("{\"result\": {}}")).unwrap().to_string(), "null");
    assert_eq!(mcp_answer(&read("{\"result\": {\"structuredContent\": [1]}}")).unwrap().to_string(), "[1]");
    assert!(matches!(mcp_answer(&read("{\"error\": {\"code\": -1}}")), Err(EffectError::Fatal(m)) if m == "{\"code\":-1}"));
}

#[test]
fn a_wait_is_asked_for_only_where_it_can_be_counted() {
    let retry = Err(EffectError::Retryable("x".to_string()));
    let policy = Policy { max_attempts: 80, backoff_ms: 1, ..Policy::default() };
    assert!(can_wait(&policy, 64, &retry));
    assert!(!can_wait(&policy, 65, &retry));
    assert!(can_wait(&policy, 80, &retry));
    let slow = |ms: u64| Err(EffectError::Throttled(ms, "x".to_string()));
    assert!(can_wait(&policy, 1, &slow(u64::MAX - 7)));
    assert!(!can_wait(&policy, 1, &slow(u64::MAX - 6)));
    assert!(can_wait(&policy, 160, &slow(u64::MAX)));
    assert!(can_wait(&Policy { backoff_ms: 0, ..Policy::default() }, 1, &retry));
}

#[test]
fn a_plan_can_be_run_where_its_nodes_are_told_apart() {
    let mut plan = plan_of(&wants(&["Acme"], false), "p");
    assert!(can_run(&plan));
    plan.edges.push(("A".to_string(), "nowhere".to_string()));
    assert!(!can_run(&plan));
    plan.edges.pop();
    let id = plan.nodes[0].id.clone();
    plan.nodes[1].id = id;
    assert!(!can_run(&plan));
}
