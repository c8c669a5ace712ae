//! Scoring and summarising are pure functions over stored data. Pin them.

use rwmcp::arms::{plan_name, progress, unwired, Payer};
use rwmcp::audit::problems_for;
use rwmcp::config::RunOpts;
use rwmcp::events::AppEvent;
use rwmcp::intent::Constraints;
use rwmcp::json::{parse_text, Json};
use rwmcp::ledger::{Ledger, Row, Sample, SampleKind, Status};
use rwmcp::loops::no_plan;
use rwmcp::measured::result_of;
use rwmcp::quarters::{median, quantile, Quarters};
use rwmcp::report::{is_result_file, sort_results, summarize, times_fit, RunResult};
use rwmcp::script::{advance, after_call, end_script, next_call, no_script, report_over, row_for, Answer, Stage, Then};
use rwmcp::tables::{arm_names, arm_title, depth_table, html_escape, page, text_table};
use rwmcp::tasks::{all_passed, chaos_for, check, resumed_after_fork, status_name, Expect, Hooks, ScriptSpec, Task};

fn read(text: &str) -> Json {
    parse_text(text).unwrap()
}

fn expect(status: &str) -> Expect {
    Expect {
        status: status.to_string(),
        invoices: None,
        sent: None,
        paid: None,
        receipts: None,
        reports: None,
        forks: None,
        double_sends: None,
        after_resume: None,
    }
}

#[test]
fn check_reads_the_snapshot_not_the_arm() {
    let expect = Expect {
        status: "committed".to_string(),
        invoices: Some(2),
        sent: Some(1),
        paid: Some(1),
        receipts: Some(0),
        reports: Some(1),
        forks: Some(0),
        double_sends: Some(0),
        after_resume: None,
    };
    let snap = read(
        r#"{"invoices": [{"status": "paid", "receipt_sent": false}, {"status": "draft", "receipt_sent": false}],
            "reports": [{"id": 0}], "outbox": []}"#,
    );
    let checks = check(&expect, "committed", 0, &snap, 0);
    let failed: Vec<&str> = checks.iter().filter(|c| !c.ok).map(|c| c.name.as_str()).collect();
    assert!(failed.is_empty(), "{failed:?}");
    assert!(all_passed(&checks));
    // A paid invoice counts as sent; a draft does not.
    let checks = check(&expect, "committed", 0, &snap, 1);
    assert_eq!(checks.iter().filter(|c| !c.ok).map(|c| c.name.as_str()).collect::<Vec<_>>(), vec!["double_sends"]);
    let checks = check(&expect, "error", 0, &snap, 0);
    assert_eq!(checks.iter().filter(|c| !c.ok).map(|c| c.name.as_str()).collect::<Vec<_>>(), vec!["status"]);
}

#[test]
fn what_is_expected_after_a_resume_counts_only_then() {
    let mut e = expect("need_think");
    e.after_resume = Some(Box::new(expect("committed")));
    assert_eq!(e.applicable(true).status, "committed");
    assert_eq!(e.applicable(false).status, "need_think");
    assert_eq!(expect("error").applicable(true).status, "error");
}

fn result(task: &str, arm: &str, run: u32, wall_ms: u128, max_parallel: usize, correct: bool) -> RunResult {
    RunResult {
        task: task.to_string(),
        task_title: String::new(),
        arm: arm.to_string(),
        run,
        status: "committed".to_string(),
        planner: "none".to_string(),
        samples: 1,
        tokens_in: 10,
        tokens_out: 5,
        wall_ms,
        plan_ms: 0,
        run_ms: wall_ms,
        busy_ms: Some(wall_ms),
        max_parallel,
        max_parallel_by_surface: Vec::new(),
        nodes: 0,
        depth: 0,
        correct,
        checks: Vec::new(),
        double_sends: 0,
        forks: 0,
        yield_reason: None,
        error: None,
        snapshot: Json::Obj(Vec::new()),
        receipt: Json::Obj(Vec::new()),
        intent: Json::Null,
        model: String::new(),
        effort: String::new(),
        base_url: String::new(),
        latency_ms: 25,
        surfaces: "api".to_string(),
    }
}

fn decimal(q: &Quarters) -> f64 {
    q.0 as f64 / 4.0
}

fn four() -> Vec<RunResult> {
    vec![result("T2", "D", 1, 100, 10, true), result("T2", "D", 2, 300, 10, true), result("T2", "D", 3, 200, 8, false), result("T2", "E", 1, 50, 10, true)]
}

#[test]
fn summarize_uses_medians_per_task_and_arm() {
    let rs = four();
    assert!(times_fit(&rs));
    let cells = summarize(&rs);
    assert_eq!(cells.len(), 2);
    let d = cells.iter().find(|c| c.arm == "D").unwrap();
    assert_eq!(d.runs, 3);
    assert_eq!(d.correct, 2);
    assert_eq!(decimal(&d.wall_ms_median), 200.0);
    assert_eq!(decimal(&d.max_parallel_median), 10.0);
    assert_eq!((d.wall_ms_min, d.wall_ms_max), (100, 300));
    assert_eq!(decimal(&d.tokens_median), 15.0);
    assert_eq!((decimal(&d.wall_ms_p25), decimal(&d.wall_ms_p75)), (150.0, 250.0));
}

#[test]
fn medians_and_quantiles_lie_between_the_numbers() {
    assert_eq!(median(&vec![4, 1, 3, 2]).to_string(), "2.5");
    assert_eq!(median(&Vec::new()).to_string(), "0");
    assert_eq!(median(&vec![7]).to_string(), "7");
    assert_eq!(quantile(&vec![0, 1], 1).to_string(), "0.25");
    assert_eq!(quantile(&vec![0, 1], 3).to_string(), "0.75");
    assert_eq!(quantile(&vec![10, 20, 30], 2).to_string(), "20");
}

#[test]
fn the_tables_say_what_the_cells_do() {
    let rs = four();
    let cells = summarize(&rs);
    let t = text_table(&cells);
    assert_eq!(t.lines().count(), 3);
    assert!(t.lines().next().unwrap().starts_with("task"));
    assert!(t.contains("2/3"), "{t}");
    let d = depth_table(&cells, &vec![("T2".to_string(), 3)]);
    assert!(d.contains("T2"), "{d}");
    let mut rs = rs;
    rs[0].receipt = read(r#"{"plan": "A <B>"}"#);
    let html = page("results/x", &cells, &rs, &vec![("T2".to_string(), "Ten invoices".to_string())], &vec![("T2".to_string(), 3)]);
    assert!(html.contains("<h2>T2 · Ten invoices</h2>") && html.contains("ours: planned graph"), "{html}");
    assert!(html.contains("<pre>A &lt;B&gt;</pre>"), "{html}");
    assert_eq!(html_escape("a<b && c>d"), "a&lt;b &amp;&amp; c&gt;d");
}

#[test]
fn arms_have_titles() {
    assert_eq!(arm_names().len(), 6);
    for (arm, title) in arm_names() {
        assert_eq!(arm_title(arm), title);
    }
    assert_eq!(arm_title("Z"), "");
}

#[test]
fn results_are_told_from_other_files_and_sorted() {
    assert!(is_result_file("T1-D-1.json"));
    for other in ["summary.json", "config.json", "report.html", ".json", "T1.txt"] {
        assert!(!is_result_file(other), "{other}");
    }
    let mut rs = four();
    rs.reverse();
    let mut before: Vec<u128> = rs.iter().map(|r| r.wall_ms).collect();
    before.sort();
    let sorted = sort_results(rs);
    let order: Vec<(&str, u32)> = sorted.iter().map(|r| (r.arm.as_str(), r.run)).collect();
    assert_eq!(order, [("D", 1), ("D", 2), ("D", 3), ("E", 1)]);
    // Nothing but the order changes.
    let mut walls: Vec<u128> = sorted.iter().map(|r| r.wall_ms).collect();
    walls.sort();
    assert_eq!(walls, before);
}

fn honest() -> RunResult {
    let mut r = result("T2", "D", 1, 60, 2, true);
    r.planner = "model".to_string();
    r.plan_ms = 50;
    r.run_ms = 3;
    r.busy_ms = Some(3);
    r.nodes = 2;
    r.depth = 1;
    r.snapshot = read(r#"{"outbox": []}"#);
    r.receipt = read(
        r#"{"ledger": {"rows": [
            {"node":"A","op":"createInvoice","surface":"api","key":"k","attempt":1,"started_us":100,"ended_us":3100,"ok":true,"write":true,"error":null,"observed":{}},
            {"node":"B","op":"createInvoice","surface":"api","key":"k2","attempt":1,"started_us":200,"ended_us":3200,"ok":true,"write":true,"error":null,"observed":{}}
        ], "samples": [{"seq":1,"kind":"plan","started_us":0,"ended_us":50000,"tokens_in":10,"tokens_out":5,"model":"m","effort":"low"}]}}"#,
    );
    r
}

#[test]
fn an_honest_result_has_no_problems() {
    assert!(problems_for(&honest(), None).is_empty());
}

#[test]
fn every_doctored_headline_is_caught() {
    let mut r = honest();
    r.max_parallel = 1;
    assert!(problems_for(&r, None).iter().any(|p| p.contains("max_parallel")));
    let mut r = honest();
    r.plan_ms = 1;
    assert!(problems_for(&r, None).iter().any(|p| p.contains("plan_ms")));
    let mut r = honest();
    r.run_ms = 99;
    assert!(problems_for(&r, None).iter().any(|p| p.contains("run_ms")));
    let mut r = honest();
    r.busy_ms = Some(99);
    assert!(problems_for(&r, None).iter().any(|p| p.contains("busy_ms")));
    let mut r = honest();
    r.forks = 2;
    assert!(problems_for(&r, None).iter().any(|p| p.contains("forks")));
    let mut r = honest();
    r.samples = 3;
    assert!(problems_for(&r, None).iter().any(|p| p.contains("samples")));
    let mut r = honest();
    r.tokens_out = 999;
    assert!(problems_for(&r, None).iter().any(|p| p.contains("tokens")));
    let mut r = honest();
    r.snapshot = read(r#"{"outbox":[{"invoice_id":1,"kind":"invoice"},{"invoice_id":1,"kind":"invoice"}]}"#);
    assert!(problems_for(&r, None).iter().any(|p| p.contains("double_sends")));
}

fn task() -> Task {
    Task {
        id: "T2".to_string(),
        title: "Ten invoices".to_string(),
        phase: 1,
        depth: 3,
        seed: 2,
        goal: "g".to_string(),
        wants: vec!["invoice(customer=customer(name='Acme')).exists".to_string()],
        constraints: Constraints::default(),
        forks: Vec::new(),
        chaos: Json::Null,
        hooks: Hooks { pay_after_create_ms: None, pay_silently: false },
        script: None,
        expect: expect("committed"),
    }
}

#[test]
fn a_measured_result_has_no_problems() {
    let mut l = Ledger::new(5);
    l.record_sample(Sample {
        seq: 0,
        kind: SampleKind::Plan,
        started_us: 10,
        ended_us: 5_000_010,
        tokens_in: 3,
        tokens_out: 4,
        model: "m".to_string(),
        effort: "low".to_string(),
    });
    for n in ["A", "B"] {
        l.rows.push(Row {
            node: n.to_string(),
            op: "createInvoice".to_string(),
            surface: "api".to_string(),
            key: Some(format!("k{n}")),
            attempt: 1,
            started_us: 6_000_000,
            ended_us: 6_004_500,
            ok: true,
            write: true,
            error: None,
            observed: Json::Null,
        });
    }
    l.ended_ms = 7000;
    let receipt = l.receipt(&no_plan("T2-r1".to_string(), "g"), Status::Committed, None, None, None, 0);
    assert!(receipt.times_fit());
    let snapshot = read(r#"{"invoices": [], "reports": [], "outbox": []}"#);
    let r = result_of(&task(), "D", 1, &receipt, snapshot, 0, Json::Null, false, &RunOpts::usual("m"), "http://model");
    assert!(r.correct);
    assert_eq!((r.max_parallel, r.plan_ms, r.run_ms, r.busy_ms), (2, 5000, 4, Some(4)));
    assert_eq!(r.planner, "handwritten-intent");
    assert_eq!(problems_for(&r, Some(&task())), Vec::<String>::new());
    let line = progress(&r);
    assert!(line.starts_with("T2  D  run 1 · committed  ·   6995 ms · max_par 2 · correct"), "{line}");
}

#[test]
fn a_wrong_run_is_told_as_one() {
    let mut r = result("T1", "B2", 3, 7, 1, false);
    r.checks = check(&expect("committed"), "error", 0, &Json::Null, 0);
    r.status = "error".to_string();
    r.error = Some("boom".to_string());
    assert_eq!(
        progress(&r),
        "T1  B2 run 3 · error      ·      7 ms · max_par 1 · WRONG [status: want \"committed\" got \"error\"] · boom"
    );
}

#[test]
fn defaults_round_trip_through_json() {
    let o = RunOpts::usual("some-model");
    assert_eq!(o.arm_list(), vec!["D", "E"]);
    assert_eq!(o.surface_list(), vec!["api"]);
    assert_eq!(o.latency_ms, 25);
    assert!(!o.needs_model());
    assert_eq!(o.api_key, None);
    assert_eq!(o.model, "some-model");
    assert_eq!(o.out_dir("2026-01-01"), "results/2026-01-01");
    assert_eq!(o.pages(4), None);
    assert!(o.task_filter().is_none() && o.takes_task("T1", 3) && !o.takes_task("T1", 4));
}

#[test]
fn model_arms_and_model_planner_need_a_model() {
    let mut o = RunOpts::usual("m");
    o.arms = "d,b2".to_string();
    assert_eq!(o.arm_list(), vec!["D", "B2"]);
    assert!(o.needs_model());
    let mut o = RunOpts::usual("m");
    o.planner = "model".to_string();
    assert!(o.needs_model());
    let mut o = RunOpts::usual("m");
    o.arms = "C".to_string();
    o.tasks = Some("T1, T9".to_string());
    assert_eq!(o.pages(4), Some(4));
    assert!(o.takes_task("T9", 99) && !o.takes_task("T2", 1));
}

#[test]
fn chaos_carries_the_latency_unless_it_has_its_own() {
    assert_eq!(chaos_for(&Json::Null, 25).to_string(), r#"{"latency_ms":25}"#);
    assert_eq!(chaos_for(&read(r#"{"latency_ms": 3}"#), 25).to_string(), r#"{"latency_ms":3}"#);
    assert_eq!(chaos_for(&read(r#"{"ui_modal": true}"#), 25).to_string(), r#"{"latency_ms":25,"ui_modal":true}"#);
}

#[test]
fn statuses_have_names_and_forks_are_read_back() {
    assert_eq!(status_name(Status::Committed), "committed");
    assert_eq!(status_name(Status::NeedThink), "need_think");
    assert_eq!(status_name(Status::Error), "error");
    assert!(!resumed_after_fork(&read(r#"{"ledger": {"samples": [{"kind": "plan"}]}}"#)));
    assert!(resumed_after_fork(&read(r#"{"ledger": {"samples": [{"kind": "fork_answer"}]}}"#)));
}

fn spec() -> ScriptSpec {
    ScriptSpec {
        customers: vec!["Acme".to_string()],
        send: true,
        wait_paid: false,
        receipt: false,
        report_each: false,
        report_all: true,
    }
}

#[test]
fn a_lane_of_the_script_does_what_is_declared() {
    let s = spec();
    let c = next_call("Acme", "E-T2-r1", Stage::Find).unwrap();
    assert_eq!((c.path.as_str(), c.post), ("/api/customers?name=Acme", false));
    let stage = advance(&s, "Acme", Stage::Find, &read(r#"[{"id": 4}]"#)).unwrap();
    assert!(matches!(stage, Stage::Create(4)));
    let c = next_call("Acme", "E-T2-r1", stage).unwrap();
    assert_eq!((c.op.as_str(), c.key.as_deref()), ("createInvoice", Some("E-T2-r1/Acme/create")));
    assert_eq!(c.body.unwrap().to_string(), r#"{"amount_cents":10000,"customer_id":4}"#);
    let stage = advance(&s, "Acme", stage, &read(r#"{"id": 9}"#)).unwrap();
    assert!(matches!(stage, Stage::Send(9)));
    let c = next_call("Acme", "E-T2-r1", stage).unwrap();
    assert_eq!((c.path.as_str(), c.key.as_deref()), ("/api/invoices/9/send", Some("E-T2-r1/Acme/send")));
    let stage = advance(&s, "Acme", stage, &Json::Null).unwrap();
    assert!(matches!(stage, Stage::Finished(9)));
    assert!(next_call("Acme", "E-T2-r1", stage).is_none());
    assert_eq!(report_over(&vec![9, 10], "k".to_string()).body.unwrap().to_string(), r#"{"invoice_ids":[9,10]}"#);
    // Two customers of one name are a question.
    let e = advance(&s, "Acme", Stage::Find, &read(r#"[{"id": 4}, {"id": 5}]"#)).unwrap_err();
    assert_eq!(e, "fork:2 customers named Acme");
    let mut ledger = Ledger::new(0);
    let end = end_script(Some(e), &mut ledger);
    assert_eq!((end.status, ledger.forks.len()), (Status::NeedThink, 1));
    assert_eq!(end_script(None, &mut ledger).status, Status::Committed);
    assert_eq!(end_script(Some("x".to_string()), &mut ledger).status, Status::Error);
    assert_eq!(no_script("T99"), "no script for T99");
}

#[test]
fn calls_of_the_script_are_retried_up_to_four_times() {
    assert!(matches!(after_call(1, &Answer::Status(200, Json::Null)), Then::Good(_)));
    assert!(matches!(after_call(1, &Answer::Status(429, Json::Null)), Then::Again(40)));
    assert!(matches!(after_call(3, &Answer::Status(500, Json::Null)), Then::Again(160)));
    assert!(matches!(after_call(4, &Answer::Status(500, Json::Null)), Then::Bad(_)));
    assert!(matches!(after_call(1, &Answer::Status(404, read(r#"{"error": "gone"}"#))), Then::Bad(e) if e == "404 gone"));
    assert!(matches!(after_call(3, &Answer::Nothing("refused".to_string())), Then::Again(40)));
    assert!(matches!(after_call(4, &Answer::Nothing("refused".to_string())), Then::Bad(e) if e == "refused"));
    let call = next_call("Acme", "p", Stage::Send(3)).unwrap();
    let row = row_for("s1", &call, 2, 10, 20, &Answer::Status(200, Json::Null));
    assert!(row.ok && row.write && row.attempt == 2 && row.surface == "api");
}

#[test]
fn an_invoice_is_paid_once() {
    let ev = |kind: &str, id: u64| AppEvent { seq: id, kind: kind.to_string(), entity: "invoice".to_string(), id, data: Json::Null };
    let mut payer = Payer::new();
    let log = vec![ev("invoice.created", 3), ev("invoice.sent", 3), ev("invoice.created", 4), ev("invoice.created", 3)];
    assert_eq!(payer.due(&log), [3, 4]);
    assert!(payer.due(&log).is_empty());
}

#[test]
fn arms_that_cannot_run_say_so() {
    let u = unwired("T1", "g", "Q");
    assert_eq!(u.plan.plan_id, "T1-Q");
    assert_eq!(u.error, "arm Q is not wired in this build (needs a model client)");
    assert_eq!(plan_name("T1", "r2"), "T1-r2");
}
