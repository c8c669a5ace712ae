//! The app is the measurement instrument. These tests pin the behaviours every arm relies on.

use rwmcp::api::{door_of, page_only, scheduled, show_list, ApiError};
use rwmcp::domain::{DomainError, InvoiceStatus};
use rwmcp::invoicing::{World, Written};
use rwmcp::json::{as_list, as_u64, parse_text, Json};
use rwmcp::mcp::{handle, reply, tools, Turn};

fn read(text: &str) -> Json {
    parse_text(text).unwrap()
}

/// What a write answers: its status and its body.
fn answer(r: Result<Written, DomainError>) -> (u16, Json) {
    match r {
        Ok(w) => (200, w.value),
        Err(e) => {
            let a = ApiError::refusal(&e);
            (a.0, a.body())
        }
    }
}

fn create_invoice(w: &mut World, key: Option<&str>) -> (u16, Json) {
    assert!(w.has_room());
    answer(w.create_invoice("api", key, 1, 500, 1000))
}

fn send(w: &mut World, id: u64, key: Option<&str>) -> (u16, Json) {
    assert!(w.has_room());
    answer(w.send_invoice("api", key, id, false, 1000))
}

fn id_of(v: &Json) -> u64 {
    as_u64(v.get("id")).unwrap()
}

fn text(v: &Json, k: &str) -> String {
    v.get(k).map(|x| x.to_string()).unwrap_or_default()
}

#[test]
fn a_keyed_write_replays_instead_of_repeating() {
    let mut w = World::seeded(1);
    let (s1, first) = create_invoice(&mut w, Some("k1"));
    let (s2, second) = create_invoice(&mut w, Some("k1"));
    assert_eq!((s1, s2), (200, 200));
    assert_eq!(first.to_string(), second.to_string(), "the replay must return the identical body");
    let eff = w.show_effects();
    let rows = as_list(eff.get("effects")).unwrap();
    assert_eq!(rows.len(), 2);
    assert_eq!(text(&rows[1], "replayed"), "true");
    assert_eq!(text(&eff, "double_sends"), "0");
}

#[test]
fn two_unkeyed_sends_are_one_double_send() {
    let mut w = World::seeded(1);
    let (_, inv) = create_invoice(&mut w, None);
    let id = id_of(&inv);
    assert_eq!(send(&mut w, id, None).0, 200);
    assert_eq!(send(&mut w, id, None).0, 200);
    assert_eq!(text(&w.show_effects(), "double_sends"), "1");
}

#[test]
fn approve_is_refused_without_the_page_header() {
    let refused = page_only(false).unwrap();
    assert_eq!(refused.0, 403);
    assert!(page_only(true).is_none());
    let mut w = World::seeded(1);
    let (_, inv) = create_invoice(&mut w, None);
    let (v, e) = w.approve_invoice(id_of(&inv), 1000).unwrap();
    assert_eq!(text(&v, "approved"), "true");
    assert_eq!(e.kind, "invoice.approved");
}

#[test]
fn send_needs_approval_when_chaos_says_so() {
    let mut w = World::seeded(1);
    w.chaos.require_approval = true;
    let (_, inv) = create_invoice(&mut w, None);
    let id = id_of(&inv);
    let (status, body) = send(&mut w, id, None);
    assert_eq!(status, 409, "{}", body.to_string());
    w.approve_invoice(id, 1000).unwrap();
    assert_eq!(send(&mut w, id, None).0, 200);
}

/// Answer a request at the tool door.
fn at_mcp(w: &mut World, req: &str) -> Json {
    match handle(&read(req)) {
        Turn::Answer(v) => v,
        Turn::Accepted => Json::Null,
        Turn::Do(id, call) => {
            assert!(w.has_room());
            let r = w.call(&call, false, 1000);
            reply(id, &r)
        }
    }
}

#[test]
fn the_mcp_door_reports_errors_with_their_status() {
    let mut w = World::seeded(1);
    let (_, inv) = create_invoice(&mut w, None);
    let id = id_of(&inv);
    let v = at_mcp(
        &mut w,
        &format!(r#"{{"jsonrpc":"2.0","id":7,"method":"tools/call","params":{{"name":"sendReceipt","arguments":{{"id":{id}}}}}}}"#),
    );
    let r = v.get("result").unwrap();
    assert_eq!(text(r, "isError"), "true");
    assert_eq!(text(r, "_status"), "409");
    let v = at_mcp(
        &mut w,
        &format!(
            r#"{{"jsonrpc":"2.0","id":8,"method":"tools/call","params":{{"name":"sendInvoice","arguments":{{"id":{id},"idempotency_key":"s1"}}}}}}"#
        ),
    );
    let r = v.get("result").unwrap();
    assert_eq!(text(r, "isError"), "false");
    assert_eq!(text(r.get("structuredContent").unwrap(), "status"), "\"sent\"");
}

#[test]
fn reset_reseeds_and_seed_six_has_two_acmes() {
    let mut w = World::seeded(1);
    create_invoice(&mut w, None);
    w.reset(6);
    let state = w.snapshot(Json::Null);
    assert_eq!(as_list(state.get("invoices")).unwrap().len(), 0);
    let acmes = as_list(state.get("customers")).unwrap().iter().filter(|c| text(c, "name") == "\"Acme\"").count();
    assert_eq!(acmes, 2);
}

#[test]
fn a_rate_limited_write_says_when_to_come_back() {
    let mut w = World::seeded(1);
    w.chaos.rate_limit_per_sec = 1;
    assert_eq!(create_invoice(&mut w, None).0, 200);
    let e = w.create_invoice("api", None, 1, 1, 1000).unwrap_err();
    let a = ApiError::refusal(&e);
    assert_eq!(a.0, 429);
    let after = a.2.unwrap();
    assert!((1..=1000).contains(&after), "{after}");
    assert_eq!(text(&a.body(), "retry_after_ms"), after.to_string());
    // When it comes back then, it passes.
    assert!(w.has_room());
    assert!(w.create_invoice("api", None, 1, 1, 1000 + after as u128).is_ok());
}

#[test]
fn every_refusal_has_its_status_and_words() {
    for (e, status, words) in [
        (DomainError::NotFound("invoice", 7), 404, "invoice 7 not found"),
        (DomainError::NotApproved(7), 409, "invoice 7 is not approved; approval is UI-only"),
        (DomainError::NotPaid(7), 409, "invoice 7 has no payment yet"),
        (DomainError::Ambiguous("Acme".to_string(), 2), 409, "2 customers match 'Acme'"),
        (DomainError::ChaosFail, 500, "chaos: send failed before doing anything"),
        (DomainError::RateLimited { retry_after_ms: 12 }, 429, "chaos: rate limited, retry after 12 ms"),
    ] {
        assert_eq!((e.status(), e.message().as_str()), (status, words));
    }
    assert_eq!(DomainError::ChaosFail.retry_after_ms(), None);
    assert_eq!(DomainError::RateLimited { retry_after_ms: 12 }.retry_after_ms(), Some(12));
    let mut w = World::seeded(6);
    assert!(matches!(w.resolve_customer("Acme"), Err(DomainError::Ambiguous(..))));
    assert!(matches!(w.invoice(99), Err(DomainError::NotFound(..))));
    assert_eq!(create_invoice(&mut w, None).0, 200);
    assert!(w.create_invoice("api", None, 999, 1, 0).is_err());
}

#[test]
fn a_send_that_fails_leaves_nothing_behind() {
    let mut w = World::seeded(1);
    w.chaos.sends_may_fail = true;
    let (_, inv) = create_invoice(&mut w, None);
    let id = id_of(&inv);
    assert!(w.send_draws(Some("k"), id, 1000));
    let e = w.send_invoice("api", Some("k"), id, true, 1000).unwrap_err();
    assert_eq!(e.status(), 500);
    assert_eq!(w.outbox.len(), 0);
    assert!(w.send_invoice("api", Some("k"), id, false, 1000).is_ok());
    assert_eq!(w.outbox.len(), 1);
    // A key that was used is not thrown dice for again.
    assert!(!w.send_draws(Some("k"), id, 1000));
}

#[test]
fn an_invoice_never_goes_back() {
    let mut w = World::seeded(1);
    let (_, inv) = create_invoice(&mut w, None);
    let id = id_of(&inv);
    w.receive_payment(id, false, 1000).unwrap();
    assert_eq!(w.invoice(id).unwrap().status, InvoiceStatus::Paid);
    send(&mut w, id, None);
    assert_eq!(w.invoice(id).unwrap().status, InvoiceStatus::Paid, "a paid invoice stays paid");
    assert!(w.send_receipt("api", None, id, 1000).is_ok());
    assert!(w.invoice(id).unwrap().receipt_sent);
}

#[test]
fn a_receipt_follows_a_payment() {
    let mut w = World::seeded(1);
    let (_, inv) = create_invoice(&mut w, None);
    let e = w.send_receipt("api", None, id_of(&inv), 1000).unwrap_err();
    assert_eq!(e.status(), 409);
}

#[test]
fn a_report_sums_what_it_is_over() {
    let mut w = World::seeded(1);
    let a = id_of(&create_invoice(&mut w, None).1);
    let b = id_of(&create_invoice(&mut w, None).1);
    send(&mut w, b, None);
    let ids = vec![a, b];
    assert!(w.report_fits(&ids));
    let (status, r) = answer(w.create_report("api", None, &ids, 1000));
    assert_eq!(status, 200);
    assert_eq!(text(&r, "total_cents"), "1000");
    assert_eq!(text(&w.report(id_of(&r)).unwrap(), "total_cents"), "1000");
    assert!(w.report(12345).is_err());
}

#[test]
fn ids_stay_distinct() {
    let mut w = World::seeded(1);
    let mut ids: Vec<u64> = (0..5).map(|_| id_of(&create_invoice(&mut w, None).1)).collect();
    ids.sort();
    ids.dedup();
    assert_eq!(ids.len(), 5);
}

#[test]
fn the_tool_door_answers_the_rest_of_the_protocol() {
    let mut w = World::seeded(1);
    let v = at_mcp(&mut w, r#"{"jsonrpc":"2.0","id":1,"method":"initialize"}"#);
    assert_eq!(text(v.get("result").unwrap(), "protocolVersion"), "\"2025-06-18\"");
    let v = at_mcp(&mut w, r#"{"jsonrpc":"2.0","id":2,"method":"tools/list"}"#);
    assert_eq!(text(v.get("result").unwrap(), "tools"), tools().to_string());
    let v = at_mcp(&mut w, r#"{"jsonrpc":"2.0","id":3,"method":"what"}"#);
    assert_eq!(text(v.get("error").unwrap(), "code"), "-32601");
    assert!(matches!(handle(&read(r#"{"method":"notifications/initialized"}"#)), Turn::Accepted));
    // Every tool that is offered is known.
    for t in as_list(Some(&tools())).unwrap() {
        let name = text(t, "name");
        let v = at_mcp(&mut w, &format!(r#"{{"id":4,"method":"tools/call","params":{{"name":{name},"arguments":{{}}}}}}"#));
        assert!(!v.to_string().contains("unknown tool"), "{}", v.to_string());
    }
}

#[test]
fn doors_and_delays_are_told() {
    assert_eq!(door_of(None), "api");
    assert_eq!(door_of(Some("mcp")), "mcp");
    assert_eq!(scheduled(3, 250).to_string(), r#"{"delay_ms":250,"invoice_id":3,"scheduled":true}"#);
    let w = World::seeded(11);
    let many = w.find_customers_by_prefix("Customer ");
    assert_eq!(many.len(), 300);
    assert_eq!(as_list(Some(&show_list(&many))).unwrap().len(), 300);
}
