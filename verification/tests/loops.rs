//! Loops in which a model drives tools or a screen, and how their last words are read.

use base64::Engine;
use rwmcp::effect::EffectError;
use rwmcp::json::{as_list, parse_text, Json};
use rwmcp::ledger::{Ledger, Status};
use rwmcp::loops::{no_plan, offer_tools, read_closing, run_name, says_done, tell_outcome, Ending, Heard, ToolLoop};
use rwmcp::page::{
    after_click, after_look, click_by_name, fill, find_chrome, on_page, usual_places, Next, OnPage, WebMcpBackend, SCREEN_H, SCREEN_W,
};
use rwmcp::plan::Node;
use rwmcp::screen::{computer_tool, read_action, Action, CuaLoop, Seen};
use rwmcp::world::{OpKind, UiSpec};

fn read(text: &str) -> Json {
    parse_text(text).unwrap()
}

#[test]
fn done_means_finished_and_negations_do_not() {
    for yes in ["done", "Done.", "All ten invoices are sent. done", "I am done here"] {
        assert!(says_done(yes), "{yes}");
    }
    for no in [
        "I am not done yet",
        "nothing is done",
        "I cannot complete this; the receipts are not done",
        "unable to finish, so this is not done",
        "abandoned",
        "I have done nothing",
        "undone",
    ] {
        assert!(!says_done(no), "{no}");
    }
}

#[test]
fn words_end_where_letters_and_numbers_do() {
    assert!(says_done("(done)"));
    assert!(says_done("alles done\u{2014}wirklich"));
    assert!(!says_done("done\u{e9}"), "a letter of any alphabet belongs to the word");
    assert!(says_done("D\u{4f}NE"));
}

/// One turn of a loop against a model that says this.
fn says(text: &str, parallel: bool) -> (Ending, Ledger) {
    let mut l = ToolLoop::new(Vec::new(), "  customers (1): Acme", "Create an invoice for Acme and send it.", parallel, 40);
    let body = l.ask().unwrap();
    let messages = body.iter().find(|(k, _)| k == "messages").unwrap();
    let first = as_list(Some(&messages.1)).unwrap()[0].get("content").unwrap().to_string();
    assert!(first.starts_with("\"World facts"), "the baseline gets the same facts as the planner: {first}");
    assert_eq!(body.iter().any(|(k, _)| k == "tool_choice"), !parallel);
    let quoted = serde_json::to_string(text).unwrap();
    let resp = read(&format!(r#"{{"stop_reason": "end_turn", "content": [{{"type": "text", "text": {quoted}}}]}}"#));
    match l.hear(&resp) {
        Heard::End(e) => {
            let mut ledger = Ledger::new(0);
            e.note_in(&mut ledger);
            (e, ledger)
        }
        Heard::Calls(_) => panic!("no call was made"),
    }
}

#[test]
fn giving_up_is_an_error() {
    let (e, _) = says("I am not able to help with that.", true);
    assert_eq!(e.status, Status::Error);
    assert!(e.error.as_deref().unwrap_or("").starts_with("gave up"));
}

#[test]
fn done_is_a_commit_and_a_question_is_a_yield() {
    let (e, _) = says("done", false);
    assert_eq!(e.status, Status::Committed);
    let (e, ledger) = says("Which Acme do you mean?", false);
    assert_eq!(e.status, Status::NeedThink);
    assert_eq!(ledger.forks.len(), 1);
}

#[test]
fn calls_are_answered_and_turns_run_out() {
    let mut l = ToolLoop::new(Vec::new(), "", "g", true, 2);
    l.ask().unwrap();
    let resp = read(
        r#"{"stop_reason": "tool_use", "content": [
            {"type": "tool_use", "id": "t1", "name": "sendInvoice", "input": {"id": 3, "idempotency_key": "k"}},
            {"type": "tool_use", "id": "t2", "name": "getInvoice", "input": {"id": 4}}]}"#,
    );
    match l.hear(&resp) {
        Heard::Calls(cs) => {
            assert_eq!(cs.len(), 2);
            assert_eq!((cs[0].id.as_str(), cs[0].name.as_str(), cs[0].key.as_deref()), ("t1", "sendInvoice", Some("k")));
            assert_eq!(cs[1].key, None);
        }
        Heard::End(_) => panic!("calls were made"),
    }
    l.tell(&vec![("t1".to_string(), tell_outcome(&Ok(Json::Bool(true)))), ("t2".to_string(), tell_outcome(&Err(EffectError::Fatal("x".to_string()))))]);
    let told = l.messages[2].to_string();
    assert!(told.contains(r#""content":"true","tool_use_id":"t1""#), "{told}");
    assert!(told.contains("error: x"), "{told}");
    assert!(l.ask().is_some());
    assert!(l.ask().is_none(), "two turns");
    assert_eq!(Ending::out_of_turns(2).status, Status::Error);
    let refused = read(r#"{"stop_reason": "refusal", "content": []}"#);
    assert!(matches!(l.hear(&refused), Heard::End(e) if e.status == Status::Error));
}

#[test]
fn tools_are_offered_in_the_shape_the_model_takes() {
    let tools = read(r#"[{"name": "a", "description": "d", "inputSchema": {"type": "object"}}]"#);
    let offered = offer_tools(&tools);
    assert_eq!(offered.len(), 1);
    assert!(offered[0].get("input_schema").is_some() && offered[0].get("inputSchema").is_none());
}

#[test]
fn names_of_runs_and_plans_of_nothing() {
    assert_eq!(run_name("T1", "B", "r2"), "T1-B-r2");
    let p = no_plan("x".to_string(), "g");
    assert_eq!((p.plan_id.as_str(), p.nodes.len()), ("x", 0));
    assert_eq!(read_closing("What now?").status, Status::NeedThink);
}

#[test]
fn the_screen_loop_shows_a_fresh_picture_every_turn() {
    let mut l = CuaLoop::new("facts", "goal", 3);
    let png: Vec<u8> = vec![0x89, b'P', b'N', b'G', 0, 255, 1];
    assert!(l.more());
    let body = Json::Obj(l.ask(&png)).to_string();
    let encoded = base64::engine::general_purpose::STANDARD.encode(&png);
    assert!(body.contains(&encoded), "{body}");
    assert!(body.contains("Here is the screen."));
    for (input, words) in [
        (r#"{"action": "click", "x": 3, "y": 4.5}"#, "click"),
        (r#"{"action": "type", "text": "hi"}"#, "type"),
        (r#"{"action": "key"}"#, "key"),
        (r#"{"action": "wait"}"#, "wait"),
    ] {
        let resp = read(&format!(r#"{{"content": [{{"type": "tool_use", "id": "c1", "name": "computer", "input": {input}}}]}}"#));
        match l.hear(&resp) {
            Seen::Act(id, op, _) => assert_eq!((id.as_str(), op.contains(words)), ("c1", true), "{op}"),
            Seen::End(_) => panic!("an action was asked for"),
        }
        l.tell("c1", None);
    }
    assert!(matches!(read_action(&read(r#"{"action": "key"}"#)), Action::Key(k) if k == "Enter"));
    assert!(matches!(read_action(&read(r#"{"action": "jump"}"#)), Action::Unknown(a) if a == "jump"));
    assert!(matches!(read_action(&read(r#"{"action": "done", "text": "done"}"#)), Action::Done(e) if e.status == Status::Committed));
    assert!(computer_tool().to_string().contains("Exactly one action per call."));
    assert_eq!((SCREEN_W, SCREEN_H), (1280, 800));
}

#[test]
fn every_length_of_picture_is_encoded() {
    for n in 0..10u8 {
        let png: Vec<u8> = (0..n).map(|i| i.wrapping_mul(37)).collect();
        let mut l = CuaLoop::new("", "", 1);
        let body = Json::Obj(l.ask(&png)).to_string();
        let encoded = base64::engine::general_purpose::STANDARD.encode(&png);
        assert!(body.contains(&format!("\"data\":\"{encoded}\"")), "{n}: {body}");
    }
}

fn approve(control: &str) -> Node {
    Node {
        id: "A".to_string(),
        op: "approveInvoice".to_string(),
        kind: OpKind::Ui,
        args: Vec::new(),
        surface: "a11y".to_string(),
        key: None,
        reads: Vec::new(),
        writes: Vec::new(),
        external: false,
        produces: None,
        fork: None,
        ui: Some(UiSpec { route: "/invoices/{id}".to_string(), control: read(control) }),
        check: None,
        before: Vec::new(),
        post: String::new(),
    }
}

#[test]
fn a_control_is_found_by_its_name() {
    let args = vec![("id".to_string(), Json::Int(7)), ("who".to_string(), Json::Str("Acme".to_string()))];
    assert_eq!(fill("/invoices/{id}?for={who}", &args), "/invoices/7?for=Acme");
    let p = on_page("http://app/", &approve(r#"{"role": "link", "name": "Approve {id}"}"#), &args).ok().unwrap();
    assert_eq!((p.url.as_str(), p.role.as_str(), p.name.as_str()), ("http://app/invoices/7", "link", "Approve 7"));
    assert_eq!(p.watch.as_deref(), Some("http://app/api/invoices/7"));
    let p = on_page("http://app", &approve("{}"), &Vec::new()).ok().unwrap();
    assert_eq!((p.role.as_str(), p.name.as_str(), p.watch), ("button", "", None));
    let mut plain = approve("{}");
    plain.ui = None;
    assert!(on_page("http://app", &plain, &args).is_err());
    let script = click_by_name("button", "Say \"hi\"");
    assert!(script.contains(r#"const q = "Say \"hi\""; const el"#), "{script}");
    assert!(script.contains("querySelectorAll('button, [role=\"button\"]')"));
}

#[test]
fn a_control_gets_a_moment_to_appear() {
    let p = OnPage { url: String::new(), role: "button".to_string(), name: "Go".to_string(), watch: None };
    assert!(matches!(after_click(&p, &Ok(Json::Bool(true)), 1), Next::Go));
    assert!(matches!(after_click(&p, &Ok(Json::Bool(false)), 1), Next::Again(100)));
    match after_click(&p, &Ok(Json::Bool(false)), 30) {
        Next::Stop(e) => assert_eq!(e.to_string(), EffectError::Fatal("no button named \"Go\"".to_string()).to_string()),
        _ => panic!("thirty tries are enough"),
    }
    assert!(matches!(after_look(&p, &read(r#"{"approved": true}"#), 1), Next::Go));
    assert!(matches!(after_look(&p, &read(r#"{"approved": false}"#), 29), Next::Again(100)));
    assert!(matches!(after_look(&p, &Json::Null, 30), Next::Stop(_)));
}

#[test]
fn tools_of_a_page_are_called_where_the_page_runs() {
    let b = WebMcpBackend { base: "http://app/".to_string() };
    assert_eq!(b.surface(), "webmcp");
    assert!(!b.away(&Json::Str("http://app".to_string())));
    assert!(b.away(&Json::Str("null".to_string())));
    assert!(b.away(&Json::Null));
    assert_eq!(b.call_script("send\"It", &read(r#"{"id": 1}"#)), r#"window.__webmcp.call("send\"It", {"id":1})"#);
}

#[test]
fn the_browser_is_the_named_one_or_the_first_that_is_there() {
    let there = vec![false, false, true, true, false];
    assert_eq!(find_chrome(None, None, &there).as_deref(), Some("/usr/bin/chromium"));
    assert_eq!(find_chrome(Some("0"), Some("/opt/chrome"), &there).as_deref(), Some("/opt/chrome"));
    assert_eq!(find_chrome(Some("1"), Some("/opt/chrome"), &there), None);
    assert_eq!(find_chrome(Some(""), None, &vec![false; 5]), None);
    assert_eq!(usual_places().len(), 5);
}
