use agent_core::json::Json;
use agent_core::scheduling::cron_types::RunStatus;
use agent_core::scheduling::job::{WebhookFilter, WebhookJobDef};
use agent_core::scheduling::webhook::{
    admit_request, agent_call, agent_hook_gate, agent_hook_session, answer_wake,
    body_failure_reply, finish_agent_call, finish_run, first_header, handle_body, judge_payload,
    judge_request, pass_gate, read_agent_call, route_request, settle_run, take_chunk,
    target_address, wake_hook_gate, Admission, BodyFailure, Gate, RequestHead, Route, Verdict,
    WEBHOOK_BODY_LIMIT,
};
use agent_core::scheduling::webhook_auth::{
    authorize, bears_token, carries_code, timestamp_is_fresh, verify_hmac_signature, AuthFailure,
    Credentials,
};
use agent_core::scheduling::webhook_guard::WebhookGuard;
use agent_core::scheduling::webhook_loader::WebhookAuth;
use agent_core::scheduling::webhook_path::{
    authorize_path_job, find_path_job, path_prompt, path_session_key,
};
use agent_core::scheduling::webhook_payload::{
    acceptable_content_type, extract_event_type, filter_matches, ignore_reason, json_content_type,
    pretty_payload, read_payload, truncate_text, webhook_prompt, write_prompt,
};
use agent_core::time::{format_instant, Stamp, UtcInstant};
use hmac::Mac;

type PathJob = agent_core::scheduling::webhook_loader::WebhookJobDef;

fn json(text: &str) -> Json {
    Json::parse(text.as_bytes()).unwrap()
}

fn sign(body: &[u8], secret: &str) -> String {
    let mut mac = hmac::Hmac::<sha2::Sha256>::new_from_slice(secret.as_bytes()).unwrap();
    mac.update(body);
    format!("sha256={}", hex::encode(mac.finalize().into_bytes()))
}

fn job(route: &str) -> WebhookJobDef {
    WebhookJobDef {
        id: format!("test/job/{}-id", route),
        route: route.to_string(),
        secret: "s3cret".to_string(),
        auth: WebhookAuth::Hmac,
        target: "last".to_string(),
        prompt_template: "Look at {{issue.title}}".to_string(),
        events: None,
        filters: None,
        payload_off: false,
    }
}

fn head(path: &str) -> RequestHead {
    RequestHead {
        is_post: true,
        path: path.to_string(),
        content_type: Some("application/json".to_string()),
        content_length: None,
        signature: None,
        authorization: None,
        timestamp: None,
        event: None,
        delivery_id: None,
    }
}

fn noon() -> Stamp {
    let at = UtcInstant { secs: 1_772_366_400, nanos: 0 };
    Stamp { text: format_instant(&at).unwrap(), at }
}

// ── Signatures ─────────────────────────────────────────────────────────────

#[test]
fn verify_hmac_signature_valid() {
    let body = b"test payload";
    let secret = "my-secret";
    let sig = sign(body, secret);
    assert!(verify_hmac_signature(body, secret, &sig));
}

#[test]
fn verify_hmac_signature_invalid() {
    assert!(!verify_hmac_signature(b"test payload", "secret", "sha256=bad_hex"));
}

#[test]
fn verify_hmac_signature_wrong_length() {
    assert!(!verify_hmac_signature(b"body", "secret", "sha256=abc"));
}

#[test]
fn signature_of_a_known_message() {
    assert!(verify_hmac_signature(
        b"what do ya want for nothing?",
        "Jefe",
        "sha256=5bdcc146bf60754e6a042426089575c75a003f089d2739839dec58b964ec3843"
    ));
    assert!(!verify_hmac_signature(
        b"what do ya want for nothing?",
        "Jefe",
        "sha256=5BDCC146bf60754e6a042426089575c75a003f089d2739839dec58b964ec3843"
    ));
    assert!(carries_code(&[0, 10, 255], "sha256=000aff"));
    assert!(!carries_code(&[0, 10, 255], "sha256=000afe"));
}

#[test]
fn signed_requests() {
    let j = job("r");
    let now = noon().at;
    let body = b"{}";
    let none = Credentials { signature: None, authorization: None, timestamp: None };
    assert_eq!(authorize(&j, &none, body, &now), Some(AuthFailure::MissingSignature));
    let good = sign(body, "s3cret");
    let c = Credentials { signature: Some(&good), authorization: None, timestamp: None };
    assert_eq!(authorize(&j, &c, body, &now), None);
    assert_eq!(authorize(&j, &c, b"other", &now), Some(AuthFailure::InvalidSignature));
    let mut open = job("r");
    open.secret = String::new();
    assert_eq!(authorize(&open, &c, body, &now), Some(AuthFailure::Misconfigured));
}

#[test]
fn signed_requests_with_a_timestamp() {
    let j = job("r");
    let now = noon().at;
    let body = b"{}";
    let ts = format!("{}", now.secs - 300);
    let signed = sign(format!("v2:{}:{{}}", ts).as_bytes(), "s3cret");
    let c = Credentials { signature: Some(&signed), authorization: None, timestamp: Some(&ts) };
    assert_eq!(authorize(&j, &c, body, &now), None);
    let late = UtcInstant { secs: now.secs + 1, nanos: 0 };
    assert_eq!(authorize(&j, &c, body, &late), Some(AuthFailure::StaleTimestamp));
    let plain = sign(body, "s3cret");
    let c = Credentials { signature: Some(&plain), authorization: None, timestamp: Some(&ts) };
    assert_eq!(authorize(&j, &c, body, &now), Some(AuthFailure::InvalidSignature));
    let c = Credentials { signature: None, authorization: None, timestamp: Some(&ts) };
    assert_eq!(authorize(&j, &c, body, &now), Some(AuthFailure::InvalidSignature));
    let c = Credentials { signature: Some(&plain), authorization: None, timestamp: Some("soon") };
    assert_eq!(authorize(&j, &c, body, &now), Some(AuthFailure::StaleTimestamp));
}

#[test]
fn fresh_timestamps() {
    let now = UtcInstant { secs: 1000, nanos: 500 };
    assert!(timestamp_is_fresh("700", &now));
    assert!(!timestamp_is_fresh("699", &now));
    assert!(timestamp_is_fresh("1301", &now));
    assert!(!timestamp_is_fresh("1302", &now));
    assert!(!timestamp_is_fresh("9223372036854775807", &now));
    let sharp = UtcInstant { secs: 1000, nanos: 0 };
    assert!(timestamp_is_fresh("1300", &sharp));
    assert!(!timestamp_is_fresh("1301", &sharp));
}

#[test]
fn bearer_tokens() {
    assert!(bears_token(Some("Bearer abc"), "abc"));
    assert!(!bears_token(Some("Bearer abd"), "abc"));
    assert!(!bears_token(Some("bearer abc"), "abc"));
    assert!(!bears_token(None, "abc"));
    let mut j = job("r");
    j.auth = WebhookAuth::Bearer;
    let c = Credentials { signature: None, authorization: Some("Bearer s3cret"), timestamp: None };
    assert_eq!(authorize(&j, &c, b"", &noon().at), None);
    let c = Credentials { signature: None, authorization: None, timestamp: None };
    assert_eq!(authorize(&j, &c, b"", &noon().at), Some(AuthFailure::InvalidToken));
}

// ── Payloads ───────────────────────────────────────────────────────────────

#[test]
fn extract_event_type_header_chain() {
    let payload = json(r#"{"type": "payload-type"}"#);
    assert_eq!(extract_event_type(Some("push"), &payload), Some("push".to_string()));
    assert_eq!(extract_event_type(None, &payload), Some("payload-type".to_string()));
    let payload2 = json(r#"{"event_type": "et"}"#);
    assert_eq!(extract_event_type(None, &payload2), Some("et".to_string()));
    assert_eq!(extract_event_type(None, &json("{}")), None);
}

#[test]
fn event_types_that_are_no_text() {
    let payload = json(r#"{"event_type": 5, "type": "t"}"#);
    assert_eq!(extract_event_type(None, &payload), None);
    assert_eq!(extract_event_type(Some(""), &json(r#"{"type": "t"}"#)), Some("t".to_string()));
}

#[test]
fn filter_matches_equals_matches_not() {
    let payload = json(r#"{"action": "opened", "issue": {"state": "open", "number": 7}}"#);
    let f = |field: &str, equals: Option<&str>, matches_: Option<&str>, not: bool| WebhookFilter {
        field: field.to_string(),
        equals: equals.map(|s| s.to_string()),
        matches: matches_.map(|s| s.to_string()),
        not,
    };
    assert!(filter_matches(&f("action", Some("opened"), None, false), &payload));
    assert!(!filter_matches(&f("action", Some("closed"), None, false), &payload));
    assert!(filter_matches(&f("action", Some("closed"), None, true), &payload));
    assert!(filter_matches(&f("issue.state", Some("open"), None, false), &payload));
    assert!(filter_matches(&f("issue.number", Some("7"), None, false), &payload));
    assert!(filter_matches(&f("issue.title", Some("x"), None, true), &payload)); // missing + not
    assert!(filter_matches(&f("action", None, Some("open.*"), false), &payload));
    assert!(!filter_matches(&f("action", None, Some("^pen"), false), &payload));
    assert!(!filter_matches(&f("action", None, Some("("), false), &payload));
    assert!(filter_matches(&f("action", None, None, false), &payload));
    assert!(!filter_matches(&f("issue", None, None, false), &payload));
    assert!(filter_matches(&f("issue", None, None, true), &payload));
}

#[test]
fn pretty_payload_truncates_to_limit() {
    let big = json(&format!("{{\"data\": \"{}\"}}", "x".repeat(10_000)));
    let out = pretty_payload(&big, 4000);
    assert!(out.chars().count() < 4100);
    assert!(out.ends_with("…[truncated]"));
    assert_eq!(pretty_payload(&json(r#"{"a": 1}"#), 4000), "{\n  \"a\": 1\n}");
}

#[test]
fn cut_texts() {
    assert_eq!(truncate_text("abc", 3), "abc");
    assert_eq!(truncate_text("abcd", 3), "abc\n…[truncated]");
    assert_eq!(truncate_text("", 0), "");
}

#[test]
fn content_types() {
    assert!(acceptable_content_type(Some("application/json; charset=utf-8")));
    assert!(acceptable_content_type(Some(" Application/JSON ")));
    assert!(acceptable_content_type(Some("text/plain")));
    assert!(acceptable_content_type(Some("application/x-www-form-urlencoded")));
    assert!(!acceptable_content_type(Some("multipart/form-data; boundary=x")));
    assert!(!acceptable_content_type(Some("")));
    assert!(!acceptable_content_type(None));
    assert!(json_content_type(Some("application/json;x")));
    assert!(!json_content_type(Some("text/plain")));
}

#[test]
fn payloads_that_are_no_json_are_texts() {
    assert_eq!(read_payload(b"a=1&b=2").as_str(), Some("a=1&b=2"));
    assert_eq!(read_payload(&[0x68, 0xff]).as_str(), Some("h\u{fffd}"));
    assert_eq!(read_payload(b"\"quoted\"").as_str(), Some("quoted"));
    assert!(read_payload(b"{}").as_str().is_none());
}

#[test]
fn reasons_to_ignore() {
    let mut j = job("r");
    let payload = json(r#"{"a": "b"}"#);
    assert_eq!(ignore_reason(&j, None, &payload), None);
    j.events = Some(vec!["push".to_string()]);
    assert_eq!(
        ignore_reason(&j, Some("pull"), &payload).as_deref(),
        Some("event 'pull' not in whitelist")
    );
    assert_eq!(
        ignore_reason(&j, None, &payload).as_deref(),
        Some("event '' not in whitelist")
    );
    assert_eq!(ignore_reason(&j, Some("push"), &payload), None);
    j.filters = Some(vec![WebhookFilter {
        field: "a".to_string(),
        equals: Some("c".to_string()),
        matches: None,
        not: false,
    }]);
    assert_eq!(
        ignore_reason(&j, Some("push"), &payload).as_deref(),
        Some("filters not satisfied")
    );
}

#[test]
fn prompts_of_webhooks() {
    let mut j = job("r");
    let payload = json(r#"{"issue": {"title": "Crash"}}"#);
    assert_eq!(
        webhook_prompt(&j, None, &payload),
        "Look at Crash\n\n--- webhook payload ---\n{\n  \"issue\": {\n    \"title\": \"Crash\"\n  }\n}"
    );
    j.payload_off = true;
    assert_eq!(webhook_prompt(&j, None, &payload), "Look at Crash");
    j.payload_off = false;
    j.prompt_template = "{{event_type}}: {{payload}}".to_string();
    assert_eq!(write_prompt(&j, Some("push"), &payload, "ALL"), "push: ALL");
    j.prompt_template = "x".to_string();
    assert_eq!(write_prompt(&j, None, &payload, ""), "x");
}

#[test]
fn values_may_spell_reserved_placeholders() {
    let mut j = job("r");
    j.payload_off = true;
    j.prompt_template = "[{{a}}]".to_string();
    let write = |j: &WebhookJobDef, event: Option<&str>, a: &str| {
        let payload = Json::Object(vec![("a".to_string(), Json::Str(a.to_string()))]);
        write_prompt(j, event, &payload, "ALL")
    };
    assert_eq!(write(&j, None, "{{payload}}"), "[ALL]");
    assert_eq!(write(&j, Some("push"), "{{event_type}}"), "[push]");
    assert_eq!(write(&j, None, "{{event_type}}"), "[{{event_type}}]");
    assert_eq!(write(&j, Some("push"), "{{payload}}{{event_type}}"), "[ALL{{event_type}}]");
    assert_eq!(write(&j, Some("push"), "{{b}}"), "[{{b}}]");
    j.prompt_template = "{{payload}}{{a}}".to_string();
    assert_eq!(write(&j, None, "{{payload}}"), "ALLALL");
    j.payload_off = false;
    j.prompt_template = "{{a}}".to_string();
    assert_eq!(write(&j, None, "{{payload}}"), "ALL\n\n--- webhook payload ---\nALL");
}

// ── Admission ──────────────────────────────────────────────────────────────

#[test]
fn routes() {
    let jobs = vec![job("a"), job("b")];
    assert!(matches!(route_request(true, "/hooks/agent", &jobs), Route::AgentHook));
    assert!(matches!(route_request(true, "/hooks/wake", &jobs), Route::WakeHook));
    assert!(matches!(route_request(true, "/hooks/b", &jobs), Route::Job(1)));
    for path in ["/hooks/c", "/hooks/a/b", "/hook/a", "/hooks/", "/"] {
        match route_request(true, path, &jobs) {
            Route::Refused(r) => {
                assert_eq!(r.status, 404);
                assert_eq!(r.body, "no webhook at this path");
            }
            _ => panic!("{}", path),
        }
    }
    match route_request(false, "/hooks/a", &jobs) {
        Route::Refused(r) => {
            assert_eq!(r.status, 405);
            assert_eq!(r.body, "POST only");
        }
        _ => panic!("a request that is no POST"),
    }
}

fn refusal(gate: Gate) -> (u16, &'static str) {
    match gate {
        Gate::Refused(r) => (r.status, r.body),
        Gate::Admitted(_) => panic!("admitted"),
    }
}

#[test]
fn gates() {
    let j = job("a");
    let mut guard = WebhookGuard::new();
    let mut h = head("/hooks/a");
    h.content_type = Some("image/png".to_string());
    assert_eq!(refusal(pass_gate(&j, &h, &mut guard, "ip", 0)).0, 415);

    let mut h = head("/hooks/a");
    h.content_length = Some("262145".to_string());
    assert_eq!(refusal(pass_gate(&j, &h, &mut guard, "ip", 0)), (413, "body too large"));
    h.content_length = Some("262144".to_string());
    let mut slots = Vec::new();
    for _ in 0..8 {
        match pass_gate(&j, &h, &mut guard, "ip", 0) {
            Gate::Admitted(slot) => slots.push(slot),
            Gate::Refused(r) => panic!("{}", r.body),
        }
    }
    assert_eq!(refusal(pass_gate(&j, &h, &mut guard, "ip", 0)), (503, "route busy"));
    guard.release(slots.pop().unwrap());
    assert!(matches!(pass_gate(&j, &h, &mut guard, "ip", 0), Gate::Admitted(_)));

    let mut guard = WebhookGuard::new();
    for _ in 0..120 {
        match pass_gate(&j, &h, &mut guard, "ip", 0) {
            Gate::Admitted(slot) => guard.release(slot),
            Gate::Refused(r) => panic!("{}", r.body),
        }
    }
    assert_eq!(refusal(pass_gate(&j, &h, &mut guard, "ip", 0)), (429, "rate limit exceeded"));
}

#[test]
fn admissions() {
    let jobs = vec![job("a")];
    let mut guard = WebhookGuard::new();
    match admit_request(&head("/hooks/a"), &jobs, &mut guard, "ip") {
        Admission::Job { index, slot } => {
            assert_eq!(index, 0);
            assert_eq!(slot.route, "a");
        }
        _ => panic!("not admitted"),
    }
    assert!(matches!(
        admit_request(&head("/hooks/agent"), &jobs, &mut guard, "ip"),
        Admission::AgentHook
    ));
    match admit_request(&head("/nowhere"), &jobs, &mut guard, "ip") {
        Admission::Refused(r) => assert_eq!(r.status, 404),
        _ => panic!("admitted"),
    }
}

#[test]
fn bodies_are_capped() {
    let mut body: Vec<u8> = Vec::new();
    assert!(take_chunk(&mut body, b"abc"));
    assert!(take_chunk(&mut body, b"d"));
    assert_eq!(body, b"abcd".to_vec());
    assert!(take_chunk(&mut body, &vec![0; WEBHOOK_BODY_LIMIT - 4]));
    assert!(take_chunk(&mut body, b""));
    assert!(!take_chunk(&mut body, b"x"));
    assert_eq!(body.len(), WEBHOOK_BODY_LIMIT);
    assert_eq!(body_failure_reply(BodyFailure::TooLarge).status, 413);
    assert_eq!(body_failure_reply(BodyFailure::TimedOut).body, "body read timeout");
    assert_eq!(body_failure_reply(BodyFailure::TimedOut).status, 408);
    assert_eq!(body_failure_reply(BodyFailure::Broken).status, 400);
}

#[test]
fn the_first_header_decides() {
    let text = |s: &str| Some(Some(s.to_string()));
    assert_eq!(first_header(vec![None, text("b"), text("c")]).as_deref(), Some("b"));
    assert_eq!(first_header(vec![Some(None), text("b")]), None);
    assert_eq!(first_header(vec![None, None]), None);
    assert_eq!(first_header(Vec::new()), None);
}

// ── Judgement ──────────────────────────────────────────────────────────────

#[test]
fn requests_are_judged() {
    let j = job("a");
    let mut guard = WebhookGuard::new();
    let stamp = noon();
    let body = br#"{"issue": {"title": "Crash"}}"#;
    let mut h = head("/hooks/a");
    match judge_request(&j, &h, body, &mut guard, &stamp, 0) {
        Verdict::Refused(r) => assert_eq!((r.status, r.body), (401, "missing signature")),
        _ => panic!("let in without a signature"),
    }
    h.signature = Some(sign(body, "s3cret"));
    h.delivery_id = Some("d-1".to_string());
    match judge_request(&j, &h, body, &mut guard, &stamp, 0) {
        Verdict::Run { prompt, session_key, payload } => {
            assert!(prompt.starts_with("Look at Crash\n\n--- webhook payload ---\n"));
            assert_eq!(session_key, "_job_a-id");
            assert_eq!(payload.to_text(), r#"{"issue":{"title":"Crash"}}"#);
        }
        _ => panic!("not run"),
    }
    match judge_request(&j, &h, body, &mut guard, &stamp, 1) {
        Verdict::Refused(r) => assert_eq!((r.status, r.body), (200, "duplicate")),
        _ => panic!("run twice"),
    }
    h.delivery_id = Some("d-2".to_string());
    assert!(matches!(handle_body(&j, &h, body, &mut guard), Verdict::Run { .. }));
}

#[test]
fn a_handled_delivery_is_known_afterwards() {
    let j = job("a");
    let mut guard = WebhookGuard::new();
    let body = b"{}";
    let mut h = head("/hooks/a");
    h.delivery_id = Some("d-1".to_string());
    match handle_body(&j, &h, body, &mut guard) {
        Verdict::Refused(r) => assert_eq!((r.status, r.body), (401, "missing signature")),
        _ => panic!("let in without a signature"),
    }
    h.signature = Some(sign(body, "s3cret"));
    assert!(matches!(handle_body(&j, &h, body, &mut guard), Verdict::Run { .. }));
    match handle_body(&j, &h, body, &mut guard) {
        Verdict::Refused(r) => assert_eq!((r.status, r.body), (200, "duplicate")),
        _ => panic!("run twice"),
    }
    assert!(!guard.check_delivery("d-1"));
}

#[test]
fn admitted_requests_are_counted() {
    let jobs = vec![job("a")];
    let mut guard = WebhookGuard::new();
    let mut admitted = 0;
    for _ in 0..120 {
        if let Admission::Job { slot, .. } =
            admit_request(&head("/hooks/a"), &jobs, &mut guard, "ip")
        {
            admitted += 1;
            guard.release(slot);
        }
    }
    assert_eq!(admitted, 120);
    match admit_request(&head("/hooks/a"), &jobs, &mut guard, "ip") {
        Admission::Refused(r) => assert_eq!(r.status, 429),
        _ => panic!("admitted"),
    }
    assert!(!guard.check_rate("a", "ip"));
    assert!(guard.check_rate("a", "other"));
}

#[test]
fn failures_are_answered() {
    let mut guard = WebhookGuard::new();
    let stamp = noon();
    let mut answer = |j: &WebhookJobDef, h: &RequestHead| match judge_request(
        j,
        h,
        b"{}",
        &mut guard,
        &stamp,
        0,
    ) {
        Verdict::Refused(r) => (r.status, r.body),
        _ => panic!("let in"),
    };
    let mut open = job("a");
    open.secret = String::new();
    assert_eq!(answer(&open, &head("/hooks/a")), (500, "route misconfigured"));
    let mut h = head("/hooks/a");
    h.signature = Some("sha256=00".to_string());
    assert_eq!(answer(&job("a"), &h), (401, "invalid signature"));
    h.timestamp = Some("1".to_string());
    assert_eq!(answer(&job("a"), &h), (401, "stale timestamp"));
    let mut bearer = job("a");
    bearer.auth = WebhookAuth::Bearer;
    assert_eq!(answer(&bearer, &h), (401, "invalid token"));
}

#[test]
fn ignored_requests_are_noted() {
    let mut j = job("a");
    j.events = Some(vec!["push".to_string()]);
    match judge_payload(&j, Some("ping"), json(r#"{"a": 1}"#), "2026-03-01T12:00:00+00:00") {
        Verdict::Ignored { record, reply } => {
            assert_eq!((reply.status, reply.body), (200, "ignored"));
            assert_eq!(record.status, RunStatus::Skipped);
            assert_eq!(record.run_at, "2026-03-01T12:00:00+00:00");
            assert_eq!(record.trigger.as_deref(), Some("webhook"));
            assert_eq!(record.error.as_deref(), Some("event 'ping' not in whitelist"));
            assert_eq!(record.payload.as_deref(), Some("{\n  \"a\": 1\n}"));
        }
        _ => panic!("not ignored"),
    }
}

#[test]
fn finished_runs() {
    let payload = json("1");
    let f = finish_run("last", &payload, &"p".repeat(600), Ok("done".to_string()), 12, "t");
    assert_eq!((f.reply.status, f.reply.body), (200, "ok"));
    assert_eq!(f.deliver.as_deref(), Some("done"));
    assert_eq!(f.record.status, RunStatus::Succeeded);
    assert_eq!(f.record.duration_ms, 12);
    assert_eq!(f.record.prompt_head.unwrap().len(), 512);
    assert_eq!(f.record.error, None);
    let f = finish_run("none", &payload, "p", Ok("done".to_string()), 0, "t");
    assert_eq!(f.deliver, None);
    let f = finish_run("last", &payload, "p", Ok(" \n".to_string()), 0, "t");
    assert_eq!(f.deliver, None);
    let f = settle_run("last", &payload, "p", Err("boom".to_string()), 3);
    assert_eq!((f.reply.status, f.reply.body), (500, "agent error"));
    assert_eq!(f.record.status, RunStatus::Error);
    assert_eq!(f.record.error.as_deref(), Some("boom"));
    assert_eq!(f.deliver, None);
}

// ── Built-in hooks ─────────────────────────────────────────────────────────

#[test]
fn calls_of_the_agent_hook() {
    let r = agent_hook_gate(Some("text/plain"), None, None).unwrap();
    assert_eq!((r.status, r.body), (415, "Content-Type must be application/json"));
    let r = agent_hook_gate(Some("application/json"), Some("Bearer x"), Some("y")).unwrap();
    assert_eq!((r.status, r.body), (401, "invalid token"));
    assert!(agent_hook_gate(Some("application/json"), Some("Bearer y"), Some("y")).is_none());
    assert!(agent_hook_gate(Some("application/json"), None, None).is_none());

    let call = read_agent_call(br#"{"message": "hi"}"#).unwrap();
    assert_eq!((call.message.as_str(), call.target.as_str()), ("hi", "last"));
    let call = agent_call(Some(json(r#"{"message": "hi", "target": "none"}"#))).unwrap();
    assert_eq!(call.target, "none");
    assert_eq!(agent_call(None).unwrap_err().body, "invalid JSON");
    let e = read_agent_call(br#"{"message": 5}"#).unwrap_err();
    assert_eq!((e.status, e.body), (400, "missing 'message' field"));
    assert_eq!(agent_hook_session(), "_hooks_agent");
    let (deliver, reply) = finish_agent_call("last", Ok("x".to_string()));
    assert_eq!(deliver.as_deref(), Some("x"));
    assert_eq!(reply.status, 200);
}

#[test]
fn calls_of_the_wake_hook() {
    assert!(wake_hook_gate(None, None).is_none());
    assert_eq!(wake_hook_gate(None, Some("s")).unwrap().status, 401);
    let r = answer_wake(br#"{"text": "x"}"#);
    assert_eq!((r.status, r.body), (200, "wake acknowledged"));
    let r = answer_wake(b"{");
    assert_eq!((r.status, r.body), (400, "invalid JSON"));
}

#[test]
fn addresses_of_targets() {
    let pair = |a: &str, b: &str| Some((a.to_string(), b.to_string()));
    assert_eq!(target_address("none", Some("a:b")), None);
    assert_eq!(target_address("last", Some("a:b:c")), pair("a", "b:c"));
    assert_eq!(target_address("last", Some("ab")), None);
    assert_eq!(target_address("last", None), None);
    assert_eq!(target_address("telegram", None), pair("telegram", "default"));
    assert_eq!(target_address("telegram:work", None), pair("telegram", "work"));
}

// ── Guard ──────────────────────────────────────────────────────────────────

#[test]
fn guard_rate_limit_window() {
    let mut g = WebhookGuard::default();
    for _ in 0..120 {
        assert!(g.check_rate("r", "1.2.3.4"));
    }
    assert!(!g.check_rate("r", "1.2.3.4")); // over cap
    assert!(g.check_rate("r", "5.6.7.8")); // other IP fine
    assert!(g.check_rate("other", "1.2.3.4")); // other route fine
}

#[test]
fn guard_inflight_cap_and_release() {
    let mut g = WebhookGuard::default();
    let a = g.acquire("r").unwrap();
    assert!(g.acquire("r").is_some());
    g.release(a);
    // Slot released: acquire succeeds again.
    assert!(g.acquire("r").is_some());
}

#[test]
fn guard_inflight_enforces_cap_of_8() {
    let mut g = WebhookGuard::default();
    let mut held = Vec::new();
    for _ in 0..8 {
        held.push(g.acquire("r").unwrap());
    }
    assert!(g.acquire("r").is_none());
}

#[test]
fn guard_delivery_idempotency() {
    let mut g = WebhookGuard::default();
    assert!(g.check_delivery("d-1"));
    assert!(!g.check_delivery("d-1")); // duplicate
    assert!(g.check_delivery("d-2"));
}

#[test]
fn guard_forgets_in_time() {
    let second: u64 = 1_000_000_000;
    let mut g = WebhookGuard::new();
    for _ in 0..120 {
        assert!(g.check_rate_at("r", "ip", 0));
    }
    assert!(!g.check_rate_at("r", "ip", 60 * second));
    assert!(g.check_rate_at("r", "ip", 60 * second + 1));
    assert!(g.check_delivery_at("d", 0));
    assert!(!g.check_delivery_at("d", 3600 * second - 1));
    assert!(g.check_delivery_at("d", 3600 * second));
}

#[test]
fn any_minute_admits_120_requests() {
    let second: u64 = 1_000_000_000;
    let mut g = WebhookGuard::new();
    let mut admitted: Vec<u64> = Vec::new();
    for i in 0..400u64 {
        let now = i * second / 4;
        if g.check_rate_at("r", "ip", now) {
            admitted.push(now);
        }
    }
    for end in &admitted {
        let in_minute = admitted.iter().filter(|t| **t <= *end && *end - **t <= 60 * second);
        assert!(in_minute.count() <= 120);
    }
    assert_eq!(admitted.len(), 240);
}

#[test]
fn slots_that_are_held_never_exceed_8() {
    let mut g = WebhookGuard::new();
    let mut held = Vec::new();
    for i in 0..100 {
        if i % 3 == 2 {
            g.release(held.pop().unwrap());
        }
        if let Some(slot) = g.acquire("r") {
            held.push(slot);
        }
        assert!(held.len() <= 8);
    }
    assert_eq!(held.len(), 8);
    assert!(g.acquire("r").is_none());
    assert!(g.acquire("s").is_some());
}

// ── Paths ──────────────────────────────────────────────────────────────────

fn path_job(path: &str, secret: Option<&str>, auth: WebhookAuth) -> PathJob {
    PathJob {
        id: "j".to_string(),
        path: path.to_string(),
        secret: secret.map(|s| s.to_string()),
        auth,
        target: "last".to_string(),
        prompt_template: "Hi {{name}}".to_string(),
    }
}

#[test]
fn jobs_with_a_path() {
    let jobs = vec![
        path_job("/a", None, WebhookAuth::Hmac),
        path_job("/b/c", Some("s"), WebhookAuth::Bearer),
    ];
    assert_eq!(find_path_job(&jobs, "/b/c"), Some(1));
    assert_eq!(find_path_job(&jobs, "/b"), None);
    assert_eq!(path_session_key("/b/c"), "_webhook_b_c");
    assert_eq!(path_session_key("//x"), "_webhook_x");
    assert_eq!(path_prompt(&jobs[0], br#"{"name": "you"}"#), "Hi you");
    assert_eq!(path_prompt(&jobs[0], b"name=you"), "Hi ");

    let none = Credentials { signature: None, authorization: None, timestamp: None };
    assert_eq!(authorize_path_job(&jobs[0], &none, b""), None);
    assert_eq!(authorize_path_job(&jobs[1], &none, b""), Some(AuthFailure::InvalidToken));
    let signed = path_job("/a", Some("s"), WebhookAuth::Hmac);
    assert_eq!(authorize_path_job(&signed, &none, b""), Some(AuthFailure::MissingSignature));
    let sig = sign(b"x", "s");
    let c = Credentials { signature: Some(&sig), authorization: None, timestamp: None };
    assert_eq!(authorize_path_job(&signed, &c, b"x"), None);
    assert_eq!(authorize_path_job(&signed, &c, b"y"), Some(AuthFailure::InvalidSignature));
}
