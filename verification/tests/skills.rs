use agent_core::json::Json;
use agent_core::session::chat::{ChatMessage, ToolCall};
use agent_core::skill_draft_reminder::{
    check_and_arm, check_and_arm_on, check_scope, is_operator, is_throttled, today_at,
    user_scope_root, Armed, ScopeState, THRESHOLD,
};
use agent_core::skill_extract::{
    admit_extraction, build_existing_skills_index, build_skill_extract_prompt,
    collect_extract_stream, drafts_notice, notify_drafts_written, read_arguments, screen_call,
    screen_with, settle_call, skill_extract_prompt, ExtractedSessions, Screened, SkillExtractInput,
    SkillExtractRun, StreamEvent, ToolOutput,
};
use agent_core::skill_loader::SkillDefinition;
use agent_core::time::UtcInstant;

const OWNER_FQID: &str = "myclaw/u/01923f0e-8a5a-7b3c-9d4e-5f6a7b8c9d0e";
const OWNER_UUID: &str = "01923f0e-8a5a-7b3c-9d4e-5f6a7b8c9d0e";

fn drafts(prefix: &str, n: usize) -> Vec<String> {
    (0..n).map(|i| format!("{}-{}", prefix, i)).collect()
}

fn scope(last: Option<&str>, names: Vec<String>) -> ScopeState {
    ScopeState { last_reminded: last.map(|s| s.to_string()), drafts: names }
}

fn none() -> ScopeState {
    scope(None, Vec::new())
}

// ── Reminders ──────────────────────────────────────────────────────────────

#[test]
fn below_threshold_never_fires() {
    let user = scope(None, drafts("draft", THRESHOLD - 1));
    assert!(check_and_arm(0, OWNER_FQID, false, user, none()).backlog.is_none());
}

#[test]
fn at_threshold_fires_once_then_throttles_same_day() {
    let user = scope(None, drafts("draft", THRESHOLD));
    let first = check_and_arm(0, OWNER_FQID, false, user, none());
    let backlog = first.backlog.unwrap();
    assert_eq!(backlog.user_layer.len(), THRESHOLD);
    assert!(backlog.agent_layer.is_empty());
    // Again on the same day, with more drafts still.
    let day = first.user_date.unwrap();
    let user = scope(Some(&day), drafts("draft", THRESHOLD + 1));
    let second = check_and_arm_on(&day, OWNER_FQID, false, user, none());
    assert!(second.backlog.is_none());
    assert!(second.user_date.is_none());
}

#[test]
fn throttled_call_does_not_require_skills_dir_to_exist() {
    assert!(is_throttled(Some("2026-03-01"), "2026-03-01"));
    assert!(!is_throttled(None, "2026-03-01"));
    let user = scope(Some("2026-03-01"), Vec::new());
    assert!(check_and_arm_on("2026-03-01", OWNER_FQID, false, user, none()).backlog.is_none());
}

#[test]
fn fires_again_on_a_new_day() {
    let user = scope(Some("2000-01-01"), drafts("draft", THRESHOLD));
    let result = check_and_arm(0, OWNER_FQID, false, user, none());
    assert!(result.backlog.is_some(), "a new day must re-arm the reminder");
}

#[test]
fn agent_layer_hidden_from_normal_users() {
    let agent = scope(None, drafts("agent", THRESHOLD));
    assert!(
        check_and_arm(0, OWNER_FQID, false, none(), agent).backlog.is_none(),
        "non-operator sessions must not see agent-layer backlog"
    );
}

#[test]
fn operator_sees_agent_layer() {
    let agent = scope(None, drafts("agent", THRESHOLD));
    let backlog = check_and_arm(0, OWNER_FQID, true, none(), agent).backlog.unwrap();
    assert_eq!(backlog.agent_layer.len(), THRESHOLD);
    assert!(backlog.user_layer.is_empty());
    assert!(!backlog.is_empty());
}

#[test]
fn scopes_throttle_independently() {
    let user = scope(Some("2026-03-01"), drafts("draft", THRESHOLD));
    let agent = scope(None, drafts("agent", THRESHOLD));
    let Armed { backlog, user_date, agent_date } =
        check_and_arm_on("2026-03-01", OWNER_FQID, true, user, agent);
    let backlog = backlog.unwrap();
    assert!(backlog.user_layer.is_empty(), "user scope stays throttled");
    assert_eq!(backlog.agent_layer.len(), THRESHOLD);
    assert_eq!(user_date, None);
    assert_eq!(agent_date.as_deref(), Some("2026-03-01"));
}

#[test]
fn empty_owner_non_operator_is_a_noop() {
    let agent = scope(None, drafts("agent", THRESHOLD));
    let armed = check_and_arm(0, "", false, scope(None, drafts("d", THRESHOLD)), agent);
    assert!(armed.backlog.is_none());
    assert!(armed.agent_date.is_none());
}

#[test]
fn dates_and_scopes() {
    let late = UtcInstant { secs: 1_772_366_400 + 11 * 3600, nanos: 0 };
    assert_eq!(today_at(&late, 0).as_deref(), Some("2026-03-01"));
    assert_eq!(today_at(&late, 2).as_deref(), Some("2026-03-02"));
    assert_eq!(today_at(&late, -24).as_deref(), Some("2026-02-28"));
    assert_eq!(user_scope_root("/base", OWNER_FQID), format!("/base/users/{}", OWNER_UUID));
    assert!(is_operator(OWNER_FQID, Some(OWNER_UUID)));
    assert!(!is_operator(OWNER_FQID, Some("other")));
    assert!(!is_operator("", Some("")));
    assert!(check_scope(None, "d", drafts("x", THRESHOLD)).is_some());
    assert!(check_scope(None, "d", drafts("x", THRESHOLD - 1)).is_none());
}

// ── Extraction ─────────────────────────────────────────────────────────────

#[test]
fn notify_drafts_written_is_noop_without_channel() {
    assert!(notify_drafts_written(false, None, &vec!["my-skill".to_string()]).is_none());
    assert!(notify_drafts_written(true, None, &vec!["my-skill".to_string()]).is_none());
}

#[test]
fn notify_drafts_written_sends_one_message_naming_all_drafts() {
    let (to, text) = notify_drafts_written(
        true,
        Some("chat:123".to_string()),
        &vec!["skill-one".to_string(), "skill-two".to_string()],
    )
    .unwrap();
    assert_eq!(to, "chat:123");
    assert!(text.contains("skill-one"));
    assert!(text.contains("skill-two"));
}

#[test]
fn the_notice_of_drafts() {
    assert_eq!(
        drafts_notice(&vec!["a".to_string(), "b".to_string()]),
        "本次会话沉淀了 2 个 draft skill:「a」、「b」，待审核。可以让我查看内容并提议保留/合并/删除。"
    );
}

#[test]
fn a_session_is_claimed_once() {
    let mut s = ExtractedSessions::new();
    assert!(s.claim("a"));
    assert!(!s.claim("a"));
    assert!(admit_extraction(&mut s, "b", true));
    assert!(!admit_extraction(&mut s, "c", false));
    // It was claimed although another was running.
    assert!(!admit_extraction(&mut s, "c", true));
}

#[test]
fn old_sessions_are_forgotten() {
    let mut s = ExtractedSessions::default();
    for i in 0..200 {
        assert!(s.claim(&format!("s{}", i)));
    }
    assert!(!s.claim("s0"));
    assert!(s.claim("s200"));
    assert_eq!(s.ids.len(), 151);
    assert!(!s.contains("s49"));
    assert!(s.contains("s50"));
    assert!(s.contains("s200"));
}

fn definition(name: &str, description: &str) -> SkillDefinition {
    SkillDefinition {
        name: name.to_string(),
        description: description.to_string(),
        keywords: Vec::new(),
        prompt_body: String::new(),
        source_path: String::new(),
    }
}

#[test]
fn the_index_of_skills() {
    assert_eq!(build_existing_skills_index(&Vec::new()), "(empty — no skills yet)");
    let long = "x".repeat(130);
    assert_eq!(
        build_existing_skills_index(&vec![definition("a", "short"), definition("b", &long)]),
        format!("- a: short\n- b: {}", "x".repeat(120))
    );
}

#[test]
fn the_prompt_of_an_extraction() {
    let p = build_skill_extract_prompt("INDEX", "SESSION", "2026-03-01");
    assert!(p.starts_with("\n\n---\nYou are now acting as the skill extraction subagent. Analyze the conversation above and decide"));
    assert!(p.contains("## Existing skills\nINDEX\n\nCheck this list before creating"));
    assert!(p.contains("metadata:\n  keywords: [keyword1, keyword2]\n  status: draft\n---\n"));
    assert!(p.contains("> Extracted from session `SESSION` on 2026-03-01\n\nIf no skill is warranted"));
    assert!(p.ends_with("Available tools: skills_list, skill_manage."));
    let today = chrono::Utc::now().format("%Y-%m-%d").to_string();
    assert_eq!(skill_extract_prompt("I", "S"), build_skill_extract_prompt("I", "S", &today));
}

#[test]
fn responses_come_in_pieces() {
    let delta = |index: u32, id: &str, name: &str, delta: &str| StreamEvent::ToolCallDelta {
        index,
        id: id.to_string(),
        name: name.to_string(),
        delta: delta.to_string(),
    };
    let r = collect_extract_stream(vec![
        StreamEvent::Delta { text: "a".to_string() },
        StreamEvent::ToolCallStart {
            id: "1".to_string(),
            name: "skills_list".to_string(),
            initial_arguments: "{".to_string(),
        },
        StreamEvent::Delta { text: "b".to_string() },
        delta(0, "", "", "}"),
        delta(2, "3", "skill_manage", "x"),
        StreamEvent::Other,
        delta(2, "4", "", "y"),
    ]);
    assert_eq!(r.text, "ab");
    assert_eq!(r.tool_calls.len(), 3);
    assert_eq!(r.tool_calls[0].arguments, "{}");
    assert_eq!(r.tool_calls[0].name, "skills_list");
    assert_eq!(r.tool_calls[1].id, "");
    assert_eq!(r.tool_calls[2].id, "4");
    assert_eq!(r.tool_calls[2].name, "skill_manage");
    assert_eq!(r.tool_calls[2].arguments, "xy");
}

fn call(name: &str, arguments: &str) -> ToolCall {
    ToolCall { id: "c1".to_string(), name: name.to_string(), arguments: arguments.to_string() }
}

fn blocked(s: Screened) -> String {
    match s {
        Screened::Answer(m) => {
            assert_eq!(m.role, "tool");
            assert_eq!(m.tool_call_id.as_deref(), Some("c1"));
            assert_eq!(m.is_error, Some(true));
            m.text_content()
        }
        Screened::Execute { .. } => panic!("a call that must not be made"),
    }
}

#[test]
fn calls_are_screened() {
    assert_eq!(
        blocked(screen_call(&call("shell", "{}"), true)),
        "tool 'shell' not available during skill extraction"
    );
    assert_eq!(
        blocked(screen_call(&call("skills_list", "{}"), false)),
        "tool 'skills_list' not found in registry"
    );
    assert_eq!(
        blocked(screen_call(&call("skill_manage", r#"{"action": "delete"}"#), true)),
        "Only skill_manage(action='create') is available during skill extraction."
    );
    match screen_call(&call("skill_manage", r#"{"action": "create", "name": "x"}"#), true) {
        Screened::Execute { created_name, .. } => assert_eq!(created_name.as_deref(), Some("x")),
        Screened::Answer(_) => panic!("a call that may be made"),
    }
    match screen_with(&call("skills_list", ""), true, Json::Null) {
        Screened::Execute { created_name, .. } => assert_eq!(created_name, None),
        Screened::Answer(_) => panic!("a call that may be made"),
    }
    assert_eq!(read_arguments("").to_text(), "{}");
    assert_eq!(read_arguments("not json").to_text(), r#"{"raw":"not json"}"#);
    assert_eq!(read_arguments(r#"{"a":1}"#).to_text(), r#"{"a":1}"#);
}

#[test]
fn results_of_calls() {
    let out = |success: bool, output: &str, error: Option<&str>| ToolOutput {
        success,
        output: output.to_string(),
        error: error.map(|s| s.to_string()),
    };
    let c = call("skill_manage", "{}");
    let (m, written) = settle_call(&c, Some("x".to_string()), Ok(out(true, "made", None)));
    assert_eq!(m.text_content(), "made");
    assert_eq!(m.is_error, Some(false));
    assert_eq!(written.as_deref(), Some("x"));
    let (m, written) = settle_call(&c, Some("x".to_string()), Ok(out(false, "", Some("no"))));
    assert_eq!(m.text_content(), "error: no");
    assert_eq!(m.is_error, Some(true));
    assert_eq!(written, None);
    let (m, _) = settle_call(&c, None, Ok(out(false, "partly", Some("no"))));
    assert_eq!(m.text_content(), "partly");
    let (m, _) = settle_call(&c, None, Err("gone".to_string()));
    assert_eq!(m.text_content(), "error: gone");
    let (_, written) =
        settle_call(&call("skills_list", ""), Some("x".to_string()), Ok(out(true, "l", None)));
    assert_eq!(written, None);
}

#[test]
fn an_extraction_runs_a_few_rounds() {
    let input = SkillExtractInput {
        messages: vec![ChatMessage::user_text("hi")],
        model_id: "m".to_string(),
        session_id: "s".to_string(),
        base_dir: "/b".to_string(),
        has_channel: false,
        reply_target: None,
    };
    let mut run = SkillExtractRun::start(input, &Vec::new());
    assert_eq!(run.messages.len(), 2);
    assert!(run.messages[1].text_content().contains("Extracted from session `s`"));
    for _ in 0..3 {
        assert!(run.wants_response());
        let r = collect_extract_stream(vec![StreamEvent::ToolCallStart {
            id: "c1".to_string(),
            name: "skills_list".to_string(),
            initial_arguments: String::new(),
        }]);
        assert!(run.take_response(&r));
        run.take_answer(ChatMessage::text("tool", "x"), Some("name".to_string()));
    }
    assert!(!run.wants_response());
    assert_eq!(run.messages.len(), 8);
    assert_eq!(run.messages[2].tool_calls.as_ref().unwrap()[0].id, "c1");
    assert_eq!(run.written, vec!["name", "name", "name"]);

    let mut run = SkillExtractRun::begin(Vec::new(), "p");
    let silent = collect_extract_stream(vec![StreamEvent::Delta { text: "no".to_string() }]);
    assert!(!run.take_response(&silent));
    assert!(!run.wants_response());
    assert_eq!(run.messages.len(), 1);
}
