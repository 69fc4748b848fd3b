use agent_core::session::backend::{
    BackendPersistHook, DelegationCheckpoint, InMemoryBackend, PersistHook, SummaryRecord,
};
use agent_core::session::breakpoint_detect::{
    detect_incomplete_turn, identify_breakpoint, sole_sessions_yield_orphan, PendingYield,
};
use agent_core::session::channel::{
    reply_receiver, ChannelInboundMessage, MessageReceiver, PersistedChannelMessage,
};
use agent_core::session::chat::{ChatMessage, ContentPart, ToolCall};
use agent_core::session::manager::{
    permissive_main_default, SessionError, SessionManager, SessionNotOwned,
};
use agent_core::session::queue::{
    get_session_queue_path, queue_line, queued_lines, readable_messages,
};
use agent_core::session::session_override::{
    ensure_at_least_one_user, sanitize_history, sanitize_paired, RunMode, SessionOverride,
};
use agent_core::session::types::{DelegationDeadline, Session};
use agent_core::time::UtcInstant;

fn call(id: &str, name: &str) -> ToolCall {
    ToolCall { id: id.to_string(), name: name.to_string(), arguments: "{}".to_string() }
}

fn asst_tools(ids: &[&str]) -> ChatMessage {
    let mut msg = ChatMessage::assistant_text("");
    msg.tool_calls = Some(ids.iter().map(|id| call(id, "shell")).collect());
    msg
}

fn tool(id: &str) -> ChatMessage {
    let mut msg = ChatMessage::text("tool", "ok");
    msg.tool_call_id = Some(id.into());
    msg.name = Some("shell".into());
    msg
}

fn roles(h: &[ChatMessage]) -> Vec<&str> {
    h.iter().map(|m| m.role.as_str()).collect()
}

// ── Sanitizing ─────────────────────────────────────────────────────────────

#[test]
fn merges_adjacent_user_messages() {
    let mut history = vec![
        ChatMessage::user_text("one"),
        ChatMessage::user_text("two"),
        ChatMessage::assistant_text("ok"),
    ];
    sanitize_history(&mut history);
    assert_eq!(history.len(), 2);
    assert_eq!(history[0].role, "user");
    assert!(history[0].text_content().contains("one"));
    assert!(history[0].text_content().contains("two"));
    assert_eq!(history[1].role, "assistant");
}

#[test]
fn closes_tool_round_before_later_user() {
    let mut history = vec![
        ChatMessage::user_text("hi"),
        asst_tools(&["t1"]),
        tool("t1"),
        ChatMessage::user_text("again"),
    ];
    sanitize_history(&mut history);
    // A placeholder of the assistant stands between the result and the user.
    assert!(history.iter().any(|m| m.role == "assistant" && m.tool_calls.is_none()));
    assert_eq!(history.last().map(|m| m.role.as_str()), Some("user"));
    for w in history.windows(2) {
        assert!(
            !(w[0].role == "user" && w[1].role == "user"),
            "adjacent user messages remain"
        );
        assert!(
            !(w[0].role == "tool" && w[1].role == "user"),
            "tool directly followed by user"
        );
    }
}

#[test]
fn injects_user_when_history_has_only_assistant_tool_tail() {
    let mut history = vec![asst_tools(&["t1"]), tool("t1"), ChatMessage::assistant_text("mid")];
    sanitize_history(&mut history);
    assert!(
        history.iter().any(|m| m.role == "user"),
        "must inject recovery user: {:?}",
        history.iter().map(|m| m.role.as_str()).collect::<Vec<_>>()
    );
    assert_eq!(history[0].role, "user");
    assert!(history[0].text_content().contains("CONTEXT RECOVERY"));
}

#[test]
fn injects_user_when_history_empty() {
    let mut history: Vec<ChatMessage> = vec![];
    sanitize_history(&mut history);
    assert_eq!(history.len(), 1);
    assert_eq!(history[0].role, "user");
}

#[test]
fn fills_missing_tool_results_mid_history() {
    let mut history = vec![
        ChatMessage::user_text("hi"),
        asst_tools(&["t1", "t2"]),
        tool("t1"),
        ChatMessage::user_text("later"),
    ];
    sanitize_history(&mut history);
    let tool_ids: Vec<_> = history
        .iter()
        .filter(|m| m.role == "tool")
        .filter_map(|m| m.tool_call_id.clone())
        .collect();
    assert!(tool_ids.contains(&"t1".to_string()));
    assert!(tool_ids.contains(&"t2".to_string()));
}

#[test]
fn sanitizing_drops_orphans_and_open_tails() {
    let mut history = vec![
        ChatMessage::user_text("hi"),
        tool("gone"),
        ChatMessage::assistant_text("ok"),
        ChatMessage::user_text("more"),
        asst_tools(&["t9"]),
    ];
    sanitize_history(&mut history);
    assert_eq!(roles(&history), vec!["user", "assistant", "user"]);
}

#[test]
fn sanitizing_twice_is_sanitizing_once() {
    let mut once = vec![
        ChatMessage::assistant_text("a"),
        asst_tools(&["t1", "t2"]),
        tool("t2"),
        ChatMessage::user_text("u"),
    ];
    sanitize_history(&mut once);
    let mut twice: Vec<ChatMessage> = once.iter().map(|m| m.copy()).collect();
    sanitize_history(&mut twice);
    assert_eq!(roles(&once), roles(&twice));
    for (a, b) in once.iter().zip(twice.iter()) {
        assert_eq!(a.text_content(), b.text_content());
        assert_eq!(a.tool_call_id, b.tool_call_id);
    }
}

#[test]
fn ids_stay_with_their_messages() {
    let rows = sanitize_paired(vec![
        (1, ChatMessage::user_text("hi")),
        (2, tool("gone")),
        (3, ChatMessage::assistant_text("ok")),
    ]);
    let ids: Vec<i64> = rows.iter().map(|r| r.0).collect();
    assert_eq!(ids, vec![1, 3]);
    assert_eq!(rows[0].1.role, "user");
    assert_eq!(rows[1].1.role, "assistant");
}

#[test]
fn a_history_with_a_user_is_left_alone() {
    let mut h = vec![ChatMessage::user_text("hi")];
    ensure_at_least_one_user(&mut h);
    assert_eq!(h.len(), 1);
}

// ── Deadlines ──────────────────────────────────────────────────────────────

#[test]
fn deadline_remaining_and_low_threshold() {
    let d = DelegationDeadline::from_now(1000);
    assert!(d.remaining_secs() <= 1000);
    assert!(d.remaining_secs() >= 995, "fresh deadline must have ~full budget");
    // 1000s total, 20% threshold = 200s.
    assert!(!d.is_low());

    let low = DelegationDeadline {
        deadline_unix: chrono::Utc::now().timestamp() + 150,
        total_secs: 1000,
    };
    assert!(low.is_low());

    let edge = DelegationDeadline {
        deadline_unix: chrono::Utc::now().timestamp() + 200,
        total_secs: 1000,
    };
    // Exactly 20% counts as low.
    assert!(edge.is_low());
}

#[test]
fn deadline_past_never_negative() {
    let past = DelegationDeadline {
        deadline_unix: chrono::Utc::now().timestamp() - 500,
        total_secs: 600,
    };
    assert_eq!(past.remaining_secs(), 0);
    assert!(past.is_low());
}

#[test]
fn deadline_render_branches() {
    let normal = DelegationDeadline {
        deadline_unix: chrono::Utc::now().timestamp() + 600,
        total_secs: 1000,
    };
    let t = normal.render_reminder();
    assert!(t.contains("<system-reminder>"));
    assert!(t.contains("600s remaining") || t.contains("599s remaining"));
    assert!(!t.contains("Wrap up NOW"));

    let low = DelegationDeadline {
        deadline_unix: chrono::Utc::now().timestamp() + 100,
        total_secs: 1000,
    };
    let t = low.render_reminder();
    assert!(t.contains("deadline warning"));
    assert!(t.contains("Wrap up NOW"));
    assert!(t.contains("100s remain") || t.contains("99s remain"));
}

#[test]
fn deadlines_at_a_given_second() {
    let d = DelegationDeadline::after(1000, 600);
    assert_eq!(d.deadline_unix, 1600);
    assert_eq!(d.remaining_at(1000), 600);
    assert_eq!(d.remaining_at(1601), 0);
    assert!(!d.is_low_at(1479));
    assert!(d.is_low_at(1480));
    assert!(d.render_at(1000).contains("600s remaining"));
}

// ── Breakpoints ────────────────────────────────────────────────────────────

#[test]
fn interrupted_turns_are_found() {
    assert!(!detect_incomplete_turn(&[]));
    assert!(!detect_incomplete_turn(&[
        ChatMessage::user_text("hi"),
        ChatMessage::assistant_text("ok"),
    ]));
    assert!(detect_incomplete_turn(&[ChatMessage::user_text("hi"), asst_tools(&["t1"])]));
    assert!(!detect_incomplete_turn(&[asst_tools(&["t1"]), tool("t1")]));
    assert!(detect_incomplete_turn(&[
        ChatMessage::user_text("hi"),
        asst_tools(&["t1", "t2"]),
        tool("t1"),
    ]));
    assert!(!detect_incomplete_turn(&[asst_tools(&["t1", "t2"]), tool("t2"), tool("t1")]));
    assert!(!detect_incomplete_turn(&[asst_tools(&["t1"]), ChatMessage::user_text("hi")]));
    let items = identify_breakpoint(&[
        ChatMessage::user_text("hi"),
        asst_tools(&["t1", "t2"]),
        tool("t1"),
    ]);
    assert_eq!(items.len(), 1);
    assert_eq!(items[0].tool_call_id, "t2");
}

#[test]
fn a_lone_yield_is_taken_up_again() {
    let mut m = ChatMessage::assistant_text("");
    m.tool_calls = Some(vec![call("y1", "sessions_yield")]);
    let waiting = PendingYield { tool_call_id: "y1".to_string(), implicit: false };
    let h = [ChatMessage::user_text("hi"), m.copy()];
    assert_eq!(sole_sessions_yield_orphan(&h, Some(&waiting)).as_deref(), Some("y1"));
    assert_eq!(sole_sessions_yield_orphan(&h, None), None);
    m.tool_calls = Some(vec![call("y1", "sessions_yield"), call("t1", "shell")]);
    let h = [ChatMessage::user_text("hi"), m];
    assert_eq!(sole_sessions_yield_orphan(&h, Some(&waiting)), None);
}

// ── Sessions ───────────────────────────────────────────────────────────────

#[test]
fn a_rollback_undoes_a_turn() {
    let mut s = Session::new("s".to_string());
    s.add_user("hi".to_string());
    s.add_assistant("ok".to_string());
    let n = s.history.len();
    s.add_user("again".to_string());
    s.add_assistant_with_tools("".to_string(), vec![call("t1", "shell")], None, None, None, None);
    s.rollback_to(n);
    assert_eq!(roles(&s.history), vec!["user", "assistant"]);
    assert_eq!(s.message_ids.len(), 2);
}

#[test]
fn an_abort_answers_every_call() {
    let mut s = Session::new("s".to_string());
    s.add_user("hi".to_string());
    s.add_assistant_with_tools(
        "".to_string(),
        vec![call("t1", "shell"), call("t2", "shell")],
        None,
        None,
        None,
        None,
    );
    s.add_tool_result("t1".to_string(), "shell", "done".to_string(), false);
    s.close_incomplete_turn_on_abort();
    assert!(!detect_incomplete_turn(&s.history));
    let answered: Vec<&str> =
        s.history.iter().filter_map(|m| m.tool_call_id.as_deref()).collect();
    assert!(answered.contains(&"t1"));
    assert!(answered.contains(&"t2"));
}

#[test]
fn the_last_message_decides_where_answers_go() {
    let mut s = Session::new("s".to_string());
    assert_eq!(s.reply_target(), None);
    s.record_inbound(ChannelInboundMessage {
        id: "m1".to_string(),
        sender: "u".to_string(),
        receiver: MessageReceiver {
            id: "chat".to_string(),
            reply_to_message_id: None,
            thread_id: Some("th".to_string()),
        },
        text: "hi".to_string(),
        files: Vec::new(),
        timestamp: 3,
        silenced_override: None,
        run_mode: RunMode::Interactive,
    });
    assert_eq!(s.reply_target(), Some("chat"));
    let r = reply_receiver("chat", s.last_message.as_ref());
    assert_eq!(r.reply_to_message_id.as_deref(), Some("m1"));
    assert_eq!(r.thread_id.as_deref(), Some("th"));
    let r = reply_receiver("chat", None);
    assert_eq!(r.reply_to_message_id, None);
}

#[test]
fn media_and_text_of_a_message() {
    let mut s = Session::new("s".to_string());
    s.add_user_with_media(
        "look".to_string(),
        vec![ContentPart::File {
            path: "/p".to_string(),
            mime_type: None,
            name: None,
            size_bytes: Some(1),
        }],
    );
    assert_eq!(s.history[0].text_content(), "look");
    assert_eq!(s.history[0].parts.len(), 2);
    assert!(s.history[0].has_text());
}

#[test]
fn overrides() {
    let mut o = SessionOverride::default();
    assert!(o.is_empty());
    assert!(o.to_thinking_config().is_none());
    o.thinking = Some(true);
    o.effort = Some("high".to_string());
    assert!(!o.is_empty());
    let c = o.to_thinking_config().unwrap();
    assert!(c.enabled);
    assert_eq!(c.effort.as_deref(), Some("high"));
    o.thinking = Some(false);
    assert_eq!(o.to_thinking_config().unwrap().effort, None);
}

// ── Store ──────────────────────────────────────────────────────────────────

#[test]
fn stored_messages_are_read_back() {
    let mut b = InMemoryBackend::new();
    let id = b.create_session("u1", Some("first")).unwrap().id;
    assert!(id.starts_with("default/session/"));
    assert_eq!(b.append_message(&id, &ChatMessage::user_text("a")), 1);
    assert_eq!(b.append_message(&id, &ChatMessage::assistant_text("b")), 2);
    let rows = b.load_messages(&id);
    assert_eq!(rows.len(), 2);
    assert_eq!(rows[1].text_content(), "b");
    assert!(b.update_message(&id, 2, &ChatMessage::assistant_text("c")));
    assert_eq!(b.query_message(&id, 2).unwrap(), ("assistant".to_string(), "c".to_string()));
    assert_eq!(b.load_incremental(&id, 1).len(), 1);
    assert!(b.remove_last_message(&id));
    assert_eq!(b.message_count(&id), 1);
    b.truncate_messages(&id, 0);
    assert_eq!(b.message_count(&id), 0);
}

#[test]
fn what_is_kept_of_a_session() {
    let mut b = InMemoryBackend::with_namespace("ns");
    let id = b.create_session("u1", None).unwrap().id;
    assert!(id.starts_with("ns/session/"));
    b.save_suspension(&id, "{}");
    assert_eq!(b.load_suspension(&id).as_deref(), Some("{}"));
    b.save_pending_yield_events(&id, "[]");
    assert_eq!(b.load_pending_yield_events(&id).as_deref(), Some("[]"));
    b.save_parent_session_id(&id, "p");
    assert_eq!(b.load_parent_session_id(&id).as_deref(), Some("p"));
    b.save_agent_name(&id, "coder");
    assert_eq!(b.load_agent_name(&id).as_deref(), Some("coder"));
    b.save_token_count(&id, 7);
    assert_eq!(b.load_token_count(&id), Some(7));
    b.save_last_message(
        &id,
        &PersistedChannelMessage {
            id: "m".to_string(),
            sender: "u".to_string(),
            receiver: MessageReceiver {
                id: "c".to_string(),
                reply_to_message_id: None,
                thread_id: None,
            },
            text: "t".to_string(),
            timestamp: 0,
        },
    );
    assert_eq!(b.load_last_message(&id).unwrap().id, "m");
    b.delete_session(&id);
    assert!(b.get_session(&id).is_none());
}

#[test]
fn summaries_and_checkpoints() {
    let mut b = InMemoryBackend::new();
    let id = b.create_session("u1", None).unwrap().id;
    assert!(b.load_latest_summary(&id).is_none());
    b.save_summary(
        &id,
        &SummaryRecord {
            version: 2,
            summary: "s".to_string(),
            up_to_message: 5,
            token_estimate: None,
        },
    );
    assert_eq!(b.load_latest_summary(&id).unwrap().version, 2);
    b.clear_summary(&id);
    assert!(b.load_latest_summary(&id).is_none());
    b.save_delegation_checkpoint(&DelegationCheckpoint {
        task_id: "t".to_string(),
        state: "x".to_string(),
    });
    assert_eq!(b.load_delegation_checkpoints().len(), 1);
    b.delete_delegation_checkpoint("t");
    assert!(b.load_delegation_checkpoints().is_empty());
}

#[test]
fn hooks_store_messages() {
    let mut b = InMemoryBackend::new();
    let id = b.create_session("u1", None).unwrap().id;
    let mut hook = BackendPersistHook::new(b);
    assert_eq!(hook.persist_message(&id, &ChatMessage::user_text("a")), Some(1));
    assert_eq!(hook.backend.message_count(&id), 1);
    for version in [1, 2] {
        hook.save_compaction(
            &id,
            &SummaryRecord {
                version,
                summary: "s".to_string(),
                up_to_message: 1,
                token_estimate: Some(7),
            },
        );
        assert_eq!(hook.backend.load_latest_summary(&id).unwrap().version, version);
    }
}

// ── Manager ────────────────────────────────────────────────────────────────

#[test]
fn sessions_of_a_user() {
    let mut m = SessionManager::in_memory();
    let s = m.get_or_create("u1", None);
    let again = m.get_or_create("u1", None);
    assert_eq!(s.id, again.id);
    assert_eq!(m.active_session_id("u1").as_deref(), Some(s.id.as_str()));
    let second = m.new_session("u1", Some("second")).unwrap();
    assert_ne!(second.id, s.id);
    assert_eq!(m.active_session_id("u1").as_deref(), Some(second.id.as_str()));
    assert!(m.switch_session("u1", &s.id).is_ok());
    assert_eq!(m.active_session_id("u1").as_deref(), Some(s.id.as_str()));
    match m.switch_session("u2", &s.id) {
        Err(e) => assert_eq!(
            e.message(),
            format!("session '{}' is not owned by routing_key 'u2'", s.id)
        ),
        Ok(_) => panic!("switched"),
    }
    assert!(matches!(m.switch_session("u2", &s.id), Err(SessionError::NotOwned(_))));
    assert!(matches!(m.switch_session("u1", "nope"), Err(SessionError::NotFound)));
}

#[test]
fn ids_of_sessions_are_made_of_the_namespace_and_a_uuid() {
    let mut b = InMemoryBackend::with_namespace("ns");
    let first = b.create_session("u1", None).unwrap().id;
    let second = b.create_session("u1", None).unwrap().id;
    assert_ne!(first, second);
    for id in [&first, &second] {
        let bare = id.strip_prefix("ns/session/").unwrap();
        assert_eq!(uuid::Uuid::parse_str(bare).unwrap().get_version_num(), 7);
    }
    let now = UtcInstant { secs: 1_772_452_800, nanos: 0 };
    let info = b.create_session_at("u2", Some("named"), "abc", now);
    assert_eq!(info.id, "ns/session/abc");
    assert_eq!(info.owner, "u2");
    assert_eq!(b.list_sessions("u2").len(), 1);
    assert_eq!(b.list_sessions("u1").len(), 2);
}

#[test]
fn a_store_that_fails_leaves_the_user_where_they_are() {
    let mut m = SessionManager::in_memory();
    let s = m.get_or_create("u1", None);
    match m.enter_session("u1", Err("disk full".to_string())) {
        Err(SessionError::Storage(said)) => assert_eq!(said, "disk full"),
        _ => panic!("entered"),
    }
    let id = m.settle_active("u1", Err("disk full".to_string()));
    let bare = id.strip_prefix("ephemeral:").unwrap();
    assert_eq!(uuid::Uuid::parse_str(bare).unwrap().get_version_num(), 4);
    assert_eq!(m.active_session_id("u1").as_deref(), Some(s.id.as_str()));
    assert_eq!(m.list_sessions("u1").len(), 1);
    let other = m.new_session("u2", None).unwrap();
    let made = m.backend.get_session(&other.id).unwrap();
    assert_eq!(m.settle_active("u1", Ok(made)), other.id);
    assert_eq!(m.active_session_id("u1").as_deref(), Some(other.id.as_str()));
}

#[test]
fn messages_come_back_when_a_session_is_loaded() {
    let mut m = SessionManager::in_memory();
    let s = m.get_or_create("u1", None);
    m.append_message(&s.id, ChatMessage::user_text("hi"));
    m.append_message(&s.id, ChatMessage::assistant_text("ok"));
    let loaded = m.get_or_create("u1", None);
    assert_eq!(roles(&loaded.history), vec!["user", "assistant"]);
    assert_eq!(loaded.message_ids, vec![1, 2]);
}

#[test]
fn sub_sessions_go_with_their_parent() {
    let mut m = SessionManager::in_memory();
    let s = m.get_or_create("u1", None);
    let other = m.new_session("u1", None).unwrap();
    let sub = m.create_sub_session(&s.id, "coder").unwrap();
    assert_eq!(m.backend.load_parent_session_id(&sub.id).as_deref(), Some(s.id.as_str()));
    match m.create_sub_session("nope", "coder") {
        Err(e) => assert_eq!(e.message(), "parent session not found"),
        Ok(_) => panic!("made under no session"),
    }
    assert_eq!(m.list_sub_sessions(&s.id).len(), 1);
    assert!(matches!(m.delete_session("u1", &other.id), Err(SessionError::Active)));
    let refusal = m.delete_session("u2", &s.id).unwrap_err();
    assert!(matches!(refusal, SessionError::NotYours));
    assert_eq!(refusal.message(), "not your session");
    assert_eq!(
        m.delete_session("u1", &other.id).unwrap_err().message(),
        "cannot delete the active session"
    );
    assert_eq!(m.delete_session("u1", "nope").unwrap_err().message(), "session not found");
    assert!(m.delete_session("u1", &s.id).is_ok());
    assert!(m.get_by_id(&sub.id, None).is_none());
}

#[test]
fn names_of_sessions() {
    let mut m = SessionManager::in_memory();
    let s = m.new_session("u1", Some("old")).unwrap();
    m.rename_session(&s.id, "new");
    assert_eq!(m.list_sessions("u1")[0].display_name.as_deref(), Some("new"));
    m.rename_session("nope", "x");
    assert_eq!(m.list_all_sessions().len(), 1);
    assert_eq!(m.list_sessions("u1")[0].display_name.as_deref(), Some("new"));
}

#[test]
fn a_context_under_another_session_is_fresh() {
    let mut m = SessionManager::in_memory();
    let s = m.new_session("u1", None).unwrap();
    let ctx = m.create_sub_session_context(&s.id, "coder").unwrap();
    assert_eq!(ctx.session_id, ctx.session.id);
    assert_ne!(ctx.session.id, s.id);
    assert_eq!(ctx.session.owner, "u1");
    assert_eq!(ctx.session.agent_name, "coder");
    assert_eq!(ctx.session.parent_session_id.as_deref(), Some(s.id.as_str()));
    assert!(ctx.session.history.is_empty());
    assert!(!ctx.session.turn_silenced);
    assert!(!ctx.session.turn_headless);
    assert!(ctx.session.pending_yield.is_none());
    assert!(ctx.turn_suspension.is_none());
    assert!(ctx.pending_yield_events.is_empty());
    assert!(ctx.yield_waiter.is_none());
    assert_eq!(m.active_session_id("u1").as_deref(), Some(s.id.as_str()));
    assert!(matches!(
        m.create_sub_session_context("nope", "coder"),
        Err(SessionError::ParentNotFound)
    ));
}

#[test]
fn what_a_stranger_is_told() {
    let e = SessionNotOwned { routing_key: "u2".to_string(), session_id: "s".to_string() };
    assert_eq!(e.message(), "session 's' is not owned by routing_key 'u2'");
    let c = permissive_main_default("main");
    assert_eq!(c.name, "main");
}

// ── Queue ──────────────────────────────────────────────────────────────────

#[test]
fn queued_messages() {
    assert_eq!(get_session_queue_path("/d", "s1"), "/d/s1/queue.jsonl");
    let file = format!("{}{}\n{}", queue_line("{\"a\":1}"), "  ", queue_line("{\"b\":2}"));
    assert_eq!(queued_lines(&file), vec!["{\"a\":1}", "{\"b\":2}"]);
    let kept = readable_messages(vec![Some(ChatMessage::user_text("a")), None]);
    assert_eq!(kept.len(), 1);
}
