use agent_core::session::breakpoint_detect::PendingYield;
use agent_core::session::channel::{ChannelInboundMessage, InboundFile, MessageReceiver};
use agent_core::session::chat::{ChatMessage, ContentPart, StopReason, ToolCall};
use agent_core::session::manager::SessionManager;
use agent_core::session::session_override::{RunMode, SessionOverride};
use agent_core::session::types::Session;
use agent_core::session_context::helpers::{
    age_session_media, history_looks_incomplete, is_bare_continue,
};
use agent_core::session_context::suspension::{
    decide_silenced, semantic_stop_reason, FoldCandidate, SubStatus, TerminalRecord,
};
use agent_core::session_context::tts::{normalize_symbols_for_tts, prepare_text_for_tts};
use agent_core::session_context::turn::{
    media_parts, should_send, speak_script, speech_of, turn_settings, Admission, StreamDelivery,
    TurnResult,
};
use agent_core::session_context::{
    format_pending_yield_events, DelegationNotice, Fill, NoticeTurnGuard, PendingYieldEvent,
    SessionContext,
};

fn make_ctx() -> SessionContext {
    SessionContext::new(Session::new("s1".to_string()))
}

/// A suspended context with one pending task "t1".
fn suspended() -> SessionContext {
    let mut ctx = make_ctx();
    ctx.add_pending_task("t1".to_string());
    ctx
}

fn complete(ctx: &mut SessionContext, id: &str, content: &str) -> TerminalRecord {
    ctx.record_terminal(id.to_string(), SubStatus::Completed, content.to_string(), 0)
}

fn yield_on(ctx: &mut SessionContext, id: &str) {
    ctx.session.pending_yield =
        Some(PendingYield { tool_call_id: id.to_string(), implicit: false });
}

fn event(content: &str) -> PendingYieldEvent {
    PendingYieldEvent { content: content.to_string() }
}

fn answers<'a>(ctx: &'a SessionContext, id: &str) -> Vec<&'a ChatMessage> {
    ctx.session
        .history
        .iter()
        .filter(|m| m.tool_call_id.as_deref() == Some(id))
        .collect()
}

// ── Suspensions ────────────────────────────────────────────────────────────

#[test]
fn session_context_pending_flips_with_registration_and_collection() {
    let mut ctx = suspended();
    assert!(ctx.has_pending_async_work());
    assert_eq!(ctx.suspension_snapshot().unwrap().pending, vec!["t1"]);
    complete(&mut ctx, "t1", "ok");
    assert!(!ctx.has_pending_async_work());
    assert!(
        ctx.suspension_snapshot().is_some(),
        "collected result keeps the suspension until clear"
    );
}

#[test]
fn suspension_pending_flips_with_registration_and_collection() {
    let mut ctx = suspended();
    assert!(ctx.has_pending_async_work());
    assert_eq!(ctx.suspension_snapshot().unwrap().pending, vec!["t1"]);
    complete(&mut ctx, "t1", "ok");
    assert!(!ctx.has_pending_async_work());
    assert!(
        ctx.suspension_snapshot().is_some(),
        "collected result keeps the suspension until clear"
    );
}

#[test]
fn session_context_add_pending_is_idempotent() {
    let mut ctx = make_ctx();
    ctx.add_pending_task("t1".to_string());
    ctx.add_pending_task("t1".to_string());
    ctx.add_pending_task("t2".to_string());
    assert_eq!(ctx.suspension_snapshot().unwrap().pending, vec!["t1", "t2"]);
}

#[test]
fn suspension_add_pending_is_idempotent() {
    let mut ctx = make_ctx();
    ctx.add_pending_task("t1".to_string());
    ctx.add_pending_task("t1".to_string());
    ctx.add_pending_task("t2".to_string());
    assert_eq!(ctx.suspension_snapshot().unwrap().pending, vec!["t1", "t2"]);
}

#[test]
fn session_context_progress_folds_into_terminal_result() {
    let mut ctx = suspended();
    ctx.add_progress("t1", "working on it");
    ctx.add_progress("t1", "still going");
    let snap = match complete(&mut ctx, "t1", "summary text") {
        TerminalRecord::Recorded(s) => s,
        other => panic!("expected Recorded, got {:?}", other),
    };
    assert_eq!(snap.results.len(), 1);
    let r = &snap.results[0];
    assert_eq!(r.sub_session_id, "t1");
    assert_eq!(r.status, SubStatus::Completed);
    assert_eq!(r.content, "summary text");
    assert_eq!(r.sent_message_count, 0);
    assert_eq!(r.progress, vec!["working on it", "still going"]);
    assert!(snap.pending.is_empty());
    assert_eq!(snap.progress_by_sub_session.len(), 0);
}

#[test]
fn suspension_progress_folds_into_terminal_result() {
    let mut ctx = suspended();
    ctx.add_progress("t1", "working on it");
    ctx.add_progress("t1", "still going");
    let snap = match complete(&mut ctx, "t1", "summary text") {
        TerminalRecord::Recorded(s) => s,
        other => panic!("expected Recorded, got {:?}", other),
    };
    assert_eq!(snap.results.len(), 1);
    let r = &snap.results[0];
    assert_eq!(r.sub_session_id, "t1");
    assert_eq!(r.status, SubStatus::Completed);
    assert_eq!(r.content, "summary text");
    assert_eq!(r.sent_message_count, 0);
    assert_eq!(r.progress, vec!["working on it", "still going"]);
    assert!(snap.pending.is_empty());
    assert_eq!(snap.progress_by_sub_session.len(), 0);
}

#[test]
fn session_context_out_of_order_completion_collects_in_completion_order() {
    let mut ctx = make_ctx();
    ctx.add_pending_task("t1".to_string());
    ctx.add_pending_task("t2".to_string());
    ctx.add_pending_task("t3".to_string());
    ctx.record_terminal("t3".into(), SubStatus::Failed, "e3".into(), 0);
    ctx.record_terminal("t1".into(), SubStatus::Completed, "c1".into(), 0);
    ctx.record_terminal("t2".into(), SubStatus::TimedOut, "t2".into(), 0);
    let snap = ctx.suspension_snapshot().unwrap();
    let order: Vec<&str> = snap.results.iter().map(|r| r.sub_session_id.as_str()).collect();
    assert_eq!(order, vec!["t3", "t1", "t2"]);
    assert_eq!(snap.results[1].status, SubStatus::Completed);
    assert_eq!(snap.results[2].status, SubStatus::TimedOut);
    assert!(snap.pending.is_empty());
}

#[test]
fn suspension_out_of_order_completion_collects_in_completion_order() {
    let mut ctx = make_ctx();
    ctx.add_pending_task("t1".to_string());
    ctx.add_pending_task("t2".to_string());
    ctx.add_pending_task("t3".to_string());
    ctx.record_terminal("t3".into(), SubStatus::Failed, "e3".into(), 0);
    ctx.record_terminal("t1".into(), SubStatus::Completed, "c1".into(), 0);
    ctx.record_terminal("t2".into(), SubStatus::TimedOut, "t2".into(), 0);
    let snap = ctx.suspension_snapshot().unwrap();
    let order: Vec<&str> = snap.results.iter().map(|r| r.sub_session_id.as_str()).collect();
    assert_eq!(order, vec!["t3", "t1", "t2"]);
    assert_eq!(snap.results[1].status, SubStatus::Completed);
    assert_eq!(snap.results[2].status, SubStatus::TimedOut);
    assert!(snap.pending.is_empty());
}

#[test]
fn session_context_record_terminal_without_suspension_returns_no_suspension() {
    let mut ctx = make_ctx();
    assert!(ctx.suspension_snapshot().is_none());
    assert!(!ctx.has_pending_async_work());
    let rec = complete(&mut ctx, "t9", "x");
    assert!(matches!(rec, TerminalRecord::NoSuspension));
    assert!(ctx.suspension_snapshot().is_none());
}

#[test]
fn suspension_record_terminal_without_suspension_returns_no_suspension() {
    let mut ctx = make_ctx();
    assert!(ctx.suspension_snapshot().is_none());
    assert!(!ctx.has_pending_async_work());
    let rec = complete(&mut ctx, "t9", "x");
    assert!(matches!(rec, TerminalRecord::NoSuspension));
    assert!(ctx.suspension_snapshot().is_none());
}

#[test]
fn session_context_record_terminal_second_call_is_duplicate() {
    let mut ctx = suspended();
    ctx.add_pending_task("t2".to_string()); // keep suspension alive after t1
    let first = complete(&mut ctx, "t1", "done");
    assert!(matches!(first, TerminalRecord::Recorded(_)));
    // t1 is no longer pending and already in results.
    let second = complete(&mut ctx, "t1", "again");
    assert!(matches!(second, TerminalRecord::Duplicate));
    let snap = ctx.suspension_snapshot().unwrap();
    assert_eq!(snap.results.len(), 1);
    assert_eq!(snap.results[0].content, "done");
}

#[test]
fn suspension_record_terminal_second_call_is_duplicate() {
    let mut ctx = suspended();
    ctx.add_pending_task("t2".to_string()); // keep suspension alive after t1
    let first = complete(&mut ctx, "t1", "done");
    assert!(matches!(first, TerminalRecord::Recorded(_)));
    // t1 is no longer pending and already in results.
    let second = complete(&mut ctx, "t1", "again");
    assert!(matches!(second, TerminalRecord::Duplicate));
    let snap = ctx.suspension_snapshot().unwrap();
    assert_eq!(snap.results.len(), 1);
    assert_eq!(snap.results[0].content, "done");
}

/// Stores the suspension of the context, drops the context and makes it anew.
fn restart(manager: &mut SessionManager, key: &str) {
    let ctx = manager.take_context(key).unwrap();
    let id = ctx.session_id.clone();
    let snapshot = ctx.suspension_snapshot();
    let events = ctx.pending_yield_events;
    let stored = if snapshot.is_some() { "{}" } else { "" };
    manager.backend.save_suspension(&id, stored);
    let stored = if events.is_empty() { "" } else { "[]" };
    manager.backend.save_pending_yield_events(&id, stored);
    manager.drop_context(key);
    manager.get_or_create_context(key, None, snapshot, Some(events));
}

#[test]
fn session_context_record_terminal_duplicate_survives_restart() {
    let key = "mock:default:u1";
    let mut manager = SessionManager::in_memory();
    manager.get_or_create_context(key, None, None, None);
    let mut ctx = manager.take_context(key).unwrap();
    ctx.add_pending_task("t1".to_string());
    ctx.add_pending_task("t2".to_string()); // keep suspension alive
    let first = complete(&mut ctx, "t1", "pre-crash");
    assert!(matches!(first, TerminalRecord::Recorded(_)));
    manager.register_context(key, ctx);

    restart(&mut manager, key);
    let mut ctx2 = manager.take_context(key).unwrap();
    let replayed = complete(&mut ctx2, "t1", "post-crash");
    assert!(matches!(replayed, TerminalRecord::Duplicate));
    let snap = ctx2.suspension_snapshot().unwrap();
    assert_eq!(snap.results.len(), 1);
    assert_eq!(snap.results[0].content, "pre-crash");
}

#[test]
fn suspension_record_terminal_duplicate_survives_restart() {
    let key = "mock:default:u1";
    let mut manager = SessionManager::in_memory();
    manager.get_or_create_context(key, None, None, None);
    let mut ctx = manager.take_context(key).unwrap();
    ctx.add_pending_task("t1".to_string());
    ctx.add_pending_task("t2".to_string()); // keep suspension alive
    let first = complete(&mut ctx, "t1", "pre-crash");
    assert!(matches!(first, TerminalRecord::Recorded(_)));
    manager.register_context(key, ctx);

    restart(&mut manager, key);
    let mut ctx2 = manager.take_context(key).unwrap();
    let replayed = complete(&mut ctx2, "t1", "post-crash");
    assert!(matches!(replayed, TerminalRecord::Duplicate));
    let snap = ctx2.suspension_snapshot().unwrap();
    assert_eq!(snap.results.len(), 1);
    assert_eq!(snap.results[0].content, "pre-crash");
}

#[test]
fn session_context_clear_semantics_pending_kept_empty_removed_idempotent() {
    let mut ctx = make_ctx();
    ctx.add_pending_task("t1".to_string());
    ctx.add_pending_task("t2".to_string());
    // Something pending: the suspension stays.
    complete(&mut ctx, "t1", "c1");
    ctx.clear_suspension_if_collected();
    let snap = ctx.suspension_snapshot().unwrap();
    assert_eq!(snap.pending, vec!["t2"]);
    // Nothing pending: it goes.
    complete(&mut ctx, "t2", "c2");
    ctx.clear_suspension_if_collected();
    assert!(ctx.suspension_snapshot().is_none());
    ctx.clear_suspension_if_collected();
    assert!(ctx.suspension_snapshot().is_none());
}

#[test]
fn suspension_clear_semantics_pending_kept_empty_removed_idempotent() {
    let mut ctx = make_ctx();
    ctx.add_pending_task("t1".to_string());
    ctx.add_pending_task("t2".to_string());
    // Something pending: the suspension stays.
    complete(&mut ctx, "t1", "c1");
    ctx.clear_suspension_if_collected();
    let snap = ctx.suspension_snapshot().unwrap();
    assert_eq!(snap.pending, vec!["t2"]);
    // Nothing pending: it goes.
    complete(&mut ctx, "t2", "c2");
    ctx.clear_suspension_if_collected();
    assert!(ctx.suspension_snapshot().is_none());
    ctx.clear_suspension_if_collected();
    assert!(ctx.suspension_snapshot().is_none());
}

#[test]
fn session_context_clear_respects_notice_turns_in_flight() {
    let mut ctx = make_ctx();
    ctx.add_pending_task("t1".to_string());
    ctx.bump_notice_turn();
    complete(&mut ctx, "t1", "done");
    ctx.clear_suspension_if_collected();
    let snap = ctx.suspension_snapshot().expect("suspension kept while notice in flight");
    assert!(snap.pending.is_empty());
    ctx.finish_notice_turn();
    ctx.clear_suspension_if_collected();
    assert!(ctx.suspension_snapshot().is_none());
    ctx.clear_suspension_if_collected();
    assert!(ctx.suspension_snapshot().is_none());
}

#[test]
fn suspension_clear_respects_notice_turns_in_flight() {
    let mut ctx = make_ctx();
    ctx.add_pending_task("t1".to_string());
    ctx.bump_notice_turn();
    complete(&mut ctx, "t1", "done");
    ctx.clear_suspension_if_collected();
    let snap = ctx.suspension_snapshot().expect("suspension kept while notice in flight");
    assert!(snap.pending.is_empty());
    ctx.finish_notice_turn();
    ctx.clear_suspension_if_collected();
    assert!(ctx.suspension_snapshot().is_none());
    ctx.clear_suspension_if_collected();
    assert!(ctx.suspension_snapshot().is_none());
}

#[test]
fn session_context_notice_turn_counter_roundtrip() {
    let mut ctx = make_ctx();
    assert!(!ctx.has_notice_turns_in_flight());
    ctx.bump_notice_turn();
    ctx.bump_notice_turn();
    assert!(ctx.has_notice_turns_in_flight());
    ctx.finish_notice_turn();
    assert!(ctx.has_notice_turns_in_flight());
    ctx.finish_notice_turn();
    assert!(!ctx.has_notice_turns_in_flight());
    // Further ends are no-ops.
    ctx.finish_notice_turn();
    ctx.finish_notice_turn();
    assert!(!ctx.has_notice_turns_in_flight());

    let mut g = NoticeTurnGuard::new(true);
    ctx.bump_notice_turn();
    assert!(ctx.has_notice_turns_in_flight());
    g.finish(&mut ctx);
    assert!(!ctx.has_notice_turns_in_flight());
    ctx.bump_notice_turn();
    g.finish(&mut ctx); // counts once
    assert!(ctx.has_notice_turns_in_flight());
    ctx.finish_notice_turn();

    // The guard of a user's turn counts nothing.
    let mut g = NoticeTurnGuard::new(false);
    ctx.bump_notice_turn();
    g.finish(&mut ctx);
    assert!(ctx.has_notice_turns_in_flight());
}

#[test]
fn suspension_notice_turn_counter_roundtrip() {
    let mut ctx = make_ctx();
    assert!(!ctx.has_notice_turns_in_flight());
    ctx.bump_notice_turn();
    ctx.bump_notice_turn();
    assert!(ctx.has_notice_turns_in_flight());
    ctx.finish_notice_turn();
    assert!(ctx.has_notice_turns_in_flight());
    ctx.finish_notice_turn();
    assert!(!ctx.has_notice_turns_in_flight());
    // Further ends are no-ops.
    ctx.finish_notice_turn();
    ctx.finish_notice_turn();
    assert!(!ctx.has_notice_turns_in_flight());

    let mut g = NoticeTurnGuard::new(true);
    ctx.bump_notice_turn();
    assert!(ctx.has_notice_turns_in_flight());
    g.finish(&mut ctx);
    assert!(!ctx.has_notice_turns_in_flight());
    ctx.bump_notice_turn();
    g.finish(&mut ctx); // counts once
    assert!(ctx.has_notice_turns_in_flight());
    ctx.finish_notice_turn();

    // The guard of a user's turn counts nothing.
    let mut g = NoticeTurnGuard::new(false);
    ctx.bump_notice_turn();
    g.finish(&mut ctx);
    assert!(ctx.has_notice_turns_in_flight());
}

#[test]
fn session_context_persist_restore_roundtrip_preserves_results() {
    let key = "mock:default:u1";
    let mut manager = SessionManager::in_memory();
    manager.get_or_create_context(key, None, None, None);
    let mut ctx = manager.take_context(key).unwrap();
    ctx.add_pending_task("t1".to_string());
    ctx.add_progress("t1", "halfway");
    ctx.record_terminal("t1".into(), SubStatus::Completed, "final summary".into(), 2);
    let sid = ctx.session_id.clone();
    assert_eq!(ctx.suspension_snapshot().unwrap().results.len(), 1);
    manager.register_context(key, ctx);

    restart(&mut manager, key);
    let ctx2 = manager.get_context(key).unwrap();
    assert_eq!(ctx2.session_id, sid);
    let snap2 = ctx2.suspension_snapshot().unwrap();
    assert_eq!(snap2.results.len(), 1);
    let r = &snap2.results[0];
    assert_eq!(r.sub_session_id, "t1");
    assert_eq!(r.status, SubStatus::Completed);
    assert_eq!(r.content, "final summary");
    assert_eq!(r.sent_message_count, 2);
    assert_eq!(r.progress, vec!["halfway"]);

    let mut ctx2 = manager.take_context(key).unwrap();
    ctx2.clear_suspension_if_collected();
    manager.register_context(key, ctx2);
    restart(&mut manager, key);
    assert!(manager.get_context(key).unwrap().suspension_snapshot().is_none());
}

#[test]
fn suspension_persist_restore_roundtrip_preserves_results() {
    let key = "mock:default:u1";
    let mut manager = SessionManager::in_memory();
    manager.get_or_create_context(key, None, None, None);
    let mut ctx = manager.take_context(key).unwrap();
    ctx.add_pending_task("t1".to_string());
    ctx.add_progress("t1", "halfway");
    ctx.record_terminal("t1".into(), SubStatus::Completed, "final summary".into(), 2);
    let sid = ctx.session_id.clone();
    assert_eq!(ctx.suspension_snapshot().unwrap().results.len(), 1);
    manager.register_context(key, ctx);

    restart(&mut manager, key);
    let ctx2 = manager.get_context(key).unwrap();
    assert_eq!(ctx2.session_id, sid);
    let snap2 = ctx2.suspension_snapshot().unwrap();
    assert_eq!(snap2.results.len(), 1);
    let r = &snap2.results[0];
    assert_eq!(r.sub_session_id, "t1");
    assert_eq!(r.status, SubStatus::Completed);
    assert_eq!(r.content, "final summary");
    assert_eq!(r.sent_message_count, 2);
    assert_eq!(r.progress, vec!["halfway"]);

    let mut ctx2 = manager.take_context(key).unwrap();
    ctx2.clear_suspension_if_collected();
    manager.register_context(key, ctx2);
    restart(&mut manager, key);
    assert!(manager.get_context(key).unwrap().suspension_snapshot().is_none());
}

#[test]
fn session_context_corrupt_and_empty_json_are_ignored_on_restore() {
    let key = "mock:default:u1";
    let mut manager = SessionManager::in_memory();
    manager.get_or_create_context(key, None, None, None);
    let sid = manager.get_context(key).unwrap().session_id.clone();
    // A text that spells no suspension.
    manager.backend.save_suspension(&sid, "{ not json");
    manager.drop_context(key);
    manager.get_or_create_context(key, None, None, None);
    assert!(manager.get_context(key).unwrap().suspension_snapshot().is_none());
    // An empty text.
    manager.backend.save_suspension(&sid, "");
    manager.drop_context(key);
    let other = suspended().suspension_snapshot();
    manager.get_or_create_context(key, None, other, None);
    assert!(manager.get_context(key).unwrap().suspension_snapshot().is_none());
}

#[test]
fn suspension_corrupt_and_empty_json_are_ignored_on_restore() {
    let key = "mock:default:u1";
    let mut manager = SessionManager::in_memory();
    manager.get_or_create_context(key, None, None, None);
    let sid = manager.get_context(key).unwrap().session_id.clone();
    // A text that spells no suspension.
    manager.backend.save_suspension(&sid, "{ not json");
    manager.drop_context(key);
    manager.get_or_create_context(key, None, None, None);
    assert!(manager.get_context(key).unwrap().suspension_snapshot().is_none());
    // An empty text.
    manager.backend.save_suspension(&sid, "");
    manager.drop_context(key);
    let other = suspended().suspension_snapshot();
    manager.get_or_create_context(key, None, other, None);
    assert!(manager.get_context(key).unwrap().suspension_snapshot().is_none());
}

#[test]
fn session_context_decide_silenced_uses_wake_time_intent_over_live_snapshot() {
    let mut ctx = make_ctx();
    ctx.add_pending_task("t1".to_string());
    ctx.add_pending_task("t2".to_string());
    complete(&mut ctx, "t1", "t1 done");
    assert!(decide_silenced(Some(true), ctx.suspension_snapshot()));
    assert!(!decide_silenced(Some(false), ctx.suspension_snapshot()));
    // The other task ends before the turn of the first notice begins.
    complete(&mut ctx, "t2", "t2 done");
    let live_empty = ctx.suspension_snapshot();
    assert!(live_empty.as_ref().unwrap().pending.is_empty());
    assert!(decide_silenced(Some(true), live_empty));
    assert!(!decide_silenced(Some(false), ctx.suspension_snapshot()));
}

#[test]
fn suspension_decide_silenced_uses_wake_time_intent_over_live_snapshot() {
    let mut ctx = make_ctx();
    ctx.add_pending_task("t1".to_string());
    ctx.add_pending_task("t2".to_string());
    complete(&mut ctx, "t1", "t1 done");
    assert!(decide_silenced(Some(true), ctx.suspension_snapshot()));
    assert!(!decide_silenced(Some(false), ctx.suspension_snapshot()));
    // The other task ends before the turn of the first notice begins.
    complete(&mut ctx, "t2", "t2 done");
    let live_empty = ctx.suspension_snapshot();
    assert!(live_empty.as_ref().unwrap().pending.is_empty());
    assert!(decide_silenced(Some(true), live_empty));
    assert!(!decide_silenced(Some(false), ctx.suspension_snapshot()));
}

#[test]
fn session_context_decide_silenced_never_silences_user_messages_even_with_live_pending() {
    let mut ctx = make_ctx();
    assert!(!decide_silenced(None, ctx.suspension_snapshot()));
    ctx.add_pending_task("t1".to_string());
    assert!(!decide_silenced(None, ctx.suspension_snapshot()));
    complete(&mut ctx, "t1", "ok");
    assert!(!decide_silenced(None, ctx.suspension_snapshot()));
}

#[test]
fn suspension_decide_silenced_never_silences_user_messages_even_with_live_pending() {
    let mut ctx = make_ctx();
    assert!(!decide_silenced(None, ctx.suspension_snapshot()));
    ctx.add_pending_task("t1".to_string());
    assert!(!decide_silenced(None, ctx.suspension_snapshot()));
    complete(&mut ctx, "t1", "ok");
    assert!(!decide_silenced(None, ctx.suspension_snapshot()));
}

#[test]
fn session_context_semantic_stop_reason_maps_silenced_endturn_to_continue() {
    assert_eq!(
        semantic_stop_reason(true, true, StopReason::EndTurn),
        StopReason::Continue
    );
    // Loud final resume / non-pending turns keep EndTurn.
    assert_eq!(
        semantic_stop_reason(false, true, StopReason::EndTurn),
        StopReason::EndTurn
    );
    assert_eq!(
        semantic_stop_reason(true, false, StopReason::EndTurn),
        StopReason::EndTurn
    );
    // Non-EndTurn reasons pass through untouched.
    assert_eq!(
        semantic_stop_reason(true, true, StopReason::MaxTokens),
        StopReason::MaxTokens
    );
    assert_eq!(
        semantic_stop_reason(true, true, StopReason::ToolUse),
        StopReason::ToolUse
    );
    assert_eq!(
        semantic_stop_reason(true, true, StopReason::Continue),
        StopReason::Continue
    );
}

#[test]
fn suspension_semantic_stop_reason_maps_silenced_endturn_to_continue() {
    assert_eq!(
        semantic_stop_reason(true, true, StopReason::EndTurn),
        StopReason::Continue
    );
    // Loud final resume / non-pending turns keep EndTurn.
    assert_eq!(
        semantic_stop_reason(false, true, StopReason::EndTurn),
        StopReason::EndTurn
    );
    assert_eq!(
        semantic_stop_reason(true, false, StopReason::EndTurn),
        StopReason::EndTurn
    );
    // Non-EndTurn reasons pass through untouched.
    assert_eq!(
        semantic_stop_reason(true, true, StopReason::MaxTokens),
        StopReason::MaxTokens
    );
    assert_eq!(
        semantic_stop_reason(true, true, StopReason::ToolUse),
        StopReason::ToolUse
    );
    assert_eq!(
        semantic_stop_reason(true, true, StopReason::Continue),
        StopReason::Continue
    );
}

#[test]
fn ends_of_tasks_are_remembered_for_an_hour() {
    let hour: u64 = 3_600_000_000_000;
    let mut ctx = suspended();
    let first = ctx.record_terminal_at("t1".into(), SubStatus::Completed, "a".into(), 0, 0);
    assert!(matches!(first, TerminalRecord::Recorded(_)));
    ctx.clear_suspension_if_collected();
    let second = ctx.record_terminal_at("t1".into(), SubStatus::Completed, "b".into(), 0, 1);
    assert!(matches!(second, TerminalRecord::Duplicate));
    let late = ctx.record_terminal_at("t1".into(), SubStatus::Completed, "c".into(), 0, 2 * hour);
    assert!(matches!(late, TerminalRecord::NoSuspension));
}

#[test]
fn notices_wait_in_order() {
    let mut ctx = make_ctx();
    assert!(!ctx.has_queued_delegation_notices());
    for id in ["a", "b"] {
        ctx.enqueue_delegation_notice(DelegationNotice {
            id: id.to_string(),
            content: String::new(),
            silenced_override: Some(true),
        });
    }
    assert!(ctx.has_queued_delegation_notices());
    let taken = ctx.take_delegation_notices();
    let ids: Vec<&str> = taken.iter().map(|n| n.id.as_str()).collect();
    assert_eq!(ids, vec!["a", "b"]);
    assert!(!ctx.has_queued_delegation_notices());
}

// ── Yields ─────────────────────────────────────────────────────────────────

#[test]
fn noop_without_a_pending_yield() {
    let mut ctx = make_ctx();
    ctx.enqueue_pending_yield_event(event("sub-agent A done"));
    assert!(matches!(ctx.try_fill_pending_yield(), Fill::Nothing));
    assert_eq!(ctx.take_pending_yield_events().len(), 1);
}

#[test]
fn puts_pending_yield_back_when_queue_is_empty() {
    let mut ctx = make_ctx();
    yield_on(&mut ctx, "call_y1");
    assert!(matches!(ctx.try_fill_pending_yield(), Fill::Nothing));
    assert_eq!(
        ctx.session.pending_yield.as_ref().map(|p| p.tool_call_id.as_str()),
        Some("call_y1")
    );
    assert!(answers(&ctx, "call_y1").is_empty());
}

#[test]
fn batches_queued_events_into_one_tool_result() {
    let mut ctx = make_ctx();
    yield_on(&mut ctx, "call_y2");
    ctx.enqueue_pending_yield_event(event("sub-agent A done: result A"));
    ctx.enqueue_pending_yield_event(event("sub-agent B done: result B"));
    assert!(matches!(ctx.try_fill_pending_yield(), Fill::Resume));
    assert!(ctx.session.pending_yield.is_none());
    assert_eq!(ctx.session.message_ids, vec![0]);
    let filled = answers(&ctx, "call_y2");
    assert_eq!(filled.len(), 1, "must be exactly ONE tool_result, not one per event");
    let text = filled[0].text_content();
    assert!(text.contains("result A"), "got: {}", text);
    assert!(text.contains("result B"), "got: {}", text);
    assert_eq!(filled[0].name.as_deref(), Some("sessions_yield"));
    assert_eq!(filled[0].is_error, Some(false));
}

#[test]
fn events_as_one_text() {
    assert_eq!(format_pending_yield_events(&vec![event("one")]), "one");
    let text = format_pending_yield_events(&vec![event("one"), event("two")]);
    assert!(text.contains("- one\n- two\n"), "got: {}", text);
}

#[test]
fn enqueued_event_survives_restart() {
    let key = "mock:default:u1";
    let mut manager = SessionManager::in_memory();
    manager.get_or_create_context(key, None, None, None);
    let mut ctx = manager.take_context(key).unwrap();
    ctx.enqueue_pending_yield_event(event("sub-agent A done"));
    manager.register_context(key, ctx);
    restart(&mut manager, key);
    let mut ctx2 = manager.take_context(key).unwrap();
    let events = ctx2.take_pending_yield_events();
    assert_eq!(events.len(), 1, "queued event must survive the restart");
    assert_eq!(events[0].content, "sub-agent A done");
}

#[test]
fn multiple_queued_events_survive_restart_in_order() {
    let key = "mock:default:u1";
    let mut manager = SessionManager::in_memory();
    manager.get_or_create_context(key, None, None, None);
    let mut ctx = manager.take_context(key).unwrap();
    ctx.enqueue_pending_yield_event(event("first"));
    ctx.enqueue_pending_yield_event(event("second"));
    manager.register_context(key, ctx);
    restart(&mut manager, key);
    let mut ctx2 = manager.take_context(key).unwrap();
    let events = ctx2.take_pending_yield_events();
    let contents: Vec<&str> = events.iter().map(|e| e.content.as_str()).collect();
    assert_eq!(contents, vec!["first", "second"]);
}

#[test]
fn filled_queue_does_not_resurrect_after_restart() {
    let key = "mock:default:u1";
    let mut manager = SessionManager::in_memory();
    manager.get_or_create_context(key, None, None, None);
    let mut ctx = manager.take_context(key).unwrap();
    yield_on(&mut ctx, "call_y3");
    ctx.enqueue_pending_yield_event(event("sub-agent A done"));
    ctx.try_fill_pending_yield();
    manager.register_context(key, ctx);
    restart(&mut manager, key);
    let mut ctx2 = manager.take_context(key).unwrap();
    assert!(
        ctx2.take_pending_yield_events().is_empty(),
        "a delivered event must not come back after a restart"
    );
}

#[test]
fn fast_path_delivers_from_an_already_queued_event() {
    let mut ctx = make_ctx();
    ctx.enqueue_pending_yield_event(event("sub-agent A done"));
    yield_on(&mut ctx, "call_fast");
    let filled = ctx.begin_park("call_fast".to_string());
    assert!(filled, "an already-queued event must be delivered without parking");
    assert!(ctx.session.pending_yield.is_none());
    assert!(ctx.yield_waiter.is_none(), "the fast path must never register a waiter");
    assert!(answers(&ctx, "call_fast")[0].text_content().contains("sub-agent A done"));
}

#[test]
fn live_waiter_is_signaled_and_the_parked_task_delivers_it() {
    let mut ctx = make_ctx();
    yield_on(&mut ctx, "call_park");
    assert!(!ctx.begin_park("call_park".to_string()));
    assert!(ctx.yield_waiter.is_some());
    ctx.enqueue_pending_yield_event(event("sub-agent B done"));
    let content = match ctx.try_fill_pending_yield() {
        Fill::Wake(c) => c,
        _ => panic!("the parked turn must be woken"),
    };
    assert!(answers(&ctx, "call_park").is_empty(), "the woken turn writes the result");
    assert!(ctx.yield_waiter.is_none());
    assert!(ctx.session.message_ids.is_empty());
    assert!(ctx.end_park("call_park".to_string(), Some(content)));
    assert_eq!(ctx.session.message_ids, vec![0]);
    assert!(ctx.session.pending_yield.is_none());
    assert!(answers(&ctx, "call_park")[0].text_content().contains("sub-agent B done"));
}

#[test]
fn superseding_waiter_cancels_the_original_park() {
    let mut ctx = make_ctx();
    yield_on(&mut ctx, "call_old");
    assert!(!ctx.begin_park("call_old".to_string()));
    assert!(!ctx.begin_park("call_new".to_string()));
    assert_eq!(ctx.yield_waiter.as_deref(), Some("call_new"));
    let filled = ctx.end_park("call_old".to_string(), None);
    assert!(!filled, "a cancelled park must report no delivery");
    assert!(answers(&ctx, "call_old").is_empty());
}

#[test]
fn content_delivered_after_a_late_supersede_is_requeued_not_lost() {
    let mut ctx = make_ctx();
    yield_on(&mut ctx, "call_a");
    assert!(!ctx.begin_park("call_a".to_string()));
    ctx.yield_waiter = None;
    // The yield is closed while the content is on its way.
    ctx.session.pending_yield = None;
    let filled = ctx.end_park("call_a".to_string(), Some("sub-agent A done".to_string()));
    assert!(!filled, "a superseded delivery must report no delivery");
    assert!(answers(&ctx, "call_a").is_empty());
    let requeued = ctx.take_pending_yield_events();
    assert_eq!(requeued.len(), 1, "the content must be re-queued, not dropped");
    assert_eq!(requeued[0].content, "sub-agent A done");
}

// ── Turns ──────────────────────────────────────────────────────────────────

fn inbound(text: &str) -> ChannelInboundMessage {
    ChannelInboundMessage {
        id: "m1".to_string(),
        sender: "u1".to_string(),
        receiver: MessageReceiver {
            id: "u1".to_string(),
            reply_to_message_id: None,
            thread_id: None,
        },
        text: text.to_string(),
        files: Vec::new(),
        timestamp: 0,
        silenced_override: None,
        run_mode: RunMode::Interactive,
    }
}

fn receive(ctx: &mut SessionContext, text: &str, media: Vec<ContentPart>) -> Admission {
    let start = ctx.begin_turn(inbound(text));
    ctx.receive_message(text, media, None, start.was_incomplete, "nothing to do", "a picture")
}

#[test]
fn interjection_closes_pending_yield_instead_of_adding_a_user_message() {
    let mut ctx = make_ctx();
    yield_on(&mut ctx, "call_y1");
    assert!(matches!(receive(&mut ctx, "怎么样了？", Vec::new()), Admission::Ready));
    assert!(ctx.session.pending_yield.is_none());
    assert!(!ctx.session.history.iter().any(|m| m.role == "user"));
    assert_eq!(ctx.session.message_ids, vec![0]);
    let filled = answers(&ctx, "call_y1");
    assert_eq!(filled.len(), 1, "must close exactly the pending tool_call");
    assert_eq!(filled[0].role, "tool");
    assert_eq!(filled[0].name.as_deref(), Some("sessions_yield"));
    assert_eq!(filled[0].is_error, Some(false));
    assert_eq!(
        filled[0].text_content(),
        "The user interrupted the wait and said: 怎么样了？"
    );
}

#[test]
fn no_pending_yield_takes_the_ordinary_user_message_path() {
    let mut ctx = make_ctx();
    assert!(matches!(receive(&mut ctx, "hello", Vec::new()), Admission::Ready));
    assert!(ctx.session.history.iter().any(|m| m.role == "user"));
    assert!(!ctx.session.history.iter().any(|m| m.tool_call_id.is_some()));
}

#[test]
fn media_carrying_interjection_falls_through_to_the_ordinary_path() {
    let mut ctx = make_ctx();
    yield_on(&mut ctx, "call_y2");
    let files = vec![InboundFile {
        file_name: "note.txt".to_string(),
        mime_type: Some("text/plain".to_string()),
        size_bytes: Some(5),
    }];
    let media = media_parts(&files, true, &vec![Some("/s/note.txt".to_string())], &vec![None]);
    assert!(matches!(receive(&mut ctx, "看这个文件", media), Admission::Ready));
    assert!(ctx.session.pending_yield.is_some());
    assert!(ctx.session.history.iter().any(|m| m.role == "user"));
    assert!(!ctx.session.history.iter().any(|m| m.tool_call_id.is_some()));
}

#[test]
fn a_bare_continue_with_nothing_open_is_answered_at_once() {
    let mut ctx = make_ctx();
    match receive(&mut ctx, "继续", Vec::new()) {
        Admission::BareContinue(t) => {
            assert_eq!(t.text, "nothing to do");
            assert_eq!(t.stop_reason, StopReason::EndTurn);
        }
        Admission::Ready => panic!("there is nothing to go on with"),
    }
    assert!(ctx.session.history.is_empty());
    ctx.session.incomplete_turn = true;
    assert!(matches!(receive(&mut ctx, "继续", Vec::new()), Admission::Ready));
    assert!(!ctx.session.incomplete_turn);
}

#[test]
fn reminders_and_hints() {
    let mut ctx = make_ctx();
    ctx.receive_message("hi", Vec::new(), Some("R".to_string()), false, "", "a picture");
    assert_eq!(ctx.session.history[0].text_content(), "R\n\nhi");
    let part = ContentPart::File {
        path: "/p".to_string(),
        mime_type: None,
        name: None,
        size_bytes: None,
    };
    ctx.receive_message("  ", vec![part], None, false, "", "a picture");
    assert!(ctx.session.history[1].text_content().contains("a picture"));
}

#[test]
fn files_without_a_place_are_left_out() {
    let file = |name: &str| InboundFile {
        file_name: name.to_string(),
        mime_type: None,
        size_bytes: None,
    };
    let files = vec![file("a"), file("b"), file("c")];
    let place = |s: &str| Some(s.to_string());
    let parts = media_parts(
        &files,
        true,
        &vec![place("/saved/a"), None, None],
        &vec![place("/tmp/a"), place("/tmp/b"), None],
    );
    let paths: Vec<&str> = parts
        .iter()
        .map(|p| match p {
            ContentPart::File { path, .. } => path.as_str(),
            _ => panic!("a part that is no file"),
        })
        .collect();
    assert_eq!(paths, vec!["/saved/a", "/tmp/b"]);
    let parts = media_parts(
        &vec![file("a")],
        false,
        &vec![place("/saved/a")],
        &vec![place("/tmp/a")],
    );
    assert!(matches!(&parts[0], ContentPart::File { path, .. } if path == "/tmp/a"));
}

#[test]
fn settings_of_a_turn() {
    let over = SessionOverride {
        permission_mode: Some("read".to_string()),
        ..SessionOverride::default()
    };
    let s = turn_settings(&over, "write", RunMode::Background);
    assert_eq!(s.permission_mode, "read");
    assert_eq!(s.run_mode, RunMode::Background);
    let s = turn_settings(&SessionOverride::default(), "write", RunMode::Interactive);
    assert_eq!(s.permission_mode, "write");
    assert!(s.thinking.is_none());
}

fn fold(msg_id: &str) -> FoldCandidate {
    FoldCandidate {
        msg_id: msg_id.to_string(),
        text: "so far".to_string(),
        thinking_steps: 1,
        tool_count: 2,
        commentary_notes: 3,
        started_at_unix_secs: 4,
    }
}

fn result(text: &str, has_pending: bool) -> TurnResult {
    TurnResult {
        text: text.to_string(),
        stop_reason: StopReason::EndTurn,
        pending_retry: None,
        has_pending,
    }
}

#[test]
fn quiet_turns_go_on() {
    let mut ctx = suspended();
    ctx.keep_preview(true, "chat", Some(fold("42")));
    ctx.bump_notice_turn();
    let mut notice = inbound("task done");
    notice.silenced_override = Some(true);
    let start = ctx.begin_turn(notice);
    assert!(start.silenced);
    assert!(start.defer_collapse);
    assert!(!start.final_takeover);
    assert_eq!(start.fold.unwrap().msg_id, "42");
    assert!(ctx.session.turn_silenced);
    let mut guard = NoticeTurnGuard::new(true);
    let settled = ctx.settle_turn(true, &mut guard, result("note", false));
    assert_eq!(settled.result.stop_reason, StopReason::Continue);
    assert!(settled.result.has_pending);
    assert!(settled.age_media);
    assert!(!ctx.has_notice_turns_in_flight());
    assert!(ctx.suspension_snapshot().is_some());
}

#[test]
fn the_last_turn_of_a_sequence_is_loud() {
    let mut ctx = suspended();
    ctx.keep_preview(true, "chat", Some(fold("42")));
    complete(&mut ctx, "t1", "ok");
    ctx.bump_notice_turn();
    let mut notice = inbound("task done");
    notice.silenced_override = Some(false);
    let start = ctx.begin_turn(notice);
    assert!(!start.silenced);
    assert!(start.final_takeover);
    let mut guard = NoticeTurnGuard::new(true);
    let settled = ctx.settle_turn(false, &mut guard, result("all done", false));
    assert_eq!(settled.result.stop_reason, StopReason::EndTurn);
    assert!(ctx.suspension_snapshot().is_none());
}

#[test]
fn failed_turns_end() {
    let mut ctx = make_ctx();
    ctx.bump_notice_turn();
    ctx.session.turn_headless = true;
    let mut guard = NoticeTurnGuard::new(true);
    ctx.end_failed_turn(&mut guard);
    assert!(!ctx.session.turn_headless);
    assert!(!ctx.has_notice_turns_in_flight());
}

#[test]
fn turns_that_leave_work_running_get_a_yield() {
    let mut ctx = make_ctx();
    assert_eq!(ctx.yield_to_park_on(false, "made-up"), None);
    assert_eq!(ctx.yield_to_park_on(true, "made-up").as_deref(), Some("made-up"));
    assert!(ctx.session.pending_yield.as_ref().unwrap().implicit);
    let calls = ctx.session.history[0].tool_calls.as_ref().unwrap();
    assert_eq!(calls[0].name, "sessions_yield");
    assert_eq!(calls[0].id, "made-up");
    assert_eq!(ctx.yield_to_park_on(true, "other").as_deref(), Some("made-up"));
    assert_eq!(ctx.session.message_ids, vec![0]);
}

#[test]
fn answers_that_are_sent() {
    assert!(should_send(StreamDelivery::Pending, true, "x"));
    assert!(should_send(StreamDelivery::Visible, false, "x"));
    assert!(!should_send(StreamDelivery::Visible, true, "x"));
    assert!(!should_send(StreamDelivery::FinalDelivered, false, "x"));
    assert!(!should_send(StreamDelivery::Pending, false, " \n"));
    assert_eq!(speech_of(true, true, false, false, "**hi**").as_deref(), Some("hi"));
    assert_eq!(speech_of(true, true, true, false, "hi"), None);
    assert_eq!(speech_of(true, false, false, false, "hi"), None);
    assert_eq!(speak_script("x".repeat(2000)).unwrap().len(), 2000);
    assert_eq!(speak_script("x".repeat(2001)), None);
    assert_eq!(speak_script(String::new()), None);
}

// ── Helpers ────────────────────────────────────────────────────────────────

#[test]
fn session_context_bare_continue_detects_common_cues() {
    assert!(is_bare_continue("继续"));
    assert!(is_bare_continue("  继续  "));
    assert!(is_bare_continue("continue"));
    assert!(is_bare_continue("Continue"));
    assert!(!is_bare_continue("继续做那个 SEO 修复"));
    assert!(!is_bare_continue("请继续分析日志"));
    assert!(!is_bare_continue(""));
    assert!(!is_bare_continue("hello"));
}

#[test]
fn helpers_bare_continue_detects_common_cues() {
    assert!(is_bare_continue("继续"));
    assert!(is_bare_continue("  继续  "));
    assert!(is_bare_continue("continue"));
    assert!(is_bare_continue("Continue"));
    assert!(!is_bare_continue("继续做那个 SEO 修复"));
    assert!(!is_bare_continue("请继续分析日志"));
    assert!(!is_bare_continue(""));
    assert!(!is_bare_continue("hello"));
}

#[test]
fn session_context_history_incomplete_on_trailing_user_or_tool() {
    assert!(!history_looks_incomplete(&[]));
    assert!(history_looks_incomplete(&[ChatMessage::user_text("hi")]));
    assert!(!history_looks_incomplete(&[
        ChatMessage::user_text("hi"),
        ChatMessage::assistant_text("ok"),
    ]));
    let mut asst = ChatMessage::assistant_text("");
    asst.tool_calls = Some(vec![ToolCall {
        id: "1".into(),
        name: "shell".into(),
        arguments: "{}".into(),
    }]);
    assert!(history_looks_incomplete(&[asst]));
}

#[test]
fn helpers_history_incomplete_on_trailing_user_or_tool() {
    assert!(!history_looks_incomplete(&[]));
    assert!(history_looks_incomplete(&[ChatMessage::user_text("hi")]));
    assert!(!history_looks_incomplete(&[
        ChatMessage::user_text("hi"),
        ChatMessage::assistant_text("ok"),
    ]));
    let mut asst = ChatMessage::assistant_text("");
    asst.tool_calls = Some(vec![ToolCall {
        id: "1".into(),
        name: "shell".into(),
        arguments: "{}".into(),
    }]);
    assert!(history_looks_incomplete(&[asst]));
}

#[test]
fn aged_messages_take_the_place_of_their_files() {
    let mut s = Session::new("s".to_string());
    s.add_user("a".to_string());
    s.add_user("b".to_string());
    s.message_ids = vec![0, 7];
    let places = age_session_media(&mut s, vec![None, Some(ChatMessage::user_text("[file]"))]);
    assert_eq!(places, vec![1]);
    assert_eq!(s.history[0].text_content(), "a");
    assert_eq!(s.history[1].text_content(), "[file]");
}

// ── Speech ─────────────────────────────────────────────────────────────────

#[test]
fn session_context_test_basic_stripping() {
    assert_eq!(prepare_text_for_tts("**hello**"), "hello");
    assert_eq!(prepare_text_for_tts("# 标题"), "标题");
    assert_eq!(prepare_text_for_tts("- 列表项"), "列表项");
    assert_eq!(prepare_text_for_tts("`代码`"), "代码");
    assert_eq!(prepare_text_for_tts("[链接文字](https://example.com)"), "链接文字");
}

#[test]
fn tts_test_basic_stripping() {
    assert_eq!(prepare_text_for_tts("**hello**"), "hello");
    assert_eq!(prepare_text_for_tts("# 标题"), "标题");
    assert_eq!(prepare_text_for_tts("- 列表项"), "列表项");
    assert_eq!(prepare_text_for_tts("`代码`"), "代码");
    assert_eq!(prepare_text_for_tts("[链接文字](https://example.com)"), "链接文字");
}

#[test]
fn session_context_test_complex() {
    let input = "## 标题\n\n**重点**和*斜体*文字。\n\n- 第一项\n- 第二项\n\n```\ncode block\n```\n";
    let result = prepare_text_for_tts(input);
    assert!(!result.contains("```"));
    assert!(!result.contains("**"));
    assert!(!result.contains("##"));
    assert!(result.contains("重点"));
    assert!(result.contains("第一项"));
}

#[test]
fn tts_test_complex() {
    let input = "## 标题\n\n**重点**和*斜体*文字。\n\n- 第一项\n- 第二项\n\n```\ncode block\n```\n";
    let result = prepare_text_for_tts(input);
    assert!(!result.contains("```"));
    assert!(!result.contains("**"));
    assert!(!result.contains("##"));
    assert!(result.contains("重点"));
    assert!(result.contains("第一项"));
}

#[test]
fn session_context_test_think_block_removal() {
    let result = prepare_text_for_tts("<think>let me analyze this</think>你好世界");
    assert!(!result.contains("think"));
    assert!(!result.contains("analyze"));
    assert!(result.contains("你好世界"));
}

#[test]
fn tts_test_think_block_removal() {
    let result = prepare_text_for_tts("<think>let me analyze this</think>你好世界");
    assert!(!result.contains("think"));
    assert!(!result.contains("analyze"));
    assert!(result.contains("你好世界"));
}

#[test]
fn session_context_test_think_block_multiline() {
    let input = "<think>\nstep 1: do something\nstep 2: more analysis\n</think>\nThe answer is 42.";
    let result = prepare_text_for_tts(input);
    assert!(!result.contains("step 1"));
    assert!(result.contains("The answer is 42"));
}

#[test]
fn tts_test_think_block_multiline() {
    let input = "<think>\nstep 1: do something\nstep 2: more analysis\n</think>\nThe answer is 42.";
    let result = prepare_text_for_tts(input);
    assert!(!result.contains("step 1"));
    assert!(result.contains("The answer is 42"));
}

#[test]
fn session_context_test_symbol_expansion() {
    assert!(prepare_text_for_tts("温度25°C").contains("摄氏度"));
    assert!(prepare_text_for_tts("优惠50%").contains("百分之50"));
    assert!(prepare_text_for_tts("$100").contains("美元"));
    assert!(prepare_text_for_tts("¥50").contains("元"));
    assert!(prepare_text_for_tts("A → B").contains("到"));
    assert!(normalize_symbols_for_tts("50%").contains("百分之50"));
}

#[test]
fn tts_test_symbol_expansion() {
    assert!(prepare_text_for_tts("温度25°C").contains("摄氏度"));
    assert!(prepare_text_for_tts("优惠50%").contains("百分之50"));
    assert!(prepare_text_for_tts("$100").contains("美元"));
    assert!(prepare_text_for_tts("¥50").contains("元"));
    assert!(prepare_text_for_tts("A → B").contains("到"));
    assert!(normalize_symbols_for_tts("50%").contains("百分之50"));
}

#[test]
fn signs_of_money_are_spoken_behind_the_number() {
    assert_eq!(normalize_symbols_for_tts("¥50"), "50元");
    assert_eq!(normalize_symbols_for_tts("€50"), "50欧元");
    assert_eq!(normalize_symbols_for_tts("£50"), "50英镑");
    assert_eq!(normalize_symbols_for_tts("$50"), "50美元");
    assert_eq!(normalize_symbols_for_tts("¥ 1,200.50"), "1,200.50元");
    assert_eq!(normalize_symbols_for_tts("¥"), "元");
}

#[test]
fn session_context_test_emoji_removal() {
    let result = prepare_text_for_tts("你好😀世界");
    assert!(!result.contains("😀"));
    assert!(result.contains("你好"));
    assert!(result.contains("世界"));
}

#[test]
fn tts_test_emoji_removal() {
    let result = prepare_text_for_tts("你好😀世界");
    assert!(!result.contains("😀"));
    assert!(result.contains("你好"));
    assert!(result.contains("世界"));
}

#[test]
fn session_context_test_combined() {
    let input = "## 📊 报告\n\n<think>分析数据中</think>\n\n**关键指标**：25°C，增长50%\n\n- 收入：$1000\n- 趋势：↑📈\n";
    let result = prepare_text_for_tts(input);
    assert!(!result.contains("📊"));
    assert!(!result.contains("📈"));
    assert!(!result.contains("think"));
    assert!(!result.contains("**"));
    assert!(!result.contains("##"));
    assert!(result.contains("报告"));
    assert!(result.contains("摄氏度"));
    assert!(result.contains("百分之50"));
    assert!(result.contains("美元"));
}

#[test]
fn tts_test_combined() {
    let input = "## 📊 报告\n\n<think>分析数据中</think>\n\n**关键指标**：25°C，增长50%\n\n- 收入：$1000\n- 趋势：↑📈\n";
    let result = prepare_text_for_tts(input);
    assert!(!result.contains("📊"));
    assert!(!result.contains("📈"));
    assert!(!result.contains("think"));
    assert!(!result.contains("**"));
    assert!(!result.contains("##"));
    assert!(result.contains("报告"));
    assert!(result.contains("摄氏度"));
    assert!(result.contains("百分之50"));
    assert!(result.contains("美元"));
}
