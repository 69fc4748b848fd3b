//! How the operations on a conversation relate to one another.

use vstd::prelude::*;

use crate::session::channel::ChannelInboundMessage;
use crate::session::chat::{PartView, StopReason};
use crate::session::session_override::{RunMode, SessionOverride};
use crate::session::types::Session;
use crate::session_context::suspension::SubStatus;
use crate::session_context::turn::{
    speech_of, turn_settings, Settled, TurnResult, TurnSettings, TurnStart,
};
use crate::session_context::{
    contents_of, events_text, DelegationNotice, Fill, NoticeTurnGuard, PendingYieldEvent,
    SessionContext, TerminalRecord,
};
use crate::text::{opt_text, trimmed};

verus! {

/// A new conversation holds its session, and nothing waits in it.
pub proof fn law_new_conversations(session: Session, r: SessionContext)
    requires
        call_ensures(SessionContext::new, (session,), r),
    ensures
        r.session == session,
        r.session_id == session.id,
        r.turn_suspension is None,
        r.pending_retry is None,
        r.notice_turns_in_flight == 0,
        r.delegation_notice_queue@.len() == 0,
        r.pending_yield_events@.len() == 0,
        r.recently_recorded_terminals@.len() == 0,
        r.yield_waiter is None,
{
}

// ── Notices and events ─────────────────────────────────────────────────────

/// Notices are handed out in the order in which they came, all at once and once only.
pub proof fn law_notices_are_handed_out_in_order(
    a: &mut SessionContext,
    first: DelegationNotice,
    b: &mut SessionContext,
    second: DelegationNotice,
    c: &mut SessionContext,
    r: Vec<DelegationNotice>,
    d: &mut SessionContext,
    again: Vec<DelegationNotice>,
)
    requires
        call_ensures(SessionContext::enqueue_delegation_notice, (a, first), ()),
        *old(b) == *final(a),
        call_ensures(SessionContext::enqueue_delegation_notice, (b, second), ()),
        *old(c) == *final(b),
        call_ensures(SessionContext::take_delegation_notices, (c,), r),
        *old(d) == *final(c),
        call_ensures(SessionContext::take_delegation_notices, (d,), again),
    ensures
        r@ == old(a).delegation_notice_queue@ + seq![first, second],
        again@.len() == 0,
        final(c).session == old(a).session,
{
    assert(r@ =~= old(a).delegation_notice_queue@ + seq![first, second]);
}

/// Events are handed out in the order in which they came, all at once and once only.
pub proof fn law_events_are_handed_out_in_order(
    a: &mut SessionContext,
    first: PendingYieldEvent,
    b: &mut SessionContext,
    second: PendingYieldEvent,
    c: &mut SessionContext,
    r: Vec<PendingYieldEvent>,
    d: &mut SessionContext,
    again: Vec<PendingYieldEvent>,
)
    requires
        call_ensures(SessionContext::enqueue_pending_yield_event, (a, first), ()),
        *old(b) == *final(a),
        call_ensures(SessionContext::enqueue_pending_yield_event, (b, second), ()),
        *old(c) == *final(b),
        call_ensures(SessionContext::take_pending_yield_events, (c,), r),
        *old(d) == *final(c),
        call_ensures(SessionContext::take_pending_yield_events, (d,), again),
    ensures
        r@ == old(a).pending_yield_events@ + seq![first, second],
        again@.len() == 0,
{
    assert(r@ =~= old(a).pending_yield_events@ + seq![first, second]);
}

/// A turn for a notice that begins and ends leaves the count as it was; the count never
/// falls below none.
pub proof fn law_notice_turns_are_counted(
    a: &mut SessionContext,
    b: &mut SessionContext,
    c: &mut SessionContext,
)
    requires
        old(a).notice_turns_in_flight < usize::MAX,
        call_ensures(SessionContext::bump_notice_turn, (a,), ()),
        *old(b) == *final(a),
        call_ensures(SessionContext::finish_notice_turn, (b,), ()),
        call_ensures(SessionContext::finish_notice_turn, (c,), ()),
    ensures
        final(a).notice_turns_in_flight == old(a).notice_turns_in_flight + 1,
        *final(b) == *old(a),
        old(c).notice_turns_in_flight == 0 ==> final(c).notice_turns_in_flight == 0,
        old(c).notice_turns_in_flight > 0 ==> final(c).notice_turns_in_flight + 1 == old(c).notice_turns_in_flight,
{
}

/// A guard counts its turn off once, however often it is finished, and only if it was for a
/// notice.
pub proof fn law_guards_count_once(
    g: &mut NoticeTurnGuard,
    a: &mut SessionContext,
    h: &mut NoticeTurnGuard,
    b: &mut SessionContext,
    is_notice: bool,
)
    requires
        call_ensures(NoticeTurnGuard::new, (is_notice,), *old(g)),
        call_ensures(NoticeTurnGuard::finish, (g, a), ()),
        *old(h) == *final(g),
        *old(b) == *final(a),
        call_ensures(NoticeTurnGuard::finish, (h, b), ()),
    ensures
        is_notice && old(a).notice_turns_in_flight > 0 ==> final(a).notice_turns_in_flight + 1
            == old(a).notice_turns_in_flight,
        !is_notice || old(a).notice_turns_in_flight == 0 ==> *final(a) == *old(a),
        *final(b) == *final(a),
{
}

/// Texts for the next turn are put behind those that wait already.
pub proof fn law_injections_wait_in_order(c: &mut SessionContext, texts: Vec<String>)
    requires
        call_ensures(SessionContext::stash_turn_injections, (c, texts), ()),
    ensures
        final(c).session.turn_injections@ == old(c).session.turn_injections@ + texts@,
        final(c).session.log() == old(c).session.log(),
        final(c).turn_suspension == old(c).turn_suspension,
{
}

// ── Tasks ──────────────────────────────────────────────────────────────────

/// A task that is waited for and ends is no longer waited for; its result is held as it was
/// reported, with its status, and told once.
pub proof fn law_ends_of_tasks_are_recorded_once(
    a: &mut SessionContext,
    id: String,
    status: SubStatus,
    content: String,
    sent: u64,
    now: u64,
    r: TerminalRecord,
    b: &mut SessionContext,
    status2: SubStatus,
    content2: String,
    sent2: u64,
    later: u64,
    again: TerminalRecord,
)
    requires
        old(a).suspended() is Some,
        old(a).suspended()->0.pending.contains(id@),
        call_ensures(
            SessionContext::record_terminal_at,
            (a, id, status, content, sent, now),
            r,
        ),
        *old(b) == *final(a),
        now <= later,
        call_ensures(
            SessionContext::record_terminal_at,
            (b, id, status2, content2, sent2, later),
            again,
        ),
    ensures
        r is Recorded,
        final(a).suspended() is Some,
        !final(a).suspended()->0.pending.contains(id@),
        final(a).suspended()->0.results.last().sub_session_id == id@,
        final(a).suspended()->0.results.last().status == status,
        final(a).suspended()->0.results.last().content == content@,
        final(a).suspended()->0.results.last().sent_message_count == sent,
        final(a).suspended()->0.results.len() == old(a).suspended()->0.results.len() + 1,
        again is Duplicate,
        final(b).suspended() == final(a).suspended(),
{
    let s = old(a).suspended()->0;
    crate::session_context::suspension::lemma_without(s.pending, id@);
    let t = final(a).suspended()->0;
    assert(!t.pending.contains(id@));
    assert(t.results[t.results.len() - 1].sub_session_id == id@);
    assert(crate::session_context::suspension::has_result(t.results, id@));
}

/// A task that nobody suspended for is reported as such and changes nothing that is held.
pub proof fn law_unawaited_tasks_change_nothing(
    c: &mut SessionContext,
    id: String,
    status: SubStatus,
    content: String,
    sent: u64,
    now: u64,
    r: TerminalRecord,
)
    requires
        old(c).suspended() is None,
        old(c).recently_recorded_terminals@.len() == 0,
        call_ensures(
            SessionContext::record_terminal_at,
            (c, id, status, content, sent, now),
            r,
        ),
    ensures
        r is NoSuspension,
        final(c).suspended() is None,
        final(c).session == old(c).session,
{
}

/// A suspension is over exactly when nothing is waited for and no notice is open.
pub proof fn law_collected_suspensions_are_cleared(c: &mut SessionContext)
    requires
        call_ensures(SessionContext::clear_suspension_if_collected, (c,), ()),
    ensures
        old(c).suspended() is Some && old(c).suspended()->0.pending.len() == 0 && old(c).notice_turns_in_flight == 0 && old(c).delegation_notice_queue@.len() == 0
            ==> final(c).turn_suspension is None,
        old(c).suspended() is Some && (old(c).suspended()->0.pending.len() > 0 || old(c).notice_turns_in_flight > 0 || old(c).delegation_notice_queue@.len() > 0)
            ==> final(c).turn_suspension == old(c).turn_suspension,
        final(c).session == old(c).session,
{
}

// ── Yields ─────────────────────────────────────────────────────────────────

/// Events that wait are told to the yield that waits for them: one that is parked is woken
/// with them, for another they become the result of its call. They are told once.
pub proof fn law_yields_are_told_their_events(c: &mut SessionContext, r: Fill)
    requires
        call_ensures(SessionContext::try_fill_pending_yield, (c,), r),
    ensures
        ({
            let told = events_text(contents_of(old(c).pending_yield_events@));
            let y = old(c).session.pending_yield;
            let waits = y is Some && old(c).pending_yield_events@.len() > 0;
            let parked = old(c).yield_waiter is Some && old(c).yield_waiter->0@
                == y->0.tool_call_id@;
            &&& !waits ==> r is Nothing && *final(c) == *old(c)
            &&& waits ==> final(c).pending_yield_events@.len() == 0
            &&& waits && parked ==> (r matches Fill::Wake(t) && t@ == told)
                && final(c).session.log() == old(c).session.log()
            &&& waits && !parked ==> r is Resume && final(c).session.log().len() == old(c).session.log().len() + 1 && final(c).session.log().last().role == "tool"@
                && final(c).session.log().last().tool_call_id == Some(y->0.tool_call_id@)
                && final(c).session.log().last().parts == seq![PartView::Text(told)]
                && final(c).session.log().last().is_error == Some(false)
                && final(c).session.pending_yield is None
        }),
{
}

/// A yield parks only while no events wait; else they are its result at once.
pub proof fn law_parking(c: &mut SessionContext, id: String, r: bool)
    requires
        call_ensures(SessionContext::begin_park, (c, id), r),
    ensures
        r <==> old(c).pending_yield_events@.len() > 0,
        !r ==> final(c).yield_waiter == Some(id) && final(c).session == old(c).session,
        r ==> final(c).session.log().len() == old(c).session.log().len() + 1
            && final(c).session.log().last().tool_call_id == Some(id@)
            && final(c).session.log().last().parts == seq![
            PartView::Text(events_text(contents_of(old(c).pending_yield_events@))),
        ] && final(c).session.pending_yield is None && final(c).pending_yield_events@.len() == 0,
{
}

/// What a parked yield was woken with becomes its result, if it is still the one that
/// waits; else it is kept for the next. Nothing that was heard is lost.
pub proof fn law_waking(c: &mut SessionContext, id: String, outcome: Option<String>, r: bool)
    requires
        call_ensures(SessionContext::end_park, (c, id, outcome), r),
    ensures
        outcome is None ==> !r && *final(c) == *old(c),
        outcome is Some ==> (r <==> old(c).session.pending_yield is Some && old(c).session.pending_yield->0.tool_call_id@ == id@),
        r ==> final(c).session.log().len() == old(c).session.log().len() + 1
            && final(c).session.log().last().tool_call_id == Some(id@)
            && final(c).session.log().last().parts == seq![PartView::Text(outcome->0@)]
            && final(c).session.pending_yield is None,
        outcome is Some && !r ==> contents_of(final(c).pending_yield_events@).last()
            == outcome->0@ && final(c).pending_yield_events@.len() == old(c).pending_yield_events@.len() + 1 && final(c).session == old(c).session,
{
    if outcome is Some && !r {
        let a = contents_of(final(c).pending_yield_events@);
        assert(a.len() == final(c).pending_yield_events@.len());
        assert(contents_of(old(c).pending_yield_events@).len() == old(c).pending_yield_events@.len());
    }
}

// ── Turns ──────────────────────────────────────────────────────────────────

/// A turn begins as its message says: silent if it asks for that, headless if it runs in
/// the background. What was left open is known once, and the message is remembered.
pub proof fn law_turns_begin_as_asked(
    c: &mut SessionContext,
    msg: ChannelInboundMessage,
    r: TurnStart,
)
    requires
        call_ensures(SessionContext::begin_turn, (c, msg), r),
    ensures
        r.silenced <==> msg.silenced_override == Some(true),
        r.was_incomplete == old(c).session.incomplete_turn,
        !final(c).session.incomplete_turn,
        final(c).session.turn_silenced == r.silenced,
        final(c).session.turn_headless <==> msg.run_mode == RunMode::Background,
        final(c).session.last_message is Some,
        final(c).session.last_message->0.id == msg.id,
        final(c).session.last_message->0.text == msg.text,
        r.final_takeover ==> !r.silenced,
        r.defer_collapse == r.silenced,
        final(c).session.log() == old(c).session.log(),
{
}

/// A settled turn keeps its text; a silent one has something pending, and its end is
/// recorded as a pause. What is to be tried again is remembered.
pub proof fn law_turns_are_settled(
    c: &mut SessionContext,
    silenced: bool,
    guard: &mut NoticeTurnGuard,
    result: TurnResult,
    r: Settled,
)
    requires
        call_ensures(SessionContext::settle_turn, (c, silenced, guard, result), r),
    ensures
        r.result.text == result.text,
        r.result.has_pending <==> result.has_pending || silenced,
        silenced && result.stop_reason == StopReason::EndTurn ==> r.result.stop_reason
            == StopReason::Continue,
        !silenced || result.stop_reason != StopReason::EndTurn ==> r.result.stop_reason
            == result.stop_reason && final(c).session.log() == old(c).session.log()
            && r.rewritten is None,
        r.age_media <==> r.result.stop_reason != StopReason::ContextOverflow,
        result.pending_retry is Some ==> final(c).pending_retry == result.pending_retry,
        result.pending_retry is None ==> final(c).pending_retry == old(c).pending_retry,
        !final(c).session.turn_headless,
        final(c).session.log().len() == old(c).session.log().len(),
{
}

/// The settings of a turn are those of the session where it has any; thinking has an effort
/// only where it is on.
pub proof fn law_settings_of_a_turn(
    over: &SessionOverride,
    permission_mode: &str,
    run_mode: RunMode,
    r: TurnSettings,
)
    requires
        call_ensures(turn_settings, (over, permission_mode, run_mode), r),
    ensures
        over.permission_mode is Some ==> r.permission_mode@ == over.permission_mode->0@,
        over.permission_mode is None ==> r.permission_mode@ == permission_mode@,
        r.run_mode == run_mode,
        opt_text(r.model) == opt_text(over.model),
        opt_text(r.system_prompt) == opt_text(over.system_prompt_override),
        r.thinking is Some <==> over.thinking is Some,
        over.thinking is Some ==> r.thinking->0.enabled == over.thinking->0,
        over.thinking == Some(true) ==> opt_text(r.thinking->0.effort) == opt_text(over.effort),
        over.thinking == Some(false) ==> r.thinking->0.effort is None,
{
}

/// Nothing is spoken of a turn that is silent, has something pending or said nothing, nor
/// where speech is off or the channel has none.
pub proof fn law_what_is_not_spoken(
    enabled: bool,
    channel_speaks: bool,
    silenced: bool,
    has_pending: bool,
    text: &str,
    r: Option<String>,
)
    requires
        call_ensures(speech_of, (enabled, channel_speaks, silenced, has_pending, text), r),
    ensures
        !enabled || !channel_speaks || silenced || has_pending || trimmed(text@).len() == 0 ==> r
            is None,
        r is Some ==> 0 < r->0@.len() <= 2000 && r->0@ == crate::session_context::tts::script_of(
            trimmed(text@),
        ),
{
}

} // verus!
