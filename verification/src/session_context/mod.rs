//! One session together with what its turns need: the suspension it may be in,
//! the notices and events that wait for it, and the yield it may be parked on.

use vstd::prelude::*;

pub mod context_laws;
pub mod helpers;
pub mod operation_laws;
pub mod suspension;
pub mod tts;
pub mod tts_laws;
pub mod turn;

use crate::session::chat::tool_message;
use crate::session::types::{is_blank, blank, Session};
use crate::session_context::suspension::{
    has_result, holds, preview_of, suspended_on, with_pending, with_report, with_terminal,
    FoldCandidate, PreviewState, SubStatus, SuspensionView, TerminalRecord, TurnSuspension,
};
use crate::text::{copy_str, same_str};
use crate::time::{elapsed_nanos, is_reading, read_clock, start_clock, UtcInstant};

verus! {

/// How long the end of a task is remembered after it was taken in, in
/// nanoseconds.
pub const RECENTLY_RECORDED_TERMINAL_WINDOW: u64 = 3_600_000_000_000;

/// An event that waits for a yield to deliver it to.
#[derive(Debug, Clone)]
pub struct PendingYieldEvent {
    pub content: String,
}

/// A notice that delegated work has ended, waiting for the session to be idle.
#[derive(Debug, Clone)]
pub struct DelegationNotice {
    pub id: String,
    pub content: String,
    /// Whether the notice's turn stays quiet, as decided when the work ended.
    pub silenced_override: Option<bool>,
}

/// The contents of a list of events.
pub open spec fn contents_of(v: Seq<PendingYieldEvent>) -> Seq<Seq<char>> {
    v.map_values(|e: PendingYieldEvent| e.content@)
}

/// One line for each event.
pub open spec fn event_lines(v: Seq<Seq<char>>) -> Seq<char>
    decreases v.len(),
{
    if v.len() == 0 {
        Seq::empty()
    } else {
        event_lines(v.drop_last()) + "- "@ + v.last() + "\n"@
    }
}

/// The events as one tool result: a single event as it is, several as a list.
pub open spec fn events_text(v: Seq<Seq<char>>) -> Seq<char> {
    if v.len() == 1 {
        v[0]
    } else {
        "Since you yielded, the following happened:\n"@ + event_lines(v)
    }
}

/// The events as one tool result.
pub fn format_pending_yield_events(events: &Vec<PendingYieldEvent>) -> (r: String)
    ensures
        r@ == events_text(contents_of(events@)),
{
    let ghost all = contents_of(events@);
    if events.len() == 1 {
        assert(all[0] == events@[0].content@);
        return events[0].content.clone();
    }
    let mut out = copy_str("Since you yielded, the following happened:\n");
    let mut i: usize = 0;
    assert(out@ =~= "Since you yielded, the following happened:\n"@ + event_lines(all.take(0)));
    while i < events.len()
        invariant
            i <= events@.len(),
            all == contents_of(events@),
            out@ == "Since you yielded, the following happened:\n"@ + event_lines(
                all.take(i as int),
            ),
        decreases events@.len() - i,
    {
        assert(all.take(i as int + 1).drop_last() =~= all.take(i as int));
        assert(all.take(i as int + 1).last() == events@[i as int].content@);
        out.append("- ");
        out.append(&events[i].content);
        out.append("\n");
        assert(out@ =~= "Since you yielded, the following happened:\n"@ + event_lines(
            all.take(i as int + 1),
        ));
        i += 1;
    }
    assert(all.take(all.len() as int) =~= all);
    out
}

/// The ends of tasks that were taken in, with the times.
pub open spec fn terminals_of(v: Seq<(String, u64)>) -> Seq<(Seq<char>, u64)> {
    v.map_values(|p: (String, u64)| (p.0@, p.1))
}

/// Whether something taken in at `t` is still remembered at `now`.
pub open spec fn still_known(t: u64, now: u64) -> bool {
    now < t || now - t <= RECENTLY_RECORDED_TERMINAL_WINDOW
}

/// What is still remembered at `now`.
pub open spec fn remembered(v: Seq<(Seq<char>, u64)>, now: u64) -> Seq<(Seq<char>, u64)>
    decreases v.len(),
{
    if v.len() == 0 {
        v
    } else {
        let before = remembered(v.drop_last(), now);
        if still_known(v.last().1, now) {
            before.push(v.last())
        } else {
            before
        }
    }
}

/// Whether the task is one of those listed.
pub open spec fn names_task(v: Seq<(Seq<char>, u64)>, id: Seq<char>) -> bool {
    exists|i: int| 0 <= i < v.len() && (#[trigger] v[i]).0 == id
}

/// Whether a turn is suspended on the task.
pub open spec fn waits_for(s: Option<SuspensionView>, id: Seq<char>) -> bool {
    s matches Some(v) && v.pending.contains(id)
}

/// What a report of the end of a task comes to.
pub enum Arrival {
    New,
    Known,
    Unawaited,
}

/// What a report of the end of a task comes to. A task that is waited for is
/// always new. One that is not waited for is known if it was taken in within
/// the last hour, or if the suspension holds its result; otherwise it is new to
/// a suspension, and unawaited where there is none.
pub open spec fn arrival(
    s: Option<SuspensionView>,
    recent: Seq<(Seq<char>, u64)>,
    id: Seq<char>,
    now: u64,
) -> Arrival {
    if waits_for(s, id) {
        Arrival::New
    } else if names_task(remembered(recent, now), id) {
        Arrival::Known
    } else {
        match s {
            None => Arrival::Unawaited,
            Some(v) => if has_result(v.results, id) {
                Arrival::Known
            } else {
                Arrival::New
            },
        }
    }
}

/// What is remembered after the report.
pub open spec fn recent_after(
    s: Option<SuspensionView>,
    recent: Seq<(Seq<char>, u64)>,
    id: Seq<char>,
    now: u64,
) -> Seq<(Seq<char>, u64)> {
    let kept = if waits_for(s, id) {
        recent
    } else {
        remembered(recent, now)
    };
    if arrival(s, recent, id, now) is New {
        kept.push((id, now))
    } else {
        kept
    }
}

/// The view of an optional suspension.
pub open spec fn suspension_of(s: Option<TurnSuspension>) -> Option<SuspensionView> {
    match s {
        Some(v) => Some(v@),
        None => None,
    }
}

/// What an attempt to deliver events to a yield comes to.
#[derive(Debug)]
pub enum Fill {
    /// Nothing was delivered.
    Nothing,
    /// The parked turn is to be woken with this content.
    Wake(String),
    /// The result was written; the turn is to be resumed.
    Resume,
}

/// One session together with what its turns need.
#[derive(Debug)]
pub struct SessionContext {
    pub session: Session,
    pub session_id: String,
    /// A user message that the last turn failed on.
    pub pending_retry: Option<String>,
    /// Set while the turn waits for delegated work.
    pub turn_suspension: Option<TurnSuspension>,
    /// Turns of notices that were dispatched and have not ended.
    pub notice_turns_in_flight: usize,
    /// Notices that wait for the session to be idle.
    pub delegation_notice_queue: Vec<DelegationNotice>,
    /// The ends of tasks that were taken in lately, with the times in
    /// nanoseconds since the context was made.
    pub recently_recorded_terminals: Vec<(String, u64)>,
    /// Events that wait for a yield.
    pub pending_yield_events: Vec<PendingYieldEvent>,
    /// The yield call that a parked turn waits on.
    pub yield_waiter: Option<String>,
    /// When the context was made.
    pub origin: std::time::Instant,
}

/// Counts a notice's turn as ended, once.
#[derive(Debug)]
pub struct NoticeTurnGuard {
    pub active: bool,
    pub done: bool,
}

impl NoticeTurnGuard {
    /// A guard of a turn, which counts only if it is a notice's.
    pub fn new(is_notice: bool) -> (r: NoticeTurnGuard)
        ensures
            r.active == is_notice,
            !r.done,
    {
        NoticeTurnGuard { active: is_notice, done: false }
    }

    /// Counts the turn as ended, unless that was done before or the turn is not
    /// a notice's.
    pub fn finish(&mut self, ctx: &mut SessionContext)
        ensures
            final(self).active == old(self).active,
            final(self).done == (old(self).active || old(self).done),
            *final(ctx) == (SessionContext {
                notice_turns_in_flight: if old(self).active && !old(self).done
                    && old(ctx).notice_turns_in_flight > 0 {
                    (old(ctx).notice_turns_in_flight - 1) as usize
                } else {
                    old(ctx).notice_turns_in_flight
                },
                ..*old(ctx)
            }),
    {
        if self.active && !self.done {
            ctx.finish_notice_turn();
            self.done = true;
        }
    }
}

/// Whether what the user said closed the yield that waited. A turn that was parked
/// on it gives up.
pub open spec fn interrupts(before: SessionContext, after: SessionContext, content: Seq<char>) -> bool {
    let id = before.session.pending_yield->0.tool_call_id@;
    &&& after.session.log() == before.session.log().push(
        tool_message(
            id,
            "sessions_yield"@,
            "The user interrupted the wait and said: "@ + content,
            false,
        ),
    )
    &&& after.session.message_ids@ == before.session.message_ids@.push(0)
    &&& after == (SessionContext {
        session: Session {
            pending_yield: None,
            history: after.session.history,
            message_ids: after.session.message_ids,
            ..before.session
        },
        yield_waiter: if before.parked_on(id) {
            None
        } else {
            before.yield_waiter
        },
        ..before
    })
}

impl SessionContext {
    /// Whether the session and its suspension are well formed.
    pub open spec fn wf(&self) -> bool {
        &&& self.session.wf()
        &&& self.turn_suspension matches Some(s) ==> s.wf()
    }

    /// The suspension that the turn is in.
    pub open spec fn suspended(&self) -> Option<SuspensionView> {
        suspension_of(self.turn_suspension)
    }

    /// The ends of tasks that were taken in lately.
    pub open spec fn recent(&self) -> Seq<(Seq<char>, u64)> {
        terminals_of(self.recently_recorded_terminals@)
    }

    /// Whether nothing waits in the context.
    pub open spec fn is_idle(&self) -> bool {
        &&& self.pending_retry is None
        &&& self.turn_suspension is None
        &&& self.notice_turns_in_flight == 0
        &&& self.delegation_notice_queue@.len() == 0
        &&& self.recently_recorded_terminals@.len() == 0
        &&& self.pending_yield_events@.len() == 0
        &&& self.yield_waiter is None
    }

    /// The context of a session, with nothing waiting.
    pub fn new(session: Session) -> (r: SessionContext)
        requires
            session.wf(),
        ensures
            r.wf(),
            r.session == session,
            r.session_id == session.id,
            r.is_idle(),
    {
        SessionContext {
            session_id: session.id.clone(),
            session,
            pending_retry: None,
            turn_suspension: None,
            notice_turns_in_flight: 0,
            delegation_notice_queue: Vec::new(),
            recently_recorded_terminals: Vec::new(),
            pending_yield_events: Vec::new(),
            yield_waiter: None,
            origin: start_clock(),
        }
    }

    /// Nanoseconds since the context was made.
    pub fn now(&self) -> (r: u64) {
        elapsed_nanos(&self.origin)
    }

    /// Takes up a stored suspension: `json` is what was stored, `parsed` what it
    /// spells. Nothing, a blank text and a text that spells no suspension leave
    /// the session as it is.
    pub fn restore_suspension(&mut self, json: Option<&str>, parsed: Option<TurnSuspension>)
        requires
            old(self).wf(),
            parsed matches Some(s) ==> s.wf(),
        ensures
            final(self).wf(),
            *final(self) == (SessionContext {
                turn_suspension: if json matches Some(j) && !blank(j@) && parsed is Some {
                    parsed
                } else {
                    old(self).turn_suspension
                },
                ..*old(self)
            }),
    {
        if let Some(j) = json {
            if !is_blank(j) && parsed.is_some() {
                self.turn_suspension = parsed;
            }
        }
    }

    /// Takes up stored events: `json` is what was stored, `parsed` what it
    /// spells.
    pub fn restore_pending_yield_events(
        &mut self,
        json: Option<&str>,
        parsed: Option<Vec<PendingYieldEvent>>,
    )
        ensures
            *final(self) == (SessionContext {
                pending_yield_events: if json matches Some(j) && !blank(j@) && parsed is Some {
                    parsed->0
                } else {
                    old(self).pending_yield_events
                },
                ..*old(self)
            }),
    {
        if let Some(j) = json {
            if !is_blank(j) {
                if let Some(events) = parsed {
                    self.pending_yield_events = events;
                }
            }
        }
    }

    /// Texts to be put before the next request.
    pub fn stash_turn_injections(&mut self, texts: Vec<String>)
        ensures
            final(self).session.turn_injections@ == old(self).session.turn_injections@ + texts@,
            *final(self) == (SessionContext {
                session: Session {
                    turn_injections: final(self).session.turn_injections,
                    ..old(self).session
                },
                ..*old(self)
            }),
    {
        let mut more = texts;
        self.session.turn_injections.append(&mut more);
    }

    /// Waits for one more task; the turn becomes suspended if it is not.
    pub fn add_pending_task_at(&mut self, sub_session_id: String, now: i64)
        requires
            old(self).wf(),
        ensures
            final(self).wf(),
            final(self).suspended() == Some(
                match old(self).suspended() {
                    Some(s) => with_pending(s, sub_session_id@),
                    None => suspended_on(sub_session_id@, now),
                },
            ),
            *final(self) == (SessionContext {
                turn_suspension: final(self).turn_suspension,
                ..*old(self)
            }),
    {
        match self.turn_suspension.take() {
            Some(s) => {
                let mut s = s;
                s.add_pending(sub_session_id);
                self.turn_suspension = Some(s);
            },
            None => {
                self.turn_suspension = Some(TurnSuspension::new(sub_session_id, now));
            },
        }
    }

    /// Waits for one more task.
    pub fn add_pending_task(&mut self, sub_session_id: String)
        requires
            old(self).wf(),
        ensures
            final(self).wf(),
            exists|now: UtcInstant|
                #[trigger] is_reading(now) && final(self).suspended() == Some(
                    match old(self).suspended() {
                        Some(s) => with_pending(s, sub_session_id@),
                        None => suspended_on(sub_session_id@, now.secs),
                    },
                ),
            *final(self) == (SessionContext {
                turn_suspension: final(self).turn_suspension,
                ..*old(self)
            }),
    {
        let stamp = read_clock();
        let now: i64 = stamp.at.secs;
        self.add_pending_task_at(sub_session_id, now);
    }

    /// Whether the turn waits for a task.
    pub fn has_pending_async_work(&self) -> (r: bool)
        ensures
            r == (self.suspended() matches Some(s) && s.pending.len() > 0),
    {
        match &self.turn_suspension {
            Some(s) => s.pending.len() > 0,
            None => false,
        }
    }

    /// Counts a notice's turn as dispatched.
    pub fn bump_notice_turn(&mut self)
        requires
            old(self).notice_turns_in_flight < usize::MAX,
        ensures
            *final(self) == (SessionContext {
                notice_turns_in_flight: (old(self).notice_turns_in_flight + 1) as usize,
                ..*old(self)
            }),
    {
        self.notice_turns_in_flight = self.notice_turns_in_flight + 1;
    }

    /// Counts a notice's turn as ended; the count does not go below zero.
    pub fn finish_notice_turn(&mut self)
        ensures
            *final(self) == (SessionContext {
                notice_turns_in_flight: if old(self).notice_turns_in_flight > 0 {
                    (old(self).notice_turns_in_flight - 1) as usize
                } else {
                    0
                },
                ..*old(self)
            }),
    {
        if self.notice_turns_in_flight > 0 {
            self.notice_turns_in_flight = self.notice_turns_in_flight - 1;
        }
    }

    /// Whether a notice is queued or its turn runs.
    pub open spec fn notices_open(&self) -> bool {
        self.notice_turns_in_flight > 0 || self.delegation_notice_queue@.len() > 0
    }

    /// Whether a notice is queued or its turn runs.
    pub fn has_notice_turns_in_flight(&self) -> (r: bool)
        ensures
            r == self.notices_open(),
    {
        self.notice_turns_in_flight > 0 || self.delegation_notice_queue.len() > 0
    }

    /// Queues a notice.
    pub fn enqueue_delegation_notice(&mut self, notice: DelegationNotice)
        ensures
            final(self).delegation_notice_queue@ == old(self).delegation_notice_queue@.push(notice),
            *final(self) == (SessionContext {
                delegation_notice_queue: final(self).delegation_notice_queue,
                ..*old(self)
            }),
    {
        self.delegation_notice_queue.push(notice);
    }

    /// Takes all queued notices, the oldest first.
    pub fn take_delegation_notices(&mut self) -> (r: Vec<DelegationNotice>)
        ensures
            r@ == old(self).delegation_notice_queue@,
            final(self).delegation_notice_queue@.len() == 0,
            *final(self) == (SessionContext {
                delegation_notice_queue: final(self).delegation_notice_queue,
                ..*old(self)
            }),
    {
        let mut r: Vec<DelegationNotice> = Vec::new();
        std::mem::swap(&mut r, &mut self.delegation_notice_queue);
        r
    }

    /// Whether a notice is queued.
    pub fn has_queued_delegation_notices(&self) -> (r: bool)
        ensures
            r == (self.delegation_notice_queue@.len() > 0),
    {
        self.delegation_notice_queue.len() > 0
    }

    /// Queues an event for the next yield.
    pub fn enqueue_pending_yield_event(&mut self, event: PendingYieldEvent)
        ensures
            final(self).pending_yield_events@ == old(self).pending_yield_events@.push(event),
            *final(self) == (SessionContext {
                pending_yield_events: final(self).pending_yield_events,
                ..*old(self)
            }),
    {
        self.pending_yield_events.push(event);
    }

    /// Takes all queued events, the oldest first.
    pub fn take_pending_yield_events(&mut self) -> (r: Vec<PendingYieldEvent>)
        ensures
            r@ == old(self).pending_yield_events@,
            final(self).pending_yield_events@.len() == 0,
            *final(self) == (SessionContext {
                pending_yield_events: final(self).pending_yield_events,
                ..*old(self)
            }),
    {
        let mut r: Vec<PendingYieldEvent> = Vec::new();
        std::mem::swap(&mut r, &mut self.pending_yield_events);
        r
    }

    /// A copy of the suspension, as it is to be stored.
    pub fn suspension_snapshot(&self) -> (r: Option<TurnSuspension>)
        requires
            self.wf(),
        ensures
            suspension_of(r) == self.suspended(),
            r matches Some(s) ==> s.wf(),
    {
        match &self.turn_suspension {
            Some(s) => Some(s.copy()),
            None => None,
        }
    }

    /// Keeps a report of a task. Nothing happens if no turn is suspended.
    pub fn add_progress(&mut self, sub_session_id: &str, text: &str)
        requires
            old(self).wf(),
        ensures
            final(self).wf(),
            final(self).suspended() == (match old(self).suspended() {
                Some(s) => Some(with_report(s, sub_session_id@, text@)),
                None => None,
            }),
            *final(self) == (SessionContext {
                turn_suspension: final(self).turn_suspension,
                ..*old(self)
            }),
    {
        match self.turn_suspension.take() {
            Some(s) => {
                let mut s = s;
                s.add_report(sub_session_id, text);
                self.turn_suspension = Some(s);
            },
            None => {},
        }
    }

    /// Forgets the ends of tasks that were taken in more than an hour ago.
    fn forget_old(&mut self, now: u64)
        ensures
            final(self).recent() == remembered(old(self).recent(), now),
            *final(self) == (SessionContext {
                recently_recorded_terminals: final(self).recently_recorded_terminals,
                ..*old(self)
            }),
    {
        let ghost all = self.recent();
        let mut kept: Vec<(String, u64)> = Vec::new();
        let mut i: usize = 0;
        assert(terminals_of(kept@) =~= remembered(all.take(0), now));
        while i < self.recently_recorded_terminals.len()
            invariant
                i <= self.recently_recorded_terminals@.len(),
                all == self.recent(),
                *self == *old(self),
                terminals_of(kept@) == remembered(all.take(i as int), now),
            decreases self.recently_recorded_terminals@.len() - i,
        {
            let p = &self.recently_recorded_terminals[i];
            assert(all.take(i as int + 1).drop_last() =~= all.take(i as int));
            assert(all.take(i as int + 1).last() == (p.0@, p.1));
            if now < p.1 || now - p.1 <= RECENTLY_RECORDED_TERMINAL_WINDOW {
                let ghost before = terminals_of(kept@);
                kept.push((p.0.clone(), p.1));
                assert(terminals_of(kept@) =~= before.push((p.0@, p.1)));
            }
            i += 1;
        }
        assert(all.take(all.len() as int) =~= all);
        self.recently_recorded_terminals = kept;
    }

    fn was_recorded(&self, id: &str) -> (r: bool)
        ensures
            r == names_task(self.recent(), id@),
    {
        let mut i: usize = 0;
        while i < self.recently_recorded_terminals.len()
            invariant
                i <= self.recently_recorded_terminals@.len(),
                forall|k: int| 0 <= k < i ==> (#[trigger] self.recent()[k]).0 != id@,
            decreases self.recently_recorded_terminals@.len() - i,
        {
            assert(self.recent()[i as int].0 == self.recently_recorded_terminals@[i as int].0@);
            if same_str(&self.recently_recorded_terminals[i].0, id) {
                return true;
            }
            i += 1;
        }
        false
    }

    /// Takes in the end of a task at `now`.
    pub fn record_terminal_at(
        &mut self,
        sub_session_id: String,
        status: SubStatus,
        content: String,
        sent_message_count: u64,
        now: u64,
    ) -> (r: TerminalRecord)
        requires
            old(self).wf(),
        ensures
            final(self).wf(),
            final(self).recent() == recent_after(
                old(self).suspended(),
                old(self).recent(),
                sub_session_id@,
                now,
            ),
            *final(self) == (SessionContext {
                turn_suspension: final(self).turn_suspension,
                recently_recorded_terminals: final(self).recently_recorded_terminals,
                ..*old(self)
            }),
            match arrival(old(self).suspended(), old(self).recent(), sub_session_id@, now) {
                Arrival::New => {
                    &&& r matches TerminalRecord::Recorded(s)
                    &&& s.wf()
                    &&& s@ == with_terminal(
                        old(self).suspended()->0,
                        sub_session_id@,
                        status,
                        content@,
                        sent_message_count,
                    )
                    &&& final(self).suspended() == Some(s@)
                },
                Arrival::Known => r is Duplicate && final(self).suspended()
                    == old(self).suspended(),
                Arrival::Unawaited => r is NoSuspension && final(self).suspended() is None,
            },
    {
        let waited: bool = match &self.turn_suspension {
            Some(s) => holds(&s.pending, &sub_session_id),
            None => false,
        };
        if !waited {
            self.forget_old(now);
            if self.was_recorded(&sub_session_id) {
                return TerminalRecord::Duplicate;
            }
        }
        match self.turn_suspension.take() {
            None => TerminalRecord::NoSuspension,
            Some(s) => {
                let mut s = s;
                if !waited && s.has_result_of(&sub_session_id) {
                    self.turn_suspension = Some(s);
                    return TerminalRecord::Duplicate;
                }
                s.collect(&sub_session_id, status, content, sent_message_count);
                let snapshot = s.copy();
                self.turn_suspension = Some(s);
                let ghost before = self.recent();
                let ghost id = sub_session_id@;
                self.recently_recorded_terminals.push((sub_session_id, now));
                assert(self.recent() =~= before.push((id, now)));
                TerminalRecord::Recorded(Box::new(snapshot))
            },
        }
    }

    /// Takes in the end of a task.
    pub fn record_terminal(
        &mut self,
        sub_session_id: String,
        status: SubStatus,
        content: String,
        sent_message_count: u64,
    ) -> (r: TerminalRecord)
        requires
            old(self).wf(),
        ensures
            final(self).wf(),
            exists|now: u64| {
                let a = #[trigger] arrival(
                    old(self).suspended(),
                    old(self).recent(),
                    sub_session_id@,
                    now,
                );
                &&& final(self).recent() == recent_after(
                    old(self).suspended(),
                    old(self).recent(),
                    sub_session_id@,
                    now,
                )
                &&& match a {
                    Arrival::New => {
                        &&& r matches TerminalRecord::Recorded(s)
                        &&& s@ == with_terminal(
                            old(self).suspended()->0,
                            sub_session_id@,
                            status,
                            content@,
                            sent_message_count,
                        )
                        &&& final(self).suspended() == Some(s@)
                    },
                    Arrival::Known => r is Duplicate && final(self).suspended()
                        == old(self).suspended(),
                    Arrival::Unawaited => r is NoSuspension && final(self).suspended() is None,
                }
            },
            *final(self) == (SessionContext {
                turn_suspension: final(self).turn_suspension,
                recently_recorded_terminals: final(self).recently_recorded_terminals,
                ..*old(self)
            }),
    {
        let now: u64 = self.now();
        let ghost id = sub_session_id@;
        let ghost a = arrival(self.suspended(), self.recent(), id, now);
        self.record_terminal_at(sub_session_id, status, content, sent_message_count, now)
    }

    /// Ends the suspension once no task is waited for, no notice is queued and
    /// no notice's turn runs.
    pub fn clear_suspension_if_collected(&mut self)
        requires
            old(self).wf(),
        ensures
            final(self).wf(),
            *final(self) == (SessionContext {
                turn_suspension: if old(self).suspended() matches Some(s) && s.pending.len() == 0
                    && !old(self).notices_open() {
                    None
                } else {
                    old(self).turn_suspension
                },
                ..*old(self)
            }),
    {
        let over: bool = match &self.turn_suspension {
            Some(s) => s.pending.len() == 0 && !self.has_notice_turns_in_flight(),
            None => false,
        };
        if over {
            self.turn_suspension = None;
        }
    }

    /// Keeps the message that shows the progress, for the next turn to go on
    /// editing. Nothing happens if no turn is suspended.
    pub fn set_preview(&mut self, reply_target: String, fold: FoldCandidate)
        requires
            old(self).wf(),
        ensures
            final(self).wf(),
            final(self).suspended() == (match old(self).suspended() {
                Some(s) => Some(
                    SuspensionView { preview: Some(preview_of(reply_target, fold)), ..s },
                ),
                None => None,
            }),
            *final(self) == (SessionContext {
                turn_suspension: final(self).turn_suspension,
                ..*old(self)
            }),
    {
        match self.turn_suspension.take() {
            Some(s) => {
                let mut s = s;
                s.preview = Some(
                    PreviewState {
                        reply_target,
                        msg_id: fold.msg_id,
                        text: fold.text,
                        thinking_steps: fold.thinking_steps,
                        tool_count: fold.tool_count,
                        commentary_notes: fold.commentary_notes,
                        started_at_unix_secs: fold.started_at_unix_secs,
                    },
                );
                self.turn_suspension = Some(s);
            },
            None => {},
        }
    }

    // ── Yields ─────────────────────────────────────────────────────────────

    /// Writes the result of a yield call.
    fn answer_yield(&mut self, tool_call_id: String, content: String)
        requires
            old(self).wf(),
        ensures
            final(self).wf(),
            final(self).session.pending_yield is None,
            final(self).session.log() == old(self).session.log().push(
                tool_message(tool_call_id@, "sessions_yield"@, content@, false),
            ),
            final(self).session.message_ids@ == old(self).session.message_ids@.push(0),
            *final(self) == (SessionContext {
                session: Session {
                    pending_yield: None,
                    history: final(self).session.history,
                    message_ids: final(self).session.message_ids,
                    ..old(self).session
                },
                ..*old(self)
            }),
    {
        self.session.pending_yield = None;
        self.session.add_tool_result(tool_call_id, "sessions_yield", content, false);
        assert(self.session.log().len() == self.session.history@.len());
        assert(old(self).session.log().len() == old(self).session.history@.len());
    }

    /// Whether a parked turn waits on the call.
    pub open spec fn parked_on(&self, id: Seq<char>) -> bool {
        self.yield_waiter matches Some(w) && w@ == id
    }

    /// Delivers the queued events to the yield that waits for them. Without a
    /// yield, or without events, nothing happens. If a turn is parked on the
    /// yield, it is woken and writes the result itself; otherwise the result is
    /// written here and the turn is to be resumed.
    pub fn try_fill_pending_yield(&mut self) -> (r: Fill)
        requires
            old(self).wf(),
        ensures
            final(self).wf(),
            match old(self).session.pending_yield {
                None => r is Nothing && *final(self) == *old(self),
                Some(y) => if old(self).pending_yield_events@.len() == 0 {
                    r is Nothing && *final(self) == *old(self)
                } else if old(self).parked_on(y.tool_call_id@) {
                    &&& r matches Fill::Wake(c)
                    &&& c@ == events_text(contents_of(old(self).pending_yield_events@))
                    &&& final(self).pending_yield_events@.len() == 0
                    &&& *final(self) == (SessionContext {
                        yield_waiter: None,
                        pending_yield_events: final(self).pending_yield_events,
                        ..*old(self)
                    })
                } else {
                    &&& r is Resume
                    &&& final(self).pending_yield_events@.len() == 0
                    &&& final(self).session.log() == old(self).session.log().push(
                        tool_message(
                            y.tool_call_id@,
                            "sessions_yield"@,
                            events_text(contents_of(old(self).pending_yield_events@)),
                            false,
                        ),
                    )
                    &&& final(self).session.message_ids@ == old(self).session.message_ids@.push(0)
                    &&& *final(self) == (SessionContext {
                        session: Session {
                            pending_yield: None,
                            history: final(self).session.history,
                            message_ids: final(self).session.message_ids,
                            ..old(self).session
                        },
                        pending_yield_events: final(self).pending_yield_events,
                        ..*old(self)
                    })
                },
            },
    {
        let id: String = match &self.session.pending_yield {
            None => {
                return Fill::Nothing;
            },
            Some(y) => y.tool_call_id.clone(),
        };
        if self.pending_yield_events.len() == 0 {
            return Fill::Nothing;
        }
        let live: bool = match &self.yield_waiter {
            Some(w) => same_str(w, &id),
            None => false,
        };
        let events = self.take_pending_yield_events();
        let content = format_pending_yield_events(&events);
        assert(contents_of(events@) =~= contents_of(old(self).pending_yield_events@));
        if live {
            self.yield_waiter = None;
            Fill::Wake(content)
        } else {
            self.answer_yield(id, content);
            Fill::Resume
        }
    }

    /// Begins to park a turn on a yield call. If events are queued already, they
    /// are delivered at once and the turn goes on (`true`). Otherwise the turn
    /// is entered as the one that waits.
    pub fn begin_park(&mut self, tool_call_id: String) -> (r: bool)
        requires
            old(self).wf(),
        ensures
            final(self).wf(),
            r == (old(self).pending_yield_events@.len() > 0),
            r ==> {
                &&& final(self).pending_yield_events@.len() == 0
                &&& final(self).session.log() == old(self).session.log().push(
                    tool_message(
                        tool_call_id@,
                        "sessions_yield"@,
                        events_text(contents_of(old(self).pending_yield_events@)),
                        false,
                    ),
                )
                &&& final(self).session.message_ids@ == old(self).session.message_ids@.push(0)
                &&& *final(self) == (SessionContext {
                    session: Session {
                        pending_yield: None,
                        history: final(self).session.history,
                        message_ids: final(self).session.message_ids,
                        ..old(self).session
                    },
                    pending_yield_events: final(self).pending_yield_events,
                    ..*old(self)
                })
            },
            !r ==> *final(self) == (SessionContext {
                yield_waiter: Some(tool_call_id),
                ..*old(self)
            }),
    {
        if self.pending_yield_events.len() > 0 {
            let events = self.take_pending_yield_events();
            let content = format_pending_yield_events(&events);
            assert(contents_of(events@) =~= contents_of(old(self).pending_yield_events@));
            self.answer_yield(tool_call_id, content);
            true
        } else {
            self.yield_waiter = Some(tool_call_id);
            false
        }
    }

    /// Ends the parking of a turn on a yield call. `outcome` is the content it
    /// was woken with, or nothing if another turn took its place. The result is
    /// written, and the turn goes on (`true`), only if the session still waits
    /// for that call. Content that comes too late is queued again.
    pub fn end_park(&mut self, tool_call_id: String, outcome: Option<String>) -> (r: bool)
        requires
            old(self).wf(),
        ensures
            final(self).wf(),
            r == (outcome is Some && (old(self).session.pending_yield matches Some(y)
                && y.tool_call_id@ == tool_call_id@)),
            outcome is None ==> *final(self) == *old(self),
            outcome is Some && !r ==> contents_of(final(self).pending_yield_events@)
                == contents_of(old(self).pending_yield_events@).push(outcome->0@) && *final(self)
                == (SessionContext {
                pending_yield_events: final(self).pending_yield_events,
                ..*old(self)
            }),
            r ==> final(self).session.log() == old(self).session.log().push(
                tool_message(tool_call_id@, "sessions_yield"@, outcome->0@, false),
            ) && final(self).session.message_ids@ == old(self).session.message_ids@.push(0)
                && *final(self) == (SessionContext {
                session: Session {
                    pending_yield: None,
                    history: final(self).session.history,
                    message_ids: final(self).session.message_ids,
                    ..old(self).session
                },
                ..*old(self)
            }),
    {
        match outcome {
            None => false,
            Some(content) => {
                let ours: bool = match &self.session.pending_yield {
                    Some(y) => same_str(&y.tool_call_id, &tool_call_id),
                    None => false,
                };
                if ours {
                    self.answer_yield(tool_call_id, content);
                    true
                } else {
                    let ghost said = content@;
                    self.enqueue_pending_yield_event(PendingYieldEvent { content });
                    assert(contents_of(self.pending_yield_events@) =~= contents_of(
                        old(self).pending_yield_events@,
                    ).push(said));
                    false
                }
            },
        }
    }

    /// Closes the yield that waits with what the user said, and says whether
    /// there was one. A turn that is parked on it gives up.
    pub fn interject(&mut self, content: &str) -> (r: bool)
        requires
            old(self).wf(),
        ensures
            final(self).wf(),
            r == old(self).session.pending_yield is Some,
            !r ==> *final(self) == *old(self),
            r ==> interrupts(*old(self), *final(self), content@),
    {
        let id: String = match &self.session.pending_yield {
            None => {
                return false;
            },
            Some(y) => y.tool_call_id.clone(),
        };
        let live: bool = match &self.yield_waiter {
            Some(w) => same_str(w, &id),
            None => false,
        };
        if live {
            self.yield_waiter = None;
        }
        let mut said = copy_str("The user interrupted the wait and said: ");
        said.append(content);
        self.answer_yield(id, said);
        true
    }
}

// ── Laws ───────────────────────────────────────────────────────────────────

proof fn lemma_remembered_now(v: Seq<(Seq<char>, u64)>, id: Seq<char>, t: u64, now: u64)
    requires
        still_known(t, now),
    ensures
        names_task(remembered(v.push((id, t)), now), id),
{
    let w = v.push((id, t));
    assert(w.drop_last() =~= v);
    let r = remembered(w, now);
    assert(r.last() == (id, t));
    assert(r[r.len() - 1].0 == id);
}

/// The end of a task that was taken in counts as known when it is reported
/// again within an hour, whether or not the suspension has ended since, unless
/// the task is waited for anew.
pub proof fn law_terminal_is_taken_in_once(
    s: Option<SuspensionView>,
    recent: Seq<(Seq<char>, u64)>,
    id: Seq<char>,
    t: u64,
    later: Option<SuspensionView>,
    now: u64,
)
    requires
        arrival(s, recent, id, t) is New,
        still_known(t, now),
        !waits_for(later, id),
    ensures
        arrival(later, recent_after(s, recent, id, t), id, now) is Known,
{
    let kept = if waits_for(s, id) {
        recent
    } else {
        remembered(recent, t)
    };
    lemma_remembered_now(kept, id, t, now);
}

/// A task that is waited for is always taken in, even if an earlier end of it
/// is remembered.
pub proof fn law_awaited_task_is_taken_in(
    s: SuspensionView,
    recent: Seq<(Seq<char>, u64)>,
    id: Seq<char>,
    now: u64,
)
    requires
        s.pending.contains(id),
    ensures
        arrival(Some(s), recent, id, now) is New,
{
}

/// The result of a task is known to the suspension that holds it, however long
/// ago it was taken in and even if nothing else is remembered.
pub proof fn law_held_result_is_known(
    s: SuspensionView,
    recent: Seq<(Seq<char>, u64)>,
    id: Seq<char>,
    status: SubStatus,
    content: Seq<char>,
    sent: u64,
    now: u64,
)
    ensures
        arrival(Some(with_terminal(s, id, status, content, sent)), recent, id, now) is Known,
{
    let t = with_terminal(s, id, status, content, sent);
    assert(id.push('x').len() != id.len());
    crate::session_context::suspension::law_terminal_moves_one_task(
        s,
        id,
        status,
        content,
        sent,
        id.push('x'),
    );
    assert(t.results[t.results.len() - 1].sub_session_id == id);
}

} // verus!
