//! The decisions of one turn: how it begins, what becomes of the user's message,
//! and what is done with the answer.

use vstd::prelude::*;

use crate::session::breakpoint_detect::PendingYield;
use crate::session::channel::{kept_of, ChannelInboundMessage, InboundFile};
use crate::session::chat::{
    calls_of, parts_of, text_message, CallView, ContentPart, MessageView, PartView, StopReason,
    ToolCall, UsageView,
};
use crate::session::session_override::{RunMode, SessionOverride, ThinkingConfig};
use crate::session::types::{
    blank, calls_message, ends_open, is_blank, media_message, same_but_log, Session,
};
use crate::session_context::helpers::{bare_continue, history_looks_incomplete, is_bare_continue};
use crate::session_context::suspension::{
    fold_of, recorded_stop, semantic_stop_reason, FoldCandidate, SuspensionView,
};
use crate::session_context::tts::{prepare_text_for_tts, script_of};
use crate::session_context::{interrupts, NoticeTurnGuard, SessionContext};
use crate::text::{chars_of, copy_opt, copy_str, opt_text, same_str, trim_str, trimmed};

verus! {

/// What a turn came to.
#[derive(Debug)]
pub struct TurnResult {
    pub text: String,
    pub stop_reason: StopReason,
    /// A user message to be tried again.
    pub pending_retry: Option<String>,
    /// Whether the turn is one of a suspended sequence.
    pub has_pending: bool,
}

/// How far a stream got with showing the answer.
#[derive(Clone, Copy, Debug, PartialEq, Eq, Structural)]
pub enum StreamDelivery {
    /// Nothing was shown.
    Pending,
    /// Something was shown.
    Visible,
    /// The whole answer was shown.
    FinalDelivered,
}

// ── The beginning ──────────────────────────────────────────────────────────

/// How a turn begins.
#[derive(Debug)]
pub struct TurnStart {
    /// Whether the turn's output is an intermediate note.
    pub silenced: bool,
    /// The message that the turn's stream goes on editing.
    pub fold: Option<FoldCandidate>,
    /// Whether the stream leaves its lines standing at the end.
    pub defer_collapse: bool,
    /// Whether the stream draws the message it took over into one line.
    pub final_takeover: bool,
    /// Whether the turn before was interrupted.
    pub was_incomplete: bool,
}

/// The message that a turn's stream goes on editing: the preview of the
/// suspension, for the turns of notices only.
pub open spec fn fold_for(
    intent: Option<bool>,
    suspended: Option<SuspensionView>,
) -> Option<FoldCandidate> {
    match (intent, suspended) {
        (Some(_), Some(s)) => match s.preview {
            Some(p) => Some(fold_of(p)),
            None => None,
        },
        _ => None,
    }
}

/// The path under which an attached file is known: where it was stored, if the
/// session stores files and that succeeded, or else where its channel put it.
pub open spec fn path_of(
    stores: bool,
    saved: Option<Seq<char>>,
    hint: Option<Seq<char>>,
) -> Option<Seq<char>> {
    if stores && saved is Some {
        saved
    } else {
        hint
    }
}

/// The parts for the attached files; files without a path are left out.
pub open spec fn file_parts(
    files: Seq<InboundFile>,
    stores: bool,
    saved: Seq<Option<String>>,
    hints: Seq<Option<String>>,
) -> Seq<PartView>
    decreases files.len(),
{
    if files.len() == 0 {
        Seq::empty()
    } else {
        let n = files.len() - 1;
        let before = file_parts(files.drop_last(), stores, saved, hints);
        match path_of(stores, opt_text(saved[n]), opt_text(hints[n])) {
            Some(p) => before.push(
                PartView::File(
                    p,
                    opt_text(files[n].mime_type),
                    Some(files[n].file_name@),
                    files[n].size_bytes,
                ),
            ),
            None => before,
        }
    }
}

/// The parts for the attached files. For each file `saved` says where it was
/// stored and `hints` where its channel put it.
pub fn media_parts(
    files: &Vec<InboundFile>,
    stores: bool,
    saved: &Vec<Option<String>>,
    hints: &Vec<Option<String>>,
) -> (r: Vec<ContentPart>)
    requires
        saved@.len() == files@.len(),
        hints@.len() == files@.len(),
    ensures
        parts_of(r@) == file_parts(files@, stores, saved@, hints@),
{
    let mut r: Vec<ContentPart> = Vec::new();
    let mut i: usize = 0;
    assert(parts_of(r@) =~= file_parts(files@.take(0), stores, saved@, hints@));
    while i < files.len()
        invariant
            i <= files@.len(),
            saved@.len() == files@.len(),
            hints@.len() == files@.len(),
            parts_of(r@) == file_parts(files@.take(i as int), stores, saved@, hints@),
        decreases files@.len() - i,
    {
        assert(files@.take(i as int + 1).drop_last() =~= files@.take(i as int));
        assert(files@.take(i as int + 1)[i as int] == files@[i as int]);
        let path: Option<String> = if stores && saved[i].is_some() {
            copy_opt(&saved[i])
        } else {
            copy_opt(&hints[i])
        };
        if let Some(p) = path {
            let ghost before = parts_of(r@);
            let part = ContentPart::File {
                path: p,
                mime_type: copy_opt(&files[i].mime_type),
                name: Some(files[i].file_name.clone()),
                size_bytes: files[i].size_bytes,
            };
            let ghost v = part@;
            r.push(part);
            assert(parts_of(r@) =~= before.push(v));
        }
        i += 1;
    }
    assert(files@.take(files@.len() as int) =~= files@);
    r
}

/// What a turn runs with.
#[derive(Debug)]
pub struct TurnSettings {
    pub permission_mode: String,
    pub run_mode: RunMode,
    /// A prompt that takes the place of the assembled one.
    pub system_prompt: Option<String>,
    pub model: Option<String>,
    pub thinking: Option<ThinkingConfig>,
}

/// What a turn runs with: the overrides of the session, or else the defaults.
/// The run mode is that of the message, never one of the session's.
pub fn turn_settings(over: &SessionOverride, permission_mode: &str, run_mode: RunMode) -> (r:
    TurnSettings)
    ensures
        r.permission_mode@ == (match over.permission_mode {
            Some(m) => m@,
            None => permission_mode@,
        }),
        r.run_mode == run_mode,
        opt_text(r.system_prompt) == opt_text(over.system_prompt_override),
        opt_text(r.model) == opt_text(over.model),
        match over.thinking {
            Some(on) => r.thinking matches Some(c) && c.enabled == on && opt_text(c.effort) == (
            if on {
                opt_text(over.effort)
            } else {
                None
            }),
            None => r.thinking is None,
        },
{
    TurnSettings {
        permission_mode: match &over.permission_mode {
            Some(m) => m.clone(),
            None => copy_str(permission_mode),
        },
        run_mode,
        system_prompt: copy_opt(&over.system_prompt_override),
        model: copy_opt(&over.model),
        thinking: over.to_thinking_config(),
    }
}

/// What becomes of a user's message.
#[derive(Debug)]
pub enum Admission {
    /// It asks to go on with nothing: the turn ends with this result.
    BareContinue(TurnResult),
    /// It was appended; the model is to be run.
    Ready,
}

/// Whether a message asks to go on while there is nothing to go on with.
pub open spec fn nothing_to_continue(
    content: Seq<char>,
    media: nat,
    was_incomplete: bool,
    retry: bool,
    h: Seq<MessageView>,
) -> bool {
    media == 0 && bare_continue(content) && !was_incomplete && !retry && !ends_open(h)
}

/// The text that the model is given: the reminder, a blank line and the user's
/// words, in whose place a hint stands where there are only files.
pub open spec fn user_text_of(
    content: Seq<char>,
    media: nat,
    reminder: Option<Seq<char>>,
    image_hint: Seq<char>,
) -> Seq<char> {
    let said = if media > 0 && blank(content) {
        image_hint
    } else {
        content
    };
    match reminder {
        Some(r) => r + "\n\n"@ + said,
        None => said,
    }
}

/// The message that the model is given.
pub open spec fn user_message_of(text: Seq<char>, media: Seq<PartView>) -> MessageView {
    if media.len() == 0 {
        text_message("user"@, text)
    } else {
        media_message(text, media)
    }
}

/// Whether a user's message was taken in: answered with `bare_reply` where there
/// is nothing to go on with, and else appended.
pub open spec fn admits(
    before: SessionContext,
    after: SessionContext,
    r: Admission,
    content: Seq<char>,
    media: Seq<PartView>,
    reminder: Option<Seq<char>>,
    was_incomplete: bool,
    bare_reply: Seq<char>,
    image_hint: Seq<char>,
) -> bool {
    if nothing_to_continue(
        content,
        media.len(),
        was_incomplete,
        before.pending_retry is Some,
        before.session.log(),
    ) {
        &&& r matches Admission::BareContinue(t)
        &&& t.text@ == bare_reply
        &&& t.stop_reason == StopReason::EndTurn
        &&& t.pending_retry is None
        &&& !t.has_pending
        &&& after == (SessionContext {
            session: Session { turn_headless: false, ..before.session },
            ..before
        })
    } else {
        &&& r is Ready
        &&& after.session.log() == before.session.log().push(
            user_message_of(user_text_of(content, media.len(), reminder, image_hint), media),
        )
        &&& after.session.message_ids@ == before.session.message_ids@.push(0)
        &&& same_but_log(before.session, after.session)
        &&& after == (SessionContext { session: after.session, ..before })
    }
}

impl SessionContext {
    /// Begins a turn with an incoming message.
    pub fn begin_turn(&mut self, msg: ChannelInboundMessage) -> (r: TurnStart)
        ensures
            r.silenced == (msg.silenced_override == Some(true)),
            r.fold == fold_for(msg.silenced_override, old(self).suspended()),
            r.defer_collapse == r.silenced,
            r.final_takeover == (r.fold is Some && !r.silenced),
            r.was_incomplete == old(self).session.incomplete_turn,
            *final(self) == (SessionContext {
                session: Session {
                    incomplete_turn: false,
                    last_message: Some(kept_of(msg)),
                    turn_silenced: r.silenced,
                    turn_headless: msg.run_mode == RunMode::Background,
                    ..old(self).session
                },
                ..*old(self)
            }),
    {
        let intent: Option<bool> = msg.silenced_override;
        let silenced: bool = match intent {
            Some(b) => b,
            None => false,
        };
        let fold: Option<FoldCandidate> = match intent {
            Some(_) => match &self.turn_suspension {
                Some(s) => match &s.preview {
                    Some(p) => Some(p.to_fold()),
                    None => None,
                },
                None => None,
            },
            None => None,
        };
        let was_incomplete: bool = self.session.incomplete_turn;
        let headless: bool = msg.run_mode == RunMode::Background;
        self.session.incomplete_turn = false;
        self.session.record_inbound(msg);
        self.session.turn_silenced = silenced;
        self.session.turn_headless = headless;
        let final_takeover: bool = fold.is_some() && !silenced;
        TurnStart { silenced, fold, defer_collapse: silenced, final_takeover, was_incomplete }
    }

    /// Takes in the user's message. A message that asks to go on, when nothing
    /// was left open, is answered with `bare_reply` and not appended. Files
    /// without words get `image_hint` as their words.
    pub fn take_user_message(
        &mut self,
        content: &str,
        media: Vec<ContentPart>,
        reminder: Option<String>,
        was_incomplete: bool,
        bare_reply: &str,
        image_hint: &str,
    ) -> (r: Admission)
        requires
            old(self).wf(),
        ensures
            final(self).wf(),
            admits(
                *old(self),
                *final(self),
                r,
                content@,
                parts_of(media@),
                opt_text(reminder),
                was_incomplete,
                bare_reply@,
                image_hint@,
            ),
    {
        let n: usize = media.len();
        if n == 0 && is_bare_continue(content) {
            let open: bool = was_incomplete || self.pending_retry.is_some()
                || history_looks_incomplete(&self.session.history);
            if !open {
                self.session.turn_headless = false;
                return Admission::BareContinue(
                    TurnResult {
                        text: copy_str(bare_reply),
                        stop_reason: StopReason::EndTurn,
                        pending_retry: None,
                        has_pending: false,
                    },
                );
            }
        }
        let mut text = String::new();
        let ghost rem = opt_text(reminder);
        if let Some(r) = reminder {
            text.append(&r);
            text.append("\n\n");
        }
        if n > 0 && is_blank(content) {
            text.append(image_hint);
        } else {
            text.append(content);
        }
        assert(text@ =~= user_text_of(content@, n as nat, rem, image_hint@));
        let ghost before = self.session.log();
        assert(before.len() == self.session.history@.len());
        if n == 0 {
            self.session.add_user(text);
        } else {
            self.session.add_user_with_media(text, media);
        }
        assert(self.session.log().len() == self.session.history@.len());
        Admission::Ready
    }

    /// Takes in what the user said. Words without files close a yield that waits;
    /// anything else is a message of its own.
    pub fn receive_message(
        &mut self,
        content: &str,
        media: Vec<ContentPart>,
        reminder: Option<String>,
        was_incomplete: bool,
        bare_reply: &str,
        image_hint: &str,
    ) -> (r: Admission)
        requires
            old(self).wf(),
        ensures
            final(self).wf(),
            if media@.len() == 0 && old(self).session.pending_yield is Some {
                r is Ready && interrupts(*old(self), *final(self), content@)
            } else {
                admits(
                    *old(self),
                    *final(self),
                    r,
                    content@,
                    parts_of(media@),
                    opt_text(reminder),
                    was_incomplete,
                    bare_reply@,
                    image_hint@,
                )
            },
    {
        if media.len() == 0 && self.interject(content) {
            return Admission::Ready;
        }
        self.take_user_message(content, media, reminder, was_incomplete, bare_reply, image_hint)
    }

    /// Ends a turn that failed.
    pub fn end_failed_turn(&mut self, guard: &mut NoticeTurnGuard)
        ensures
            final(guard).active == old(guard).active,
            final(guard).done == (old(guard).active || old(guard).done),
            *final(self) == (SessionContext {
                session: Session { turn_headless: false, ..old(self).session },
                notice_turns_in_flight: in_flight_after(*old(self), *old(guard)),
                ..*old(self)
            }),
    {
        self.session.turn_headless = false;
        guard.finish(self);
    }
}

// ── The answer ─────────────────────────────────────────────────────────────

/// What is to be done when the model has answered.
#[derive(Debug)]
pub struct Settled {
    pub result: TurnResult,
    /// The stored message that is to be replaced by the last one.
    pub rewritten: Option<i64>,
    /// Whether files in the conversation are to be replaced by markers.
    pub age_media: bool,
}

/// `m` with its stop reason recorded as going on.
pub open spec fn marked_continue(m: MessageView) -> MessageView {
    match m.usage {
        Some(u) => MessageView {
            usage: Some(UsageView { stop_reason: Some("Continue"@), ..u }),
            ..m
        },
        None => m,
    }
}

/// `h` with the stop reason of the last message recorded as going on, if that
/// is an assistant message.
pub open spec fn with_last_marked(h: Seq<MessageView>) -> Seq<MessageView> {
    if h.len() > 0 && h.last().role == "assistant"@ {
        h.update(h.len() - 1, marked_continue(h.last()))
    } else {
        h
    }
}

/// Whether the suspension of a context is over once the turn's notice is
/// counted as ended.
pub open spec fn sequence_over(ctx: SessionContext, in_flight: usize) -> bool {
    ctx.suspended() matches Some(s) && s.pending.len() == 0 && in_flight == 0
        && ctx.delegation_notice_queue@.len() == 0
}

/// The turns of notices in flight once this turn is counted as ended.
pub open spec fn in_flight_after(ctx: SessionContext, guard: NoticeTurnGuard) -> usize {
    if guard.active && !guard.done && ctx.notice_turns_in_flight > 0 {
        (ctx.notice_turns_in_flight - 1) as usize
    } else {
        ctx.notice_turns_in_flight
    }
}

impl SessionContext {
    /// Settles a turn that the model has answered: the turn of a notice counts
    /// as ended, the suspension ends if nothing is left of it, and a quiet turn
    /// with work pending is recorded as going on.
    pub fn settle_turn(&mut self, silenced: bool, guard: &mut NoticeTurnGuard, result: TurnResult) -> (r:
        Settled)
        requires
            old(self).wf(),
        ensures
            final(self).wf(),
            final(guard).active == old(guard).active,
            final(guard).done == (old(guard).active || old(guard).done),
            r.result.text == result.text,
            r.result.pending_retry == result.pending_retry,
            r.result.has_pending == (result.has_pending || silenced),
            r.result.stop_reason == recorded_stop(
                silenced,
                r.result.has_pending,
                result.stop_reason,
            ),
            r.age_media == (r.result.stop_reason != StopReason::ContextOverflow),
            final(self).session.log() == (if r.result.stop_reason != result.stop_reason {
                with_last_marked(old(self).session.log())
            } else {
                old(self).session.log()
            }),
            r.rewritten == (if r.result.stop_reason != result.stop_reason
                && old(self).session.log().len() > 0
                && old(self).session.log().last().role == "assistant"@
                && old(self).session.message_ids@.last() > 0 {
                Some(old(self).session.message_ids@.last())
            } else {
                None
            }),
            final(self).session.message_ids@ == old(self).session.message_ids@,
            *final(self) == (SessionContext {
                session: Session {
                    history: final(self).session.history,
                    turn_headless: false,
                    ..old(self).session
                },
                notice_turns_in_flight: in_flight_after(*old(self), *old(guard)),
                turn_suspension: if sequence_over(
                    *old(self),
                    in_flight_after(*old(self), *old(guard)),
                ) {
                    None
                } else {
                    old(self).turn_suspension
                },
                pending_retry: if result.pending_retry is Some {
                    result.pending_retry
                } else {
                    old(self).pending_retry
                },
                ..*old(self)
            }),
    {
        self.session.turn_headless = false;
        let has_pending: bool = result.has_pending || silenced;
        guard.finish(self);
        self.clear_suspension_if_collected();
        let reason = semantic_stop_reason(silenced, has_pending, result.stop_reason);
        let mut rewritten: Option<i64> = None;
        if reason != result.stop_reason {
            let ghost h = self.session.log();
            let n: usize = self.session.history.len();
            if n > 0 {
                assert(h.last() == self.session.history@.last()@);
                if same_str(&self.session.history[n - 1].role, "assistant") {
                    let mut last = self.session.history[n - 1].copy();
                    if let Some(u) = &self.session.history[n - 1].usage {
                        let mut usage = u.copy();
                        usage.stop_reason = Some(copy_str("Continue"));
                        last.usage = Some(usage);
                    }
                    let ghost v = last@;
                    assert(v == marked_continue(h.last()));
                    self.session.history.set(n - 1, last);
                    assert(self.session.log() =~= h.update(n - 1, v));
                    let id: i64 = self.session.message_ids[n - 1];
                    if id > 0 {
                        rewritten = Some(id);
                    }
                }
            }
        }
        if result.pending_retry.is_some() {
            self.pending_retry = copy_opt(&result.pending_retry);
        }
        Settled {
            result: TurnResult {
                text: result.text,
                stop_reason: reason,
                pending_retry: result.pending_retry,
                has_pending,
            },
            rewritten,
            age_media: reason != StopReason::ContextOverflow,
        }
    }

    /// Keeps the message that shows the progress, for the next turn of the
    /// sequence to go on editing.
    pub fn keep_preview(
        &mut self,
        suspended_turn: bool,
        reply_target: &str,
        fold: Option<FoldCandidate>,
    )
        requires
            old(self).wf(),
        ensures
            final(self).wf(),
            *final(self) == (SessionContext {
                turn_suspension: final(self).turn_suspension,
                ..*old(self)
            }),
            suspended_turn && fold is Some && old(self).suspended() is Some ==> {
                &&& final(self).suspended() matches Some(s)
                &&& s.preview matches Some(p)
                &&& p.reply_target@ == reply_target@
                &&& fold_of(p) == fold->0
                &&& s == (SuspensionView { preview: s.preview, ..old(self).suspended()->0 })
            },
            !(suspended_turn && fold is Some && old(self).suspended() is Some)
                ==> final(self).suspended() == old(self).suspended(),
    {
        if suspended_turn {
            if let Some(f) = fold {
                self.set_preview(copy_str(reply_target), f);
            }
        }
    }

    /// The yield call that the turn is to be parked on. A turn that leaves work
    /// running without a yield gets one of its own, with the given id.
    pub fn yield_to_park_on(&mut self, has_pending: bool, implicit_id: &str) -> (r: Option<String>)
        requires
            old(self).wf(),
        ensures
            final(self).wf(),
            match old(self).session.pending_yield {
                Some(y) => opt_text(r) == Some(y.tool_call_id@) && *final(self) == *old(self),
                None => if has_pending {
                    &&& opt_text(r) == Some(implicit_id@)
                    &&& final(self).session.pending_yield matches Some(y)
                    &&& y.tool_call_id@ == implicit_id@
                    &&& y.implicit
                    &&& final(self).session.log() == old(self).session.log().push(
                        calls_message(
                            ""@,
                            seq![
                                CallView {
                                    id: implicit_id@,
                                    name: "sessions_yield"@,
                                    arguments: "{}"@,
                                },
                            ],
                            None,
                            None,
                            None,
                            None,
                        ),
                    )
                    &&& final(self).session.message_ids@ == old(self).session.message_ids@.push(0)
                    &&& *final(self) == (SessionContext {
                        session: Session {
                            history: final(self).session.history,
                            message_ids: final(self).session.message_ids,
                            pending_yield: final(self).session.pending_yield,
                            ..old(self).session
                        },
                        ..*old(self)
                    })
                } else {
                    r is None && *final(self) == *old(self)
                },
            },
    {
        match &self.session.pending_yield {
            Some(y) => Some(y.tool_call_id.clone()),
            None => {
                if !has_pending {
                    return None;
                }
                let mut calls: Vec<ToolCall> = Vec::new();
                calls.push(
                    ToolCall {
                        id: copy_str(implicit_id),
                        name: copy_str("sessions_yield"),
                        arguments: copy_str("{}"),
                    },
                );
                assert(calls_of(calls@) =~= seq![
                    CallView { id: implicit_id@, name: "sessions_yield"@, arguments: "{}"@ },
                ]);
                let ghost before = self.session.log();
                assert(before.len() == self.session.history@.len());
                self.session.add_assistant_with_tools(copy_str(""), calls, None, None, None, None);
                assert(self.session.log().len() == self.session.history@.len());
                self.session.pending_yield = Some(
                    PendingYield { tool_call_id: copy_str(implicit_id), implicit: true },
                );
                Some(copy_str(implicit_id))
            },
        }
    }
}

/// Whether the answer is sent as a message of its own: always where nothing was
/// shown; where something was shown, only if the turn is not one of a suspended
/// sequence; never where all of it was shown, or where it is blank.
pub open spec fn sends_answer(delivery: StreamDelivery, suspended_turn: bool, text: Seq<char>) -> bool {
    &&& match delivery {
        StreamDelivery::FinalDelivered => false,
        StreamDelivery::Pending => true,
        StreamDelivery::Visible => !suspended_turn,
    }
    &&& !blank(text)
}

/// Whether the answer is sent as a message of its own.
pub fn should_send(delivery: StreamDelivery, suspended_turn: bool, text: &str) -> (r: bool)
    ensures
        r == sends_answer(delivery, suspended_turn, text@),
{
    delivery != StreamDelivery::FinalDelivered && (delivery == StreamDelivery::Pending
        || !suspended_turn) && !is_blank(text)
}

/// The longest script that is spoken, in characters.
pub const TTS_MAX_CHARS: usize = 2000;

/// What is spoken of the script of an answer: nothing if it is empty or too
/// long.
pub open spec fn spoken_script(script: Seq<char>) -> Option<Seq<char>> {
    if 0 < script.len() <= TTS_MAX_CHARS {
        Some(script)
    } else {
        None
    }
}

/// What is spoken of the script of an answer.
pub fn speak_script(script: String) -> (r: Option<String>)
    ensures
        opt_text(r) == spoken_script(script@),
{
    let v = chars_of(&script);
    if v.len() > 0 && v.len() <= TTS_MAX_CHARS {
        Some(script)
    } else {
        None
    }
}

/// The script to be spoken, if answers are spoken at all, the turn is not one
/// of a suspended sequence, and the answer is not blank.
pub fn speech_of(enabled: bool, channel_speaks: bool, silenced: bool, has_pending: bool, text: &str) -> (r:
    Option<String>)
    ensures
        opt_text(r) == (if enabled && channel_speaks && !silenced && !has_pending && !blank(text@) {
            spoken_script(script_of(trimmed(text@)))
        } else {
            None
        }),
{
    if enabled && channel_speaks && !silenced && !has_pending && !is_blank(text) {
        let t = trim_str(text);
        speak_script(prepare_text_for_tts(&t))
    } else {
        None
    }
}

// ── Laws ───────────────────────────────────────────────────────────────────

/// The turn of a user's message is answered: unless the whole answer was shown
/// already, an answer that is not blank is sent.
pub proof fn law_user_turns_are_answered(delivery: StreamDelivery, text: Seq<char>)
    requires
        delivery != StreamDelivery::FinalDelivered,
        !blank(text),
    ensures
        sends_answer(delivery, false, text),
{
}

/// An answer that was shown in full is not sent again.
pub proof fn law_no_answer_is_sent_twice(suspended_turn: bool, text: Seq<char>)
    ensures
        !sends_answer(StreamDelivery::FinalDelivered, suspended_turn, text),
{
}

/// A quiet turn does not end: whatever the model says, its stop reason is not
/// the end of the turn.
pub proof fn law_quiet_turns_do_not_end(reason: StopReason)
    ensures
        recorded_stop(true, true, reason) != StopReason::EndTurn,
{
}

} // verus!
