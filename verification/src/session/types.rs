//! The state of one conversation.

use vstd::prelude::*;

use crate::number::{decimal, push_decimal};
use crate::session::breakpoint_detect::PendingYield;
use crate::session::channel::{kept_of, ChannelInboundMessage, PersistedChannelMessage};
use crate::session::chat::{
    calls_of, messages_of, opt_usage, parts_of, text_message, tool_message, CallView, ChatMessage,
    ChatMessageUsage, ContentPart, MessageView, PartView, ToolCall, UsageView,
};
use crate::session::session_override::{
    answered, answers, is_answered, opens_round, SessionOverride,
};
use crate::text::{chars_of, copy_str, opt_text, same_str, trim, trimmed};
use crate::time::{read_clock, CALENDAR_END};

verus! {

/// What is known of the summary that stands for compacted messages.
#[derive(Debug, Clone, Copy, PartialEq, Eq, Structural)]
pub struct SummaryMetadata {
    pub version: u32,
    pub token_estimate: u64,
    pub up_to_message: i64,
}

// ── Delegation deadlines ───────────────────────────────────────────────────

/// Wall-clock deadline of a delegated session. The time left is told to the
/// model before every request; when at most a fifth of the budget is left, the
/// reminder asks it to wrap up.
#[derive(Debug, Clone, Copy, PartialEq, Eq, Structural)]
pub struct DelegationDeadline {
    /// Absolute kill time in Unix seconds.
    pub deadline_unix: i64,
    /// The budget that the deadline was made from.
    pub total_secs: u64,
}

/// The seconds left at `now`: none once the deadline has passed.
pub open spec fn secs_left(d: DelegationDeadline, now: int) -> nat {
    if d.deadline_unix > now {
        (d.deadline_unix - now) as nat
    } else {
        0
    }
}

/// Whether at most a fifth of a budget is left.
pub open spec fn budget_low(d: DelegationDeadline, now: int) -> bool {
    d.total_secs > 0 && secs_left(d, now) * 5 <= d.total_secs
}

/// The countdown that the model is shown.
pub open spec fn reminder_text(d: DelegationDeadline, now: int) -> Seq<char> {
    if budget_low(d, now) {
        "<system-reminder>Delegation deadline warning: only "@ + decimal(secs_left(d, now))
            + "s remain of the "@ + decimal(d.total_secs as nat)
            + "s wall-clock budget. STOP starting new work. Wrap up NOW: finish the current step, write the summary/deliverable for the parent agent, and end your turn. Anything unfinished at the deadline is lost.</system-reminder>"@
    } else {
        "<system-reminder>Delegation budget: "@ + decimal(secs_left(d, now))
            + "s remaining of the "@ + decimal(d.total_secs as nat)
            + "s wall-clock budget. The delegation is killed at the deadline — plan to finish and deliver before it runs out.</system-reminder>"@
    }
}

impl DelegationDeadline {
    /// The deadline `total_secs` after `now`.
    pub fn after(now: i64, total_secs: u64) -> (r: DelegationDeadline)
        requires
            now + total_secs <= i64::MAX,
        ensures
            r.deadline_unix == now + total_secs,
            r.total_secs == total_secs,
    {
        DelegationDeadline {
            deadline_unix: (now as i128 + total_secs as i128) as i64,
            total_secs,
        }
    }

    /// The deadline `total_secs` from now.
    pub fn from_now(total_secs: u64) -> (r: DelegationDeadline)
        requires
            total_secs <= i64::MAX - CALENDAR_END,
        ensures
            r.total_secs == total_secs,
            exists|now: i64|
                0 <= now <= CALENDAR_END && #[trigger] (now + total_secs) == r.deadline_unix,
    {
        let stamp = read_clock();
        let r = DelegationDeadline::after(stamp.at.secs, total_secs);
        assert(stamp.at.secs + total_secs == r.deadline_unix);
        r
    }

    /// The seconds left at `now`.
    pub fn remaining_at(&self, now: i64) -> (r: u64)
        ensures
            r == secs_left(*self, now as int),
    {
        if self.deadline_unix > now {
            (self.deadline_unix as i128 - now as i128) as u64
        } else {
            0
        }
    }

    /// The seconds left; none once the deadline has passed.
    pub fn remaining_secs(&self) -> (r: u64)
        ensures
            exists|now: i64|
                0 <= now <= CALENDAR_END && r == #[trigger] secs_left(*self, now as int),
    {
        let stamp = read_clock();
        self.remaining_at(stamp.at.secs)
    }

    /// Whether at most a fifth of the budget is left at `now`.
    pub fn is_low_at(&self, now: i64) -> (r: bool)
        ensures
            r == budget_low(*self, now as int),
    {
        self.total_secs > 0 && (self.remaining_at(now) as u128) * 5 <= self.total_secs as u128
    }

    /// Whether at most a fifth of the budget is left.
    pub fn is_low(&self) -> (r: bool)
        ensures
            exists|now: i64|
                0 <= now <= CALENDAR_END && r == #[trigger] budget_low(*self, now as int),
    {
        let stamp = read_clock();
        self.is_low_at(stamp.at.secs)
    }

    /// The countdown that the model is shown at `now`.
    pub fn render_at(&self, now: i64) -> (r: String)
        ensures
            r@ == reminder_text(*self, now as int),
    {
        let mut r = String::new();
        let left: u64 = self.remaining_at(now);
        if self.is_low_at(now) {
            r.append("<system-reminder>Delegation deadline warning: only ");
            push_decimal(&mut r, left);
            r.append("s remain of the ");
            push_decimal(&mut r, self.total_secs);
            r.append(
                "s wall-clock budget. STOP starting new work. Wrap up NOW: finish the current step, write the summary/deliverable for the parent agent, and end your turn. Anything unfinished at the deadline is lost.</system-reminder>",
            );
        } else {
            r.append("<system-reminder>Delegation budget: ");
            push_decimal(&mut r, left);
            r.append("s remaining of the ");
            push_decimal(&mut r, self.total_secs);
            r.append(
                "s wall-clock budget. The delegation is killed at the deadline — plan to finish and deliver before it runs out.</system-reminder>",
            );
        }
        assert(r@ =~= reminder_text(*self, now as int));
        r
    }

    /// The countdown that the model is shown.
    pub fn render_reminder(&self) -> (r: String)
        ensures
            exists|now: i64|
                0 <= now <= CALENDAR_END && r@ == #[trigger] reminder_text(*self, now as int),
    {
        let stamp = read_clock();
        self.render_at(stamp.at.secs)
    }
}

// ── Sessions ───────────────────────────────────────────────────────────────

/// The state of one conversation.
#[derive(Debug)]
pub struct Session {
    pub id: String,
    /// The routing key of the owner, such as "telegram:default:12345".
    pub owner: String,
    /// The agent that owns this session.
    pub agent_name: String,
    /// The session that delegated to this one.
    pub parent_session_id: Option<String>,
    pub history: Vec<ChatMessage>,
    /// The stored id of each message of `history`, 0 where there is none.
    pub message_ids: Vec<i64>,
    /// Counts compactions.
    pub compact_version: u32,
    pub summary_metadata: Option<SummaryMetadata>,
    pub session_override: SessionOverride,
    /// Whether the last stored turn was interrupted.
    pub incomplete_turn: bool,
    /// The last incoming message.
    pub last_message: Option<PersistedChannelMessage>,
    /// Tokens in use as the provider reported them, 0 where nothing is known.
    pub total_tokens: u64,
    pub delegation_deadline: Option<DelegationDeadline>,
    /// Texts put before the next request, once.
    pub turn_injections: Vec<String>,
    /// Whether the current turn's output is an intermediate note.
    pub turn_silenced: bool,
    /// Whether the current turn runs with no human present.
    pub turn_headless: bool,
    /// The tools that the current turn may use; all of them where `None`.
    pub turn_tool_allowlist: Option<Vec<String>>,
    /// The `sessions_yield` call that waits for its result.
    pub pending_yield: Option<PendingYield>,
}

/// Whether `b` is `a` but for its messages and their ids.
pub open spec fn same_but_log(a: Session, b: Session) -> bool {
    b == (Session { history: b.history, message_ids: b.message_ids, ..a })
}

/// Whether `text` is blank.
pub open spec fn blank(text: Seq<char>) -> bool {
    trimmed(text).len() == 0
}

/// Whether `text` is blank.
pub fn is_blank(text: &str) -> (r: bool)
    ensures
        r == blank(text@),
{
    let v = chars_of(text);
    trim(&v).len() == 0
}

/// A user message with media before its text.
pub open spec fn media_message(text: Seq<char>, media: Seq<PartView>) -> MessageView {
    MessageView { parts: media.push(PartView::Text(text)), ..text_message("user"@, text) }
}

/// The thinking part that stands first in an assistant message, if there is
/// thinking or a signature to keep.
pub open spec fn thinking_part(
    thinking: Option<Seq<char>>,
    signature: Option<Seq<char>>,
) -> Seq<PartView> {
    match thinking {
        Some(t) => seq![PartView::Thinking(t, signature)],
        None => match signature {
            Some(_) => seq![PartView::Thinking(""@, signature)],
            None => Seq::empty(),
        },
    }
}

/// An assistant message that issues tool calls.
pub open spec fn calls_message(
    text: Seq<char>,
    calls: Seq<CallView>,
    thinking: Option<Seq<char>>,
    signature: Option<Seq<char>>,
    model: Option<Seq<char>>,
    usage: Option<UsageView>,
) -> MessageView {
    MessageView {
        parts: thinking_part(thinking, signature).push(PartView::Text(text)),
        tool_calls: Some(calls),
        model,
        usage,
        ..text_message("assistant"@, text)
    }
}

/// The index of the last assistant message of `h`, or -1.
pub open spec fn last_assistant(h: Seq<MessageView>) -> int
    decreases h.len(),
{
    if h.len() == 0 {
        -1
    } else if h.last().role == "assistant"@ {
        h.len() - 1
    } else {
        last_assistant(h.drop_last())
    }
}

/// `m` without its last `count` calls.
pub open spec fn with_fewer_calls(m: MessageView, count: nat) -> MessageView {
    match m.tool_calls {
        Some(c) => MessageView {
            tool_calls: Some(
                c.take(
                    if count < c.len() {
                        c.len() - count
                    } else {
                        0
                    },
                ),
            ),
            ..m
        },
        None => m,
    }
}

/// `h` without the last `count` calls of its last assistant message.
pub open spec fn with_calls_stripped(h: Seq<MessageView>, count: nat) -> Seq<MessageView> {
    let i = last_assistant(h);
    if i >= 0 {
        h.update(i, with_fewer_calls(h[i], count))
    } else {
        h
    }
}

/// `h` without the user messages at its end.
pub open spec fn without_trailing_users(h: Seq<MessageView>) -> Seq<MessageView>
    decreases h.len(),
{
    if h.len() > 0 && h.last().role == "user"@ {
        without_trailing_users(h.drop_last())
    } else {
        h
    }
}

/// The index at which the tool results at the end of `h` begin.
pub open spec fn tail_start(h: Seq<MessageView>) -> int
    decreases h.len(),
{
    if h.len() > 0 && h.last().role == "tool"@ {
        tail_start(h.drop_last())
    } else {
        h.len() as int
    }
}

/// The result given to a call of a turn that the user aborted.
pub open spec fn aborted(c: CallView) -> MessageView {
    tool_message(c.id, c.name, "cancelled: aborted by user"@, true)
}

/// Results for the calls that have none in `results`.
pub open spec fn aborts(calls: Seq<CallView>, results: Seq<MessageView>) -> Seq<MessageView>
    decreases calls.len(),
{
    if calls.len() == 0 {
        Seq::empty()
    } else {
        let before = aborts(calls.drop_last(), results);
        if answered(results, calls.last().id) {
            before
        } else {
            before.push(aborted(calls.last()))
        }
    }
}

/// The results that an abort adds to `h`: one for each call of the last round
/// that has none.
pub open spec fn abort_results(h: Seq<MessageView>) -> Seq<MessageView> {
    let t = tail_start(h);
    if t > 0 && opens_round(h[t - 1]) {
        aborts(h[t - 1].tool_calls->0, h.skip(t))
    } else {
        Seq::empty()
    }
}

/// What an abort leaves of `h`: user messages at the end go; a round at the end
/// gets its missing results and a closing assistant message.
pub open spec fn after_abort(h: Seq<MessageView>) -> Seq<MessageView> {
    if h.len() > 0 && h.last().role == "user"@ {
        without_trailing_users(h)
    } else if abort_results(h).len() == 0 && tail_start(h) == h.len() {
        h
    } else {
        (h + abort_results(h)).push(text_message("assistant"@, "（已取消）"@))
    }
}

/// The number of messages that an abort takes away.
pub open spec fn abort_removes(h: Seq<MessageView>) -> nat {
    if h.len() > 0 && h.last().role == "user"@ {
        (h.len() - without_trailing_users(h).len()) as nat
    } else {
        0
    }
}

/// `ids` brought to the length of a history of `n` messages.
pub open spec fn fitted(ids: Seq<i64>, n: nat) -> Seq<i64> {
    if n <= ids.len() {
        ids.take(n as int)
    } else {
        ids + Seq::new((n - ids.len()) as nat, |i: int| 0i64)
    }
}

/// What a session stores when a turn is done.
#[derive(Debug)]
pub struct Settlement {
    pub last_message: Option<PersistedChannelMessage>,
    pub token_count: Option<u64>,
}

impl Session {
    /// The messages of the conversation.
    pub open spec fn log(&self) -> Seq<MessageView> {
        messages_of(self.history@)
    }

    /// Whether every message has a slot for its stored id.
    pub open spec fn wf(&self) -> bool {
        self.message_ids@.len() == self.history@.len()
    }

    /// Whether nothing was said in the conversation yet and nothing is set for its
    /// turns.
    pub open spec fn is_fresh(&self) -> bool {
        &&& self.wf()
        &&& self.log() == Seq::<MessageView>::empty()
        &&& self.compact_version == 0
        &&& self.summary_metadata is None
        &&& self.session_override.no_override()
        &&& !self.incomplete_turn
        &&& self.last_message is None
        &&& self.total_tokens == 0
        &&& self.delegation_deadline is None
        &&& self.turn_injections@.len() == 0
        &&& !self.turn_silenced
        &&& !self.turn_headless
        &&& self.turn_tool_allowlist is None
        &&& self.pending_yield is None
    }

    /// A conversation without messages, owned by nobody, of the agent "main".
    pub fn new(id: String) -> (r: Session)
        ensures
            r.id == id,
            r.owner@ == ""@,
            r.agent_name@ == "main"@,
            r.parent_session_id is None,
            r.is_fresh(),
    {
        let r = Session {
            id,
            owner: copy_str(""),
            agent_name: copy_str("main"),
            parent_session_id: None,
            history: Vec::new(),
            message_ids: Vec::new(),
            compact_version: 0,
            summary_metadata: None,
            session_override: SessionOverride::default(),
            incomplete_turn: false,
            last_message: None,
            total_tokens: 0,
            delegation_deadline: None,
            turn_injections: Vec::new(),
            turn_silenced: false,
            turn_headless: false,
            turn_tool_allowlist: None,
            pending_yield: None,
        };
        assert(r.log() =~= Seq::<MessageView>::empty());
        r
    }

    /// Appends a message that is not stored yet.
    pub fn push_message(&mut self, msg: ChatMessage)
        ensures
            same_but_log(*old(self), *final(self)),
            final(self).log() == old(self).log().push(msg@),
            final(self).message_ids@ == old(self).message_ids@.push(0),
    {
        let ghost before = self.log();
        let ghost m = msg@;
        self.history.push(msg);
        self.message_ids.push(0);
        assert(self.log() =~= before.push(m));
    }

    /// What is to be stored when a turn is done: the last incoming message, and
    /// the token count where it is known.
    pub fn save_to_disk(&self) -> (r: Settlement)
        ensures
            r.last_message == self.last_message,
            r.token_count == (if self.total_tokens > 0 {
                Some(self.total_tokens)
            } else {
                None
            }),
    {
        Settlement {
            last_message: match &self.last_message {
                Some(m) => Some(m.copy()),
                None => None,
            },
            token_count: if self.total_tokens > 0 {
                Some(self.total_tokens)
            } else {
                None
            },
        }
    }

    /// Where the next outgoing message goes.
    pub fn reply_target(&self) -> (r: Option<&str>)
        ensures
            match r {
                Some(t) => self.last_message matches Some(m) && t@ == m.receiver.id@,
                None => self.last_message is None,
            },
    {
        match &self.last_message {
            Some(m) => Some(m.receiver.id.as_str()),
            None => None,
        }
    }

    /// Keeps the text and the routing of an incoming message.
    pub fn record_inbound(&mut self, msg: ChannelInboundMessage)
        ensures
            *final(self) == (Session { last_message: Some(kept_of(msg)), ..*old(self) }),
    {
        self.last_message = Some(msg.to_persisted());
    }

    /// Appends a user message.
    pub fn add_user(&mut self, text: String)
        ensures
            same_but_log(*old(self), *final(self)),
            final(self).log() == old(self).log().push(text_message("user"@, text@)),
            final(self).message_ids@ == old(self).message_ids@.push(0),
    {
        self.push_message(ChatMessage::user_text(&text));
    }

    /// Appends a user message with media parts before its text.
    pub fn add_user_with_media(&mut self, text: String, media: Vec<ContentPart>)
        ensures
            same_but_log(*old(self), *final(self)),
            final(self).log() == old(self).log().push(media_message(text@, parts_of(media@))),
            final(self).message_ids@ == old(self).message_ids@.push(0),
    {
        let ghost before = parts_of(media@);
        let ghost said = text@;
        let mut msg = ChatMessage::user_text(&text);
        let mut parts = media;
        parts.push(ContentPart::Text { text });
        assert(parts_of(parts@) =~= before.push(PartView::Text(said)));
        msg.parts = parts;
        self.push_message(msg);
    }

    /// The same as `add_user`.
    pub fn add_user_text(&mut self, text: String)
        ensures
            same_but_log(*old(self), *final(self)),
            final(self).log() == old(self).log().push(text_message("user"@, text@)),
            final(self).message_ids@ == old(self).message_ids@.push(0),
    {
        self.add_user(text);
    }

    /// Appends an assistant message; a blank one is left out.
    pub fn add_assistant(&mut self, text: String)
        ensures
            same_but_log(*old(self), *final(self)),
            blank(text@) ==> *final(self) == *old(self),
            !blank(text@) ==> final(self).log() == old(self).log().push(
                text_message("assistant"@, text@),
            ) && final(self).message_ids@ == old(self).message_ids@.push(0),
    {
        if is_blank(&text) {
            return;
        }
        self.push_message(ChatMessage::assistant_text(&text));
    }

    /// The same as `add_assistant`.
    pub fn add_assistant_text(&mut self, text: String)
        ensures
            same_but_log(*old(self), *final(self)),
            blank(text@) ==> *final(self) == *old(self),
            !blank(text@) ==> final(self).log() == old(self).log().push(
                text_message("assistant"@, text@),
            ) && final(self).message_ids@ == old(self).message_ids@.push(0),
    {
        self.add_assistant(text);
    }

    /// Appends an assistant message that issues tool calls. One with neither
    /// text nor calls is left out. Thinking, or a signature alone, is kept in a
    /// part before the text.
    pub fn add_assistant_with_tools(
        &mut self,
        text: String,
        tool_calls: Vec<ToolCall>,
        thinking: Option<String>,
        thinking_signature: Option<String>,
        model: Option<String>,
        usage: Option<ChatMessageUsage>,
    )
        ensures
            same_but_log(*old(self), *final(self)),
            blank(text@) && tool_calls@.len() == 0 ==> *final(self) == *old(self),
            !(blank(text@) && tool_calls@.len() == 0) ==> final(self).log()
                == old(self).log().push(
                calls_message(
                    text@,
                    calls_of(tool_calls@),
                    opt_text(thinking),
                    opt_text(thinking_signature),
                    opt_text(model),
                    opt_usage(usage),
                ),
            ) && final(self).message_ids@ == old(self).message_ids@.push(0),
    {
        if is_blank(&text) && tool_calls.len() == 0 {
            return;
        }
        let ghost think = opt_text(thinking);
        let ghost sig = opt_text(thinking_signature);
        let mut parts: Vec<ContentPart> = Vec::new();
        match thinking {
            Some(t) => {
                parts.push(ContentPart::Thinking { thinking: t, signature: thinking_signature });
            },
            None => match thinking_signature {
                Some(s) => {
                    parts.push(ContentPart::Thinking { thinking: copy_str(""), signature: Some(s) });
                },
                None => {},
            },
        }
        assert(parts_of(parts@) =~= thinking_part(think, sig));
        let mut msg = ChatMessage::assistant_text(&text);
        let ghost said = text@;
        parts.push(ContentPart::Text { text });
        assert(parts_of(parts@) =~= thinking_part(think, sig).push(PartView::Text(said)));
        msg.parts = parts;
        msg.tool_calls = Some(tool_calls);
        msg.model = model;
        msg.usage = usage;
        self.push_message(msg);
    }

    /// Appends the result of a tool call.
    pub fn add_tool_result(
        &mut self,
        tool_call_id: String,
        name: &str,
        content: String,
        is_error: bool,
    )
        ensures
            same_but_log(*old(self), *final(self)),
            final(self).log() == old(self).log().push(
                tool_message(tool_call_id@, name@, content@, is_error),
            ),
            final(self).message_ids@ == old(self).message_ids@.push(0),
    {
        self.push_message(ChatMessage::tool_result(&tool_call_id, name, &content, is_error));
    }

    /// Appends a system message.
    pub fn add_system_text(&mut self, text: String)
        ensures
            same_but_log(*old(self), *final(self)),
            final(self).log() == old(self).log().push(text_message("system"@, text@)),
            final(self).message_ids@ == old(self).message_ids@.push(0),
    {
        self.push_message(ChatMessage::system_text(&text));
    }

    /// Takes the last `count` calls away from the last assistant message.
    pub fn strip_trailing_tool_calls(&mut self, count: usize)
        ensures
            same_but_log(*old(self), *final(self)),
            final(self).log() == with_calls_stripped(old(self).log(), count as nat),
            final(self).message_ids@ == old(self).message_ids@,
    {
        let ghost h = self.log();
        let mut n: usize = self.history.len();
        assert(h.take(h.len() as int) =~= h);
        while n > 0 && !same_str(&self.history[n - 1].role, "assistant")
            invariant
                n <= self.history@.len(),
                *self == *old(self),
                h == self.log(),
                last_assistant(h.take(n as int)) == last_assistant(h),
            decreases n,
        {
            assert(h.take(n as int).last() == self.history@[n as int - 1]@);
            assert(h.take(n as int).drop_last() =~= h.take(n as int - 1));
            n -= 1;
        }
        if n == 0 {
            return;
        }
        assert(h.take(n as int).last() == self.history@[n as int - 1]@);
        let mut msg = self.history[n - 1].copy();
        if let Some(calls) = &self.history[n - 1].tool_calls {
            let keep: usize = if count < calls.len() {
                calls.len() - count
            } else {
                0
            };
            let mut fewer = crate::session::chat::copy_calls(calls);
            let ghost all = calls_of(calls@);
            fewer.truncate(keep);
            assert(calls_of(fewer@) =~= all.take(keep as int));
            msg.tool_calls = Some(fewer);
        }
        let ghost m = msg@;
        assert(m == with_fewer_calls(h[n as int - 1], count as nat));
        self.history.set(n - 1, msg);
        assert(self.log() =~= h.update(n as int - 1, m));
    }

    /// Takes away the last message if it is an assistant message.
    pub fn pop_last_assistant(&mut self)
        requires
            old(self).wf(),
        ensures
            final(self).wf(),
            same_but_log(*old(self), *final(self)),
            old(self).log().len() > 0 && old(self).log().last().role == "assistant"@
                ==> final(self).log() == old(self).log().drop_last()
                && final(self).message_ids@ == old(self).message_ids@.drop_last(),
            !(old(self).log().len() > 0 && old(self).log().last().role == "assistant"@)
                ==> *final(self) == *old(self),
    {
        let n: usize = self.history.len();
        if n == 0 {
            return;
        }
        let ghost h = self.log();
        assert(h.last() == self.history@.last()@);
        if same_str(&self.history[n - 1].role, "assistant") {
            self.history.pop();
            self.message_ids.pop();
            assert(self.log() =~= h.drop_last());
        }
    }

    /// Takes the user messages at the end away and counts them.
    fn drop_trailing_users(&mut self) -> (removed: usize)
        requires
            old(self).wf(),
        ensures
            final(self).wf(),
            same_but_log(*old(self), *final(self)),
            final(self).log() == without_trailing_users(old(self).log()),
            final(self).message_ids@ == fitted(
                old(self).message_ids@,
                final(self).log().len(),
            ),
            removed == old(self).log().len() - final(self).log().len(),
    {
        let n: usize = self.history.len();
        let ghost h = self.log();
        assert(self.message_ids@ =~= fitted(self.message_ids@, h.len()));
        while self.history.len() > 0 && same_str(
            &self.history[self.history.len() - 1].role,
            "user",
        )
            invariant
                self.wf(),
                h == old(self).log(),
                same_but_log(*old(self), *self),
                without_trailing_users(self.log()) == without_trailing_users(h),
                self.message_ids@ == old(self).message_ids@.take(self.history@.len() as int),
                self.history@.len() <= old(self).message_ids@.len(),
                self.history@.len() <= n,
                n == h.len(),
            decreases self.history@.len(),
        {
            let ghost before = self.log();
            assert(before.last() == self.history@.last()@);
            self.history.pop();
            self.message_ids.pop();
            assert(self.log() =~= before.drop_last());
            assert(self.message_ids@ =~= old(self).message_ids@.take(self.history@.len() as int));
        }
        proof {
            if self.history@.len() > 0 {
                assert(self.log().last() == self.history@.last()@);
            }
        }
        n - self.history.len()
    }

    /// Where the tool results at the end of the conversation begin.
    fn results_start(&self) -> (t: usize)
        ensures
            t == tail_start(self.log()),
            t <= self.history@.len(),
    {
        let ghost h = self.log();
        let mut t: usize = self.history.len();
        assert(h.take(h.len() as int) =~= h);
        while t > 0 && same_str(&self.history[t - 1].role, "tool")
            invariant
                t <= self.history@.len(),
                h == self.log(),
                tail_start(h.take(t as int)) == tail_start(h),
            decreases t,
        {
            assert(h.take(t as int).last() == self.history@[t as int - 1]@);
            assert(h.take(t as int).drop_last() =~= h.take(t as int - 1));
            t -= 1;
        }
        if t > 0 {
            assert(h.take(t as int).last() == self.history@[t as int - 1]@);
        }
        t
    }

    /// Results for the calls of the last round that have none.
    fn missing_results(&self, t: usize) -> (r: Vec<ChatMessage>)
        requires
            t == tail_start(self.log()),
            t <= self.history@.len(),
        ensures
            messages_of(r@) == abort_results(self.log()),
    {
        let mut r: Vec<ChatMessage> = Vec::new();
        assert(messages_of(r@) =~= Seq::<MessageView>::empty());
        if t == 0 {
            return r;
        }
        let m = &self.history[t - 1];
        assert(self.log()[t as int - 1] == m@);
        if !same_str(&m.role, "assistant") {
            return r;
        }
        let results = vstd::slice::slice_subrange(self.history.as_slice(), t, self.history.len());
        let ghost res = self.log().skip(t as int);
        assert(messages_of(results@) =~= res);
        if let Some(calls) = &m.tool_calls {
            let ghost all = calls_of(calls@);
            let mut j: usize = 0;
            assert(all.take(0) =~= Seq::<CallView>::empty());
            while j < calls.len()
                invariant
                    j <= calls@.len(),
                    all == calls_of(calls@),
                    res == messages_of(results@),
                    messages_of(r@) == aborts(all.take(j as int), res),
                decreases calls@.len() - j,
            {
                assert(all.take(j as int + 1).drop_last() =~= all.take(j as int));
                assert(all.take(j as int + 1).last() == calls@[j as int]@);
                let c = &calls[j];
                if !is_answered(results, &c.id) {
                    let ghost before = messages_of(r@);
                    let msg = ChatMessage::tool_result(
                        &c.id,
                        &c.name,
                        "cancelled: aborted by user",
                        true,
                    );
                    let ghost v = msg@;
                    r.push(msg);
                    assert(messages_of(r@) =~= before.push(v));
                }
                j += 1;
            }
            assert(all.take(all.len() as int) =~= all);
        }
        r
    }

    /// Closes a turn that the user chose to abort. User messages at the end are
    /// taken away. Otherwise a round at the end gets a result for each call that
    /// has none, and an assistant message closes it. Returns how many messages
    /// were taken away.
    pub fn close_incomplete_turn_on_abort(&mut self) -> (removed: usize)
        requires
            old(self).wf(),
        ensures
            final(self).wf(),
            *final(self) == (Session {
                history: final(self).history,
                message_ids: final(self).message_ids,
                incomplete_turn: false,
                ..*old(self)
            }),
            final(self).log() == after_abort(old(self).log()),
            final(self).message_ids@ == fitted(old(self).message_ids@, final(self).log().len()),
            removed == abort_removes(old(self).log()),
    {
        self.incomplete_turn = false;
        let ghost h = self.log();
        let n: usize = self.history.len();
        if n > 0 {
            assert(h.last() == self.history@.last()@);
            if same_str(&self.history[n - 1].role, "user") {
                return self.drop_trailing_users();
            }
        }
        let t: usize = self.results_start();
        let missing = self.missing_results(t);
        if missing.len() == 0 && t == n {
            assert(self.message_ids@ =~= fitted(self.message_ids@, h.len()));
            return 0;
        }
        let ghost ids = self.message_ids@;
        let mut i: usize = 0;
        assert(self.message_ids@ =~= fitted(ids, h.len()));
        assert(h + abort_results(h).take(0) =~= h);
        while i < missing.len()
            invariant
                i <= missing@.len(),
                messages_of(missing@) == abort_results(h),
                self.log() == h + abort_results(h).take(i as int),
                ids.len() == h.len(),
                self.message_ids@ == fitted(ids, (h.len() + i) as nat),
                *self == (Session {
                    history: self.history,
                    message_ids: self.message_ids,
                    incomplete_turn: false,
                    ..*old(self)
                }),
            decreases missing@.len() - i,
        {
            self.push_message(missing[i].copy());
            assert(abort_results(h).take(i as int + 1) =~= abort_results(h).take(i as int).push(
                missing@[i as int]@,
            ));
            assert(self.log() =~= h + abort_results(h).take(i as int + 1));
            assert(self.message_ids@ =~= fitted(ids, (h.len() + i + 1) as nat));
            i += 1;
        }
        assert(abort_results(h).take(missing@.len() as int) =~= abort_results(h));
        self.push_message(ChatMessage::assistant_text("（已取消）"));
        assert(self.message_ids@ =~= fitted(ids, self.log().len()));
        0
    }

    /// Takes away every message after the first `len`.
    pub fn rollback_to(&mut self, len: usize)
        requires
            old(self).wf(),
        ensures
            final(self).wf(),
            same_but_log(*old(self), *final(self)),
            len < old(self).log().len() ==> final(self).log() == old(self).log().take(len as int)
                && final(self).message_ids@ == old(self).message_ids@.take(len as int),
            len >= old(self).log().len() ==> *final(self) == *old(self),
    {
        if len < self.history.len() {
            let ghost h = self.log();
            self.history.truncate(len);
            self.message_ids.truncate(len);
            assert(self.log() =~= h.take(len as int));
        }
    }

    /// Puts a summary in the place of the messages from `compact_start` up to
    /// `compact_end`.
    pub fn apply_compaction(
        &mut self,
        compact_start: usize,
        compact_end: usize,
        summary_msg: ChatMessage,
        version: u32,
        up_to_message: i64,
        summary_tokens: u64,
    )
        requires
            old(self).wf(),
            compact_start <= compact_end <= old(self).log().len(),
        ensures
            final(self).wf(),
            *final(self) == (Session {
                history: final(self).history,
                message_ids: final(self).message_ids,
                compact_version: version,
                summary_metadata: Some(
                    SummaryMetadata { version, token_estimate: summary_tokens, up_to_message },
                ),
                ..*old(self)
            }),
            final(self).log() == old(self).log().take(compact_start as int).push(summary_msg@)
                + old(self).log().skip(compact_end as int),
            final(self).message_ids@ == old(self).message_ids@.take(compact_start as int).push(0)
                + old(self).message_ids@.skip(compact_end as int),
    {
        let ghost h = self.log();
        let ghost ids = self.message_ids@;
        let mut history: Vec<ChatMessage> = Vec::new();
        let mut message_ids: Vec<i64> = Vec::new();
        copy_log(&self.history, &self.message_ids, 0, compact_start, &mut history, &mut message_ids);
        let ghost m = summary_msg@;
        let ghost head = messages_of(history@);
        history.push(summary_msg);
        assert(messages_of(history@) =~= head.push(m));
        message_ids.push(0);
        copy_log(
            &self.history,
            &self.message_ids,
            compact_end,
            self.history.len(),
            &mut history,
            &mut message_ids,
        );
        assert(messages_of(history@) =~= h.take(compact_start as int).push(m) + h.skip(
            compact_end as int,
        ));
        assert(message_ids@ =~= ids.take(compact_start as int).push(0) + ids.skip(
            compact_end as int,
        ));
        self.history = history;
        self.message_ids = message_ids;
        self.compact_version = version;
        self.summary_metadata = Some(
            SummaryMetadata { version, token_estimate: summary_tokens, up_to_message },
        );
    }

    /// Takes away the messages before `boundary`, with no summary.
    pub fn drop_pre_boundary(&mut self, boundary: usize, version: u32)
        requires
            old(self).wf(),
            boundary <= old(self).log().len(),
        ensures
            final(self).wf(),
            *final(self) == (Session {
                history: final(self).history,
                message_ids: final(self).message_ids,
                compact_version: version,
                ..*old(self)
            }),
            final(self).log() == old(self).log().skip(boundary as int),
            final(self).message_ids@ == old(self).message_ids@.skip(boundary as int),
    {
        let ghost h = self.log();
        let ghost ids = self.message_ids@;
        let mut history: Vec<ChatMessage> = Vec::new();
        let mut message_ids: Vec<i64> = Vec::new();
        copy_log(
            &self.history,
            &self.message_ids,
            boundary,
            self.history.len(),
            &mut history,
            &mut message_ids,
        );
        assert(messages_of(history@) =~= h.skip(boundary as int));
        assert(message_ids@ =~= ids.skip(boundary as int));
        self.history = history;
        self.message_ids = message_ids;
        self.compact_version = version;
    }
}

/// Appends the messages from `i` up to `j`, and their ids.
fn copy_log(
    history: &Vec<ChatMessage>,
    ids: &Vec<i64>,
    i: usize,
    j: usize,
    to: &mut Vec<ChatMessage>,
    to_ids: &mut Vec<i64>,
)
    requires
        i <= j <= history@.len(),
        history@.len() == ids@.len(),
    ensures
        messages_of(final(to)@) == messages_of(old(to)@) + messages_of(history@).subrange(
            i as int,
            j as int,
        ),
        final(to_ids)@ == old(to_ids)@ + ids@.subrange(i as int, j as int),
{
    let ghost h = messages_of(history@);
    let mut k: usize = i;
    assert(messages_of(to@) =~= messages_of(to@) + h.subrange(i as int, i as int));
    assert(to_ids@ =~= to_ids@ + ids@.subrange(i as int, i as int));
    while k < j
        invariant
            i <= k <= j <= history@.len(),
            history@.len() == ids@.len(),
            h == messages_of(history@),
            messages_of(to@) == messages_of(old(to)@) + h.subrange(i as int, k as int),
            to_ids@ == old(to_ids)@ + ids@.subrange(i as int, k as int),
        decreases j - k,
    {
        let ghost before = messages_of(to@);
        to.push(history[k].copy());
        to_ids.push(ids[k]);
        assert(messages_of(to@) =~= before.push(history@[k as int]@));
        assert(messages_of(to@) =~= messages_of(old(to)@) + h.subrange(i as int, k as int + 1));
        assert(to_ids@ =~= old(to_ids)@ + ids@.subrange(i as int, k as int + 1));
        k += 1;
    }
}

// ── Laws ───────────────────────────────────────────────────────────────────

/// Rolling back to the length before a turn takes away what the turn added, and
/// nothing else.
pub proof fn law_rollback_undoes_a_turn(h: Seq<MessageView>, added: Seq<MessageView>)
    ensures
        (h + added).take(h.len() as int) == h,
{
    assert((h + added).take(h.len() as int) =~= h);
}

/// Whether a history ends within a turn: with a user message, a tool result, or
/// calls without results.
pub open spec fn ends_open(h: Seq<MessageView>) -> bool {
    h.len() > 0 && (h.last().role == "user"@ || h.last().role == "tool"@ || opens_round(h.last()))
}

proof fn lemma_tail_start(h: Seq<MessageView>)
    ensures
        0 <= tail_start(h) <= h.len(),
        tail_start(h) < h.len() ==> h.last().role == "tool"@,
        h.len() > 0 && h.last().role == "tool"@ ==> tail_start(h) < h.len(),
    decreases h.len(),
{
    if h.len() > 0 && h.last().role == "tool"@ {
        lemma_tail_start(h.drop_last());
    }
}

proof fn lemma_aborts(calls: Seq<CallView>, results: Seq<MessageView>)
    ensures
        forall|k: int|
            0 <= k < calls.len() ==> answered(results, (#[trigger] calls[k]).id) || answered(
                aborts(calls, results),
                calls[k].id,
            ),
        calls.len() > 0 && results.len() == 0 ==> aborts(calls, results).len() > 0,
    decreases calls.len(),
{
    if calls.len() > 0 {
        let sub = calls.drop_last();
        let before = aborts(sub, results);
        let all = aborts(calls, results);
        lemma_aborts(sub, results);
        assert forall|k: int| 0 <= k < calls.len() implies answered(
            results,
            (#[trigger] calls[k]).id,
        ) || answered(all, calls[k].id) by {
            if k < sub.len() {
                assert(calls[k] == sub[k]);
                if answered(before, sub[k].id) {
                    let i = choose|i: int|
                        0 <= i < before.len() && answers(#[trigger] before[i], sub[k].id);
                    assert(all[i] == before[i]);
                }
            } else if !answered(results, calls[k].id) {
                assert(answers(all[all.len() - 1], calls[k].id));
            }
        }
    }
}

/// After an abort the conversation does not end within a turn, unless user
/// messages were taken away from its end; then what was before them is left as
/// it was.
pub proof fn law_abort_closes_the_turn(h: Seq<MessageView>)
    ensures
        !(h.len() > 0 && h.last().role == "user"@) ==> !ends_open(after_abort(h)),
        h.len() > 0 && h.last().role == "user"@ ==> after_abort(h) == without_trailing_users(h),
{
    reveal_strlit("user");
    reveal_strlit("assistant");
    reveal_strlit("tool");
    assert("assistant"@.len() != "tool"@.len());
    lemma_tail_start(h);
    if !(h.len() > 0 && h.last().role == "user"@) {
        let r = after_abort(h);
        if r == h && h.len() > 0 && abort_results(h).len() == 0 && tail_start(h) == h.len() {
            if opens_round(h.last()) {
                lemma_aborts(h.last().tool_calls->0, h.skip(h.len() as int));
            }
        } else if h.len() > 0 {
            assert(r.last() == text_message("assistant"@, "（已取消）"@));
        }
    }
}

/// After an abort every call of the last round has a result.
pub proof fn law_abort_answers_every_call(h: Seq<MessageView>, k: int)
    requires
        h.len() > 0,
        h.last().role != "user"@,
        tail_start(h) > 0,
        opens_round(h[tail_start(h) - 1]),
        0 <= k < h[tail_start(h) - 1].tool_calls->0.len(),
    ensures
        answered(
            after_abort(h).skip(tail_start(h)),
            h[tail_start(h) - 1].tool_calls->0[k].id,
        ),
{
    lemma_tail_start(h);
    let t = tail_start(h);
    let calls = h[t - 1].tool_calls->0;
    let results = h.skip(t);
    let more = abort_results(h);
    lemma_aborts(calls, results);
    let r = after_abort(h);
    let id = calls[k].id;
    if more.len() == 0 && t == h.len() {
        assert(results.len() == 0);
    } else {
        let tail = r.skip(t);
        if answered(results, id) {
            let i = choose|i: int| 0 <= i < results.len() && answers(#[trigger] results[i], id);
            assert(tail[i] == results[i]);
            assert(answers(tail[i], id));
        } else {
            let i = choose|i: int| 0 <= i < more.len() && answers(#[trigger] more[i], id);
            assert(tail[results.len() + i] == more[i]);
            assert(answers(tail[results.len() + i], id));
        }
    }
}

} // verus!
