//! Per-session runtime overrides, and the cleaning of a conversation history
//! before it is sent to a model.

use vstd::prelude::*;

use crate::session::chat::{
    messages_of, parts_of, push_parts, text_message, tool_message, has_text_part, CallView,
    ChatMessage, ContentPart, MessageView, PartView, ToolCall, calls_of,
};
use crate::text::{copy_opt, copy_str, opt_text, same_str};

verus! {

// ── Overrides ──────────────────────────────────────────────────────────────

/// Whether a human is present during a turn.
#[derive(Clone, Copy, Debug, PartialEq, Eq, Structural)]
pub enum RunMode {
    Interactive,
    Background,
}

/// How a model reasons.
#[derive(Debug, Clone)]
pub struct ThinkingConfig {
    pub enabled: bool,
    pub effort: Option<String>,
}

/// Per-session runtime overrides applied by slash commands. Each field that is
/// `None` leaves the configured default in force.
#[derive(Debug, Clone)]
pub struct SessionOverride {
    /// A model ID used in place of the routing default.
    pub model: Option<String>,
    /// Thinking on or off; `None` leaves it to the model.
    pub thinking: Option<bool>,
    /// Effort level when thinking is on ("low", "medium", "high").
    pub effort: Option<String>,
    /// Name of the permission mode of this session.
    pub permission_mode: Option<String>,
    pub run_mode: Option<RunMode>,
    /// Tool calls per turn, 0 for no limit.
    pub max_tool_calls: Option<usize>,
    /// The share of the context window at which compaction starts, as the bits
    /// of its IEEE 754 double.
    pub compact_threshold: Option<u64>,
    /// Recent work units kept by compaction.
    pub retain_work_units: Option<usize>,
    /// Takes the place of the assembled system prompt. Never stored.
    pub system_prompt_override: Option<String>,
}

impl Default for SessionOverride {
    fn default() -> (r: SessionOverride)
        ensures
            r.no_override(),
    {
        SessionOverride {
            model: None,
            thinking: None,
            effort: None,
            permission_mode: None,
            run_mode: None,
            max_tool_calls: None,
            compact_threshold: None,
            retain_work_units: None,
            system_prompt_override: None,
        }
    }
}

impl SessionOverride {
    /// Whether every field is `None`.
    pub open spec fn no_override(&self) -> bool {
        &&& self.model is None
        &&& self.thinking is None
        &&& self.effort is None
        &&& self.permission_mode is None
        &&& self.run_mode is None
        &&& self.max_tool_calls is None
        &&& self.compact_threshold is None
        &&& self.retain_work_units is None
        &&& self.system_prompt_override is None
    }

    /// Whether no override is set.
    pub fn is_empty(&self) -> (r: bool)
        ensures
            r == self.no_override(),
    {
        self.model.is_none() && self.thinking.is_none() && self.effort.is_none()
            && self.permission_mode.is_none() && self.run_mode.is_none()
            && self.max_tool_calls.is_none() && self.compact_threshold.is_none()
            && self.retain_work_units.is_none() && self.system_prompt_override.is_none()
    }

    /// The thinking configuration that the override asks for: the effort level
    /// counts only when thinking is on.
    pub fn to_thinking_config(&self) -> (r: Option<ThinkingConfig>)
        ensures
            match self.thinking {
                Some(true) => r matches Some(c) && c.enabled && opt_text(c.effort) == opt_text(
                    self.effort,
                ),
                Some(false) => r matches Some(c) && !c.enabled && c.effort is None,
                None => r is None,
            },
    {
        match self.thinking {
            Some(true) => Some(ThinkingConfig { enabled: true, effort: copy_opt(&self.effort) }),
            Some(false) => Some(ThinkingConfig { enabled: false, effort: None }),
            None => None,
        }
    }

    pub fn copy(&self) -> (r: SessionOverride)
        ensures
            r == *self,
    {
        SessionOverride {
            model: copy_opt(&self.model),
            thinking: self.thinking,
            effort: copy_opt(&self.effort),
            permission_mode: copy_opt(&self.permission_mode),
            run_mode: self.run_mode,
            max_tool_calls: self.max_tool_calls,
            compact_threshold: self.compact_threshold,
            retain_work_units: self.retain_work_units,
            system_prompt_override: copy_opt(&self.system_prompt_override),
        }
    }
}

// ── Tool calls and their results ───────────────────────────────────────────

/// Whether `calls` holds a call with this id.
pub open spec fn has_call(calls: Seq<CallView>, id: Seq<char>) -> bool {
    exists|j: int| 0 <= j < calls.len() && (#[trigger] calls[j]).id == id
}

/// Whether `m` is an assistant message that issues the call `id`.
pub open spec fn declares(m: MessageView, id: Seq<char>) -> bool {
    m.role == "assistant"@ && (m.tool_calls matches Some(c) && has_call(c, id))
}

/// Whether some assistant message of `h` issues the call `id`.
pub open spec fn declared(h: Seq<MessageView>, id: Seq<char>) -> bool {
    exists|i: int| 0 <= i < h.len() && declares(#[trigger] h[i], id)
}

/// Whether `m` is the result of the call `id`.
pub open spec fn answers(m: MessageView, id: Seq<char>) -> bool {
    m.role == "tool"@ && m.tool_call_id == Some(id)
}

/// Whether `h` holds a result of the call `id`.
pub open spec fn answered(h: Seq<MessageView>, id: Seq<char>) -> bool {
    exists|i: int| 0 <= i < h.len() && answers(#[trigger] h[i], id)
}

/// Whether `m` is an assistant message with at least one tool call.
pub open spec fn opens_round(m: MessageView) -> bool {
    m.role == "assistant"@ && (m.tool_calls matches Some(c) && c.len() > 0)
}

/// Whether `calls` holds a call with this id.
pub fn calls_have(calls: &Vec<ToolCall>, id: &str) -> (r: bool)
    ensures
        r == has_call(calls_of(calls@), id@),
{
    let mut j: usize = 0;
    while j < calls.len()
        invariant
            j <= calls@.len(),
            forall|k: int| 0 <= k < j ==> (#[trigger] calls_of(calls@)[k]).id != id@,
        decreases calls@.len() - j,
    {
        assert(calls_of(calls@)[j as int].id == calls@[j as int].id@);
        if same_str(&calls[j].id, id) {
            return true;
        }
        j += 1;
    }
    false
}

/// Whether some assistant message of `h` issues the call `id`.
pub fn is_declared(h: &[ChatMessage], id: &str) -> (r: bool)
    ensures
        r == declared(messages_of(h@), id@),
{
    let mut i: usize = 0;
    while i < h.len()
        invariant
            i <= h@.len(),
            forall|k: int| 0 <= k < i ==> !declares(#[trigger] messages_of(h@)[k], id@),
        decreases h@.len() - i,
    {
        assert(messages_of(h@)[i as int] == h@[i as int]@);
        if same_str(&h[i].role, "assistant") {
            if let Some(calls) = &h[i].tool_calls {
                if calls_have(calls, id) {
                    return true;
                }
            }
        }
        i += 1;
    }
    false
}

/// Whether `m` is the result of the call `id`.
pub fn is_answer(m: &ChatMessage, id: &str) -> (r: bool)
    ensures
        r == answers(m@, id@),
{
    if !same_str(&m.role, "tool") {
        return false;
    }
    match &m.tool_call_id {
        Some(x) => same_str(x, id),
        None => false,
    }
}

/// Whether `h` holds a result of the call `id`.
pub fn is_answered(h: &[ChatMessage], id: &str) -> (r: bool)
    ensures
        r == answered(messages_of(h@), id@),
{
    let mut i: usize = 0;
    while i < h.len()
        invariant
            i <= h@.len(),
            forall|k: int| 0 <= k < i ==> !answers(#[trigger] messages_of(h@)[k], id@),
        decreases h@.len() - i,
    {
        assert(messages_of(h@)[i as int] == h@[i as int]@);
        if is_answer(&h[i], id) {
            return true;
        }
        i += 1;
    }
    false
}

/// Whether `m` is an assistant message with at least one tool call.
pub fn is_round_start(m: &ChatMessage) -> (r: bool)
    ensures
        r == opens_round(m@),
{
    same_str(&m.role, "assistant") && match &m.tool_calls {
        Some(c) => c.len() > 0,
        None => false,
    }
}

// ── Orphan results ─────────────────────────────────────────────────────────

/// Whether `m` may stay beside the calls that `all` issues.
pub open spec fn belongs(m: MessageView, all: Seq<MessageView>) -> bool {
    m.role == "tool"@ ==> (m.tool_call_id matches Some(id) && declared(all, id))
}

/// The messages of `h` that may stay beside the calls that `all` issues.
pub open spec fn belonging(h: Seq<MessageView>, all: Seq<MessageView>) -> Seq<MessageView>
    decreases h.len(),
{
    if h.len() == 0 {
        Seq::empty()
    } else {
        let before = belonging(h.drop_last(), all);
        if belongs(h.last(), all) {
            before.push(h.last())
        } else {
            before
        }
    }
}

/// `h` without the results of calls that nothing in `h` issues.
pub open spec fn without_orphans(h: Seq<MessageView>) -> Seq<MessageView> {
    belonging(h, h)
}

/// Whether `m` may stay beside the calls that `all` issues.
pub fn may_stay(m: &ChatMessage, all: &[ChatMessage]) -> (r: bool)
    ensures
        r == belongs(m@, messages_of(all@)),
{
    if same_str(&m.role, "tool") {
        match &m.tool_call_id {
            Some(id) => is_declared(all, id),
            None => false,
        }
    } else {
        true
    }
}

/// `h` without the results of calls that nothing in `h` issues.
pub fn drop_orphans(h: &[ChatMessage]) -> (r: Vec<ChatMessage>)
    ensures
        messages_of(r@) == without_orphans(messages_of(h@)),
{
    let mut r: Vec<ChatMessage> = Vec::new();
    let ghost all = messages_of(h@);
    let mut i: usize = 0;
    assert(messages_of(r@) =~= belonging(all.take(0), all));
    while i < h.len()
        invariant
            i <= h@.len(),
            all == messages_of(h@),
            messages_of(r@) == belonging(all.take(i as int), all),
        decreases h@.len() - i,
    {
        assert(all.take(i as int + 1).drop_last() =~= all.take(i as int));
        assert(all.take(i as int + 1).last() == h@[i as int]@);
        if may_stay(&h[i], h) {
            let ghost before = messages_of(r@);
            r.push(h[i].copy());
            assert(messages_of(r@) =~= before.push(h@[i as int]@));
        }
        i += 1;
    }
    assert(all.take(all.len() as int) =~= all);
    r
}

// ── The open tail ──────────────────────────────────────────────────────────

/// Whether `m` opens a round to none of whose calls `all` holds a result.
pub open spec fn unanswered(m: MessageView, all: Seq<MessageView>) -> bool {
    opens_round(m) && forall|j: int|
        0 <= j < m.tool_calls->0.len() ==> !answered(all, (#[trigger] m.tool_calls->0[j]).id)
}

/// `h` without the rounds at its end to none of whose calls `all` holds a
/// result.
pub open spec fn without_tail(h: Seq<MessageView>, all: Seq<MessageView>) -> Seq<MessageView>
    decreases h.len(),
{
    if h.len() > 0 && unanswered(h.last(), all) {
        without_tail(h.drop_last(), all)
    } else {
        h
    }
}

/// `h` without orphan results and without the unanswered rounds at its end.
pub open spec fn pruned(h: Seq<MessageView>) -> Seq<MessageView> {
    let kept = without_orphans(h);
    without_tail(kept, kept)
}

/// Whether `m` opens a round to none of whose calls `all` holds a result.
pub fn is_unanswered(m: &ChatMessage, all: &[ChatMessage]) -> (r: bool)
    ensures
        r == unanswered(m@, messages_of(all@)),
{
    if !is_round_start(m) {
        return false;
    }
    match &m.tool_calls {
        Some(calls) => {
            let mut j: usize = 0;
            while j < calls.len()
                invariant
                    j <= calls@.len(),
                    m@.tool_calls == Some(calls_of(calls@)),
                    forall|k: int|
                        0 <= k < j ==> !answered(
                            messages_of(all@),
                            (#[trigger] m@.tool_calls->0[k]).id,
                        ),
                decreases calls@.len() - j,
            {
                assert(m@.tool_calls->0[j as int].id == calls@[j as int].id@);
                if is_answered(all, &calls[j].id) {
                    return false;
                }
                j += 1;
            }
            true
        },
        None => false,
    }
}

/// Drops the unanswered rounds at the end of `h`.
pub fn drop_tail(h: &mut Vec<ChatMessage>)
    ensures
        messages_of(final(h)@) == without_tail(messages_of(old(h)@), messages_of(old(h)@)),
{
    let all = crate::session::chat::copy_messages(h);
    while h.len() > 0 && is_unanswered(&h[h.len() - 1], &all)
        invariant
            messages_of(all@) == messages_of(old(h)@),
            without_tail(messages_of(h@), messages_of(all@)) == without_tail(
                messages_of(old(h)@),
                messages_of(all@),
            ),
        decreases h@.len(),
    {
        let ghost before = messages_of(h@);
        assert(before.last() == h@.last()@);
        h.pop();
        assert(messages_of(h@) =~= before.drop_last());
    }
    proof {
        if h@.len() > 0 {
            assert(messages_of(h@).last() == h@.last()@);
        }
    }
}

// ── Interrupted rounds ─────────────────────────────────────────────────────

/// The index of the first message of `h`, at or after `from`, that is no tool
/// result.
pub open spec fn run_end(h: Seq<MessageView>, from: int) -> int
    decreases h.len() - from,
{
    if 0 <= from < h.len() && h[from].role == "tool"@ {
        run_end(h, from + 1)
    } else {
        from
    }
}

/// The result given to a call that was interrupted.
pub open spec fn cancelled(c: CallView) -> MessageView {
    tool_message(c.id, c.name, "cancelled: turn interrupted"@, true)
}

/// Cancelled results for the calls to which `results` holds no answer.
pub open spec fn cancellations(calls: Seq<CallView>, results: Seq<MessageView>) -> Seq<MessageView>
    decreases calls.len(),
{
    if calls.len() == 0 {
        Seq::empty()
    } else {
        let before = cancellations(calls.drop_last(), results);
        if answered(results, calls.last().id) {
            before
        } else {
            before.push(cancelled(calls.last()))
        }
    }
}

/// The assistant message put between tool results and a user message.
pub open spec fn interruption() -> MessageView {
    text_message("assistant"@, "（已中断）"@)
}

/// The first round of `h`, with its results in `h[1..j]`, made complete before
/// the message at `j`.
pub open spec fn closed_round(h: Seq<MessageView>, j: int) -> Seq<MessageView> {
    let filled = h.take(j) + cancellations(h[0].tool_calls->0, h.subrange(1, j));
    if h[j].role == "user"@ {
        filled.push(interruption())
    } else {
        filled
    }
}

/// `h` with every round that a later turn follows made complete: calls without
/// a result get a cancelled one, and an assistant message is put before a user
/// message that follows results. A round at the end of `h` is left open.
pub open spec fn closed(h: Seq<MessageView>) -> Seq<MessageView>
    decreases h.len(),
    via closed_decreases
{
    if h.len() == 0 {
        h
    } else if !opens_round(h[0]) {
        seq![h[0]] + closed(h.skip(1))
    } else {
        let j = run_end(h, 1);
        if j >= h.len() {
            h
        } else {
            closed_round(h, j) + closed(h.skip(j))
        }
    }
}

#[via_fn]
proof fn closed_decreases(h: Seq<MessageView>) {
    if h.len() > 0 && opens_round(h[0]) {
        lemma_run_end(h, 1);
    }
}

/// What `run_end` says of its result.
pub proof fn lemma_run_end(h: Seq<MessageView>, from: int)
    requires
        0 <= from <= h.len(),
    ensures
        from <= run_end(h, from) <= h.len(),
        forall|k: int| from <= k < run_end(h, from) ==> (#[trigger] h[k]).role == "tool"@,
        run_end(h, from) < h.len() ==> h[run_end(h, from)].role != "tool"@,
    decreases h.len() - from,
{
    if from < h.len() && h[from].role == "tool"@ {
        lemma_run_end(h, from + 1);
    }
}

/// The run of results that starts at `from` of a part of `h` ends where it
/// ends in `h`.
proof fn lemma_run_end_skip(h: Seq<MessageView>, i: int, from: int)
    requires
        0 <= i <= from <= h.len(),
    ensures
        run_end(h.skip(i), from - i) == run_end(h, from) - i,
    decreases h.len() - from,
{
    if from < h.len() {
        assert(h.skip(i)[from - i] == h[from]);
        if h[from].role == "tool"@ {
            lemma_run_end_skip(h, i, from + 1);
        }
    }
}

/// The messages from `i` up to `j`.
fn results_between(h: &[ChatMessage], i: usize, j: usize) -> (r: Vec<ChatMessage>)
    requires
        i <= j <= h@.len(),
    ensures
        messages_of(r@) == messages_of(h@).subrange(i as int, j as int),
{
    let s = vstd::slice::slice_subrange(h, i, j);
    assert(messages_of(s@) =~= messages_of(h@).subrange(i as int, j as int));
    crate::session::chat::copy_messages(s)
}

/// Appends a copy of each message of `v`.
fn push_messages(out: &mut Vec<ChatMessage>, v: &[ChatMessage])
    ensures
        messages_of(final(out)@) == messages_of(old(out)@) + messages_of(v@),
{
    let mut i: usize = 0;
    assert(messages_of(out@) =~= messages_of(out@) + messages_of(v@).take(0));
    while i < v.len()
        invariant
            i <= v@.len(),
            messages_of(out@) == messages_of(old(out)@) + messages_of(v@).take(i as int),
        decreases v@.len() - i,
    {
        let ghost before = messages_of(out@);
        out.push(v[i].copy());
        assert(messages_of(out@) =~= before.push(v@[i as int]@));
        assert(messages_of(out@) =~= messages_of(old(out)@) + messages_of(v@).take(i as int + 1));
        i += 1;
    }
    assert(messages_of(v@).take(v@.len() as int) =~= messages_of(v@));
}

/// Appends a cancelled result for each call without an answer in `results`.
fn push_cancellations(out: &mut Vec<ChatMessage>, calls: &Vec<ToolCall>, results: &[ChatMessage])
    ensures
        messages_of(final(out)@) == messages_of(old(out)@) + cancellations(
            calls_of(calls@),
            messages_of(results@),
        ),
{
    let ghost all = calls_of(calls@);
    let ghost res = messages_of(results@);
    let mut j: usize = 0;
    assert(messages_of(out@) =~= messages_of(out@) + cancellations(all.take(0), res));
    while j < calls.len()
        invariant
            j <= calls@.len(),
            all == calls_of(calls@),
            res == messages_of(results@),
            messages_of(out@) == messages_of(old(out)@) + cancellations(all.take(j as int), res),
        decreases calls@.len() - j,
    {
        assert(all.take(j as int + 1).drop_last() =~= all.take(j as int));
        assert(all.take(j as int + 1).last() == calls@[j as int]@);
        let c = &calls[j];
        if !is_answered(results, &c.id) {
            let ghost before = messages_of(out@);
            let msg = ChatMessage::tool_result(&c.id, &c.name, "cancelled: turn interrupted", true);
            let ghost m = msg@;
            out.push(msg);
            assert(messages_of(out@) =~= before.push(m));
            assert(m == cancelled(calls@[j as int]@));
            assert(messages_of(out@) =~= messages_of(old(out)@) + cancellations(
                all.take(j as int + 1),
                res,
            ));
        }
        j += 1;
    }
    assert(all.take(all.len() as int) =~= all);
}

/// `h` with every round that a later turn follows made complete.
pub fn close_interrupted_tool_rounds(h: &[ChatMessage]) -> (r: Vec<ChatMessage>)
    ensures
        messages_of(r@) == closed(messages_of(h@)),
{
    let ghost all = messages_of(h@);
    let mut out: Vec<ChatMessage> = Vec::new();
    let mut i: usize = 0;
    assert(all.skip(0) =~= all);
    assert(messages_of(out@) + closed(all) =~= closed(all));
    while i < h.len()
        invariant
            i <= h@.len(),
            all == messages_of(h@),
            messages_of(out@) + closed(all.skip(i as int)) == closed(all),
        decreases h@.len() - i,
    {
        let ghost rest = all.skip(i as int);
        assert(rest[0] == h@[i as int]@);
        if !is_round_start(&h[i]) {
            let ghost before = messages_of(out@);
            out.push(h[i].copy());
            assert(messages_of(out@) =~= before.push(rest[0]));
            assert(rest.skip(1) =~= all.skip(i as int + 1));
            assert(before + closed(rest) =~= before.push(rest[0]) + closed(rest.skip(1)));
            i += 1;
        } else {
            let mut j: usize = i + 1;
            while j < h.len() && same_str(&h[j].role, "tool")
                invariant
                    i < j <= h@.len(),
                    all == messages_of(h@),
                    run_end(all, j as int) == run_end(all, i as int + 1),
                decreases h@.len() - j,
            {
                assert(all[j as int] == h@[j as int]@);
                j += 1;
            }
            proof {
                if j < h@.len() {
                    assert(all[j as int] == h@[j as int]@);
                }
                assert(run_end(all, j as int) == j);
                lemma_run_end_skip(all, i as int, i as int + 1);
                assert(run_end(rest, 1) == j - i);
            }
            let round = results_between(h, i, j);
            let ghost before = messages_of(out@);
            push_messages(&mut out, &round);
            assert(messages_of(round@) =~= rest.take(j as int - i as int));
            if j >= h.len() {
                assert(rest.take(rest.len() as int) =~= rest);
                assert(closed(all.skip(h@.len() as int)) =~= Seq::<MessageView>::empty());
                assert(messages_of(out@) + closed(all.skip(h@.len() as int)) =~= closed(all));
                i = h.len();
            } else {
                let results = results_between(h, i + 1, j);
                assert(messages_of(results@) =~= rest.subrange(1, j as int - i as int));
                if let Some(calls) = &h[i].tool_calls {
                    push_cancellations(&mut out, calls, &results);
                }
                assert(rest[j as int - i as int] == h@[j as int]@);
                if same_str(&h[j].role, "user") {
                    let ghost filled = messages_of(out@);
                    let msg = ChatMessage::assistant_text("（已中断）");
                    out.push(msg);
                    assert(messages_of(out@) =~= filled.push(interruption()));
                }
                assert(messages_of(out@) =~= before + closed_round(rest, j as int - i as int));
                assert(rest.skip(j as int - i as int) =~= all.skip(j as int));
                assert(before + closed(rest) =~= (before + closed_round(
                    rest,
                    j as int - i as int,
                )) + closed(all.skip(j as int)));
                i = j;
            }
        }
    }
    assert(closed(all.skip(h@.len() as int)) =~= Seq::<MessageView>::empty());
    assert(messages_of(out@) =~= closed(all));
    out
}

// ── Adjacent messages of one role ──────────────────────────────────────────

/// Whether `m` is a user or assistant message without tool calls.
pub open spec fn plain(m: MessageView) -> bool {
    (m.role == "user"@ || m.role == "assistant"@) && (m.tool_calls matches Some(c) ==> c.len() == 0)
}

/// Whether `b`, directly after `a`, is joined to it.
pub open spec fn joins(a: MessageView, b: MessageView) -> bool {
    plain(a) && plain(b) && a.role == b.role
}

/// `a` with `b` joined to it: the parts of both, with a blank line between them
/// if both hold text; model and usage are those of `b` where it has them.
pub open spec fn joined(a: MessageView, b: MessageView) -> MessageView {
    let head = if has_text_part(a.parts) && has_text_part(b.parts) {
        a.parts.push(PartView::Text("\n\n"@))
    } else {
        a.parts
    };
    MessageView {
        parts: head + b.parts,
        model: if b.model is Some { b.model } else { a.model },
        usage: if b.usage is Some { b.usage } else { a.usage },
        ..a
    }
}

/// `h` with neighbouring plain messages of one role joined.
pub open spec fn merged(h: Seq<MessageView>) -> Seq<MessageView>
    decreases h.len(),
{
    if h.len() == 0 {
        h
    } else {
        let before = merged(h.drop_last());
        let m = h.last();
        if before.len() > 0 && joins(before.last(), m) {
            before.drop_last().push(joined(before.last(), m))
        } else {
            before.push(m)
        }
    }
}

/// Whether `m` is a user or assistant message without tool calls.
pub fn is_plain(m: &ChatMessage) -> (r: bool)
    ensures
        r == plain(m@),
{
    (same_str(&m.role, "user") || same_str(&m.role, "assistant")) && match &m.tool_calls {
        Some(c) => c.len() == 0,
        None => true,
    }
}

/// `a` with `b` joined to it.
fn join_messages(a: &ChatMessage, b: &ChatMessage) -> (r: ChatMessage)
    ensures
        r@ == joined(a@, b@),
{
    let mut r = a.copy();
    if a.has_text() && b.has_text() {
        let ghost before = parts_of(r.parts@);
        r.parts.push(ContentPart::Text { text: copy_str("\n\n") });
        assert(parts_of(r.parts@) =~= before.push(PartView::Text("\n\n"@)));
    }
    push_parts(&mut r.parts, &b.parts);
    if b.model.is_some() {
        r.model = copy_opt(&b.model);
    }
    if let Some(u) = &b.usage {
        r.usage = Some(u.copy());
    }
    r
}

/// `h` with neighbouring plain messages of one role joined.
pub fn merge_adjacent_same_role(h: &[ChatMessage]) -> (r: Vec<ChatMessage>)
    ensures
        messages_of(r@) == merged(messages_of(h@)),
{
    let ghost all = messages_of(h@);
    let mut out: Vec<ChatMessage> = Vec::new();
    let mut i: usize = 0;
    assert(messages_of(out@) =~= merged(all.take(0)));
    while i < h.len()
        invariant
            i <= h@.len(),
            all == messages_of(h@),
            messages_of(out@) == merged(all.take(i as int)),
        decreases h@.len() - i,
    {
        assert(all.take(i as int + 1).drop_last() =~= all.take(i as int));
        assert(all.take(i as int + 1).last() == h@[i as int]@);
        let ghost before = messages_of(out@);
        let n: usize = out.len();
        if n > 0 {
            assert(before.last() == out@.last()@);
        }
        if n > 0 && is_plain(&h[i]) && is_plain(&out[n - 1]) && same_str(&out[n - 1].role, &h[i].role) {
            let both = join_messages(&out[n - 1], &h[i]);
            let ghost b = both@;
            out.pop();
            assert(messages_of(out@) =~= before.drop_last());
            out.push(both);
            assert(messages_of(out@) =~= before.drop_last().push(b));
        } else {
            out.push(h[i].copy());
            assert(messages_of(out@) =~= before.push(h@[i as int]@));
        }
        i += 1;
    }
    assert(all.take(all.len() as int) =~= all);
    out
}

// ── A user message ─────────────────────────────────────────────────────────

/// Whether some message of `h` is the user's.
pub open spec fn has_user(h: Seq<MessageView>) -> bool {
    exists|i: int| 0 <= i < h.len() && (#[trigger] h[i]).role == "user"@
}

/// The message that stands for a history of which nothing is left.
pub open spec fn lost_history() -> MessageView {
    text_message(
        "user"@,
        "[CONTEXT RECOVERY] prior turns were dropped; continue from the latest request."@,
    )
}

/// The message that stands for user turns that were dropped.
pub open spec fn lost_turns() -> MessageView {
    text_message(
        "user"@,
        "[CONTEXT RECOVERY] earlier user turns were dropped to fit the context window; treat the following as prior work product and continue."@,
    )
}

/// `h`, with a recovery message put first if it holds no user message.
pub open spec fn with_user(h: Seq<MessageView>) -> Seq<MessageView> {
    if has_user(h) {
        h
    } else if h.len() == 0 {
        seq![lost_history()]
    } else {
        seq![lost_turns()] + h
    }
}

/// Puts a recovery message first if `h` holds no user message.
pub fn ensure_at_least_one_user(h: &mut Vec<ChatMessage>)
    ensures
        messages_of(final(h)@) == with_user(messages_of(old(h)@)),
{
    let mut i: usize = 0;
    while i < h.len()
        invariant
            i <= h@.len(),
            h@ == old(h)@,
            forall|k: int| 0 <= k < i ==> (#[trigger] messages_of(h@)[k]).role != "user"@,
        decreases h@.len() - i,
    {
        assert(messages_of(h@)[i as int].role == h@[i as int].role@);
        if same_str(&h[i].role, "user") {
            return;
        }
        i += 1;
    }
    if h.len() == 0 {
        let msg = ChatMessage::user_text(
            "[CONTEXT RECOVERY] prior turns were dropped; continue from the latest request.",
        );
        h.push(msg);
        assert(messages_of(h@) =~= seq![lost_history()]);
    } else {
        let ghost before = messages_of(h@);
        let msg = ChatMessage::user_text(
            "[CONTEXT RECOVERY] earlier user turns were dropped to fit the context window; treat the following as prior work product and continue.",
        );
        h.insert(0, msg);
        assert(messages_of(h@) =~= seq![lost_turns()] + before);
    }
}

// ── The whole cleaning ─────────────────────────────────────────────────────

/// A history as it may be sent to a model.
pub open spec fn sanitized(h: Seq<MessageView>) -> Seq<MessageView> {
    with_user(merged(closed(pruned(h))))
}

/// Makes a history fit to be sent to a model: drops results without a call and
/// unanswered rounds at the end, completes interrupted rounds, joins
/// neighbouring messages of one role, and sees to it that there is a user
/// message.
pub fn sanitize_history(history: &mut Vec<ChatMessage>)
    ensures
        messages_of(final(history)@) == sanitized(messages_of(old(history)@)),
{
    let mut kept = drop_orphans(history);
    drop_tail(&mut kept);
    let whole = close_interrupted_tool_rounds(&kept);
    let mut out = merge_adjacent_same_role(&whole);
    ensure_at_least_one_user(&mut out);
    *history = out;
}

// ── Messages with their ids ────────────────────────────────────────────────

/// The views of messages paired with their ids.
pub open spec fn rows_of(v: Seq<(i64, ChatMessage)>) -> Seq<(i64, MessageView)> {
    v.map_values(|p: (i64, ChatMessage)| (p.0, p.1@))
}

/// The messages of a list of rows.
pub open spec fn row_messages(v: Seq<(i64, MessageView)>) -> Seq<MessageView> {
    v.map_values(|p: (i64, MessageView)| p.1)
}

/// The ids of a list of rows.
pub open spec fn row_ids(v: Seq<(i64, MessageView)>) -> Seq<i64> {
    v.map_values(|p: (i64, MessageView)| p.0)
}

/// The rows whose message may stay beside the calls that `all` issues.
pub open spec fn belonging_rows(v: Seq<(i64, MessageView)>, all: Seq<MessageView>) -> Seq<
    (i64, MessageView),
>
    decreases v.len(),
{
    if v.len() == 0 {
        Seq::empty()
    } else {
        let before = belonging_rows(v.drop_last(), all);
        if belongs(v.last().1, all) {
            before.push(v.last())
        } else {
            before
        }
    }
}

/// `v` without the unanswered rounds at its end.
pub open spec fn rows_without_tail(v: Seq<(i64, MessageView)>, all: Seq<MessageView>) -> Seq<
    (i64, MessageView),
>
    decreases v.len(),
{
    if v.len() > 0 && unanswered(v.last().1, all) {
        rows_without_tail(v.drop_last(), all)
    } else {
        v
    }
}

/// The rows left when orphan results and the unanswered rounds at the end are
/// dropped.
pub open spec fn pruned_rows(v: Seq<(i64, MessageView)>) -> Seq<(i64, MessageView)> {
    let kept = belonging_rows(v, row_messages(v));
    rows_without_tail(kept, row_messages(kept))
}

/// The messages of a list of rows.
pub fn messages_only(rows: &Vec<(i64, ChatMessage)>) -> (r: Vec<ChatMessage>)
    ensures
        messages_of(r@) == row_messages(rows_of(rows@)),
{
    let mut r: Vec<ChatMessage> = Vec::new();
    let ghost all = row_messages(rows_of(rows@));
    let mut i: usize = 0;
    while i < rows.len()
        invariant
            i <= rows@.len(),
            all == row_messages(rows_of(rows@)),
            messages_of(r@) == all.take(i as int),
        decreases rows@.len() - i,
    {
        let ghost before = messages_of(r@);
        r.push(rows[i].1.copy());
        assert(messages_of(r@) =~= before.push(rows@[i as int].1@));
        assert(messages_of(r@) =~= all.take(i as int + 1));
        i += 1;
    }
    assert(all.take(all.len() as int) =~= all);
    r
}

/// The rows whose message answers a call that some row issues, or is no tool
/// result.
pub fn drop_orphan_rows(rows: Vec<(i64, ChatMessage)>) -> (r: Vec<(i64, ChatMessage)>)
    ensures
        rows_of(r@) == belonging_rows(rows_of(rows@), row_messages(rows_of(rows@))),
{
    let all = messages_only(&rows);
    let ghost view = rows_of(rows@);
    let mut r: Vec<(i64, ChatMessage)> = Vec::new();
    let mut i: usize = 0;
    assert(rows_of(r@) =~= belonging_rows(view.take(0), messages_of(all@)));
    while i < rows.len()
        invariant
            i <= rows@.len(),
            view == rows_of(rows@),
            messages_of(all@) == row_messages(view),
            rows_of(r@) == belonging_rows(view.take(i as int), messages_of(all@)),
        decreases rows@.len() - i,
    {
        assert(view.take(i as int + 1).drop_last() =~= view.take(i as int));
        assert(view.take(i as int + 1).last() == (rows@[i as int].0, rows@[i as int].1@));
        if may_stay(&rows[i].1, &all) {
            let ghost before = rows_of(r@);
            r.push((rows[i].0, rows[i].1.copy()));
            assert(rows_of(r@) =~= before.push((rows@[i as int].0, rows@[i as int].1@)));
        }
        i += 1;
    }
    assert(view.take(view.len() as int) =~= view);
    r
}

/// Drops orphan results and the unanswered rounds at the end, keeping each id
/// with its message.
pub fn sanitize_paired(pairs: Vec<(i64, ChatMessage)>) -> (r: Vec<(i64, ChatMessage)>)
    ensures
        rows_of(r@) == pruned_rows(rows_of(pairs@)),
{
    let ghost given = rows_of(pairs@);
    let mut r = drop_orphan_rows(pairs);
    let all = messages_only(&r);
    let ghost kept = rows_of(r@);
    while r.len() > 0 && is_unanswered(&r[r.len() - 1].1, &all)
        invariant
            messages_of(all@) == row_messages(kept),
            rows_without_tail(rows_of(r@), messages_of(all@)) == rows_without_tail(
                kept,
                messages_of(all@),
            ),
        decreases r@.len(),
    {
        let ghost before = rows_of(r@);
        assert(before.last() == (r@.last().0, r@.last().1@));
        r.pop();
        assert(rows_of(r@) =~= before.drop_last());
    }
    proof {
        if r@.len() > 0 {
            assert(rows_of(r@).last() == (r@.last().0, r@.last().1@));
        }
    }
    r
}

} // verus!
