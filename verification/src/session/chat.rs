//! Chat messages: the conversation as providers see it.

use vstd::prelude::*;

use crate::text::{copy_opt, copy_str, opt_text};

verus! {

/// Why a model stopped producing output.
#[derive(Clone, Copy, Debug, PartialEq, Eq, Structural)]
pub enum StopReason {
    EndTurn,
    ToolUse,
    MaxTokens,
    ContextOverflow,
    /// The turn goes on although the model ended its output.
    Continue,
}

/// A tool call issued by an assistant message.
#[derive(Debug, Clone)]
pub struct ToolCall {
    pub id: String,
    pub name: String,
    /// JSON-encoded arguments.
    pub arguments: String,
}

pub struct CallView {
    pub id: Seq<char>,
    pub name: Seq<char>,
    pub arguments: Seq<char>,
}

impl View for ToolCall {
    type V = CallView;

    open spec fn view(&self) -> CallView {
        CallView { id: self.id@, name: self.name@, arguments: self.arguments@ }
    }
}

impl ToolCall {
    pub fn copy(&self) -> (r: ToolCall)
        ensures
            r@ == self@,
    {
        ToolCall {
            id: self.id.clone(),
            name: self.name.clone(),
            arguments: self.arguments.clone(),
        }
    }
}

/// The views of a list of calls.
pub open spec fn calls_of(v: Seq<ToolCall>) -> Seq<CallView> {
    v.map_values(|c: ToolCall| c@)
}

/// A copy of a list of calls.
pub fn copy_calls(v: &Vec<ToolCall>) -> (r: Vec<ToolCall>)
    ensures
        calls_of(r@) == calls_of(v@),
{
    let mut r: Vec<ToolCall> = Vec::new();
    let mut i: usize = 0;
    while i < v.len()
        invariant
            i <= v@.len(),
            calls_of(r@) == calls_of(v@).take(i as int),
        decreases v@.len() - i,
    {
        let ghost before = calls_of(r@);
        r.push(v[i].copy());
        assert(calls_of(r@) =~= before.push(v@[i as int]@));
        assert(calls_of(r@) =~= calls_of(v@).take(i as int + 1));
        i += 1;
    }
    assert(calls_of(v@).take(v@.len() as int) =~= calls_of(v@));
    r
}

/// One part of a message.
#[derive(Debug, Clone)]
pub enum ContentPart {
    Text { text: String },
    Thinking { thinking: String, signature: Option<String> },
    File { path: String, mime_type: Option<String>, name: Option<String>, size_bytes: Option<u64> },
}

pub enum PartView {
    Text(Seq<char>),
    Thinking(Seq<char>, Option<Seq<char>>),
    File(Seq<char>, Option<Seq<char>>, Option<Seq<char>>, Option<u64>),
}

impl View for ContentPart {
    type V = PartView;

    open spec fn view(&self) -> PartView {
        match self {
            ContentPart::Text { text } => PartView::Text(text@),
            ContentPart::Thinking { thinking, signature } => PartView::Thinking(
                thinking@,
                opt_text(*signature),
            ),
            ContentPart::File { path, mime_type, name, size_bytes } => PartView::File(
                path@,
                opt_text(*mime_type),
                opt_text(*name),
                *size_bytes,
            ),
        }
    }
}

impl ContentPart {
    pub fn copy(&self) -> (r: ContentPart)
        ensures
            r@ == self@,
    {
        match self {
            ContentPart::Text { text } => ContentPart::Text { text: text.clone() },
            ContentPart::Thinking { thinking, signature } => ContentPart::Thinking {
                thinking: thinking.clone(),
                signature: copy_opt(signature),
            },
            ContentPart::File { path, mime_type, name, size_bytes } => ContentPart::File {
                path: path.clone(),
                mime_type: copy_opt(mime_type),
                name: copy_opt(name),
                size_bytes: *size_bytes,
            },
        }
    }
}

/// The views of a list of parts.
pub open spec fn parts_of(v: Seq<ContentPart>) -> Seq<PartView> {
    v.map_values(|p: ContentPart| p@)
}

/// A copy of a list of parts.
pub fn copy_parts(v: &Vec<ContentPart>) -> (r: Vec<ContentPart>)
    ensures
        parts_of(r@) == parts_of(v@),
{
    let mut r: Vec<ContentPart> = Vec::new();
    push_parts(&mut r, v);
    assert(parts_of(r@) =~= parts_of(v@));
    r
}

/// Appends copies of the parts of `v`.
pub fn push_parts(r: &mut Vec<ContentPart>, v: &Vec<ContentPart>)
    ensures
        parts_of(final(r)@) == parts_of(old(r)@) + parts_of(v@),
{
    let mut i: usize = 0;
    assert(parts_of(r@) =~= parts_of(r@) + parts_of(v@).take(0));
    while i < v.len()
        invariant
            i <= v@.len(),
            parts_of(r@) == parts_of(old(r)@) + parts_of(v@).take(i as int),
        decreases v@.len() - i,
    {
        let ghost before = parts_of(r@);
        r.push(v[i].copy());
        assert(parts_of(r@) =~= before.push(v@[i as int]@));
        assert(parts_of(r@) =~= parts_of(old(r)@) + parts_of(v@).take(i as int + 1));
        i += 1;
    }
    assert(parts_of(v@).take(v@.len() as int) =~= parts_of(v@));
}

/// What a provider reported of the request that made a message.
#[derive(Debug, Clone)]
pub struct ChatMessageUsage {
    pub input_tokens: u64,
    pub output_tokens: u64,
    pub stop_reason: Option<String>,
}

pub struct UsageView {
    pub input_tokens: u64,
    pub output_tokens: u64,
    pub stop_reason: Option<Seq<char>>,
}

impl View for ChatMessageUsage {
    type V = UsageView;

    open spec fn view(&self) -> UsageView {
        UsageView {
            input_tokens: self.input_tokens,
            output_tokens: self.output_tokens,
            stop_reason: opt_text(self.stop_reason),
        }
    }
}

impl ChatMessageUsage {
    pub fn copy(&self) -> (r: ChatMessageUsage)
        ensures
            r@ == self@,
    {
        ChatMessageUsage {
            input_tokens: self.input_tokens,
            output_tokens: self.output_tokens,
            stop_reason: copy_opt(&self.stop_reason),
        }
    }
}

/// The view of an optional usage report.
pub open spec fn opt_usage(o: Option<ChatMessageUsage>) -> Option<UsageView> {
    match o {
        Some(u) => Some(u@),
        None => None,
    }
}

/// The view of an optional list of calls.
pub open spec fn opt_calls(o: Option<Vec<ToolCall>>) -> Option<Seq<CallView>> {
    match o {
        Some(v) => Some(calls_of(v@)),
        None => None,
    }
}

/// One message of a conversation.
#[derive(Debug, Clone)]
pub struct ChatMessage {
    /// "user", "assistant", "tool" or "system".
    pub role: String,
    pub parts: Vec<ContentPart>,
    pub name: Option<String>,
    pub tool_call_id: Option<String>,
    pub tool_calls: Option<Vec<ToolCall>>,
    pub is_error: Option<bool>,
    pub model: Option<String>,
    pub usage: Option<ChatMessageUsage>,
}

pub struct MessageView {
    pub role: Seq<char>,
    pub parts: Seq<PartView>,
    pub name: Option<Seq<char>>,
    pub tool_call_id: Option<Seq<char>>,
    pub tool_calls: Option<Seq<CallView>>,
    pub is_error: Option<bool>,
    pub model: Option<Seq<char>>,
    pub usage: Option<UsageView>,
}

impl View for ChatMessage {
    type V = MessageView;

    open spec fn view(&self) -> MessageView {
        MessageView {
            role: self.role@,
            parts: parts_of(self.parts@),
            name: opt_text(self.name),
            tool_call_id: opt_text(self.tool_call_id),
            tool_calls: opt_calls(self.tool_calls),
            is_error: self.is_error,
            model: opt_text(self.model),
            usage: opt_usage(self.usage),
        }
    }
}

/// The views of a list of messages.
pub open spec fn messages_of(v: Seq<ChatMessage>) -> Seq<MessageView> {
    v.map_values(|m: ChatMessage| m@)
}

/// A message of the given role whose only part is `text`.
pub open spec fn text_message(role: Seq<char>, text: Seq<char>) -> MessageView {
    MessageView {
        role,
        parts: seq![PartView::Text(text)],
        name: None,
        tool_call_id: None,
        tool_calls: None,
        is_error: None,
        model: None,
        usage: None,
    }
}

/// The result of a tool call.
pub open spec fn tool_message(
    id: Seq<char>,
    name: Seq<char>,
    text: Seq<char>,
    is_error: bool,
) -> MessageView {
    MessageView {
        name: Some(name),
        tool_call_id: Some(id),
        is_error: Some(is_error),
        ..text_message("tool"@, text)
    }
}

/// The texts of the text parts, one after the other.
pub open spec fn text_of_parts(parts: Seq<PartView>) -> Seq<char>
    decreases parts.len(),
{
    if parts.len() == 0 {
        Seq::empty()
    } else {
        let before = text_of_parts(parts.drop_last());
        match parts.last() {
            PartView::Text(t) => before + t,
            _ => before,
        }
    }
}

/// Whether some text part is not empty.
pub open spec fn has_text_part(parts: Seq<PartView>) -> bool {
    exists|i: int| 0 <= i < parts.len() && (#[trigger] parts[i] matches PartView::Text(t) && t.len() > 0)
}

impl ChatMessage {
    /// A message of the given role whose only part is `text`.
    pub fn text(role: &str, text: &str) -> (r: ChatMessage)
        ensures
            r@ == text_message(role@, text@),
    {
        let mut parts: Vec<ContentPart> = Vec::new();
        parts.push(ContentPart::Text { text: copy_str(text) });
        let r = ChatMessage {
            role: copy_str(role),
            parts,
            name: None,
            tool_call_id: None,
            tool_calls: None,
            is_error: None,
            model: None,
            usage: None,
        };
        assert(r@.parts =~= seq![PartView::Text(text@)]);
        r
    }

    pub fn user_text(text: &str) -> (r: ChatMessage)
        ensures
            r@ == text_message("user"@, text@),
    {
        ChatMessage::text("user", text)
    }

    pub fn assistant_text(text: &str) -> (r: ChatMessage)
        ensures
            r@ == text_message("assistant"@, text@),
    {
        ChatMessage::text("assistant", text)
    }

    pub fn system_text(text: &str) -> (r: ChatMessage)
        ensures
            r@ == text_message("system"@, text@),
    {
        ChatMessage::text("system", text)
    }

    /// The result of a tool call.
    pub fn tool_result(id: &str, name: &str, text: &str, is_error: bool) -> (r: ChatMessage)
        ensures
            r@ == tool_message(id@, name@, text@, is_error),
    {
        let mut msg = ChatMessage::text("tool", text);
        msg.tool_call_id = Some(copy_str(id));
        msg.name = Some(copy_str(name));
        msg.is_error = Some(is_error);
        msg
    }

    /// The texts of the text parts, one after the other.
    pub fn text_content(&self) -> (r: String)
        ensures
            r@ == text_of_parts(self@.parts),
    {
        let mut r = String::new();
        let mut i: usize = 0;
        let ghost all = parts_of(self.parts@);
        assert(r@ =~= text_of_parts(all.take(0)));
        while i < self.parts.len()
            invariant
                i <= self.parts@.len(),
                all == parts_of(self.parts@),
                r@ == text_of_parts(all.take(i as int)),
            decreases self.parts@.len() - i,
        {
            assert(all.take(i as int + 1).drop_last() =~= all.take(i as int));
            assert(all.take(i as int + 1).last() == self.parts@[i as int]@);
            if let ContentPart::Text { text } = &self.parts[i] {
                r.append(text.as_str());
            }
            i += 1;
        }
        assert(all.take(all.len() as int) =~= all);
        r
    }

    /// Whether some text part is not empty.
    pub fn has_text(&self) -> (r: bool)
        ensures
            r == has_text_part(self@.parts),
    {
        let mut i: usize = 0;
        while i < self.parts.len()
            invariant
                i <= self.parts@.len(),
                forall|j: int|
                    0 <= j < i ==> !(#[trigger] self@.parts[j] matches PartView::Text(t) && t.len()
                        > 0),
            decreases self.parts@.len() - i,
        {
            assert(self@.parts[i as int] == self.parts@[i as int]@);
            if let ContentPart::Text { text } = &self.parts[i] {
                if !text.as_str().is_empty() {
                    return true;
                }
            }
            i += 1;
        }
        false
    }

    pub fn copy(&self) -> (r: ChatMessage)
        ensures
            r@ == self@,
    {
        ChatMessage {
            role: self.role.clone(),
            parts: copy_parts(&self.parts),
            name: copy_opt(&self.name),
            tool_call_id: copy_opt(&self.tool_call_id),
            tool_calls: match &self.tool_calls {
                Some(c) => Some(copy_calls(c)),
                None => None,
            },
            is_error: self.is_error,
            model: copy_opt(&self.model),
            usage: match &self.usage {
                Some(u) => Some(u.copy()),
                None => None,
            },
        }
    }
}

/// A copy of a list of messages.
pub fn copy_messages(v: &[ChatMessage]) -> (r: Vec<ChatMessage>)
    ensures
        messages_of(r@) == messages_of(v@),
{
    let mut r: Vec<ChatMessage> = Vec::new();
    let mut i: usize = 0;
    while i < v.len()
        invariant
            i <= v@.len(),
            messages_of(r@) == messages_of(v@).take(i as int),
        decreases v@.len() - i,
    {
        let ghost before = messages_of(r@);
        r.push(v[i].copy());
        assert(messages_of(r@) =~= before.push(v@[i as int]@));
        assert(messages_of(r@) =~= messages_of(v@).take(i as int + 1));
        i += 1;
    }
    assert(messages_of(v@).take(v@.len() as int) =~= messages_of(v@));
    r
}

} // verus!
