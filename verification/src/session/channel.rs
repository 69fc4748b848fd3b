//! Messages as they come in from a channel and go out to it.

use vstd::prelude::*;

use crate::session::session_override::RunMode;
use crate::text::{copy_opt, copy_str, opt_text};

verus! {

/// Where a message goes.
#[derive(Debug, Clone)]
pub struct MessageReceiver {
    pub id: String,
    pub reply_to_message_id: Option<String>,
    pub thread_id: Option<String>,
}

impl MessageReceiver {
    pub fn copy(&self) -> (r: MessageReceiver)
        ensures
            r == *self,
    {
        MessageReceiver {
            id: self.id.clone(),
            reply_to_message_id: copy_opt(&self.reply_to_message_id),
            thread_id: copy_opt(&self.thread_id),
        }
    }
}

/// A file attached to an incoming message.
#[derive(Debug, Clone)]
pub struct InboundFile {
    pub file_name: String,
    pub mime_type: Option<String>,
    pub size_bytes: Option<u64>,
}

/// A message as a channel delivers it.
#[derive(Debug, Clone)]
pub struct ChannelInboundMessage {
    pub id: String,
    pub sender: String,
    pub receiver: MessageReceiver,
    pub text: String,
    pub files: Vec<InboundFile>,
    pub timestamp: i64,
    /// Set on delegation notices only: whether the turn stays quiet.
    pub silenced_override: Option<bool>,
    pub run_mode: RunMode,
}

/// What is kept of an incoming message: its text and its routing.
#[derive(Debug, Clone)]
pub struct PersistedChannelMessage {
    pub id: String,
    pub sender: String,
    pub receiver: MessageReceiver,
    pub text: String,
    pub timestamp: i64,
}

/// What is kept of an incoming message.
pub open spec fn kept_of(m: ChannelInboundMessage) -> PersistedChannelMessage {
    PersistedChannelMessage {
        id: m.id,
        sender: m.sender,
        receiver: m.receiver,
        text: m.text,
        timestamp: m.timestamp,
    }
}

impl ChannelInboundMessage {
    /// What is kept of the message; its files are not.
    pub fn to_persisted(&self) -> (r: PersistedChannelMessage)
        ensures
            r == kept_of(*self),
    {
        PersistedChannelMessage {
            id: self.id.clone(),
            sender: self.sender.clone(),
            receiver: self.receiver.copy(),
            text: self.text.clone(),
            timestamp: self.timestamp,
        }
    }
}

impl PersistedChannelMessage {
    pub fn copy(&self) -> (r: PersistedChannelMessage)
        ensures
            r == *self,
    {
        PersistedChannelMessage {
            id: self.id.clone(),
            sender: self.sender.clone(),
            receiver: self.receiver.copy(),
            text: self.text.clone(),
            timestamp: self.timestamp,
        }
    }
}

/// The message that a reply refers to: the one the last message referred to, or
/// else the last message itself.
pub open spec fn replied_to(last: Option<PersistedChannelMessage>) -> Option<Seq<char>> {
    match last {
        Some(m) => match m.receiver.reply_to_message_id {
            Some(id) => Some(id@),
            None => Some(m.id@),
        },
        None => None,
    }
}

/// The thread of the last message.
pub open spec fn thread_of(last: Option<PersistedChannelMessage>) -> Option<Seq<char>> {
    match last {
        Some(m) => opt_text(m.receiver.thread_id),
        None => None,
    }
}

/// The receiver of a reply to `target`, in the thread of the last message.
pub fn reply_receiver(target: &str, last: Option<&PersistedChannelMessage>) -> (r: MessageReceiver)
    ensures
        r.id@ == target@,
        opt_text(r.reply_to_message_id) == replied_to(
            match last {
                Some(m) => Some(*m),
                None => None,
            },
        ),
        opt_text(r.thread_id) == thread_of(
            match last {
                Some(m) => Some(*m),
                None => None,
            },
        ),
{
    match last {
        Some(m) => MessageReceiver {
            id: copy_str(target),
            reply_to_message_id: match &m.receiver.reply_to_message_id {
                Some(id) => Some(id.clone()),
                None => Some(m.id.clone()),
            },
            thread_id: copy_opt(&m.receiver.thread_id),
        },
        None => MessageReceiver {
            id: copy_str(target),
            reply_to_message_id: None,
            thread_id: None,
        },
    }
}

} // verus!
