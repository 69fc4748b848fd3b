//! Small decisions about a turn.

use vstd::prelude::*;

use crate::session::chat::{messages_of, ChatMessage, MessageView};
use crate::session::session_override::is_round_start;
use crate::session::types::{ends_open, same_but_log, Session};
use crate::text::{same_str, trim_str, trimmed};

verus! {

/// Whether a text asks to go on, and says nothing else.
pub open spec fn bare_continue(text: Seq<char>) -> bool {
    let t = trimmed(text);
    ||| t == "继续"@
    ||| t == "繼續"@
    ||| t == "接着"@
    ||| t == "接着做"@
    ||| t == "接着来"@
    ||| t == "接着说"@
    ||| t == "继续吧"@
    ||| t == "继续啊"@
    ||| t == "继续。"@
    ||| t == "继续！"@
    ||| t == "continue"@
    ||| t == "Continue"@
    ||| t == "CONTINUE"@
    ||| t == "go on"@
    ||| t == "Go on"@
    ||| t == "keep going"@
    ||| t == "Keep going"@
}

/// Whether a text asks to go on, and says nothing else.
pub fn is_bare_continue(text: &str) -> (r: bool)
    ensures
        r == bare_continue(text@),
{
    let t = trim_str(text);
    same_str(&t, "继续") || same_str(&t, "繼續") || same_str(&t, "接着") || same_str(&t, "接着做")
        || same_str(&t, "接着来") || same_str(&t, "接着说") || same_str(&t, "继续吧")
        || same_str(&t, "继续啊") || same_str(&t, "继续。") || same_str(&t, "继续！")
        || same_str(&t, "continue") || same_str(&t, "Continue") || same_str(&t, "CONTINUE")
        || same_str(&t, "go on") || same_str(&t, "Go on") || same_str(&t, "keep going")
        || same_str(&t, "Keep going")
}

/// Whether a history ends within a turn.
pub fn history_looks_incomplete(history: &[ChatMessage]) -> (r: bool)
    ensures
        r == ends_open(messages_of(history@)),
{
    let n: usize = history.len();
    if n == 0 {
        return false;
    }
    assert(messages_of(history@).last() == history@.last()@);
    same_str(&history[n - 1].role, "user") || same_str(&history[n - 1].role, "tool")
        || is_round_start(&history[n - 1])
}

/// The view of an optional message.
pub open spec fn opt_message(m: Option<ChatMessage>) -> Option<MessageView> {
    match m {
        Some(v) => Some(v@),
        None => None,
    }
}

/// The views of a list of optional messages.
pub open spec fn opt_messages(v: Seq<Option<ChatMessage>>) -> Seq<Option<MessageView>> {
    v.map_values(|m: Option<ChatMessage>| opt_message(m))
}

/// `h` with its user messages replaced where there is an aged version.
pub open spec fn aged_log(h: Seq<MessageView>, aged: Seq<Option<MessageView>>) -> Seq<MessageView> {
    h.map(
        |i: int, m: MessageView|
            if m.role == "user"@ && aged[i] is Some {
                aged[i]->0
            } else {
                m
            },
    )
}

/// The indices below `n` of the messages that changed and are stored.
pub open spec fn aged_stored(
    h: Seq<MessageView>,
    ids: Seq<i64>,
    aged: Seq<Option<MessageView>>,
    n: nat,
) -> Seq<usize>
    decreases n,
{
    if n == 0 {
        Seq::empty()
    } else {
        let before = aged_stored(h, ids, aged, (n - 1) as nat);
        if h[n - 1].role == "user"@ && aged[n - 1] is Some && ids[n - 1] > 0 {
            before.push((n - 1) as usize)
        } else {
            before
        }
    }
}

/// Puts the aged versions of user messages, in which markers stand for files,
/// into the conversation. `aged` holds a version for each message that has one.
/// Returns the indices of the messages whose stored version is to be replaced.
pub fn age_session_media(session: &mut Session, aged: Vec<Option<ChatMessage>>) -> (r: Vec<usize>)
    requires
        old(session).wf(),
        aged@.len() == old(session).log().len(),
    ensures
        final(session).wf(),
        same_but_log(*old(session), *final(session)),
        final(session).log() == aged_log(old(session).log(), opt_messages(aged@)),
        final(session).message_ids@ == old(session).message_ids@,
        r@ == aged_stored(
            old(session).log(),
            old(session).message_ids@,
            opt_messages(aged@),
            old(session).log().len(),
        ),
{
    let ghost h = session.log();
    let ghost versions = opt_messages(aged@);
    let ghost ids = session.message_ids@;
    let mut r: Vec<usize> = Vec::new();
    let mut i: usize = 0;
    while i < session.history.len()
        invariant
            i <= session.history@.len(),
            session.wf(),
            h == old(session).log(),
            h.len() == session.history@.len(),
            versions == opt_messages(aged@),
            aged@.len() == h.len(),
            ids == old(session).message_ids@,
            session.message_ids@ == ids,
            same_but_log(*old(session), *session),
            forall|k: int| 0 <= k < i ==> session.log()[k] == aged_log(h, versions)[k],
            forall|k: int| i <= k < h.len() ==> session.log()[k] == h[k],
            r@ == aged_stored(h, ids, versions, i as nat),
        decreases session.history@.len() - i,
    {
        assert(session.log()[i as int] == session.history@[i as int]@);
        assert(versions[i as int] == opt_message(aged@[i as int]));
        let ghost before = session.log();
        if same_str(&session.history[i].role, "user") {
            if let Some(m) = &aged[i] {
                let m2 = m.copy();
                let ghost v = m2@;
                session.history.set(i, m2);
                assert(session.log() =~= before.update(i as int, v));
                if session.message_ids[i] > 0 {
                    r.push(i);
                }
            }
        }
        i += 1;
    }
    assert(session.log() =~= aged_log(h, versions));
    r
}

} // verus!
