//! Messages that are kept in a file while no process runs to take them.

use vstd::prelude::*;

use crate::session::chat::{messages_of, ChatMessage, MessageView};
use crate::split::{lines_of, slices, split_lines};
use crate::text::{chars_of, copy_str, string_of, texts, trim, trimmed};

verus! {

/// `b` below the directory `a`, as a Unix path: an absolute `b` stands for
/// itself.
pub open spec fn path_below(a: Seq<char>, b: Seq<char>) -> Seq<char> {
    if b.len() > 0 && b[0] == '/' {
        b
    } else if a.len() == 0 || a.last() == '/' {
        a + b
    } else {
        a + "/"@ + b
    }
}

/// `b` below the directory `a`.
pub fn join_path(a: &str, b: &str) -> (r: String)
    ensures
        r@ == path_below(a@, b@),
{
    let x = chars_of(a);
    let y = chars_of(b);
    if y.len() > 0 && y[0] == '/' {
        return copy_str(b);
    }
    let mut r = copy_str(a);
    if !(x.len() == 0 || x[x.len() - 1] == '/') {
        r.append("/");
    }
    r.append(b);
    assert(r@ =~= path_below(a@, b@));
    r
}

/// The file in which the messages of a session are kept.
pub fn get_session_queue_path(sessions_dir: &str, session_id: &str) -> (r: String)
    ensures
        r@ == path_below(path_below(sessions_dir@, session_id@), "queue.jsonl"@),
{
    let dir = join_path(sessions_dir, session_id);
    join_path(&dir, "queue.jsonl")
}

/// The line that keeps a message.
pub fn queue_line(json: &str) -> (r: String)
    ensures
        r@ == json@ + "\n"@,
{
    let mut r = copy_str(json);
    r.append("\n");
    r
}

/// The lines that are not blank.
pub open spec fn filled_lines(lines: Seq<Seq<char>>) -> Seq<Seq<char>>
    decreases lines.len(),
{
    if lines.len() == 0 {
        lines
    } else {
        let before = filled_lines(lines.drop_last());
        if trimmed(lines.last()).len() > 0 {
            before.push(lines.last())
        } else {
            before
        }
    }
}

/// The lines of a file of kept messages that hold one.
pub fn queued_lines(content: &str) -> (r: Vec<String>)
    ensures
        texts(r@) == filled_lines(lines_of(content@)),
{
    let v = chars_of(content);
    let lines = split_lines(&v);
    let ghost all = slices(lines@);
    let mut r: Vec<String> = Vec::new();
    let mut i: usize = 0;
    assert(texts(r@) =~= filled_lines(all.take(0)));
    while i < lines.len()
        invariant
            i <= lines@.len(),
            all == slices(lines@),
            texts(r@) == filled_lines(all.take(i as int)),
        decreases lines@.len() - i,
    {
        assert(all.take(i as int + 1).drop_last() =~= all.take(i as int));
        assert(all.take(i as int + 1).last() == lines@[i as int]@);
        if trim(lines[i]).len() > 0 {
            let ghost before = texts(r@);
            let s = string_of(lines[i]);
            let ghost t = s@;
            r.push(s);
            assert(texts(r@) =~= before.push(t));
        }
        i += 1;
    }
    assert(all.take(all.len() as int) =~= all);
    r
}

/// The messages that could be read, in their order.
pub open spec fn readable(parsed: Seq<Option<ChatMessage>>) -> Seq<MessageView>
    decreases parsed.len(),
{
    if parsed.len() == 0 {
        Seq::empty()
    } else {
        let before = readable(parsed.drop_last());
        match parsed.last() {
            Some(m) => before.push(m@),
            None => before,
        }
    }
}

/// The messages of the lines that spell one; the others are left out.
pub fn readable_messages(parsed: Vec<Option<ChatMessage>>) -> (r: Vec<ChatMessage>)
    ensures
        messages_of(r@) == readable(parsed@),
{
    let mut r: Vec<ChatMessage> = Vec::new();
    let mut i: usize = 0;
    assert(messages_of(r@) =~= readable(parsed@.take(0)));
    while i < parsed.len()
        invariant
            i <= parsed@.len(),
            messages_of(r@) == readable(parsed@.take(i as int)),
        decreases parsed@.len() - i,
    {
        assert(parsed@.take(i as int + 1).drop_last() =~= parsed@.take(i as int));
        if let Some(m) = &parsed[i] {
            let ghost before = messages_of(r@);
            r.push(m.copy());
            assert(messages_of(r@) =~= before.push(m@));
        }
        i += 1;
    }
    assert(parsed@.take(parsed@.len() as int) =~= parsed@);
    r
}

/// The lines that keep messages are read back as they were written, in their
/// order, if no message spans lines.
pub proof fn law_queued_line_is_read_back(json: Seq<char>)
    requires
        trimmed(json).len() > 0,
        !json.contains('\n'),
        json.last() != '\r',
    ensures
        filled_lines(lines_of(json + "\n"@)) == seq![json],
{
    reveal_strlit("\n");
    let s = json + "\n"@;
    assert(json.len() > 0) by {
        if json.len() == 0 {
            assert(trimmed(json).len() == 0);
        }
    }
    assert forall|j: int| 0 <= j < json.len() implies s[j] != '\n' by {
        assert(s[j] == json[j]);
    }
    assert(s[json.len() as int] == '\n');
    crate::text::lemma_first_at(s, '\n', json.len() as int);
    assert(s.take(json.len() as int) =~= json);
    assert(s.skip(json.len() as int + 1) =~= Seq::<char>::empty());
    assert(lines_of(s.skip(json.len() as int + 1)) =~= Seq::<Seq<char>>::empty());
    assert(lines_of(s) =~= seq![json]);
    assert(seq![json].drop_last() =~= Seq::<Seq<char>>::empty());
    reveal_with_fuel(filled_lines, 2);
    assert(filled_lines(seq![json]) =~= seq![json]);
}

} // verus!
