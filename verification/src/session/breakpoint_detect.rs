//! Breakpoints: tool calls that were issued and never got a result.

use vstd::prelude::*;

use crate::session::chat::{calls_of, messages_of, CallView, ChatMessage, MessageView, ToolCall};
use crate::session::session_override::{
    answers, declares, has_call, is_answer, is_round_start, opens_round,
};
use crate::text::same_str;
use crate::text_map::TextMap;

verus! {

/// A tool call that was issued but never received a result.
#[derive(Debug, Clone)]
pub struct BreakpointItem {
    pub tool_call_id: String,
    pub tool_name: String,
    /// JSON-encoded arguments.
    pub arguments: String,
}

impl View for BreakpointItem {
    type V = CallView;

    open spec fn view(&self) -> CallView {
        CallView { id: self.tool_call_id@, name: self.tool_name@, arguments: self.arguments@ }
    }
}

/// The views of a list of breakpoints.
pub open spec fn breaks_of(v: Seq<BreakpointItem>) -> Seq<CallView> {
    v.map_values(|b: BreakpointItem| b@)
}

/// A `sessions_yield` call that waits for its result.
#[derive(Debug, Clone)]
pub struct PendingYield {
    pub tool_call_id: String,
    /// Whether the call was made up at the end of a turn that left work running.
    pub implicit: bool,
}

/// `p` with the calls issued on top.
pub open spec fn with_issued(p: Map<Seq<char>, CallView>, calls: Seq<CallView>) -> Map<
    Seq<char>,
    CallView,
>
    decreases calls.len(),
{
    if calls.len() == 0 {
        p
    } else {
        with_issued(p, calls.drop_last()).insert(calls.last().id, calls.last())
    }
}

/// The pending calls after one more message.
pub open spec fn pending_after(p: Map<Seq<char>, CallView>, m: MessageView) -> Map<
    Seq<char>,
    CallView,
> {
    if m.role == "assistant"@ {
        match m.tool_calls {
            Some(c) => with_issued(p, c),
            None => p,
        }
    } else if m.role == "tool"@ {
        match m.tool_call_id {
            Some(id) => p.remove(id),
            None => p,
        }
    } else {
        p
    }
}

/// The calls of `h` that have no result yet, by id.
pub open spec fn pending_calls(h: Seq<MessageView>) -> Map<Seq<char>, CallView>
    decreases h.len(),
{
    if h.len() == 0 {
        Map::empty()
    } else {
        pending_after(pending_calls(h.drop_last()), h.last())
    }
}

/// Whether `items` lists the calls of `p`, each once, in some order.
pub open spec fn lists(items: Seq<CallView>, p: Map<Seq<char>, CallView>) -> bool {
    &&& forall|i: int, j: int|
        0 <= i < j < items.len() ==> (#[trigger] items[i]).id != (#[trigger] items[j]).id
    &&& forall|i: int|
        0 <= i < items.len() ==> p.contains_key((#[trigger] items[i]).id) && p[items[i].id]
            == items[i]
    &&& forall|id: Seq<char>| #[trigger]
        p.contains_key(id) ==> exists|i: int|
            0 <= i < items.len() && (#[trigger] items[i]).id == id
}

/// What the calls of a table stand for.
spec fn table_calls(t: Map<Seq<char>, ToolCall>) -> Map<Seq<char>, CallView> {
    t.map_values(|c: ToolCall| c@)
}

/// Enters calls into the table of pending calls.
fn issue(t: &mut TextMap<ToolCall>, calls: &Vec<ToolCall>)
    requires
        old(t).wf(),
    ensures
        final(t).wf(),
        table_calls(final(t)@) == with_issued(table_calls(old(t)@), calls_of(calls@)),
{
    let ghost all = calls_of(calls@);
    let mut i: usize = 0;
    assert(all.take(0) =~= Seq::<CallView>::empty());
    while i < calls.len()
        invariant
            i <= calls@.len(),
            t.wf(),
            all == calls_of(calls@),
            table_calls(t@) == with_issued(table_calls(old(t)@), all.take(i as int)),
        decreases calls@.len() - i,
    {
        let ghost before = t@;
        let c = calls[i].copy();
        let ghost v = c;
        t.insert(calls[i].id.clone(), c);
        assert(table_calls(t@) =~= table_calls(before).insert(calls@[i as int].id@, v@));
        assert(all.take(i as int + 1).drop_last() =~= all.take(i as int));
        assert(all.take(i as int + 1).last() == calls@[i as int]@);
        i += 1;
    }
    assert(all.take(all.len() as int) =~= all);
}

/// The tool calls of a conversation that have no result, in no promised order.
pub fn identify_breakpoint(messages: &[ChatMessage]) -> (r: Vec<BreakpointItem>)
    ensures
        lists(breaks_of(r@), pending_calls(messages_of(messages@))),
{
    let ghost all = messages_of(messages@);
    let mut t: TextMap<ToolCall> = TextMap::new();
    let mut i: usize = 0;
    assert(table_calls(t@) =~= Map::<Seq<char>, CallView>::empty());
    assert(all.take(0) =~= Seq::<MessageView>::empty());
    while i < messages.len()
        invariant
            i <= messages@.len(),
            t.wf(),
            all == messages_of(messages@),
            table_calls(t@) == pending_calls(all.take(i as int)),
        decreases messages@.len() - i,
    {
        let m = &messages[i];
        assert(all.take(i as int + 1).drop_last() =~= all.take(i as int));
        assert(all.take(i as int + 1).last() == m@);
        if same_str(&m.role, "assistant") {
            if let Some(calls) = &m.tool_calls {
                issue(&mut t, calls);
            }
        } else if same_str(&m.role, "tool") {
            if let Some(id) = &m.tool_call_id {
                let ghost before = t@;
                let _ = t.remove(id);
                assert(table_calls(t@) =~= table_calls(before).remove(id@));
            }
        }
        i += 1;
    }
    assert(all.take(all.len() as int) =~= all);
    let ghost p = pending_calls(all);
    proof {
        t.lemma_rows();
    }
    let mut r: Vec<BreakpointItem> = Vec::new();
    let mut k: usize = 0;
    while k < t.len()
        invariant
            k <= t.rows().len(),
            t.wf(),
            table_calls(t@) == p,
            r@.len() == k,
            forall|i: int|
                0 <= i < t.rows().len() ==> t@.dom().contains((#[trigger] t.rows()[i]).0@)
                    && t@[t.rows()[i].0@] == t.rows()[i].1,
            forall|i: int|
                0 <= i < k ==> (#[trigger] breaks_of(r@)[i]) == (CallView {
                    id: t.rows()[i].0@,
                    ..t.rows()[i].1@
                }),
        decreases t.rows().len() - k,
    {
        let c = t.value_at(k);
        let ghost before = breaks_of(r@);
        r.push(
            BreakpointItem {
                tool_call_id: t.key_at(k).clone(),
                tool_name: c.name.clone(),
                arguments: c.arguments.clone(),
            },
        );
        assert(breaks_of(r@) =~= before.push(breaks_of(r@)[k as int]));
        k += 1;
    }
    proof {
        lemma_ids_match(all);
        let items = breaks_of(r@);
        assert forall|i: int, j: int| 0 <= i < j < items.len() implies (#[trigger] items[i]).id != (
        #[trigger] items[j]).id by {
            assert(t.rows()[i].0@ != t.rows()[j].0@);
        }
        assert forall|i: int| 0 <= i < items.len() implies p.contains_key((#[trigger] items[i]).id)
            && p[items[i].id] == items[i] by {
            let key = t.rows()[i].0@;
            assert(t@.dom().contains(key));
            assert(p.contains_key(key));
            assert(p[key] == t.rows()[i].1@);
        }
        assert forall|id: Seq<char>| #[trigger] p.contains_key(id) implies exists|i: int|
            0 <= i < items.len() && (#[trigger] items[i]).id == id by {
            assert(t@.dom().contains(id));
            let i = choose|i: int| 0 <= i < t.rows().len() && (#[trigger] t.rows()[i]).0@ == id;
            assert(items[i].id == id);
        }
    }
    r
}

/// A pending call is filed under its own id.
proof fn lemma_ids_match(h: Seq<MessageView>)
    ensures
        forall|id: Seq<char>| #[trigger]
            pending_calls(h).contains_key(id) ==> pending_calls(h)[id].id == id,
    decreases h.len(),
{
    if h.len() > 0 {
        lemma_ids_match(h.drop_last());
        if let Some(c) = h.last().tool_calls {
            lemma_issued_ids(pending_calls(h.drop_last()), c);
        }
    }
}

proof fn lemma_issued_ids(p: Map<Seq<char>, CallView>, calls: Seq<CallView>)
    requires
        forall|id: Seq<char>| #[trigger] p.contains_key(id) ==> p[id].id == id,
    ensures
        forall|id: Seq<char>| #[trigger]
            with_issued(p, calls).contains_key(id) ==> with_issued(p, calls)[id].id == id,
    decreases calls.len(),
{
    if calls.len() > 0 {
        let sub = with_issued(p, calls.drop_last());
        let r = with_issued(p, calls);
        lemma_issued_ids(p, calls.drop_last());
        assert forall|id: Seq<char>| #[trigger] r.contains_key(id) implies r[id].id == id by {
            if id != calls.last().id {
                assert(sub.contains_key(id));
            }
        }
    }
}

/// The id of the only pending call, if it is the `sessions_yield` call that
/// `waiting` names.
pub open spec fn sole_yield(p: Map<Seq<char>, CallView>, waiting: Option<Seq<char>>) -> Option<
    Seq<char>,
> {
    match waiting {
        Some(id) => if p.dom() == set![id] && p[id].name == "sessions_yield"@ {
            Some(id)
        } else {
            None
        },
        None => None,
    }
}

/// The call to replay after a restart: given only when exactly one call has no
/// result, it is a `sessions_yield`, and `pending_yield` names it. Any other
/// call without a result means that work was interrupted.
pub fn sole_sessions_yield_orphan(
    messages: &[ChatMessage],
    pending_yield: Option<&PendingYield>,
) -> (r: Option<String>)
    ensures
        crate::text::opt_text(r) == sole_yield(
            pending_calls(messages_of(messages@)),
            match pending_yield {
                Some(y) => Some(y.tool_call_id@),
                None => None,
            },
        ),
{
    let ghost p = pending_calls(messages_of(messages@));
    let breaks = identify_breakpoint(messages);
    let ghost items = breaks_of(breaks@);
    match pending_yield {
        None => None,
        Some(y) => {
            if breaks.len() != 1 {
                proof {
                    if p.dom() == set![y.tool_call_id@] {
                        assert(p.contains_key(y.tool_call_id@));
                        assert forall|i: int| 0 <= i < items.len() implies (
                        #[trigger] items[i]).id == y.tool_call_id@ by {
                            assert(p.dom().contains(items[i].id));
                        }
                        if items.len() > 1 {
                            assert(items[0].id != items[1].id);
                        }
                    }
                }
                return None;
            }
            assert(items[0] == breaks@[0]@);
            assert(p.dom() =~= set![items[0].id]) by {
                assert forall|id: Seq<char>| p.dom().contains(id) implies id == items[0].id by {
                    assert(p.contains_key(id));
                }
            }
            if same_str(&breaks[0].tool_call_id, &y.tool_call_id) && same_str(
                &breaks[0].tool_name,
                "sessions_yield",
            ) {
                Some(breaks[0].tool_call_id.clone())
            } else {
                proof {
                    if p.dom() == set![y.tool_call_id@] {
                        assert(set![y.tool_call_id@].contains(items[0].id));
                    }
                }
                None
            }
        },
    }
}

/// Whether a result of the call `id` stands behind the message at `i`.
pub open spec fn answered_behind(h: Seq<MessageView>, i: int, id: Seq<char>) -> bool {
    exists|j: int| i < j < h.len() && answers(#[trigger] h[j], id)
}

/// Whether only tool messages stand behind the message at `i`.
pub open spec fn only_tools_behind(h: Seq<MessageView>, i: int) -> bool {
    forall|j: int| i < j < h.len() ==> (#[trigger] h[j]).role == "tool"@
}

/// Whether the message at `i` issues calls and some of them have no result behind
/// it.
pub open spec fn lacks_results(h: Seq<MessageView>, i: int) -> bool {
    &&& opens_round(h[i])
    &&& exists|k: int|
        0 <= k < h[i].tool_calls->0.len() && !answered_behind(
            h,
            i,
            (#[trigger] h[i].tool_calls->0[k]).id,
        )
}

/// Whether the last message of `h` that is no tool message issues calls and some
/// of them have no result behind it.
pub open spec fn ends_incomplete(h: Seq<MessageView>) -> bool {
    exists|i: int|
        0 <= i < h.len() && (#[trigger] h[i]).role != "tool"@ && only_tools_behind(h, i)
            && lacks_results(h, i)
}

fn is_answered_behind(messages: &[ChatMessage], i: usize, id: &str) -> (r: bool)
    requires
        i < messages@.len(),
    ensures
        r == answered_behind(messages_of(messages@), i as int, id@),
{
    let ghost h = messages_of(messages@);
    let n: usize = messages.len();
    let mut j: usize = i + 1;
    while j < n
        invariant
            i < j <= n,
            n == messages@.len(),
            h == messages_of(messages@),
            forall|l: int| i < l < j ==> !answers(#[trigger] h[l], id@),
        decreases messages@.len() - j,
    {
        assert(h[j as int] == messages@[j as int]@);
        if is_answer(&messages[j], id) {
            return true;
        }
        j += 1;
    }
    false
}

/// Whether a conversation ends with an assistant turn some or all of whose calls
/// have no result.
pub fn detect_incomplete_turn(messages: &[ChatMessage]) -> (r: bool)
    ensures
        r == ends_incomplete(messages_of(messages@)),
{
    let ghost h = messages_of(messages@);
    let mut n: usize = messages.len();
    while n > 0 && same_str(&messages[n - 1].role, "tool")
        invariant
            n <= messages@.len(),
            h == messages_of(messages@),
            forall|j: int| n <= j < h.len() ==> (#[trigger] h[j]).role == "tool"@,
        decreases n,
    {
        assert(h[n - 1] == messages@[n - 1]@);
        n -= 1;
    }
    if n == 0 {
        return false;
    }
    let i: usize = n - 1;
    assert(h[i as int] == messages@[i as int]@);
    assert(only_tools_behind(h, i as int));
    assert(ends_incomplete(h) == lacks_results(h, i as int)) by {
        assert forall|o: int|
            0 <= o < h.len() && (#[trigger] h[o]).role != "tool"@ && only_tools_behind(
                h,
                o,
            ) implies o == i by {
            if o < i {
                assert(h[i as int].role == "tool"@);
            }
        }
    }
    if !is_round_start(&messages[i]) {
        return false;
    }
    match &messages[i].tool_calls {
        None => false,
        Some(calls) => {
            let ghost cs = calls_of(calls@);
            assert(h[i as int].tool_calls == Some(cs));
            let mut k: usize = 0;
            while k < calls.len()
                invariant
                    k <= calls@.len(),
                    i < messages@.len(),
                    h == messages_of(messages@),
                    cs == calls_of(calls@),
                    h[i as int].tool_calls == Some(cs),
                    opens_round(h[i as int]),
                    forall|l: int|
                        0 <= l < k ==> answered_behind(h, i as int, (#[trigger] cs[l]).id),
                    ends_incomplete(h) == lacks_results(h, i as int),
                decreases calls@.len() - k,
            {
                assert(cs[k as int] == calls@[k as int]@);
                if !is_answered_behind(messages, i, &calls[k].id) {
                    return true;
                }
                k += 1;
            }
            false
        },
    }
}

// ── Laws ───────────────────────────────────────────────────────────────────

/// Whether `h` issues the call `id` and holds no result of it afterwards.
pub open spec fn left_open(h: Seq<MessageView>, id: Seq<char>) -> bool {
    exists|i: int|
        0 <= i < h.len() && declares(#[trigger] h[i], id) && forall|j: int|
            i < j < h.len() ==> !answers(#[trigger] h[j], id)
}

proof fn lemma_issued_keys(p: Map<Seq<char>, CallView>, calls: Seq<CallView>, id: Seq<char>)
    ensures
        with_issued(p, calls).contains_key(id) == (p.contains_key(id) || has_call(calls, id)),
    decreases calls.len(),
{
    if calls.len() > 0 {
        let sub = calls.drop_last();
        lemma_issued_keys(p, sub, id);
        if has_call(sub, id) {
            let j = choose|j: int| 0 <= j < sub.len() && (#[trigger] sub[j]).id == id;
            assert(calls[j] == sub[j]);
        }
        if has_call(calls, id) {
            let j = choose|j: int| 0 <= j < calls.len() && (#[trigger] calls[j]).id == id;
            if j < sub.len() {
                assert(sub[j] == calls[j]);
            }
        }
        if calls.last().id == id {
            assert(calls[calls.len() - 1].id == id);
        }
    }
}

/// A call counts as a breakpoint exactly when it was issued and no result of it
/// follows.
pub proof fn law_pending_iff_left_open(h: Seq<MessageView>, id: Seq<char>)
    ensures
        pending_calls(h).contains_key(id) == left_open(h, id),
    decreases h.len(),
{
    reveal_strlit("assistant");
    reveal_strlit("tool");
    assert("assistant"@.len() != "tool"@.len());
    if h.len() > 0 {
        let sub = h.drop_last();
        let m = h.last();
        law_pending_iff_left_open(sub, id);
        if let Some(c) = m.tool_calls {
            lemma_issued_keys(pending_calls(sub), c, id);
        }
        if left_open(h, id) {
            let i = choose|i: int|
                0 <= i < h.len() && declares(#[trigger] h[i], id) && forall|j: int|
                    i < j < h.len() ==> !answers(#[trigger] h[j], id);
            if i < sub.len() {
                assert(declares(sub[i], id));
                assert forall|j: int| i < j < sub.len() implies !answers(#[trigger] sub[j], id) by {
                    assert(sub[j] == h[j]);
                }
                assert(left_open(sub, id));
                assert(!answers(h[h.len() - 1], id));
            }
        }
        if pending_calls(h).contains_key(id) {
            if declares(m, id) {
                assert(declares(h[h.len() - 1], id));
            } else {
                let i = choose|i: int|
                    0 <= i < sub.len() && declares(#[trigger] sub[i], id) && forall|j: int|
                        i < j < sub.len() ==> !answers(#[trigger] sub[j], id);
                assert(declares(h[i], id));
                assert forall|j: int| i < j < h.len() implies !answers(#[trigger] h[j], id) by {
                    if j < sub.len() {
                        assert(sub[j] == h[j]);
                    } else {
                        assert(h[j] == m);
                    }
                }
            }
        }
    }
}

} // verus!
