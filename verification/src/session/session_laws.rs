//! What sessions and their storage keep: deadlines, messages, aborted turns, open calls,
//! stored rows and lists.

use vstd::prelude::*;

use crate::number::decimal;
use crate::session::backend::{
    count_of, in_scope, info_of, latest_first, lists_sessions, lookup, numbered, session_id_of,
    stored_messages, with_message, with_session, InfoView, Scope, Store,
};
use crate::session::breakpoint_detect::{ends_incomplete, pending_calls, sole_yield};
use crate::session::channel::{kept_of, replied_to, thread_of, ChannelInboundMessage};
use crate::session::chat::{
    text_message, text_of_parts, tool_message, CallView, ChatMessage, MessageView, PartView,
    UsageView,
};
use crate::session::manager::{
    ephemeral_id, is_loaded, is_opened, loaded_rows, loaded_summary, session_error_text,
    sessions_for_user, with_active, with_sub_session, SessionError,
};
use crate::session::order_laws::{has_result, is_abandoned, is_orphan};
use crate::session::queue::{filled_lines, path_below, readable};
use crate::session::session_override::{belonging_rows, row_messages, SessionOverride};
use crate::session::types::{
    abort_removes, abort_results, aborts, after_abort, budget_low, calls_message, fitted,
    media_message, reminder_text, secs_left, tail_start, with_calls_stripped,
    without_trailing_users, DelegationDeadline, Session,
};
use crate::session_context::suspension::TurnSuspension;
use crate::session_context::{PendingYieldEvent, SessionContext};
use crate::text::{begins_with, has_text, opt_text, trimmed};
use crate::time::UtcInstant;

verus! {

// ── Deadlines ──────────────────────────────────────────────────────────────

/// Before a deadline the seconds that are left reach exactly to it; after it none are
/// left.
pub proof fn law_seconds_reach_to_the_deadline(d: DelegationDeadline, now: int)
    ensures
        now <= d.deadline_unix ==> now + secs_left(d, now) == d.deadline_unix,
        now >= d.deadline_unix ==> secs_left(d, now) == 0,
{
}

/// A budget is low when at most a fifth of it is left, and a low budget stays low.
pub proof fn law_low_budgets(d: DelegationDeadline, now: int, later: int)
    requires
        now <= later,
    ensures
        d.total_secs > 0 ==> (budget_low(d, now) <==> now >= d.deadline_unix || (d.deadline_unix
            - now) * 5 <= d.total_secs),
        d.total_secs == 0 ==> !budget_low(d, now),
        budget_low(d, now) ==> budget_low(d, later),
{
}

/// A reminder says first how many seconds are left and of how many; it tells the agent to
/// stop exactly when the budget is low.
pub proof fn law_reminders_say_what_is_left(d: DelegationDeadline, now: int)
    ensures
        budget_low(d, now) ==> begins_with(
            reminder_text(d, now),
            "<system-reminder>Delegation deadline warning: only "@ + decimal(secs_left(d, now))
                + "s remain of the "@ + decimal(d.total_secs as nat) + "s wall-clock budget. STOP"@,
        ),
        !budget_low(d, now) ==> begins_with(
            reminder_text(d, now),
            "<system-reminder>Delegation budget: "@ + decimal(secs_left(d, now))
                + "s remaining of the "@ + decimal(d.total_secs as nat) + "s wall-clock budget. The"@,
        ),
{
    reveal_strlit(
        "s wall-clock budget. STOP starting new work. Wrap up NOW: finish the current step, write the summary/deliverable for the parent agent, and end your turn. Anything unfinished at the deadline is lost.</system-reminder>",
    );
    reveal_strlit(
        "s wall-clock budget. The delegation is killed at the deadline — plan to finish and deliver before it runs out.</system-reminder>",
    );
    reveal_strlit("s wall-clock budget. STOP");
    reveal_strlit("s wall-clock budget. The");
    let r = reminder_text(d, now);
    if budget_low(d, now) {
        let p = "<system-reminder>Delegation deadline warning: only "@ + decimal(secs_left(d, now))
            + "s remain of the "@ + decimal(d.total_secs as nat);
        assert(r.take((p + "s wall-clock budget. STOP"@).len() as int) =~= p
            + "s wall-clock budget. STOP"@);
    } else {
        let p = "<system-reminder>Delegation budget: "@ + decimal(secs_left(d, now))
            + "s remaining of the "@ + decimal(d.total_secs as nat);
        assert(r.take((p + "s wall-clock budget. The"@).len() as int) =~= p
            + "s wall-clock budget. The"@);
    }
}

// ── Messages ───────────────────────────────────────────────────────────────

/// A message of media holds all media in their order, and what was said about them last.
pub proof fn law_media_come_before_their_text(text: Seq<char>, media: Seq<PartView>)
    ensures
        media_message(text, media).role == "user"@,
        media_message(text, media).parts == media + seq![PartView::Text(text)],
        media_message(text, media).tool_calls is None,
{
    assert(media_message(text, media).parts =~= media + seq![PartView::Text(text)]);
}

/// A message that calls tools holds what was thought, then what was said, and all calls in
/// their order; a thought without words is kept for its signature.
pub proof fn law_calls_keep_thought_and_text(
    text: Seq<char>,
    calls: Seq<CallView>,
    thinking: Option<Seq<char>>,
    signature: Option<Seq<char>>,
    model: Option<Seq<char>>,
    usage: Option<UsageView>,
)
    ensures
        ({
            let m = calls_message(text, calls, thinking, signature, model, usage);
            &&& m.role == "assistant"@
            &&& m.tool_calls == Some(calls)
            &&& m.model == model
            &&& m.usage == usage
            &&& m.tool_call_id is None
            &&& m.is_error is None
            &&& m.parts.last() == PartView::Text(text)
            &&& thinking is None && signature is None ==> m.parts.len() == 1
            &&& thinking is Some || signature is Some ==> m.parts.len() == 2
            &&& thinking is Some ==> m.parts[0] == PartView::Thinking(thinking->0, signature)
            &&& thinking is None && signature is Some ==> m.parts[0] == PartView::Thinking(
                ""@,
                signature,
            )
        }),
{
}

/// A result carries the id and the name of its call, its text, and whether it failed.
pub proof fn law_results_carry_their_call(
    id: Seq<char>,
    name: Seq<char>,
    text: Seq<char>,
    is_error: bool,
    role: Seq<char>,
)
    ensures
        tool_message(id, name, text, is_error).role == "tool"@,
        tool_message(id, name, text, is_error).tool_call_id == Some(id),
        tool_message(id, name, text, is_error).name == Some(name),
        tool_message(id, name, text, is_error).is_error == Some(is_error),
        tool_message(id, name, text, is_error).parts == seq![PartView::Text(text)],
        text_message(role, text).role == role,
        text_message(role, text).parts == seq![PartView::Text(text)],
        text_message(role, text).tool_calls is None,
        text_message(role, text).tool_call_id is None,
        text_message(role, text).is_error is None,
{
}

/// The text of a message is that of its parts, one after another; thoughts and files have
/// none.
pub proof fn law_texts_stand_one_after_another(a: Seq<PartView>, b: Seq<PartView>, p: PartView)
    ensures
        text_of_parts(a + b) == text_of_parts(a) + text_of_parts(b),
        p is Text ==> text_of_parts(seq![p]) == p->Text_0,
        !(p is Text) ==> text_of_parts(seq![p]).len() == 0,
    decreases b.len(),
{
    reveal_with_fuel(text_of_parts, 2);
    assert(seq![p].drop_last() =~= Seq::<PartView>::empty());
    assert(seq![p].last() == p);
    if b.len() == 0 {
        assert(a + b =~= a);
        assert(text_of_parts(a) + text_of_parts(b) =~= text_of_parts(a));
    } else {
        assert((a + b).drop_last() =~= a + b.drop_last());
        assert((a + b).last() == b.last());
        law_texts_stand_one_after_another(a, b.drop_last(), p);
        assert(text_of_parts(a + b) =~= text_of_parts(a) + text_of_parts(b));
    }
    if p is Text {
        assert(text_of_parts(seq![p]) =~= p->Text_0);
    }
}

// ── Turns that end early ───────────────────────────────────────────────────

/// Exactly the user messages at the end of a history are taken off.
pub proof fn law_trailing_users_are_taken_off(h: Seq<MessageView>)
    ensures
        ({
            let r = without_trailing_users(h);
            &&& r.len() <= h.len()
            &&& r == h.take(r.len() as int)
            &&& forall|i: int| r.len() <= i < h.len() ==> (#[trigger] h[i]).role == "user"@
            &&& r.len() > 0 ==> r.last().role != "user"@
        }),
    decreases h.len(),
{
    if h.len() > 0 && h.last().role == "user"@ {
        let fewer = h.drop_last();
        law_trailing_users_are_taken_off(fewer);
        let r = without_trailing_users(h);
        assert(fewer.take(r.len() as int) =~= h.take(r.len() as int));
        assert forall|i: int| r.len() <= i < h.len() implies (#[trigger] h[i]).role == "user"@ by {
            if i < fewer.len() {
                assert(fewer[i] == h[i]);
            }
        }
    } else {
        assert(h.take(h.len() as int) =~= h);
    }
}

/// The results at the end of a history begin behind its last message that is no result.
pub proof fn law_trailing_results(h: Seq<MessageView>)
    ensures
        0 <= tail_start(h) <= h.len(),
        forall|i: int| tail_start(h) <= i < h.len() ==> (#[trigger] h[i]).role == "tool"@,
        tail_start(h) > 0 ==> h[tail_start(h) - 1].role != "tool"@,
    decreases h.len(),
{
    if h.len() > 0 && h.last().role == "tool"@ {
        let fewer = h.drop_last();
        law_trailing_results(fewer);
        assert forall|i: int| tail_start(h) <= i < h.len() implies (#[trigger] h[i]).role
            == "tool"@ by {
            if i < fewer.len() {
                assert(fewer[i] == h[i]);
            }
        }
        if tail_start(h) > 0 {
            assert(fewer[tail_start(h) - 1] == h[tail_start(h) - 1]);
        }
    }
}

proof fn lemma_results(results: Seq<MessageView>, id: Seq<char>)
    ensures
        crate::session::session_override::answered(results, id) == has_result(results, id),
{
    if crate::session::session_override::answered(results, id) {
        let i = choose|i: int|
            0 <= i < results.len() && crate::session::session_override::answers(
                #[trigger] results[i],
                id,
            );
        assert(results[i].role == "tool"@);
    }
    if has_result(results, id) {
        let i = choose|i: int|
            0 <= i < results.len() && (#[trigger] results[i]).role == "tool"@
                && results[i].tool_call_id == Some(id);
        assert(crate::session::session_override::answers(results[i], id));
    }
}

/// Calls are aborted one after another: a call with a result is left alone, one without
/// gets one that says so, under its own id and name.
pub proof fn law_open_calls_are_aborted(
    a: Seq<CallView>,
    b: Seq<CallView>,
    c: CallView,
    results: Seq<MessageView>,
)
    ensures
        aborts(a + b, results) == aborts(a, results) + aborts(b, results),
        has_result(results, c.id) ==> aborts(seq![c], results).len() == 0,
        !has_result(results, c.id) ==> aborts(seq![c], results) == seq![
            tool_message(c.id, c.name, "cancelled: aborted by user"@, true),
        ],
    decreases b.len(),
{
    lemma_results(results, c.id);
    reveal_with_fuel(aborts, 2);
    assert(seq![c].drop_last() =~= Seq::<CallView>::empty());
    assert(seq![c].last() == c);
    let one = tool_message(c.id, c.name, "cancelled: aborted by user"@, true);
    assert(Seq::<MessageView>::empty().push(one) =~= seq![one]);
    if b.len() == 0 {
        assert(a + b =~= a);
        assert(aborts(a, results) + aborts(b, results) =~= aborts(a, results));
    } else {
        assert((a + b).drop_last() =~= a + b.drop_last());
        assert((a + b).last() == b.last());
        law_open_calls_are_aborted(a, b.drop_last(), c, results);
        assert(aborts(a + b, results) =~= aborts(a, results) + aborts(b, results));
    }
}

/// An abort behind calls and their results keeps the whole history, aborts the calls
/// without results, and ends with the word that the turn was cancelled.
pub proof fn law_aborted_rounds_are_kept(
    before: Seq<MessageView>,
    round: MessageView,
    results: Seq<MessageView>,
)
    requires
        round.role == "assistant"@,
        round.tool_calls is Some,
        round.tool_calls->0.len() > 0,
        forall|i: int| 0 <= i < results.len() ==> (#[trigger] results[i]).role == "tool"@,
    ensures
        after_abort(before + seq![round] + results) == before + seq![round] + results + aborts(
            round.tool_calls->0,
            results,
        ) + seq![text_message("assistant"@, "（已取消）"@)],
        abort_results(before + seq![round] + results) == aborts(round.tool_calls->0, results),
{
    reveal_strlit("user");
    reveal_strlit("assistant");
    reveal_strlit("tool");
    let h = before + seq![round] + results;
    let t = before.len() as int + 1;
    assert("user"@[0] != "tool"@[0]);
    assert("assistant"@.len() != "tool"@.len());
    assert(h[t - 1] == round);
    assert forall|i: int| t <= i < h.len() implies (#[trigger] h[i]).role == "tool"@ by {
        assert(h[i] == results[i - t]);
    }
    lemma_tail_is(h, t);
    assert(h.skip(t) =~= results);
    if results.len() > 0 {
        assert(h.last() == results.last());
        assert(results[results.len() - 1].role == "tool"@);
    } else {
        assert(h.last() == round);
        let c = round.tool_calls->0;
        let rest = c.drop_last();
        assert(!has_result(results, c.last().id));
        lemma_results(results, c.last().id);
        assert(aborts(c, results) == aborts(rest, results).push(
            crate::session::types::aborted(c.last()),
        ));
    }
    let word = text_message("assistant"@, "（已取消）"@);
    assert((h + aborts(round.tool_calls->0, results)).push(word) =~= h + aborts(
        round.tool_calls->0,
        results,
    ) + seq![word]);
}

proof fn lemma_tail_is(h: Seq<MessageView>, t: int)
    requires
        0 < t <= h.len(),
        h[t - 1].role != "tool"@,
        forall|i: int| t <= i < h.len() ==> (#[trigger] h[i]).role == "tool"@,
    ensures
        tail_start(h) == t,
    decreases h.len(),
{
    if t < h.len() {
        assert(h[h.len() - 1].role == "tool"@);
        lemma_tail_is(h.drop_last(), t);
    }
}

/// An abort behind an answer, or of an empty history, changes nothing; behind messages of
/// the user it takes them off.
pub proof fn law_abort_of_a_closed_turn(h: Seq<MessageView>)
    ensures
        h.len() == 0 ==> after_abort(h) == h,
        h.len() > 0 && h.last().role != "user"@ && h.last().role != "tool"@ && (h.last().role
            != "assistant"@ || h.last().tool_calls is None || h.last().tool_calls->0.len() == 0)
            ==> after_abort(h) == h,
        h.len() > 0 && h.last().role == "user"@ ==> after_abort(h).len() < h.len() && after_abort(h)
            == h.take(after_abort(h).len() as int) && forall|i: int|
            after_abort(h).len() <= i < h.len() ==> (#[trigger] h[i]).role == "user"@,
        h.len() > 0 && h.last().role != "user"@ ==> after_abort(h).len() >= h.len() && after_abort(
            h,
        ).take(h.len() as int) == h,
{
    law_trailing_users_are_taken_off(h);
    law_trailing_results(h);
    let r = after_abort(h);
    if h.len() > 0 && h.last().role != "user"@ {
        assert(r.take(h.len() as int) =~= h);
    }
}

/// When messages are taken off or put behind, the others keep their ids, and new ones have
/// none yet; what an abort counts is what it takes off.
pub proof fn law_ids_keep_their_places(ids: Seq<i64>, n: nat, i: int, h: Seq<MessageView>)
    ensures
        fitted(ids, n).len() == n,
        0 <= i < n && i < ids.len() ==> fitted(ids, n)[i] == ids[i],
        ids.len() <= i < n ==> fitted(ids, n)[i] == 0,
        h.len() > 0 && h.last().role == "user"@ ==> abort_removes(h) + after_abort(h).len()
            == h.len(),
        h.len() == 0 || h.last().role != "user"@ ==> abort_removes(h) == 0,
{
    law_trailing_users_are_taken_off(h);
}

/// Calls are taken off the last assistant message only, from behind; everything else stays.
pub proof fn law_calls_are_taken_off_from_behind(
    before: Seq<MessageView>,
    m: MessageView,
    after: Seq<MessageView>,
    count: nat,
)
    requires
        m.role == "assistant"@,
        forall|i: int| 0 <= i < after.len() ==> (#[trigger] after[i]).role != "assistant"@,
    ensures
        ({
            let r = with_calls_stripped(before + seq![m] + after, count);
            let n = before.len() as int;
            &&& r.len() == n + 1 + after.len()
            &&& r.take(n) == before
            &&& r.skip(n + 1) == after
            &&& m.tool_calls is None ==> r[n] == m
            &&& m.tool_calls is Some ==> r[n] == (MessageView {
                tool_calls: r[n].tool_calls,
                ..m
            }) && r[n].tool_calls is Some && (if count <= m.tool_calls->0.len() {
                r[n].tool_calls->0 == m.tool_calls->0.take(m.tool_calls->0.len() - count)
            } else {
                r[n].tool_calls->0.len() == 0
            })
        }),
{
    let h = before + seq![m] + after;
    let n = before.len() as int;
    lemma_last_assistant(h, n, before, m, after);
    let r = with_calls_stripped(h, count);
    assert(h[n] == m);
    assert(r.take(n) =~= before);
    assert(r.skip(n + 1) =~= after);
}

proof fn lemma_last_assistant(
    h: Seq<MessageView>,
    n: int,
    before: Seq<MessageView>,
    m: MessageView,
    after: Seq<MessageView>,
)
    requires
        h == before + seq![m] + after,
        n == before.len(),
        m.role == "assistant"@,
        forall|i: int| 0 <= i < after.len() ==> (#[trigger] after[i]).role != "assistant"@,
    ensures
        crate::session::types::last_assistant(h) == n,
    decreases after.len(),
{
    if after.len() > 0 {
        assert(h.last() == after.last());
        assert(after[after.len() - 1].role != "assistant"@);
        assert(h.drop_last() =~= before + seq![m] + after.drop_last());
        lemma_last_assistant(h.drop_last(), n, before, m, after.drop_last());
    } else {
        assert(h.last() == m);
    }
}

// ── Calls without results ──────────────────────────────────────────────────

/// A call is open from the message that makes it until a result comes under its id; the
/// latest call under an id is meant.
pub proof fn law_open_calls(h: Seq<MessageView>, m: MessageView, id: Seq<char>, k: int)
    ensures
        m.role == "assistant"@ && m.tool_calls is Some && 0 <= k < m.tool_calls->0.len()
            && m.tool_calls->0[k].id == id && (forall|j: int|
            k < j < m.tool_calls->0.len() ==> (#[trigger] m.tool_calls->0[j]).id != id)
            ==> pending_calls(h.push(m)).contains_key(id) && pending_calls(h.push(m))[id]
            == m.tool_calls->0[k],
        m.role == "tool"@ && m.tool_call_id == Some(id) ==> !pending_calls(h.push(m)).contains_key(
            id,
        ),
        m.role != "assistant"@ && m.role != "tool"@ ==> pending_calls(h.push(m)) == pending_calls(
            h,
        ),
        m.role == "tool"@ && m.tool_call_id != Some(id) && pending_calls(h).contains_key(id)
            ==> pending_calls(h.push(m)).contains_key(id) && pending_calls(h.push(m))[id]
            == pending_calls(h)[id],
        pending_calls(Seq::<MessageView>::empty()) == Map::<Seq<char>, CallView>::empty(),
{
    reveal_strlit("assistant");
    reveal_strlit("tool");
    assert(h.push(m).drop_last() =~= h);
    assert(h.push(m).last() == m);
    assert("assistant"@.len() != "tool"@.len());
    if m.role == "assistant"@ && m.tool_calls is Some && 0 <= k < m.tool_calls->0.len() {
        lemma_issued(pending_calls(h), m.tool_calls->0, id, k);
    }
}

proof fn lemma_issued(p: Map<Seq<char>, CallView>, calls: Seq<CallView>, id: Seq<char>, k: int)
    requires
        0 <= k < calls.len(),
    ensures
        calls[k].id == id && (forall|j: int|
            k < j < calls.len() ==> (#[trigger] calls[j]).id != id)
            ==> crate::session::breakpoint_detect::with_issued(p, calls).contains_key(id)
            && crate::session::breakpoint_detect::with_issued(p, calls)[id] == calls[k],
    decreases calls.len(),
{
    if k < calls.len() - 1 {
        lemma_issued(p, calls.drop_last(), id, k);
        if calls[k].id == id && (forall|j: int|
            k < j < calls.len() ==> (#[trigger] calls[j]).id != id) {
            assert(calls[calls.len() - 1].id != id);
            assert forall|j: int| k < j < calls.drop_last().len() implies (
            #[trigger] calls.drop_last()[j]).id != id by {
                assert(calls[j].id != id);
            }
            assert(calls.drop_last()[k] == calls[k]);
        }
    }
}

/// A session waits for a yield only where that yield is the one call that is open, and a
/// wait is known.
pub proof fn law_waiting_yields(
    p: Map<Seq<char>, CallView>,
    waiting: Option<Seq<char>>,
    id: Seq<char>,
)
    ensures
        sole_yield(p, waiting) == Some(id) <==> (waiting == Some(id) && p.contains_key(id)
            && p[id].name == "sessions_yield"@ && forall|k: Seq<char>| #[trigger]
            p.contains_key(k) ==> k == id),
        waiting is None ==> sole_yield(p, waiting) is None,
{
    if waiting == Some(id) {
        if p.contains_key(id) && (forall|k: Seq<char>| #[trigger] p.contains_key(k) ==> k == id) {
            assert(p.dom() =~= set![id]);
        }
        if p.dom() == set![id] {
            assert(set![id].contains(id));
            assert forall|k: Seq<char>| #[trigger] p.contains_key(k) implies k == id by {
                assert(set![id].contains(k));
            }
        }
    }
}

/// A history that ends with calls and results is incomplete exactly if a call has no
/// result there; one that ends with anything else is complete.
pub proof fn law_incomplete_ends(
    before: Seq<MessageView>,
    m: MessageView,
    results: Seq<MessageView>,
)
    requires
        m.role != "tool"@,
        forall|i: int| 0 <= i < results.len() ==> (#[trigger] results[i]).role == "tool"@,
    ensures
        ends_incomplete(before + seq![m] + results) <==> (m.role == "assistant"@ && m.tool_calls
            is Some && exists|k: int|
            0 <= k < m.tool_calls->0.len() && !has_result(
                results,
                (#[trigger] m.tool_calls->0[k]).id,
            )),
{
    let h = before + seq![m] + results;
    let n = before.len() as int;
    assert(h[n] == m);
    assert forall|id: Seq<char>| #[trigger]
        crate::session::breakpoint_detect::answered_behind(h, n, id) == has_result(results, id) by {
        if crate::session::breakpoint_detect::answered_behind(h, n, id) {
            let j = choose|j: int|
                n < j < h.len() && crate::session::session_override::answers(#[trigger] h[j], id);
            assert(h[j] == results[j - n - 1]);
            assert(results[j - n - 1].role == "tool"@);
        }
        if has_result(results, id) {
            let i = choose|i: int|
                0 <= i < results.len() && (#[trigger] results[i]).role == "tool"@
                    && results[i].tool_call_id == Some(id);
            assert(h[i + n + 1] == results[i]);
            assert(crate::session::session_override::answers(h[i + n + 1], id));
        }
    }
    assert forall|j: int| n < j < h.len() implies (#[trigger] h[j]).role == "tool"@ by {
        assert(h[j] == results[j - n - 1]);
    }
    assert(crate::session::breakpoint_detect::only_tools_behind(h, n));
    if ends_incomplete(h) {
        let i = choose|i: int|
            0 <= i < h.len() && (#[trigger] h[i]).role != "tool"@
                && crate::session::breakpoint_detect::only_tools_behind(h, i)
                && crate::session::breakpoint_detect::lacks_results(h, i);
        if i < n {
            assert(h[n].role == "tool"@);
        }
        assert(i == n);
        let k = choose|k: int|
            0 <= k < h[n].tool_calls->0.len()
                && !crate::session::breakpoint_detect::answered_behind(
                h,
                n,
                (#[trigger] h[n].tool_calls->0[k]).id,
            );
        assert(!has_result(results, m.tool_calls->0[k].id));
    }
    if m.role == "assistant"@ && m.tool_calls is Some && exists|k: int|
        0 <= k < m.tool_calls->0.len() && !has_result(
            results,
            (#[trigger] m.tool_calls->0[k]).id,
        ) {
        let k = choose|k: int|
            0 <= k < m.tool_calls->0.len() && !has_result(
                results,
                (#[trigger] m.tool_calls->0[k]).id,
            );
        assert(!crate::session::breakpoint_detect::answered_behind(
            h,
            n,
            h[n].tool_calls->0[k].id,
        ));
        assert(crate::session::breakpoint_detect::lacks_results(h, n));
    }
}

// ── Storage ────────────────────────────────────────────────────────────────

/// A new session belongs to its owner under its name, is as old as it is quiet, and has no
/// messages; no other session changes.
pub proof fn law_new_sessions(
    s: Store,
    id: Seq<char>,
    owner: Seq<char>,
    name: Option<Seq<char>>,
    now: UtcInstant,
    other: Seq<char>,
)
    ensures
        ({
            let t = with_session(s, id, owner, name, now);
            &&& t.sessions.contains_key(id)
            &&& info_of(t, id).id == id
            &&& info_of(t, id).owner == owner
            &&& info_of(t, id).display_name == name
            &&& info_of(t, id).created_at == now
            &&& info_of(t, id).last_activity == now
            &&& info_of(t, id).message_count == 0
            &&& other != id ==> (t.sessions.contains_key(other) <==> s.sessions.contains_key(
                other,
            )) && info_of(t, other) == info_of(s, other)
            &&& t.active == s.active
            &&& t.parents == s.parents
            &&& t.summaries == s.summaries
            &&& t.agent_names == s.agent_names
            &&& t.namespace == s.namespace
        }),
{
}

/// A message makes its session one message longer and its last activity now; owner, name
/// and age stay, and so do all other sessions.
pub proof fn law_messages_are_activity(
    s: Store,
    id: Seq<char>,
    m: MessageView,
    now: UtcInstant,
    other: Seq<char>,
)
    ensures
        ({
            let t = with_message(s, id, m, now);
            &&& count_of(t, id) == count_of(s, id) + 1
            &&& t.sessions.contains_key(other) <==> s.sessions.contains_key(other)
            &&& s.sessions.contains_key(id) ==> info_of(t, id).last_activity == now && info_of(
                t,
                id,
            ).owner == info_of(s, id).owner && info_of(t, id).display_name == info_of(
                s,
                id,
            ).display_name && info_of(t, id).created_at == info_of(s, id).created_at
            &&& other != id ==> info_of(t, other) == info_of(s, other)
            &&& t.active == s.active
            &&& t.parents == s.parents
            &&& t.summaries == s.summaries
        }),
{
}

/// Rows are numbered from one, in the order in which they were stored; those behind a
/// number are the ones with greater numbers.
pub proof fn law_rows_are_numbered(h: Seq<MessageView>, after: int)
    requires
        0 <= after,
        h.len() <= i64::MAX,
    ensures
        numbered(h, after).len() == (if h.len() > after {
            h.len() - after
        } else {
            0
        }),
        forall|i: int|
            0 <= i < numbered(h, after).len() ==> #[trigger] numbered(h, after)[i] == (
                (after + i + 1) as i64,
                h[after + i],
            ),
    decreases h.len(),
{
    if h.len() > 0 {
        law_rows_are_numbered(h.drop_last(), after);
        let before = numbered(h.drop_last(), after);
        assert forall|i: int| 0 <= i < numbered(h, after).len() implies #[trigger] numbered(
            h,
            after,
        )[i] == ((after + i + 1) as i64, h[after + i]) by {
            if i < before.len() {
                assert(numbered(h, after)[i] == before[i]);
            }
        }
    }
}

/// Rows are dropped one by one: exactly the orphan results go, each other row stays with
/// its number.
pub proof fn law_only_orphan_rows_are_dropped(
    a: Seq<(i64, MessageView)>,
    b: Seq<(i64, MessageView)>,
    row: (i64, MessageView),
    all: Seq<MessageView>,
)
    ensures
        belonging_rows(a + b, all) == belonging_rows(a, all) + belonging_rows(b, all),
        !is_orphan(row.1, all) ==> belonging_rows(seq![row], all) == seq![row],
        is_orphan(row.1, all) ==> belonging_rows(seq![row], all).len() == 0,
    decreases b.len(),
{
    crate::session::order_laws::lemma_orphans(row.1, all);
    reveal_with_fuel(belonging_rows, 2);
    let none = Seq::<(i64, MessageView)>::empty();
    assert(seq![row].drop_last() =~= none);
    assert(seq![row].last() == row);
    assert(none.push(row) =~= seq![row]);
    if b.len() == 0 {
        assert(a + b =~= a);
        assert(belonging_rows(a, all) + belonging_rows(b, all) =~= belonging_rows(a, all));
    } else {
        assert((a + b).drop_last() =~= a + b.drop_last());
        assert((a + b).last() == b.last());
        law_only_orphan_rows_are_dropped(a, b.drop_last(), row, all);
        assert(belonging_rows(a + b, all) =~= belonging_rows(a, all) + belonging_rows(b, all));
    }
}

proof fn lemma_all_rows_belong(v: Seq<(i64, MessageView)>, all: Seq<MessageView>)
    requires
        forall|i: int| 0 <= i < v.len() ==> !is_orphan((#[trigger] v[i]).1, all),
    ensures
        belonging_rows(v, all) == v,
    decreases v.len(),
{
    if v.len() > 0 {
        let fewer = v.drop_last();
        assert forall|i: int| 0 <= i < fewer.len() implies !is_orphan(
            (#[trigger] fewer[i]).1,
            all,
        ) by {
            assert(fewer[i] == v[i]);
        }
        lemma_all_rows_belong(fewer, all);
        assert(!is_orphan(v[v.len() - 1].1, all));
        crate::session::order_laws::lemma_orphans(v.last().1, all);
        assert(fewer.push(v.last()) =~= v);
    }
}

/// A stored history without orphans that does not end with abandoned calls is loaded
/// whole, message by message.
pub proof fn law_fit_histories_are_loaded_whole(s: Store, id: Seq<char>)
    requires
        stored_messages(s, id).len() <= i64::MAX,
        forall|i: int|
            0 <= i < stored_messages(s, id).len() ==> !is_orphan(
                #[trigger] stored_messages(s, id)[i],
                stored_messages(s, id),
            ),
        stored_messages(s, id).len() > 0 ==> !is_abandoned(
            stored_messages(s, id).last(),
            stored_messages(s, id),
        ),
    ensures
        row_messages(loaded_rows(s, id)) == stored_messages(s, id),
        loaded_rows(s, id) == numbered(stored_messages(s, id), 0),
{
    let h = stored_messages(s, id);
    let rows = numbered(h, 0);
    law_rows_are_numbered(h, 0);
    assert(row_messages(rows) =~= h);
    assert forall|i: int| 0 <= i < rows.len() implies !is_orphan((#[trigger] rows[i]).1, h) by {
        assert(rows[i].1 == h[i]);
    }
    lemma_all_rows_belong(rows, h);
    if h.len() > 0 {
        crate::session::order_laws::lemma_abandoned(h.last(), h);
        assert(rows.last().1 == h.last());
    }
}

/// The latest summary of a session is the one that is loaded.
pub proof fn law_the_latest_summary_is_loaded(s: Store, id: Seq<char>)
    ensures
        !s.summaries.contains_key(id) || s.summaries[id].len() == 0 ==> loaded_summary(s, id)
            is None,
        s.summaries.contains_key(id) && s.summaries[id].len() > 0 ==> ({
            let last = s.summaries[id][s.summaries[id].len() - 1];
            &&& loaded_summary(s, id) is Some
            &&& loaded_summary(s, id)->0.version == last.version
            &&& loaded_summary(s, id)->0.up_to_message == last.up_to_message
            &&& last.token_estimate is Some ==> loaded_summary(s, id)->0.token_estimate
                == last.token_estimate->0
            &&& last.token_estimate is None ==> loaded_summary(s, id)->0.token_estimate == 0
        }),
{
}

/// A list of all holds every session, one of an owner those of the owner, one of a prefix
/// those whose owner begins with it.
pub proof fn law_scopes(owner: Seq<char>, scope: Scope, a: Seq<char>, b: Seq<char>)
    ensures
        scope is All ==> in_scope(scope, owner),
        in_scope(Scope::Owner(a), owner) <==> owner == a,
        in_scope(Scope::OwnerPrefix(a), a + b),
        in_scope(Scope::OwnerPrefix(a), owner) ==> owner.len() >= a.len() && owner.take(
            a.len() as int,
        ) == a,
{
    assert((a + b).take(a.len() as int) =~= a);
}

/// A session below another belongs to the owner of that one, runs the agent asked for, and
/// names both; nothing else changes.
pub proof fn law_sub_sessions(
    s: Store,
    id: Seq<char>,
    parent: Seq<char>,
    agent: Seq<char>,
    now: UtcInstant,
    other: Seq<char>,
)
    requires
        s.sessions.contains_key(parent),
        parent.len() > 0,
        other != id,
    ensures
        ({
            let t = with_sub_session(s, id, parent, agent, now);
            &&& info_of(t, id).owner == info_of(s, parent).owner
            &&& info_of(t, id).display_name == Some("sub:"@ + parent + ":"@ + agent)
            &&& info_of(t, id).created_at == now
            &&& info_of(t, id).message_count == 0
            &&& lookup(t.parents, id) == Some(parent)
            &&& lookup(t.agent_names, id) == Some(agent)
            &&& info_of(t, other) == info_of(s, other)
            &&& t.sessions.contains_key(other) <==> s.sessions.contains_key(other)
            &&& lookup(t.parents, other) == lookup(s.parents, other)
            &&& lookup(t.agent_names, other) == lookup(s.agent_names, other)
            &&& t.active == s.active
        }),
{
}

/// A user with an active session keeps it; one without gets a new one of their own, and it
/// is active from then on.
pub proof fn law_active_sessions(
    s: Store,
    user: Seq<char>,
    id: Seq<char>,
    now: UtcInstant,
    other: Seq<char>,
)
    ensures
        lookup(s.active, user) is Some ==> with_active(s, user, id, now) == s,
        lookup(s.active, user) is None ==> ({
            let t = with_active(s, user, id, now);
            &&& lookup(t.active, user) == Some(id)
            &&& other != user ==> lookup(t.active, other) == lookup(s.active, other)
            &&& info_of(t, id).owner == user
            &&& info_of(t, id).display_name is None
            &&& info_of(t, id).message_count == 0
            &&& info_of(t, id).created_at == now
        }),
{
}

/// Whatever a user's keys own at the top is theirs to see; a name that is none of these
/// sessions is taken for one more key.
pub proof fn law_sessions_of_a_user(
    s: Store,
    user: Seq<char>,
    keys: Seq<Seq<char>>,
    id: Seq<char>,
)
    ensures
        keys.contains(s.sessions[id].owner) && lookup(s.parents, id) is None ==> sessions_for_user(
            s,
            user,
            keys,
        )(id),
        sessions_for_user(s, user, keys)(id) ==> lookup(s.parents, id) is None && (keys.contains(
            s.sessions[id].owner,
        ) || s.sessions[id].owner == user),
        !s.sessions.contains_key(user) && s.sessions[id].owner == user && lookup(s.parents, id)
            is None ==> sessions_for_user(s, user, keys)(id),
        s.sessions.contains_key(user) && keys.contains(s.sessions[user].owner) && lookup(
            s.parents,
            user,
        ) is None && !keys.contains(s.sessions[id].owner) ==> !sessions_for_user(s, user, keys)(id),
{
    let more = keys.push(user);
    assert(more.contains(user)) by {
        assert(more[keys.len() as int] == user);
    }
    if keys.contains(s.sessions[id].owner) {
        let k = choose|k: int| 0 <= k < keys.len() && keys[k] == s.sessions[id].owner;
        assert(more[k] == s.sessions[id].owner);
    }
    if more.contains(s.sessions[id].owner) {
        let k = choose|k: int| 0 <= k < more.len() && more[k] == s.sessions[id].owner;
        if k < keys.len() {
            assert(keys[k] == s.sessions[id].owner);
        }
    }
}

/// The refusals say what was refused; one over ownership names the session and the key.
pub proof fn law_refusals_say_why(e: SessionError)
    ensures
        e matches SessionError::NotOwned(n) ==> has_text(session_error_text(e), n.session_id@)
            && has_text(session_error_text(e), n.routing_key@),
        e matches SessionError::Storage(said) ==> session_error_text(e) == said@,
        e is NotFound ==> session_error_text(e) == "session not found"@,
        e is ParentNotFound ==> session_error_text(e) == "parent session not found"@,
        e is NotYours ==> session_error_text(e) == "not your session"@,
        e is Active ==> session_error_text(e) == "cannot delete the active session"@,
{
    if let SessionError::NotOwned(n) = e {
        let t = session_error_text(e);
        let none = Seq::<char>::empty();
        let rest = "' is not owned by routing_key '"@ + n.routing_key@ + "'"@;
        let head = "session '"@ + n.session_id@ + "' is not owned by routing_key '"@;
        assert(t =~= "session '"@ + none + n.session_id@ + (none + rest));
        crate::text_laws::lemma_holds_around(t, "session '"@, none, n.session_id@, none, rest);
        assert(none + n.session_id@ + none =~= n.session_id@);
        assert(t =~= head + none + n.routing_key@ + (none + "'"@));
        crate::text_laws::lemma_holds_around(t, head, none, n.routing_key@, none, "'"@);
        assert(none + n.routing_key@ + none =~= n.routing_key@);
    }
}

/// A loaded session is the stored one: its owner, agent, parent, tokens and last message
/// are those that were kept, its agent is the main one where none was, and it begins with
/// no turn under way. It is incomplete exactly if its last message waits for an answer.
pub proof fn law_loaded_sessions(
    r: Session,
    s: Store,
    id: Seq<char>,
    owner: Seq<char>,
    over: Option<SessionOverride>,
)
    requires
        is_loaded(r, s, id, owner, over),
    ensures
        r.id@ == id,
        r.owner@ == owner,
        s.agent_names.contains_key(id) ==> r.agent_name@ == s.agent_names[id],
        !s.agent_names.contains_key(id) ==> r.agent_name@ == "main"@,
        s.parents.contains_key(id) ==> opt_text(r.parent_session_id) == Some(s.parents[id]),
        !s.parents.contains_key(id) ==> r.parent_session_id is None,
        s.tokens.contains_key(id) ==> r.total_tokens == s.tokens[id],
        !s.tokens.contains_key(id) ==> r.total_tokens == 0,
        s.last_messages.contains_key(id) ==> r.last_message == Some(s.last_messages[id]),
        !s.last_messages.contains_key(id) ==> r.last_message is None,
        over is Some ==> r.session_override == over->0,
        over is None ==> r.session_override.model is None && r.session_override.thinking is None
            && r.session_override.permission_mode is None
            && r.session_override.system_prompt_override is None,
        r.summary_metadata is None ==> r.compact_version == 0,
        r.summary_metadata is Some ==> r.compact_version == r.summary_metadata->0.version,
        r.log() == row_messages(loaded_rows(s, id)),
        r.log().len() == 0 ==> !r.incomplete_turn,
        r.log().len() > 0 ==> r.incomplete_turn == (r.log().last().role == "user"@
            || r.log().last().role == "tool"@ || (r.log().last().role == "assistant"@
            && r.log().last().tool_calls is Some && r.log().last().tool_calls->0.len() > 0)),
        r.delegation_deadline is None,
        r.pending_yield is None,
        !r.turn_silenced,
        !r.turn_headless,
{
}

/// A list of sessions holds exactly the sessions of its scope, each once, as they are.
pub proof fn law_lists_are_complete(
    r: Seq<InfoView>,
    s: Store,
    scope: Scope,
    id: Seq<char>,
    i: int,
    j: int,
)
    requires
        lists_sessions(r, s, scope),
    ensures
        (exists|k: int| 0 <= k < r.len() && (#[trigger] r[k]).id == id) <==> s.sessions.contains_key(
            id,
        ) && in_scope(scope, s.sessions[id].owner),
        0 <= i < r.len() ==> r[i].owner == s.sessions[r[i].id].owner && r[i].display_name
            == s.sessions[r[i].id].display_name && r[i].message_count == stored_messages(
            s,
            r[i].id,
        ).len() && r[i].last_activity == s.sessions[r[i].id].last_activity,
        0 <= i < j < r.len() ==> r[i].id != r[j].id,
{
}

/// In a list by activity no session stands behind one that was quiet for longer.
pub proof fn law_lists_begin_with_the_latest(r: Seq<InfoView>, i: int, j: int)
    requires
        latest_first(r),
        0 <= i < j < r.len(),
    ensures
        r[i].last_activity.secs >= r[j].last_activity.secs,
        r[i].last_activity.secs == r[j].last_activity.secs ==> r[i].last_activity.nanos
            >= r[j].last_activity.nanos,
{
}

/// An opened conversation goes on with the waits and events that were stored, where they
/// can be read, and begins with nothing else open.
pub proof fn law_opened_conversations(
    c: SessionContext,
    session: Session,
    s: Store,
    suspension: Option<TurnSuspension>,
    events: Option<Vec<PendingYieldEvent>>,
)
    requires
        is_opened(c, session, s, suspension, events),
    ensures
        c.session == session,
        lookup(s.suspensions, session.id@) is Some && trimmed(
            lookup(s.suspensions, session.id@)->0,
        ).len() > 0 ==> c.turn_suspension == suspension,
        lookup(s.suspensions, session.id@) is None ==> c.turn_suspension is None,
        lookup(s.yield_events, session.id@) is Some && trimmed(
            lookup(s.yield_events, session.id@)->0,
        ).len() > 0 && events is Some ==> c.pending_yield_events == events->0,
        lookup(s.yield_events, session.id@) is None || events is None
            ==> c.pending_yield_events@.len() == 0,
        c.pending_retry is None,
        c.notice_turns_in_flight == 0,
        c.delegation_notice_queue@.len() == 0,
        c.recently_recorded_terminals@.len() == 0,
        c.yield_waiter is None,
        c.session_id == session.id,
{
}

/// Names of sessions begin with their namespace, those of passing ones with a word of
/// their own; the names of different identifiers differ.
pub proof fn law_session_names(namespace: Seq<char>, a: Seq<char>, b: Seq<char>)
    ensures
        session_id_of(namespace, a) == namespace + "/session/"@ + a,
        ephemeral_id(a) == "ephemeral:"@ + a,
        a != b ==> session_id_of(namespace, a) != session_id_of(namespace, b),
        a != b ==> ephemeral_id(a) != ephemeral_id(b),
{
    let p = namespace + "/session/"@;
    assert((p + a).skip(p.len() as int) =~= a);
    assert((p + b).skip(p.len() as int) =~= b);
    let q = "ephemeral:"@;
    assert((q + a).skip(q.len() as int) =~= a);
    assert((q + b).skip(q.len() as int) =~= b);
}

// ── The queue file ─────────────────────────────────────────────────────────

/// A path below a directory is the directory, one slash, and the path; a path that begins
/// with a slash stands for itself.
pub proof fn law_paths_below(a: Seq<char>, b: Seq<char>)
    ensures
        b.len() > 0 && b[0] == '/' ==> path_below(a, b) == b,
        (b.len() == 0 || b[0] != '/') && a.len() > 0 && a.last() == '/' ==> path_below(a, b) == a
            + b,
        (b.len() == 0 || b[0] != '/') && a.len() > 0 && a.last() != '/' ==> path_below(a, b)
            == a.push('/') + b,
        (b.len() == 0 || b[0] != '/') && a.len() == 0 ==> path_below(a, b) == b,
{
    reveal_strlit("/");
    assert(a + "/"@ + b =~= a.push('/') + b);
    assert(a.len() == 0 ==> a + b =~= b);
}

/// The lines of a queue are taken in order, without those that are blank.
pub proof fn law_queued_lines_in_order(a: Seq<Seq<char>>, b: Seq<Seq<char>>, line: Seq<char>)
    ensures
        filled_lines(a + b) == filled_lines(a) + filled_lines(b),
        trimmed(line).len() > 0 ==> filled_lines(seq![line]) == seq![line],
        trimmed(line).len() == 0 ==> filled_lines(seq![line]).len() == 0,
    decreases b.len(),
{
    reveal_with_fuel(filled_lines, 2);
    assert(seq![line].drop_last() =~= Seq::<Seq<char>>::empty());
    assert(seq![line].last() == line);
    assert(Seq::<Seq<char>>::empty().push(line) =~= seq![line]);
    if b.len() == 0 {
        assert(a + b =~= a);
        assert(filled_lines(a) + filled_lines(b) =~= filled_lines(a));
    } else {
        assert((a + b).drop_last() =~= a + b.drop_last());
        assert((a + b).last() == b.last());
        law_queued_lines_in_order(a, b.drop_last(), line);
        assert(filled_lines(a + b) =~= filled_lines(a) + filled_lines(b));
    }
}

/// Of a queue every message that can be read is kept, in order.
pub proof fn law_queued_messages_in_order(
    a: Seq<Option<ChatMessage>>,
    b: Seq<Option<ChatMessage>>,
    m: Option<ChatMessage>,
)
    ensures
        readable(a + b) == readable(a) + readable(b),
        m is Some ==> readable(seq![m]) == seq![m->0@],
        m is None ==> readable(seq![m]).len() == 0,
    decreases b.len(),
{
    reveal_with_fuel(readable, 2);
    assert(seq![m].drop_last() =~= Seq::<Option<ChatMessage>>::empty());
    assert(seq![m].last() == m);
    if m is Some {
        assert(Seq::<MessageView>::empty().push(m->0@) =~= seq![m->0@]);
    }
    if b.len() == 0 {
        assert(a + b =~= a);
        assert(readable(a) + readable(b) =~= readable(a));
    } else {
        assert((a + b).drop_last() =~= a + b.drop_last());
        assert((a + b).last() == b.last());
        law_queued_messages_in_order(a, b.drop_last(), m);
        assert(readable(a + b) =~= readable(a) + readable(b));
    }
}

// ── Channels ───────────────────────────────────────────────────────────────

/// What is kept of a message is the message: an answer goes to the message that the sender
/// named, or to the message itself, and into its thread.
pub proof fn law_answers_go_to_the_last_message(m: ChannelInboundMessage)
    ensures
        kept_of(m).id == m.id,
        kept_of(m).sender == m.sender,
        kept_of(m).receiver == m.receiver,
        kept_of(m).text == m.text,
        kept_of(m).timestamp == m.timestamp,
        m.receiver.reply_to_message_id is Some ==> replied_to(Some(kept_of(m)))
            == Some(m.receiver.reply_to_message_id->0@),
        m.receiver.reply_to_message_id is None ==> replied_to(Some(kept_of(m))) == Some(m.id@),
        thread_of(Some(kept_of(m))) == opt_text(m.receiver.thread_id),
        replied_to(None) is None,
        thread_of(None) is None,
{
}

} // verus!
