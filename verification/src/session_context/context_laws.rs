//! What the state of a conversation between its turns promises.

use vstd::prelude::*;

use crate::session::channel::InboundFile;
use crate::session::chat::{MessageView, PartView, StopReason};
use crate::session::types::blank;
use crate::session_context::helpers::{aged_log, aged_stored, bare_continue};
use crate::session_context::suspension::{
    fold_of, preview_of, recorded_stop, reports_of, suspended_on, with_pending, with_report,
    with_terminal, FoldCandidate, SubStatus, SuspensionView,
};
use crate::session_context::turn::{
    admits, file_parts, fold_for, in_flight_after, nothing_to_continue, sends_answer, sequence_over,
    spoken_script, user_message_of, user_text_of, with_last_marked, Admission, StreamDelivery,
};
use crate::session_context::{
    arrival, event_lines, events_text, interrupts, names_task, recent_after, remembered, waits_for,
    NoticeTurnGuard, SessionContext,
};
use crate::text::{has_text, opt_text, trimmed};
use crate::text_laws::lemma_holds_around;

verus! {

// ── Delegated work ─────────────────────────────────────────────────────────

/// The end of a task is taken in as it was reported: its status, its content and the
/// number of its messages are those of the report, and the reports on its way come with
/// it. It stands behind the results that were there, which stay.
pub proof fn law_results_are_as_reported(
    s: SuspensionView,
    id: Seq<char>,
    status: SubStatus,
    content: Seq<char>,
    sent: u64,
)
    ensures
        ({
            let r = with_terminal(s, id, status, content, sent);
            &&& r.results.len() == s.results.len() + 1
            &&& r.results.drop_last() == s.results
            &&& r.results.last().sub_session_id == id
            &&& r.results.last().status == status
            &&& r.results.last().content == content
            &&& r.results.last().sent_message_count == sent
            &&& r.results.last().progress == (if s.progress.contains_key(id) {
                s.progress[id]
            } else {
                Seq::<Seq<char>>::empty()
            })
        }),
{
    assert(with_terminal(s, id, status, content, sent).results.drop_last() =~= s.results);
}

/// The end of a task touches nothing of a suspension but that task: when it began, in
/// which turn and under which preview it shows stay, as do the reports of other tasks.
pub proof fn law_the_end_of_a_task_keeps_the_rest(
    s: SuspensionView,
    id: Seq<char>,
    status: SubStatus,
    content: Seq<char>,
    sent: u64,
    other: Seq<char>,
)
    requires
        other != id,
    ensures
        ({
            let r = with_terminal(s, id, status, content, sent);
            &&& r.origin_turn_seq == s.origin_turn_seq
            &&& r.suspended_at == s.suspended_at
            &&& r.preview == s.preview
            &&& r.progress.contains_key(other) == s.progress.contains_key(other)
            &&& s.progress.contains_key(other) ==> r.progress[other] == s.progress[other]
            &&& !r.progress.contains_key(id)
        }),
{
}

/// The tasks that are still waited for keep their order.
pub proof fn law_waiting_tasks_keep_their_order(
    s: SuspensionView,
    a: Seq<Seq<char>>,
    b: Seq<Seq<char>>,
    id: Seq<char>,
    status: SubStatus,
    content: Seq<char>,
    sent: u64,
)
    requires
        s.pending == a.push(id) + b,
        !a.contains(id),
        !b.contains(id),
    ensures
        with_terminal(s, id, status, content, sent).pending == a + b,
{
    lemma_without_absent(a, id);
    lemma_without_at(a, b, id);
}

proof fn lemma_without_absent(a: Seq<Seq<char>>, id: Seq<char>)
    requires
        !a.contains(id),
    ensures
        crate::session_context::suspension::without(a, id) == a,
    decreases a.len(),
{
    if a.len() > 0 {
        assert(a[a.len() - 1] == a.last());
        assert(a.contains(a.last()));
        assert(!a.drop_last().contains(id)) by {
            if a.drop_last().contains(id) {
                let k = choose|k: int| 0 <= k < a.drop_last().len() && a.drop_last()[k] == id;
                assert(a[k] == id);
            }
        }
        lemma_without_absent(a.drop_last(), id);
        assert(a.drop_last().push(a.last()) =~= a);
    }
}

proof fn lemma_without_at(a: Seq<Seq<char>>, b: Seq<Seq<char>>, id: Seq<char>)
    requires
        !a.contains(id),
        !b.contains(id),
    ensures
        crate::session_context::suspension::without(a.push(id) + b, id) == a + b,
    decreases b.len(),
{
    let all = a.push(id) + b;
    if b.len() == 0 {
        assert(all.drop_last() =~= a);
        assert(all.last() == id);
        lemma_without_absent(a, id);
        assert(a + b =~= a);
    } else {
        assert(all.drop_last() =~= a.push(id) + b.drop_last());
        assert(all.last() == b.last());
        assert(b[b.len() - 1] == b.last());
        assert(b.contains(b.last()));
        assert(!b.drop_last().contains(id)) by {
            if b.drop_last().contains(id) {
                let k = choose|k: int| 0 <= k < b.drop_last().len() && b.drop_last()[k] == id;
                assert(b[k] == id);
            }
        }
        lemma_without_at(a, b.drop_last(), id);
        assert((a + b.drop_last()).push(b.last()) =~= a + b);
    }
}

/// A turn that is suspended on its first task waits for that task alone; one more task
/// is waited for behind the others, and nothing else changes.
pub proof fn law_tasks_are_waited_for_in_order(s: SuspensionView, id: Seq<char>, now: i64)
    ensures
        suspended_on(id, now).pending == seq![id],
        suspended_on(id, now).suspended_at == now,
        suspended_on(id, now).results.len() == 0,
        forall|k: Seq<char>| !#[trigger] suspended_on(id, now).progress.contains_key(k),
        suspended_on(id, now).preview is None,
        !s.pending.contains(id) ==> with_pending(s, id) == (SuspensionView {
            pending: s.pending + seq![id],
            ..s
        }),
        s.pending.contains(id) ==> with_pending(s, id) == s,
{
    assert(s.pending.push(id) =~= s.pending + seq![id]);
}

/// A report on the way is kept behind the earlier ones of its task, and nothing else
/// changes.
pub proof fn law_reports_are_kept_in_order(
    s: SuspensionView,
    id: Seq<char>,
    text: Seq<char>,
    other: Seq<char>,
)
    requires
        other != id,
    ensures
        ({
            let r = with_report(s, id, text);
            &&& r.progress.contains_key(id)
            &&& r.progress[id].last() == text
            &&& r.progress[id].drop_last() == reports_of(s.progress, id)
            &&& r.progress.contains_key(other) == s.progress.contains_key(other)
            &&& s.progress.contains_key(other) ==> r.progress[other] == s.progress[other]
            &&& r == (SuspensionView { progress: r.progress, ..s })
        }),
{
    let r = with_report(s, id, text);
    assert(r.progress[id].drop_last() =~= reports_of(s.progress, id));
}

/// The end of a task is new if the turn waits for it. Otherwise it is known if it was
/// taken in within the hour or its result is held; an end that is neither is new to a
/// suspended turn and unawaited by any other.
pub proof fn law_ends_of_tasks(
    s: Option<SuspensionView>,
    recent: Seq<(Seq<char>, u64)>,
    id: Seq<char>,
    now: u64,
)
    ensures
        ({
            let a = arrival(s, recent, id, now);
            let awaited = s is Some && s->0.pending.contains(id);
            let lately = exists|i: int|
                0 <= i < recent.len() && (#[trigger] recent[i]).0 == id && (now < recent[i].1
                    || now - recent[i].1 <= 3600 * 1_000_000_000);
            let held = s is Some && exists|i: int|
                0 <= i < s->0.results.len() && (#[trigger] s->0.results[i]).sub_session_id == id;
            &&& awaited ==> a is New
            &&& !awaited && (lately || held) ==> a is Known
            &&& !awaited && !lately && !held && s is Some ==> a is New
            &&& !awaited && !lately && s is None ==> a is Unawaited
        }),
{
    lemma_remembered_names(recent, id, now);
}

proof fn lemma_remembered_names(recent: Seq<(Seq<char>, u64)>, id: Seq<char>, now: u64)
    ensures
        names_task(remembered(recent, now), id) == exists|i: int|
            0 <= i < recent.len() && (#[trigger] recent[i]).0 == id && (now < recent[i].1 || now
                - recent[i].1 <= 3600 * 1_000_000_000),
    decreases recent.len(),
{
    let r = remembered(recent, now);
    if recent.len() > 0 {
        let fewer = recent.drop_last();
        lemma_remembered_names(fewer, id, now);
        let before = remembered(fewer, now);
        if names_task(r, id) {
            let k = choose|k: int| 0 <= k < r.len() && (#[trigger] r[k]).0 == id;
            if k < before.len() {
                assert(before[k] == r[k]);
                assert(names_task(before, id));
                let i = choose|i: int|
                    0 <= i < fewer.len() && (#[trigger] fewer[i]).0 == id && (now < fewer[i].1
                        || now - fewer[i].1 <= 3600 * 1_000_000_000);
                assert(recent[i] == fewer[i]);
            } else {
                assert(recent[recent.len() - 1].0 == id);
            }
        }
        if exists|i: int|
            0 <= i < recent.len() && (#[trigger] recent[i]).0 == id && (now < recent[i].1 || now
                - recent[i].1 <= 3600 * 1_000_000_000) {
            let i = choose|i: int|
                0 <= i < recent.len() && (#[trigger] recent[i]).0 == id && (now < recent[i].1
                    || now - recent[i].1 <= 3600 * 1_000_000_000);
            if i < fewer.len() {
                assert(fewer[i] == recent[i]);
                let k = choose|k: int| 0 <= k < before.len() && (#[trigger] before[k]).0 == id;
                assert(r[k] == before[k]);
            } else {
                assert(r[r.len() - 1].0 == id);
            }
        }
    }
}

/// The end of a task that is taken in is remembered with its time, behind the others.
pub proof fn law_ends_are_remembered(
    s: Option<SuspensionView>,
    recent: Seq<(Seq<char>, u64)>,
    id: Seq<char>,
    now: u64,
)
    ensures
        arrival(s, recent, id, now) is New ==> recent_after(s, recent, id, now).len() > 0
            && recent_after(s, recent, id, now).last() == (id, now),
        forall|i: int|
            0 <= i < recent_after(s, recent, id, now).len() ==> recent.contains(
                #[trigger] recent_after(s, recent, id, now)[i],
            ) || recent_after(s, recent, id, now)[i] == (id, now),
{
    lemma_remembered_were_there(recent, now);
    let r = recent_after(s, recent, id, now);
    let kept = if waits_for(s, id) {
        recent
    } else {
        remembered(recent, now)
    };
    assert forall|i: int| 0 <= i < r.len() implies recent.contains(#[trigger] r[i]) || r[i] == (
        id,
        now,
    ) by {
        if i < kept.len() {
            assert(r[i] == kept[i]);
        }
    }
}

proof fn lemma_remembered_were_there(v: Seq<(Seq<char>, u64)>, now: u64)
    ensures
        forall|i: int|
            0 <= i < remembered(v, now).len() ==> v.contains(#[trigger] remembered(v, now)[i]),
    decreases v.len(),
{
    if v.len() > 0 {
        lemma_remembered_were_there(v.drop_last(), now);
        let r = remembered(v, now);
        let before = remembered(v.drop_last(), now);
        assert forall|i: int| 0 <= i < r.len() implies v.contains(#[trigger] r[i]) by {
            if i < before.len() {
                assert(r[i] == before[i]);
                let k = choose|k: int| 0 <= k < v.drop_last().len() && v.drop_last()[k] == before[i];
                assert(v[k] == r[i]);
            } else {
                assert(v[v.len() - 1] == r[i]);
            }
        }
    }
}

/// A turn ends for good, for the record, unless it is a quiet one that leaves work
/// running; other reasons to stop stay as they are.
pub proof fn law_recorded_stops(silenced: bool, has_pending: bool, reason: StopReason)
    ensures
        silenced && has_pending && reason == StopReason::EndTurn ==> recorded_stop(
            silenced,
            has_pending,
            reason,
        ) == StopReason::Continue,
        !(silenced && has_pending) || reason != StopReason::EndTurn ==> recorded_stop(
            silenced,
            has_pending,
            reason,
        ) == reason,
{
}

// ── Yields ─────────────────────────────────────────────────────────────────

/// Events are told one after another, in the order in which they came.
pub proof fn law_events_are_told_in_order(a: Seq<Seq<char>>, b: Seq<Seq<char>>, x: Seq<char>)
    ensures
        event_lines(a + b) == event_lines(a) + event_lines(b),
        event_lines(seq![x]) == "- "@ + x + "\n"@,
        events_text(seq![x]) == x,
        (a + b).len() != 1 ==> events_text(a + b)
            == "Since you yielded, the following happened:\n"@ + event_lines(a) + event_lines(b),
    decreases b.len(),
{
    reveal_with_fuel(event_lines, 2);
    assert(seq![x].drop_last() =~= Seq::<Seq<char>>::empty());
    assert(seq![x].last() == x);
    assert(event_lines(seq![x]) =~= "- "@ + x + "\n"@);
    if b.len() == 0 {
        assert(a + b =~= a);
        assert(event_lines(a) + event_lines(b) =~= event_lines(a));
    } else {
        assert((a + b).drop_last() =~= a + b.drop_last());
        assert((a + b).last() == b.last());
        law_events_are_told_in_order(a, b.drop_last(), x);
        assert(event_lines(a + b) =~= event_lines(a) + event_lines(b));
    }
    assert("Since you yielded, the following happened:\n"@ + (event_lines(a) + event_lines(b))
        =~= "Since you yielded, the following happened:\n"@ + event_lines(a) + event_lines(b));
}

/// A user who interrupts a wait is heard: the call that waited gets what was said as
/// its result, no longer waits, and the conversation so far stays.
pub proof fn law_interruptions_are_heard(
    before: SessionContext,
    after: SessionContext,
    content: Seq<char>,
)
    requires
        interrupts(before, after, content),
        before.session.pending_yield is Some,
    ensures
        after.session.pending_yield is None,
        after.session.log().len() == before.session.log().len() + 1,
        after.session.log().drop_last() == before.session.log(),
        after.session.log().last().role == "tool"@,
        after.session.log().last().tool_call_id == Some(
            before.session.pending_yield->0.tool_call_id@,
        ),
        after.session.log().last().is_error == Some(false),
        after.session.log().last().parts.len() == 1,
        after.session.log().last().parts[0] matches PartView::Text(t) && has_text(t, content),
        after.turn_suspension == before.turn_suspension,
        after.pending_yield_events == before.pending_yield_events,
{
    assert(after.session.log().drop_last() =~= before.session.log());
    let e = Seq::<char>::empty();
    let p = "The user interrupted the wait and said: "@;
    assert(p + content =~= p + e + content + (e + e));
    lemma_holds_around(p + content, p, e, content, e, e);
    assert(e + content + e =~= content);
}

// ── What the user says ─────────────────────────────────────────────────────

/// What a user says reaches the model as it was said, behind the reminders of the turn.
/// Only files that come without words are spoken of by the hint.
pub proof fn law_words_of_the_user(
    content: Seq<char>,
    media: nat,
    reminder: Seq<char>,
    image_hint: Seq<char>,
)
    ensures
        media == 0 || !blank(content) ==> user_text_of(content, media, None, image_hint)
            == content,
        media > 0 && blank(content) ==> user_text_of(content, media, None, image_hint)
            == image_hint,
        user_text_of(content, media, Some(reminder), image_hint) == reminder + "\n\n"@
            + user_text_of(content, media, None, image_hint),
{
}

/// A message of a user with files holds the files in their order, and what was said
/// behind them.
pub proof fn law_files_of_the_user(text: Seq<char>, media: Seq<PartView>)
    ensures
        user_message_of(text, media).role == "user"@,
        user_message_of(text, media).parts == media + seq![PartView::Text(text)],
        user_message_of(text, media).tool_calls is None,
        user_message_of(text, media).tool_call_id is None,
{
    assert(user_message_of(text, media).parts =~= media + seq![PartView::Text(text)]);
}

/// A message that is admitted to a turn is the last of the conversation, which is
/// otherwise unchanged, and is not stored yet. A bare request to go on, with nothing
/// open, is answered at once and leaves no message.
pub proof fn law_messages_are_admitted(
    before: SessionContext,
    after: SessionContext,
    r: Admission,
    content: Seq<char>,
    media: Seq<PartView>,
    reminder: Option<Seq<char>>,
    was_incomplete: bool,
    bare_reply: Seq<char>,
    image_hint: Seq<char>,
)
    requires
        admits(
            before,
            after,
            r,
            content,
            media,
            reminder,
            was_incomplete,
            bare_reply,
            image_hint,
        ),
    ensures
        r is Ready ==> after.session.log().len() == before.session.log().len() + 1
            && after.session.log().drop_last() == before.session.log()
            && after.session.log().last().role == "user"@ && after.session.message_ids@.last()
            == 0,
        r is BareContinue ==> after.session.log() == before.session.log(),
        was_incomplete || media.len() > 0 || before.pending_retry is Some ==> r is Ready,
        after.turn_suspension == before.turn_suspension,
        after.pending_retry == before.pending_retry,
{
    if r is Ready {
        assert(after.session.log().drop_last() =~= before.session.log());
    }
}

/// Each user message that has an aged form takes it; the others, and all that is not
/// the user's, stay.
pub proof fn law_aging(h: Seq<MessageView>, aged: Seq<Option<MessageView>>, i: int)
    requires
        aged.len() == h.len(),
        0 <= i < h.len(),
    ensures
        aged_log(h, aged).len() == h.len(),
        h[i].role == "user"@ && aged[i] is Some ==> aged_log(h, aged)[i] == aged[i]->0,
        h[i].role != "user"@ || aged[i] is None ==> aged_log(h, aged)[i] == h[i],
{
}

/// The messages to be stored anew are those that aged and are stored, in their order.
pub proof fn law_aged_messages_are_stored(
    h: Seq<MessageView>,
    ids: Seq<i64>,
    aged: Seq<Option<MessageView>>,
    n: nat,
    i: usize,
)
    requires
        n <= h.len(),
        n <= usize::MAX,
        ids.len() == h.len(),
        aged.len() == h.len(),
    ensures
        aged_stored(h, ids, aged, n).contains(i) == (i < n && h[i as int].role == "user"@
            && aged[i as int] is Some && ids[i as int] > 0),
        forall|a: int, b: int|
            0 <= a < b < aged_stored(h, ids, aged, n).len() ==> (#[trigger] aged_stored(
                h,
                ids,
                aged,
                n,
            )[a]) < (#[trigger] aged_stored(h, ids, aged, n)[b]),
        forall|a: int|
            0 <= a < aged_stored(h, ids, aged, n).len() ==> (#[trigger] aged_stored(
                h,
                ids,
                aged,
                n,
            )[a]) < n,
    decreases n,
{
    if n > 0 {
        law_aged_messages_are_stored(h, ids, aged, (n - 1) as nat, i);
        let before = aged_stored(h, ids, aged, (n - 1) as nat);
        let r = aged_stored(h, ids, aged, n);
        if before.contains(i) {
            let k = choose|k: int| 0 <= k < before.len() && before[k] == i;
            assert(r[k] == i);
        }
        if h[n - 1].role == "user"@ && aged[n - 1] is Some && ids[n - 1] > 0 {
            assert(r == before.push((n - 1) as usize));
            if i == n - 1 {
                assert(r[r.len() - 1] == i);
            }
            if r.contains(i) {
                let k = choose|k: int| 0 <= k < r.len() && r[k] == i;
                if k < before.len() {
                    assert(before[k] == i);
                    assert(before.contains(i));
                }
            }
        }
    }
}

// ── The end of a turn ──────────────────────────────────────────────────────

/// A suspension is over once nothing is waited for, no notice waits and no turn of a
/// notice runs; until that it lasts.
pub proof fn law_suspensions_end(ctx: SessionContext, in_flight: usize)
    ensures
        sequence_over(ctx, in_flight) == (ctx.suspended() is Some
            && ctx.suspended()->0.pending.len() == 0 && in_flight == 0
            && ctx.delegation_notice_queue@.len() == 0),
{
}

/// The end of a notice's turn counts once.
pub proof fn law_turns_of_notices_are_counted(ctx: SessionContext, guard: NoticeTurnGuard)
    ensures
        guard.active && !guard.done && ctx.notice_turns_in_flight > 0 ==> in_flight_after(
            ctx,
            guard,
        ) == ctx.notice_turns_in_flight - 1,
        !guard.active || guard.done || ctx.notice_turns_in_flight == 0 ==> in_flight_after(
            ctx,
            guard,
        ) == ctx.notice_turns_in_flight,
{
}

/// Only the last message is marked, only if it is the assistant's, and only in how it
/// stopped.
pub proof fn law_marks(h: Seq<MessageView>, i: int)
    requires
        0 <= i < h.len(),
    ensures
        with_last_marked(h).len() == h.len(),
        i < h.len() - 1 || h[i].role != "assistant"@ || h[i].usage is None ==> with_last_marked(
            h,
        )[i] == h[i],
        with_last_marked(h)[i].parts == h[i].parts,
        with_last_marked(h)[i].role == h[i].role,
        with_last_marked(h)[i].tool_calls == h[i].tool_calls,
        i == h.len() - 1 && h[i].role == "assistant"@ && h[i].usage is Some ==> with_last_marked(
            h,
        )[i].usage is Some && with_last_marked(h)[i].usage->0.stop_reason == Some("Continue"@),
{
}

/// A preview that is kept comes back as it was, for the target it was kept for.
pub proof fn law_previews_come_back(
    reply_target: String,
    fold: FoldCandidate,
    s: SuspensionView,
    notice: bool,
)
    ensures
        fold_of(preview_of(reply_target, fold)) == fold,
        preview_of(reply_target, fold).reply_target == reply_target,
        fold_for(
            Some(notice),
            Some(SuspensionView { preview: Some(preview_of(reply_target, fold)), ..s }),
        ) == Some(fold),
        fold_for(None, Some(s)) is None,
        fold_for(Some(notice), None) is None,
        s.preview is None ==> fold_for(Some(notice), Some(s)) is None,
{
}

/// An answer is sent exactly if it is no blank, was not delivered by the stream, and was
/// not shown already by a turn that is suspended.
pub proof fn law_answers_are_sent(
    delivery: StreamDelivery,
    suspended_turn: bool,
    text: Seq<char>,
)
    ensures
        sends_answer(delivery, suspended_turn, text) == (!blank(text) && delivery
            != StreamDelivery::FinalDelivered && !(delivery == StreamDelivery::Visible
            && suspended_turn)),
{
}

/// A script is spoken whole, unless it is empty or too long.
pub proof fn law_scripts_are_spoken_whole(script: Seq<char>)
    ensures
        0 < script.len() <= 2000 ==> spoken_script(script) == Some(script),
        script.len() == 0 ==> spoken_script(script) is None,
        script.len() > 2000 ==> spoken_script(script)
            is None,
{
}

/// Each file of a message that has a place becomes a part, in order, with its own type,
/// name and size; a stored copy counts before the place that the sender named.
pub proof fn law_files_become_parts(
    files: Seq<InboundFile>,
    file: InboundFile,
    stores: bool,
    saved: Seq<Option<String>>,
    hints: Seq<Option<String>>,
)
    ensures
        ({
            let n = files.len() as int;
            let before = file_parts(files, stores, saved, hints);
            let after = file_parts(files.push(file), stores, saved, hints);
            &&& stores && saved[n] is Some ==> after == before + seq![
                PartView::File(
                    saved[n]->0@,
                    opt_text(file.mime_type),
                    Some(file.file_name@),
                    file.size_bytes,
                ),
            ]
            &&& (!stores || saved[n] is None) && hints[n] is Some ==> after == before + seq![
                PartView::File(
                    hints[n]->0@,
                    opt_text(file.mime_type),
                    Some(file.file_name@),
                    file.size_bytes,
                ),
            ]
            &&& (!stores || saved[n] is None) && hints[n] is None ==> after == before
        }),
        file_parts(Seq::<InboundFile>::empty(), stores, saved, hints).len() == 0,
{
    let n = files.len() as int;
    let all = files.push(file);
    assert(all.drop_last() =~= files);
    assert(all[n] == file);
    let before = file_parts(files, stores, saved, hints);
    assert forall|p: PartView| before.push(p) == #[trigger] (before + seq![p]) by {
        assert(before.push(p) =~= before + seq![p]);
    }
}

/// A bare request to go on finds nothing to do exactly if the last turn came to its end,
/// nothing waits to be tried again, and no file came with it.
pub proof fn law_nothing_to_go_on_with(
    text: Seq<char>,
    media: nat,
    was_incomplete: bool,
    retry: bool,
    h: Seq<MessageView>,
)
    ensures
        media > 0 || was_incomplete || retry ==> !nothing_to_continue(
            text,
            media,
            was_incomplete,
            retry,
            h,
        ),
        h.len() > 0 && (h.last().role == "user"@ || h.last().role == "tool"@)
            ==> !nothing_to_continue(text, media, was_incomplete, retry, h),
        h.len() == 0 && media == 0 && !was_incomplete && !retry ==> nothing_to_continue(
            text,
            media,
            was_incomplete,
            retry,
            h,
        ) == bare_continue(text),
        trimmed(text) == "继续"@ || trimmed(text) == "continue"@ || trimmed(text) == "go on"@
            ==> bare_continue(text),
        bare_continue(text) ==> 0 < trimmed(text).len() <= 10,
{
    reveal_strlit("继续");
    reveal_strlit("繼續");
    reveal_strlit("接着");
    reveal_strlit("接着做");
    reveal_strlit("接着来");
    reveal_strlit("接着说");
    reveal_strlit("继续吧");
    reveal_strlit("继续啊");
    reveal_strlit("继续。");
    reveal_strlit("继续！");
    reveal_strlit("continue");
    reveal_strlit("Continue");
    reveal_strlit("CONTINUE");
    reveal_strlit("go on");
    reveal_strlit("Go on");
    reveal_strlit("keep going");
    reveal_strlit("Keep going");
}

} // verus!
