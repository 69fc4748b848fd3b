//! What the cleaning of a history keeps of what was said, and what it adds.

use vstd::prelude::*;

use crate::session::chat::{messages_of, CallView, ChatMessage, MessageView, PartView};
use crate::session::session_override::{
    answered, belonging, belongs, cancellations, cancelled, closed, closed_round, declared,
    has_user, interruption, joined, joins, lemma_run_end, lost_history, lost_turns,
    merge_adjacent_same_role, merged, opens_round, pruned, run_end, sanitize_history, sanitized,
    unanswered, with_user, without_orphans, without_tail,
};

verus! {

// ── Order ──────────────────────────────────────────────────────────────────

/// Whether the items of `a` stand in `b` in the same order, perhaps with others between
/// them.
pub open spec fn in_order<A>(a: Seq<A>, b: Seq<A>) -> bool
    decreases b.len(),
{
    a.len() == 0 || (b.len() > 0 && ((a.last() == b.last() && in_order(
        a.drop_last(),
        b.drop_last(),
    )) || in_order(a, b.drop_last())))
}

proof fn lemma_same_order<A>(a: Seq<A>)
    ensures
        in_order(a, a),
    decreases a.len(),
{
    if a.len() > 0 {
        lemma_same_order(a.drop_last());
    }
}

proof fn lemma_order_before<A>(a: Seq<A>, b: Seq<A>, c: Seq<A>)
    requires
        in_order(a, b),
    ensures
        in_order(a, b + c),
    decreases c.len(),
{
    if c.len() == 0 {
        assert(b + c =~= b);
    } else {
        lemma_order_before(a, b, c.drop_last());
        assert((b + c).drop_last() =~= b + c.drop_last());
    }
}

proof fn lemma_order_both<A>(a: Seq<A>, b: Seq<A>, c: Seq<A>, d: Seq<A>)
    requires
        in_order(a, b),
        in_order(c, d),
    ensures
        in_order(a + c, b + d),
    decreases d.len(),
{
    if c.len() == 0 {
        assert(a + c =~= a);
        lemma_order_before(a, b, d);
    } else {
        assert((b + d).drop_last() =~= b + d.drop_last());
        assert((b + d).last() == d.last());
        if c.last() == d.last() && in_order(c.drop_last(), d.drop_last()) {
            lemma_order_both(a, b, c.drop_last(), d.drop_last());
            assert((a + c).drop_last() =~= a + c.drop_last());
            assert((a + c).last() == c.last());
        } else {
            lemma_order_both(a, b, c, d.drop_last());
        }
    }
}

proof fn lemma_order_of_fewer<A>(a: Seq<A>, b: Seq<A>)
    requires
        in_order(a, b),
        a.len() > 0,
    ensures
        in_order(a.drop_last(), b),
    decreases b.len(),
{
    if a.last() == b.last() && in_order(a.drop_last(), b.drop_last()) {
        if a.drop_last().len() > 0 {
            assert(in_order(a.drop_last(), b));
        }
    } else {
        lemma_order_of_fewer(a, b.drop_last());
    }
}

proof fn lemma_order_through<A>(a: Seq<A>, b: Seq<A>, c: Seq<A>)
    requires
        in_order(a, b),
        in_order(b, c),
    ensures
        in_order(a, c),
    decreases c.len(),
{
    if a.len() > 0 {
        if b.last() == c.last() && in_order(b.drop_last(), c.drop_last()) {
            if a.last() == b.last() && in_order(a.drop_last(), b.drop_last()) {
                lemma_order_through(a.drop_last(), b.drop_last(), c.drop_last());
            } else {
                lemma_order_through(a, b.drop_last(), c.drop_last());
            }
        } else {
            lemma_order_through(a, b, c.drop_last());
        }
    }
}

// ── What is said ───────────────────────────────────────────────────────────

/// Whether a message is the user's or the assistant's and calls no tools.
pub open spec fn is_speech(m: MessageView) -> bool {
    (m.role == "user"@ || m.role == "assistant"@) && (m.tool_calls is None
        || m.tool_calls->0.len() == 0)
}

/// The parts of a message, each with who said it.
pub open spec fn spoken_by(m: MessageView) -> Seq<(Seq<char>, PartView)> {
    m.parts.map_values(|p: PartView| (m.role, p))
}

/// What was said in a history, part by part, each with who said it.
pub open spec fn said(h: Seq<MessageView>) -> Seq<(Seq<char>, PartView)>
    decreases h.len(),
{
    if h.len() == 0 {
        Seq::empty()
    } else if is_speech(h.last()) {
        said(h.drop_last()) + spoken_by(h.last())
    } else {
        said(h.drop_last())
    }
}

/// The messages of a history that are no speech: the calls of tools and their results.
pub open spec fn work(h: Seq<MessageView>) -> Seq<MessageView>
    decreases h.len(),
{
    if h.len() == 0 {
        Seq::empty()
    } else if is_speech(h.last()) {
        work(h.drop_last())
    } else {
        work(h.drop_last()).push(h.last())
    }
}

proof fn lemma_said_of_both(a: Seq<MessageView>, b: Seq<MessageView>)
    ensures
        said(a + b) == said(a) + said(b),
        work(a + b) == work(a) + work(b),
    decreases b.len(),
{
    if b.len() == 0 {
        assert(a + b =~= a);
        assert(said(a) + said(b) =~= said(a));
        assert(work(a) + work(b) =~= work(a));
    } else {
        assert((a + b).drop_last() =~= a + b.drop_last());
        assert((a + b).last() == b.last());
        lemma_said_of_both(a, b.drop_last());
        assert(said(a + b) =~= said(a) + said(b));
        assert(work(a + b) =~= work(a) + work(b));
    }
}

proof fn lemma_said_by_one(m: MessageView)
    ensures
        is_speech(m) ==> said(seq![m]) == spoken_by(m) && work(seq![m]).len() == 0,
        !is_speech(m) ==> said(seq![m]).len() == 0 && work(seq![m]) == seq![m],
{
    reveal_with_fuel(said, 2);
    reveal_with_fuel(work, 2);
    assert(seq![m].drop_last() =~= Seq::<MessageView>::empty());
    assert(seq![m].last() == m);
    assert(Seq::<(Seq<char>, PartView)>::empty() + spoken_by(m) =~= spoken_by(m));
    assert(Seq::<MessageView>::empty().push(m) =~= seq![m]);
}

proof fn lemma_roles()
    ensures
        "user"@ != "assistant"@,
        "user"@ != "tool"@,
        "assistant"@ != "tool"@,
{
    reveal_strlit("user");
    reveal_strlit("assistant");
    reveal_strlit("tool");
    assert("user"@[0] != "tool"@[0]);
}

// ── Pruning ────────────────────────────────────────────────────────────────

/// Whether some assistant message of a history calls a tool under this id.
pub open spec fn is_called(h: Seq<MessageView>, id: Seq<char>) -> bool {
    exists|i: int, j: int|
        0 <= i < h.len() && (#[trigger] h[i]).role == "assistant"@ && h[i].tool_calls is Some && 0
            <= j < h[i].tool_calls->0.len() && (#[trigger] h[i].tool_calls->0[j]).id == id
}

/// Whether some tool message of a history is the result of the call of this id.
pub open spec fn has_result(h: Seq<MessageView>, id: Seq<char>) -> bool {
    exists|i: int|
        0 <= i < h.len() && (#[trigger] h[i]).role == "tool"@ && h[i].tool_call_id == Some(id)
}

/// Whether a message is the result of no call of a history.
pub open spec fn is_orphan(m: MessageView, h: Seq<MessageView>) -> bool {
    m.role == "tool"@ && (m.tool_call_id is None || !is_called(h, m.tool_call_id->0))
}

/// Whether a message calls tools, none of which gave a result in a history.
pub open spec fn is_abandoned(m: MessageView, h: Seq<MessageView>) -> bool {
    m.role == "assistant"@ && m.tool_calls is Some && m.tool_calls->0.len() > 0 && forall|j: int|
        0 <= j < m.tool_calls->0.len() ==> !has_result(h, (#[trigger] m.tool_calls->0[j]).id)
}

pub(crate) proof fn lemma_orphans(m: MessageView, h: Seq<MessageView>)
    ensures
        belongs(m, h) == !is_orphan(m, h),
{
    if m.tool_call_id is Some {
        let id = m.tool_call_id->0;
        if declared(h, id) {
            let i = choose|i: int|
                0 <= i < h.len() && crate::session::session_override::declares(#[trigger] h[i], id);
            let c = h[i].tool_calls->0;
            let j = choose|j: int| 0 <= j < c.len() && (#[trigger] c[j]).id == id;
            assert(h[i].tool_calls->0[j].id == id);
            assert(is_called(h, id));
        }
        if is_called(h, id) {
            let (i, j) = choose|i: int, j: int|
                0 <= i < h.len() && (#[trigger] h[i]).role == "assistant"@ && h[i].tool_calls
                    is Some && 0 <= j < h[i].tool_calls->0.len() && (
                #[trigger] h[i].tool_calls->0[j]).id == id;
            assert(crate::session::session_override::has_call(h[i].tool_calls->0, id));
            assert(crate::session::session_override::declares(h[i], id));
        }
    }
}

pub(crate) proof fn lemma_abandoned(m: MessageView, h: Seq<MessageView>)
    ensures
        unanswered(m, h) == is_abandoned(m, h),
{
    if opens_round(m) {
        let c = m.tool_calls->0;
        assert forall|j: int| 0 <= j < c.len() implies answered(h, (#[trigger] c[j]).id)
            == has_result(h, c[j].id) by {
            let id = c[j].id;
            if answered(h, id) {
                let i = choose|i: int|
                    0 <= i < h.len() && crate::session::session_override::answers(
                        #[trigger] h[i],
                        id,
                    );
                assert(h[i].role == "tool"@);
            }
            if has_result(h, id) {
                let i = choose|i: int|
                    0 <= i < h.len() && (#[trigger] h[i]).role == "tool"@ && h[i].tool_call_id
                        == Some(id);
                assert(crate::session::session_override::answers(h[i], id));
            }
        }
        if unanswered(m, h) {
            assert forall|j: int| 0 <= j < c.len() implies !has_result(
                h,
                (#[trigger] m.tool_calls->0[j]).id,
            ) by {
                assert(!answered(h, m.tool_calls->0[j].id));
                assert(answered(h, c[j].id) == has_result(h, c[j].id));
            }
        }
        if is_abandoned(m, h) {
            assert forall|j: int| 0 <= j < c.len() implies !answered(
                h,
                (#[trigger] m.tool_calls->0[j]).id,
            ) by {
                assert(answered(h, c[j].id) == has_result(h, c[j].id));
            }
        }
    }
}

/// Of a history exactly the orphan results are dropped, and what is left keeps its
/// order: histories that follow one another are cleaned one after another.
pub proof fn law_only_orphans_are_dropped(
    a: Seq<MessageView>,
    b: Seq<MessageView>,
    all: Seq<MessageView>,
    m: MessageView,
)
    ensures
        belonging(a + b, all) == belonging(a, all) + belonging(b, all),
        !is_orphan(m, all) ==> belonging(seq![m], all) == seq![m],
        is_orphan(m, all) ==> belonging(seq![m], all).len() == 0,
        without_orphans(a) == belonging(a, a),
    decreases b.len(),
{
    lemma_orphans(m, all);
    reveal_with_fuel(belonging, 2);
    assert(seq![m].drop_last() =~= Seq::<MessageView>::empty());
    assert(seq![m].last() == m);
    assert(Seq::<MessageView>::empty().push(m) =~= seq![m]);
    if b.len() == 0 {
        assert(a + b =~= a);
        assert(belonging(a, all) + belonging(b, all) =~= belonging(a, all));
    } else {
        assert((a + b).drop_last() =~= a + b.drop_last());
        assert((a + b).last() == b.last());
        law_only_orphans_are_dropped(a, b.drop_last(), all, m);
        assert(belonging(a + b, all) =~= belonging(a, all) + belonging(b, all));
    }
}

/// Of a history without orphans exactly the abandoned calls at its end are dropped.
pub proof fn law_only_abandoned_calls_are_dropped(h: Seq<MessageView>, all: Seq<MessageView>)
    ensures
        ({
            let r = without_tail(h, all);
            &&& r.len() <= h.len()
            &&& r == h.take(r.len() as int)
            &&& forall|i: int| r.len() <= i < h.len() ==> is_abandoned(#[trigger] h[i], all)
            &&& r.len() > 0 ==> !is_abandoned(r.last(), all)
        }),
        pruned(h) == without_tail(without_orphans(h), without_orphans(h)),
    decreases h.len(),
{
    if h.len() > 0 {
        lemma_abandoned(h.last(), all);
    }
    if h.len() > 0 && unanswered(h.last(), all) {
        let fewer = h.drop_last();
        law_only_abandoned_calls_are_dropped(fewer, all);
        let r = without_tail(h, all);
        assert(fewer.take(r.len() as int) =~= h.take(r.len() as int));
        assert forall|i: int| r.len() <= i < h.len() implies is_abandoned(
            #[trigger] h[i],
            all,
        ) by {
            if i < fewer.len() {
                assert(fewer[i] == h[i]);
            }
        }
    } else {
        assert(h.take(h.len() as int) =~= h);
    }
}

proof fn lemma_pruning_keeps_speech(h: Seq<MessageView>)
    ensures
        said(pruned(h)) == said(h),
        in_order(pruned(h), h),
{
    lemma_orphans_keep_speech(h, h);
    let kept = without_orphans(h);
    lemma_tail_keeps_speech(kept, kept);
    lemma_order_through(pruned(h), kept, h);
}

proof fn lemma_orphans_keep_speech(h: Seq<MessageView>, all: Seq<MessageView>)
    ensures
        said(belonging(h, all)) == said(h),
        in_order(belonging(h, all), h),
    decreases h.len(),
{
    lemma_roles();
    if h.len() > 0 {
        lemma_orphans_keep_speech(h.drop_last(), all);
        let before = belonging(h.drop_last(), all);
        if belongs(h.last(), all) {
            assert(before.push(h.last()).drop_last() =~= before);
        } else {
            assert(!is_speech(h.last()));
        }
    }
}

proof fn lemma_tail_keeps_speech(h: Seq<MessageView>, all: Seq<MessageView>)
    ensures
        said(without_tail(h, all)) == said(h),
        in_order(without_tail(h, all), h),
    decreases h.len(),
{
    if h.len() > 0 && unanswered(h.last(), all) {
        lemma_tail_keeps_speech(h.drop_last(), all);
        assert(!is_speech(h.last()));
    } else {
        lemma_same_order(h);
    }
}

// ── Closing ────────────────────────────────────────────────────────────────

/// A call that was interrupted gets a result that is an error, under its own id and
/// name.
pub proof fn law_cancelled_calls(c: CallView)
    ensures
        cancelled(c).role == "tool"@,
        cancelled(c).tool_call_id == Some(c.id),
        cancelled(c).name == Some(c.name),
        cancelled(c).is_error == Some(true),
        cancelled(c).parts == seq![PartView::Text("cancelled: turn interrupted"@)],
        cancelled(c).tool_calls is None,
{
}

/// Exactly the calls without a result are cancelled, in their order.
pub proof fn law_calls_without_results_are_cancelled(
    a: Seq<CallView>,
    b: Seq<CallView>,
    c: CallView,
    results: Seq<MessageView>,
)
    ensures
        cancellations(a + b, results) == cancellations(a, results) + cancellations(b, results),
        has_result(results, c.id) ==> cancellations(seq![c], results).len() == 0,
        !has_result(results, c.id) ==> cancellations(seq![c], results) == seq![cancelled(c)],
    decreases b.len(),
{
    if answered(results, c.id) {
        let i = choose|i: int|
            0 <= i < results.len() && crate::session::session_override::answers(
                #[trigger] results[i],
                c.id,
            );
        assert(results[i].role == "tool"@);
        assert(has_result(results, c.id));
    }
    if has_result(results, c.id) {
        let i = choose|i: int|
            0 <= i < results.len() && (#[trigger] results[i]).role == "tool"@
                && results[i].tool_call_id == Some(c.id);
        assert(crate::session::session_override::answers(results[i], c.id));
    }
    reveal_with_fuel(cancellations, 2);
    assert(seq![c].drop_last() =~= Seq::<CallView>::empty());
    assert(seq![c].last() == c);
    assert(Seq::<MessageView>::empty().push(cancelled(c)) =~= seq![cancelled(c)]);
    if b.len() == 0 {
        assert(a + b =~= a);
        assert(cancellations(a, results) + cancellations(b, results) =~= cancellations(a, results));
    } else {
        assert((a + b).drop_last() =~= a + b.drop_last());
        assert((a + b).last() == b.last());
        law_calls_without_results_are_cancelled(a, b.drop_last(), c, results);
        assert(cancellations(a + b, results) =~= cancellations(a, results) + cancellations(
            b,
            results,
        ));
    }
}

/// A round with a later turn behind it keeps its messages; behind its results stand
/// those of the cancelled calls, and an assistant message if the later turn is the
/// user's. A message that calls no tools stays where it is.
pub proof fn law_rounds_are_closed(
    round: MessageView,
    results: Seq<MessageView>,
    next: MessageView,
    rest: Seq<MessageView>,
    m: MessageView,
)
    requires
        round.role == "assistant"@,
        round.tool_calls is Some,
        round.tool_calls->0.len() > 0,
        forall|i: int| 0 <= i < results.len() ==> (#[trigger] results[i]).role == "tool"@,
        next.role != "tool"@,
        m.role != "assistant"@ || m.tool_calls is None || m.tool_calls->0.len() == 0,
    ensures
        closed(seq![round] + results + seq![next] + rest) == seq![round] + results
            + cancellations(round.tool_calls->0, results) + (if next.role == "user"@ {
            seq![interruption()]
        } else {
            Seq::<MessageView>::empty()
        }) + closed(seq![next] + rest),
        closed(seq![round] + results) == seq![round] + results,
        closed(seq![m] + rest) == seq![m] + closed(rest),
{
    let e = Seq::<MessageView>::empty();
    let h = seq![round] + results + seq![next] + rest;
    let j = 1 + results.len() as int;
    assert(h[0] == round);
    assert(h[j] == next);
    assert forall|k: int| 1 <= k < j implies (#[trigger] h[k]).role == "tool"@ by {
        assert(h[k] == results[k - 1]);
    }
    lemma_run_is(h, 1, j);
    assert(h.take(j) =~= seq![round] + results);
    assert(h.subrange(1, j) =~= results);
    assert(h.skip(j) =~= seq![next] + rest);
    let filled = h.take(j) + cancellations(round.tool_calls->0, results);
    if next.role == "user"@ {
        assert(filled.push(interruption()) =~= filled + seq![interruption()]);
    } else {
        assert(filled + e =~= filled);
    }
    let g = seq![round] + results;
    assert(g[0] == round);
    assert forall|k: int| 1 <= k < g.len() implies (#[trigger] g[k]).role == "tool"@ by {
        assert(g[k] == results[k - 1]);
    }
    lemma_run_is(g, 1, g.len() as int);
    let f = seq![m] + rest;
    assert(f[0] == m);
    assert(f.skip(1) =~= rest);
}

proof fn lemma_run_is(h: Seq<MessageView>, from: int, j: int)
    requires
        0 <= from <= j <= h.len(),
        forall|k: int| from <= k < j ==> (#[trigger] h[k]).role == "tool"@,
        j < h.len() ==> h[j].role != "tool"@,
    ensures
        run_end(h, from) == j,
    decreases j - from,
{
    if from < j {
        assert(h[from].role == "tool"@);
        lemma_run_is(h, from + 1, j);
    }
}

proof fn lemma_closing_keeps_speech(h: Seq<MessageView>)
    ensures
        in_order(said(h), said(closed(h))),
        in_order(work(h), work(closed(h))),
        in_order(h, closed(h)),
    decreases h.len(),
{
    if h.len() == 0 {
    } else if !opens_round(h[0]) {
        lemma_closing_keeps_speech(h.skip(1));
        let first = seq![h[0]];
        assert(h =~= first + h.skip(1));
        lemma_said_of_both(first, h.skip(1));
        lemma_said_of_both(first, closed(h.skip(1)));
        lemma_same_order(said(first));
        lemma_same_order(work(first));
        lemma_same_order(first);
        lemma_order_both(said(first), said(first), said(h.skip(1)), said(closed(h.skip(1))));
        lemma_order_both(work(first), work(first), work(h.skip(1)), work(closed(h.skip(1))));
        lemma_order_both(first, first, h.skip(1), closed(h.skip(1)));
    } else {
        let j = run_end(h, 1);
        lemma_run_end(h, 1);
        if j >= h.len() {
            lemma_same_order(said(h));
            lemma_same_order(work(h));
            lemma_same_order(h);
        } else {
            let head = h.take(j);
            let tail = h.skip(j);
            lemma_closing_keeps_speech(tail);
            assert(h =~= head + tail);
            let cancels = cancellations(h[0].tool_calls->0, h.subrange(1, j));
            let more = if h[j].role == "user"@ {
                cancels.push(interruption())
            } else {
                cancels
            };
            assert(closed_round(h, j) =~= head + more);
            lemma_said_of_both(head, more);
            lemma_said_of_both(head, tail);
            lemma_said_of_both(closed_round(h, j), closed(tail));
            lemma_same_order(said(head));
            lemma_same_order(work(head));
            lemma_same_order(head);
            lemma_order_before(said(head), said(head), said(more));
            lemma_order_before(work(head), work(head), work(more));
            lemma_order_before(head, head, more);
            lemma_order_both(said(head), said(closed_round(h, j)), said(tail), said(closed(tail)));
            lemma_order_both(work(head), work(closed_round(h, j)), work(tail), work(closed(tail)));
            lemma_order_both(head, closed_round(h, j), tail, closed(tail));
        }
    }
}

// ── Joining ────────────────────────────────────────────────────────────────

/// Neighbouring plain messages of one role become one message of that role: it begins
/// with all parts of the first and ends with all parts of the second, with a blank line
/// between them exactly if both hold text. Nothing else stands in it, and model and
/// usage are those of the later message where it has them.
pub proof fn law_joined_messages_keep_their_order(a: MessageView, b: MessageView)
    ensures
        ({
            let r = joined(a, b);
            let both = (exists|i: int|
                0 <= i < a.parts.len() && (#[trigger] a.parts[i] matches PartView::Text(t)
                    && t.len() > 0)) && (exists|i: int|
                0 <= i < b.parts.len() && (#[trigger] b.parts[i] matches PartView::Text(t)
                    && t.len() > 0));
            &&& r.parts.take(a.parts.len() as int) == a.parts
            &&& r.parts.skip(r.parts.len() - b.parts.len()) == b.parts
            &&& both ==> r.parts == a.parts + seq![PartView::Text("\n\n"@)] + b.parts
            &&& !both ==> r.parts == a.parts + b.parts
            &&& r.role == a.role
            &&& r.model == (if b.model is Some {
                b.model
            } else {
                a.model
            })
            &&& r.usage == (if b.usage is Some {
                b.usage
            } else {
                a.usage
            })
            &&& r.name == a.name
            &&& r.tool_calls == a.tool_calls
            &&& r.tool_call_id == a.tool_call_id
            &&& r.is_error == a.is_error
        }),
        joins(a, b) == (is_speech(a) && is_speech(b) && a.role == b.role),
{
    let r = joined(a, b);
    assert(r.parts.take(a.parts.len() as int) =~= a.parts);
    assert(r.parts.skip(r.parts.len() - b.parts.len()) =~= b.parts);
    assert(a.parts.push(PartView::Text("\n\n"@)) + b.parts =~= a.parts + seq![
        PartView::Text("\n\n"@),
    ] + b.parts);
}

/// A history is joined message by message: a message that does not fit the last one
/// stands behind it, and one that fits is joined to it.
pub proof fn law_joining_goes_message_by_message(h: Seq<MessageView>, m: MessageView)
    ensures
        h.len() == 0 ==> merged(h.push(m)) == seq![m],
        merged(h).len() > 0 && joins(merged(h).last(), m) ==> merged(h.push(m)).len()
            == merged(h).len() && merged(h.push(m)).drop_last() == merged(h).drop_last()
            && merged(h.push(m)).last() == joined(merged(h).last(), m),
        merged(h).len() > 0 && !joins(merged(h).last(), m) ==> merged(h.push(m)) == merged(h)
            + seq![m],
{
    assert(h.push(m).drop_last() =~= h);
    assert(h.push(m).last() == m);
    if h.len() == 0 {
        assert(merged(h) =~= Seq::<MessageView>::empty());
        assert(merged(h.push(m)) =~= seq![m]);
    } else {
        let before = merged(h);
        assert(before.push(m) =~= before + seq![m]);
        if before.len() > 0 && joins(before.last(), m) {
            let r = merged(h.push(m));
            assert(r.drop_last() =~= before.drop_last());
        }
    }
}

proof fn lemma_joined_speech(a: MessageView, b: MessageView)
    requires
        joins(a, b),
    ensures
        is_speech(joined(a, b)),
        in_order(spoken_by(a) + spoken_by(b), spoken_by(joined(a, b))),
        forall|x: (Seq<char>, PartView)| #[trigger]
            spoken_by(joined(a, b)).contains(x) ==> spoken_by(a).contains(x) || spoken_by(
                b,
            ).contains(x) || x.1 == PartView::Text("\n\n"@),
{
    let r = joined(a, b);
    let sa = spoken_by(a);
    let sb = spoken_by(b);
    let sr = spoken_by(r);
    lemma_same_order(sa);
    lemma_same_order(sb);
    let gap = (a.role, PartView::Text("\n\n"@));
    if crate::session::chat::has_text_part(a.parts) && crate::session::chat::has_text_part(
        b.parts,
    ) {
        assert(sr =~= (sa + seq![gap]) + sb);
        lemma_order_before(sa, sa, seq![gap]);
        lemma_order_both(sa, sa + seq![gap], sb, sb);
    } else {
        assert(sr =~= sa + sb);
        lemma_order_both(sa, sa, sb, sb);
    }
    assert forall|x: (Seq<char>, PartView)| #[trigger] sr.contains(x) implies sa.contains(x)
        || sb.contains(x) || x.1 == PartView::Text("\n\n"@) by {
        let k = choose|k: int| 0 <= k < sr.len() && sr[k] == x;
        if k < sa.len() {
            assert(sa[k] == x);
        } else if k >= sr.len() - sb.len() {
            assert(sb[k - (sr.len() - sb.len())] == x);
        } else {
            assert(sr[k] == gap);
        }
    }
}

proof fn lemma_merging_keeps_speech(h: Seq<MessageView>)
    ensures
        in_order(said(h), said(merged(h))),
        work(merged(h)) == work(h),
    decreases h.len(),
{
    if h.len() > 0 {
        let fewer = h.drop_last();
        let m = h.last();
        let before = merged(fewer);
        lemma_merging_keeps_speech(fewer);
        let r = merged(h);
        if before.len() > 0 && joins(before.last(), m) {
            let a = before.last();
            let front = before.drop_last();
            let both = joined(a, m);
            lemma_joined_speech(a, m);
            assert(r.drop_last() =~= front);
            assert(r.last() == both);
            assert(said(before) == said(front) + spoken_by(a));
            lemma_same_order(spoken_by(m));
            lemma_order_both(said(fewer), said(before), spoken_by(m), spoken_by(m));
            assert(said(h) == said(fewer) + spoken_by(m));
            assert(said(before) + spoken_by(m) =~= said(front) + (spoken_by(a) + spoken_by(m)));
            lemma_same_order(said(front));
            lemma_order_both(
                said(front),
                said(front),
                spoken_by(a) + spoken_by(m),
                spoken_by(both),
            );
            lemma_order_through(said(h), said(before) + spoken_by(m), said(r));
        } else {
            assert(r.drop_last() =~= before);
            if is_speech(m) {
                lemma_same_order(spoken_by(m));
                lemma_order_both(said(fewer), said(before), spoken_by(m), spoken_by(m));
            }
        }
    }
}

// ── The whole cleaning ─────────────────────────────────────────────────────

/// Cleaning keeps what was said in the order in which it was said, part by part, and by
/// whom.
pub proof fn law_sanitizing_keeps_what_was_said(h: Seq<MessageView>)
    ensures
        in_order(said(h), said(sanitized(h))),
{
    let p = pruned(h);
    let c = closed(p);
    let x = merged(c);
    lemma_pruning_keeps_speech(h);
    lemma_closing_keeps_speech(p);
    lemma_merging_keeps_speech(c);
    lemma_order_through(said(p), said(c), said(x));
    lemma_user_keeps_speech(x);
    lemma_order_through(said(p), said(x), said(sanitized(h)));
}

proof fn lemma_user_keeps_speech(x: Seq<MessageView>)
    ensures
        in_order(said(x), said(with_user(x))),
        work(with_user(x)) == work(x),
{
    if has_user(x) {
        lemma_same_order(said(x));
    } else if x.len() == 0 {
        lemma_said_by_one(lost_history());
        assert(work(with_user(x)) =~= work(x));
    } else {
        let first = seq![lost_turns()];
        lemma_said_of_both(first, x);
        lemma_said_by_one(lost_turns());
        lemma_same_order(said(x));
        let none = Seq::<(Seq<char>, PartView)>::empty();
        lemma_order_both(none, said(first), said(x), said(x));
        assert(none + said(x) =~= said(x));
        assert(work(with_user(x)) =~= work(x));
    }
}

/// Cleaning keeps the calls and results that are neither orphans nor abandoned at the
/// end, each as it was and in their order.
pub proof fn law_sanitizing_keeps_calls_and_results(h: Seq<MessageView>)
    ensures
        in_order(work(pruned(h)), work(sanitized(h))),
        in_order(pruned(h), h),
{
    let p = pruned(h);
    let c = closed(p);
    lemma_pruning_keeps_speech(h);
    lemma_closing_keeps_speech(p);
    lemma_merging_keeps_speech(c);
    lemma_user_keeps_speech(merged(c));
}

/// Whether something said stands for a break in a history: the blank line between
/// joined messages, the word that a turn was interrupted, or the word that turns were
/// lost.
pub open spec fn is_filler(x: (Seq<char>, PartView)) -> bool {
    x.1 == PartView::Text("\n\n"@) || x == ("assistant"@, PartView::Text("（已中断）"@)) || x == (
        "user"@,
        PartView::Text(
            "[CONTEXT RECOVERY] prior turns were dropped; continue from the latest request."@,
        ),
    ) || x == (
        "user"@,
        PartView::Text(
            "[CONTEXT RECOVERY] earlier user turns were dropped to fit the context window; treat the following as prior work product and continue."@,
        ),
    )
}

/// Cleaning makes nothing up: whatever is said in a cleaned history was said in the
/// history, or stands for a break in it.
pub proof fn law_sanitizing_makes_nothing_up(h: Seq<MessageView>, x: (Seq<char>, PartView))
    requires
        said(sanitized(h)).contains(x),
    ensures
        said(h).contains(x) || is_filler(x),
{
    let p = pruned(h);
    let c = closed(p);
    let m = merged(c);
    if !is_filler(x) {
        lemma_user_adds(m, x);
        lemma_merging_adds(c, x);
        lemma_closing_adds(p, x);
        lemma_pruning_keeps_speech(h);
    }
}

proof fn lemma_contains_either<A>(a: Seq<A>, b: Seq<A>, x: A)
    ensures
        (a + b).contains(x) == (a.contains(x) || b.contains(x)),
{
    if (a + b).contains(x) {
        let k = choose|k: int| 0 <= k < (a + b).len() && (a + b)[k] == x;
        if k < a.len() {
            assert(a[k] == x);
        } else {
            assert(b[k - a.len()] == x);
        }
    }
    if a.contains(x) {
        let k = choose|k: int| 0 <= k < a.len() && a[k] == x;
        assert((a + b)[k] == x);
    }
    if b.contains(x) {
        let k = choose|k: int| 0 <= k < b.len() && b[k] == x;
        assert((a + b)[k + a.len()] == x);
    }
}

proof fn lemma_user_adds(h: Seq<MessageView>, x: (Seq<char>, PartView))
    requires
        said(with_user(h)).contains(x),
        !is_filler(x),
    ensures
        said(h).contains(x),
{
    if !has_user(h) {
        let first = if h.len() == 0 {
            lost_history()
        } else {
            lost_turns()
        };
        lemma_said_by_one(first);
        assert(with_user(h) =~= seq![first] + h);
        lemma_said_of_both(seq![first], h);
        lemma_contains_either(said(seq![first]), said(h), x);
        if said(seq![first]).contains(x) {
            assert(spoken_by(first)[0] == x);
        }
    }
}

proof fn lemma_merging_adds(h: Seq<MessageView>, x: (Seq<char>, PartView))
    requires
        said(merged(h)).contains(x),
        !is_filler(x),
    ensures
        said(h).contains(x),
    decreases h.len(),
{
    if h.len() > 0 {
        let fewer = h.drop_last();
        let m = h.last();
        let before = merged(fewer);
        let r = merged(h);
        if before.len() > 0 && joins(before.last(), m) {
            let a = before.last();
            let front = before.drop_last();
            lemma_joined_speech(a, m);
            assert(r.drop_last() =~= front);
            lemma_contains_either(said(front), spoken_by(joined(a, m)), x);
            lemma_contains_either(said(front), spoken_by(a), x);
            lemma_contains_either(said(fewer), spoken_by(m), x);
            assert(said(before) == said(front) + spoken_by(a));
            assert(said(h) == said(fewer) + spoken_by(m));
            if said(before).contains(x) {
                lemma_merging_adds(fewer, x);
            }
        } else {
            assert(r.drop_last() =~= before);
            if is_speech(m) {
                lemma_contains_either(said(before), spoken_by(m), x);
                lemma_contains_either(said(fewer), spoken_by(m), x);
            }
            if said(before).contains(x) {
                lemma_merging_adds(fewer, x);
            }
        }
    } else {
        assert(merged(h) == h);
    }
}

proof fn lemma_cancellations_say_nothing(calls: Seq<CallView>, results: Seq<MessageView>)
    ensures
        said(cancellations(calls, results)).len() == 0,
    decreases calls.len(),
{
    lemma_roles();
    if calls.len() > 0 {
        let before = cancellations(calls.drop_last(), results);
        lemma_cancellations_say_nothing(calls.drop_last(), results);
        if !answered(results, calls.last().id) {
            assert(before.push(cancelled(calls.last())).drop_last() =~= before);
        }
    }
}

proof fn lemma_closing_adds(h: Seq<MessageView>, x: (Seq<char>, PartView))
    requires
        said(closed(h)).contains(x),
        !is_filler(x),
    ensures
        said(h).contains(x),
    decreases h.len(),
{
    if h.len() == 0 {
    } else if !opens_round(h[0]) {
        let first = seq![h[0]];
        assert(h =~= first + h.skip(1));
        lemma_said_of_both(first, h.skip(1));
        lemma_said_of_both(first, closed(h.skip(1)));
        lemma_contains_either(said(first), said(closed(h.skip(1))), x);
        lemma_contains_either(said(first), said(h.skip(1)), x);
        if said(closed(h.skip(1))).contains(x) {
            lemma_closing_adds(h.skip(1), x);
        }
    } else {
        let j = run_end(h, 1);
        lemma_run_end(h, 1);
        if j < h.len() {
            let head = h.take(j);
            let tail = h.skip(j);
            assert(h =~= head + tail);
            let cancels = cancellations(h[0].tool_calls->0, h.subrange(1, j));
            lemma_cancellations_say_nothing(h[0].tool_calls->0, h.subrange(1, j));
            lemma_said_of_both(head, cancels);
            lemma_said_of_both(head, tail);
            lemma_said_of_both(closed_round(h, j), closed(tail));
            lemma_contains_either(said(closed_round(h, j)), said(closed(tail)), x);
            lemma_contains_either(said(head), said(tail), x);
            let filled = head + cancels;
            assert(said(filled) =~= said(head));
            if said(closed(tail)).contains(x) {
                lemma_closing_adds(tail, x);
            } else if h[j].role == "user"@ {
                let w = interruption();
                lemma_said_by_one(w);
                assert(filled.push(w) =~= filled + seq![w]);
                lemma_said_of_both(filled, seq![w]);
                lemma_contains_either(said(filled), said(seq![w]), x);
                if said(seq![w]).contains(x) {
                    assert(spoken_by(w)[0] == x);
                }
            }
        }
    }
}

/// A history with a user message gets no word that turns were lost. One without begins
/// with that word, as a message of the user, and goes on as it was; where nothing is left,
/// the word is all there is.
pub proof fn law_recovery_is_for_lost_turns_only(h: Seq<MessageView>)
    ensures
        (exists|i: int| 0 <= i < h.len() && (#[trigger] h[i]).role == "user"@) ==> with_user(h)
            == h,
        h.len() > 0 && !(exists|i: int| 0 <= i < h.len() && (#[trigger] h[i]).role == "user"@)
            ==> with_user(h).skip(1) == h && with_user(h)[0].role == "user"@ && with_user(h)[0].parts
            == seq![
            PartView::Text(
                "[CONTEXT RECOVERY] earlier user turns were dropped to fit the context window; treat the following as prior work product and continue."@,
            ),
        ],
        h.len() == 0 ==> with_user(h).len() == 1 && with_user(h)[0].role == "user"@ && with_user(
            h,
        )[0].parts == seq![
            PartView::Text(
                "[CONTEXT RECOVERY] prior turns were dropped; continue from the latest request."@,
            ),
        ],
{
    if h.len() > 0 && !has_user(h) {
        assert(with_user(h).skip(1) =~= h);
    }
}

/// The word that a turn was interrupted is the assistant's.
pub proof fn law_interruptions()
    ensures
        interruption().role == "assistant"@,
        interruption().parts == seq![PartView::Text("（已中断）"@)],
        interruption().tool_calls is None,
{
}

/// A history that was cleaned still says all that was said, in its order, and nothing that
/// nobody said.
pub proof fn law_cleaned_histories_say_the_same(
    history: &mut Vec<ChatMessage>,
    x: (Seq<char>, PartView),
)
    requires
        call_ensures(sanitize_history, (history,), ()),
    ensures
        in_order(said(messages_of(old(history)@)), said(messages_of(final(history)@))),
        said(messages_of(final(history)@)).contains(x) ==> said(
            messages_of(old(history)@),
        ).contains(x) || is_filler(x),
{
    let h = messages_of(old(history)@);
    law_sanitizing_keeps_what_was_said(h);
    if said(sanitized(h)).contains(x) {
        law_sanitizing_makes_nothing_up(h, x);
    }
}

/// Two neighbouring plain messages of one role become one, which begins with all parts of
/// the first and ends with all parts of the second; other neighbours stay two.
pub proof fn law_neighbours_are_joined_in_order(h: &[ChatMessage], r: Vec<ChatMessage>)
    requires
        h@.len() == 2,
        call_ensures(merge_adjacent_same_role, (h,), r),
    ensures
        ({
            let a = h@[0]@;
            let b = h@[1]@;
            let one = is_speech(a) && is_speech(b) && a.role == b.role;
            &&& one ==> r@.len() == 1 && r@[0]@.role == a.role && r@[0]@.parts.take(
                a.parts.len() as int,
            ) == a.parts && r@[0]@.parts.skip(r@[0]@.parts.len() - b.parts.len()) == b.parts
                && r@[0]@.parts.len() <= a.parts.len() + b.parts.len() + 1
            &&& !one ==> r@.len() == 2 && r@[0]@ == a && r@[1]@ == b
        }),
{
    let all = messages_of(h@);
    let a = h@[0]@;
    let b = h@[1]@;
    let first = seq![a];
    let none = Seq::<MessageView>::empty();
    assert(all =~= first.push(b));
    assert(none.push(a) =~= first);
    law_joining_goes_message_by_message(none, a);
    law_joining_goes_message_by_message(first, b);
    law_joined_messages_keep_their_order(a, b);
    assert(merged(first) == first);
    assert(first.last() == a);
    let out = messages_of(r@);
    assert(out == merged(all));
    assert(out.len() == r@.len());
    assert(out[0] == r@[0]@);
    if joins(a, b) {
        assert(out.last() == joined(a, b));
    } else {
        assert(out =~= first + seq![b]);
        assert(out[1] == r@[1]@);
    }
}

} // verus!
