//! What the cleaning of a history promises of every history.

use vstd::prelude::*;

use crate::session::chat::{CallView, MessageView};
use crate::session::session_override::{
    answered, answers, belonging, belonging_rows, belongs, cancellations, cancelled, closed,
    closed_round, declared, declares, has_call, has_user, interruption, joined, joins,
    lemma_run_end, lost_history, lost_turns, merged, opens_round, plain, pruned, pruned_rows,
    row_messages, rows_without_tail, run_end, sanitized, unanswered, with_user, without_orphans,
    without_tail,
};

verus! {

/// The four roles are four different texts.
proof fn lemma_roles()
    ensures
        "user"@ != "assistant"@,
        "user"@ != "tool"@,
        "assistant"@ != "tool"@,
{
    reveal_strlit("user");
    reveal_strlit("assistant");
    reveal_strlit("tool");
    assert("user"@[0] != "tool"@[0]);
}

// ── Predicates ─────────────────────────────────────────────────────────────

/// Whether every call of a round has a result among `results`.
pub open spec fn all_answered(calls: Seq<CallView>, results: Seq<MessageView>) -> bool {
    forall|k: int| 0 <= k < calls.len() ==> answered(results, (#[trigger] calls[k]).id)
}

/// Whether every round of `h` that a later turn follows has a result for each
/// of its calls, directly after it, and no user message follows the results.
pub open spec fn settled(h: Seq<MessageView>) -> bool
    decreases h.len(),
    via settled_decreases
{
    if h.len() == 0 {
        true
    } else if !opens_round(h[0]) {
        settled(h.skip(1))
    } else {
        let j = run_end(h, 1);
        j >= h.len() || (all_answered(h[0].tool_calls->0, h.subrange(1, j)) && h[j].role != "user"@
            && settled(h.skip(j)))
    }
}

#[via_fn]
proof fn settled_decreases(h: Seq<MessageView>) {
    if h.len() > 0 && opens_round(h[0]) {
        lemma_run_end(h, 1);
    }
}

/// Whether every tool result of `h` belongs to a call that `h` issues.
pub open spec fn no_orphans(h: Seq<MessageView>) -> bool {
    forall|i: int| 0 <= i < h.len() ==> belongs(#[trigger] h[i], h)
}

/// Whether no two neighbours of `h` are plain messages of one role.
pub open spec fn no_neighbours(h: Seq<MessageView>) -> bool {
    forall|i: int|
        #![trigger h[i]]
        0 <= i < h.len() - 1 ==> !joins(h[i], h[i + 1])
}

/// Whether no user message of `h` directly follows a tool result.
pub open spec fn separated(h: Seq<MessageView>) -> bool {
    forall|i: int|
        #![trigger h[i]]
        0 <= i < h.len() - 1 && h[i].role == "tool"@ ==> h[i + 1].role != "user"@
}

/// Whether no user message of `h` directly follows results that stand apart
/// from the round that issued their calls.
pub open spec fn no_stray_before_user(h: Seq<MessageView>) -> bool
    decreases h.len(),
    via no_stray_decreases
{
    if h.len() == 0 {
        true
    } else if h[0].role == "tool"@ {
        (h.len() == 1 || h[1].role != "user"@) && no_stray_before_user(h.skip(1))
    } else if !opens_round(h[0]) {
        no_stray_before_user(h.skip(1))
    } else {
        no_stray_before_user(h.skip(run_end(h, 1)))
    }
}

#[via_fn]
proof fn no_stray_decreases(h: Seq<MessageView>) {
    if h.len() > 0 && opens_round(h[0]) {
        lemma_run_end(h, 1);
    }
}

// ── Runs of results ────────────────────────────────────────────────────────

/// `run_end` is the only index that ends a run of results.
proof fn lemma_run_end_is(h: Seq<MessageView>, from: int, j: int)
    requires
        0 <= from <= j <= h.len(),
        forall|k: int| from <= k < j ==> (#[trigger] h[k]).role == "tool"@,
        j < h.len() ==> h[j].role != "tool"@,
    ensures
        run_end(h, from) == j,
    decreases j - from,
{
    if from < j {
        assert(h[from].role == "tool"@);
        lemma_run_end_is(h, from + 1, j);
    }
}

/// Cancelled results are results of calls of the round, and answer each call
/// that had no result.
proof fn lemma_cancellations(calls: Seq<CallView>, results: Seq<MessageView>)
    ensures
        forall|i: int|
            0 <= i < cancellations(calls, results).len() ==> (#[trigger] cancellations(
                calls,
                results,
            )[i]).role == "tool"@,
        forall|i: int|
            0 <= i < cancellations(calls, results).len() ==> ((#[trigger] cancellations(
                calls,
                results,
            )[i]).tool_call_id matches Some(id) && has_call(calls, id)),
        forall|k: int|
            0 <= k < calls.len() ==> answered(results, (#[trigger] calls[k]).id) || answered(
                cancellations(calls, results),
                calls[k].id,
            ),
    decreases calls.len(),
{
    if calls.len() > 0 {
        let sub = calls.drop_last();
        let before = cancellations(sub, results);
        let all = cancellations(calls, results);
        lemma_cancellations(sub, results);
        assert forall|i: int| 0 <= i < all.len() implies (#[trigger] all[i]).role == "tool"@ && (
        all[i].tool_call_id matches Some(id) && has_call(calls, id)) by {
            if i < before.len() {
                assert(all[i] == before[i]);
                let id = before[i].tool_call_id->0;
                let j = choose|j: int| 0 <= j < sub.len() && (#[trigger] sub[j]).id == id;
                assert(calls[j] == sub[j]);
            } else {
                assert(all[i] == cancelled(calls.last()));
                assert(calls[calls.len() - 1].id == calls.last().id);
            }
        }
        assert forall|k: int| 0 <= k < calls.len() implies answered(
            results,
            (#[trigger] calls[k]).id,
        ) || answered(all, calls[k].id) by {
            if k < sub.len() {
                assert(calls[k] == sub[k]);
                if answered(before, sub[k].id) {
                    let i = choose|i: int|
                        0 <= i < before.len() && answers(#[trigger] before[i], sub[k].id);
                    assert(all[i] == before[i]);
                }
            } else if !answered(results, calls[k].id) {
                assert(all[all.len() - 1] == cancelled(calls.last()));
                assert(answers(all[all.len() - 1], calls[k].id));
            }
        }
    }
}

// ── Closing rounds ─────────────────────────────────────────────────────────

/// Closing keeps the first and the last message, and settles every round.
proof fn lemma_closed(h: Seq<MessageView>)
    ensures
        settled(closed(h)),
        h.len() > 0 ==> closed(h).len() > 0 && closed(h)[0] == h[0] && closed(h).last() == h.last(),
        h.len() == 0 ==> closed(h).len() == 0,
    decreases h.len(),
{
    lemma_roles();
    if h.len() == 0 {
    } else if !opens_round(h[0]) {
        lemma_closed(h.skip(1));
        let r = closed(h);
        assert(r.skip(1) =~= closed(h.skip(1)));
        if h.len() > 1 {
            assert(h.skip(1).last() == h.last());
        }
    } else {
        let j = run_end(h, 1);
        lemma_run_end(h, 1);
        if j < h.len() {
            let calls = h[0].tool_calls->0;
            let results = h.subrange(1, j);
            let more = cancellations(calls, results);
            let rest = closed(h.skip(j));
            let r = closed(h);
            lemma_closed(h.skip(j));
            lemma_cancellations(calls, results);
            assert(h.skip(j).last() == h.last());
            let end = j + more.len();
            assert(r =~= closed_round(h, j) + rest);
            assert forall|k: int| 1 <= k < end implies (#[trigger] r[k]).role == "tool"@ by {
                if k < j {
                    assert(r[k] == h[k]);
                } else {
                    assert(r[k] == more[k - j]);
                }
            }
            assert(rest[0] == h.skip(j)[0]);
            assert(h.skip(j)[0] == h[j]);
            if h[j].role == "user"@ {
                assert(r[end] == interruption());
                assert(r.skip(end).skip(1) =~= rest);
                assert(!opens_round(interruption()));
            } else {
                assert(r[end] == h[j]);
                assert(r.skip(end) =~= rest);
            }
            lemma_run_end_is(r, 1, end);
            assert(r[0] == h[0]);
            let filled = r.subrange(1, end);
            assert(filled =~= results + more);
            assert forall|k: int| 0 <= k < calls.len() implies answered(
                filled,
                (#[trigger] calls[k]).id,
            ) by {
                let id = calls[k].id;
                if answered(results, id) {
                    let i = choose|i: int|
                        0 <= i < results.len() && answers(#[trigger] results[i], id);
                    assert(filled[i] == results[i]);
                } else {
                    let i = choose|i: int| 0 <= i < more.len() && answers(#[trigger] more[i], id);
                    assert(filled[results.len() + i] == more[i]);
                }
            }
            assert(settled(r.skip(end)));
        } else {
            assert(settled(h));
        }
    }
}

/// A settled history is not changed by closing.
proof fn lemma_settled_is_closed(h: Seq<MessageView>)
    requires
        settled(h),
    ensures
        closed(h) == h,
    decreases h.len(),
{
    if h.len() == 0 {
    } else if !opens_round(h[0]) {
        lemma_settled_is_closed(h.skip(1));
        assert(seq![h[0]] + h.skip(1) =~= h);
    } else {
        let j = run_end(h, 1);
        lemma_run_end(h, 1);
        if j < h.len() {
            lemma_settled_is_closed(h.skip(j));
            lemma_no_cancellations(h[0].tool_calls->0, h.subrange(1, j));
            assert(h.take(j) + Seq::<MessageView>::empty() =~= h.take(j));
            assert(h.take(j) + h.skip(j) =~= h);
        }
    }
}

/// Where every call has a result, none is cancelled.
proof fn lemma_no_cancellations(calls: Seq<CallView>, results: Seq<MessageView>)
    requires
        all_answered(calls, results),
    ensures
        cancellations(calls, results) == Seq::<MessageView>::empty(),
    decreases calls.len(),
{
    if calls.len() > 0 {
        let sub = calls.drop_last();
        assert forall|k: int| 0 <= k < sub.len() implies answered(
            results,
            (#[trigger] sub[k]).id,
        ) by {
            assert(sub[k] == calls[k]);
        }
        lemma_no_cancellations(sub, results);
        assert(answered(results, calls[calls.len() - 1].id));
    }
}

/// Closing keeps every message, and adds only interruptions and cancelled
/// results of calls that are issued.
proof fn lemma_closed_contents(h: Seq<MessageView>)
    ensures
        forall|i: int| 0 <= i < h.len() ==> closed(h).contains(#[trigger] h[i]),
        forall|i: int|
            0 <= i < closed(h).len() ==> h.contains(#[trigger] closed(h)[i]) || closed(h)[i]
                == interruption() || (closed(h)[i].tool_call_id matches Some(id) && declared(h, id)),
    decreases h.len(),
{
    let r = closed(h);
    if h.len() == 0 {
    } else if !opens_round(h[0]) {
        let sub = h.skip(1);
        lemma_closed_contents(sub);
        assert forall|i: int| 0 <= i < h.len() implies r.contains(#[trigger] h[i]) by {
            if i == 0 {
                assert(r[0] == h[0]);
            } else {
                assert(sub[i - 1] == h[i]);
                let k = choose|k: int| 0 <= k < closed(sub).len() && closed(sub)[k] == h[i];
                assert(r[k + 1] == h[i]);
            }
        }
        assert forall|i: int| 0 <= i < r.len() implies h.contains(#[trigger] r[i]) || r[i]
            == interruption() || (r[i].tool_call_id matches Some(id) && declared(h, id)) by {
            if i == 0 {
                assert(h[0] == r[0]);
            } else {
                assert(closed(sub)[i - 1] == r[i]);
                lemma_part(h, 1, r[i]);
            }
        }
    } else {
        let j = run_end(h, 1);
        lemma_run_end(h, 1);
        if j < h.len() {
            let sub = h.skip(j);
            lemma_closed_contents(sub);
            let head = closed_round(h, j);
            let calls = h[0].tool_calls->0;
            let more = cancellations(calls, h.subrange(1, j));
            lemma_cancellations(calls, h.subrange(1, j));
            assert(r =~= head + closed(sub));
            assert forall|i: int| 0 <= i < h.len() implies r.contains(#[trigger] h[i]) by {
                if i < j {
                    assert(r[i] == h[i]);
                } else {
                    assert(sub[i - j] == h[i]);
                    let k = choose|k: int| 0 <= k < closed(sub).len() && closed(sub)[k] == h[i];
                    assert(r[head.len() + k] == h[i]);
                }
            }
            assert forall|i: int| 0 <= i < r.len() implies h.contains(#[trigger] r[i]) || r[i]
                == interruption() || (r[i].tool_call_id matches Some(id) && declared(h, id)) by {
                if i < j {
                    assert(r[i] == h[i]);
                } else if i < j + more.len() {
                    assert(r[i] == more[i - j]);
                    assert(declares(h[0], more[i - j].tool_call_id->0));
                } else if i < head.len() {
                    assert(r[i] == interruption());
                } else {
                    assert(closed(sub)[i - head.len()] == r[i]);
                    lemma_part(h, j, r[i]);
                }
            }
        } else {
            assert(r == h);
        }
    }
}

/// What a part of `h` holds or issues, `h` holds or issues.
proof fn lemma_part(h: Seq<MessageView>, n: int, m: MessageView)
    requires
        0 <= n <= h.len(),
        h.skip(n).contains(m) || m == interruption() || (m.tool_call_id matches Some(id) && declared(
            h.skip(n),
            id,
        )),
    ensures
        h.contains(m) || m == interruption() || (m.tool_call_id matches Some(id) && declared(h, id)),
{
    let sub = h.skip(n);
    if sub.contains(m) {
        let k = choose|k: int| 0 <= k < sub.len() && sub[k] == m;
        assert(h[k + n] == m);
    } else if m != interruption() {
        let id = m.tool_call_id->0;
        let k = choose|k: int| 0 <= k < sub.len() && declares(#[trigger] sub[k], id);
        assert(declares(h[k + n], id));
    }
}

// ── Joining neighbours ─────────────────────────────────────────────────────

/// A single message is left as it is.
proof fn lemma_merged_one(h: Seq<MessageView>)
    requires
        h.len() == 1,
    ensures
        merged(h) == h,
{
    reveal_with_fuel(merged, 2);
    assert(h.drop_last() =~= Seq::<MessageView>::empty());
    assert(merged(h) =~= h);
}

/// Joining keeps the role and the calls of the first and of the last message.
proof fn lemma_merged_ends(h: Seq<MessageView>)
    requires
        h.len() > 0,
    ensures
        merged(h).len() > 0,
        merged(h).last().role == h.last().role,
        plain(merged(h).last()) == plain(h.last()),
        !plain(h.last()) ==> merged(h).last() == h.last(),
        merged(h)[0].role == h[0].role,
        plain(merged(h)[0]) == plain(h[0]),
        !plain(h[0]) ==> merged(h)[0] == h[0],
    decreases h.len(),
{
    if h.len() > 1 {
        let sub = h.drop_last();
        lemma_merged_ends(sub);
        assert(sub[0] == h[0]);
        let before = merged(sub);
        if joins(before.last(), h.last()) {
            if before.len() > 1 {
                assert(merged(h)[0] == before[0]);
            } else {
                assert(merged(h)[0] == joined(before.last(), h.last()));
            }
        } else {
            assert(merged(h)[0] == before[0]);
        }
    } else {
        lemma_merged_one(h);
    }
}

/// After joining, no two neighbours are plain messages of one role.
proof fn lemma_merged_apart(h: Seq<MessageView>)
    ensures
        no_neighbours(merged(h)),
    decreases h.len(),
{
    if h.len() > 0 {
        let before = merged(h.drop_last());
        lemma_merged_apart(h.drop_last());
        let r = merged(h);
        if before.len() > 0 && joins(before.last(), h.last()) {
            let n = before.len();
            assert forall|i: int| #![trigger r[i]] 0 <= i < r.len() - 1 implies !joins(
                r[i],
                r[i + 1],
            ) by {
                assert(r[i] == before[i]);
                assert(!joins(before[i], before[i + 1]));
                if i + 1 < n - 1 {
                    assert(r[i + 1] == before[i + 1]);
                } else {
                    assert(r[i + 1] == joined(before.last(), h.last()));
                }
            }
        } else {
            assert forall|i: int| #![trigger r[i]] 0 <= i < r.len() - 1 implies !joins(
                r[i],
                r[i + 1],
            ) by {
                assert(r[i] == before[i]);
                if i + 1 < before.len() {
                    assert(r[i + 1] == before[i + 1]);
                    assert(!joins(before[i], before[i + 1]));
                }
            }
        }
    }
}

/// Where no two neighbours join, joining changes nothing.
proof fn lemma_merged_same(h: Seq<MessageView>)
    requires
        no_neighbours(h),
    ensures
        merged(h) == h,
    decreases h.len(),
{
    if h.len() > 0 {
        let sub = h.drop_last();
        assert forall|i: int| #![trigger sub[i]] 0 <= i < sub.len() - 1 implies !joins(
            sub[i],
            sub[i + 1],
        ) by {
            assert(sub[i] == h[i]);
            assert(sub[i + 1] == h[i + 1]);
        }
        lemma_merged_same(sub);
        if sub.len() > 0 {
            assert(sub.last() == h[h.len() - 2]);
            assert(!joins(h[h.len() - 2], h[h.len() - 2 + 1]));
        }
        assert(sub.push(h.last()) =~= h);
    }
}

/// Two histories whose ends do not join are joined apart.
proof fn lemma_merged_append(a: Seq<MessageView>, b: Seq<MessageView>)
    requires
        a.len() > 0,
        b.len() > 0,
        !joins(a.last(), b[0]),
    ensures
        merged(a + b) == merged(a) + merged(b),
    decreases b.len(),
{
    let sub = b.drop_last();
    assert((a + b).drop_last() =~= a + sub);
    assert((a + b).last() == b.last());
    lemma_merged_ends(a);
    if b.len() == 1 {
        assert(sub =~= Seq::<MessageView>::empty());
        assert(a + sub =~= a);
        lemma_merged_one(b);
        assert(merged(a + b) =~= merged(a) + merged(b));
    } else {
        assert(sub[0] == b[0]);
        lemma_merged_append(a, sub);
        lemma_merged_ends(sub);
        assert((merged(a) + merged(sub)).last() == merged(sub).last());
        assert((merged(a) + merged(sub)).drop_last() =~= merged(a) + merged(sub).drop_last());
        assert(merged(a + b) =~= merged(a) + merged(b));
    }
}

/// Joining the first two messages first changes nothing.
proof fn lemma_merged_first_two(x: MessageView, y: MessageView, rest: Seq<MessageView>)
    requires
        joins(x, y),
    ensures
        merged(seq![x, y] + rest) == merged(seq![joined(x, y)] + rest),
    decreases rest.len(),
{
    let a = seq![x, y] + rest;
    let b = seq![joined(x, y)] + rest;
    if rest.len() == 0 {
        assert(a =~= seq![x, y]);
        assert(a.drop_last() =~= seq![x]);
        lemma_merged_one(seq![x]);
        assert(merged(a) =~= seq![joined(x, y)]);
        assert(b =~= seq![joined(x, y)]);
        lemma_merged_one(b);
    } else {
        assert(a.drop_last() =~= seq![x, y] + rest.drop_last());
        assert(b.drop_last() =~= seq![joined(x, y)] + rest.drop_last());
        lemma_merged_first_two(x, y, rest.drop_last());
    }
}

/// Joining keeps a history settled.
proof fn lemma_merged_settled(h: Seq<MessageView>)
    requires
        settled(h),
    ensures
        settled(merged(h)),
    decreases h.len(),
{
    lemma_roles();
    if h.len() == 0 {
    } else if !opens_round(h[0]) {
        if h.len() == 1 {
            lemma_merged_one(h);
        } else if !joins(h[0], h[1]) {
            let a = seq![h[0]];
            let b = h.skip(1);
            assert(a + b =~= h);
            lemma_merged_append(a, b);
            lemma_merged_one(a);
            lemma_merged_settled(b);
            assert(merged(h).skip(1) =~= merged(b));
        } else {
            let rest = h.skip(2);
            let g = seq![joined(h[0], h[1])] + rest;
            assert(seq![h[0], h[1]] + rest =~= h);
            lemma_merged_first_two(h[0], h[1], rest);
            assert(h.skip(1)[0] == h[1]);
            assert(!opens_round(h[1]));
            assert(h.skip(1).skip(1) =~= rest);
            assert(settled(h.skip(1)));
            assert(settled(rest));
            assert(g.skip(1) =~= rest);
            assert(!opens_round(g[0]));
            assert(settled(g));
            lemma_merged_settled(g);
        }
    } else {
        let j = run_end(h, 1);
        lemma_run_end(h, 1);
        let a = h.take(j);
        assert forall|i: int| #![trigger a[i]] 0 <= i < a.len() - 1 implies !joins(
            a[i],
            a[i + 1],
        ) by {
            assert(a[i] == h[i]);
            assert(a[i + 1] == h[i + 1]);
            assert(h[i + 1].role == "tool"@);
        }
        lemma_merged_same(a);
        if j >= h.len() {
            assert(a =~= h);
        } else {
            let b = h.skip(j);
            assert(a + b =~= h);
            assert(a.last() == h[j - 1]);
            assert(!plain(a.last())) by {
                if j > 1 {
                    assert(h[j - 1].role == "tool"@);
                }
            }
            lemma_merged_append(a, b);
            lemma_merged_settled(b);
            lemma_merged_ends(b);
            let r = merged(h);
            assert(r =~= a + merged(b));
            assert(b[0] == h[j]);
            assert(r[j] == merged(b)[0]);
            assert(r[0] == h[0]);
            assert forall|k: int| 1 <= k < j implies (#[trigger] r[k]).role == "tool"@ by {
                assert(r[k] == h[k]);
            }
            lemma_run_end_is(r, 1, j);
            assert(r.subrange(1, j) =~= h.subrange(1, j));
            assert(r.skip(j) =~= merged(b));
        }
    }
}

/// Joining keeps every message that is not plain, and makes none.
proof fn lemma_merged_contents(h: Seq<MessageView>)
    ensures
        forall|i: int|
            0 <= i < h.len() && !plain(#[trigger] h[i]) ==> merged(h).contains(h[i]),
        forall|i: int|
            0 <= i < merged(h).len() && !plain(#[trigger] merged(h)[i]) ==> h.contains(
                merged(h)[i],
            ),
    decreases h.len(),
{
    if h.len() > 0 {
        let sub = h.drop_last();
        let before = merged(sub);
        let r = merged(h);
        lemma_merged_contents(sub);
        assert forall|i: int| 0 <= i < h.len() && !plain(#[trigger] h[i]) implies r.contains(
            h[i],
        ) by {
            if i < sub.len() {
                assert(sub[i] == h[i]);
                let k = choose|k: int| 0 <= k < before.len() && before[k] == h[i];
                assert(r[k] == before[k]);
            } else {
                assert(r[r.len() - 1] == h[i]);
            }
        }
        assert forall|i: int| 0 <= i < r.len() && !plain(#[trigger] r[i]) implies h.contains(
            r[i],
        ) by {
            if i < before.len() && !(before.len() > 0 && joins(before.last(), h.last()) && i
                == before.len() - 1) {
                assert(r[i] == before[i]);
                let k = choose|k: int| 0 <= k < sub.len() && sub[k] == before[i];
                assert(h[k] == r[i]);
            } else if before.len() > 0 && joins(before.last(), h.last()) {
                assert(r[i] == joined(before.last(), h.last()));
            } else {
                assert(h[h.len() - 1] == r[i]);
            }
        }
    }
}

/// Joining keeps user messages away from tool results.
proof fn lemma_merged_separated(h: Seq<MessageView>)
    requires
        separated(h),
    ensures
        separated(merged(h)),
    decreases h.len(),
{
    if h.len() > 0 {
        let sub = h.drop_last();
        assert forall|i: int|
            #![trigger sub[i]]
            0 <= i < sub.len() - 1 && sub[i].role == "tool"@ implies sub[i + 1].role != "user"@ by {
            assert(sub[i] == h[i]);
            assert(sub[i + 1] == h[i + 1]);
        }
        lemma_merged_separated(sub);
        let before = merged(sub);
        let r = merged(h);
        if sub.len() > 0 {
            lemma_merged_ends(sub);
            assert(sub.last() == h[h.len() - 2]);
            assert(h[h.len() - 2 + 1] == h.last());
        }
        let one = before.len() > 0 && joins(before.last(), h.last());
        assert forall|i: int|
            #![trigger r[i]]
            0 <= i < r.len() - 1 && r[i].role == "tool"@ implies r[i + 1].role != "user"@ by {
            assert(r[i] == before[i]);
            if i + 1 < before.len() {
                assert(r[i + 1].role == before[i + 1].role);
            }
        }
    }
}

/// Closing keeps user messages away from tool results, if none follows results
/// that stand apart from their round.
proof fn lemma_closed_separated(h: Seq<MessageView>)
    requires
        no_stray_before_user(h),
    ensures
        separated(closed(h)),
    decreases h.len(),
{
    lemma_roles();
    let r = closed(h);
    if h.len() == 0 {
    } else if !opens_round(h[0]) {
        let sub = h.skip(1);
        lemma_closed_separated(sub);
        lemma_closed(sub);
        assert forall|i: int|
            #![trigger r[i]]
            0 <= i < r.len() - 1 && r[i].role == "tool"@ implies r[i + 1].role != "user"@ by {
            assert(r[i + 1] == closed(sub)[i]);
            if i == 0 {
                assert(sub[0] == h[1]);
            } else {
                assert(r[i] == closed(sub)[i - 1]);
            }
        }
    } else {
        let j = run_end(h, 1);
        lemma_run_end(h, 1);
        if j < h.len() {
            let sub = h.skip(j);
            lemma_closed_separated(sub);
            lemma_closed(sub);
            let head = closed_round(h, j);
            let calls = h[0].tool_calls->0;
            let more = cancellations(calls, h.subrange(1, j));
            lemma_cancellations(calls, h.subrange(1, j));
            assert(r =~= head + closed(sub));
            assert(sub[0] == h[j]);
            let end = j + more.len();
            assert forall|i: int|
                #![trigger r[i]]
                0 <= i < r.len() - 1 && r[i].role == "tool"@ implies r[i + 1].role != "user"@ by {
                if i + 1 < j {
                    assert(r[i + 1] == h[i + 1]);
                } else if i + 1 < end {
                    assert(r[i + 1] == more[i + 1 - j]);
                } else if i + 1 < head.len() {
                    assert(r[i + 1] == interruption());
                } else if i + 1 == head.len() {
                    assert(r[i + 1] == closed(sub)[0]);
                    if h[j].role == "user"@ {
                        assert(r[i] == interruption());
                    }
                } else {
                    assert(r[i] == closed(sub)[i - head.len()]);
                    assert(r[i + 1] == closed(sub)[i + 1 - head.len()]);
                }
            }
        } else {
            assert forall|i: int|
                #![trigger r[i]]
                0 <= i < r.len() - 1 && r[i].role == "tool"@ implies r[i + 1].role != "user"@ by {
                assert(h[i + 1].role == "tool"@);
            }
        }
    }
}

// ── Pruning ────────────────────────────────────────────────────────────────

/// What is kept beside `all` belongs there, comes from `h`, and holds every
/// message of `h` that is no tool result.
proof fn lemma_belonging(h: Seq<MessageView>, all: Seq<MessageView>)
    ensures
        forall|i: int|
            0 <= i < belonging(h, all).len() ==> belongs(#[trigger] belonging(h, all)[i], all),
        forall|i: int|
            0 <= i < h.len() && (#[trigger] h[i]).role != "tool"@ ==> belonging(h, all).contains(
                h[i],
            ),
    decreases h.len(),
{
    if h.len() > 0 {
        let sub = h.drop_last();
        lemma_belonging(sub, all);
        let before = belonging(sub, all);
        let r = belonging(h, all);
        assert forall|i: int| 0 <= i < r.len() implies belongs(#[trigger] r[i], all) by {
            if i < before.len() {
                assert(r[i] == before[i]);
            }
        }
        assert forall|i: int| 0 <= i < h.len() && (#[trigger] h[i]).role
            != "tool"@ implies r.contains(h[i]) by {
            if i < sub.len() {
                assert(sub[i] == h[i]);
                let k = choose|k: int| 0 <= k < before.len() && before[k] == h[i];
                assert(r[k] == before[k]);
            } else {
                assert(r[r.len() - 1] == h[i]);
            }
        }
    }
}

/// Where everything belongs, everything is kept.
proof fn lemma_all_belong(h: Seq<MessageView>, all: Seq<MessageView>)
    requires
        forall|i: int| 0 <= i < h.len() ==> belongs(#[trigger] h[i], all),
    ensures
        belonging(h, all) == h,
    decreases h.len(),
{
    if h.len() > 0 {
        let sub = h.drop_last();
        assert forall|i: int| 0 <= i < sub.len() implies belongs(#[trigger] sub[i], all) by {
            assert(sub[i] == h[i]);
        }
        lemma_all_belong(sub, all);
        assert(belongs(h[h.len() - 1], all));
        assert(sub.push(h.last()) =~= h);
    } else {
        assert(h =~= Seq::<MessageView>::empty());
    }
}

/// Dropping the tail leaves a prefix whose last message is answered, and drops
/// unanswered rounds only.
proof fn lemma_tail(h: Seq<MessageView>, all: Seq<MessageView>)
    ensures
        without_tail(h, all).len() <= h.len(),
        without_tail(h, all) == h.take(without_tail(h, all).len() as int),
        forall|i: int|
            without_tail(h, all).len() <= i < h.len() ==> unanswered(#[trigger] h[i], all),
        without_tail(h, all).len() > 0 ==> !unanswered(without_tail(h, all).last(), all),
    decreases h.len(),
{
    if h.len() > 0 && unanswered(h.last(), all) {
        let sub = h.drop_last();
        lemma_tail(sub, all);
        let n = without_tail(sub, all).len() as int;
        assert(sub.take(n) =~= h.take(n));
        assert forall|i: int| n <= i < h.len() implies unanswered(#[trigger] h[i], all) by {
            if i < sub.len() {
                assert(sub[i] == h[i]);
            }
        }
    } else {
        assert(h.take(h.len() as int) =~= h);
    }
}

/// Pruning leaves no orphan, and no unanswered round at the end.
proof fn lemma_pruned(h: Seq<MessageView>)
    ensures
        no_orphans(pruned(h)),
        pruned(h).len() > 0 ==> !unanswered(pruned(h).last(), pruned(h)),
{
    lemma_roles();
    let kept = without_orphans(h);
    let p = pruned(h);
    lemma_belonging(h, h);
    lemma_tail(kept, kept);
    assert forall|i: int| 0 <= i < p.len() implies belongs(#[trigger] p[i], p) by {
        assert(p[i] == kept[i]);
        if p[i].role == "tool"@ {
            let id = p[i].tool_call_id->0;
            let k = choose|k: int| 0 <= k < h.len() && declares(#[trigger] h[k], id);
            assert(kept.contains(h[k]));
            let n = choose|n: int| 0 <= n < kept.len() && kept[n] == h[k];
            if n >= p.len() {
                assert(unanswered(kept[n], kept));
                let calls = kept[n].tool_calls->0;
                let c = choose|c: int| 0 <= c < calls.len() && (#[trigger] calls[c]).id == id;
                assert(answers(kept[i], id));
                assert(!answered(kept, calls[c].id));
            } else {
                assert(p[n] == kept[n]);
            }
            assert(declares(p[n], id));
        }
    }
    if p.len() > 0 && unanswered(p.last(), p) {
        let calls = p.last().tool_calls->0;
        assert forall|c: int| 0 <= c < calls.len() implies !answered(
            kept,
            (#[trigger] calls[c]).id,
        ) by {
            let id = calls[c].id;
            if answered(kept, id) {
                let n = choose|n: int| 0 <= n < kept.len() && answers(#[trigger] kept[n], id);
                if n >= p.len() {
                    assert(unanswered(kept[n], kept));
                } else {
                    assert(answers(p[n], id));
                }
            }
        }
        assert(unanswered(p.last(), kept));
    }
}

/// Closing and joining leave no orphan.
proof fn lemma_steps_keep_belonging(p: Seq<MessageView>)
    requires
        no_orphans(p),
    ensures
        no_orphans(merged(closed(p))),
{
    lemma_roles();
    let c = closed(p);
    let r = merged(c);
    lemma_closed_contents(p);
    lemma_merged_contents(c);
    assert forall|i: int| 0 <= i < r.len() implies belongs(#[trigger] r[i], r) by {
        if r[i].role == "tool"@ {
            assert(!plain(r[i]));
            let k = choose|k: int| 0 <= k < c.len() && c[k] == r[i];
            assert(c[k] != interruption());
            if p.contains(c[k]) {
                let n = choose|n: int| 0 <= n < p.len() && p[n] == c[k];
                assert(belongs(p[n], p));
            }
            let id = r[i].tool_call_id->0;
            assert(declared(p, id));
            let n = choose|n: int| 0 <= n < p.len() && declares(#[trigger] p[n], id);
            assert(c.contains(p[n]));
            let q = choose|q: int| 0 <= q < c.len() && c[q] == p[n];
            assert(!plain(c[q]));
            assert(r.contains(c[q]));
            let z = choose|z: int| 0 <= z < r.len() && r[z] == c[q];
            assert(declares(r[z], id));
        }
    }
}

/// A recovery message put first leaves no orphan.
proof fn lemma_with_user_keeps_belonging(h: Seq<MessageView>)
    requires
        no_orphans(h),
    ensures
        no_orphans(with_user(h)),
{
    lemma_roles();
    let s = with_user(h);
    if !has_user(h) && h.len() > 0 {
        assert forall|i: int| 0 <= i < s.len() implies belongs(#[trigger] s[i], s) by {
            if i > 0 {
                assert(s[i] == h[i - 1]);
                if s[i].role == "tool"@ {
                    assert(belongs(h[i - 1], h));
                    let id = s[i].tool_call_id->0;
                    let n = choose|n: int| 0 <= n < h.len() && declares(#[trigger] h[n], id);
                    assert(s[n + 1] == h[n]);
                    assert(declares(s[n + 1], id));
                }
            } else {
                assert(s[0] == lost_turns());
            }
        }
    } else if !has_user(h) {
        assert(s[0] == lost_history());
    }
}

// ── Laws ───────────────────────────────────────────────────────────────────

/// A cleaned history holds a user message, whatever was in it before.
pub proof fn law_sanitized_has_user(h: Seq<MessageView>)
    ensures
        has_user(sanitized(h)),
{
    let x = merged(closed(pruned(h)));
    if !has_user(x) {
        assert(sanitized(h)[0].role == "user"@);
    }
}

/// No two neighbours of a cleaned history are plain messages of one role: user
/// messages, and assistant messages without calls, alternate.
pub proof fn law_sanitized_alternates(h: Seq<MessageView>)
    ensures
        no_neighbours(sanitized(h)),
{
    let x = merged(closed(pruned(h)));
    lemma_merged_apart(closed(pruned(h)));
    let s = sanitized(h);
    if !has_user(x) {
        assert forall|i: int| #![trigger s[i]] 0 <= i < s.len() - 1 implies !joins(
            s[i],
            s[i + 1],
        ) by {
            assert(s[i + 1] == x[i]);
            if i > 0 {
                assert(s[i] == x[i - 1]);
            }
        }
    }
}

/// Every tool result of a cleaned history belongs to a call that the cleaned
/// history issues.
pub proof fn law_sanitized_has_no_orphans(h: Seq<MessageView>)
    ensures
        no_orphans(sanitized(h)),
{
    lemma_pruned(h);
    lemma_steps_keep_belonging(pruned(h));
    lemma_with_user_keeps_belonging(merged(closed(pruned(h))));
}

/// In a cleaned history every round that a later turn follows has a result for
/// each of its calls directly after it, and no user message follows them.
pub proof fn law_sanitized_rounds_are_settled(h: Seq<MessageView>)
    ensures
        settled(sanitized(h)),
{
    lemma_roles();
    let x = merged(closed(pruned(h)));
    lemma_closed(pruned(h));
    lemma_merged_settled(closed(pruned(h)));
    let s = sanitized(h);
    if !has_user(x) {
        if x.len() == 0 {
            assert(s.skip(1) =~= x);
        } else {
            assert(s.skip(1) =~= x);
        }
        assert(!opens_round(s[0]));
    }
}

/// No user message of a cleaned history directly follows a tool result, unless
/// one followed results that stood apart from the round of their calls.
pub proof fn law_sanitized_separates_results_from_user(h: Seq<MessageView>)
    requires
        no_stray_before_user(pruned(h)),
    ensures
        separated(sanitized(h)),
{
    lemma_roles();
    let x = merged(closed(pruned(h)));
    lemma_closed_separated(pruned(h));
    lemma_merged_separated(closed(pruned(h)));
    let s = sanitized(h);
    if !has_user(x) {
        assert forall|i: int|
            #![trigger s[i]]
            0 <= i < s.len() - 1 && s[i].role == "tool"@ implies s[i + 1].role != "user"@ by {
            assert(s[i + 1] == x[i]);
        }
    }
}

/// Cleaning a cleaned history changes nothing.
pub proof fn law_sanitizing_is_idempotent(h: Seq<MessageView>)
    ensures
        sanitized(sanitized(h)) == sanitized(h),
{
    lemma_roles();
    let p = pruned(h);
    let c = closed(p);
    let x = merged(c);
    let s = sanitized(h);
    law_sanitized_has_user(h);
    law_sanitized_alternates(h);
    law_sanitized_has_no_orphans(h);
    law_sanitized_rounds_are_settled(h);
    lemma_pruned(h);
    lemma_closed(p);
    lemma_all_belong(s, s);
    assert(!unanswered(s.last(), s)) by {
        if unanswered(s.last(), s) {
            if x.len() == 0 {
                assert(s.last().role == "user"@);
            } else {
                assert(s.last() == x.last());
                lemma_merged_nonempty(c);
                lemma_merged_ends(c);
                assert(opens_round(x.last()));
                assert(x.last() == p.last());
                let calls = p.last().tool_calls->0;
                let k = choose|k: int|
                    0 <= k < calls.len() && answered(p, (#[trigger] calls[k]).id);
                let id = calls[k].id;
                let n = choose|n: int| 0 <= n < p.len() && answers(#[trigger] p[n], id);
                lemma_closed_contents(p);
                lemma_merged_contents(c);
                assert(c.contains(p[n]));
                let q = choose|q: int| 0 <= q < c.len() && c[q] == p[n];
                assert(!plain(c[q]));
                assert(x.contains(c[q]));
                let z = choose|z: int| 0 <= z < x.len() && x[z] == c[q];
                let at = z + (s.len() - x.len());
                assert(s[at] == x[z]);
                assert(answers(s[at], id));
                assert(s.last().tool_calls->0[k].id == id);
            }
        }
    }
    assert(pruned(s) == s);
    lemma_settled_is_closed(s);
    lemma_merged_same(s);
}

/// A history that is fit already stays as it is: one in which every result answers a call,
/// every earlier round is settled, no neighbours are to be joined, a user speaks, and the
/// last message is no call without a result.
pub proof fn law_fit_histories_stay(h: Seq<MessageView>)
    requires
        no_orphans(h),
        settled(h),
        no_neighbours(h),
        has_user(h),
        !unanswered(h.last(), h),
    ensures
        sanitized(h) == h,
{
    lemma_all_belong(h, h);
    lemma_settled_is_closed(h);
    lemma_merged_same(h);
}

/// Nothing comes of nothing: a history that joining leaves with a message had
/// one.
proof fn lemma_merged_nonempty(h: Seq<MessageView>)
    ensures
        merged(h).len() > 0 ==> h.len() > 0,
{
}

/// Whether `a` is `b` with some rows left out.
pub open spec fn subsequence(
    a: Seq<(i64, MessageView)>,
    b: Seq<(i64, MessageView)>,
) -> bool
    decreases b.len(),
{
    if a.len() == 0 {
        true
    } else if b.len() == 0 {
        false
    } else {
        ||| subsequence(a, b.drop_last())
        ||| (a.last() == b.last() && subsequence(a.drop_last(), b.drop_last()))
    }
}

proof fn lemma_belonging_rows(v: Seq<(i64, MessageView)>, all: Seq<MessageView>)
    ensures
        row_messages(belonging_rows(v, all)) == belonging(row_messages(v), all),
        subsequence(belonging_rows(v, all), v),
    decreases v.len(),
{
    if v.len() > 0 {
        let sub = v.drop_last();
        lemma_belonging_rows(sub, all);
        assert(row_messages(v).drop_last() =~= row_messages(sub));
        let before = belonging_rows(sub, all);
        assert(row_messages(before.push(v.last())) =~= row_messages(before).push(v.last().1));
        assert(before.push(v.last()).drop_last() =~= before);
    } else {
        assert(row_messages(belonging_rows(v, all)) =~= belonging(row_messages(v), all));
    }
}

proof fn lemma_subsequence_prefix(a: Seq<(i64, MessageView)>, b: Seq<(i64, MessageView)>)
    requires
        subsequence(a, b),
        a.len() > 0,
    ensures
        subsequence(a.drop_last(), b),
    decreases b.len(),
{
    if subsequence(a, b.drop_last()) {
        lemma_subsequence_prefix(a, b.drop_last());
    } else {
        if a.drop_last().len() > 0 {
            assert(subsequence(a.drop_last(), b.drop_last()));
        }
    }
}

proof fn lemma_rows_without_tail(
    v: Seq<(i64, MessageView)>,
    all: Seq<MessageView>,
    whole: Seq<(i64, MessageView)>,
)
    requires
        subsequence(v, whole),
    ensures
        row_messages(rows_without_tail(v, all)) == without_tail(row_messages(v), all),
        subsequence(rows_without_tail(v, all), whole),
    decreases v.len(),
{
    if v.len() > 0 && unanswered(v.last().1, all) {
        lemma_subsequence_prefix(v, whole);
        lemma_rows_without_tail(v.drop_last(), all, whole);
        assert(row_messages(v).drop_last() =~= row_messages(v.drop_last()));
    }
}

/// Pruning messages that carry ids leaves the messages that pruning them alone
/// leaves, each with the id it had, in the order they had. The same holds of
/// dropping orphan results alone.
pub proof fn law_ids_stay_with_their_messages(v: Seq<(i64, MessageView)>)
    ensures
        row_messages(pruned_rows(v)) == pruned(row_messages(v)),
        subsequence(pruned_rows(v), v),
        subsequence(belonging_rows(v, row_messages(v)), v),
{
    let all = row_messages(v);
    lemma_belonging_rows(v, all);
    let kept = belonging_rows(v, all);
    lemma_rows_without_tail(kept, row_messages(kept), v);
}

} // verus!
