//! Turns that are suspended on work done elsewhere.

use vstd::prelude::*;

use crate::session::chat::StopReason;
use crate::text::{copy_str, same_str, texts};
use crate::text_map::{distinct_keys, TextMap};

verus! {

/// How a delegated task ended.
#[derive(Clone, Copy, Debug, PartialEq, Eq, Structural)]
pub enum SubStatus {
    Completed,
    Failed,
    TimedOut,
}

/// What came of a delegated task.
#[derive(Debug)]
pub struct SubResult {
    pub sub_session_id: String,
    pub status: SubStatus,
    pub content: String,
    pub sent_message_count: u64,
    /// Reports that the task made on its way.
    pub progress: Vec<String>,
}

pub struct ResultView {
    pub sub_session_id: Seq<char>,
    pub status: SubStatus,
    pub content: Seq<char>,
    pub sent_message_count: u64,
    pub progress: Seq<Seq<char>>,
}

impl View for SubResult {
    type V = ResultView;

    open spec fn view(&self) -> ResultView {
        ResultView {
            sub_session_id: self.sub_session_id@,
            status: self.status,
            content: self.content@,
            sent_message_count: self.sent_message_count,
            progress: texts(self.progress@),
        }
    }
}

/// The views of a list of results.
pub open spec fn results_of(v: Seq<SubResult>) -> Seq<ResultView> {
    v.map_values(|r: SubResult| r@)
}

/// The message that shows the progress of a suspended turn.
#[derive(Debug, Clone)]
pub struct PreviewState {
    pub reply_target: String,
    pub msg_id: String,
    pub text: String,
    pub thinking_steps: u64,
    pub tool_count: u64,
    pub commentary_notes: u64,
    pub started_at_unix_secs: u64,
}

/// A message that a stream can go on editing.
#[derive(Debug, Clone)]
pub struct FoldCandidate {
    pub msg_id: String,
    pub text: String,
    pub thinking_steps: u64,
    pub tool_count: u64,
    pub commentary_notes: u64,
    pub started_at_unix_secs: u64,
}

/// The preview that a foldable message makes.
pub open spec fn preview_of(reply_target: String, fold: FoldCandidate) -> PreviewState {
    PreviewState {
        reply_target,
        msg_id: fold.msg_id,
        text: fold.text,
        thinking_steps: fold.thinking_steps,
        tool_count: fold.tool_count,
        commentary_notes: fold.commentary_notes,
        started_at_unix_secs: fold.started_at_unix_secs,
    }
}

/// The foldable message of a preview.
pub open spec fn fold_of(p: PreviewState) -> FoldCandidate {
    FoldCandidate {
        msg_id: p.msg_id,
        text: p.text,
        thinking_steps: p.thinking_steps,
        tool_count: p.tool_count,
        commentary_notes: p.commentary_notes,
        started_at_unix_secs: p.started_at_unix_secs,
    }
}

impl PreviewState {
    pub fn copy(&self) -> (r: PreviewState)
        ensures
            r == *self,
    {
        PreviewState {
            reply_target: self.reply_target.clone(),
            msg_id: self.msg_id.clone(),
            text: self.text.clone(),
            thinking_steps: self.thinking_steps,
            tool_count: self.tool_count,
            commentary_notes: self.commentary_notes,
            started_at_unix_secs: self.started_at_unix_secs,
        }
    }

    /// The message of the preview, for a stream to go on editing.
    pub fn to_fold(&self) -> (r: FoldCandidate)
        ensures
            r == fold_of(*self),
    {
        FoldCandidate {
            msg_id: self.msg_id.clone(),
            text: self.text.clone(),
            thinking_steps: self.thinking_steps,
            tool_count: self.tool_count,
            commentary_notes: self.commentary_notes,
            started_at_unix_secs: self.started_at_unix_secs,
        }
    }
}

/// The state of a turn that waits for work done elsewhere.
#[derive(Debug)]
pub struct TurnSuspension {
    pub origin_turn_seq: u64,
    pub suspended_at: i64,
    /// The tasks that have not ended.
    pub pending: Vec<String>,
    /// What came of the tasks that have ended, in the order they did.
    pub results: Vec<SubResult>,
    /// The reports of tasks that have not ended.
    pub progress_by_sub_session: TextMap<Vec<String>>,
    pub preview: Option<PreviewState>,
}

#[verifier::ext_equal]
pub struct SuspensionView {
    pub origin_turn_seq: u64,
    pub suspended_at: i64,
    pub pending: Seq<Seq<char>>,
    pub results: Seq<ResultView>,
    pub progress: Map<Seq<char>, Seq<Seq<char>>>,
    pub preview: Option<PreviewState>,
}

/// The texts of a table of lists.
pub open spec fn lists_in(t: Map<Seq<char>, Vec<String>>) -> Map<Seq<char>, Seq<Seq<char>>> {
    t.map_values(|v: Vec<String>| texts(v@))
}

impl View for TurnSuspension {
    type V = SuspensionView;

    open spec fn view(&self) -> SuspensionView {
        SuspensionView {
            origin_turn_seq: self.origin_turn_seq,
            suspended_at: self.suspended_at,
            pending: texts(self.pending@),
            results: results_of(self.results@),
            progress: lists_in(self.progress_by_sub_session@),
            preview: self.preview,
        }
    }
}

/// `s` without the text `x`.
pub open spec fn without(s: Seq<Seq<char>>, x: Seq<char>) -> Seq<Seq<char>>
    decreases s.len(),
{
    if s.len() == 0 {
        s
    } else {
        let before = without(s.drop_last(), x);
        if s.last() == x {
            before
        } else {
            before.push(s.last())
        }
    }
}

/// The reports of a task.
pub open spec fn reports_of(
    progress: Map<Seq<char>, Seq<Seq<char>>>,
    id: Seq<char>,
) -> Seq<Seq<char>> {
    if progress.contains_key(id) {
        progress[id]
    } else {
        Seq::empty()
    }
}

/// Whether some result is that of the task.
pub open spec fn has_result(results: Seq<ResultView>, id: Seq<char>) -> bool {
    exists|i: int| 0 <= i < results.len() && (#[trigger] results[i]).sub_session_id == id
}

/// A turn suspended on one task.
pub open spec fn suspended_on(id: Seq<char>, now: i64) -> SuspensionView {
    SuspensionView {
        origin_turn_seq: 0,
        suspended_at: now,
        pending: seq![id],
        results: Seq::empty(),
        progress: Map::empty(),
        preview: None,
    }
}

/// `s` waiting for one more task; a task it waits for already is not entered
/// twice.
pub open spec fn with_pending(s: SuspensionView, id: Seq<char>) -> SuspensionView {
    if s.pending.contains(id) {
        s
    } else {
        SuspensionView { pending: s.pending.push(id), ..s }
    }
}

/// `s` with one more report of a task.
pub open spec fn with_report(s: SuspensionView, id: Seq<char>, text: Seq<char>) -> SuspensionView {
    SuspensionView { progress: s.progress.insert(id, reports_of(s.progress, id).push(text)), ..s }
}

/// `s` with the end of a task: it is no longer waited for, and its result, with
/// its reports, comes last.
pub open spec fn with_terminal(
    s: SuspensionView,
    id: Seq<char>,
    status: SubStatus,
    content: Seq<char>,
    sent: u64,
) -> SuspensionView {
    SuspensionView {
        pending: without(s.pending, id),
        results: s.results.push(
            ResultView {
                sub_session_id: id,
                status,
                content,
                sent_message_count: sent,
                progress: reports_of(s.progress, id),
            },
        ),
        progress: s.progress.remove(id),
        ..s
    }
}

/// Whether the text is one of those listed.
pub fn holds(v: &Vec<String>, x: &str) -> (r: bool)
    ensures
        r == texts(v@).contains(x@),
{
    let mut i: usize = 0;
    while i < v.len()
        invariant
            i <= v@.len(),
            forall|k: int| 0 <= k < i ==> texts(v@)[k] != x@,
        decreases v@.len() - i,
    {
        assert(texts(v@)[i as int] == v@[i as int]@);
        if same_str(&v[i], x) {
            return true;
        }
        i += 1;
    }
    false
}

/// A copy of a list of texts.
pub fn copy_texts(v: &Vec<String>) -> (r: Vec<String>)
    ensures
        texts(r@) == texts(v@),
{
    let mut r: Vec<String> = Vec::new();
    let mut i: usize = 0;
    while i < v.len()
        invariant
            i <= v@.len(),
            texts(r@) == texts(v@).take(i as int),
        decreases v@.len() - i,
    {
        let ghost before = texts(r@);
        r.push(v[i].clone());
        assert(texts(r@) =~= before.push(v@[i as int]@));
        assert(texts(r@) =~= texts(v@).take(i as int + 1));
        i += 1;
    }
    assert(texts(v@).take(v@.len() as int) =~= texts(v@));
    r
}

/// The listed texts but for one.
fn drop_from(v: &Vec<String>, x: &str) -> (r: Vec<String>)
    ensures
        texts(r@) == without(texts(v@), x@),
{
    let ghost all = texts(v@);
    let mut r: Vec<String> = Vec::new();
    let mut i: usize = 0;
    assert(texts(r@) =~= without(all.take(0), x@));
    while i < v.len()
        invariant
            i <= v@.len(),
            all == texts(v@),
            texts(r@) == without(all.take(i as int), x@),
        decreases v@.len() - i,
    {
        assert(all.take(i as int + 1).drop_last() =~= all.take(i as int));
        assert(all.take(i as int + 1).last() == v@[i as int]@);
        if !same_str(&v[i], x) {
            let ghost before = texts(r@);
            r.push(v[i].clone());
            assert(texts(r@) =~= before.push(v@[i as int]@));
        }
        i += 1;
    }
    assert(all.take(all.len() as int) =~= all);
    r
}

/// A copy of a table of lists.
fn copy_lists(t: &TextMap<Vec<String>>) -> (r: TextMap<Vec<String>>)
    requires
        t.wf(),
    ensures
        r.wf(),
        lists_in(r@) == lists_in(t@),
{
    let mut r: TextMap<Vec<String>> = TextMap::new();
    let ghost rows = t.rows();
    proof {
        t.lemma_rows();
    }
    let mut i: usize = 0;
    while i < t.len()
        invariant
            i <= rows.len(),
            rows == t.rows(),
            r.wf(),
            distinct_keys(rows),
            forall|k: Seq<char>| #[trigger]
                r@.contains_key(k) ==> exists|j: int|
                    0 <= j < i && (#[trigger] rows[j]).0@ == k && texts(r@[k]@) == texts(
                        rows[j].1@,
                    ),
            forall|j: int|
                0 <= j < i ==> r@.contains_key((#[trigger] rows[j]).0@) && texts(r@[rows[j].0@]@)
                    == texts(rows[j].1@),
        decreases rows.len() - i,
    {
        let ghost before = r@;
        r.insert(t.key_at(i).clone(), copy_texts(t.value_at(i)));
        assert forall|k: Seq<char>| #[trigger] r@.contains_key(k) implies exists|j: int|
            0 <= j < i + 1 && (#[trigger] rows[j]).0@ == k && texts(r@[k]@) == texts(
                rows[j].1@,
            ) by {
            if k == rows[i as int].0@ {
                assert(rows[i as int].0@ == k);
            } else {
                assert(before.contains_key(k));
                let j = choose|j: int|
                    0 <= j < i && (#[trigger] rows[j]).0@ == k && texts(before[k]@) == texts(
                        rows[j].1@,
                    );
                assert(rows[j].0@ == k);
            }
        }
        assert forall|j: int| 0 <= j < i + 1 implies r@.contains_key((#[trigger] rows[j]).0@)
            && texts(r@[rows[j].0@]@) == texts(rows[j].1@) by {
            if j < i {
                assert(rows[j].0@ != rows[i as int].0@);
            }
        }
        i += 1;
    }
    assert(lists_in(r@) =~= lists_in(t@)) by {
        assert forall|k: Seq<char>| lists_in(r@).contains_key(k) == lists_in(t@).contains_key(
            k,
        ) by {
            if r@.contains_key(k) {
                let j = choose|j: int|
                    0 <= j < rows.len() && (#[trigger] rows[j]).0@ == k && texts(r@[k]@) == texts(
                        rows[j].1@,
                    );
                assert(t@.dom().contains(rows[j].0@));
            }
            if t@.dom().contains(k) {
                let j = choose|j: int| 0 <= j < rows.len() && (#[trigger] rows[j]).0@ == k;
                assert(r@.contains_key(rows[j].0@));
            }
        }
        assert forall|k: Seq<char>| lists_in(r@).contains_key(k) implies lists_in(r@)[k]
            == lists_in(t@)[k] by {
            let j = choose|j: int|
                0 <= j < rows.len() && (#[trigger] rows[j]).0@ == k && texts(r@[k]@) == texts(
                    rows[j].1@,
                );
            assert(t@[rows[j].0@] == rows[j].1);
        }
    }
    r
}

impl SubResult {
    pub fn copy(&self) -> (r: SubResult)
        ensures
            r@ == self@,
    {
        SubResult {
            sub_session_id: self.sub_session_id.clone(),
            status: self.status,
            content: self.content.clone(),
            sent_message_count: self.sent_message_count,
            progress: copy_texts(&self.progress),
        }
    }
}

impl TurnSuspension {
    /// Whether the table of reports is a table.
    pub open spec fn wf(&self) -> bool {
        self.progress_by_sub_session.wf()
    }

    /// A turn suspended on one task at `now`.
    pub fn new(sub_session_id: String, now: i64) -> (r: TurnSuspension)
        ensures
            r.wf(),
            r@ == suspended_on(sub_session_id@, now),
    {
        let mut pending: Vec<String> = Vec::new();
        let ghost id = sub_session_id@;
        pending.push(sub_session_id);
        let r = TurnSuspension {
            origin_turn_seq: 0,
            suspended_at: now,
            pending,
            results: Vec::new(),
            progress_by_sub_session: TextMap::new(),
            preview: None,
        };
        assert(r@ =~= suspended_on(id, now));
        r
    }

    /// Waits for one more task.
    pub fn add_pending(&mut self, sub_session_id: String)
        requires
            old(self).wf(),
        ensures
            final(self).wf(),
            final(self)@ == with_pending(old(self)@, sub_session_id@),
    {
        if !holds(&self.pending, &sub_session_id) {
            let ghost before = self@;
            let ghost id = sub_session_id@;
            self.pending.push(sub_session_id);
            assert(self@.pending =~= before.pending.push(id));
        }
    }

    /// Keeps a report of a task.
    pub fn add_report(&mut self, sub_session_id: &str, text: &str)
        requires
            old(self).wf(),
        ensures
            final(self).wf(),
            final(self)@ == with_report(old(self)@, sub_session_id@, text@),
    {
        let ghost before = self.progress_by_sub_session@;
        let mut reports: Vec<String> = match self.progress_by_sub_session.remove(sub_session_id) {
            Some(v) => v,
            None => Vec::new(),
        };
        let ghost kept = texts(reports@);
        assert(kept =~= reports_of(lists_in(before), sub_session_id@));
        reports.push(copy_str(text));
        assert(texts(reports@) =~= kept.push(text@));
        self.progress_by_sub_session.insert(copy_str(sub_session_id), reports);
        assert(lists_in(self.progress_by_sub_session@) =~= lists_in(before).insert(
            sub_session_id@,
            kept.push(text@),
        ));
    }

    /// Whether some result is that of the task.
    pub fn has_result_of(&self, id: &str) -> (r: bool)
        ensures
            r == has_result(self@.results, id@),
    {
        let mut i: usize = 0;
        while i < self.results.len()
            invariant
                i <= self.results@.len(),
                forall|k: int|
                    0 <= k < i ==> (#[trigger] self@.results[k]).sub_session_id != id@,
            decreases self.results@.len() - i,
        {
            assert(self@.results[i as int] == self.results@[i as int]@);
            if same_str(&self.results[i].sub_session_id, id) {
                return true;
            }
            i += 1;
        }
        false
    }

    /// Takes in the end of a task.
    pub fn collect(&mut self, id: &str, status: SubStatus, content: String, sent: u64)
        requires
            old(self).wf(),
        ensures
            final(self).wf(),
            final(self)@ == with_terminal(old(self)@, id@, status, content@, sent),
    {
        let ghost before = *self;
        self.pending = drop_from(&self.pending, id);
        let progress: Vec<String> = match self.progress_by_sub_session.remove(id) {
            Some(v) => v,
            None => Vec::new(),
        };
        assert(texts(progress@) =~= reports_of(before@.progress, id@));
        assert(lists_in(self.progress_by_sub_session@) =~= before@.progress.remove(id@));
        let one = SubResult {
            sub_session_id: copy_str(id),
            status,
            content,
            sent_message_count: sent,
            progress,
        };
        let ghost v = one@;
        self.results.push(one);
        assert(results_of(self.results@) =~= before@.results.push(v));
    }

    pub fn copy(&self) -> (r: TurnSuspension)
        requires
            self.wf(),
        ensures
            r.wf(),
            r@ == self@,
    {
        let mut results: Vec<SubResult> = Vec::new();
        let mut i: usize = 0;
        while i < self.results.len()
            invariant
                i <= self.results@.len(),
                results_of(results@) == self@.results.take(i as int),
            decreases self.results@.len() - i,
        {
            let ghost before = results_of(results@);
            results.push(self.results[i].copy());
            assert(results_of(results@) =~= before.push(self.results@[i as int]@));
            assert(results_of(results@) =~= self@.results.take(i as int + 1));
            i += 1;
        }
        assert(self@.results.take(self@.results.len() as int) =~= self@.results);
        TurnSuspension {
            origin_turn_seq: self.origin_turn_seq,
            suspended_at: self.suspended_at,
            pending: copy_texts(&self.pending),
            results,
            progress_by_sub_session: copy_lists(&self.progress_by_sub_session),
            preview: match &self.preview {
                Some(p) => Some(p.copy()),
                None => None,
            },
        }
    }
}

/// What came of the end of a task being reported.
#[derive(Debug)]
pub enum TerminalRecord {
    /// It was taken in; the suspension is as given. A notice is due.
    Recorded(Box<TurnSuspension>),
    /// It had been taken in before. No notice is due.
    Duplicate,
    /// No turn is suspended.
    NoSuspension,
}

/// Whether a turn stays quiet. Notices of delegated work carry an intent, fixed
/// when the work ended; messages of a user carry none and are never quiet,
/// whatever is still pending.
pub fn decide_silenced(intent: Option<bool>, live: Option<TurnSuspension>) -> (r: bool)
    ensures
        r == (intent == Some(true)),
{
    let _ = live;
    match intent {
        Some(b) => b,
        None => false,
    }
}

/// The stop reason as it is recorded: a quiet turn with work pending does not
/// end where its output ends.
pub open spec fn recorded_stop(silenced: bool, has_pending: bool, reason: StopReason) -> StopReason {
    if silenced && has_pending && reason == StopReason::EndTurn {
        StopReason::Continue
    } else {
        reason
    }
}

/// The stop reason as it is recorded.
pub fn semantic_stop_reason(silenced: bool, has_pending: bool, stop_reason: StopReason) -> (r:
    StopReason)
    ensures
        r == recorded_stop(silenced, has_pending, stop_reason),
{
    if silenced && has_pending && stop_reason == StopReason::EndTurn {
        StopReason::Continue
    } else {
        stop_reason
    }
}

// ── Laws ───────────────────────────────────────────────────────────────────

/// Recording a stop reason twice is recording it once.
pub proof fn law_stop_reason_is_idempotent(silenced: bool, has_pending: bool, reason: StopReason)
    ensures
        recorded_stop(silenced, has_pending, recorded_stop(silenced, has_pending, reason))
            == recorded_stop(silenced, has_pending, reason),
{
}

/// Waiting for a task twice is waiting for it once, and the tasks waited for
/// keep their order.
pub proof fn law_pending_is_idempotent(s: SuspensionView, id: Seq<char>)
    ensures
        with_pending(with_pending(s, id), id) == with_pending(s, id),
        with_pending(s, id).pending.contains(id),
        with_pending(s, id).pending.take(s.pending.len() as int) == s.pending,
{
    let t = with_pending(s, id);
    assert(t.pending.take(s.pending.len() as int) =~= s.pending);
    if !s.pending.contains(id) {
        assert(t.pending[s.pending.len() as int] == id);
    }
}

pub(crate) proof fn lemma_without(s: Seq<Seq<char>>, x: Seq<char>)
    ensures
        !without(s, x).contains(x),
        forall|y: Seq<char>| y != x ==> (#[trigger] without(s, x).contains(y) == s.contains(y)),
    decreases s.len(),
{
    if s.len() > 0 {
        let sub = s.drop_last();
        lemma_without(sub, x);
        let r = without(s, x);
        let before = without(sub, x);
        assert forall|y: Seq<char>| y != x implies #[trigger] r.contains(y) == s.contains(y) by {
            assert(before.contains(y) == sub.contains(y));
            if s.contains(y) {
                let i = choose|i: int| 0 <= i < s.len() && s[i] == y;
                if i < sub.len() {
                    assert(sub[i] == y);
                    let k = choose|k: int| 0 <= k < before.len() && before[k] == y;
                    assert(r[k] == y);
                } else {
                    assert(r[r.len() - 1] == y);
                }
            }
            if r.contains(y) {
                let k = choose|k: int| 0 <= k < r.len() && r[k] == y;
                if k < before.len() {
                    assert(before[k] == y);
                    let i = choose|i: int| 0 <= i < sub.len() && sub[i] == y;
                    assert(s[i] == y);
                } else {
                    assert(s[s.len() - 1] == y);
                }
            }
        }
        if r.contains(x) {
            let k = choose|k: int| 0 <= k < r.len() && r[k] == x;
            if k < before.len() {
                assert(before[k] == x);
            }
        }
    }
}

/// Taking in the end of a task takes the task, and no other, out of those
/// waited for, keeps every result there was, and puts the new one last.
pub proof fn law_terminal_moves_one_task(
    s: SuspensionView,
    id: Seq<char>,
    status: SubStatus,
    content: Seq<char>,
    sent: u64,
    other: Seq<char>,
)
    requires
        other != id,
    ensures
        !with_terminal(s, id, status, content, sent).pending.contains(id),
        with_terminal(s, id, status, content, sent).pending.contains(other) == s.pending.contains(
            other,
        ),
        with_terminal(s, id, status, content, sent).results.drop_last() == s.results,
        with_terminal(s, id, status, content, sent).results.last().sub_session_id == id,
        reports_of(with_terminal(s, id, status, content, sent).progress, other) == reports_of(
            s.progress,
            other,
        ),
{
    lemma_without(s.pending, id);
    let t = with_terminal(s, id, status, content, sent);
    assert(t.results.drop_last() =~= s.results);
    assert(without(s.pending, id).contains(other) == s.pending.contains(other));
}

/// The reports of a task come with its result, in the order they were made.
pub proof fn law_reports_come_with_the_result(
    s: SuspensionView,
    id: Seq<char>,
    text: Seq<char>,
    status: SubStatus,
    content: Seq<char>,
    sent: u64,
)
    ensures
        with_terminal(with_report(s, id, text), id, status, content, sent).results.last().progress
            == reports_of(s.progress, id).push(text),
        !with_terminal(s, id, status, content, sent).progress.contains_key(id),
{
}

} // verus!
