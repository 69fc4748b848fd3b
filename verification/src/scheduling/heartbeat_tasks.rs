//! Heartbeat tasks: what an agent looks after on every heartbeat.
//!
//! A heartbeat file holds general notes and, under a header `## Tasks`, lines
//! `- [name] description` or `- [name:paused] description`. A line of plain text
//! gets a name made from its hash. How often tasks run is set for the heartbeat
//! as a whole, not per task.

use crate::duration::{opt_secs, Duration};
use crate::number::{decimal, hex_of, hex_padded, parse_unsigned, parsed_unsigned, push_decimal};
use crate::split::{join_slices, joined, lemma_slices_push, lines_of, slices, split_lines};
use crate::text::{
    begins_with, chars_of, eq_ignore_case, find_char, first_at, is_text, piece, same_but_case,
    starts_with, string_of, trim, trimmed,
};
use std::hash::{Hash, Hasher};
use vstd::prelude::*;

verus! {

/// A task of the heartbeat.
#[derive(Debug)]
pub struct HeartbeatTask {
    pub name: String,
    pub interval: Duration,
    pub description: String,
    pub is_paused: bool,
}

/// The mathematical value of a [`HeartbeatTask`].
pub struct TaskView {
    pub name: Seq<char>,
    pub interval: u64,
    pub description: Seq<char>,
    pub is_paused: bool,
}

impl View for HeartbeatTask {
    type V = TaskView;

    open spec fn view(&self) -> TaskView {
        TaskView {
            name: self.name@,
            interval: self.interval.secs,
            description: self.description@,
            is_paused: self.is_paused,
        }
    }
}

/// The mathematical values of a row of tasks.
pub open spec fn tasks_view(v: Seq<HeartbeatTask>) -> Seq<TaskView> {
    v.map_values(|t: HeartbeatTask| t@)
}

/// When each task last ran, in milliseconds since the Unix epoch.
#[derive(Debug)]
pub struct HeartbeatState {
    pub last_run: Vec<(String, u64)>,
}

impl Default for HeartbeatState {
    fn default() -> (r: HeartbeatState)
        ensures
            r.last_run@.len() == 0,
    {
        HeartbeatState { last_run: Vec::new() }
    }
}

// ── Task lines ─────────────────────────────────────────────────────────────

/// The seconds of one unit of an interval text.
pub open spec fn unit_secs(c: char) -> Option<nat> {
    if c == 's' {
        Some(1)
    } else if c == 'm' {
        Some(60)
    } else if c == 'h' {
        Some(3600)
    } else if c == 'd' {
        Some(86400)
    } else {
        None
    }
}

/// The seconds that an interval text such as "30m" or "2d" counts, where 64
/// bits hold them.
pub open spec fn interval_str_secs(s: Seq<char>) -> Option<nat> {
    let t = trimmed(s);
    if t.len() == 0 {
        None
    } else {
        match (parsed_unsigned(t.drop_last(), u64::MAX as nat), unit_secs(t.last())) {
            (Some(n), Some(u)) if n * u <= u64::MAX => Some(n * u),
            _ => None,
        }
    }
}

fn parse_interval_chars(v: &[char]) -> (r: Option<Duration>)
    ensures
        opt_secs(r) == interval_str_secs(v@),
{
    let t = trim(v);
    let n: usize = t.len();
    if n == 0 {
        return None;
    }
    let num = piece(t, 0, n - 1);
    assert(num@ =~= t@.drop_last());
    let k = match parse_unsigned(num, u64::MAX) {
        Some(k) => k,
        None => {
            return None;
        },
    };
    let unit: u64 = match t[n - 1] {
        's' => 1,
        'm' => 60,
        'h' => 3600,
        'd' => 86400,
        _ => {
            return None;
        },
    };
    match k.checked_mul(unit) {
        Some(secs) => Some(Duration::from_secs(secs)),
        None => None,
    }
}

/// Parses an interval text such as "30m", "1h" or "2d".
pub fn parse_interval_str(s: &str) -> (r: Option<Duration>)
    ensures
        opt_secs(r) == interval_str_secs(s@),
{
    let v = chars_of(s);
    parse_interval_chars(&v)
}

/// The hash that `std::collections::hash_map::DefaultHasher` gives a text.
pub uninterp spec fn text_hash(s: Seq<char>) -> u64;

/// Hashes a text with `DefaultHasher::new`. All hashers made that way hash alike.
#[verifier::external_body]
fn hash_text(s: &str) -> (r: u64)
    ensures
        r == text_hash(s@),
{
    let mut hasher = std::collections::hash_map::DefaultHasher::new();
    s.hash(&mut hasher);
    hasher.finish()
}

/// The name of a task of plain text.
pub open spec fn plain_name(text: Seq<char>) -> Seq<char> {
    hex_padded(text_hash(text) as nat, 8)
}

/// A short name for a text: its hash, in at least eight hexadecimal digits.
pub fn text_to_name(text: &str) -> (r: String)
    ensures
        r@ == plain_name(text@),
{
    hex_of(hash_text(text), 8)
}

/// The name of a task from what stands between its brackets.
pub open spec fn meta_name(meta: Seq<char>) -> Seq<char> {
    if meta.contains(':') {
        trimmed(meta.take(first_at(meta, ':')))
    } else {
        trimmed(meta)
    }
}

/// What follows the colon between the brackets, if there is one.
pub open spec fn meta_suffix(meta: Seq<char>) -> Option<Seq<char>> {
    if meta.contains(':') {
        Some(trimmed(meta.skip(first_at(meta, ':') + 1)))
    } else {
        None
    }
}

/// Whether a suffix pauses a task.
pub open spec fn pauses(suffix: Option<Seq<char>>) -> bool {
    match suffix {
        Some(s) => s == "paused"@ || s == "pause"@,
        None => false,
    }
}

/// The seconds of an interval suffix; half an hour where there is none.
pub open spec fn suffix_interval(suffix: Option<Seq<char>>) -> u64 {
    match suffix {
        Some(s) => match interval_str_secs(s) {
            Some(n) => n as u64,
            None => 1800,
        },
        None => 1800,
    }
}

/// The task that a task line describes: `[name] description`,
/// `[name:paused] description`, or plain text.
pub open spec fn task_of(text: Seq<char>) -> Option<TaskView> {
    let t = trimmed(text);
    if t.len() == 0 {
        None
    } else if t[0] == '[' && t.contains(']') {
        let end = first_at(t, ']');
        let meta = t.subrange(1, end);
        let suffix = meta_suffix(meta);
        if meta_name(meta).len() == 0 {
            None
        } else {
            Some(
                TaskView {
                    name: meta_name(meta),
                    interval: if pauses(suffix) {
                        1800
                    } else {
                        suffix_interval(suffix)
                    },
                    description: trimmed(t.skip(end + 1)),
                    is_paused: pauses(suffix),
                },
            )
        }
    } else {
        Some(
            TaskView { name: plain_name(t), interval: 1800, description: t, is_paused: false },
        )
    }
}

/// The view of an optional task.
pub open spec fn opt_task(o: Option<HeartbeatTask>) -> Option<TaskView> {
    match o {
        Some(t) => Some(t@),
        None => None,
    }
}

fn parse_task_chars(v: &[char]) -> (r: Option<HeartbeatTask>)
    ensures
        opt_task(r) == task_of(v@),
{
    let t = trim(v);
    if t.len() == 0 {
        return None;
    }
    if t[0] == '[' {
        let end: usize = find_char(t, ']');
        if end < t.len() {
            proof {
                crate::text::lemma_first_at_props(t@, ']');
            }
            let meta = piece(t, 1, end);
            let rest = piece(t, end + 1, t.len());
            assert(rest@ =~= t@.skip(end as int + 1));
            let description = string_of(trim(rest));
            let colon: usize = find_char(meta, ':');
            let mut is_paused: bool = false;
            let mut interval = Duration::from_secs(1800);
            let mut name_part = meta;
            if colon < meta.len() {
                name_part = piece(meta, 0, colon);
                assert(name_part@ =~= meta@.take(colon as int));
                let tail = piece(meta, colon + 1, meta.len());
                assert(tail@ =~= meta@.skip(colon as int + 1));
                let suffix = trim(tail);
                if is_text(suffix, "paused") || is_text(suffix, "pause") {
                    is_paused = true;
                } else {
                    match parse_interval_chars(suffix) {
                        Some(d) => {
                            interval = d;
                        },
                        None => {},
                    }
                }
            }
            let name = trim(name_part);
            if name.len() == 0 {
                return None;
            }
            return Some(
                HeartbeatTask { name: string_of(name), interval, description, is_paused },
            );
        }
    }
    let text = string_of(t);
    Some(
        HeartbeatTask {
            name: text_to_name(text.as_str()),
            interval: Duration::from_secs(1800),
            description: text,
            is_paused: false,
        },
    )
}

/// Parses what follows the dash of a task line.
pub fn parse_task_line(text: &str) -> (r: Option<HeartbeatTask>)
    ensures
        opt_task(r) == task_of(text@),
{
    let v = chars_of(text);
    parse_task_chars(&v)
}

// ── The file ───────────────────────────────────────────────────────────────

/// Whether a trimmed line opens the section of tasks.
pub open spec fn opens_tasks(t: Seq<char>) -> bool {
    same_but_case(t, "## tasks"@) || same_but_case(t, "## tasks:"@)
}

/// Whether a line is in the section of tasks, or opens it, after the lines
/// before it: such a section runs up to the next header of its level.
pub open spec fn in_tasks_after(lines: Seq<Seq<char>>) -> bool
    decreases lines.len(),
{
    if lines.len() == 0 {
        false
    } else {
        let t = trimmed(lines.last());
        if opens_tasks(t) {
            true
        } else if begins_with(t, "## "@) {
            false
        } else {
            in_tasks_after(lines.drop_last())
        }
    }
}

/// Whether any line opens a section of tasks.
pub open spec fn has_tasks_section(lines: Seq<Seq<char>>) -> bool {
    exists|i: int| 0 <= i < lines.len() && opens_tasks(#[trigger] trimmed(lines[i]))
}

proof fn lemma_section_grows(lines: Seq<Seq<char>>)
    requires
        lines.len() > 0,
    ensures
        has_tasks_section(lines) == (has_tasks_section(lines.drop_last()) || opens_tasks(
            trimmed(lines.last()),
        )),
{
    let sub = lines.drop_last();
    if has_tasks_section(sub) {
        let i = choose|i: int| 0 <= i < sub.len() && opens_tasks(#[trigger] trimmed(sub[i]));
        assert(opens_tasks(trimmed(lines[i])));
    }
    if has_tasks_section(lines) {
        let i = choose|i: int| 0 <= i < lines.len() && opens_tasks(#[trigger] trimmed(lines[i]));
        if i < sub.len() {
            assert(opens_tasks(trimmed(sub[i])));
        }
    }
    if opens_tasks(trimmed(lines.last())) {
        assert(opens_tasks(trimmed(lines[lines.len() - 1])));
    }
}

/// The task of a line that begins with a dash, as a row of at most one.
pub open spec fn dash_task(line: Seq<char>) -> Seq<TaskView> {
    let t = trimmed(line);
    if begins_with(t, "- "@) {
        match task_of(t.skip(2)) {
            Some(task) => seq![task],
            None => Seq::empty(),
        }
    } else {
        Seq::empty()
    }
}

/// The tasks of the sections of tasks.
pub open spec fn section_tasks(lines: Seq<Seq<char>>) -> Seq<TaskView>
    decreases lines.len(),
{
    if lines.len() == 0 {
        Seq::empty()
    } else {
        let before = section_tasks(lines.drop_last());
        if in_tasks_after(lines) && !opens_tasks(trimmed(lines.last())) {
            before + dash_task(lines.last())
        } else {
            before
        }
    }
}

/// The lines before the first section of tasks.
pub open spec fn context_of(lines: Seq<Seq<char>>) -> Seq<Seq<char>>
    decreases lines.len(),
{
    if lines.len() == 0 || !has_tasks_section(lines) {
        lines
    } else {
        context_of(lines.drop_last())
    }
}

/// The tasks of dash lines anywhere.
pub open spec fn dash_tasks(lines: Seq<Seq<char>>) -> Seq<TaskView>
    decreases lines.len(),
{
    if lines.len() == 0 {
        Seq::empty()
    } else {
        dash_tasks(lines.drop_last()) + dash_task(lines.last())
    }
}

/// The lines that are no task.
pub open spec fn non_tasks(lines: Seq<Seq<char>>) -> Seq<Seq<char>>
    decreases lines.len(),
{
    if lines.len() == 0 {
        Seq::empty()
    } else {
        let before = non_tasks(lines.drop_last());
        if dash_task(lines.last()).len() > 0 {
            before
        } else {
            before.push(lines.last())
        }
    }
}

/// The lines that are no header.
pub open spec fn non_headers(lines: Seq<Seq<char>>) -> Seq<Seq<char>>
    decreases lines.len(),
{
    if lines.len() == 0 {
        Seq::empty()
    } else {
        let before = non_headers(lines.drop_last());
        if begins_with(trimmed(lines.last()), "#"@) {
            before
        } else {
            before.push(lines.last())
        }
    }
}

/// The text of context lines.
pub open spec fn context_text(lines: Seq<Seq<char>>) -> Seq<char> {
    trimmed(joined(non_headers(lines), "\n"@))
}

/// The context and the tasks of a heartbeat file. Without a section of tasks
/// every dash line is a task.
pub open spec fn heartbeat_of(content: Seq<char>) -> (Seq<char>, Seq<TaskView>) {
    let lines = lines_of(content);
    if has_tasks_section(lines) {
        (context_text(context_of(lines)), section_tasks(lines))
    } else {
        (context_text(non_tasks(lines)), dash_tasks(lines))
    }
}

fn opens_tasks_section(t: &[char]) -> (r: bool)
    ensures
        r == opens_tasks(t@),
{
    eq_ignore_case(t, "## tasks") || eq_ignore_case(t, "## tasks:")
}

fn push_dash_task(line: &[char], tasks: &mut Vec<HeartbeatTask>) -> (r: bool)
    ensures
        tasks_view(final(tasks)@) == tasks_view(old(tasks)@) + dash_task(line@),
        r == (dash_task(line@).len() > 0),
{
    let t = trim(line);
    if starts_with(t, "- ") {
        proof {
            reveal_strlit("- ");
        }
        let item = piece(t, 2, t.len());
        assert(item@ =~= t@.skip(2));
        match parse_task_chars(item) {
            Some(task) => {
                let ghost before = tasks@;
                tasks.push(task);
                assert(tasks_view(tasks@) =~= tasks_view(before) + seq![task@]);
                return true;
            },
            None => {},
        }
    }
    assert(tasks_view(tasks@) =~= tasks_view(tasks@) + Seq::<TaskView>::empty());
    false
}

/// Parses a heartbeat file into its context, which is what stands before the first
/// section of tasks, and its tasks.
pub fn parse_heartbeat(content: &str) -> (r: (String, Vec<HeartbeatTask>))
    ensures
        (r.0@, tasks_view(r.1@)) == heartbeat_of(content@),
{
    let all = chars_of(content);
    let lines = split_lines(&all);
    let ghost ls = slices(lines@);
    let mut has_section: bool = false;
    let mut i: usize = 0;
    while i < lines.len()
        invariant
            i <= lines@.len(),
            ls == slices(lines@),
            has_section == exists|j: int| 0 <= j < i && opens_tasks(#[trigger] trimmed(ls[j])),
        decreases lines@.len() - i,
    {
        assert(ls[i as int] == lines@[i as int]@);
        if opens_tasks_section(trim(lines[i])) {
            assert(opens_tasks(trimmed(ls[i as int])));
            has_section = true;
        }
        i += 1;
    }
    let mut context: Vec<&[char]> = Vec::new();
    let mut tasks: Vec<HeartbeatTask> = Vec::new();
    let mut in_tasks: bool = false;
    let mut seen: bool = false;
    i = 0;
    assert(ls.take(0) =~= Seq::<Seq<char>>::empty());
    assert(slices(context@) =~= Seq::<Seq<char>>::empty());
    assert(tasks_view(tasks@) =~= Seq::<TaskView>::empty());
    while i < lines.len()
        invariant
            i <= lines@.len(),
            ls == slices(lines@),
            has_section ==> in_tasks == in_tasks_after(ls.take(i as int)),
            has_section ==> seen == has_tasks_section(ls.take(i as int)),
            in_tasks ==> seen,
            has_section ==> slices(context@) == context_of(ls.take(i as int)),
            has_section ==> tasks_view(tasks@) == section_tasks(ls.take(i as int)),
            !has_section ==> slices(context@) == non_tasks(ls.take(i as int)),
            !has_section ==> tasks_view(tasks@) == dash_tasks(ls.take(i as int)),
        decreases lines@.len() - i,
    {
        let line = lines[i];
        proof {
            assert(ls[i as int] == line@);
            assert(ls.take(i as int + 1).drop_last() =~= ls.take(i as int));
            assert(ls.take(i as int + 1).last() == line@);
            lemma_slices_push(context@, line);
        }
        if has_section {
            let t = trim(line);
            proof {
                lemma_section_grows(ls.take(i as int + 1));
            }
            if opens_tasks_section(t) {
                in_tasks = true;
                seen = true;
            } else {
                if in_tasks && starts_with(t, "## ") {
                    in_tasks = false;
                }
                if in_tasks {
                    let pushed = push_dash_task(line, &mut tasks);
                } else if !seen {
                    context.push(line);
                    assert(ls.take(i as int + 1) =~= ls.take(i as int).push(line@));
                }
            }
        } else if !push_dash_task(line, &mut tasks) {
            context.push(line);
        }
        i += 1;
    }
    assert(ls.take(ls.len() as int) =~= ls);
    let mut kept: Vec<&[char]> = Vec::new();
    let ghost cs = slices(context@);
    i = 0;
    assert(cs.take(0) =~= Seq::<Seq<char>>::empty());
    assert(slices(kept@) =~= Seq::<Seq<char>>::empty());
    while i < context.len()
        invariant
            i <= context@.len(),
            cs == slices(context@),
            slices(kept@) == non_headers(cs.take(i as int)),
        decreases context@.len() - i,
    {
        let line = context[i];
        proof {
            assert(cs[i as int] == line@);
            assert(cs.take(i as int + 1).drop_last() =~= cs.take(i as int));
            assert(cs.take(i as int + 1).last() == line@);
            lemma_slices_push(kept@, line);
        }
        if !starts_with(trim(line), "#") {
            kept.push(line);
        }
        i += 1;
    }
    assert(cs.take(cs.len() as int) =~= cs);
    let text = join_slices(&kept, "\n");
    let text_chars = chars_of(text.as_str());
    (string_of(trim(&text_chars)), tasks)
}

// ── Running tasks ──────────────────────────────────────────────────────────

/// The tasks that are not paused, in order.
pub open spec fn unpaused(tasks: Seq<HeartbeatTask>) -> Seq<HeartbeatTask>
    decreases tasks.len(),
{
    if tasks.len() == 0 {
        Seq::empty()
    } else if tasks.last().is_paused {
        unpaused(tasks.drop_last())
    } else {
        unpaused(tasks.drop_last()).push(tasks.last())
    }
}

/// The values behind a row of references.
pub open spec fn referents(v: Seq<&HeartbeatTask>) -> Seq<HeartbeatTask> {
    v.map_values(|t: &HeartbeatTask| *t)
}

/// The tasks that are due: all that are not paused.
pub fn due_tasks<'a>(tasks: &'a [HeartbeatTask], _state: &HeartbeatState) -> (r: Vec<
    &'a HeartbeatTask,
>)
    ensures
        referents(r@) == unpaused(tasks@),
{
    let mut r: Vec<&'a HeartbeatTask> = Vec::new();
    let mut i: usize = 0;
    assert(tasks@.take(0) =~= Seq::<HeartbeatTask>::empty());
    assert(referents(r@) =~= Seq::<HeartbeatTask>::empty());
    while i < tasks.len()
        invariant
            i <= tasks@.len(),
            referents(r@) == unpaused(tasks@.take(i as int)),
        decreases tasks@.len() - i,
    {
        let task = &tasks[i];
        assert(tasks@.take(i as int + 1).drop_last() =~= tasks@.take(i as int));
        assert(referents(r@.push(task)) =~= referents(r@).push(*task));
        if !task.is_paused {
            r.push(task);
        }
        i += 1;
    }
    assert(tasks@.take(tasks@.len() as int) =~= tasks@);
    r
}

/// A paused task is never due, and a task that is not paused always is.
pub proof fn law_due_iff_not_paused(tasks: Seq<HeartbeatTask>, t: HeartbeatTask)
    ensures
        unpaused(tasks).contains(t) == (tasks.contains(t) && !t.is_paused),
    decreases tasks.len(),
{
    if tasks.len() > 0 {
        let rest = tasks.drop_last();
        law_due_iff_not_paused(rest, t);
        assert(tasks =~= rest.push(tasks.last()));
        if tasks.contains(t) && t != tasks.last() {
            let i = choose|i: int| 0 <= i < tasks.len() && tasks[i] == t;
            assert(rest[i] == t);
        }
        if rest.contains(t) {
            let i = choose|i: int| 0 <= i < rest.len() && rest[i] == t;
            assert(tasks[i] == t);
        }
        if unpaused(rest).contains(t) {
            let i = choose|i: int| 0 <= i < unpaused(rest).len() && unpaused(rest)[i] == t;
            assert(unpaused(rest).push(tasks.last())[i] == t);
        }
        if unpaused(tasks).contains(t) && !tasks.last().is_paused && t != tasks.last() {
            let i = choose|i: int| 0 <= i < unpaused(tasks).len() && unpaused(tasks)[i] == t;
            assert(unpaused(rest)[i] == t);
        }
        if t == tasks.last() {
            assert(tasks[tasks.len() - 1] == t);
            if !t.is_paused {
                assert(unpaused(tasks)[unpaused(tasks).len() - 1] == t);
            }
        }
    }
}

/// The numbered lines of a prompt.
pub open spec fn task_list(due: Seq<HeartbeatTask>) -> Seq<char>
    decreases due.len(),
{
    if due.len() == 0 {
        Seq::empty()
    } else {
        task_list(due.drop_last()) + decimal(due.len()) + ". ["@ + due.last().name@ + "] "@
            + due.last().description@ + "\n"@
    }
}

/// The prompt for due tasks.
pub open spec fn heartbeat_prompt(context: Seq<char>, due: Seq<HeartbeatTask>) -> Seq<char> {
    (if context.len() > 0 {
        context + "\n\n"@
    } else {
        Seq::empty()
    }) + "Execute the following heartbeat tasks:\n\n"@ + task_list(due)
        + "\nIf all tasks have nothing to report, reply ONLY with: HEARTBEAT_OK\nIf any task produced results, report them normally. Do NOT include HEARTBEAT_OK in that case.\nDo not infer or repeat old tasks from prior chats."@
}

/// Builds the prompt for due tasks.
pub fn build_heartbeat_prompt(context: &str, due: &[&HeartbeatTask]) -> (r: String)
    ensures
        r@ == heartbeat_prompt(context@, referents(due@)),
{
    let mut prompt = String::new();
    if !context.is_empty() {
        prompt.append(context);
        prompt.append("\n\n");
    }
    prompt.append("Execute the following heartbeat tasks:\n\n");
    let ghost head = prompt@;
    let ghost ts = referents(due@);
    let mut i: usize = 0;
    assert(ts.take(0) =~= Seq::<HeartbeatTask>::empty());
    assert(prompt@ =~= head + task_list(ts.take(0)));
    while i < due.len()
        invariant
            i <= due@.len(),
            ts == referents(due@),
            prompt@ == head + task_list(ts.take(i as int)),
        decreases due@.len() - i,
    {
        assert(ts.take(i as int + 1).drop_last() =~= ts.take(i as int));
        assert(ts.take(i as int + 1).last() == *due@[i as int]);
        push_decimal(&mut prompt, i as u64 + 1);
        prompt.append(". [");
        prompt.append(due[i].name.as_str());
        prompt.append("] ");
        prompt.append(due[i].description.as_str());
        prompt.append("\n");
        assert(prompt@ =~= head + task_list(ts.take(i as int + 1)));
        i += 1;
    }
    assert(ts.take(ts.len() as int) =~= ts);
    prompt.append(
        "\nIf all tasks have nothing to report, reply ONLY with: HEARTBEAT_OK\nIf any task produced results, report them normally. Do NOT include HEARTBEAT_OK in that case.\nDo not infer or repeat old tasks from prior chats.",
    );
    assert(prompt@ =~= heartbeat_prompt(context@, ts));
    prompt
}

} // verus!
