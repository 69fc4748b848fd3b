//! What the files of tasks and cron jobs mean, and what the store keeps of them.

use vstd::prelude::*;

use crate::number::decimal;
use crate::scheduling::cron_loader::{
    cron_job_of, cron_jobs_of, file_error_text, has_md_extension, CronFile, CronFileError,
};
use crate::scheduling::cron_store::{
    due_of, hours_later, is_due, job_index, migrated_entries, offset_next, ran, stored, updated,
    without_id, CronJobState, JobEntry, JobUpdate, MarkdownFile,
};
use crate::scheduling::heartbeat_tasks::{
    context_of, dash_task, dash_tasks, has_tasks_section, heartbeat_of, heartbeat_prompt,
    interval_str_secs, non_headers, non_tasks, opens_tasks, section_tasks, task_list, task_of,
    unpaused, HeartbeatTask,
};
use crate::skill_loader::{front_matter_of, yaml_string};
use crate::split::{joined, lines_of};
use crate::text::{begins_with, is_space, trimmed};
use crate::text_laws::law_trimming;
use crate::time::{fires_after, instant_of, text_of, UtcInstant};

verus! {

// ── Heartbeat tasks ────────────────────────────────────────────────────────

/// A task with a name in brackets has that name, the text behind the brackets, and the
/// interval behind the colon, or half an hour; it is paused exactly if the word for that
/// stands there.
pub proof fn law_named_tasks(name: Seq<char>, suffix: Seq<char>, text: Seq<char>)
    requires
        trimmed(name).len() > 0,
        !name.contains(':'),
        !name.contains(']'),
        !suffix.contains(']'),
        text.len() > 0,
        !is_space(text.last()),
    ensures
        ({
            let t = task_of(seq!['['] + name + seq![':'] + suffix + seq![']'] + text);
            let paused = trimmed(suffix) == "paused"@ || trimmed(suffix) == "pause"@;
            &&& t is Some
            &&& t->0.name == trimmed(name)
            &&& t->0.description == trimmed(text)
            &&& t->0.is_paused == paused
            &&& !paused && interval_str_secs(trimmed(suffix)) is Some ==> t->0.interval
                == interval_str_secs(trimmed(suffix))->0
            &&& paused || interval_str_secs(trimmed(suffix)) is None ==> t->0.interval == 1800
        }),
{
    let t = seq!['['] + name + seq![':'] + suffix + seq![']'] + text;
    let meta = name + seq![':'] + suffix;
    assert(t =~= seq!['['] + meta + seq![']'] + text);
    assert(t[0] == '[');
    assert(t.last() == text.last());
    law_trimming(Seq::empty(), t, Seq::empty());
    let end = 1 + meta.len() as int;
    assert(t[end] == ']');
    assert forall|j: int| 0 <= j < end implies t[j] != ']' by {
        if j > name.len() + 1 {
            assert(t[j] == suffix[j - name.len() - 2]);
        } else if 1 <= j <= name.len() {
            assert(t[j] == name[j - 1]);
        }
    }
    crate::text::lemma_first_at(t, ']', end);
    assert(t.contains(']'));
    assert(t.subrange(1, end) =~= meta);
    assert(t.skip(end + 1) =~= text);
    let n = name.len() as int;
    assert(meta[n] == ':');
    assert forall|j: int| 0 <= j < n implies meta[j] != ':' by {
        assert(meta[j] == name[j]);
    }
    crate::text::lemma_first_at(meta, ':', n);
    assert(meta.contains(':'));
    assert(meta.take(n) =~= name);
    assert(meta.skip(n + 1) =~= suffix);
    lemma_interval_fits(trimmed(suffix));
}

proof fn lemma_interval_fits(s: Seq<char>)
    ensures
        interval_str_secs(s) is Some ==> interval_str_secs(s)->0 <= u64::MAX,
{
}

/// A task without brackets is described by its whole text, runs every half hour, and is
/// not paused; of nothing no task is made.
pub proof fn law_plain_tasks(text: Seq<char>)
    ensures
        trimmed(text).len() == 0 ==> task_of(text) is None,
        trimmed(text).len() > 0 && trimmed(text)[0] != '[' ==> task_of(text) is Some
            && task_of(text)->0.description == trimmed(text) && task_of(text)->0.interval == 1800
            && !task_of(text)->0.is_paused,
{
}

/// Each dash begins a task; a line without one is none.
pub proof fn law_dashes_begin_tasks(line: Seq<char>, a: Seq<Seq<char>>, b: Seq<Seq<char>>)
    ensures
        dash_tasks(a + b) == dash_tasks(a) + dash_tasks(b),
        dash_tasks(seq![line]) == dash_task(line),
        begins_with(trimmed(line), "- "@) && task_of(trimmed(line).skip(2)) is Some ==> dash_task(
            line,
        ) == seq![task_of(trimmed(line).skip(2))->0],
        begins_with(trimmed(line), "- "@) && task_of(trimmed(line).skip(2)) is None ==> dash_task(
            line,
        ).len() == 0,
        !begins_with(trimmed(line), "- "@) ==> dash_task(line).len() == 0,
    decreases b.len(),
{
    reveal_with_fuel(dash_tasks, 2);
    assert(seq![line].drop_last() =~= Seq::<Seq<char>>::empty());
    assert(seq![line].last() == line);
    assert(dash_tasks(seq![line]) =~= dash_task(line));
    if b.len() == 0 {
        assert(a + b =~= a);
        assert(dash_tasks(a) + dash_tasks(b) =~= dash_tasks(a));
    } else {
        assert((a + b).drop_last() =~= a + b.drop_last());
        assert((a + b).last() == b.last());
        law_dashes_begin_tasks(line, a, b.drop_last());
        assert(dash_tasks(a + b) =~= dash_tasks(a) + dash_tasks(b));
    }
}

/// Whether a line is the heading of a section that is none of tasks.
pub open spec fn opens_another(line: Seq<char>) -> bool {
    begins_with(trimmed(line), "## "@) && !opens_tasks(trimmed(line))
}

/// The tasks of a section are those of the lines from its heading to the next heading.
pub proof fn law_sections_hold_their_tasks(
    before: Seq<Seq<char>>,
    heading: Seq<char>,
    body: Seq<Seq<char>>,
)
    requires
        forall|i: int|
            0 <= i < body.len() ==> !opens_tasks(trimmed(#[trigger] body[i])) && !opens_another(
                body[i],
            ),
    ensures
        opens_tasks(trimmed(heading)) ==> section_tasks(before + seq![heading] + body)
            == section_tasks(before) + dash_tasks(body),
        opens_another(heading) ==> section_tasks(before + seq![heading] + body) == section_tasks(
            before,
        ),
    decreases body.len(),
{
    let all = before + seq![heading] + body;
    if body.len() == 0 {
        assert(all.drop_last() =~= before);
        assert(all.last() == heading);
        assert(section_tasks(before) + dash_tasks(body) =~= section_tasks(before));
    } else {
        let fewer = body.drop_last();
        assert forall|i: int| 0 <= i < fewer.len() implies !opens_tasks(
            trimmed(#[trigger] fewer[i]),
        ) && !opens_another(fewer[i]) by {
            assert(fewer[i] == body[i]);
        }
        law_sections_hold_their_tasks(before, heading, fewer);
        assert(all.drop_last() =~= before + seq![heading] + fewer);
        assert(all.last() == body.last());
        assert(!opens_tasks(trimmed(body[body.len() - 1])) && !opens_another(body[body.len() - 1]));
        lemma_in_section(before, heading, body);
        if opens_tasks(trimmed(heading)) {
            assert(section_tasks(all) =~= section_tasks(before) + dash_tasks(body));
        }
    }
}

proof fn lemma_in_section(before: Seq<Seq<char>>, heading: Seq<char>, body: Seq<Seq<char>>)
    requires
        forall|i: int|
            0 <= i < body.len() ==> !opens_tasks(trimmed(#[trigger] body[i])) && !opens_another(
                body[i],
            ),
    ensures
        opens_tasks(trimmed(heading)) ==> crate::scheduling::heartbeat_tasks::in_tasks_after(
            before + seq![heading] + body,
        ),
        opens_another(heading) ==> !crate::scheduling::heartbeat_tasks::in_tasks_after(
            before + seq![heading] + body,
        ),
    decreases body.len(),
{
    let all = before + seq![heading] + body;
    if body.len() == 0 {
        assert(all.last() == heading);
    } else {
        let fewer = body.drop_last();
        assert forall|i: int| 0 <= i < fewer.len() implies !opens_tasks(
            trimmed(#[trigger] fewer[i]),
        ) && !opens_another(fewer[i]) by {
            assert(fewer[i] == body[i]);
        }
        lemma_in_section(before, heading, fewer);
        assert(all.drop_last() =~= before + seq![heading] + fewer);
        assert(all.last() == body.last());
        assert(!opens_tasks(trimmed(body[body.len() - 1])) && !opens_another(body[body.len() - 1]));
    }
}

/// The context of a file with a section of tasks is what stands before the first one; of a
/// file without, it is every line that is no task. Headings are left out.
pub proof fn law_contexts(
    content: Seq<char>,
    before: Seq<Seq<char>>,
    heading: Seq<char>,
    after: Seq<Seq<char>>,
)
    requires
        forall|i: int| 0 <= i < before.len() ==> !opens_tasks(trimmed(#[trigger] before[i])),
        opens_tasks(trimmed(heading)),
    ensures
        lines_of(content) == before + seq![heading] + after ==> heartbeat_of(content).0 == trimmed(
            joined(non_headers(before), "\n"@),
        ) && heartbeat_of(content).1 == section_tasks(lines_of(content)),
        lines_of(content) == before ==> heartbeat_of(content).0 == trimmed(
            joined(non_headers(non_tasks(before)), "\n"@),
        ) && heartbeat_of(content).1 == dash_tasks(before),
    decreases after.len(),
{
    let all = before + seq![heading] + after;
    lemma_context(before, heading, after);
    assert(has_tasks_section(all)) by {
        assert(all[before.len() as int] == heading);
    }
}

proof fn lemma_context(before: Seq<Seq<char>>, heading: Seq<char>, after: Seq<Seq<char>>)
    requires
        forall|i: int| 0 <= i < before.len() ==> !opens_tasks(trimmed(#[trigger] before[i])),
        opens_tasks(trimmed(heading)),
    ensures
        context_of(before + seq![heading] + after) == before,
    decreases after.len(),
{
    let all = before + seq![heading] + after;
    assert(has_tasks_section(all)) by {
        assert(all[before.len() as int] == heading);
    }
    if after.len() == 0 {
        assert(all.drop_last() =~= before);
        assert(!has_tasks_section(before));
        assert(context_of(before) == before);
        assert(context_of(all) == context_of(all.drop_last()));
    } else {
        assert(all.drop_last() =~= before + seq![heading] + after.drop_last());
        lemma_context(before, heading, after.drop_last());
    }
}

/// Lines that are no headings, and lines that are no tasks, are kept one by one, in order.
pub proof fn law_context_lines_in_order(a: Seq<Seq<char>>, b: Seq<Seq<char>>, line: Seq<char>)
    ensures
        non_headers(a + b) == non_headers(a) + non_headers(b),
        non_tasks(a + b) == non_tasks(a) + non_tasks(b),
        begins_with(trimmed(line), "#"@) ==> non_headers(seq![line]).len() == 0,
        !begins_with(trimmed(line), "#"@) ==> non_headers(seq![line]) == seq![line],
        dash_task(line).len() > 0 ==> non_tasks(seq![line]).len() == 0,
        dash_task(line).len() == 0 ==> non_tasks(seq![line]) == seq![line],
    decreases b.len(),
{
    reveal_with_fuel(non_headers, 2);
    reveal_with_fuel(non_tasks, 2);
    let none = Seq::<Seq<char>>::empty();
    assert(seq![line].drop_last() =~= none);
    assert(seq![line].last() == line);
    assert(none.push(line) =~= seq![line]);
    if b.len() == 0 {
        assert(a + b =~= a);
        assert(non_headers(a) + non_headers(b) =~= non_headers(a));
        assert(non_tasks(a) + non_tasks(b) =~= non_tasks(a));
    } else {
        assert((a + b).drop_last() =~= a + b.drop_last());
        assert((a + b).last() == b.last());
        law_context_lines_in_order(a, b.drop_last(), line);
        assert(non_headers(a + b) =~= non_headers(a) + non_headers(b));
        assert(non_tasks(a + b) =~= non_tasks(a) + non_tasks(b));
    }
}

/// Tasks that are not paused keep their order.
pub proof fn law_due_tasks_in_order(
    a: Seq<HeartbeatTask>,
    b: Seq<HeartbeatTask>,
    t: HeartbeatTask,
)
    ensures
        unpaused(a + b) == unpaused(a) + unpaused(b),
        t.is_paused ==> unpaused(seq![t]).len() == 0,
        !t.is_paused ==> unpaused(seq![t]) == seq![t],
    decreases b.len(),
{
    reveal_with_fuel(unpaused, 2);
    let none = Seq::<HeartbeatTask>::empty();
    assert(seq![t].drop_last() =~= none);
    assert(seq![t].last() == t);
    assert(none.push(t) =~= seq![t]);
    if b.len() == 0 {
        assert(a + b =~= a);
        assert(unpaused(a) + unpaused(b) =~= unpaused(a));
    } else {
        assert((a + b).drop_last() =~= a + b.drop_last());
        assert((a + b).last() == b.last());
        law_due_tasks_in_order(a, b.drop_last(), t);
        assert(unpaused(a + b) =~= unpaused(a) + unpaused(b));
    }
}

/// The tasks of a prompt are numbered from one, in order, each with name and description.
pub proof fn law_tasks_are_numbered(due: Seq<HeartbeatTask>, t: HeartbeatTask)
    ensures
        task_list(due.push(t)) == task_list(due) + (decimal(due.len() + 1) + ". ["@ + t.name@
            + "] "@ + t.description@ + "\n"@),
        task_list(Seq::<HeartbeatTask>::empty()).len() == 0,
{
    assert(due.push(t).drop_last() =~= due);
    assert(due.push(t).last() == t);
    assert(task_list(due.push(t)) =~= task_list(due) + (decimal(due.len() + 1) + ". ["@ + t.name@
        + "] "@ + t.description@ + "\n"@));
}

/// A prompt begins with the context, if there is any, holds all tasks, and asks for the
/// word that nothing happened.
pub proof fn law_heartbeat_prompts(context: Seq<char>, due: Seq<HeartbeatTask>)
    ensures
        ({
            let p = heartbeat_prompt(context, due);
            let head = "Execute the following heartbeat tasks:\n\n"@;
            let tail =
                "\nIf all tasks have nothing to report, reply ONLY with: HEARTBEAT_OK\nIf any task produced results, report them normally. Do NOT include HEARTBEAT_OK in that case.\nDo not infer or repeat old tasks from prior chats."@;
            &&& context.len() > 0 ==> p == context + "\n\n"@ + head + task_list(due) + tail
            &&& context.len() == 0 ==> p == head + task_list(due) + tail
        }),
{
    let head = "Execute the following heartbeat tasks:\n\n"@;
    let none = Seq::<char>::empty();
    assert(none + head =~= head);
}

// ── Cron files ─────────────────────────────────────────────────────────────

/// A cron file needs a schedule and a prompt, and is refused for the first that it lacks;
/// one with both is read as it says, and goes to the last channel if it names none.
pub proof fn law_cron_files(content: Seq<char>, path: Seq<char>)
    ensures
        ({
            let front = front_matter_of(content).0;
            let body = trimmed(front_matter_of(content).1);
            let schedule = yaml_string(front, "schedule"@);
            let target = yaml_string(front, "target"@);
            let r = cron_job_of(content);
            &&& schedule is None ==> r == Err::<
                crate::scheduling::cron_loader::CronJobView,
                CronFileError,
            >(CronFileError::MissingSchedule)
            &&& schedule is Some && body.len() == 0 ==> r == Err::<
                crate::scheduling::cron_loader::CronJobView,
                CronFileError,
            >(CronFileError::EmptyPrompt)
            &&& schedule is Some && body.len() > 0 ==> r is Ok && r->Ok_0.schedule == schedule->0
                && r->Ok_0.prompt == body && r->Ok_0.active_hours == yaml_string(
                front,
                "active_hours"@,
            )
            &&& r is Ok && target is Some ==> r->Ok_0.target == target->0
            &&& r is Ok && target is None ==> r->Ok_0.target == "last"@
        }),
        file_error_text(CronFileError::MissingSchedule, path)
            == "missing 'schedule' in front matter of "@ + path,
        file_error_text(CronFileError::EmptyPrompt, path) == "empty prompt body in "@ + path,
{
}

/// Of a directory exactly the readable Markdown files become jobs, in order.
pub proof fn law_cron_directories(a: Seq<CronFile>, b: Seq<CronFile>, f: CronFile)
    ensures
        cron_jobs_of(a + b) == cron_jobs_of(a) + cron_jobs_of(b),
        has_md_extension(f.name@) && cron_job_of(f.content@) is Ok ==> cron_jobs_of(seq![f])
            == seq![cron_job_of(f.content@)->Ok_0],
        !has_md_extension(f.name@) || cron_job_of(f.content@) is Err ==> cron_jobs_of(
            seq![f],
        ).len() == 0,
    decreases b.len(),
{
    reveal_with_fuel(cron_jobs_of, 2);
    let none = Seq::<crate::scheduling::cron_loader::CronJobView>::empty();
    assert(seq![f].drop_last() =~= Seq::<CronFile>::empty());
    assert(seq![f].last() == f);
    if cron_job_of(f.content@) is Ok {
        assert(none.push(cron_job_of(f.content@)->Ok_0) =~= seq![cron_job_of(f.content@)->Ok_0]);
    }
    if b.len() == 0 {
        assert(a + b =~= a);
        assert(cron_jobs_of(a) + cron_jobs_of(b) =~= cron_jobs_of(a));
    } else {
        assert((a + b).drop_last() =~= a + b.drop_last());
        assert((a + b).last() == b.last());
        law_cron_directories(a, b.drop_last(), f);
        assert(cron_jobs_of(a + b) =~= cron_jobs_of(a) + cron_jobs_of(b));
    }
}

/// A Markdown file is one whose name ends in `.md` with something before it.
pub proof fn law_markdown_names(stem: Seq<char>)
    ensures
        has_md_extension(stem + ".md"@) == (stem.len() > 0),
        has_md_extension(stem) ==> stem == stem.take(stem.len() - 3) + ".md"@,
{
    reveal_strlit(".md");
    assert((stem + ".md"@).skip(stem.len() as int) =~= ".md"@);
    if has_md_extension(stem) {
        assert(stem =~= stem.take(stem.len() - 3) + stem.skip(stem.len() - 3));
    }
}

// ── The store of cron jobs ─────────────────────────────────────────────────

/// The first job of an id is the one that is meant.
pub proof fn law_jobs_are_found_by_id(jobs: Seq<JobEntry>, id: Seq<char>)
    ensures
        0 <= job_index(jobs, id) <= jobs.len(),
        forall|i: int| 0 <= i < job_index(jobs, id) ==> (#[trigger] jobs[i]).id@ != id,
        job_index(jobs, id) < jobs.len() ==> jobs[job_index(jobs, id)].id@ == id,
    decreases jobs.len(),
{
    if jobs.len() > 0 && jobs[0].id@ != id {
        let rest = jobs.skip(1);
        law_jobs_are_found_by_id(rest, id);
        assert forall|i: int| 0 <= i < job_index(jobs, id) implies (#[trigger] jobs[i]).id@
            != id by {
            if i > 0 {
                assert(rest[i - 1] == jobs[i]);
            }
        }
    }
}

/// Where clocks are ahead, a job fires as many hours earlier as they are ahead; hours are
/// counted both ways.
pub proof fn law_offsets_shift_by_hours(t: UtcInstant, hours: int)
    requires
        -1000 <= hours <= 1000,
        -8_000_000_000_000 <= t.secs <= 8_000_000_000_000,
    ensures
        hours_later(t, hours).secs == t.secs + hours * 3600,
        hours_later(t, hours).nanos == t.nanos,
        hours_later(hours_later(t, hours), -hours) == t,
{
}

/// A job without clocks ahead fires when its schedule next does in universal time: behind
/// its last run, or behind now if it has none that can be read.
pub proof fn law_schedules_fire_behind_the_last_run(
    schedule: Seq<char>,
    last: Option<Seq<char>>,
    offset: int,
    now: UtcInstant,
    from: UtcInstant,
)
    requires
        from == (if last is Some && instant_of(last->0) is Some {
            instant_of(last->0)->0
        } else {
            now
        }),
    ensures
        ({
            let fire = fires_after(schedule, "UTC"@, hours_later(from, offset));
            &&& fire is None ==> offset_next(schedule, last, offset, now) is None
            &&& fire is Some ==> offset_next(schedule, last, offset, now) == text_of(
                hours_later(fire->0, -offset),
            )
        }),
{
}

/// A stored job is the job as given; an id and a time of creation are made only where it
/// has none, and its next run is counted from now.
pub proof fn law_stored_jobs(
    j: CronJobState,
    fresh: Seq<char>,
    offset: int,
    now: UtcInstant,
    text: Seq<char>,
)
    ensures
        ({
            let r = stored(j, fresh, offset, now, text);
            &&& r == (CronJobState {
                id: r.id,
                created_at: r.created_at,
                next_run_at: r.next_run_at,
                ..j
            })
            &&& j.id.len() > 0 ==> r.id == j.id
            &&& j.id.len() == 0 ==> r.id == fresh
            &&& j.created_at is Some ==> r.created_at == j.created_at
            &&& j.created_at is None ==> r.created_at == Some(text)
            &&& r.next_run_at == offset_next(j.schedule, None, offset, now)
        }),
{
}

/// A run is written down as the last one, and the next is counted from it; nothing else of
/// the job changes.
pub proof fn law_runs_are_written_down(
    j: CronJobState,
    offset: int,
    now: UtcInstant,
    text: Seq<char>,
)
    ensures
        ({
            let r = ran(j, offset, now, text);
            &&& r.last_run_at == Some(text)
            &&& r.next_run_at == offset_next(j.schedule, Some(text), offset, now)
            &&& r == (CronJobState { last_run_at: r.last_run_at, next_run_at: r.next_run_at, ..j })
        }),
{
}

/// An update changes what it names and keeps the rest; the next run is counted anew when
/// the schedule changes or the job is enabled, and there is none once it is disabled.
pub proof fn law_updates_change_what_they_name(
    j: CronJobState,
    u: JobUpdate,
    offset: int,
    now: UtcInstant,
)
    ensures
        ({
            let r = updated(j, u, offset, now);
            &&& r.id == j.id
            &&& r.last_run_at == j.last_run_at
            &&& r.created_at == j.created_at
            &&& r.schedule == (if u.schedule is Some { u.schedule->0@ } else { j.schedule })
            &&& r.prompt == (if u.prompt is Some { u.prompt->0@ } else { j.prompt })
            &&& r.target == (if u.target is Some { u.target->0@ } else { j.target })
            &&& u.name is Some ==> r.name == Some(u.name->0@)
            &&& u.name is None ==> r.name == j.name
            &&& u.active_hours is Some ==> r.active_hours == Some(u.active_hours->0@)
            &&& u.active_hours is None ==> r.active_hours == j.active_hours
            &&& u.enabled is Some ==> r.enabled == u.enabled->0
            &&& u.enabled is None ==> r.enabled == j.enabled
            &&& u.enabled == Some(false) ==> r.next_run_at is None
            &&& u.enabled == Some(true) ==> r.next_run_at == offset_next(
                r.schedule,
                j.last_run_at,
                offset,
                now,
            )
            &&& u.enabled is None && u.schedule is Some ==> r.next_run_at == offset_next(
                r.schedule,
                j.last_run_at,
                offset,
                now,
            )
            &&& u.enabled is None && u.schedule is None ==> r.next_run_at == j.next_run_at
        }),
{
}

/// Removing an id keeps every other job, in order; due jobs are told in order, and a job
/// is due exactly if it is enabled and its next run is not ahead.
pub proof fn law_jobs_are_kept_in_order(
    a: Seq<JobEntry>,
    b: Seq<JobEntry>,
    j: JobEntry,
    id: Seq<char>,
    now: UtcInstant,
)
    ensures
        without_id(a + b, id) == without_id(a, id) + without_id(b, id),
        j.id@ != id ==> without_id(seq![j], id) == seq![j],
        j.id@ == id ==> without_id(seq![j], id).len() == 0,
        due_of(a + b, now) == due_of(a, now) + due_of(b, now),
        is_due(j@, now) ==> due_of(seq![j], now) == seq![j],
        !is_due(j@, now) ==> due_of(seq![j], now).len() == 0,
    decreases b.len(),
{
    reveal_with_fuel(without_id, 2);
    reveal_with_fuel(due_of, 2);
    let none = Seq::<JobEntry>::empty();
    assert(seq![j].drop_last() =~= none);
    assert(seq![j].last() == j);
    assert(none.push(j) =~= seq![j]);
    if b.len() == 0 {
        assert(a + b =~= a);
        assert(without_id(a, id) + without_id(b, id) =~= without_id(a, id));
        assert(due_of(a, now) + due_of(b, now) =~= due_of(a, now));
    } else {
        assert((a + b).drop_last() =~= a + b.drop_last());
        assert((a + b).last() == b.last());
        law_jobs_are_kept_in_order(a, b.drop_last(), j, id, now);
        assert(without_id(a + b, id) =~= without_id(a, id) + without_id(b, id));
        assert(due_of(a + b, now) =~= due_of(a, now) + due_of(b, now));
    }
}

/// A job is due exactly if it is enabled and the time of its next run, which can be read,
/// is not ahead.
pub proof fn law_due_cron_jobs(j: CronJobState, now: UtcInstant)
    ensures
        is_due(j, now) <==> (j.enabled && j.next_run_at is Some && instant_of(j.next_run_at->0)
            is Some && (instant_of(j.next_run_at->0)->0.secs < now.secs || (instant_of(
            j.next_run_at->0,
        )->0.secs == now.secs && instant_of(j.next_run_at->0)->0.nanos <= now.nanos))),
{
}

/// Files are taken in one by one: a file that cannot be read, or whose task is there
/// already, changes nothing; another comes last, as it says, enabled and under its name.
pub proof fn law_files_are_taken_in(
    jobs: Seq<CronJobState>,
    files: Seq<MarkdownFile>,
    f: MarkdownFile,
    offset: int,
    times: Seq<UtcInstant>,
)
    ensures
        ({
            let before = migrated_entries(jobs, files, offset, times);
            let after = migrated_entries(jobs, files.push(f), offset, times);
            let now = times[files.len() as int];
            let c = cron_job_of(f.content@);
            let known = exists|i: int|
                0 <= i < before.len() && (#[trigger] before[i]).schedule == c->Ok_0.schedule
                    && before[i].prompt == c->Ok_0.prompt;
            &&& c is Err ==> after == before
            &&& c is Ok && known ==> after == before
            &&& c is Ok && !known ==> after.len() == before.len() + 1 && after.drop_last() == before
                && after.last().schedule == c->Ok_0.schedule && after.last().prompt
                == c->Ok_0.prompt && after.last().target == c->Ok_0.target
                && after.last().active_hours == c->Ok_0.active_hours && after.last().enabled
                && after.last().last_run_at is None && after.last().next_run_at == offset_next(
                c->Ok_0.schedule,
                None,
                offset,
                now,
            ) && after.last().created_at == Some(text_of(now)->0) && after.last().name
                == crate::text::opt_text(f.stem)
        }),
        migrated_entries(jobs, Seq::<MarkdownFile>::empty(), offset, times) == jobs,
{
    let all = files.push(f);
    assert(all.drop_last() =~= files);
    assert(all.last() == f);
    let before = migrated_entries(jobs, files, offset, times);
    let c = cron_job_of(f.content@);
    if c is Ok {
        let task = (c->Ok_0.schedule, c->Ok_0.prompt);
        let tasks = crate::scheduling::cron_store::state_tasks(before);
        if tasks.contains(task) {
            let i = choose|i: int| 0 <= i < tasks.len() && tasks[i] == task;
            assert(before[i].schedule == c->Ok_0.schedule);
        }
        if exists|i: int|
            0 <= i < before.len() && (#[trigger] before[i]).schedule == c->Ok_0.schedule
                && before[i].prompt == c->Ok_0.prompt {
            let i = choose|i: int|
                0 <= i < before.len() && (#[trigger] before[i]).schedule == c->Ok_0.schedule
                    && before[i].prompt == c->Ok_0.prompt;
            assert(tasks[i] == task);
        }
        let after = migrated_entries(jobs, all, offset, times);
        if !tasks.contains(task) {
            assert(after.drop_last() =~= before);
        }
    }
}

} // verus!
