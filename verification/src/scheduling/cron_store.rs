//! A store of cron jobs in one file, with a fixed offset from UTC.
//!
//! The store holds the jobs in memory; whoever owns it writes them to disk after
//! a change and hands over what the disk holds when it has changed.

use crate::number::{hex_of, hex_padded};
use crate::scheduling::cron_loader::{cron_job_of, parse_cron_file, CronJobView};
use crate::scheduling::schedule::base_of;
use crate::text::{copy_opt, opt_str, opt_text, same_str};
use crate::time::{
    fire_after, fires_after, format_instant, instant_of, is_reading, parse_instant, read_clock,
    text_of, tz_exists, Stamp, UtcInstant, CALENDAR_END, CALENDAR_START,
};
use vstd::prelude::*;

verus! {

/// A cron job of the store.
#[derive(Debug)]
pub struct JobEntry {
    /// Twelve hexadecimal digits.
    pub id: String,
    /// Cron expression of six fields: second, minute, hour, day, month, weekday.
    pub schedule: String,
    pub prompt: String,
    /// Where output goes: "last", "none", or a channel.
    pub target: String,
    pub name: Option<String>,
    /// Hours in which the job may run, such as "08:00-24:00".
    pub active_hours: Option<String>,
    pub enabled: bool,
    /// RFC 3339 text of the last run.
    pub last_run_at: Option<String>,
    /// RFC 3339 text of the next run.
    pub next_run_at: Option<String>,
    /// RFC 3339 text of the creation.
    pub created_at: Option<String>,
}

/// The mathematical value of a [`JobEntry`].
pub struct CronJobState {
    pub id: Seq<char>,
    pub schedule: Seq<char>,
    pub prompt: Seq<char>,
    pub target: Seq<char>,
    pub name: Option<Seq<char>>,
    pub active_hours: Option<Seq<char>>,
    pub enabled: bool,
    pub last_run_at: Option<Seq<char>>,
    pub next_run_at: Option<Seq<char>>,
    pub created_at: Option<Seq<char>>,
}

impl View for JobEntry {
    type V = CronJobState;

    open spec fn view(&self) -> CronJobState {
        CronJobState {
            id: self.id@,
            schedule: self.schedule@,
            prompt: self.prompt@,
            target: self.target@,
            name: opt_text(self.name),
            active_hours: opt_text(self.active_hours),
            enabled: self.enabled,
            last_run_at: opt_text(self.last_run_at),
            next_run_at: opt_text(self.next_run_at),
            created_at: opt_text(self.created_at),
        }
    }
}

/// The jobs of a file.
#[derive(Debug)]
pub struct JobsFile {
    pub jobs: Vec<JobEntry>,
}

/// Changes to a job. What is not set stays.
#[derive(Debug)]
pub struct JobUpdate {
    pub name: Option<String>,
    pub schedule: Option<String>,
    pub prompt: Option<String>,
    pub target: Option<String>,
    pub active_hours: Option<String>,
    pub enabled: Option<bool>,
}

/// A Markdown file that may hold a cron job.
#[derive(Debug)]
pub struct MarkdownFile {
    /// The name of the file without its extension.
    pub stem: Option<String>,
    pub content: String,
}

/// The jobs of a file and what is known of it.
#[derive(Debug)]
pub struct CronStore {
    path: String,
    data: JobsFile,
    last_mtime: Option<u64>,
    timezone_offset: i32,
}

// ── Next runs ──────────────────────────────────────────────────────────────

/// The instant a number of hours later.
pub open spec fn hours_later(t: UtcInstant, hours: int) -> UtcInstant {
    UtcInstant { secs: (t.secs + hours * 3600) as i64, nanos: t.nanos }
}

/// The next run of a cron expression whose times are read at an offset from UTC.
pub open spec fn offset_next(
    schedule: Seq<char>,
    last_run: Option<Seq<char>>,
    offset: int,
    now: UtcInstant,
) -> Option<Seq<char>> {
    match fires_after(schedule, "UTC"@, hours_later(base_of(last_run, now), offset)) {
        Some(t) => text_of(hours_later(t, -offset)),
        None => None,
    }
}

/// The next run of a cron expression, seen from `now`.
pub fn offset_next_at(
    schedule: &str,
    last_run: Option<&str>,
    timezone_offset: i32,
    now: &UtcInstant,
) -> (r: Option<String>)
    requires
        CALENDAR_START <= now.secs <= CALENDAR_END,
    ensures
        opt_text(r) == offset_next(schedule@, opt_str(last_run), timezone_offset as int, *now),
{
    let base = match last_run {
        Some(t) => match parse_instant(t) {
            Some(i) => i,
            None => *now,
        },
        None => *now,
    };
    let shift: i64 = (timezone_offset as i64) * 3600;
    let local = UtcInstant { secs: base.secs + shift, nanos: base.nanos };
    let utc: bool = tz_exists("UTC");
    match fire_after(schedule, "UTC", &local) {
        Some(t) => {
            let back = UtcInstant { secs: t.secs - shift, nanos: t.nanos };
            format_instant(&back)
        },
        None => None,
    }
}

/// The next run of a cron expression, from the current time. Its times are read
/// at `timezone_offset` hours from UTC.
pub fn compute_next_run(schedule: &str, last_run: Option<&str>, timezone_offset: i32) -> (r: Option<
    String,
>)
    ensures
        exists|now: UtcInstant|
            #[trigger] is_reading(now) && opt_text(r) == offset_next(
                schedule@,
                opt_str(last_run),
                timezone_offset as int,
                now,
            ),
{
    let stamp = read_clock();
    offset_next_at(schedule, last_run, timezone_offset, &stamp.at)
}

/// The id made from a time.
pub open spec fn id_at(t: UtcInstant) -> Seq<char> {
    hex_padded((t.total() % 0x1000_0000_0000) as nat, 12)
}

/// An id from a time: the low 44 bits of its nanoseconds in twelve hexadecimal
/// digits.
pub fn generate_id(now: &UtcInstant) -> (r: String)
    requires
        now.secs >= 0,
    ensures
        r@ == id_at(*now),
{
    let n: u128 = (now.secs as u128) * 1_000_000_000 + now.nanos as u128;
    hex_of((n % 0x1000_0000_0000) as u64, 12)
}

// ── The store ──────────────────────────────────────────────────────────────

/// The index of the first job with the id, or the number of jobs.
pub open spec fn job_index(jobs: Seq<JobEntry>, id: Seq<char>) -> int
    decreases jobs.len(),
{
    if jobs.len() == 0 {
        0
    } else if jobs[0].id@ == id {
        0
    } else {
        1 + job_index(jobs.skip(1), id)
    }
}

proof fn lemma_job_index(jobs: Seq<JobEntry>, id: Seq<char>, i: int)
    requires
        0 <= i <= jobs.len(),
        forall|j: int| 0 <= j < i ==> (#[trigger] jobs[j]).id@ != id,
        i == jobs.len() || jobs[i].id@ == id,
    ensures
        job_index(jobs, id) == i,
    decreases jobs.len(),
{
    if jobs.len() > 0 && i > 0 {
        assert(jobs[0].id@ != id);
        assert forall|j: int| 0 <= j < i - 1 implies (#[trigger] jobs.skip(1)[j]).id@ != id by {
            assert(jobs.skip(1)[j] == jobs[j + 1]);
        }
        lemma_job_index(jobs.skip(1), id, i - 1);
    }
}

/// A new job as it is stored: with an id, a time of creation and a next run.
pub open spec fn stored(
    j: CronJobState,
    fresh_id: Seq<char>,
    offset: int,
    now: UtcInstant,
    now_text: Seq<char>,
) -> CronJobState {
    CronJobState {
        id: if j.id.len() == 0 {
            fresh_id
        } else {
            j.id
        },
        created_at: if j.created_at is None {
            Some(now_text)
        } else {
            j.created_at
        },
        next_run_at: offset_next(j.schedule, None, offset, now),
        ..j
    }
}

/// A job after a run at a time.
pub open spec fn ran(
    j: CronJobState,
    offset: int,
    now: UtcInstant,
    now_text: Seq<char>,
) -> CronJobState {
    CronJobState {
        last_run_at: Some(now_text),
        next_run_at: offset_next(j.schedule, Some(now_text), offset, now),
        ..j
    }
}

/// The text that replaces another, if there is one.
pub open spec fn or_else(new: Option<String>, kept: Seq<char>) -> Seq<char> {
    match new {
        Some(s) => s@,
        None => kept,
    }
}

/// The optional text that replaces another, if there is one.
pub open spec fn or_else_opt(new: Option<String>, kept: Option<Seq<char>>) -> Option<Seq<char>> {
    match new {
        Some(s) => Some(s@),
        None => kept,
    }
}

/// A job with an update. A new schedule and enabling a job give it a new next
/// run; disabling it takes the next run away.
pub open spec fn updated(
    j: CronJobState,
    u: JobUpdate,
    offset: int,
    now: UtcInstant,
) -> CronJobState {
    let schedule = or_else(u.schedule, j.schedule);
    let fresh = offset_next(schedule, j.last_run_at, offset, now);
    CronJobState {
        id: j.id,
        name: or_else_opt(u.name, j.name),
        schedule,
        prompt: or_else(u.prompt, j.prompt),
        target: or_else(u.target, j.target),
        active_hours: or_else_opt(u.active_hours, j.active_hours),
        enabled: match u.enabled {
            Some(e) => e,
            None => j.enabled,
        },
        last_run_at: j.last_run_at,
        next_run_at: match u.enabled {
            Some(true) => fresh,
            Some(false) => None,
            None => if u.schedule is Some {
                fresh
            } else {
                j.next_run_at
            },
        },
        created_at: j.created_at,
    }
}

/// The jobs without those of an id.
pub open spec fn without_id(jobs: Seq<JobEntry>, id: Seq<char>) -> Seq<JobEntry>
    decreases jobs.len(),
{
    if jobs.len() == 0 {
        Seq::empty()
    } else if jobs.last().id@ == id {
        without_id(jobs.drop_last(), id)
    } else {
        without_id(jobs.drop_last(), id).push(jobs.last())
    }
}

/// Whether a job is due at a time.
pub open spec fn is_due(j: CronJobState, now: UtcInstant) -> bool {
    j.enabled && match j.next_run_at {
        Some(t) => match instant_of(t) {
            Some(i) => i.at_or_before(now),
            None => false,
        },
        None => false,
    }
}

/// The jobs that are due.
pub open spec fn due_of(jobs: Seq<JobEntry>, now: UtcInstant) -> Seq<JobEntry>
    decreases jobs.len(),
{
    if jobs.len() == 0 {
        Seq::empty()
    } else if is_due(jobs.last()@, now) {
        due_of(jobs.drop_last(), now).push(jobs.last())
    } else {
        due_of(jobs.drop_last(), now)
    }
}

/// The jobs behind a row of references.
pub open spec fn job_refs(v: Seq<&JobEntry>) -> Seq<JobEntry> {
    v.map_values(|j: &JobEntry| *j)
}

/// Schedule and prompt of each job.
pub open spec fn tasks_of(jobs: Seq<JobEntry>) -> Seq<(Seq<char>, Seq<char>)> {
    jobs.map_values(|j: JobEntry| (j.schedule@, j.prompt@))
}

/// Schedule and prompt of each job after the jobs of files were added: those of
/// files that are cron jobs and not there yet.
pub open spec fn migrated(
    tasks: Seq<(Seq<char>, Seq<char>)>,
    files: Seq<MarkdownFile>,
) -> Seq<(Seq<char>, Seq<char>)>
    decreases files.len(),
{
    if files.len() == 0 {
        tasks
    } else {
        let before = migrated(tasks, files.drop_last());
        match cron_job_of(files.last().content@) {
            Ok(j) => if before.contains((j.schedule, j.prompt)) {
                before
            } else {
                before.push((j.schedule, j.prompt))
            },
            Err(_) => before,
        }
    }
}

/// The job of a Markdown file, before it is stored.
pub open spec fn markdown_entry(stem: Option<Seq<char>>, job: CronJobView) -> CronJobState {
    CronJobState {
        id: Seq::empty(),
        schedule: job.schedule,
        prompt: job.prompt,
        target: job.target,
        name: stem,
        active_hours: job.active_hours,
        enabled: true,
        last_run_at: None,
        next_run_at: None,
        created_at: None,
    }
}

/// The views of jobs.
pub open spec fn entry_views(jobs: Seq<JobEntry>) -> Seq<CronJobState> {
    jobs.map_values(|j: JobEntry| j@)
}

/// Whether every reading of the clock has an RFC 3339 text.
pub open spec fn are_readings(times: Seq<UtcInstant>) -> bool {
    forall|i: int| 0 <= i < times.len() ==> text_of(#[trigger] times[i]) is Some
}

/// The jobs after those of files were added: of each file that is a cron job, unless
/// one with its schedule and prompt is there. Each is stored at the reading of the
/// clock for its file.
pub open spec fn migrated_entries(
    jobs: Seq<CronJobState>,
    files: Seq<MarkdownFile>,
    offset: int,
    times: Seq<UtcInstant>,
) -> Seq<CronJobState>
    decreases files.len(),
{
    if files.len() == 0 {
        jobs
    } else {
        let before = migrated_entries(jobs, files.drop_last(), offset, times);
        let now = times[files.len() - 1];
        match cron_job_of(files.last().content@) {
            Ok(j) => if state_tasks(before).contains((j.schedule, j.prompt)) {
                before
            } else {
                before.push(
                    stored(
                        markdown_entry(opt_text(files.last().stem), j),
                        id_at(now),
                        offset,
                        now,
                        text_of(now).unwrap(),
                    ),
                )
            },
            Err(_) => before,
        }
    }
}

/// Schedule and prompt of each job.
pub open spec fn state_tasks(jobs: Seq<CronJobState>) -> Seq<(Seq<char>, Seq<char>)> {
    jobs.map_values(|j: CronJobState| (j.schedule, j.prompt))
}

proof fn lemma_migrated_times(
    jobs: Seq<CronJobState>,
    files: Seq<MarkdownFile>,
    offset: int,
    times: Seq<UtcInstant>,
    now: UtcInstant,
)
    requires
        files.len() <= times.len(),
    ensures
        migrated_entries(jobs, files, offset, times.push(now)) == migrated_entries(
            jobs,
            files,
            offset,
            times,
        ),
    decreases files.len(),
{
    if files.len() > 0 {
        lemma_migrated_times(jobs, files.drop_last(), offset, times, now);
    }
}

impl CronStore {
    /// The jobs.
    pub closed spec fn entries(self) -> Seq<JobEntry> {
        self.data.jobs@
    }

    /// The time at which the file that was last read was changed.
    pub closed spec fn mtime(self) -> Option<u64> {
        self.last_mtime
    }

    /// The offset from UTC, in hours.
    pub closed spec fn offset(self) -> int {
        self.timezone_offset as int
    }

    /// The path of the file.
    pub closed spec fn file(self) -> Seq<char> {
        self.path@
    }

    /// Whether everything but the jobs is the same.
    pub open spec fn same_file(self, other: CronStore) -> bool {
        self.mtime() == other.mtime() && self.offset() == other.offset() && self.file()
            == other.file()
    }

    /// An empty store for a file.
    pub fn new(path: String, timezone_offset: i32) -> (r: CronStore)
        ensures
            r.entries().len() == 0,
            r.mtime() is None,
            r.offset() == timezone_offset,
            r.file() == path@,
    {
        CronStore { path, data: JobsFile { jobs: Vec::new() }, last_mtime: None, timezone_offset }
    }

    /// The path of the file.
    pub fn path(&self) -> (r: &str)
        ensures
            r@ == self.file(),
    {
        self.path.as_str()
    }

    /// The jobs.
    pub fn jobs(&self) -> (r: &[JobEntry])
        ensures
            r@ == self.entries(),
    {
        self.data.jobs.as_slice()
    }

    /// Takes over the jobs of the file, if there is one, it has changed since it
    /// was last read as far as its time of change tells, and it could be parsed.
    pub fn maybe_reload(&mut self, exists: bool, mtime: Option<u64>, parsed: Option<JobsFile>) -> (r:
        bool)
        ensures
            r == (exists && !(mtime is Some && mtime == old(self).mtime()) && parsed is Some),
            final(self).offset() == old(self).offset(),
            final(self).file() == old(self).file(),
            final(self).entries() == (if r {
                parsed.unwrap().jobs@
            } else {
                old(self).entries()
            }),
            final(self).mtime() == (if r {
                mtime
            } else {
                old(self).mtime()
            }),
    {
        if !exists {
            return false;
        }
        match (mtime, self.last_mtime) {
            (Some(a), Some(b)) => {
                if a == b {
                    return false;
                }
            },
            _ => {},
        }
        match parsed {
            Some(data) => {
                self.data = data;
                self.last_mtime = mtime;
                true
            },
            None => false,
        }
    }

    fn position(&self, id: &str) -> (i: usize)
        ensures
            i == job_index(self.entries(), id@),
            i <= self.entries().len(),
            i < self.entries().len() ==> self.entries()[i as int].id@ == id@,
    {
        let mut i: usize = 0;
        while i < self.data.jobs.len() && !same_str(self.data.jobs[i].id.as_str(), id)
            invariant
                i <= self.data.jobs@.len(),
                forall|j: int| 0 <= j < i ==> (#[trigger] self.data.jobs@[j]).id@ != id@,
            decreases self.data.jobs@.len() - i,
        {
            i += 1;
        }
        proof {
            lemma_job_index(self.entries(), id@, i as int);
        }
        i
    }

    /// Adds a job at a given time. A job without an id gets `fresh_id`. Returns
    /// the id.
    pub fn add_job_at(&mut self, entry: JobEntry, fresh_id: String, stamp: &Stamp) -> (r: String)
        requires
            CALENDAR_START <= stamp.at.secs <= CALENDAR_END,
        ensures
            final(self).same_file(*old(self)),
            final(self).entries().len() == old(self).entries().len() + 1,
            final(self).entries().drop_last() == old(self).entries(),
            final(self).entries().last()@ == stored(
                entry@,
                fresh_id@,
                old(self).offset(),
                stamp.at,
                stamp.text@,
            ),
            r@ == final(self).entries().last().id@,
    {
        let mut entry = entry;
        if entry.id.as_str().is_empty() {
            entry.id = fresh_id;
        }
        if entry.created_at.is_none() {
            entry.created_at = Some(stamp.text.clone());
        }
        entry.next_run_at = offset_next_at(
            entry.schedule.as_str(),
            None,
            self.timezone_offset,
            &stamp.at,
        );
        let id = entry.id.clone();
        let ghost before = self.data.jobs@;
        self.data.jobs.push(entry);
        assert(self.data.jobs@.drop_last() =~= before);
        id
    }

    /// Adds a job. A job without an id gets one made from the time. Returns the id.
    pub fn add_job(&mut self, entry: JobEntry) -> (r: String)
        ensures
            final(self).same_file(*old(self)),
            final(self).entries().len() == old(self).entries().len() + 1,
            final(self).entries().drop_last() == old(self).entries(),
            exists|now: UtcInstant, text: Seq<char>| #[trigger]
                stored(entry@, id_at(now), old(self).offset(), now, text) == final(self).entries().last()@ && text_of(now) == Some(text) && is_reading(now),
            r@ == final(self).entries().last().id@,
    {
        let stamp = read_clock();
        let fresh = generate_id(&stamp.at);
        self.add_job_at(entry, fresh, &stamp)
    }

    /// Updates the first job with the id, seen from `now`. Returns whether there
    /// is one.
    pub fn update_job_at(&mut self, id: &str, update: JobUpdate, now: &UtcInstant) -> (r: bool)
        requires
            CALENDAR_START <= now.secs <= CALENDAR_END,
        ensures
            final(self).same_file(*old(self)),
            final(self).entries().len() == old(self).entries().len(),
            r == (job_index(old(self).entries(), id@) < old(self).entries().len()),
            forall|j: int|
                0 <= j < old(self).entries().len() && j != job_index(old(self).entries(), id@)
                    ==> #[trigger] final(self).entries()[j] == old(self).entries()[j],
            r ==> final(self).entries()[job_index(old(self).entries(), id@)]@ == updated(
                old(self).entries()[job_index(old(self).entries(), id@)]@,
                update,
                old(self).offset(),
                *now,
            ),
    {
        let i: usize = self.position(id);
        if i >= self.data.jobs.len() {
            return false;
        }
        let offset: i32 = self.timezone_offset;
        let old_job = &self.data.jobs[i];
        let schedule = match update.schedule {
            Some(ref s) => s.clone(),
            None => old_job.schedule.clone(),
        };
        let last_run = match old_job.last_run_at {
            Some(ref t) => Some(t.as_str()),
            None => None,
        };
        let fresh = offset_next_at(schedule.as_str(), last_run, offset, now);
        let next_run_at = match update.enabled {
            Some(e) => if e {
                fresh
            } else {
                None
            },
            None => if update.schedule.is_some() {
                fresh
            } else {
                copy_opt(&old_job.next_run_at)
            },
        };
        let job = JobEntry {
            id: old_job.id.clone(),
            schedule,
            prompt: match update.prompt {
                Some(p) => p,
                None => old_job.prompt.clone(),
            },
            target: match update.target {
                Some(t) => t,
                None => old_job.target.clone(),
            },
            name: match update.name {
                Some(n) => Some(n),
                None => copy_opt(&old_job.name),
            },
            active_hours: match update.active_hours {
                Some(h) => Some(h),
                None => copy_opt(&old_job.active_hours),
            },
            enabled: match update.enabled {
                Some(e) => e,
                None => old_job.enabled,
            },
            last_run_at: copy_opt(&old_job.last_run_at),
            next_run_at,
            created_at: copy_opt(&old_job.created_at),
        };
        self.data.jobs.set(i, job);
        true
    }

    /// Updates the first job with the id. Returns whether there is one.
    pub fn update_job(&mut self, id: &str, update: JobUpdate) -> (r: bool)
        ensures
            final(self).same_file(*old(self)),
            final(self).entries().len() == old(self).entries().len(),
            r == (job_index(old(self).entries(), id@) < old(self).entries().len()),
            forall|j: int|
                0 <= j < old(self).entries().len() && j != job_index(old(self).entries(), id@)
                    ==> #[trigger] final(self).entries()[j] == old(self).entries()[j],
            r ==> exists|now: UtcInstant|
                final(self).entries()[job_index(old(self).entries(), id@)]@ == #[trigger] updated(
                    old(self).entries()[job_index(old(self).entries(), id@)]@,
                    update,
                    old(self).offset(),
                    now,
                ) && is_reading(now),
    {
        let stamp = read_clock();
        self.update_job_at(id, update, &stamp.at)
    }

    /// Removes the jobs with the id. Returns whether there were any.
    pub fn remove_job(&mut self, id: &str) -> (r: bool)
        ensures
            final(self).same_file(*old(self)),
            final(self).entries() == without_id(old(self).entries(), id@),
            r == (without_id(old(self).entries(), id@).len() < old(self).entries().len()),
    {
        let ghost before = self.data.jobs@;
        let count: usize = self.data.jobs.len();
        let mut kept: Vec<JobEntry> = Vec::new();
        let mut rest: Vec<JobEntry> = Vec::new();
        std::mem::swap(&mut rest, &mut self.data.jobs);
        assert(before.take(0) =~= Seq::<JobEntry>::empty());
        while rest.len() > 0
            invariant
                rest@.len() <= before.len(),
                rest@ == before.skip(before.len() - rest@.len()),
                kept@ == without_id(before.take(before.len() - rest@.len()), id@),
            decreases rest@.len(),
        {
            let ghost k = before.len() - rest@.len();
            let job = rest.remove(0);
            assert(rest@ =~= before.skip(k + 1));
            assert(before.take(k + 1).drop_last() =~= before.take(k));
            assert(before.take(k + 1).last() == job);
            if !same_str(job.id.as_str(), id) {
                kept.push(job);
            }
        }
        assert(before.take(before.len() as int) =~= before);
        let r: bool = kept.len() < count;
        self.data.jobs = kept;
        r
    }

    /// Marks the first job with the id as run at a time.
    pub fn mark_run_at(&mut self, id: &str, stamp: &Stamp)
        requires
            CALENDAR_START <= stamp.at.secs <= CALENDAR_END,
        ensures
            final(self).same_file(*old(self)),
            final(self).entries().len() == old(self).entries().len(),
            forall|j: int|
                0 <= j < old(self).entries().len() && j != job_index(old(self).entries(), id@)
                    ==> #[trigger] final(self).entries()[j] == old(self).entries()[j],
            job_index(old(self).entries(), id@) < old(self).entries().len() ==> final(self).entries()[
            job_index(old(self).entries(), id@)]@ == ran(
                old(self).entries()[job_index(old(self).entries(), id@)]@,
                old(self).offset(),
                stamp.at,
                stamp.text@,
            ),
    {
        let i: usize = self.position(id);
        if i >= self.data.jobs.len() {
            return ;
        }
        let old_job = &self.data.jobs[i];
        let next_run_at = offset_next_at(
            old_job.schedule.as_str(),
            Some(stamp.text.as_str()),
            self.timezone_offset,
            &stamp.at,
        );
        let job = JobEntry {
            id: old_job.id.clone(),
            schedule: old_job.schedule.clone(),
            prompt: old_job.prompt.clone(),
            target: old_job.target.clone(),
            name: copy_opt(&old_job.name),
            active_hours: copy_opt(&old_job.active_hours),
            enabled: old_job.enabled,
            last_run_at: Some(stamp.text.clone()),
            next_run_at,
            created_at: copy_opt(&old_job.created_at),
        };
        self.data.jobs.set(i, job);
    }

    /// Marks the first job with the id as run now.
    pub fn mark_run(&mut self, id: &str)
        ensures
            final(self).same_file(*old(self)),
            final(self).entries().len() == old(self).entries().len(),
            forall|j: int|
                0 <= j < old(self).entries().len() && j != job_index(old(self).entries(), id@)
                    ==> #[trigger] final(self).entries()[j] == old(self).entries()[j],
            job_index(old(self).entries(), id@) < old(self).entries().len() ==> exists|
                now: UtcInstant,
                text: Seq<char>,
            |
                final(self).entries()[job_index(old(self).entries(), id@)]@ == #[trigger] ran(
                    old(self).entries()[job_index(old(self).entries(), id@)]@,
                    old(self).offset(),
                    now,
                    text,
                ) && text_of(now) == Some(text) && is_reading(now),
    {
        let stamp = read_clock();
        self.mark_run_at(id, &stamp);
    }

    /// The enabled jobs whose next run is at or before `now`.
    pub fn due_jobs_at(&self, now: &UtcInstant) -> (r: Vec<&JobEntry>)
        ensures
            job_refs(r@) == due_of(self.entries(), *now),
    {
        let ghost all = self.data.jobs@;
        let mut r: Vec<&JobEntry> = Vec::new();
        let mut i: usize = 0;
        assert(all.take(0) =~= Seq::<JobEntry>::empty());
        assert(job_refs(r@) =~= Seq::<JobEntry>::empty());
        while i < self.data.jobs.len()
            invariant
                i <= self.data.jobs@.len(),
                all == self.data.jobs@,
                job_refs(r@) == due_of(all.take(i as int), *now),
            decreases self.data.jobs@.len() - i,
        {
            let job = &self.data.jobs[i];
            assert(all.take(i as int + 1).drop_last() =~= all.take(i as int));
            assert(all.take(i as int + 1).last() == *job);
            let due: bool = job.enabled && match job.next_run_at {
                Some(ref t) => match parse_instant(t.as_str()) {
                    Some(at) => at.not_after(now),
                    None => false,
                },
                None => false,
            };
            if due {
                assert(job_refs(r@.push(job)) =~= job_refs(r@).push(*job));
                r.push(job);
            }
            i += 1;
        }
        assert(all.take(all.len() as int) =~= all);
        r
    }

    /// The enabled jobs whose next run has come.
    pub fn get_due_jobs(&self) -> (r: Vec<&JobEntry>)
        ensures
            exists|now: UtcInstant|
                #[trigger] is_reading(now) && job_refs(r@) == due_of(self.entries(), now),
    {
        let stamp = read_clock();
        self.due_jobs_at(&stamp.at)
    }

    /// Adds the job of a Markdown file at a time, unless the file is no cron job or a job
    /// with its schedule and prompt is there. Returns whether it was added.
    pub fn migrate_file_at(&mut self, file: &MarkdownFile, stamp: &Stamp) -> (r: bool)
        requires
            0 <= stamp.at.secs <= CALENDAR_END,
        ensures
            final(self).same_file(*old(self)),
            r == match cron_job_of(file.content@) {
                Ok(j) => !tasks_of(old(self).entries()).contains((j.schedule, j.prompt)),
                Err(_) => false,
            },
            !r ==> final(self).entries() == old(self).entries(),
            r ==> {
                &&& final(self).entries().len() == old(self).entries().len() + 1
                &&& final(self).entries().drop_last() == old(self).entries()
                &&& final(self).entries().last()@ == stored(
                    markdown_entry(opt_text(file.stem), cron_job_of(file.content@)->Ok_0),
                    id_at(stamp.at),
                    old(self).offset(),
                    stamp.at,
                    stamp.text@,
                )
            },
    {
        let job = match parse_cron_file(file.content.as_str()) {
            Ok(j) => j,
            Err(_) => {
                return false;
            },
        };
        let ghost key = (job.schedule@, job.prompt@);
        let mut i: usize = 0;
        while i < self.data.jobs.len()
            invariant
                i <= self.data.jobs@.len(),
                self.entries() == old(self).entries(),
                self.same_file(*old(self)),
                key == (job.schedule@, job.prompt@),
                cron_job_of(file.content@) matches Ok(v) && v == job@,
                forall|k: int| 0 <= k < i ==> #[trigger] tasks_of(self.data.jobs@)[k] != key,
            decreases self.data.jobs@.len() - i,
        {
            if same_str(self.data.jobs[i].schedule.as_str(), job.schedule.as_str()) && same_str(
                self.data.jobs[i].prompt.as_str(),
                job.prompt.as_str(),
            ) {
                assert(tasks_of(self.data.jobs@)[i as int] == key);
                return false;
            }
            i += 1;
        }
        assert(!tasks_of(self.entries()).contains(key));
        let entry = JobEntry {
            id: String::new(),
            schedule: job.schedule,
            prompt: job.prompt,
            target: job.target,
            name: copy_opt(&file.stem),
            active_hours: job.active_hours,
            enabled: true,
            last_run_at: None,
            next_run_at: None,
            created_at: None,
        };
        assert(entry@ == markdown_entry(opt_text(file.stem), job@));
        let fresh = generate_id(&stamp.at);
        let id = self.add_job_at(entry, fresh, stamp);
        true
    }

    /// Adds the job of a Markdown file, unless the file is no cron job or a job
    /// with its schedule and prompt is there. Returns whether it was added.
    pub fn migrate_file(&mut self, file: &MarkdownFile) -> (r: bool)
        ensures
            final(self).same_file(*old(self)),
            r == match cron_job_of(file.content@) {
                Ok(j) => !tasks_of(old(self).entries()).contains((j.schedule, j.prompt)),
                Err(_) => false,
            },
            !r ==> final(self).entries() == old(self).entries(),
            r ==> {
                &&& final(self).entries().len() == old(self).entries().len() + 1
                &&& final(self).entries().drop_last() == old(self).entries()
                &&& exists|now: UtcInstant, text: Seq<char>|
                    #[trigger] stored(
                        markdown_entry(opt_text(file.stem), cron_job_of(file.content@)->Ok_0),
                        id_at(now),
                        old(self).offset(),
                        now,
                        text,
                    ) == final(self).entries().last()@ && text_of(now) == Some(text) && is_reading(now)
            },
    {
        let stamp = read_clock();
        self.migrate_file_at(file, &stamp)
    }

    /// Adds the jobs of Markdown files. Returns how many were added.
    pub fn migrate_from_markdown(&mut self, files: &Vec<MarkdownFile>) -> (r: usize)
        ensures
            final(self).same_file(*old(self)),
            exists|times: Seq<UtcInstant>|
                times.len() == files@.len() && are_readings(times) && entry_views(
                    final(self).entries(),
                ) == #[trigger] migrated_entries(
                    entry_views(old(self).entries()),
                    files@,
                    old(self).offset(),
                    times,
                ),
            tasks_of(final(self).entries()) == migrated(tasks_of(old(self).entries()), files@),
            final(self).entries().len() == old(self).entries().len() + r,
            final(self).entries().take(old(self).entries().len() as int) == old(self).entries(),
    {
        let mut count: usize = 0;
        let mut i: usize = 0;
        let ghost before = self.entries();
        let ghost offset = self.offset();
        let ghost mut times: Seq<UtcInstant> = Seq::empty();
        assert(files@.take(0) =~= Seq::<MarkdownFile>::empty());
        assert(self.entries().take(before.len() as int) =~= before);
        while i < files.len()
            invariant
                i <= files@.len(),
                count <= i,
                before == old(self).entries(),
                offset == old(self).offset(),
                self.same_file(*old(self)),
                times.len() == i,
                are_readings(times),
                entry_views(self.entries()) == migrated_entries(
                    entry_views(before),
                    files@.take(i as int),
                    offset,
                    times,
                ),
                tasks_of(self.entries()) == migrated(tasks_of(before), files@.take(i as int)),
                self.entries().len() == before.len() + count,
                self.entries().take(before.len() as int) == before,
            decreases files@.len() - i,
        {
            assert(files@.take(i as int + 1).drop_last() =~= files@.take(i as int));
            assert(files@.take(i as int + 1).last() == files@[i as int]);
            let ghost mid = self.entries();
            assert(state_tasks(entry_views(mid)) =~= tasks_of(mid));
            let stamp = read_clock();
            if self.migrate_file_at(&files[i], &stamp) {
                count += 1;
                proof {
                    assert(entry_views(self.entries()) =~= entry_views(mid).push(
                        self.entries().last()@,
                    ));
                    let last = self.entries().last();
                    assert(tasks_of(self.entries()) =~= tasks_of(mid).push(
                        (last.schedule@, last.prompt@),
                    ));
                    assert(self.entries().take(before.len() as int) =~= mid.take(
                        before.len() as int,
                    ));
                }
            }
            proof {
                lemma_migrated_times(
                    entry_views(before),
                    files@.take(i as int),
                    offset,
                    times,
                    stamp.at,
                );
                times = times.push(stamp.at);
            }
            i += 1;
        }
        assert(files@.take(files@.len() as int) =~= files@);
        count
    }
}

/// No job of the store keeps an id that was removed.
pub proof fn law_removed_id_is_gone(jobs: Seq<JobEntry>, id: Seq<char>)
    ensures
        forall|i: int|
            0 <= i < without_id(jobs, id).len() ==> (#[trigger] without_id(jobs, id)[i]).id@ != id,
        without_id(jobs, id).len() <= jobs.len(),
    decreases jobs.len(),
{
    if jobs.len() > 0 {
        law_removed_id_is_gone(jobs.drop_last(), id);
    }
}

/// A disabled job is never due.
pub proof fn law_disabled_is_never_due(j: CronJobState, now: UtcInstant)
    requires
        !j.enabled,
    ensures
        !is_due(j, now),
{
}

/// Migrating the same files a second time adds nothing.
pub proof fn law_migration_is_idempotent(
    tasks: Seq<(Seq<char>, Seq<char>)>,
    files: Seq<MarkdownFile>,
)
    ensures
        migrated(migrated(tasks, files), files) == migrated(tasks, files),
{
    lemma_migrated_again(migrated(tasks, files), files);
    lemma_migrated_holds(tasks, files);
}

/// After migration, the job of every file that is a cron job is there.
proof fn lemma_migrated_holds(tasks: Seq<(Seq<char>, Seq<char>)>, files: Seq<MarkdownFile>)
    ensures
        forall|i: int|
            0 <= i < files.len() ==> (cron_job_of((#[trigger] files[i]).content@) matches Ok(j)
                ==> migrated(tasks, files).contains((j.schedule, j.prompt))),
    decreases files.len(),
{
    if files.len() > 0 {
        let rest = files.drop_last();
        lemma_migrated_holds(tasks, rest);
        let before = migrated(tasks, rest);
        let after = migrated(tasks, files);
        assert forall|i: int| 0 <= i < files.len() implies (cron_job_of(
            (#[trigger] files[i]).content@,
        ) matches Ok(j) ==> after.contains((j.schedule, j.prompt))) by {
            if i < rest.len() {
                assert(rest[i] == files[i]);
                if let Ok(j) = cron_job_of(files[i].content@) {
                    let k = before.index_of((j.schedule, j.prompt));
                    assert(before[k] == (j.schedule, j.prompt));
                    assert(after[k] == before[k]);
                }
            } else {
                if let Ok(j) = cron_job_of(files[i].content@) {
                    if !before.contains((j.schedule, j.prompt)) {
                        assert(after.last() == (j.schedule, j.prompt));
                        assert(after[after.len() - 1] == (j.schedule, j.prompt));
                    }
                }
            }
        }
    }
}

proof fn lemma_migrated_again(tasks: Seq<(Seq<char>, Seq<char>)>, files: Seq<MarkdownFile>)
    ensures
        (forall|i: int|
            0 <= i < files.len() ==> (cron_job_of((#[trigger] files[i]).content@) matches Ok(j)
                ==> tasks.contains((j.schedule, j.prompt)))) ==> migrated(tasks, files) == tasks,
    decreases files.len(),
{
    if files.len() > 0 {
        let rest = files.drop_last();
        lemma_migrated_again(tasks, rest);
        if forall|i: int|
            0 <= i < files.len() ==> (cron_job_of((#[trigger] files[i]).content@) matches Ok(j)
                ==> tasks.contains((j.schedule, j.prompt))) {
            assert forall|i: int| 0 <= i < rest.len() implies (cron_job_of(
                (#[trigger] rest[i]).content@,
            ) matches Ok(j) ==> tasks.contains((j.schedule, j.prompt))) by {
                assert(rest[i] == files[i]);
            }
            assert(files.last() == files[files.len() - 1]);
        }
    }
}

} // verus!
