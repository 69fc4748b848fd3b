//! What happens to a single job: updates, runs, and when it is due.

use crate::number::{decimal, decimal_of};
use crate::scheduling::active_hours::{active_at, is_active_at};
use crate::scheduling::cron_expr::{timer_next, timer_next_at};
use crate::scheduling::cron_types::{
    KindView, RunRecord, RunRecordView, RunStatus, ScheduleKind,
};
use crate::scheduling::job::{opt_webhook, record_views, JobEntry, JobUpdate, JobView};
use crate::text::{copy_opt, copy_str, opt_text, texts};
use crate::time::{instant_of, parse_instant, Stamp, UtcInstant};
use vstd::prelude::*;

verus! {

/// Nanoseconds of a day.
pub const DAY_NANOS: i128 = 86_400_000_000_000;

/// Nanoseconds of a second.
pub const SECOND_NANOS: i128 = 1_000_000_000;

/// How many recent runs a job remembers.
pub const KEPT_RUNS: usize = 10;

/// What a request to the scheduler can fail with.
#[derive(Debug)]
pub enum SchedulerError {
    /// A new job has no name.
    NameRequired,
    /// A job that is to run at once is disabled.
    Paused { id: String },
    /// A job that is to run at once has no schedule.
    NoSchedule { id: String, name: Option<String> },
}

/// The mathematical value of a [`SchedulerError`].
pub enum SchedulerErrorView {
    NameRequired,
    Paused(Seq<char>),
    NoSchedule(Seq<char>, Option<Seq<char>>),
}

impl View for SchedulerError {
    type V = SchedulerErrorView;

    open spec fn view(&self) -> SchedulerErrorView {
        match self {
            SchedulerError::NameRequired => SchedulerErrorView::NameRequired,
            SchedulerError::Paused { id } => SchedulerErrorView::Paused(id@),
            SchedulerError::NoSchedule { id, name } => SchedulerErrorView::NoSchedule(
                id@,
                opt_text(*name),
            ),
        }
    }
}

/// The text of an error.
pub open spec fn error_text(e: SchedulerErrorView) -> Seq<char> {
    match e {
        SchedulerErrorView::NameRequired => "job name is required (design §3.4)"@,
        SchedulerErrorView::Paused(id) => "job '"@ + id + "' is paused; resume it first"@,
        SchedulerErrorView::NoSchedule(id, name) => "job '"@ + id
            + "' has no schedule (webhook-only): 'run' needs a timer channel — POST its /hooks/"@
            + (match name {
            Some(n) => n,
            None => "?"@,
        }) + " route instead"@,
    }
}

impl SchedulerError {
    /// The text of the error.
    pub fn message(&self) -> (r: String)
        ensures
            r@ == error_text(self@),
    {
        match self {
            SchedulerError::NameRequired => copy_str("job name is required (design §3.4)"),
            SchedulerError::Paused { id } => {
                let mut m = copy_str("job '");
                m.append(id.as_str());
                m.append("' is paused; resume it first");
                m
            },
            SchedulerError::NoSchedule { id, name } => {
                let mut m = copy_str("job '");
                m.append(id.as_str());
                m.append(
                    "' has no schedule (webhook-only): 'run' needs a timer channel — POST its /hooks/",
                );
                match name {
                    Some(n) => {
                        m.append(n.as_str());
                    },
                    None => {
                        m.append("?");
                    },
                }
                m.append(" route instead");
                m
            },
        }
    }
}

// ── Single jobs ────────────────────────────────────────────────────────────

/// The time zone of a job: its own, or that of the scheduler.
pub open spec fn zone_of(j: JobView, timezone: Seq<char>) -> Seq<char> {
    match j.tz {
        Some(t) => t,
        None => timezone,
    }
}

/// The next run of a job by its timer.
pub open spec fn next_of(j: JobView, timezone: Seq<char>, now: UtcInstant) -> Option<Seq<char>> {
    timer_next(j.schedule_kind, j.schedule, j.last_run_at, zone_of(j, timezone), now)
}

/// Whether a job is due by its timer: it is enabled, has a schedule, its next
/// run has come, and the time lies in its active hours.
pub open spec fn timer_due(j: JobView, timezone: Seq<char>, now: UtcInstant) -> bool {
    &&& j.enabled
    &&& j.schedule is Some
    &&& match j.next_run_at {
        Some(t) => match instant_of(t) {
            Some(i) => i.at_or_before(now),
            None => false,
        },
        None => false,
    }
    &&& active_at(j.active_hours, zone_of(j, timezone), now)
}

fn zone<'a>(job: &'a JobEntry, timezone: &'a str) -> (r: &'a str)
    ensures
        r@ == zone_of(job@, timezone@),
{
    match job.tz {
        Some(ref t) => t.as_str(),
        None => timezone,
    }
}

pub(crate) fn as_str_opt<'a>(o: &'a Option<String>) -> (r: Option<&'a str>)
    ensures
        crate::text::opt_str(r) == opt_text(*o),
{
    match o {
        Some(s) => Some(s.as_str()),
        None => None,
    }
}

/// The next run of a job by its timer, seen from `now`.
pub fn next_for(job: &JobEntry, timezone: &str, now: &UtcInstant) -> (r: Option<String>)
    ensures
        opt_text(r) == next_of(job@, timezone@, *now),
{
    let kind = match job.schedule_kind {
        Some(ref k) => Some(k),
        None => None,
    };
    timer_next_at(
        kind,
        as_str_opt(&job.schedule),
        as_str_opt(&job.last_run_at),
        zone(job, timezone),
        now,
    )
}

/// Whether a job is due by its timer at `now`.
pub fn job_due(job: &JobEntry, timezone: &str, now: &UtcInstant) -> (r: bool)
    ensures
        r == timer_due(job@, timezone@, *now),
{
    if !job.enabled || job.schedule.is_none() {
        return false;
    }
    let reached: bool = match job.next_run_at {
        Some(ref t) => match parse_instant(t.as_str()) {
            Some(i) => i.not_after(now),
            None => false,
        },
        None => false,
    };
    reached && is_active_at(&job.active_hours, zone(job, timezone), now)
}

/// The optional text that replaces another, if there is one.
pub open spec fn opt_or(new: Option<String>, kept: Option<Seq<char>>) -> Option<Seq<char>> {
    match new {
        Some(s) => Some(s@),
        None => kept,
    }
}

/// The text that replaces another, if there is one.
pub open spec fn text_or(new: Option<String>, kept: Seq<char>) -> Seq<char> {
    match new {
        Some(s) => s@,
        None => kept,
    }
}

/// The value that replaces another, if there is one.
pub open spec fn value_or<T>(new: Option<T>, kept: T) -> T {
    match new {
        Some(v) => v,
        None => kept,
    }
}

/// A job with the fields of an update, but for its next run.
pub open spec fn with_fields(j: JobView, u: JobUpdate) -> JobView {
    JobView {
        name: opt_or(u.name, j.name),
        schedule: if u.schedule_changed {
            opt_text(u.schedule)
        } else {
            j.schedule
        },
        schedule_kind: if u.schedule_changed {
            crate::scheduling::cron_types::held_kind(u.schedule_kind)
        } else {
            j.schedule_kind
        },
        prompt: text_or(u.prompt, j.prompt),
        target: text_or(u.target, j.target),
        tz: opt_or(u.tz, j.tz),
        active_hours: opt_or(u.active_hours, j.active_hours),
        enabled: value_or(u.enabled, j.enabled),
        delivery: match u.delivery {
            Some(d) => Some(d),
            None => j.delivery,
        },
        webhook: if u.webhook_changed {
            match u.webhook {
                Some(w) => opt_webhook(w),
                None => None,
            }
        } else {
            j.webhook
        },
        enabled_tools: match u.enabled_tools {
            Some(v) => Some(texts(v@)),
            None => j.enabled_tools,
        },
        disabled_tools: match u.disabled_tools {
            Some(v) => Some(texts(v@)),
            None => j.disabled_tools,
        },
        retry: match u.retry {
            Some(r) => Some(r),
            None => j.retry,
        },
        failure_alert: match u.failure_alert {
            Some(a) => Some(a),
            None => j.failure_alert,
        },
        max_runs: value_or(u.max_runs, j.max_runs),
        delete_after_run: value_or(u.delete_after_run, j.delete_after_run),
        model: match u.model {
            Some(m) => opt_text(m),
            None => j.model,
        },
        provider: match u.provider {
            Some(p) => opt_text(p),
            None => j.provider,
        },
        ..j
    }
}

/// A job with an update, without the request to run at once. Disabling takes the
/// next run away; enabling, and a change of schedule or time zone, compute it anew.
pub open spec fn with_update(
    j: JobView,
    u: JobUpdate,
    timezone: Seq<char>,
    now: UtcInstant,
) -> JobView {
    let fields = with_fields(j, u);
    JobView {
        next_run_at: match u.enabled {
            Some(true) => next_of(fields, timezone, now),
            Some(false) => None,
            None => if u.schedule_changed || u.tz is Some {
                next_of(fields, timezone, now)
            } else {
                j.next_run_at
            },
        },
        ..fields
    }
}

/// Why a job that is to run at once cannot.
pub open spec fn trigger_error(j: JobView, id: Seq<char>) -> Option<SchedulerErrorView> {
    if !j.enabled {
        Some(SchedulerErrorView::Paused(id))
    } else if j.schedule is None {
        Some(SchedulerErrorView::NoSchedule(id, j.name))
    } else {
        None
    }
}

/// The outcome of an update of a job. Where the job cannot run at once the other
/// changes stay.
pub open spec fn update_outcome(
    j: JobView,
    id: Seq<char>,
    u: JobUpdate,
    timezone: Seq<char>,
    now: UtcInstant,
    now_text: Seq<char>,
) -> (JobView, Option<SchedulerErrorView>) {
    let changed = with_update(j, u, timezone, now);
    if !u.trigger_now {
        (changed, None)
    } else {
        match trigger_error(changed, id) {
            Some(e) => (changed, Some(e)),
            None => (JobView { next_run_at: Some(now_text), ..changed }, None),
        }
    }
}

/// The view of the outcome of an update.
pub open spec fn opt_error(r: Result<(), SchedulerError>) -> Option<SchedulerErrorView> {
    match r {
        Ok(()) => None,
        Err(e) => Some(e@),
    }
}

fn put<T>(slot: &mut T, new: Option<T>)
    ensures
        *final(slot) == value_or(new, *old(slot)),
{
    if let Some(v) = new {
        *slot = v;
    }
}

fn put_some<T>(slot: &mut Option<T>, new: Option<T>)
    ensures
        *final(slot) == (match new {
            Some(v) => Some(v),
            None => *old(slot),
        }),
{
    if new.is_some() {
        *slot = new;
    }
}

fn put_schedule(job: &mut JobEntry, update_schedule: Option<String>, kind: Option<ScheduleKind>)
    ensures
        final(job)@ == (JobView {
            schedule: opt_text(update_schedule),
            schedule_kind: crate::scheduling::cron_types::held_kind(kind),
            ..old(job)@
        }),
{
    job.schedule = update_schedule;
    job.schedule_kind = kind;
}

fn set_fields(job: &mut JobEntry, update: JobUpdate)
    ensures
        final(job)@ == with_fields(old(job)@, update),
{
    let schedule_changed: bool = update.schedule_changed;
    let webhook_changed: bool = update.webhook_changed;
    put_some(&mut job.name, update.name);
    if schedule_changed {
        put_schedule(job, update.schedule, update.schedule_kind);
    }
    put(&mut job.prompt, update.prompt);
    put(&mut job.target, update.target);
    put_some(&mut job.tz, update.tz);
    put_some(&mut job.active_hours, update.active_hours);
    put(&mut job.enabled, update.enabled);
    put_some(&mut job.delivery, update.delivery);
    if webhook_changed {
        job.webhook = match update.webhook {
            Some(w) => w,
            None => None,
        };
    }
    put_some(&mut job.enabled_tools, update.enabled_tools);
    put_some(&mut job.disabled_tools, update.disabled_tools);
    put_some(&mut job.retry, update.retry);
    put_some(&mut job.failure_alert, update.failure_alert);
    put(&mut job.max_runs, update.max_runs);
    put(&mut job.delete_after_run, update.delete_after_run);
    put(&mut job.model, update.model);
    put(&mut job.provider, update.provider);
}

/// Applies an update to a job.
pub fn apply_update(
    job: &mut JobEntry,
    id: &str,
    update: JobUpdate,
    timezone: &str,
    stamp: &Stamp,
) -> (r: Result<(), SchedulerError>)
    ensures
        (final(job)@, opt_error(r)) == update_outcome(
            old(job)@,
            id@,
            update,
            timezone@,
            stamp.at,
            stamp.text@,
        ),
{
    let ghost u = update;
    let ghost before = job@;
    let retimed: bool = update.schedule_changed || update.tz.is_some();
    let enabled = update.enabled;
    let trigger: bool = update.trigger_now;
    set_fields(job, update);
    let ghost fields = job@;
    match enabled {
        Some(e) => {
            if e {
                job.next_run_at = next_for(job, timezone, &stamp.at);
            } else {
                job.next_run_at = None;
            }
        },
        None => {
            if retimed {
                job.next_run_at = next_for(job, timezone, &stamp.at);
            }
        },
    }
    assert(job@ == with_update(before, u, timezone@, stamp.at));
    if trigger {
        if !job.enabled {
            return Err(SchedulerError::Paused { id: copy_str(id) });
        }
        if job.schedule.is_none() {
            return Err(SchedulerError::NoSchedule { id: copy_str(id), name: copy_opt(&job.name) });
        }
        job.next_run_at = Some(stamp.text.clone());
    }
    Ok(())
}

// ── Run results ────────────────────────────────────────────────────────────

/// Failures in a row after a run.
pub open spec fn errors_after(j: JobView, status: RunStatus) -> int {
    match status {
        RunStatus::Succeeded => 0,
        RunStatus::Error => j.consecutive_errors + 1,
        RunStatus::Timeout => j.consecutive_errors + 1,
        RunStatus::Skipped => j.consecutive_errors + (if j.failure_alert matches Some(a)
            && a.include_skipped {
            1int
        } else {
            0int
        }),
    }
}

/// Skipped runs in a row after a run.
pub open spec fn skipped_after(j: JobView, status: RunStatus) -> int {
    if status == RunStatus::Skipped {
        j.consecutive_skipped + 1
    } else {
        0
    }
}

/// Whether the time since the last alert is at least the cooldown. An alert time
/// that is no time counts as a day ago.
pub open spec fn cooled_down(last_alert: Option<Seq<char>>, cooldown_secs: u64, now: UtcInstant) -> bool {
    match last_alert {
        None => true,
        Some(t) => {
            let last = match instant_of(t) {
                Some(i) => i.total(),
                None => now.total() - DAY_NANOS,
            };
            now.total() - last >= cooldown_secs * SECOND_NANOS
        },
    }
}

/// Whether a run with this status makes a job raise an alert.
pub open spec fn alerts(j: JobView, status: RunStatus, now: UtcInstant) -> bool {
    match j.failure_alert {
        Some(a) => errors_after(j, status) >= a.after && cooled_down(
            j.last_failure_alert_at,
            a.cooldown_secs,
            now,
        ),
        None => false,
    }
}

/// The text of an alert.
pub open spec fn alert_text(j: JobView, record: RunRecordView) -> Seq<char> {
    "⚠️ Cron job '"@ + (match j.name {
        Some(n) => n,
        None => j.id,
    }) + "' ("@ + j.id + ") has failed "@ + decimal(errors_after(j, record.status) as nat)
        + " consecutive times. Last error: "@ + (match record.error {
        Some(e) => e,
        None => "unknown"@,
    })
}

/// The last ten of a row.
pub open spec fn last_ten(runs: Seq<RunRecordView>) -> Seq<RunRecordView> {
    if runs.len() > KEPT_RUNS {
        runs.skip(runs.len() - KEPT_RUNS)
    } else {
        runs
    }
}

/// The successful runs of a job after one with this status.
pub open spec fn successes_after(j: JobView, status: RunStatus) -> int {
    if status == RunStatus::Succeeded {
        j.successful_runs + 1
    } else {
        j.successful_runs as int
    }
}

/// Whether a job has made all the successful runs that it may.
pub open spec fn used_up(j: JobView) -> bool {
    match j.max_runs {
        Some(m) => j.successful_runs >= m,
        None => false,
    }
}

/// A job after a run.
pub open spec fn after_run(
    j: JobView,
    record: RunRecordView,
    timezone: Seq<char>,
    now: UtcInstant,
    now_text: Seq<char>,
) -> JobView {
    let counted = JobView {
        last_run_at: Some(record.run_at),
        consecutive_errors: errors_after(j, record.status) as u32,
        consecutive_skipped: skipped_after(j, record.status) as u32,
        last_failure_alert_at: if alerts(j, record.status, now) {
            Some(now_text)
        } else {
            j.last_failure_alert_at
        },
        last_runs: last_ten(j.last_runs.push(record)),
        completed_runs: (j.completed_runs + 1) as u32,
        successful_runs: successes_after(j, record.status) as u32,
        ..j
    };
    let ends = used_up(counted) && !j.delete_after_run;
    JobView {
        next_run_at: if ends {
            None
        } else {
            next_of(counted, timezone, now)
        },
        enabled: if ends || j.schedule_kind matches Some(KindView::At(_)) {
            false
        } else {
            j.enabled
        },
        ..counted
    }
}

/// Whether the counters of a job can still go up.
pub open spec fn can_count(j: JobView) -> bool {
    &&& j.consecutive_errors < u32::MAX
    &&& j.consecutive_skipped < u32::MAX
    &&& j.completed_runs < u32::MAX
    &&& j.successful_runs < u32::MAX
}

fn has_cooled_down(last_alert: &Option<String>, cooldown_secs: u64, now: &UtcInstant) -> (r: bool)
    ensures
        r == cooled_down(opt_text(*last_alert), cooldown_secs, *now),
{
    match last_alert {
        None => true,
        Some(t) => {
            let now_total: i128 = (now.secs as i128) * 1_000_000_000 + now.nanos as i128;
            let last: i128 = match parse_instant(t.as_str()) {
                Some(i) => (i.secs as i128) * 1_000_000_000 + i.nanos as i128,
                None => now_total - DAY_NANOS,
            };
            now_total - last >= (cooldown_secs as i128) * SECOND_NANOS
        },
    }
}

fn keep_last_ten(runs: &mut Vec<RunRecord>)
    ensures
        record_views(final(runs)@) == last_ten(record_views(old(runs)@)),
{
    let ghost all = runs@;
    assert(all.skip(0) =~= all);
    while runs.len() > KEPT_RUNS
        invariant
            runs@.len() <= all.len(),
            runs@ == all.skip(all.len() - runs@.len()),
            all.len() > KEPT_RUNS ==> runs@.len() >= KEPT_RUNS,
            all.len() <= KEPT_RUNS ==> runs@ == all,
        decreases runs@.len(),
    {
        let ghost k = all.len() - runs@.len();
        let dropped = runs.remove(0);
        assert(runs@ =~= all.skip(k + 1));
    }
    assert(record_views(runs@) =~= last_ten(record_views(all)));
}

/// Books a run of a job, and returns the alert that it raises.
pub fn book_run(job: &mut JobEntry, record: RunRecord, timezone: &str, stamp: &Stamp) -> (r: Option<
    String,
>)
    requires
        can_count(old(job)@),
    ensures
        final(job)@ == after_run(old(job)@, record@, timezone@, stamp.at, stamp.text@),
        match r {
            Some(m) => alerts(old(job)@, record.status, stamp.at) && m@ == alert_text(
                old(job)@,
                record@,
            ),
            None => !alerts(old(job)@, record.status, stamp.at),
        },
{
    let ghost before = job@;
    job.last_run_at = Some(record.run_at.clone());
    job.next_run_at = next_for(job, timezone, &stamp.at);
    let ghost fresh_next = opt_text(job.next_run_at);
    match record.status {
        RunStatus::Succeeded => {
            job.consecutive_errors = 0;
            job.consecutive_skipped = 0;
        },
        RunStatus::Error => {
            job.consecutive_errors = job.consecutive_errors + 1;
            job.consecutive_skipped = 0;
        },
        RunStatus::Timeout => {
            job.consecutive_errors = job.consecutive_errors + 1;
            job.consecutive_skipped = 0;
        },
        RunStatus::Skipped => {
            job.consecutive_skipped = job.consecutive_skipped + 1;
            let counts: bool = match job.failure_alert {
                Some(a) => a.include_skipped,
                None => false,
            };
            if counts {
                job.consecutive_errors = job.consecutive_errors + 1;
            }
        },
    }
    assert(job.consecutive_errors == errors_after(before, record.status));
    let raise: bool = match job.failure_alert {
        Some(a) => job.consecutive_errors >= a.after && has_cooled_down(
            &job.last_failure_alert_at,
            a.cooldown_secs,
            &stamp.at,
        ),
        None => false,
    };
    let mut alert: Option<String> = None;
    if raise {
        let mut m = copy_str("⚠️ Cron job '");
        match job.name {
            Some(ref n) => {
                m.append(n.as_str());
            },
            None => {
                m.append(job.id.as_str());
            },
        }
        m.append("' (");
        m.append(job.id.as_str());
        m.append(") has failed ");
        let count = decimal_of(job.consecutive_errors as u64);
        m.append(count.as_str());
        m.append(" consecutive times. Last error: ");
        match record.error {
            Some(ref e) => {
                m.append(e.as_str());
            },
            None => {
                m.append("unknown");
            },
        }
        alert = Some(m);
        job.last_failure_alert_at = Some(stamp.text.clone());
    }
    let ghost runs = job.last_runs@;
    let ghost rec = record;
    let succeeded: bool = record.status == RunStatus::Succeeded;
    job.last_runs.push(record);
    assert(record_views(job.last_runs@) =~= record_views(runs).push(rec@));
    keep_last_ten(&mut job.last_runs);
    job.completed_runs = job.completed_runs + 1;
    if succeeded {
        job.successful_runs = job.successful_runs + 1;
    }
    match job.max_runs {
        Some(max) => {
            if job.successful_runs >= max && !job.delete_after_run {
                job.enabled = false;
                job.next_run_at = None;
            }
        },
        None => {},
    }
    let once: bool = match job.schedule_kind {
        Some(ScheduleKind::At { .. }) => true,
        _ => false,
    };
    if once {
        job.enabled = false;
    }
    assert(job@ == after_run(before, rec@, timezone@, stamp.at, stamp.text@));
    alert
}

/// A job never remembers more than ten runs.
pub proof fn law_run_history_is_bounded(
    j: JobView,
    record: RunRecordView,
    timezone: Seq<char>,
    now: UtcInstant,
    now_text: Seq<char>,
)
    ensures
        after_run(j, record, timezone, now, now_text).last_runs.len() <= KEPT_RUNS,
        after_run(j, record, timezone, now, now_text).last_runs.last() == record,
{
}

/// A successful run clears the failures, so it raises no alert unless one is
/// asked for after no failure at all.
pub proof fn law_success_clears_failures(
    j: JobView,
    record: RunRecordView,
    timezone: Seq<char>,
    now: UtcInstant,
    now_text: Seq<char>,
)
    requires
        record.status == RunStatus::Succeeded,
    ensures
        after_run(j, record, timezone, now, now_text).consecutive_errors == 0,
        after_run(j, record, timezone, now, now_text).consecutive_skipped == 0,
        (j.failure_alert matches Some(a) && a.after > 0) ==> !alerts(j, record.status, now),
{
}

/// A run that did not succeed uses up nothing: a job that has successful runs left
/// keeps them, and is disabled only if it runs once.
pub proof fn law_failed_runs_use_up_nothing(
    j: JobView,
    record: RunRecordView,
    timezone: Seq<char>,
    now: UtcInstant,
    now_text: Seq<char>,
)
    requires
        record.status != RunStatus::Succeeded,
        !used_up(j),
    ensures
        !used_up(after_run(j, record, timezone, now, now_text)),
        !(j.schedule_kind matches Some(KindView::At(_))) ==> after_run(
            j,
            record,
            timezone,
            now,
            now_text,
        ).enabled == j.enabled,
{
}

/// A job that runs once is disabled after a run, whatever came of it.
pub proof fn law_one_shot_is_disabled(
    j: JobView,
    record: RunRecordView,
    timezone: Seq<char>,
    now: UtcInstant,
    now_text: Seq<char>,
    at: Seq<char>,
)
    requires
        j.schedule_kind == Some(KindView::At(at)),
    ensures
        !after_run(j, record, timezone, now, now_text).enabled,
        !timer_due(after_run(j, record, timezone, now, now_text), timezone, now),
{
}

/// A job without a schedule is never due.
pub proof fn law_no_schedule_never_due(j: JobView, timezone: Seq<char>, now: UtcInstant)
    requires
        j.schedule is None,
    ensures
        !timer_due(j, timezone, now),
        next_of(j, timezone, now) is None,
{
}

/// A job that was told to run at once is due at that time, in its active hours.
pub proof fn law_trigger_makes_due(
    j: JobView,
    id: Seq<char>,
    u: JobUpdate,
    timezone: Seq<char>,
    stamp: Stamp,
)
    requires
        u.trigger_now,
        stamp.wf(),
        crate::time::in_four_digit_years(stamp.at.secs, stamp.at.nanos),
        update_outcome(j, id, u, timezone, stamp.at, stamp.text@).1 is None,
        active_at(
            with_fields(j, u).active_hours,
            zone_of(with_fields(j, u), timezone),
            stamp.at,
        ),
    ensures
        timer_due(
            update_outcome(j, id, u, timezone, stamp.at, stamp.text@).0,
            timezone,
            stamp.at,
        ),
{
}

} // verus!
