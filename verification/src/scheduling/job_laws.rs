//! What an update, a run and a tick promise of every job.

use vstd::prelude::*;

use crate::number::decimal;
use crate::scheduling::active_hours::{active_at, hours_range};
use crate::scheduling::cron_expr::{normalized, timer_next};
use crate::scheduling::cron_types::{held_kind, KindView, RunRecordView, RunStatus};
use crate::scheduling::job::{opt_webhook, JobUpdate, JobView};
use crate::scheduling::job_state::{
    after_run, alert_text, alerts, can_count, error_text, timer_due, update_outcome,
    SchedulerErrorView,
};
use crate::scheduling::scheduler::{
    booked_jobs, due_triggers_of, index_of_id, session_key_of, started, stored_job, switched,
    updated_jobs, with_all_started, with_started, TriggerView,
};
use crate::text::{has_text, opt_text, texts};
use crate::text_laws::lemma_holds_around;
use crate::time::{
    cron_after, cron_parsed, instant_of, local_hm, text_of, tz_known, UtcInstant, CRON_HORIZON,
};

verus! {

// ── Updates ────────────────────────────────────────────────────────────────

/// The zone in which a job runs once it was given `new`.
pub open spec fn zone_after(new: Option<String>, own: Option<Seq<char>>, general: Seq<char>) -> Seq<char> {
    if new is Some {
        new->0@
    } else if own is Some {
        own->0
    } else {
        general
    }
}

/// An update that changes the schedule of a job, neither disables it nor asks for a
/// run at once, sets the next run to the one that the new schedule has after the last
/// run or, without one, after now. The next run that the old schedule had plays no
/// part.
pub proof fn law_a_new_schedule_sets_the_next_run(
    j: JobView,
    id: Seq<char>,
    u: JobUpdate,
    timezone: Seq<char>,
    now: UtcInstant,
    now_text: Seq<char>,
    other: Option<Seq<char>>,
)
    requires
        u.schedule_changed,
        u.enabled != Some(false),
        !u.trigger_now,
    ensures
        update_outcome(j, id, u, timezone, now, now_text).1 is None,
        update_outcome(j, id, u, timezone, now, now_text).0.schedule == opt_text(u.schedule),
        update_outcome(j, id, u, timezone, now, now_text).0.schedule_kind == held_kind(
            u.schedule_kind,
        ),
        update_outcome(j, id, u, timezone, now, now_text).0.next_run_at == timer_next(
            held_kind(u.schedule_kind),
            opt_text(u.schedule),
            j.last_run_at,
            zone_after(u.tz, j.tz, timezone),
            now,
        ),
        update_outcome((JobView { next_run_at: other, ..j }), id, u, timezone, now, now_text)
            == update_outcome(j, id, u, timezone, now, now_text),
{
}

/// An update that moves a job to another zone, or enables it, and neither disables it
/// nor asks for a run at once, sets the next run to the one that its schedule has in
/// its zone after the last run or, without one, after now.
pub proof fn law_a_new_zone_or_enabling_sets_the_next_run(
    j: JobView,
    id: Seq<char>,
    u: JobUpdate,
    timezone: Seq<char>,
    now: UtcInstant,
    now_text: Seq<char>,
)
    requires
        !u.schedule_changed,
        u.tz is Some || u.enabled == Some(true),
        u.enabled != Some(false),
        !u.trigger_now,
    ensures
        update_outcome(j, id, u, timezone, now, now_text).1 is None,
        update_outcome(j, id, u, timezone, now, now_text).0.next_run_at == timer_next(
            j.schedule_kind,
            j.schedule,
            j.last_run_at,
            zone_after(u.tz, j.tz, timezone),
            now,
        ),
{
}

/// A disabled job has no next run and is not due, and cannot be asked to run at once.
pub proof fn law_disabling_takes_the_next_run_away(
    j: JobView,
    id: Seq<char>,
    u: JobUpdate,
    timezone: Seq<char>,
    now: UtcInstant,
    now_text: Seq<char>,
)
    requires
        u.enabled == Some(false),
    ensures
        !update_outcome(j, id, u, timezone, now, now_text).0.enabled,
        update_outcome(j, id, u, timezone, now, now_text).0.next_run_at is None,
        !timer_due(update_outcome(j, id, u, timezone, now, now_text).0, timezone, now),
        (update_outcome(j, id, u, timezone, now, now_text).1 is Some) == u.trigger_now,
{
}

/// An update that does not speak of schedule, zone and enabling, nor asks for a run at
/// once, leaves the timing of a job as it is.
pub proof fn law_other_updates_keep_the_timing(
    j: JobView,
    id: Seq<char>,
    u: JobUpdate,
    timezone: Seq<char>,
    now: UtcInstant,
    now_text: Seq<char>,
)
    requires
        !u.schedule_changed,
        u.tz is None,
        u.enabled is None,
        !u.trigger_now,
    ensures
        update_outcome(j, id, u, timezone, now, now_text).1 is None,
        update_outcome(j, id, u, timezone, now, now_text).0.next_run_at == j.next_run_at,
        update_outcome(j, id, u, timezone, now, now_text).0.schedule == j.schedule,
        update_outcome(j, id, u, timezone, now, now_text).0.schedule_kind == j.schedule_kind,
        update_outcome(j, id, u, timezone, now, now_text).0.tz == j.tz,
        update_outcome(j, id, u, timezone, now, now_text).0.enabled == j.enabled,
{
}

/// A job can be asked to run at once exactly if it is enabled and has a schedule. Its
/// next run is then now; otherwise the error says why, and the next run is what it
/// would be without the request.
pub proof fn law_a_run_at_once(
    j: JobView,
    id: Seq<char>,
    u: JobUpdate,
    timezone: Seq<char>,
    now: UtcInstant,
    now_text: Seq<char>,
)
    requires
        u.trigger_now,
    ensures
        ({
            let r = update_outcome(j, id, u, timezone, now, now_text);
            let quiet = update_outcome(
                j,
                id,
                (JobUpdate { trigger_now: false, ..u }),
                timezone,
                now,
                now_text,
            ).0;
            &&& (r.1 is None) == (r.0.enabled && r.0.schedule is Some)
            &&& r.1 is None ==> r.0 == (JobView { next_run_at: Some(now_text), ..quiet })
            &&& r.1 is Some ==> r.0 == quiet
            &&& !r.0.enabled ==> r.1 == Some(SchedulerErrorView::Paused(id))
            &&& r.0.enabled && r.0.schedule is None ==> r.1 == Some(
                SchedulerErrorView::NoSchedule(id, r.0.name),
            )
        }),
{
}

/// Each field that an update names takes the value of the update.
pub proof fn law_an_update_sets_what_it_names(
    j: JobView,
    id: Seq<char>,
    u: JobUpdate,
    timezone: Seq<char>,
    now: UtcInstant,
    now_text: Seq<char>,
)
    ensures
        ({
            let r = update_outcome(j, id, u, timezone, now, now_text).0;
            &&& u.name is Some ==> r.name == Some(u.name->0@)
            &&& u.schedule_changed ==> r.schedule == opt_text(u.schedule)
            &&& u.schedule_changed ==> r.schedule_kind == held_kind(u.schedule_kind)
            &&& u.webhook_changed && u.webhook is Some ==> r.webhook == opt_webhook(u.webhook->0)
            &&& u.webhook_changed && u.webhook is None ==> r.webhook is None
            &&& u.prompt is Some ==> r.prompt == u.prompt->0@
            &&& u.target is Some ==> r.target == u.target->0@
            &&& u.tz is Some ==> r.tz == Some(u.tz->0@)
            &&& u.active_hours is Some ==> r.active_hours == Some(u.active_hours->0@)
            &&& u.enabled is Some ==> r.enabled == u.enabled->0
            &&& u.delivery is Some ==> r.delivery == u.delivery
            &&& u.enabled_tools is Some ==> r.enabled_tools == Some(texts(u.enabled_tools->0@))
            &&& u.disabled_tools is Some ==> r.disabled_tools == Some(texts(u.disabled_tools->0@))
            &&& u.retry is Some ==> r.retry == u.retry
            &&& u.failure_alert is Some ==> r.failure_alert == u.failure_alert
            &&& u.max_runs is Some ==> r.max_runs == u.max_runs->0
            &&& u.delete_after_run is Some ==> r.delete_after_run == u.delete_after_run->0
            &&& u.model is Some ==> r.model == opt_text(u.model->0)
            &&& u.provider is Some ==> r.provider == opt_text(u.provider->0)
        }),
{
}

/// Each field that an update does not name stays, and no update changes what is known
/// of a job and its runs.
pub proof fn law_an_update_keeps_what_it_does_not_name(
    j: JobView,
    id: Seq<char>,
    u: JobUpdate,
    timezone: Seq<char>,
    now: UtcInstant,
    now_text: Seq<char>,
)
    ensures
        ({
            let r = update_outcome(j, id, u, timezone, now, now_text).0;
            &&& u.name is None ==> r.name == j.name
            &&& !u.schedule_changed ==> r.schedule == j.schedule
            &&& !u.schedule_changed ==> r.schedule_kind == j.schedule_kind
            &&& !u.webhook_changed ==> r.webhook == j.webhook
            &&& u.prompt is None ==> r.prompt == j.prompt
            &&& u.target is None ==> r.target == j.target
            &&& u.tz is None ==> r.tz == j.tz
            &&& u.active_hours is None ==> r.active_hours == j.active_hours
            &&& u.enabled is None ==> r.enabled == j.enabled
            &&& u.delivery is None ==> r.delivery == j.delivery
            &&& u.enabled_tools is None ==> r.enabled_tools == j.enabled_tools
            &&& u.disabled_tools is None ==> r.disabled_tools == j.disabled_tools
            &&& u.retry is None ==> r.retry == j.retry
            &&& u.failure_alert is None ==> r.failure_alert == j.failure_alert
            &&& u.max_runs is None ==> r.max_runs == j.max_runs
            &&& u.delete_after_run is None ==> r.delete_after_run == j.delete_after_run
            &&& u.model is None ==> r.model == j.model
            &&& u.provider is None ==> r.provider == j.provider
            &&& r.id == j.id
            &&& r.last_run_at == j.last_run_at
            &&& r.created_at == j.created_at
            &&& r.last_runs == j.last_runs
            &&& r.consecutive_errors == j.consecutive_errors
            &&& r.consecutive_skipped == j.consecutive_skipped
            &&& r.completed_runs == j.completed_runs
            &&& r.successful_runs == j.successful_runs
            &&& r.last_failure_alert_at == j.last_failure_alert_at
            &&& r.context_policy == j.context_policy
        }),
{
}

/// The first job with an id is the one that an update or a booked run is for: it is
/// changed as it would be alone. Without such a job nothing is changed, and an update
/// says so.
pub proof fn law_the_first_job_of_an_id_is_meant(
    before: Seq<JobView>,
    j: JobView,
    after: Seq<JobView>,
    u: JobUpdate,
    record: RunRecordView,
    timezone: Seq<char>,
    now: UtcInstant,
    now_text: Seq<char>,
)
    requires
        forall|k: int| 0 <= k < before.len() ==> (#[trigger] before[k]).id != j.id,
    ensures
        updated_jobs(before.push(j) + after, j.id, u, timezone, now, now_text).0 == before.push(
            update_outcome(j, j.id, u, timezone, now, now_text).0,
        ) + after,
        updated_jobs(before.push(j) + after, j.id, u, timezone, now, now_text).1 == (
        match update_outcome(j, j.id, u, timezone, now, now_text).1 {
            None => Ok::<bool, SchedulerErrorView>(true),
            Some(e) => Err::<bool, SchedulerErrorView>(e),
        }),
        booked_jobs(before.push(j) + after, j.id, record, timezone, now, now_text).0
            == before.push(after_run(j, record, timezone, now, now_text)) + after,
        with_started(before.push(j) + after, j.id, timezone, now, now_text) == before.push(
            started(j, timezone, now, now_text),
        ) + after,
        updated_jobs(before, j.id, u, timezone, now, now_text) == (
            before,
            Ok::<bool, SchedulerErrorView>(false),
        ),
        booked_jobs(before, j.id, record, timezone, now, now_text) == (
            before,
            None::<Seq<char>>,
        ),
{
    lemma_first_index(before, j, after);
    lemma_no_index(before, j.id);
    let all = before.push(j) + after;
    let n = before.len() as int;
    assert(all[n] == j);
    let x = update_outcome(j, j.id, u, timezone, now, now_text).0;
    assert(all.update(n, x) =~= before.push(x) + after);
    let y = after_run(j, record, timezone, now, now_text);
    assert(all.update(n, y) =~= before.push(y) + after);
    let z = started(j, timezone, now, now_text);
    assert(all.update(n, z) =~= before.push(z) + after);
}

proof fn lemma_no_index(jobs: Seq<JobView>, id: Seq<char>)
    requires
        forall|k: int| 0 <= k < jobs.len() ==> (#[trigger] jobs[k]).id != id,
    ensures
        index_of_id(jobs, id) == jobs.len(),
    decreases jobs.len(),
{
    if jobs.len() > 0 {
        assert forall|k: int| 0 <= k < jobs.skip(1).len() implies (#[trigger] jobs.skip(1)[k]).id
            != id by {
            assert(jobs.skip(1)[k] == jobs[k + 1]);
        }
        lemma_no_index(jobs.skip(1), id);
    }
}

proof fn lemma_first_index(before: Seq<JobView>, j: JobView, after: Seq<JobView>)
    requires
        forall|k: int| 0 <= k < before.len() ==> (#[trigger] before[k]).id != j.id,
    ensures
        index_of_id(before.push(j) + after, j.id) == before.len(),
    decreases before.len(),
{
    let all = before.push(j) + after;
    if before.len() == 0 {
        assert(all[0] == j);
    } else {
        assert(all[0] == before[0]);
        assert(all.skip(1) =~= before.skip(1).push(j) + after);
        assert forall|k: int| 0 <= k < before.skip(1).len() implies (#[trigger] before.skip(
            1,
        )[k]).id != j.id by {
            assert(before.skip(1)[k] == before[k + 1]);
        }
        lemma_first_index(before.skip(1), j, after);
    }
}

/// Enabling or disabling is the update that does nothing else.
pub proof fn law_switching_is_an_update(
    j: JobView,
    id: Seq<char>,
    u: JobUpdate,
    enabled: bool,
    timezone: Seq<char>,
    now: UtcInstant,
    now_text: Seq<char>,
)
    requires
        crate::scheduling::job::is_empty_update((JobUpdate { enabled: None, ..u })),
        u.enabled == Some(enabled),
    ensures
        switched(j, enabled, timezone, now) == update_outcome(
            j,
            id,
            u,
            timezone,
            now,
            now_text,
        ).0,
{
}

/// A new job keeps what it was given. Without an id it gets the fresh one, without a
/// time of creation the present one, and its next run is the first that its schedule
/// has after now.
pub proof fn law_a_new_job_is_kept_as_given(
    j: JobView,
    fresh_id: Seq<char>,
    timezone: Seq<char>,
    now: UtcInstant,
    now_text: Seq<char>,
)
    ensures
        ({
            let r = stored_job(j, fresh_id, timezone, now, now_text);
            &&& r == (JobView {
                id: r.id,
                created_at: r.created_at,
                next_run_at: r.next_run_at,
                ..j
            })
            &&& j.id.len() > 0 ==> r.id == j.id
            &&& j.id.len() == 0 ==> r.id == fresh_id
            &&& j.created_at is Some ==> r.created_at == j.created_at
            &&& j.created_at is None ==> r.created_at == Some(now_text)
            &&& r.next_run_at == timer_next(
                j.schedule_kind,
                j.schedule,
                None,
                zone_after(None, j.tz, timezone),
                now,
            )
        }),
{
}

// ── The next run ───────────────────────────────────────────────────────────

/// The next run of a job without a last run is the one after now, and that of a job
/// that ran is the one after its last run: a job that last ran at an instant has the
/// next run of one that never ran and is looked at in that instant.
pub proof fn law_the_last_run_stands_for_now(
    kind: Option<KindView>,
    schedule: Option<Seq<char>>,
    ran: Seq<char>,
    tz: Seq<char>,
    at: UtcInstant,
    now: UtcInstant,
)
    requires
        instant_of(ran) == Some(at),
        !(kind matches Some(KindView::At(_))),
    ensures
        timer_next(kind, schedule, Some(ran), tz, now) == timer_next(kind, schedule, None, tz, at),
{
}

/// A cron expression of a job, with its weekdays counted from Sunday as 0, fires where
/// `cron` says that the expression with the weekdays counted from 1 fires next. An
/// unknown zone is taken for UTC.
pub proof fn law_cron_expressions_fire_in_the_zone(
    expr: Seq<char>,
    tz: Seq<char>,
    now: UtcInstant,
)
    requires
        cron_parsed(normalized(expr)) is Ok,
        now.secs <= CRON_HORIZON,
    ensures
        ({
            let zone = if tz_known(tz) {
                tz
            } else {
                "UTC"@
            };
            let next = timer_next(None, Some(expr), None, tz, now);
            &&& match cron_after(normalized(expr), zone, now.secs, now.nanos) {
                Some(t) => next == crate::time::rfc3339_text(t.0, t.1),
                None => next is None,
            }
            &&& timer_next(Some(KindView::Cron(expr)), Some(Seq::empty()), None, tz, now) == next
        }),
{
}

/// A job of a fixed interval runs next that many milliseconds after its last run, or
/// after now if it never ran.
pub proof fn law_intervals_add_up(
    interval_ms: u64,
    schedule: Seq<char>,
    tz: Seq<char>,
    now: UtcInstant,
)
    requires
        0 <= now.secs <= 1_000_000_000_000,
        now.nanos < 1_000_000_000,
        interval_ms <= 1_000_000_000_000_000,
    ensures
        exists|next: UtcInstant|
            next.millis() == now.millis() + interval_ms && next.nanos < 1_000_000_000
                && #[trigger] text_of(next) == timer_next(
                Some(KindView::Every(interval_ms)),
                Some(schedule),
                None,
                tz,
                now,
            ),
{
    let ms: int = now.millis() + interval_ms as int;
    assert(crate::time::wrapped_i64(ms) == ms);
    let next = crate::time::instant_of_millis(ms);
    assert(next.secs == ms / 1000);
    assert(next.nanos == (ms % 1000) * 1_000_000);
    assert(next.millis() == ms);
    assert(text_of(next) == timer_next(
        Some(KindView::Every(interval_ms)),
        Some(schedule),
        None,
        tz,
        now,
    ));
}

/// A one-shot job that never ran runs next at its time, whatever the present time is.
pub proof fn law_one_shots_run_at_their_time(
    at: Seq<char>,
    schedule: Seq<char>,
    tz: Seq<char>,
    now: UtcInstant,
    t: UtcInstant,
)
    requires
        instant_of(at) == Some(t),
    ensures
        timer_next(Some(KindView::At(at)), Some(schedule), None, tz, now) == text_of(t),
{
}

/// A job is due exactly if it is enabled, has a schedule, its next run is not to come,
/// and the local time lies within its active hours.
pub proof fn law_due_jobs(j: JobView, timezone: Seq<char>, now: UtcInstant, t: UtcInstant)
    requires
        j.next_run_at is Some,
        instant_of(j.next_run_at->0) == Some(t),
        t.nanos < 1_000_000_000,
        now.nanos < 1_000_000_000,
    ensures
        timer_due(j, timezone, now) == (j.enabled && j.schedule is Some && t.total()
            <= now.total() && active_at(j.active_hours, zone_after(None, j.tz, timezone), now)),
{
}

/// A job without a next run, or with one that cannot be read, is not due.
pub proof fn law_no_next_run_is_never_due(j: JobView, timezone: Seq<char>, now: UtcInstant)
    requires
        j.next_run_at is None || instant_of(j.next_run_at->0) is None,
    ensures
        !timer_due(j, timezone, now),
{
}

/// Within active hours, from the start on and up to the end, jobs run; outside they do
/// not. Hours that cannot be read do not count.
pub proof fn law_active_hours(
    hours: Seq<char>,
    tz: Seq<char>,
    now: UtcInstant,
    start: nat,
    end: nat,
    hour: u32,
    minute: u32,
)
    requires
        hours_range(hours) == Some((start, end)),
        tz_known(tz),
        local_hm(tz, now.secs, now.nanos) == Some((hour, minute)),
    ensures
        active_at(Some(hours), tz, now) == (start <= hour * 60 + minute && hour * 60 + minute
            < end),
        active_at(None, tz, now),
{
}

/// Hours that cannot be read do not restrict a job; where the local time is not known, hours
/// that can be read keep it from running. A zone that is not known stands for universal
/// time.
pub proof fn law_hours_that_cannot_be_told(hours: Seq<char>, tz: Seq<char>, now: UtcInstant)
    ensures
        hours_range(hours) is None ==> active_at(Some(hours), tz, now),
        hours_range(hours) is Some && tz_known(tz) && local_hm(tz, now.secs, now.nanos) is None
            ==> !active_at(Some(hours), tz, now),
        !tz_known(tz) && tz_known("UTC"@) ==> active_at(Some(hours), tz, now) == active_at(
            Some(hours),
            "UTC"@,
            now,
        ),
{
}

// ── Runs ───────────────────────────────────────────────────────────────────

/// A run is booked under the time of its record, as the newest of at most ten kept
/// records, and is counted; one that succeeded counts among the successes too. Its
/// failures in a row go up by one, go back to none on success, and stay on a skipped
/// run unless skips count as failures.
pub proof fn law_a_run_is_booked(
    j: JobView,
    record: RunRecordView,
    timezone: Seq<char>,
    now: UtcInstant,
    now_text: Seq<char>,
)
    requires
        can_count(j),
    ensures
        ({
            let r = after_run(j, record, timezone, now, now_text);
            let all = j.last_runs.push(record);
            &&& r.last_run_at == Some(record.run_at)
            &&& r.last_runs.len() == (if all.len() < 10 {
                all.len()
            } else {
                10
            })
            &&& r.last_runs == all.skip(all.len() - r.last_runs.len())
            &&& r.completed_runs == j.completed_runs + 1
            &&& record.status == RunStatus::Succeeded ==> r.successful_runs == j.successful_runs + 1
            &&& record.status != RunStatus::Succeeded ==> r.successful_runs == j.successful_runs
            &&& record.status == RunStatus::Succeeded ==> r.consecutive_errors == 0
            &&& (record.status == RunStatus::Error || record.status == RunStatus::Timeout)
                ==> r.consecutive_errors == j.consecutive_errors + 1
            &&& record.status == RunStatus::Skipped ==> r.consecutive_errors
                == j.consecutive_errors + (if j.failure_alert is Some
                && j.failure_alert->0.include_skipped {
                1int
            } else {
                0int
            })
            &&& record.status == RunStatus::Skipped ==> r.consecutive_skipped
                == j.consecutive_skipped + 1
            &&& record.status != RunStatus::Skipped ==> r.consecutive_skipped == 0
        }),
{
    let all = j.last_runs.push(record);
    assert(all.skip(0) =~= all);
}

/// A run changes nothing of a job but when it ran, when it runs next, whether it still
/// may, its counts and its history.
pub proof fn law_a_run_keeps_the_job(
    j: JobView,
    record: RunRecordView,
    timezone: Seq<char>,
    now: UtcInstant,
    now_text: Seq<char>,
)
    ensures
        ({
            let r = after_run(j, record, timezone, now, now_text);
            r == (JobView {
                last_run_at: r.last_run_at,
                next_run_at: r.next_run_at,
                enabled: r.enabled,
                last_runs: r.last_runs,
                consecutive_errors: r.consecutive_errors,
                consecutive_skipped: r.consecutive_skipped,
                completed_runs: r.completed_runs,
                successful_runs: r.successful_runs,
                last_failure_alert_at: r.last_failure_alert_at,
                ..j
            })
        }),
{
}

/// A run that reaches the limit of successes ends a job: it is disabled and has no
/// next run, unless it is to be deleted. Any other run leaves an enabled job enabled,
/// if it is no one-shot job, with the next run that follows the one booked.
pub proof fn law_runs_up_to_the_limit(
    j: JobView,
    record: RunRecordView,
    timezone: Seq<char>,
    now: UtcInstant,
    now_text: Seq<char>,
)
    requires
        can_count(j),
    ensures
        ({
            let r = after_run(j, record, timezone, now, now_text);
            let full = j.max_runs is Some && r.successful_runs >= j.max_runs->0
                && !j.delete_after_run;
            &&& full ==> !r.enabled && r.next_run_at is None
            &&& !full && !(j.schedule_kind matches Some(KindView::At(_))) ==> r.enabled
                == j.enabled
            &&& !full ==> r.next_run_at == timer_next(
                j.schedule_kind,
                j.schedule,
                Some(record.run_at),
                zone_after(None, j.tz, timezone),
                now,
            )
            &&& j.schedule_kind matches Some(KindView::At(_)) ==> !r.enabled
        }),
{
}

/// An alert is sent exactly if one is asked for, as many failures in a row have come
/// as it asks for, and the last alert, if there was one, lies at least as far back as
/// the cooldown. The time of an alert is remembered, and nothing else changes it.
pub proof fn law_alerts(
    j: JobView,
    record: RunRecordView,
    timezone: Seq<char>,
    now: UtcInstant,
    now_text: Seq<char>,
    last: UtcInstant,
)
    requires
        can_count(j),
        j.last_failure_alert_at is Some ==> instant_of(j.last_failure_alert_at->0) == Some(last),
    ensures
        ({
            let r = after_run(j, record, timezone, now, now_text);
            let wanted = j.failure_alert is Some && r.consecutive_errors
                >= j.failure_alert->0.after && (j.last_failure_alert_at is None || now.total()
                - last.total() >= j.failure_alert->0.cooldown_secs * 1_000_000_000);
            &&& alerts(j, record.status, now) == wanted
            &&& wanted ==> r.last_failure_alert_at == Some(now_text)
            &&& !wanted ==> r.last_failure_alert_at == j.last_failure_alert_at
            &&& (booked_jobs(seq![j], j.id, record, timezone, now, now_text).1 is Some) == wanted
        }),
{
    assert(seq![j][0] == j);
    assert(index_of_id(seq![j], j.id) == 0);
}

proof fn lemma_alert_words()
    ensures
        "⚠️ Cron job '"@ == "⚠️ Cron job '"@.drop_last() + "'"@,
        "' ("@ == "'"@ + "' ("@.skip(1),
        "' ("@ == "' ("@.drop_last() + "("@,
        ") has failed "@ == ")"@ + ") has failed "@.skip(1),
        ") has failed "@ == ") has failed "@.take(5) + " failed "@,
        " consecutive times. Last error: "@ == " "@ + " consecutive times. Last error: "@.skip(1),
        " consecutive times. Last error: "@ == " consecutive times. Last error: "@.take(25)
            + "error: "@,
{
    reveal_strlit("⚠️ Cron job '");
    reveal_strlit("' (");
    reveal_strlit(") has failed ");
    reveal_strlit(" consecutive times. Last error: ");
    reveal_strlit("'");
    reveal_strlit("(");
    reveal_strlit(")");
    reveal_strlit(" failed ");
    reveal_strlit(" ");
    reveal_strlit("error: ");
    assert("⚠️ Cron job '"@ =~= "⚠️ Cron job '"@.drop_last() + "'"@);
    assert("' ("@ =~= "'"@ + "' ("@.skip(1));
    assert("' ("@ =~= "' ("@.drop_last() + "("@);
    assert(") has failed "@ =~= ")"@ + ") has failed "@.skip(1));
    assert(") has failed "@ =~= ") has failed "@.take(5) + " failed "@);
    assert(" consecutive times. Last error: "@ =~= " "@ + " consecutive times. Last error: "@.skip(
        1,
    ));
    assert(" consecutive times. Last error: "@ =~= " consecutive times. Last error: "@.take(25)
        + "error: "@);
}

/// A text with a joint: what stands between two words is found with the end of the one
/// and the beginning of the other.
proof fn lemma_joint(
    t: Seq<char>,
    p: Seq<char>,
    left: Seq<char>,
    k: int,
    q: Seq<char>,
    x: Seq<char>,
    right: Seq<char>,
    r: Seq<char>,
    rest: Seq<char>,
)
    requires
        t == p + left + x + right + rest,
        left == left.take(k) + q,
        right == r + right.skip(r.len() as int),
    ensures
        has_text(t, q + x + r),
{
    let a = left.take(k);
    let b = right.skip(r.len() as int);
    assert(p + (a + q) + x + (r + b) + rest =~= (p + a) + q + x + (r + (b + rest)));
    lemma_holds_around(t, p + a, q, x, r, b + rest);
}

/// The eight parts of an alert, with words at the joints.
proof fn lemma_alert_parts(
    t: Seq<char>,
    w1: Seq<char>,
    name: Seq<char>,
    w2: Seq<char>,
    id: Seq<char>,
    w3: Seq<char>,
    n: Seq<char>,
    w4: Seq<char>,
    said: Seq<char>,
    quote: Seq<char>,
    open: Seq<char>,
    close: Seq<char>,
    failed: Seq<char>,
    blank: Seq<char>,
    error: Seq<char>,
)
    requires
        t == w1 + name + w2 + id + w3 + n + w4 + said,
        w1 == w1.take(w1.len() - 1) + quote,
        w2 == quote + w2.skip(quote.len() as int),
        w2 == w2.take(w2.len() - 1) + open,
        w3 == close + w3.skip(close.len() as int),
        w3 == w3.take(5) + failed,
        w4 == blank + w4.skip(blank.len() as int),
        w4 == w4.take(25) + error,
    ensures
        has_text(t, quote + name + quote),
        has_text(t, open + id + close),
        has_text(t, failed + n + blank),
        has_text(t, error + said),
{
    let e = Seq::<char>::empty();
    let from_said = said;
    let from_n = n + w4 + from_said;
    let from_id = id + w3 + from_n;
    assert(t =~= w1 + name + w2 + from_id);
    assert(t =~= e + w1 + name + w2 + from_id);
    lemma_joint(t, e, w1, w1.len() - 1, quote, name, w2, quote, from_id);
    let to_name = w1 + name;
    assert(t =~= to_name + w2 + id + w3 + from_n);
    lemma_joint(t, to_name, w2, w2.len() - 1, open, id, w3, close, from_n);
    let to_id = w1 + name + w2 + id;
    lemma_joint(t, to_id, w3, 5, failed, n, w4, blank, said);
    let to_n = to_id + w3 + n;
    assert(t =~= to_n + w4 + said + e + e);
    assert(e =~= e + e.skip(0));
    lemma_joint(t, to_n, w4, 25, error, said, e, e, e);
    assert(error + said + e =~= error + said);
}

/// An alert names the job, by its id too, says how often in a row it failed, and gives
/// the last error.
pub proof fn law_an_alert_says_what_failed(
    j: JobView,
    record: RunRecordView,
    timezone: Seq<char>,
    now: UtcInstant,
    now_text: Seq<char>,
)
    requires
        can_count(j),
    ensures
        j.name is Some ==> has_text(alert_text(j, record), "'"@ + j.name->0 + "'"@),
        has_text(alert_text(j, record), "("@ + j.id + ")"@),
        has_text(
            alert_text(j, record),
            " failed "@ + decimal(
                after_run(j, record, timezone, now, now_text).consecutive_errors as nat,
            ) + " "@,
        ),
        record.error is Some ==> has_text(alert_text(j, record), "error: "@ + record.error->0),
        booked_jobs(seq![j], j.id, record, timezone, now, now_text).1 is Some
            ==> booked_jobs(seq![j], j.id, record, timezone, now, now_text).1 == Some(
            alert_text(j, record),
        ),
{
    lemma_alert_words();
    let name = match j.name {
        Some(n) => n,
        None => j.id,
    };
    let said = match record.error {
        Some(e) => e,
        None => "unknown"@,
    };
    let n = decimal(after_run(j, record, timezone, now, now_text).consecutive_errors as nat);
    lemma_alert_parts(
        alert_text(j, record),
        "⚠️ Cron job '"@,
        name,
        "' ("@,
        j.id,
        ") has failed "@,
        n,
        " consecutive times. Last error: "@,
        said,
        "'"@,
        "("@,
        ")"@,
        " failed "@,
        " "@,
        "error: "@,
    );
    assert(seq![j][0] == j);
    assert(index_of_id(seq![j], j.id) == 0);
}

/// A refused request to run a job at once names the job.
pub proof fn law_refusals_name_the_job(id: Seq<char>, name: Option<Seq<char>>)
    ensures
        has_text(error_text(SchedulerErrorView::Paused(id)), "'"@ + id + "' is paused"@),
        has_text(error_text(SchedulerErrorView::NoSchedule(id, name)), "'"@ + id + "' has no schedule"@),
        name is Some ==> has_text(
            error_text(SchedulerErrorView::NoSchedule(id, name)),
            "/hooks/"@ + name->0 + " "@,
        ),
{
    reveal_strlit("job '");
    reveal_strlit("' is paused; resume it first");
    reveal_strlit("' is paused");
    reveal_strlit("'");
    reveal_strlit("' has no schedule (webhook-only): 'run' needs a timer channel — POST its /hooks/");
    reveal_strlit("' has no schedule");
    reveal_strlit("/hooks/");
    reveal_strlit(" route instead");
    reveal_strlit(" ");
    reveal_strlit("?");
    let w = "job '"@;
    let quote = "'"@;
    let e = Seq::<char>::empty();
    let p = "' is paused; resume it first"@;
    let t1 = error_text(SchedulerErrorView::Paused(id));
    assert(w =~= w.drop_last() + quote);
    assert(p =~= "' is paused"@ + p.skip(11));
    lemma_holds_around(t1, w.drop_last(), quote, id, "' is paused"@, p.skip(11));
    let n = "' has no schedule (webhook-only): 'run' needs a timer channel — POST its /hooks/"@;
    let r = " route instead"@;
    let shown = match name {
        Some(x) => x,
        None => "?"@,
    };
    let t2 = error_text(SchedulerErrorView::NoSchedule(id, name));
    let q = "' has no schedule"@;
    assert(n =~= q + n.skip(17));
    let c = n.skip(17) + shown + r;
    assert(t2 =~= w.drop_last() + quote + id + (q + c)) by {
        assert(q + c =~= (q + n.skip(17)) + shown + r);
    }
    lemma_holds_around(t2, w.drop_last(), quote, id, q, c);
    let k = n.len() - 7;
    assert(n =~= n.take(k) + "/hooks/"@);
    assert(r =~= " "@ + r.skip(1));
    assert(t2 =~= (w + id + n.take(k)) + "/hooks/"@ + shown + (" "@ + r.skip(1))) by {
        assert((w + id + n.take(k)) + "/hooks/"@ =~= w + id + (n.take(k) + "/hooks/"@));
    }
    lemma_holds_around(t2, w + id + n.take(k), "/hooks/"@, shown, " "@, r.skip(1));
}

// ── Ticks ──────────────────────────────────────────────────────────────────

/// The jobs that a tick sets off are the due ones, each once, in their order.
pub proof fn law_due_jobs_are_set_off_in_order(
    a: Seq<JobView>,
    b: Seq<JobView>,
    j: JobView,
    timezone: Seq<char>,
    now: UtcInstant,
)
    ensures
        due_triggers_of(a + b, timezone, now) == due_triggers_of(a, timezone, now)
            + due_triggers_of(b, timezone, now),
        timer_due(j, timezone, now) ==> due_triggers_of(seq![j], timezone, now).len() == 1,
        !timer_due(j, timezone, now) ==> due_triggers_of(seq![j], timezone, now).len() == 0,
    decreases b.len(),
{
    reveal_with_fuel(due_triggers_of, 2);
    assert(seq![j].drop_last() =~= Seq::<JobView>::empty());
    assert(seq![j].last() == j);
    if b.len() == 0 {
        assert(a + b =~= a);
        assert(due_triggers_of(a, timezone, now) + due_triggers_of(b, timezone, now)
            =~= due_triggers_of(a, timezone, now));
    } else {
        assert((a + b).drop_last() =~= a + b.drop_last());
        assert((a + b).last() == b.last());
        law_due_jobs_are_set_off_in_order(a, b.drop_last(), j, timezone, now);
        assert(due_triggers_of(a + b, timezone, now) =~= due_triggers_of(a, timezone, now)
            + due_triggers_of(b, timezone, now));
    }
}

/// A job is set off with its own prompt, model, policy and recipient, under its id.
pub proof fn law_a_trigger_carries_the_job(j: JobView, timezone: Seq<char>, now: UtcInstant)
    requires
        timer_due(j, timezone, now),
    ensures
        ({
            let t = due_triggers_of(seq![j], timezone, now)[0];
            &&& t.prompt == j.prompt
            &&& t.job_id == j.id
            &&& t.model == j.model
            &&& t.context_policy == j.context_policy
            &&& t.target_recipient == (if j.delivery is Some {
                opt_text(j.delivery->0.to)
            } else {
                None
            })
            &&& t.session_key == session_key_of(j.id)
        }),
{
    reveal_with_fuel(due_triggers_of, 2);
    assert(seq![j].drop_last() =~= Seq::<JobView>::empty());
    assert(seq![j].last() == j);
}

/// The conversation of a job is named after the last part of its id.
pub proof fn law_conversations_of_jobs(head: Seq<char>, bare: Seq<char>)
    requires
        !bare.contains('/'),
    ensures
        session_key_of(head.push('/') + bare) == "_job_"@ + bare,
        session_key_of(bare) == "_job_"@ + bare,
    decreases bare.len(),
{
    lemma_bare(head, bare);
}

proof fn lemma_bare(head: Seq<char>, bare: Seq<char>)
    requires
        !bare.contains('/'),
    ensures
        crate::scheduling::scheduler::bare_name(head.push('/') + bare) == bare,
        crate::scheduling::scheduler::bare_name(bare) == bare,
    decreases bare.len(),
{
    let all = head.push('/') + bare;
    if bare.len() == 0 {
        assert(all.last() == '/');
        assert(bare =~= Seq::<char>::empty());
    } else {
        assert(all.last() == bare.last());
        assert(bare[bare.len() - 1] == bare.last());
        assert(bare.contains(bare.last()));
        assert(all.drop_last() =~= head.push('/') + bare.drop_last());
        assert(!bare.drop_last().contains('/')) by {
            if bare.drop_last().contains('/') {
                let k = choose|k: int| 0 <= k < bare.drop_last().len() && bare.drop_last()[k] == '/';
                assert(bare[k] == '/');
            }
        }
        lemma_bare(head, bare.drop_last());
        assert(bare.drop_last().push(bare.last()) =~= bare);
    }
}

/// A job that was set off has now as its last run and as its next run the one that
/// follows; nothing else of it changes.
pub proof fn law_a_started_job_is_due_later(
    j: JobView,
    timezone: Seq<char>,
    now: UtcInstant,
    now_text: Seq<char>,
)
    ensures
        started(j, timezone, now, now_text) == (JobView {
            last_run_at: Some(now_text),
            next_run_at: timer_next(
                j.schedule_kind,
                j.schedule,
                Some(now_text),
                zone_after(None, j.tz, timezone),
                now,
            ),
            ..j
        }),
{
}

/// Jobs none of which was set off stay as they are.
pub proof fn law_a_tick_leaves_the_others_alone(
    jobs: Seq<JobView>,
    triggers: Seq<TriggerView>,
    timezone: Seq<char>,
    now: UtcInstant,
    now_text: Seq<char>,
    k: int,
)
    requires
        0 <= k < jobs.len(),
        forall|i: int| 0 <= i < triggers.len() ==> (#[trigger] triggers[i]).job_id != jobs[k].id,
    ensures
        with_all_started(jobs, triggers, timezone, now, now_text).len() == jobs.len(),
        with_all_started(jobs, triggers, timezone, now, now_text)[k] == jobs[k],
    decreases triggers.len(),
{
    if triggers.len() > 0 {
        let fewer = triggers.drop_last();
        assert forall|i: int| 0 <= i < fewer.len() implies (#[trigger] fewer[i]).job_id
            != jobs[k].id by {
            assert(fewer[i] == triggers[i]);
        }
        law_a_tick_leaves_the_others_alone(jobs, fewer, timezone, now, now_text, k);
        let before = with_all_started(jobs, fewer, timezone, now, now_text);
        let id = triggers.last().job_id;
        assert(triggers[triggers.len() - 1].job_id == id);
        lemma_index_names(before, id);
    }
}

proof fn lemma_index_names(jobs: Seq<JobView>, id: Seq<char>)
    ensures
        0 <= index_of_id(jobs, id) <= jobs.len(),
        index_of_id(jobs, id) < jobs.len() ==> jobs[index_of_id(jobs, id)].id == id,
    decreases jobs.len(),
{
    if jobs.len() > 0 && jobs[0].id != id {
        lemma_index_names(jobs.skip(1), id);
        if index_of_id(jobs.skip(1), id) < jobs.skip(1).len() {
            assert(jobs.skip(1)[index_of_id(jobs.skip(1), id)] == jobs[index_of_id(jobs, id)]);
        }
    }
}

} // verus!
