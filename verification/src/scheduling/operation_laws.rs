//! How the operations of the scheduler, the webhooks and their guard relate to one another.

use vstd::prelude::*;

use crate::json::Json;
use crate::scheduling::cron_expr::timer_next;
use crate::scheduling::cron_store::{CronStore, JobsFile};
use crate::scheduling::cron_types::{held_kind, RunRecord, RunStatus};
use crate::scheduling::job::{job_views, JobEntry, JobUpdate, WebhookJobDef};
use crate::scheduling::job_laws::{law_a_new_schedule_sets_the_next_run, zone_after};
use crate::scheduling::job_state::SchedulerError;
use crate::scheduling::scheduler::{
    choose_store, log_place, prune_action, CronTrigger, LogPlace, PruneAction, Scheduler,
};
use crate::scheduling::webhook::{
    agent_hook_gate, answer_wake, body_failure_reply, pass_gate, take_chunk, wake_hook_gate,
    BodyFailure, Gate, Reply, RequestHead,
};
use crate::scheduling::webhook_guard::{recent, InflightGuard, WebhookGuard};
use crate::scheduling::webhook_payload::{
    filter_holds, ignore_reason, is_json_content, takes_content,
};
use crate::text::{opt_str, opt_text, trimmed};
use crate::time::{instant_of, Stamp};

verus! {

// ── Where jobs and logs are ────────────────────────────────────────────────

/// Jobs of the old file count only where no directory has any.
pub proof fn law_directories_count_before_the_old_file(
    dirs: Vec<JobEntry>,
    legacy: Option<Vec<JobEntry>>,
    r: Vec<JobEntry>,
)
    requires
        call_ensures(choose_store, (dirs, legacy), r),
    ensures
        dirs@.len() > 0 ==> r@ == dirs@,
        dirs@.len() == 0 && legacy is Some ==> r@ == legacy->0@,
        dirs@.len() == 0 && legacy is None ==> r@.len() == 0,
{
}

/// The shared log is read only where a job has none of its own.
pub proof fn law_own_logs_count_first(own: bool, shared: bool, r: LogPlace)
    requires
        call_ensures(log_place, (own, shared), r),
    ensures
        own ==> r == LogPlace::PerJob,
        !own && shared ==> r == LogPlace::Shared,
        !own && !shared ==> r == LogPlace::PerJob,
{
}

/// Nothing is removed of a job that remains, nor of what holds none; logs outlive a job.
pub proof fn law_logs_outlive_jobs(holds_job: bool, remains: bool, has_logs: bool, r: PruneAction)
    requires
        call_ensures(prune_action, (holds_job, remains, has_logs), r),
    ensures
        r == PruneAction::Keep <==> !holds_job || remains,
        r == PruneAction::RemoveDirectory ==> !has_logs,
        holds_job && !remains && has_logs ==> r == PruneAction::RemoveMeta,
        holds_job && !remains && !has_logs ==> r == PruneAction::RemoveDirectory,
{
}

// ── The scheduler ──────────────────────────────────────────────────────────

/// A message of a user is remembered with its channel and its address, and what changed is
/// told; the same message again changes neither.
pub proof fn law_the_last_channel_is_remembered(
    a: &mut Scheduler,
    channel: &str,
    target: &str,
    now: u64,
    r: (bool, bool),
    b: &mut Scheduler,
    later: u64,
    again: (bool, bool),
)
    requires
        call_ensures(Scheduler::record_user_message, (a, channel, target, now), r),
        *old(b) == *final(a),
        call_ensures(Scheduler::record_user_message, (b, channel, target, later), again),
    ensures
        r.0 <==> old(a).channel() != Some(channel@),
        r.1 <==> old(a).recipient() != Some(target@),
        final(a).channel() == Some(channel@),
        final(a).recipient() == Some(target@),
        !again.0,
        !again.1,
        final(b).inbound() == later,
        final(b).view_jobs() == old(a).view_jobs(),
{
}

/// Distillation waits until nobody has written for its idle time, and never runs where it
/// is off; it is checked once a minute at most.
pub proof fn law_distillation_waits(
    s: &Scheduler,
    now: u64,
    r: bool,
    later: u64,
    then: bool,
    period: Option<u64>,
)
    requires
        call_ensures(Scheduler::distill_due, (s, now), r),
        call_ensures(Scheduler::distill_due, (s, later), then),
        call_ensures(Scheduler::distill_period, (s,), period),
        now <= later,
    ensures
        s.distill() is None ==> !r && period is None,
        s.distill() is Some && s.inbound() == 0 ==> r,
        s.distill() is Some && s.inbound() > 0 && now >= s.inbound() ==> (r <==> now - s.inbound()
            >= s.distill()->0.idle_secs),
        s.distill() is Some && s.inbound() > now && s.distill()->0.idle_secs > 0 ==> !r,
        r ==> then,
        period is Some ==> period->0 >= 60 && period->0 >= s.distill()->0.interval_secs && (
        period->0 == 60 || period->0 == s.distill()->0.interval_secs),
{
}

/// Jobs are read again exactly when the store was written since, and are then those of the
/// store; nothing else changes.
pub proof fn law_jobs_are_read_again_when_written(
    s: &mut Scheduler,
    mtime: Option<u64>,
    dirs: Vec<JobEntry>,
    legacy: Option<Vec<JobEntry>>,
    r: bool,
    t: &mut Scheduler,
    dirs2: Vec<JobEntry>,
    legacy2: Option<Vec<JobEntry>>,
    again: bool,
)
    requires
        call_ensures(Scheduler::maybe_reload, (s, mtime, dirs, legacy), r),
        *old(t) == *final(s),
        call_ensures(Scheduler::maybe_reload, (t, mtime, dirs2, legacy2), again),
    ensures
        r <==> mtime != old(s).mtime(),
        r && dirs@.len() > 0 ==> final(s).view_jobs() == job_views(dirs@),
        !r ==> final(s).view_jobs() == old(s).view_jobs(),
        !again,
        final(t).view_jobs() == final(s).view_jobs(),
        final(s).channel() == old(s).channel(),
        final(s).inbound() == old(s).inbound(),
{
}

/// A job without a name is refused and changes nothing. Another becomes the last, under the
/// id that is handed back, and can be removed by it.
pub proof fn law_added_jobs_can_be_removed(
    a: &mut Scheduler,
    entry: JobEntry,
    fresh: String,
    stamp: &Stamp,
    r: Result<String, SchedulerError>,
    b: &mut Scheduler,
    id: &str,
    removed: bool,
)
    requires
        call_ensures(Scheduler::add_job_at, (a, entry, fresh, stamp), r),
        *old(b) == *final(a),
        r is Ok ==> id@ == r->Ok_0@,
        call_ensures(Scheduler::remove_job, (b, id), removed),
    ensures
        r is Ok <==> entry.name is Some && trimmed(entry.name->0@).len() > 0,
        r is Err ==> final(a).view_jobs() == old(a).view_jobs(),
        r is Ok ==> final(a).view_jobs().len() == old(a).view_jobs().len() + 1
            && final(a).view_jobs().drop_last() == old(a).view_jobs() && final(a).view_jobs().last().id == r->Ok_0@ && final(a).view_jobs().last().prompt == entry.prompt@
            && final(a).view_jobs().last().enabled == entry.enabled,
        r is Ok ==> removed,
{
    if r is Ok {
        let jobs = final(a).view_jobs();
        assert(jobs.drop_last() =~= old(a).view_jobs());
        lemma_removed_is_fewer(jobs, id@, jobs.len() - 1);
    }
}

proof fn lemma_removed_is_fewer(
    jobs: Seq<crate::scheduling::job::JobView>,
    id: Seq<char>,
    k: int,
)
    requires
        0 <= k < jobs.len(),
        jobs[k].id == id,
    ensures
        crate::scheduling::scheduler::without(jobs, id).len() < jobs.len(),
    decreases jobs.len(),
{
    lemma_removed_is_no_more(jobs.drop_last(), id);
    if k < jobs.len() - 1 {
        assert(jobs.drop_last()[k] == jobs[k]);
        lemma_removed_is_fewer(jobs.drop_last(), id, k);
    }
}

proof fn lemma_removed_is_no_more(jobs: Seq<crate::scheduling::job::JobView>, id: Seq<char>)
    ensures
        crate::scheduling::scheduler::without(jobs, id).len() <= jobs.len(),
    decreases jobs.len(),
{
    if jobs.len() > 0 {
        lemma_removed_is_no_more(jobs.drop_last(), id);
    }
}

/// What a tick sets off is due: an enabled job whose next run is not ahead.
pub proof fn law_ticks_set_off_what_is_due(
    s: &mut Scheduler,
    stamp: &Stamp,
    r: Vec<CronTrigger>,
    k: int,
)
    requires
        call_ensures(Scheduler::tick, (s, stamp), r),
        0 <= k < r@.len(),
    ensures
        exists|i: int|
            0 <= i < old(s).view_jobs().len() && (#[trigger] old(s).view_jobs()[i]).id
                == r@[k].job_id@ && old(s).view_jobs()[i].enabled && old(s).view_jobs()[i].prompt
                == r@[k].prompt@ && old(s).view_jobs()[i].next_run_at is Some && instant_of(
                old(s).view_jobs()[i].next_run_at->0,
            ) is Some && instant_of(old(s).view_jobs()[i].next_run_at->0)->0.secs <= stamp.at.secs,
{
    let views = crate::scheduling::scheduler::trigger_views(r@);
    assert(views[k] == r@[k]@);
    lemma_due(old(s).view_jobs(), old(s).zone_name(), stamp.at, k);
}

proof fn lemma_due(
    jobs: Seq<crate::scheduling::job::JobView>,
    timezone: Seq<char>,
    now: crate::time::UtcInstant,
    k: int,
)
    requires
        0 <= k < crate::scheduling::scheduler::due_triggers_of(jobs, timezone, now).len(),
    ensures
        exists|i: int|
            0 <= i < jobs.len() && crate::scheduling::scheduler::trigger_of(#[trigger] jobs[i])
                == crate::scheduling::scheduler::due_triggers_of(jobs, timezone, now)[k]
                && crate::scheduling::job_state::timer_due(jobs[i], timezone, now),
    decreases jobs.len(),
{
    if jobs.len() > 0 {
        let fewer = jobs.drop_last();
        let before = crate::scheduling::scheduler::due_triggers_of(fewer, timezone, now);
        if k < before.len() {
            lemma_due(fewer, timezone, now, k);
            let i = choose|i: int|
                0 <= i < fewer.len() && crate::scheduling::scheduler::trigger_of(#[trigger] fewer[i])
                    == before[k] && crate::scheduling::job_state::timer_due(
                    fewer[i],
                    timezone,
                    now,
                );
            assert(jobs[i] == fewer[i]);
        } else {
            assert(jobs[jobs.len() - 1] == jobs.last());
        }
    }
}

/// A run of a job that is there is written into its history, last, and counts; a run of a
/// job that is not there changes nothing and tells nothing.
pub proof fn law_runs_are_written_into_the_history(
    s: &mut Scheduler,
    id: &str,
    record: RunRecord,
    stamp: &Stamp,
    r: Option<String>,
    i: int,
)
    requires
        call_ensures(Scheduler::mark_run_result_at, (s, id, record, stamp), r),
        0 <= i < old(s).view_jobs().len(),
        old(s).view_jobs()[i].id == id@,
        forall|j: int| 0 <= j < i ==> (#[trigger] old(s).view_jobs()[j]).id != id@,
        old(s).view_jobs()[i].consecutive_errors < u32::MAX,
        old(s).view_jobs()[i].completed_runs < u32::MAX,
    ensures
        final(s).view_jobs().len() == old(s).view_jobs().len(),
        final(s).view_jobs()[i].last_runs.len() > 0,
        final(s).view_jobs()[i].last_runs.last() == record@,
        final(s).view_jobs()[i].completed_runs == old(s).view_jobs()[i].completed_runs + 1,
        record.status == RunStatus::Succeeded ==> final(s).view_jobs()[i].consecutive_errors == 0,
        record.status == RunStatus::Error ==> final(s).view_jobs()[i].consecutive_errors == old(s).view_jobs()[i].consecutive_errors + 1,
        old(s).view_jobs()[i].failure_alert is None ==> r is None,
        forall|j: int|
            0 <= j < old(s).view_jobs().len() && j != i ==> #[trigger] final(s).view_jobs()[j]
                == old(s).view_jobs()[j],
{
    lemma_first_index(old(s).view_jobs(), id@, i);
}

proof fn lemma_first_index(
    jobs: Seq<crate::scheduling::job::JobView>,
    id: Seq<char>,
    i: int,
)
    requires
        0 <= i < jobs.len(),
        jobs[i].id == id,
        forall|j: int| 0 <= j < i ==> (#[trigger] jobs[j]).id != id,
    ensures
        crate::scheduling::scheduler::index_of_id(jobs, id) == i,
    decreases i,
{
    if i > 0 {
        assert(jobs[0].id != id);
        let rest = jobs.skip(1);
        assert forall|j: int| 0 <= j < i - 1 implies (#[trigger] rest[j]).id != id by {
            assert(rest[j] == jobs[j + 1]);
        }
        lemma_first_index(rest, id, i - 1);
    }
}

/// The file of cron jobs is read again exactly when it is there, was written since and can
/// be read; it counts as read then.
pub proof fn law_the_file_is_read_again_when_written(
    s: &mut CronStore,
    exists_now: bool,
    mtime: Option<u64>,
    parsed: Option<JobsFile>,
    r: bool,
)
    requires
        call_ensures(CronStore::maybe_reload, (s, exists_now, mtime, parsed), r),
    ensures
        !exists_now || parsed is None ==> !r,
        exists_now && parsed is Some && (mtime is None || mtime != old(s).mtime()) ==> r,
        mtime is Some && mtime == old(s).mtime() ==> !r,
        r ==> final(s).entries() == parsed->0.jobs@ && final(s).mtime() == mtime,
        !r ==> final(s).entries() == old(s).entries() && final(s).mtime() == old(s).mtime(),
        final(s).offset() == old(s).offset(),
{
}

// ── Webhooks ───────────────────────────────────────────────────────────────

/// A request to a job is counted exactly if its content type is taken; one that is let in
/// takes a slot of its route, and one that is refused takes none.
pub proof fn law_requests_take_slots(
    job: &WebhookJobDef,
    head: &RequestHead,
    guard: &mut WebhookGuard,
    ip: &str,
    now: u64,
    r: Gate,
)
    requires
        call_ensures(pass_gate, (job, head, guard, ip, now), r),
    ensures
        !takes_content(opt_text(head.content_type)) ==> r is Refused && final(guard).window(
            job.route@,
            ip@,
        ) == old(guard).window(job.route@, ip@),
        takes_content(opt_text(head.content_type)) && recent(
            old(guard).window(job.route@, ip@),
            now,
        ).len() < 120 ==> final(guard).window(job.route@, ip@).len() > 0 && final(guard).window(
            job.route@,
            ip@,
        ).last() == now,
        takes_content(opt_text(head.content_type)) && recent(
            old(guard).window(job.route@, ip@),
            now,
        ).len() >= 120 ==> r is Refused,
        old(guard).running(job.route@) >= 8 ==> r is Refused,
        r is Refused ==> final(guard).running(job.route@) == old(guard).running(job.route@),
        r matches Gate::Admitted(slot) ==> slot.route@ == job.route@ && final(guard).running(
            job.route@,
        ) == old(guard).running(job.route@) + 1,
        final(guard).seen() == old(guard).seen(),
{
}

/// A body grows by each piece, in order, up to its limit; a piece too many is refused and
/// leaves it as it was.
pub proof fn law_bodies_grow_piece_by_piece(
    body: &mut Vec<u8>,
    piece: &[u8],
    r: bool,
    more: &mut Vec<u8>,
    next: &[u8],
    then: bool,
)
    requires
        call_ensures(take_chunk, (body, piece), r),
        *old(more) == *final(body),
        call_ensures(take_chunk, (more, next), then),
    ensures
        r <==> old(body)@.len() + piece@.len() <= 256 * 1024,
        r ==> final(body)@ == old(body)@ + piece@,
        !r ==> final(body)@ == old(body)@,
        r && then ==> final(more)@ == old(body)@ + piece@ + next@,
{
}

/// A body that was not received is answered by what went wrong.
pub proof fn law_bodies_that_failed(f: BodyFailure, r: Reply)
    requires
        call_ensures(body_failure_reply, (f,), r),
    ensures
        f is TooLarge ==> r.status == 413,
        f is TimedOut ==> r.status == 408,
        f is Broken ==> r.status == 400,
{
}

/// The hook of the agent takes JSON from those who bear its secret; the wake hook takes
/// anything from them. Without a secret both are open.
pub proof fn law_hooks_are_for_their_callers(
    content_type: Option<&str>,
    authorization: Option<&str>,
    secret: Option<&str>,
    agent: Option<Reply>,
    wake: Option<Reply>,
)
    requires
        call_ensures(agent_hook_gate, (content_type, authorization, secret), agent),
        call_ensures(wake_hook_gate, (authorization, secret), wake),
    ensures
        secret is None ==> wake is None,
        secret matches Some(key) ==> (wake is None <==> opt_str(authorization) == Some(
            "Bearer "@ + key@,
        )),
        wake is Some ==> wake->0.status == 401,
        agent is None <==> is_json_content(opt_str(content_type)) && wake is None,
        !is_json_content(opt_str(content_type)) ==> agent is Some && agent->0.status == 415,
        is_json_content(opt_str(content_type)) && wake is Some ==> agent is Some && agent->0.status
            == 401,
{
}

/// A wake call is acknowledged exactly if its body is JSON.
pub proof fn law_wake_calls(body: &[u8], r: Reply)
    requires
        call_ensures(answer_wake, (body,), r),
    ensures
        r.status == 200 <==> crate::json::json_parsed(body@) is Some,
        r.status == 200 || r.status == 400,
{
}

/// A slot that was given and returned leaves a route as it was, and a route without free
/// slots gives none.
pub proof fn law_slots_come_back(
    a: &mut WebhookGuard,
    route: &str,
    r: Option<InflightGuard>,
    b: &mut WebhookGuard,
    slot: InflightGuard,
    other: Seq<char>,
)
    requires
        call_ensures(WebhookGuard::acquire, (a, route), r),
        *old(b) == *final(a),
        r is Some,
        slot == r->0,
        call_ensures(WebhookGuard::release, (b, slot), ()),
    ensures
        old(a).running(route@) < 8,
        slot.route@ == route@,
        final(a).running(route@) == old(a).running(route@) + 1,
        final(b).running(route@) == old(a).running(route@),
        final(b).running(other) == old(a).running(other),
        final(b).seen() == old(a).seen(),
{
    if other != route@ {
        assert(final(a).running(other) == old(a).running(other));
        assert(final(b).running(other) == old(b).running(other));
    }
}

/// A delivery is new once: the same again within an hour is not.
pub proof fn law_deliveries_are_new_once(
    a: &mut WebhookGuard,
    id: &str,
    now: u64,
    r: bool,
    b: &mut WebhookGuard,
    later: u64,
    again: bool,
)
    requires
        call_ensures(WebhookGuard::check_delivery_at, (a, id, now), r),
        *old(b) == *final(a),
        call_ensures(WebhookGuard::check_delivery_at, (b, id, later), again),
        r,
        now <= later,
    ensures
        again <==> later - now >= 3600 * 1_000_000_000,
{
}

/// One condition that does not hold is enough for a request to be ignored, whatever the
/// others say.
pub proof fn law_every_condition_must_hold(
    job: &WebhookJobDef,
    event: Option<&str>,
    payload: &Json,
    r: Option<String>,
    i: int,
)
    requires
        call_ensures(ignore_reason, (job, event, payload), r),
        job.filters is Some,
        0 <= i < job.filters->0@.len(),
        !filter_holds(job.filters->0@[i]@, payload@),
    ensures
        r is Some,
{
    let views = crate::scheduling::job::filter_views(job.filters->0@);
    assert(views[i] == job.filters->0@[i]@);
    assert(!filter_holds(views[i], payload@));
}

/// An update that changes a schedule counts the next run anew, from the new schedule,
/// whatever stood there before.
pub proof fn law_new_schedules_count_anew(
    s: &mut Scheduler,
    id: &str,
    u: JobUpdate,
    stamp: &Stamp,
    r: Result<bool, SchedulerError>,
    i: int,
)
    requires
        call_ensures(Scheduler::update_job_at, (s, id, u, stamp), r),
        0 <= i < old(s).view_jobs().len(),
        old(s).view_jobs()[i].id == id@,
        forall|j: int| 0 <= j < i ==> (#[trigger] old(s).view_jobs()[j]).id != id@,
        u.schedule_changed,
        u.enabled is None,
        !u.trigger_now,
    ensures
        r == Ok::<bool, SchedulerError>(true),
        final(s).view_jobs()[i].schedule == opt_text(u.schedule),
        final(s).view_jobs()[i].next_run_at == timer_next(
            held_kind(u.schedule_kind),
            opt_text(u.schedule),
            old(s).view_jobs()[i].last_run_at,
            zone_after(u.tz, old(s).view_jobs()[i].tz, old(s).zone_name()),
            stamp.at,
        ),
        forall|j: int|
            0 <= j < old(s).view_jobs().len() && j != i ==> #[trigger] final(s).view_jobs()[j]
                == old(s).view_jobs()[j],
{
    lemma_first_index(old(s).view_jobs(), id@, i);
    law_a_new_schedule_sets_the_next_run(
        old(s).view_jobs()[i],
        id@,
        u,
        old(s).zone_name(),
        stamp.at,
        stamp.text@,
        None,
    );
}

} // verus!
