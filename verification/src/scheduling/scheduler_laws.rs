//! What holds of the scheduler as a whole.

use crate::order::{lemma_before_total, lemma_not_before_transitive, text_before};
use crate::scheduling::cron_loader::cron_job_of;
use crate::scheduling::cron_store::MarkdownFile;
use crate::scheduling::job::{is_slug, JobUpdate, JobView};
use crate::scheduling::job_state::{used_up, SchedulerErrorView};
use crate::scheduling::scheduler::{
    booked_jobs, claimed_route, due_triggers_of, finished_ids, index_of_id, inserted_by_id,
    lemma_index_of_id_props, migrated_prompts, named, prepared, route_taken, trigger_of,
    updated_jobs, webhooks_of, with_all_started, without, without_all, TriggerView,
};
use crate::scheduling::cron_types::RunRecordView;
use crate::time::UtcInstant;
use vstd::prelude::*;

verus! {

/// An update leaves the number of jobs, their ids, and every other job as they
/// were.
pub proof fn law_update_touches_one_job(
    jobs: Seq<JobView>,
    id: Seq<char>,
    u: JobUpdate,
    timezone: Seq<char>,
    now: UtcInstant,
    now_text: Seq<char>,
)
    ensures
        updated_jobs(jobs, id, u, timezone, now, now_text).0.len() == jobs.len(),
        forall|k: int|
            0 <= k < jobs.len() ==> (#[trigger] updated_jobs(
                jobs,
                id,
                u,
                timezone,
                now,
                now_text,
            ).0[k]).id == jobs[k].id,
        forall|k: int|
            0 <= k < jobs.len() && k != index_of_id(jobs, id) ==> #[trigger] updated_jobs(
                jobs,
                id,
                u,
                timezone,
                now,
                now_text,
            ).0[k] == jobs[k],
{
    lemma_index_of_id_props(jobs, id);
}

/// Booking a run leaves the number of jobs, their ids, and every other job as
/// they were.
pub proof fn law_booking_touches_one_job(
    jobs: Seq<JobView>,
    id: Seq<char>,
    record: RunRecordView,
    timezone: Seq<char>,
    now: UtcInstant,
    now_text: Seq<char>,
)
    ensures
        booked_jobs(jobs, id, record, timezone, now, now_text).0.len() == jobs.len(),
        forall|k: int|
            0 <= k < jobs.len() ==> (#[trigger] booked_jobs(
                jobs,
                id,
                record,
                timezone,
                now,
                now_text,
            ).0[k]).id == jobs[k].id,
        forall|k: int|
            0 <= k < jobs.len() && k != index_of_id(jobs, id) ==> #[trigger] booked_jobs(
                jobs,
                id,
                record,
                timezone,
                now,
                now_text,
            ).0[k] == jobs[k],
{
    lemma_index_of_id_props(jobs, id);
}

/// A job that is to run at once and is disabled is refused as paused.
pub proof fn law_paused_job_is_not_triggered(
    jobs: Seq<JobView>,
    id: Seq<char>,
    u: JobUpdate,
    timezone: Seq<char>,
    now: UtcInstant,
    now_text: Seq<char>,
)
    requires
        u.trigger_now,
        u.enabled is None,
        index_of_id(jobs, id) < jobs.len(),
        !jobs[index_of_id(jobs, id)].enabled,
    ensures
        updated_jobs(jobs, id, u, timezone, now, now_text).1 == Err::<bool, SchedulerErrorView>(
            SchedulerErrorView::Paused(id),
        ),
{
}

/// Removing an id removes exactly the jobs that have it.
pub proof fn law_remove_exactly_the_id(jobs: Seq<JobView>, id: Seq<char>, j: JobView)
    ensures
        without(jobs, id).contains(j) == (jobs.contains(j) && j.id != id),
    decreases jobs.len(),
{
    if jobs.len() > 0 {
        let rest = jobs.drop_last();
        law_remove_exactly_the_id(rest, id, j);
        lemma_contains_last(jobs, j);
        if jobs.last().id != id {
            lemma_contains_last(without(jobs, id), j);
            assert(without(jobs, id).drop_last() =~= without(rest, id));
        }
    }
}

proof fn lemma_contains_last(v: Seq<JobView>, j: JobView)
    requires
        v.len() > 0,
    ensures
        v.contains(j) == (v.drop_last().contains(j) || v.last() == j),
{
    if v.contains(j) {
        let i = v.index_of(j);
        if i < v.len() - 1 {
            assert(v.drop_last()[i] == j);
        }
    }
    if v.drop_last().contains(j) {
        let i = v.drop_last().index_of(j);
        assert(v[i] == j);
    }
    if v.last() == j {
        assert(v[v.len() - 1] == j);
    }
}

proof fn lemma_ids_contain_last(v: Seq<Seq<char>>, x: Seq<char>, y: Seq<char>)
    ensures
        v.push(x).contains(y) == (v.contains(y) || x == y),
{
    if v.contains(y) {
        let i = v.index_of(y);
        assert(v.push(x)[i] == y);
    }
    if x == y {
        assert(v.push(x)[v.len() as int] == y);
    }
    if v.push(x).contains(y) {
        let i = v.push(x).index_of(y);
        if i < v.len() {
            assert(v[i] == y);
        }
    }
}

proof fn lemma_finished_ids(jobs: Seq<JobView>, k: int)
    requires
        0 <= k < jobs.len(),
        used_up(jobs[k]),
        jobs[k].delete_after_run,
    ensures
        finished_ids(jobs).contains(jobs[k].id),
    decreases jobs.len(),
{
    let rest = jobs.drop_last();
    if k < rest.len() {
        lemma_finished_ids(rest, k);
        lemma_ids_contain_last(finished_ids(rest), jobs.last().id, jobs[k].id);
    } else {
        lemma_ids_contain_last(finished_ids(rest), jobs.last().id, jobs[k].id);
    }
}

proof fn lemma_without_all(jobs: Seq<JobView>, ids: Seq<Seq<char>>)
    ensures
        forall|i: int|
            0 <= i < without_all(jobs, ids).len() ==> !ids.contains(
                (#[trigger] without_all(jobs, ids)[i]).id,
            ) && jobs.contains(without_all(jobs, ids)[i]),
    decreases jobs.len(),
{
    if jobs.len() > 0 {
        let rest = jobs.drop_last();
        lemma_without_all(rest, ids);
        assert forall|i: int| 0 <= i < without_all(jobs, ids).len() implies !ids.contains(
            (#[trigger] without_all(jobs, ids)[i]).id,
        ) && jobs.contains(without_all(jobs, ids)[i]) by {
            let x = without_all(jobs, ids)[i];
            lemma_contains_last(jobs, x);
            if i < without_all(rest, ids).len() {
                assert(x == without_all(rest, ids)[i]);
            }
        }
    }
}

/// After finished jobs were deleted none is left.
pub proof fn law_no_finished_job_remains(jobs: Seq<JobView>)
    ensures
        forall|i: int|
            0 <= i < without_all(jobs, finished_ids(jobs)).len() ==> !(used_up(
                #[trigger] without_all(jobs, finished_ids(jobs))[i],
            ) && without_all(jobs, finished_ids(jobs))[i].delete_after_run),
{
    let left = without_all(jobs, finished_ids(jobs));
    lemma_without_all(jobs, finished_ids(jobs));
    assert forall|i: int| 0 <= i < left.len() implies !(used_up(#[trigger] left[i])
        && left[i].delete_after_run) by {
        if used_up(left[i]) && left[i].delete_after_run {
            let k = jobs.index_of(left[i]);
            lemma_finished_ids(jobs, k);
        }
    }
}

/// Every route that is served is a slug and none of the built-in routes, has a
/// secret, and is served once.
pub proof fn law_webhook_routes(jobs: Seq<JobView>)
    ensures
        forall|i: int|
            0 <= i < webhooks_of(jobs).len() ==> is_slug((#[trigger] webhooks_of(jobs)[i]).route)
                && webhooks_of(jobs)[i].route != "agent"@ && webhooks_of(jobs)[i].route != "wake"@
                && webhooks_of(jobs)[i].secret.len() > 0 && route_taken(
                jobs,
                webhooks_of(jobs)[i].route,
            ),
        forall|i: int, j: int|
            0 <= i < j < webhooks_of(jobs).len() ==> (#[trigger] webhooks_of(jobs)[i]).route != (
            #[trigger] webhooks_of(jobs)[j]).route,
    decreases jobs.len(),
{
    if jobs.len() > 0 {
        let rest = jobs.drop_last();
        law_webhook_routes(rest);
        let before = webhooks_of(rest);
        let after = webhooks_of(jobs);
        assert forall|r: Seq<char>| route_taken(rest, r) implies #[trigger] route_taken(
            jobs,
            r,
        ) by {
            let k = choose|k: int|
                0 <= k < rest.len() && claimed_route(#[trigger] rest[k]) == Some(r);
            assert(claimed_route(jobs[k]) == Some(r));
        }
        assert forall|i: int| 0 <= i < after.len() implies is_slug((#[trigger] after[i]).route)
            && after[i].route != "agent"@ && after[i].route != "wake"@ && after[i].secret.len() > 0
            && route_taken(jobs, after[i].route) by {
            if i < before.len() {
                assert(after[i] == before[i]);
            } else {
                assert(claimed_route(jobs[jobs.len() - 1]) == Some(after[i].route));
            }
        }
        assert forall|i: int, j: int| 0 <= i < j < after.len() implies (
        #[trigger] after[i]).route != (#[trigger] after[j]).route by {
            assert(after[i] == before[i]);
            if j < before.len() {
                assert(after[j] == before[j]);
            } else {
                assert(route_taken(rest, before[i].route));
                assert(!route_taken(rest, after[j].route));
            }
        }
    }
}

/// A tick leaves the number of jobs and their ids as they were.
pub proof fn law_tick_keeps_ids(
    jobs: Seq<JobView>,
    triggers: Seq<TriggerView>,
    timezone: Seq<char>,
    now: UtcInstant,
    now_text: Seq<char>,
)
    ensures
        with_all_started(jobs, triggers, timezone, now, now_text).len() == jobs.len(),
        forall|k: int|
            0 <= k < jobs.len() ==> (#[trigger] with_all_started(
                jobs,
                triggers,
                timezone,
                now,
                now_text,
            )[k]).id == jobs[k].id,
    decreases triggers.len(),
{
    if triggers.len() > 0 {
        law_tick_keeps_ids(jobs, triggers.drop_last(), timezone, now, now_text);
        let before = with_all_started(jobs, triggers.drop_last(), timezone, now, now_text);
        lemma_index_of_id_props(before, triggers.last().job_id);
    }
}

/// Every trigger of a tick is that of a job that is due.
pub proof fn law_triggers_are_due(
    jobs: Seq<JobView>,
    timezone: Seq<char>,
    now: UtcInstant,
    k: int,
)
    requires
        0 <= k < due_triggers_of(jobs, timezone, now).len(),
    ensures
        exists|i: int|
            0 <= i < jobs.len() && crate::scheduling::job_state::timer_due(
                #[trigger] jobs[i],
                timezone,
                now,
            ) && due_triggers_of(jobs, timezone, now)[k] == trigger_of(jobs[i]),
    decreases jobs.len(),
{
    let rest = jobs.drop_last();
    let before = due_triggers_of(rest, timezone, now);
    if k < before.len() {
        law_triggers_are_due(rest, timezone, now, k);
        let i = choose|i: int|
            0 <= i < rest.len() && crate::scheduling::job_state::timer_due(
                #[trigger] rest[i],
                timezone,
                now,
            ) && before[k] == trigger_of(rest[i]);
        assert(jobs[i] == rest[i]);
    } else {
        assert(jobs[jobs.len() - 1] == jobs.last());
    }
}

/// Whether jobs are in the order of their ids.
pub open spec fn ordered_by_id(v: Seq<JobView>) -> bool {
    forall|i: int, j: int|
        0 <= i < j < v.len() ==> !text_before((#[trigger] v[j]).id, (#[trigger] v[i]).id)
}

proof fn lemma_inserted_ordered(v: Seq<JobView>, x: JobView)
    requires
        ordered_by_id(v),
    ensures
        ordered_by_id(inserted_by_id(v, x)),
        forall|i: int|
            0 <= i < inserted_by_id(v, x).len() ==> (#[trigger] inserted_by_id(v, x)[i]) == x
                || v.contains(inserted_by_id(v, x)[i]),
        inserted_by_id(v, x).len() == v.len() + 1,
    decreases v.len(),
{
    let r = inserted_by_id(v, x);
    if v.len() > 0 && text_before(x.id, v.last().id) {
        let rest = v.drop_last();
        lemma_inserted_ordered(rest, x);
        let p = inserted_by_id(rest, x);
        assert forall|i: int| 0 <= i < r.len() implies (#[trigger] r[i]) == x || v.contains(
            r[i],
        ) by {
            lemma_contains_last(v, r[i]);
            if i < p.len() {
                assert(r[i] == p[i]);
            }
        }
        assert forall|i: int, j: int| 0 <= i < j < r.len() implies !text_before(
            (#[trigger] r[j]).id,
            (#[trigger] r[i]).id,
        ) by {
            if j < p.len() {
                assert(p[i] == r[i] && p[j] == r[j]);
            } else {
                assert(r[i] == p[i]);
                if p[i] == x {
                    lemma_before_total(x.id, v.last().id);
                } else {
                    let k = rest.index_of(p[i]);
                    assert(v[k] == p[i]);
                    assert(!text_before(v[v.len() - 1].id, v[k].id));
                }
            }
        }
    } else {
        assert forall|i: int| 0 <= i < r.len() implies (#[trigger] r[i]) == x || v.contains(
            r[i],
        ) by {
            if i < v.len() {
                assert(v[i] == r[i]);
            }
        }
        assert forall|i: int, j: int| 0 <= i < j < r.len() implies !text_before(
            (#[trigger] r[j]).id,
            (#[trigger] r[i]).id,
        ) by {
            if j == v.len() {
                if i < v.len() - 1 {
                    assert(!text_before(v[v.len() - 1].id, v[i].id));
                    lemma_not_before_transitive(v[i].id, v.last().id, x.id);
                }
            } else {
                assert(v[i] == r[i] && v[j] == r[j]);
            }
        }
    }
}

/// Loaded jobs are in the order of their ids, as many as were loaded.
pub proof fn law_loaded_jobs_are_ordered(jobs: Seq<JobView>)
    ensures
        ordered_by_id(prepared(jobs)),
        prepared(jobs).len() == jobs.len(),
    decreases jobs.len(),
{
    if jobs.len() > 0 {
        law_loaded_jobs_are_ordered(jobs.drop_last());
        lemma_inserted_ordered(prepared(jobs.drop_last()), named(jobs.last()));
    }
}

/// Migrating the same files a second time adds nothing.
pub proof fn law_migration_is_idempotent(
    prompts: Seq<(Option<Seq<char>>, Seq<char>)>,
    files: Seq<MarkdownFile>,
)
    ensures
        migrated_prompts(migrated_prompts(prompts, files), files) == migrated_prompts(
            prompts,
            files,
        ),
{
    lemma_migrated_again(migrated_prompts(prompts, files), files);
    lemma_migrated_holds(prompts, files);
}

proof fn lemma_migrated_holds(
    prompts: Seq<(Option<Seq<char>>, Seq<char>)>,
    files: Seq<MarkdownFile>,
)
    ensures
        forall|i: int|
            0 <= i < files.len() ==> (cron_job_of((#[trigger] files[i]).content@) matches Ok(j)
                ==> migrated_prompts(prompts, files).contains((Some(j.schedule), j.prompt))),
    decreases files.len(),
{
    if files.len() > 0 {
        let rest = files.drop_last();
        lemma_migrated_holds(prompts, rest);
        let before = migrated_prompts(prompts, rest);
        let after = migrated_prompts(prompts, files);
        assert forall|i: int| 0 <= i < files.len() implies (cron_job_of(
            (#[trigger] files[i]).content@,
        ) matches Ok(j) ==> after.contains((Some(j.schedule), j.prompt))) by {
            if i < rest.len() {
                assert(rest[i] == files[i]);
                if let Ok(j) = cron_job_of(files[i].content@) {
                    let k = before.index_of((Some(j.schedule), j.prompt));
                    assert(before[k] == (Some(j.schedule), j.prompt));
                    assert(after[k] == before[k]);
                }
            } else {
                if let Ok(j) = cron_job_of(files[i].content@) {
                    if !before.contains((Some(j.schedule), j.prompt)) {
                        assert(after[after.len() - 1] == (Some(j.schedule), j.prompt));
                    }
                }
            }
        }
    }
}

proof fn lemma_migrated_again(
    prompts: Seq<(Option<Seq<char>>, Seq<char>)>,
    files: Seq<MarkdownFile>,
)
    ensures
        (forall|i: int|
            0 <= i < files.len() ==> (cron_job_of((#[trigger] files[i]).content@) matches Ok(j)
                ==> prompts.contains((Some(j.schedule), j.prompt)))) ==> migrated_prompts(
            prompts,
            files,
        ) == prompts,
    decreases files.len(),
{
    if files.len() > 0 {
        let rest = files.drop_last();
        lemma_migrated_again(prompts, rest);
        if forall|i: int|
            0 <= i < files.len() ==> (cron_job_of((#[trigger] files[i]).content@) matches Ok(j)
                ==> prompts.contains((Some(j.schedule), j.prompt))) {
            assert forall|i: int| 0 <= i < rest.len() implies (cron_job_of(
                (#[trigger] rest[i]).content@,
            ) matches Ok(j) ==> prompts.contains((Some(j.schedule), j.prompt))) by {
                assert(rest[i] == files[i]);
            }
            assert(files.last() == files[files.len() - 1]);
        }
    }
}

} // verus!
