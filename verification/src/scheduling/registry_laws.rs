//! What is served, listed and taken over of the registered jobs.

use vstd::prelude::*;

use crate::order::text_before;
use crate::scheduling::cron_loader::cron_job_of;
use crate::scheduling::cron_store::MarkdownFile;
use crate::scheduling::cron_types::RunRecord;
use crate::scheduling::job::{is_slug, JobView};
use crate::scheduling::scheduler::{
    bare_name, finished_ids, has_name, inserted_by_id, migrated_jobs, named, newest_first, prepared,
    remembered_text, webhooks_of, without_all,
};
use crate::scheduling::webhook_loader::WebhookAuth;
use crate::text::{opt_text, trimmed};

verus! {

// ── Webhooks ───────────────────────────────────────────────────────────────

/// Whether a job is to be reached by webhook under a route.
pub open spec fn asks_for(j: JobView, route: Seq<char>) -> bool {
    j.webhook is Some && j.name == Some(route)
}

/// A job is served under its name if the name can stand in a route, is not reserved, was
/// asked for by no job before it, and the job has a secret; it is served as it was
/// registered. Other jobs are not served, and the order is that of registration.
pub proof fn law_served_webhooks(jobs: Seq<JobView>, j: JobView, route: Seq<char>)
    ensures
        webhooks_of(Seq::<JobView>::empty()).len() == 0,
        asks_for(j, route) && is_slug(route) && route != "agent"@ && route != "wake"@ && (
        j.webhook->0).secret.len() > 0 && (forall|i: int|
            0 <= i < jobs.len() ==> !asks_for(#[trigger] jobs[i], route)) ==> {
            let r = webhooks_of(jobs.push(j));
            let w = j.webhook->0;
            &&& r.len() == webhooks_of(jobs).len() + 1
            &&& r.drop_last() == webhooks_of(jobs)
            &&& r.last().id == j.id
            &&& r.last().route == route
            &&& r.last().secret == w.secret
            &&& r.last().auth == WebhookAuth::Bearer <==> w.auth == "bearer"@
            &&& r.last().target == j.target
            &&& r.last().prompt_template == j.prompt
            &&& r.last().events == w.events
            &&& r.last().filters == w.filters
            &&& r.last().payload_off == w.payload_off
        },
        j.webhook is None || j.name is None ==> webhooks_of(jobs.push(j)) == webhooks_of(jobs),
        asks_for(j, route) && (!is_slug(route) || route == "agent"@ || route == "wake"@ || (
        j.webhook->0).secret.len() == 0) ==> webhooks_of(jobs.push(j)) == webhooks_of(jobs),
        asks_for(j, route) && (exists|i: int|
            0 <= i < jobs.len() && asks_for(#[trigger] jobs[i], route)) ==> webhooks_of(
            jobs.push(j),
        ) == webhooks_of(jobs),
{
    let all = jobs.push(j);
    assert(all.drop_last() =~= jobs);
    assert(all.last() == j);
    if asks_for(j, route) && (exists|i: int|
        0 <= i < jobs.len() && asks_for(#[trigger] jobs[i], route)) {
        let i = choose|i: int| 0 <= i < jobs.len() && asks_for(#[trigger] jobs[i], route);
        if crate::scheduling::scheduler::claimed_route(j) is Some {
            assert(crate::scheduling::scheduler::claimed_route(jobs[i]) == Some(route));
            assert(crate::scheduling::scheduler::route_taken(jobs, route));
        }
    }
    if asks_for(j, route) && is_slug(route) && route != "agent"@ && route != "wake"@ && (
    j.webhook->0).secret.len() > 0 && (forall|i: int|
        0 <= i < jobs.len() ==> !asks_for(#[trigger] jobs[i], route)) {
        assert(!crate::scheduling::scheduler::route_taken(jobs, route)) by {
            if crate::scheduling::scheduler::route_taken(jobs, route) {
                let i = choose|i: int|
                    0 <= i < jobs.len() && crate::scheduling::scheduler::claimed_route(
                        #[trigger] jobs[i],
                    ) == Some(route);
                assert(!asks_for(jobs[i], route));
            }
        }
        assert(webhooks_of(all).drop_last() =~= webhooks_of(jobs));
    }
}

/// A name can stand in a route if it is one to sixty-four small letters, digits and
/// dashes.
pub proof fn law_names_in_routes(a: Seq<char>, c: char)
    requires
        is_slug(a),
    ensures
        1 <= a.len() <= 64,
        a.len() == 64 ==> !is_slug(a.push(c)),
        is_slug(seq![c]) <==> ('a' <= c <= 'z' || '0' <= c <= '9' || c == '-'),
        a.len() < 64 ==> (is_slug(a.push(c)) <==> ('a' <= c <= 'z' || '0' <= c <= '9' || c == '-')),
        !is_slug(Seq::<char>::empty()),
        is_slug(a) ==> !a.contains('/') && !a.contains(' '),
{
    let t = a.push(c);
    assert(t[a.len() as int] == c);
    assert(seq![c][0] == c);
    if 'a' <= c <= 'z' || '0' <= c <= '9' || c == '-' {
        assert forall|i: int| 0 <= i < t.len() implies crate::scheduling::job::is_slug_char(
            #[trigger] t[i],
        ) by {
            if i < a.len() {
                assert(t[i] == a[i]);
            }
        }
    }
    if a.contains('/') {
        let k = choose|k: int| 0 <= k < a.len() && a[k] == '/';
        assert(crate::scheduling::job::is_slug_char(a[k]));
    }
    if a.contains(' ') {
        let k = choose|k: int| 0 <= k < a.len() && a[k] == ' ';
        assert(crate::scheduling::job::is_slug_char(a[k]));
    }
}

// ── Loaded jobs ────────────────────────────────────────────────────────────

/// The bare name of an id is what stands behind its last slash.
pub proof fn law_bare_names(a: Seq<char>, b: Seq<char>)
    requires
        !b.contains('/'),
    ensures
        bare_name(a.push('/') + b) == b,
        bare_name(b) == b,
    decreases b.len(),
{
    let t = a.push('/') + b;
    if b.len() == 0 {
        assert(t.last() == '/');
        assert(bare_name(t) =~= b);
        assert(bare_name(b) =~= b);
    } else {
        let c = b.drop_last();
        assert(b[b.len() - 1] == b.last());
        assert(b.contains(b.last()));
        assert(!c.contains('/')) by {
            if c.contains('/') {
                let k = choose|k: int| 0 <= k < c.len() && c[k] == '/';
                assert(b[k] == '/');
            }
        }
        law_bare_names(a, c);
        assert(t.last() == b.last());
        assert(t.drop_last() =~= a.push('/') + c);
        assert(c.push(b.last()) =~= b);
    }
}

/// A loaded job keeps its name; one without gets the bare name of its id. Nothing else of
/// it changes.
pub proof fn law_loaded_jobs_have_names(j: JobView)
    ensures
        named(j) == (JobView { name: named(j).name, ..j }),
        j.name is Some && trimmed(j.name->0).len() > 0 ==> named(j) == j,
        j.name is None || trimmed(j.name->0).len() == 0 ==> named(j).name == Some(bare_name(j.id)),
        has_name(j) <==> j.name is Some && trimmed(j.name->0).len() > 0,
{
}

/// Loaded jobs are put in the order of their ids, each behind those that do not come after
/// it, and none is lost.
pub proof fn law_loaded_jobs_are_put_in_order(v: Seq<JobView>, x: JobView)
    ensures
        prepared(v.push(x)) == inserted_by_id(prepared(v), named(x)),
        prepared(Seq::<JobView>::empty()).len() == 0,
        exists|k: int|
            0 <= k <= v.len() && inserted_by_id(v, x) == #[trigger] v.take(k) + seq![x] + v.skip(k)
                && (forall|i: int| k <= i < v.len() ==> text_before(x.id, (#[trigger] v[i]).id)) && (k
                > 0 ==> !text_before(x.id, v[k - 1].id)),
    decreases v.len(),
{
    assert(v.push(x).drop_last() =~= v);
    assert(v.push(x).last() == x);
    if v.len() > 0 && text_before(x.id, v.last().id) {
        let fewer = v.drop_last();
        law_loaded_jobs_are_put_in_order(fewer, x);
        let k = choose|k: int|
            0 <= k <= fewer.len() && inserted_by_id(fewer, x) == #[trigger] fewer.take(k) + seq![x]
                + fewer.skip(k) && (forall|i: int|
                k <= i < fewer.len() ==> text_before(x.id, (#[trigger] fewer[i]).id)) && (k > 0
                ==> !text_before(x.id, fewer[k - 1].id));
        assert(inserted_by_id(v, x) =~= v.take(k) + seq![x] + v.skip(k));
        assert forall|i: int| k <= i < v.len() implies text_before(x.id, (#[trigger] v[i]).id) by {
            if i < fewer.len() {
                assert(fewer[i] == v[i]);
            }
        }
        if k > 0 {
            assert(fewer[k - 1] == v[k - 1]);
        }
    } else {
        let k = v.len() as int;
        assert(v.push(x) =~= v.take(k) + seq![x] + v.skip(k));
    }
}

/// Runs are listed from the newest on, no more than asked for.
pub proof fn law_newest_runs_first(log: Seq<RunRecord>, r: RunRecord, limit: int)
    requires
        limit > 0,
    ensures
        newest_first(log.push(r), limit)[0] == r,
        newest_first(log.push(r), limit).skip(1) == newest_first(log, limit - 1),
        newest_first(log, limit).len() == (if log.len() <= limit {
            log.len() as int
        } else {
            limit
        }),
        newest_first(Seq::<RunRecord>::empty(), limit).len() == 0,
{
    let all = log.push(r);
    assert(all.reverse()[0] == r);
    assert(newest_first(all, limit).skip(1) =~= newest_first(log, limit - 1));
}

/// Jobs are taken out by their ids: exactly those named go, the others keep their order.
pub proof fn law_named_jobs_are_taken_out(
    a: Seq<JobView>,
    b: Seq<JobView>,
    j: JobView,
    ids: Seq<Seq<char>>,
)
    ensures
        without_all(a + b, ids) == without_all(a, ids) + without_all(b, ids),
        ids.contains(j.id) ==> without_all(seq![j], ids).len() == 0,
        !ids.contains(j.id) ==> without_all(seq![j], ids) == seq![j],
        finished_ids(a + b) == finished_ids(a) + finished_ids(b),
        j.delete_after_run && j.max_runs is Some && j.successful_runs >= j.max_runs->0
            ==> finished_ids(seq![j]) == seq![j.id],
        !j.delete_after_run || j.max_runs is None || j.successful_runs < j.max_runs->0
            ==> finished_ids(seq![j]).len() == 0,
    decreases b.len(),
{
    reveal_with_fuel(without_all, 2);
    reveal_with_fuel(finished_ids, 2);
    let none = Seq::<JobView>::empty();
    assert(seq![j].drop_last() =~= none);
    assert(seq![j].last() == j);
    assert(none.push(j) =~= seq![j]);
    assert(Seq::<Seq<char>>::empty().push(j.id) =~= seq![j.id]);
    if b.len() == 0 {
        assert(a + b =~= a);
        assert(without_all(a, ids) + without_all(b, ids) =~= without_all(a, ids));
        assert(finished_ids(a) + finished_ids(b) =~= finished_ids(a));
    } else {
        assert((a + b).drop_last() =~= a + b.drop_last());
        assert((a + b).last() == b.last());
        law_named_jobs_are_taken_out(a, b.drop_last(), j, ids);
        assert(without_all(a + b, ids) =~= without_all(a, ids) + without_all(b, ids));
        assert(finished_ids(a + b) =~= finished_ids(a) + finished_ids(b));
    }
}

/// Files become jobs one by one: a file that cannot be read, or whose schedule and prompt
/// a job has already, adds nothing; another is added last, enabled and never run.
pub proof fn law_files_become_jobs(
    jobs: Seq<JobView>,
    files: Seq<MarkdownFile>,
    f: MarkdownFile,
    namespace: Seq<char>,
    uuids: Seq<Seq<char>>,
)
    ensures
        ({
            let before = migrated_jobs(jobs, files, namespace, uuids);
            let after = migrated_jobs(jobs, files.push(f), namespace, uuids);
            let c = cron_job_of(f.content@);
            let known = exists|i: int|
                0 <= i < before.len() && (#[trigger] before[i]).schedule == Some(c->Ok_0.schedule)
                    && before[i].prompt == c->Ok_0.prompt;
            &&& c is Err || known ==> after == before
            &&& c is Ok && !known ==> after.len() == before.len() + 1 && after.drop_last() == before
                && after.last().id == namespace + "/job/"@ + uuids[files.len() as int]
                && after.last().schedule == Some(c->Ok_0.schedule) && after.last().prompt
                == c->Ok_0.prompt && after.last().target == c->Ok_0.target
                && after.last().active_hours == c->Ok_0.active_hours && after.last().name
                == opt_text(f.stem) && after.last().enabled && after.last().last_run_at is None
                && after.last().schedule_kind is None && after.last().webhook is None
                && after.last().completed_runs == 0 && after.last().successful_runs == 0
                && after.last().max_runs is None && !after.last().delete_after_run
                && after.last().last_runs.len() == 0
        }),
        migrated_jobs(jobs, Seq::<MarkdownFile>::empty(), namespace, uuids) == jobs,
{
    let all = files.push(f);
    assert(all.drop_last() =~= files);
    assert(all.last() == f);
    let before = migrated_jobs(jobs, files, namespace, uuids);
    let c = cron_job_of(f.content@);
    if c is Ok {
        let task = (Some(c->Ok_0.schedule), c->Ok_0.prompt);
        let tasks = crate::scheduling::scheduler::timed_prompts(before);
        if tasks.contains(task) {
            let i = choose|i: int| 0 <= i < tasks.len() && tasks[i] == task;
            assert(before[i].schedule == Some(c->Ok_0.schedule));
        }
        if exists|i: int|
            0 <= i < before.len() && (#[trigger] before[i]).schedule == Some(c->Ok_0.schedule)
                && before[i].prompt == c->Ok_0.prompt {
            let i = choose|i: int|
                0 <= i < before.len() && (#[trigger] before[i]).schedule == Some(c->Ok_0.schedule)
                    && before[i].prompt == c->Ok_0.prompt;
            assert(tasks[i] == task);
        }
        if !tasks.contains(task) {
            assert(migrated_jobs(jobs, all, namespace, uuids).drop_last() =~= before);
        }
    }
}

/// A channel or recipient is remembered without the spaces around it, and not at all if it
/// is blank.
pub proof fn law_remembered_channels(t: Seq<char>)
    ensures
        remembered_text(None) is None,
        trimmed(t).len() > 0 ==> remembered_text(Some(t)) == Some(trimmed(t)),
        trimmed(t).len() == 0 ==> remembered_text(Some(t)) is None,
{
}

} // verus!
