//! The scheduler: it owns the jobs, says which are due, and keeps their books.
//!
//! The scheduler holds the jobs in memory; whoever owns it writes them to disk
//! after a change, sends the triggers that it hands out, and gives it what the
//! disk holds when that has changed.

use crate::ids::{fresh_uuid, is_uuid_text};
use crate::order::{comes_before, text_before};
use crate::scheduling::active_hours::{
    parse_target_account, parse_target_channel, target_account, target_channel,
};
use crate::scheduling::cron_loader::{cron_job_of, parse_cron_file};
use crate::scheduling::cron_store::MarkdownFile;
use crate::scheduling::cron_types::{RunRecord, RunRecordView};
use crate::scheduling::job::{
    auth_of, copy_filters, copy_strings, is_route_slug, is_slug, job_views, webhook_views,
    ContextPolicy, DistillConfig, JobEntry, JobUpdate, JobView, WebhookJobDef, WebhookJobView,
};
use crate::scheduling::job_state::{
    after_run, alert_text, alerts, apply_update, book_run, can_count, job_due, next_for, next_of,
    timer_due, update_outcome, used_up, SchedulerError, SchedulerErrorView,
};
use crate::text::{
    chars_of, copy_opt, copy_str, opt_text, piece, same_str, string_of, texts, trim_str, trimmed,
};
use crate::time::{is_reading, read_clock, text_of, Stamp, UtcInstant};
use vstd::prelude::*;

verus! {

/// The jobs and what the scheduler knows of the world.
#[derive(Debug)]
pub struct Scheduler {
    jobs: Vec<JobEntry>,
    namespace: String,
    timezone: String,
    distill_config: Option<DistillConfig>,
    last_mtime: Option<u64>,
    last_inbound: u64,
    last_channel: Option<String>,
    last_recipient: Option<String>,
}

/// A due job, ready to be sent to the agent.
#[derive(Debug)]
pub struct CronTrigger {
    pub session_key: String,
    pub prompt: String,
    pub target_channel: Option<String>,
    pub target_account: Option<String>,
    pub target_recipient: Option<String>,
    pub job_id: String,
    pub model: Option<String>,
    pub context_policy: ContextPolicy,
}

/// The mathematical value of a [`CronTrigger`].
pub struct TriggerView {
    pub session_key: Seq<char>,
    pub prompt: Seq<char>,
    pub target_channel: Option<Seq<char>>,
    pub target_account: Option<Seq<char>>,
    pub target_recipient: Option<Seq<char>>,
    pub job_id: Seq<char>,
    pub model: Option<Seq<char>>,
    pub context_policy: ContextPolicy,
}

impl View for CronTrigger {
    type V = TriggerView;

    open spec fn view(&self) -> TriggerView {
        TriggerView {
            session_key: self.session_key@,
            prompt: self.prompt@,
            target_channel: opt_text(self.target_channel),
            target_account: opt_text(self.target_account),
            target_recipient: opt_text(self.target_recipient),
            job_id: self.job_id@,
            model: opt_text(self.model),
            context_policy: self.context_policy,
        }
    }
}

// ── Ids ────────────────────────────────────────────────────────────────────

/// What follows the last slash of an id.
pub open spec fn bare_name(id: Seq<char>) -> Seq<char>
    decreases id.len(),
{
    if id.len() == 0 {
        id
    } else if id.last() == '/' {
        Seq::empty()
    } else {
        bare_name(id.drop_last()).push(id.last())
    }
}

proof fn lemma_bare_name(id: Seq<char>, i: int)
    requires
        0 <= i <= id.len(),
        forall|j: int| i <= j < id.len() ==> id[j] != '/',
        i == 0 || id[i - 1] == '/',
    ensures
        bare_name(id) == id.skip(i),
    decreases id.len(),
{
    if id.len() > 0 {
        if i == id.len() {
            assert(id.skip(i) =~= Seq::<char>::empty());
        } else {
            assert(id.last() == id[id.len() - 1]);
            lemma_bare_name(id.drop_last(), i);
            assert(id.skip(i) =~= id.drop_last().skip(i).push(id.last()));
        }
    } else {
        assert(id.skip(0) =~= id);
    }
}

/// What follows the last slash of an id: the bare uuid of `<namespace>/job/<uuid>`.
pub fn bare_dir_name(id: &str) -> (r: String)
    ensures
        r@ == bare_name(id@),
{
    let v = chars_of(id);
    let mut i: usize = v.len();
    while i > 0 && v[i - 1] != '/'
        invariant
            i <= v@.len(),
            forall|j: int| i <= j < v@.len() ==> v@[j] != '/',
        decreases i,
    {
        i -= 1;
    }
    proof {
        lemma_bare_name(v@, i as int);
    }
    let tail = piece(&v, i, v.len());
    assert(tail@ =~= v@.skip(i as int));
    string_of(tail)
}

/// The id of a job.
pub open spec fn job_id(namespace: Seq<char>, uuid: Seq<char>) -> Seq<char> {
    namespace + "/job/"@ + uuid
}

/// The session key of a job.
pub open spec fn session_key_of(id: Seq<char>) -> Seq<char> {
    "_job_"@ + bare_name(id)
}

/// The session key of a job.
pub fn session_key(id: &str) -> (r: String)
    ensures
        r@ == session_key_of(id@),
{
    let mut k = copy_str("_job_");
    let bare = bare_dir_name(id);
    k.append(bare.as_str());
    k
}

// ── Rows of jobs ───────────────────────────────────────────────────────────

/// The index of the first job with the id, or the number of jobs.
pub open spec fn index_of_id(jobs: Seq<JobView>, id: Seq<char>) -> int
    decreases jobs.len(),
{
    if jobs.len() == 0 {
        0
    } else if jobs[0].id == id {
        0
    } else {
        1 + index_of_id(jobs.skip(1), id)
    }
}

proof fn lemma_index_of_id(jobs: Seq<JobView>, id: Seq<char>, i: int)
    requires
        0 <= i <= jobs.len(),
        forall|j: int| 0 <= j < i ==> (#[trigger] jobs[j]).id != id,
        i == jobs.len() || jobs[i].id == id,
    ensures
        index_of_id(jobs, id) == i,
    decreases jobs.len(),
{
    if jobs.len() > 0 && i > 0 {
        assert(jobs[0].id != id);
        assert forall|j: int| 0 <= j < i - 1 implies (#[trigger] jobs.skip(1)[j]).id != id by {
            assert(jobs.skip(1)[j] == jobs[j + 1]);
        }
        lemma_index_of_id(jobs.skip(1), id, i - 1);
    }
}

/// What `index_of_id` says of its result.
pub proof fn lemma_index_of_id_props(jobs: Seq<JobView>, id: Seq<char>)
    ensures
        0 <= index_of_id(jobs, id) <= jobs.len(),
        index_of_id(jobs, id) < jobs.len() ==> jobs[index_of_id(jobs, id)].id == id,
        forall|j: int| 0 <= j < index_of_id(jobs, id) ==> (#[trigger] jobs[j]).id != id,
    decreases jobs.len(),
{
    if jobs.len() > 0 && jobs[0].id != id {
        lemma_index_of_id_props(jobs.skip(1), id);
        assert forall|j: int| 0 <= j < index_of_id(jobs, id) implies (#[trigger] jobs[j]).id
            != id by {
            if j > 0 {
                assert(jobs.skip(1)[j - 1] == jobs[j]);
            }
        }
    }
}

/// Whether a job with the id is there.
pub open spec fn has_id(jobs: Seq<JobView>, id: Seq<char>) -> bool {
    index_of_id(jobs, id) < jobs.len()
}

/// The jobs without those of an id.
pub open spec fn without(jobs: Seq<JobView>, id: Seq<char>) -> Seq<JobView>
    decreases jobs.len(),
{
    if jobs.len() == 0 {
        Seq::empty()
    } else if jobs.last().id == id {
        without(jobs.drop_last(), id)
    } else {
        without(jobs.drop_last(), id).push(jobs.last())
    }
}

/// The jobs without those whose id is in a row of ids.
pub open spec fn without_all(jobs: Seq<JobView>, ids: Seq<Seq<char>>) -> Seq<JobView>
    decreases jobs.len(),
{
    if jobs.len() == 0 {
        Seq::empty()
    } else if ids.contains(jobs.last().id) {
        without_all(jobs.drop_last(), ids)
    } else {
        without_all(jobs.drop_last(), ids).push(jobs.last())
    }
}

/// The ids of the jobs that have made all their runs and are to be deleted then.
pub open spec fn finished_ids(jobs: Seq<JobView>) -> Seq<Seq<char>>
    decreases jobs.len(),
{
    if jobs.len() == 0 {
        Seq::empty()
    } else if used_up(jobs.last()) && jobs.last().delete_after_run {
        finished_ids(jobs.drop_last()).push(jobs.last().id)
    } else {
        finished_ids(jobs.drop_last())
    }
}

/// The trigger of a job.
pub open spec fn trigger_of(j: JobView) -> TriggerView {
    TriggerView {
        session_key: session_key_of(j.id),
        prompt: j.prompt,
        target_channel: target_channel(j.target),
        target_account: target_account(j.target),
        target_recipient: match j.delivery {
            Some(d) => opt_text(d.to),
            None => None,
        },
        job_id: j.id,
        model: j.model,
        context_policy: j.context_policy,
    }
}

/// The triggers of the jobs that are due.
pub open spec fn due_triggers_of(
    jobs: Seq<JobView>,
    timezone: Seq<char>,
    now: UtcInstant,
) -> Seq<TriggerView>
    decreases jobs.len(),
{
    if jobs.len() == 0 {
        Seq::empty()
    } else if timer_due(jobs.last(), timezone, now) {
        due_triggers_of(jobs.drop_last(), timezone, now).push(trigger_of(jobs.last()))
    } else {
        due_triggers_of(jobs.drop_last(), timezone, now)
    }
}

/// The views of a row of triggers.
pub open spec fn trigger_views(v: Seq<CronTrigger>) -> Seq<TriggerView> {
    v.map_values(|t: CronTrigger| t@)
}

/// A job that was set off at a time.
pub open spec fn started(
    j: JobView,
    timezone: Seq<char>,
    now: UtcInstant,
    now_text: Seq<char>,
) -> JobView {
    let ran = JobView { last_run_at: Some(now_text), ..j };
    JobView { next_run_at: next_of(ran, timezone, now), ..ran }
}

/// The jobs after the first of an id was set off.
pub open spec fn with_started(
    jobs: Seq<JobView>,
    id: Seq<char>,
    timezone: Seq<char>,
    now: UtcInstant,
    now_text: Seq<char>,
) -> Seq<JobView> {
    let i = index_of_id(jobs, id);
    if i < jobs.len() {
        jobs.update(i, started(jobs[i], timezone, now, now_text))
    } else {
        jobs
    }
}

/// The jobs after those of a row of triggers were set off, one after the other.
pub open spec fn with_all_started(
    jobs: Seq<JobView>,
    triggers: Seq<TriggerView>,
    timezone: Seq<char>,
    now: UtcInstant,
    now_text: Seq<char>,
) -> Seq<JobView>
    decreases triggers.len(),
{
    if triggers.len() == 0 {
        jobs
    } else {
        with_started(
            with_all_started(jobs, triggers.drop_last(), timezone, now, now_text),
            triggers.last().job_id,
            timezone,
            now,
            now_text,
        )
    }
}

/// The route that a job claims: its name, where it has a webhook and the name is
/// a slug and no built-in route.
pub open spec fn claimed_route(j: JobView) -> Option<Seq<char>> {
    match (j.webhook, j.name) {
        (Some(_), Some(n)) => if n == "agent"@ || n == "wake"@ || !is_slug(n) {
            None
        } else {
            Some(n)
        },
        _ => None,
    }
}

/// Whether one of the jobs claims the route.
pub open spec fn route_taken(jobs: Seq<JobView>, route: Seq<char>) -> bool {
    exists|i: int| 0 <= i < jobs.len() && claimed_route(#[trigger] jobs[i]) == Some(route)
}

/// A job as the webhook server sees it.
pub open spec fn webhook_of(j: JobView) -> WebhookJobView {
    let wh = j.webhook->Some_0;
    WebhookJobView {
        id: j.id,
        route: j.name->Some_0,
        secret: wh.secret,
        auth: auth_of(wh.auth),
        target: j.target,
        prompt_template: j.prompt,
        events: wh.events,
        filters: wh.filters,
        payload_off: wh.payload_off,
    }
}

/// The jobs that the webhook server serves: those with a route that no earlier
/// job claims, and a secret.
pub open spec fn webhooks_of(jobs: Seq<JobView>) -> Seq<WebhookJobView>
    decreases jobs.len(),
{
    if jobs.len() == 0 {
        Seq::empty()
    } else {
        let before = webhooks_of(jobs.drop_last());
        let j = jobs.last();
        match claimed_route(j) {
            Some(route) => if !route_taken(jobs.drop_last(), route) && (
            j.webhook->Some_0).secret.len() > 0 {
                before.push(webhook_of(j))
            } else {
                before
            },
            None => before,
        }
    }
}

/// A job with a name: its own, or the bare part of its id where it has none.
pub open spec fn named(j: JobView) -> JobView {
    JobView {
        name: match j.name {
            Some(n) => if trimmed(n).len() == 0 {
                Some(bare_name(j.id))
            } else {
                j.name
            },
            None => Some(bare_name(j.id)),
        },
        ..j
    }
}

/// `x` put into a row after everything whose id it does not come before.
pub open spec fn inserted_by_id(v: Seq<JobView>, x: JobView) -> Seq<JobView>
    decreases v.len(),
{
    if v.len() > 0 && text_before(x.id, v.last().id) {
        inserted_by_id(v.drop_last(), x).push(v.last())
    } else {
        v.push(x)
    }
}

/// Loaded jobs, each with a name, in the order of their ids.
pub open spec fn prepared(v: Seq<JobView>) -> Seq<JobView>
    decreases v.len(),
{
    if v.len() == 0 {
        Seq::empty()
    } else {
        inserted_by_id(prepared(v.drop_last()), named(v.last()))
    }
}

proof fn lemma_inserted_by_id(v: Seq<JobView>, x: JobView, n: int)
    requires
        0 <= n <= v.len(),
        forall|j: int| n <= j < v.len() ==> text_before(x.id, (#[trigger] v[j]).id),
        n > 0 ==> !text_before(x.id, v[n - 1].id),
    ensures
        inserted_by_id(v, x) == v.insert(n, x),
    decreases v.len(),
{
    if n < v.len() {
        assert(text_before(x.id, v[v.len() - 1].id));
        assert forall|j: int| n <= j < v.drop_last().len() implies text_before(
            x.id,
            (#[trigger] v.drop_last()[j]).id,
        ) by {
            assert(text_before(x.id, v[j].id));
        }
        lemma_inserted_by_id(v.drop_last(), x, n);
    }
    assert(inserted_by_id(v, x) =~= v.insert(n, x));
}

/// Readies jobs that were loaded from their own directories: each gets a name
/// where it has none, and they are put in the order of their ids.
pub fn prepare_loaded(jobs: Vec<JobEntry>) -> (r: Vec<JobEntry>)
    ensures
        job_views(r@) == prepared(job_views(jobs@)),
{
    let ghost all = jobs@;
    let ghost views = job_views(all);
    let mut rest = jobs;
    let mut r: Vec<JobEntry> = Vec::new();
    assert(views.take(0) =~= Seq::<JobView>::empty());
    assert(job_views(r@) =~= Seq::<JobView>::empty());
    while rest.len() > 0
        invariant
            rest@.len() <= all.len(),
            views == job_views(all),
            rest@ == all.skip(all.len() - rest@.len()),
            job_views(r@) == prepared(views.take(all.len() - rest@.len())),
        decreases rest@.len(),
    {
        let ghost k = all.len() - rest@.len();
        let mut job = rest.remove(0);
        assert(views.take(k + 1).drop_last() =~= views.take(k));
        assert(views.take(k + 1).last() == job@);
        assert(rest@ =~= all.skip(k + 1));
        let ghost before = job@;
        let nameless: bool = match job.name {
            Some(ref n) => trim_str(n.as_str()).as_str().is_empty(),
            None => true,
        };
        if nameless {
            job.name = Some(bare_dir_name(job.id.as_str()));
        }
        assert(job@ == named(before));
        let mut n: usize = r.len();
        while n > 0 && comes_before(job.id.as_str(), r[n - 1].id.as_str())
            invariant
                n <= r@.len(),
                forall|j: int| n <= j < r@.len() ==> text_before(job.id@, (#[trigger] r@[j]).id@),
            decreases n,
        {
            n -= 1;
        }
        proof {
            assert forall|j: int| n <= j < r@.len() implies text_before(
                job@.id,
                (#[trigger] job_views(r@)[j]).id,
            ) by {
                assert(text_before(job.id@, r@[j].id@));
            }
            lemma_inserted_by_id(job_views(r@), job@, n as int);
            assert(job_views(r@.insert(n as int, job)) =~= job_views(r@).insert(n as int, job@));
        }
        r.insert(n, job);
    }
    assert(views.take(views.len() as int) =~= views);
    r
}

/// The jobs to work with: those of the directories, or, where there are none,
/// those of the old single file.
pub fn choose_store(from_dirs: Vec<JobEntry>, legacy: Option<Vec<JobEntry>>) -> (r: Vec<JobEntry>)
    ensures
        r@ == (match legacy {
            Some(l) => if from_dirs@.len() == 0 {
                l@
            } else {
                from_dirs@
            },
            None => from_dirs@,
        }),
{
    match legacy {
        Some(l) => if from_dirs.len() == 0 {
            l
        } else {
            from_dirs
        },
        None => from_dirs,
    }
}

/// At most `limit` of the newest records, newest first, of a log in which new
/// records come last.
pub open spec fn newest_first(log: Seq<RunRecord>, limit: int) -> Seq<RunRecord> {
    if log.len() <= limit {
        log.reverse()
    } else {
        log.reverse().take(limit)
    }
}

/// The newest records of a log, newest first.
pub fn recent_records(log: Vec<RunRecord>, limit: usize) -> (r: Vec<RunRecord>)
    ensures
        r@ == newest_first(log@, limit as int),
{
    let ghost all = log@;
    let mut rest = log;
    let mut r: Vec<RunRecord> = Vec::new();
    while rest.len() > 0 && r.len() < limit
        invariant
            rest@.len() + r@.len() == all.len(),
            r@.len() <= limit,
            rest@ == all.take(rest@.len() as int),
            r@ == all.reverse().take(r@.len() as int),
        decreases rest@.len(),
    {
        match rest.pop() {
            Some(x) => {
                assert(rest@ =~= all.take(rest@.len() as int));
                assert(all.reverse().take(r@.len() as int + 1) =~= all.reverse().take(
                    r@.len() as int,
                ).push(x));
                r.push(x);
            },
            None => {},
        }
    }
    assert(r@ =~= newest_first(all, limit as int));
    r
}

/// Which of the places of a job's run log is used.
#[derive(Clone, Copy, PartialEq, Eq, Structural, Debug)]
pub enum LogPlace {
    /// Beside the job.
    PerJob,
    /// In the directory that all jobs shared.
    Shared,
}

/// The place of a run log: beside the job, unless only a shared one is there.
pub fn log_place(per_job_exists: bool, shared_exists: bool) -> (r: LogPlace)
    ensures
        r == (if !per_job_exists && shared_exists {
            LogPlace::Shared
        } else {
            LogPlace::PerJob
        }),
{
    if !per_job_exists && shared_exists {
        LogPlace::Shared
    } else {
        LogPlace::PerJob
    }
}

/// What becomes of a directory of the store after a save.
#[derive(Clone, Copy, PartialEq, Eq, Structural, Debug)]
pub enum PruneAction {
    Keep,
    RemoveMeta,
    RemoveDirectory,
}

/// What becomes of a directory after a save: one that holds a job which is gone
/// is removed, but for its logs.
pub fn prune_action(holds_job: bool, job_remains: bool, has_logs: bool) -> (r: PruneAction)
    ensures
        r == (if !holds_job || job_remains {
            PruneAction::Keep
        } else if has_logs {
            PruneAction::RemoveMeta
        } else {
            PruneAction::RemoveDirectory
        }),
{
    if !holds_job || job_remains {
        PruneAction::Keep
    } else if has_logs {
        PruneAction::RemoveMeta
    } else {
        PruneAction::RemoveDirectory
    }
}

/// Schedule and prompt of each job.
pub open spec fn timed_prompts(jobs: Seq<JobView>) -> Seq<(Option<Seq<char>>, Seq<char>)> {
    jobs.map_values(|j: JobView| (j.schedule, j.prompt))
}

/// A job made from a Markdown file.
pub open spec fn markdown_job(
    id: Seq<char>,
    stem: Option<Seq<char>>,
    job: crate::scheduling::cron_loader::CronJobView,
) -> JobView {
    JobView {
        id,
        schedule: Some(job.schedule),
        prompt: job.prompt,
        target: job.target,
        name: stem,
        tz: None,
        active_hours: job.active_hours,
        enabled: true,
        last_run_at: None,
        next_run_at: None,
        created_at: None,
        delivery: None,
        last_runs: Seq::empty(),
        enabled_tools: None,
        disabled_tools: None,
        schedule_kind: None,
        retry: None,
        failure_alert: None,
        consecutive_errors: 0,
        consecutive_skipped: 0,
        max_runs: None,
        completed_runs: 0,
        successful_runs: 0,
        delete_after_run: false,
        model: None,
        provider: None,
        last_failure_alert_at: None,
        context_policy: ContextPolicy::Inject,
        webhook: None,
    }
}

/// Whether all texts are those of uuids of version 7.
pub open spec fn all_uuid_texts(uuids: Seq<Seq<char>>) -> bool {
    forall|k: int| 0 <= k < uuids.len() ==> is_uuid_text(#[trigger] uuids[k], '7')
}

/// The jobs after those of files were added: of each file that is a cron job, unless
/// one with its schedule and prompt is there. The ids are made of a uuid for each
/// file.
pub open spec fn migrated_jobs(
    jobs: Seq<JobView>,
    files: Seq<MarkdownFile>,
    namespace: Seq<char>,
    uuids: Seq<Seq<char>>,
) -> Seq<JobView>
    decreases files.len(),
{
    if files.len() == 0 {
        jobs
    } else {
        let before = migrated_jobs(jobs, files.drop_last(), namespace, uuids);
        match cron_job_of(files.last().content@) {
            Ok(j) => if timed_prompts(before).contains((Some(j.schedule), j.prompt)) {
                before
            } else {
                before.push(
                    markdown_job(
                        job_id(namespace, uuids[files.len() - 1]),
                        opt_text(files.last().stem),
                        j,
                    ),
                )
            },
            Err(_) => before,
        }
    }
}

proof fn lemma_migrated_uuids(
    jobs: Seq<JobView>,
    files: Seq<MarkdownFile>,
    namespace: Seq<char>,
    uuids: Seq<Seq<char>>,
    uuid: Seq<char>,
)
    requires
        files.len() <= uuids.len(),
    ensures
        migrated_jobs(jobs, files, namespace, uuids.push(uuid)) == migrated_jobs(
            jobs,
            files,
            namespace,
            uuids,
        ),
    decreases files.len(),
{
    if files.len() > 0 {
        lemma_migrated_uuids(jobs, files.drop_last(), namespace, uuids, uuid);
    }
}

/// Schedule and prompt of each job after the jobs of files were added.
pub open spec fn migrated_prompts(
    prompts: Seq<(Option<Seq<char>>, Seq<char>)>,
    files: Seq<MarkdownFile>,
) -> Seq<(Option<Seq<char>>, Seq<char>)>
    decreases files.len(),
{
    if files.len() == 0 {
        prompts
    } else {
        let before = migrated_prompts(prompts, files.drop_last());
        match cron_job_of(files.last().content@) {
            Ok(j) => if before.contains((Some(j.schedule), j.prompt)) {
                before
            } else {
                before.push((Some(j.schedule), j.prompt))
            },
            Err(_) => before,
        }
    }
}

/// A new job as it is stored: with an id, a time of creation and a next run.
pub open spec fn stored_job(
    j: JobView,
    fresh_id: Seq<char>,
    timezone: Seq<char>,
    now: UtcInstant,
    now_text: Seq<char>,
) -> JobView {
    let ready = JobView {
        id: if j.id.len() == 0 {
            fresh_id
        } else {
            j.id
        },
        created_at: if j.created_at is None {
            Some(now_text)
        } else {
            j.created_at
        },
        ..j
    };
    JobView {
        next_run_at: crate::scheduling::cron_expr::timer_next(
            ready.schedule_kind,
            ready.schedule,
            None,
            crate::scheduling::job_state::zone_of(ready, timezone),
            now,
        ),
        ..ready
    }
}

/// A job that was enabled or disabled.
pub open spec fn switched(
    j: JobView,
    enabled: bool,
    timezone: Seq<char>,
    now: UtcInstant,
) -> JobView {
    JobView {
        enabled,
        next_run_at: if enabled {
            next_of(j, timezone, now)
        } else {
            None
        },
        ..j
    }
}

/// The jobs after an update of the first with the id, whether there is one, and
/// the error.
pub open spec fn updated_jobs(
    jobs: Seq<JobView>,
    id: Seq<char>,
    u: JobUpdate,
    timezone: Seq<char>,
    now: UtcInstant,
    now_text: Seq<char>,
) -> (Seq<JobView>, Result<bool, SchedulerErrorView>) {
    let i = index_of_id(jobs, id);
    if i < jobs.len() {
        let outcome = update_outcome(jobs[i], id, u, timezone, now, now_text);
        (
            jobs.update(i, outcome.0),
            match outcome.1 {
                Some(e) => Err(e),
                None => Ok(true),
            },
        )
    } else {
        (jobs, Ok(false))
    }
}

/// The view of the result of an update.
pub open spec fn update_result(r: Result<bool, SchedulerError>) -> Result<bool, SchedulerErrorView> {
    match r {
        Ok(b) => Ok(b),
        Err(e) => Err(e@),
    }
}

/// The jobs after a run of the first with the id, and the alert that it raises.
pub open spec fn booked_jobs(
    jobs: Seq<JobView>,
    id: Seq<char>,
    record: RunRecordView,
    timezone: Seq<char>,
    now: UtcInstant,
    now_text: Seq<char>,
) -> (Seq<JobView>, Option<Seq<char>>) {
    let i = index_of_id(jobs, id);
    if i < jobs.len() {
        (
            jobs.update(i, after_run(jobs[i], record, timezone, now, now_text)),
            if alerts(jobs[i], record.status, now) {
                Some(alert_text(jobs[i], record))
            } else {
                None
            },
        )
    } else {
        (jobs, None)
    }
}

/// Whether a job has a name that is more than whitespace.
pub open spec fn has_name(j: JobView) -> bool {
    match j.name {
        Some(n) => trimmed(n).len() > 0,
        None => false,
    }
}

/// A text that is kept only if something is left of it when trimmed.
pub open spec fn remembered_text(o: Option<Seq<char>>) -> Option<Seq<char>> {
    match o {
        Some(t) => if trimmed(t).len() > 0 {
            Some(trimmed(t))
        } else {
            None
        },
        None => None,
    }
}

fn remember(o: Option<String>) -> (r: Option<String>)
    ensures
        opt_text(r) == remembered_text(opt_text(o)),
{
    match o {
        Some(t) => {
            let s = trim_str(t.as_str());
            if s.as_str().is_empty() {
                None
            } else {
                Some(s)
            }
        },
        None => None,
    }
}

fn same_opt(o: &Option<String>, s: &str) -> (r: bool)
    ensures
        r == (opt_text(*o) == Some(s@)),
{
    match o {
        Some(t) => same_str(t.as_str(), s),
        None => false,
    }
}

impl Scheduler {
    /// The jobs.
    pub closed spec fn view_jobs(self) -> Seq<JobView> {
        job_views(self.jobs@)
    }

    /// The time zone of jobs that name none.
    pub closed spec fn zone_name(self) -> Seq<char> {
        self.timezone@
    }

    /// The namespace of new ids.
    pub closed spec fn id_namespace(self) -> Seq<char> {
        self.namespace@
    }

    /// The distillation config.
    pub closed spec fn distill(self) -> Option<DistillConfig> {
        self.distill_config
    }

    /// Unix second of the last message of a user, 0 if there was none.
    pub closed spec fn inbound(self) -> u64 {
        self.last_inbound
    }

    /// The channel of the last message.
    pub closed spec fn channel(self) -> Option<Seq<char>> {
        opt_text(self.last_channel)
    }

    /// The recipient of the last message.
    pub closed spec fn recipient(self) -> Option<Seq<char>> {
        opt_text(self.last_recipient)
    }

    /// When the store on disk that was last read was changed.
    pub closed spec fn mtime(self) -> Option<u64> {
        self.last_mtime
    }

    /// Whether everything but the jobs is the same.
    pub open spec fn same_but_jobs(self, other: Scheduler) -> bool {
        &&& self.zone_name() == other.zone_name()
        &&& self.id_namespace() == other.id_namespace()
        &&& self.distill() == other.distill()
        &&& self.inbound() == other.inbound()
        &&& self.channel() == other.channel()
        &&& self.recipient() == other.recipient()
        &&& self.mtime() == other.mtime()
    }

    /// A scheduler with the jobs of the store. The channel and the recipient are
    /// what their files hold.
    pub fn new(
        jobs: Vec<JobEntry>,
        mtime: Option<u64>,
        namespace: String,
        timezone: String,
        distill_config: Option<DistillConfig>,
        last_channel: Option<String>,
        last_recipient: Option<String>,
    ) -> (r: Scheduler)
        ensures
            r.view_jobs() == job_views(jobs@),
            r.mtime() == (if jobs@.len() == 0 {
                None
            } else {
                mtime
            }),
            r.id_namespace() == namespace@,
            r.zone_name() == timezone@,
            r.distill() == distill_config,
            r.inbound() == 0,
            r.channel() == remembered_text(opt_text(last_channel)),
            r.recipient() == remembered_text(opt_text(last_recipient)),
    {
        let last_mtime = if jobs.len() == 0 {
            None
        } else {
            mtime
        };
        Scheduler {
            jobs,
            namespace,
            timezone,
            distill_config,
            last_mtime,
            last_inbound: 0,
            last_channel: remember(last_channel),
            last_recipient: remember(last_recipient),
        }
    }

    /// Takes note of a message of a user at a Unix second: where an answer to
    /// "last" goes, and when somebody last wrote. Returns whether the channel and
    /// the recipient are new.
    pub fn record_user_message(&mut self, channel_key: &str, reply_target: &str, now_secs: u64) -> (r:
        (bool, bool))
        ensures
            r.0 == (old(self).channel() != Some(channel_key@)),
            r.1 == (old(self).recipient() != Some(reply_target@)),
            final(self).channel() == Some(channel_key@),
            final(self).recipient() == Some(reply_target@),
            final(self).inbound() == now_secs,
            final(self).view_jobs() == old(self).view_jobs(),
            final(self).zone_name() == old(self).zone_name(),
            final(self).id_namespace() == old(self).id_namespace(),
            final(self).distill() == old(self).distill(),
            final(self).mtime() == old(self).mtime(),
    {
        let new_channel: bool = !same_opt(&self.last_channel, channel_key);
        if new_channel {
            self.last_channel = Some(copy_str(channel_key));
        }
        let new_recipient: bool = !same_opt(&self.last_recipient, reply_target);
        if new_recipient {
            self.last_recipient = Some(copy_str(reply_target));
        }
        self.last_inbound = now_secs;
        (new_channel, new_recipient)
    }

    /// The channel of the last message.
    pub fn last_channel(&self) -> (r: Option<&str>)
        ensures
            crate::text::opt_str(r) == self.channel(),
    {
        match self.last_channel {
            Some(ref s) => Some(s.as_str()),
            None => None,
        }
    }

    /// The recipient of the last message.
    pub fn last_recipient(&self) -> (r: Option<&str>)
        ensures
            crate::text::opt_str(r) == self.recipient(),
    {
        match self.last_recipient {
            Some(ref s) => Some(s.as_str()),
            None => None,
        }
    }

    /// Whether there is anything to schedule.
    pub fn should_run(&self) -> (r: bool)
        ensures
            r == (self.distill() is Some || self.view_jobs().len() > 0),
    {
        self.distill_config.is_some() || self.jobs.len() > 0
    }

    /// Whether a distillation pass may run at a Unix second: distillation is on,
    /// and nobody has written for the idle time.
    pub fn distill_due(&self, now_secs: u64) -> (r: bool)
        ensures
            r == match self.distill() {
                Some(cfg) => self.inbound() == 0 || (if now_secs >= self.inbound() {
                    now_secs - self.inbound()
                } else {
                    0
                }) >= cfg.idle_secs,
                None => false,
            },
    {
        match self.distill_config {
            Some(cfg) => {
                if self.last_inbound == 0 {
                    return true;
                }
                let elapsed: u64 = if now_secs >= self.last_inbound {
                    now_secs - self.last_inbound
                } else {
                    0
                };
                elapsed >= cfg.idle_secs
            },
            None => false,
        }
    }

    /// Seconds between two distillation checks, at least a minute.
    pub fn distill_period(&self) -> (r: Option<u64>)
        ensures
            r == match self.distill() {
                Some(cfg) => Some(
                    if cfg.interval_secs < 60 {
                        60u64
                    } else {
                        cfg.interval_secs
                    },
                ),
                None => None,
            },
    {
        match self.distill_config {
            Some(cfg) => Some(
                if cfg.interval_secs < 60 {
                    60
                } else {
                    cfg.interval_secs
                },
            ),
            None => None,
        }
    }

    /// The jobs.
    pub fn jobs(&self) -> (r: &[JobEntry])
        ensures
            job_views(r@) == self.view_jobs(),
    {
        self.jobs.as_slice()
    }

    /// The number of jobs.
    pub fn job_count(&self) -> (r: usize)
        ensures
            r == self.view_jobs().len(),
    {
        self.jobs.len()
    }

    fn position(&self, id: &str) -> (i: usize)
        ensures
            i == index_of_id(self.view_jobs(), id@),
            i <= self.jobs@.len(),
            self.jobs@.len() == self.view_jobs().len(),
            i < self.jobs@.len() ==> self.jobs@[i as int].id@ == id@,
    {
        let mut i: usize = 0;
        while i < self.jobs.len() && !same_str(self.jobs[i].id.as_str(), id)
            invariant
                i <= self.jobs@.len(),
                forall|j: int| 0 <= j < i ==> (#[trigger] self.jobs@[j]).id@ != id@,
            decreases self.jobs@.len() - i,
        {
            i += 1;
        }
        proof {
            let views = self.view_jobs();
            assert forall|j: int| 0 <= j < i implies (#[trigger] views[j]).id != id@ by {
                assert(self.jobs@[j].id@ != id@);
            }
            lemma_index_of_id(views, id@, i as int);
        }
        i
    }

    /// Takes over what the store on disk holds, if it has changed since it was
    /// last read. Returns whether it had.
    pub fn maybe_reload(
        &mut self,
        mtime: Option<u64>,
        from_dirs: Vec<JobEntry>,
        legacy: Option<Vec<JobEntry>>,
    ) -> (r: bool)
        ensures
            r == (mtime != old(self).mtime()),
            final(self).zone_name() == old(self).zone_name(),
            final(self).id_namespace() == old(self).id_namespace(),
            final(self).distill() == old(self).distill(),
            final(self).inbound() == old(self).inbound(),
            final(self).channel() == old(self).channel(),
            final(self).recipient() == old(self).recipient(),
            final(self).mtime() == mtime,
            !r ==> final(self).view_jobs() == old(self).view_jobs(),
            r && (from_dirs@.len() > 0 || legacy is None) ==> final(self).view_jobs() == job_views(
                from_dirs@,
            ),
            r && from_dirs@.len() == 0 && legacy is Some ==> final(self).view_jobs() == job_views(
                legacy.unwrap()@,
            ),
    {
        let unchanged: bool = match (mtime, self.last_mtime) {
            (Some(a), Some(b)) => a == b,
            (None, None) => true,
            _ => false,
        };
        if unchanged {
            return false;
        }
        self.jobs = choose_store(from_dirs, legacy);
        self.last_mtime = mtime;
        true
    }

    /// The jobs that the webhook server serves. The name of a job is its route;
    /// of jobs that claim one route only the first is served.
    pub fn webhook_jobs(&self) -> (r: Vec<WebhookJobDef>)
        ensures
            webhook_views(r@) == webhooks_of(self.view_jobs()),
    {
        let ghost views = self.view_jobs();
        let mut out: Vec<WebhookJobDef> = Vec::new();
        let mut seen: Vec<String> = Vec::new();
        let mut i: usize = 0;
        assert(views.take(0) =~= Seq::<JobView>::empty());
        assert(webhook_views(out@) =~= Seq::<WebhookJobView>::empty());
        while i < self.jobs.len()
            invariant
                i <= self.jobs@.len(),
                views == job_views(self.jobs@),
                webhook_views(out@) == webhooks_of(views.take(i as int)),
                forall|r: Seq<char>| #[trigger]
                    texts(seen@).contains(r) == route_taken(views.take(i as int), r),
            decreases self.jobs@.len() - i,
        {
            let j = &self.jobs[i];
            let ghost before = views.take(i as int);
            let ghost after = views.take(i as int + 1);
            proof {
                assert(after.drop_last() =~= before);
                assert(after.last() == j@);
                assert(forall|k: int| 0 <= k < i ==> after[k] == before[k]);
                assert forall|r: Seq<char>| #[trigger] route_taken(after, r) == (route_taken(
                    before,
                    r,
                ) || claimed_route(j@) == Some(r)) by {
                    if route_taken(before, r) {
                        let k = choose|k: int|
                            0 <= k < before.len() && claimed_route(#[trigger] before[k]) == Some(r);
                        assert(claimed_route(after[k]) == Some(r));
                    }
                    if claimed_route(j@) == Some(r) {
                        assert(claimed_route(after[i as int]) == Some(r));
                    }
                    if route_taken(after, r) {
                        let k = choose|k: int|
                            0 <= k < after.len() && claimed_route(#[trigger] after[k]) == Some(r);
                        if k < i {
                            assert(claimed_route(before[k]) == Some(r));
                        }
                    }
                }
            }
            match j.webhook {
                Some(ref wh) => match j.name {
                    Some(ref name) => {
                        if !same_str(name.as_str(), "agent") && !same_str(name.as_str(), "wake")
                            && is_route_slug(name.as_str()) {
                            let mut taken: bool = false;
                            let mut k: usize = 0;
                            while k < seen.len()
                                invariant
                                    k <= seen@.len(),
                                    taken == exists|m: int|
                                        0 <= m < k && (#[trigger] texts(seen@)[m]) == name@,
                                decreases seen@.len() - k,
                            {
                                if same_str(seen[k].as_str(), name.as_str()) {
                                    assert(texts(seen@)[k as int] == name@);
                                    taken = true;
                                }
                                k += 1;
                            }
                            assert(taken == texts(seen@).contains(name@));
                            if !taken {
                                let route = name.clone();
                                proof {
                                    let old_seen = texts(seen@);
                                    crate::split::lemma_texts_push(seen@, route);
                                    assert forall|r: Seq<char>| #[trigger]
                                        old_seen.push(route@).contains(r) == (old_seen.contains(r)
                                            || r == route@) by {
                                        if old_seen.contains(r) {
                                            let m = old_seen.index_of(r);
                                            assert(old_seen.push(route@)[m] == r);
                                        }
                                        if r == route@ {
                                            assert(old_seen.push(route@)[old_seen.len() as int]
                                                == r);
                                        }
                                        if old_seen.push(route@).contains(r) {
                                            let m = old_seen.push(route@).index_of(r);
                                            if m < old_seen.len() {
                                                assert(old_seen[m] == r);
                                            }
                                        }
                                    }
                                }
                                seen.push(route);
                                if !wh.secret.as_str().is_empty() {
                                    let def = WebhookJobDef {
                                        id: j.id.clone(),
                                        route: name.clone(),
                                        secret: wh.secret.clone(),
                                        auth: wh.auth_kind(),
                                        target: j.target.clone(),
                                        prompt_template: j.prompt.clone(),
                                        events: match wh.events {
                                            Some(ref e) => Some(copy_strings(e)),
                                            None => None,
                                        },
                                        filters: match wh.filters {
                                            Some(ref f) => Some(copy_filters(f)),
                                            None => None,
                                        },
                                        payload_off: wh.payload_off,
                                    };
                                    assert(webhook_views(out@.push(def)) =~= webhook_views(
                                        out@,
                                    ).push(def@));
                                    out.push(def);
                                }
                            }
                        }
                    },
                    None => {},
                },
                None => {},
            }
            i += 1;
        }
        assert(views.take(views.len() as int) =~= views);
        out
    }

    /// A new id.
    pub fn generate_id(&self) -> (r: String)
        ensures
            exists|uuid: Seq<char>|
                r@ == #[trigger] job_id(self.id_namespace(), uuid) && is_uuid_text(uuid, '7'),
    {
        let uuid = fresh_uuid();
        let mut id = self.namespace.clone();
        id.append("/job/");
        id.append(uuid.as_str());
        assert(id@ =~= job_id(self.id_namespace(), uuid@));
        id
    }

    /// Adds a job at a time. A job must have a name; one without an id gets
    /// `fresh_id`. Returns the id.
    pub fn add_job_at(&mut self, entry: JobEntry, fresh_id: String, stamp: &Stamp) -> (r: Result<
        String,
        SchedulerError,
    >)
        ensures
            final(self).same_but_jobs(*old(self)),
            match r {
                Ok(id) => has_name(entry@) && final(self).view_jobs() == old(self).view_jobs().push(
                    stored_job(
                        entry@,
                        fresh_id@,
                        old(self).zone_name(),
                        stamp.at,
                        stamp.text@,
                    ),
                ) && id@ == final(self).view_jobs().last().id,
                Err(e) => !has_name(entry@) && e@ == SchedulerErrorView::NameRequired && final(self).view_jobs() == old(self).view_jobs(),
            },
    {
        let mut entry = entry;
        let nameless: bool = match entry.name {
            Some(ref n) => trim_str(n.as_str()).as_str().is_empty(),
            None => true,
        };
        if nameless {
            return Err(SchedulerError::NameRequired);
        }
        if entry.id.as_str().is_empty() {
            entry.id = fresh_id;
        }
        if entry.created_at.is_none() {
            entry.created_at = Some(stamp.text.clone());
        }
        let kind = match entry.schedule_kind {
            Some(ref k) => Some(k),
            None => None,
        };
        let schedule = match entry.schedule {
            Some(ref s) => Some(s.as_str()),
            None => None,
        };
        let tz = match entry.tz {
            Some(ref t) => t.as_str(),
            None => self.timezone.as_str(),
        };
        let next = crate::scheduling::cron_expr::timer_next_at(kind, schedule, None, tz, &stamp.at);
        entry.next_run_at = next;
        let id = entry.id.clone();
        let ghost before = self.jobs@;
        self.jobs.push(entry);
        assert(job_views(self.jobs@) =~= job_views(before).push(entry@));
        Ok(id)
    }

    /// Adds a job. A job must have a name; one without an id gets a new one.
    /// Returns the id.
    pub fn add_job(&mut self, entry: JobEntry) -> (r: Result<String, SchedulerError>)
        ensures
            final(self).same_but_jobs(*old(self)),
            match r {
                Ok(id) => has_name(entry@) && final(self).view_jobs().len() == old(self).view_jobs().len() + 1 && final(self).view_jobs().drop_last() == old(self).view_jobs() && id@ == final(self).view_jobs().last().id && exists|
                    now: UtcInstant,
                    text: Seq<char>,
                    uuid: Seq<char>,
                |
                    final(self).view_jobs().last() == #[trigger] stored_job(
                        entry@,
                        job_id(old(self).id_namespace(), uuid),
                        old(self).zone_name(),
                        now,
                        text,
                    ) && text_of(now) == Some(text) && is_reading(now) && is_uuid_text(uuid, '7'),
                Err(e) => !has_name(entry@) && e@ == SchedulerErrorView::NameRequired && final(self).view_jobs() == old(self).view_jobs(),
            },
    {
        let stamp = read_clock();
        let fresh = self.generate_id();
        let ghost uuid = choose|uuid: Seq<char>|
            fresh@ == #[trigger] job_id(self.id_namespace(), uuid) && is_uuid_text(uuid, '7');
        let r = self.add_job_at(entry, fresh, &stamp);
        proof {
            if r is Ok {
                assert(self.view_jobs().last() == stored_job(
                    entry@,
                    job_id(old(self).id_namespace(), uuid),
                    old(self).zone_name(),
                    stamp.at,
                    stamp.text@,
                ));
                assert(self.view_jobs().drop_last() =~= old(self).view_jobs());
            }
        }
        r
    }

    /// Updates the first job with the id at a time. Returns whether there is one.
    pub fn update_job_at(&mut self, id: &str, update: JobUpdate, stamp: &Stamp) -> (r: Result<
        bool,
        SchedulerError,
    >)
        ensures
            final(self).same_but_jobs(*old(self)),
            (final(self).view_jobs(), update_result(r)) == updated_jobs(
                old(self).view_jobs(),
                id@,
                update,
                old(self).zone_name(),
                stamp.at,
                stamp.text@,
            ),
    {
        let i: usize = self.position(id);
        if i >= self.jobs.len() {
            return Ok(false);
        }
        let ghost before = self.jobs@;
        let timezone = self.timezone.clone();
        let outcome = apply_update(&mut self.jobs[i], id, update, timezone.as_str(), stamp);
        assert(job_views(self.jobs@) =~= job_views(before).update(i as int, self.jobs@[i as int]@));
        match outcome {
            Ok(()) => Ok(true),
            Err(e) => Err(e),
        }
    }

    /// Updates the first job with the id. Returns whether there is one.
    pub fn update_job(&mut self, id: &str, update: JobUpdate) -> (r: Result<bool, SchedulerError>)
        ensures
            final(self).same_but_jobs(*old(self)),
            exists|now: UtcInstant, text: Seq<char>|
                (final(self).view_jobs(), update_result(r)) == #[trigger] updated_jobs(
                    old(self).view_jobs(),
                    id@,
                    update,
                    old(self).zone_name(),
                    now,
                    text,
                ) && text_of(now) == Some(text) && is_reading(now),
    {
        let stamp = read_clock();
        self.update_job_at(id, update, &stamp)
    }

    /// Enables or disables the first job with the id.
    pub fn set_enabled(&mut self, id: &str, enabled: bool) -> (r: Result<bool, SchedulerError>)
        ensures
            final(self).same_but_jobs(*old(self)),
            r is Ok,
            r == Ok::<bool, SchedulerError>(has_id(old(self).view_jobs(), id@)),
            final(self).view_jobs().len() == old(self).view_jobs().len(),
            forall|k: int|
                0 <= k < old(self).view_jobs().len() && k != index_of_id(old(self).view_jobs(), id@)
                    ==> #[trigger] final(self).view_jobs()[k] == old(self).view_jobs()[k],
            has_id(old(self).view_jobs(), id@) ==> exists|now: UtcInstant|
                final(self).view_jobs()[index_of_id(old(self).view_jobs(), id@)]
                    == #[trigger] switched(
                    old(self).view_jobs()[index_of_id(old(self).view_jobs(), id@)],
                    enabled,
                    old(self).zone_name(),
                    now,
                ) && is_reading(now),
    {
        let mut update = JobUpdate::default();
        update.enabled = Some(enabled);
        let stamp = read_clock();
        let r = self.update_job_at(id, update, &stamp);
        proof {
            lemma_index_of_id_props(old(self).view_jobs(), id@);
            if has_id(old(self).view_jobs(), id@) {
                let i = index_of_id(old(self).view_jobs(), id@);
                let j = old(self).view_jobs()[i];
                let fields = crate::scheduling::job_state::with_fields(j, update);
                assert(fields == (JobView { enabled, ..j }));
                assert(self.view_jobs()[i] == switched(j, enabled, old(self).zone_name(), stamp.at));
            }
        }
        r
    }

    /// Removes the jobs with the id. Returns whether there were any.
    pub fn remove_job(&mut self, id: &str) -> (r: bool)
        ensures
            final(self).same_but_jobs(*old(self)),
            final(self).view_jobs() == without(old(self).view_jobs(), id@),
            r == (without(old(self).view_jobs(), id@).len() < old(self).view_jobs().len()),
    {
        let ghost before = self.jobs@;
        let ghost views = job_views(before);
        let count: usize = self.jobs.len();
        let mut kept: Vec<JobEntry> = Vec::new();
        let mut rest: Vec<JobEntry> = Vec::new();
        std::mem::swap(&mut rest, &mut self.jobs);
        assert(views.take(0) =~= Seq::<JobView>::empty());
        assert(job_views(kept@) =~= Seq::<JobView>::empty());
        while rest.len() > 0
            invariant
                rest@.len() <= before.len(),
                views == job_views(before),
                rest@ == before.skip(before.len() - rest@.len()),
                job_views(kept@) == without(views.take(before.len() - rest@.len()), id@),
            decreases rest@.len(),
        {
            let ghost k = before.len() - rest@.len();
            let job = rest.remove(0);
            assert(rest@ =~= before.skip(k + 1));
            assert(views.take(k + 1).drop_last() =~= views.take(k));
            assert(views.take(k + 1).last() == job@);
            if !same_str(job.id.as_str(), id) {
                assert(job_views(kept@.push(job)) =~= job_views(kept@).push(job@));
                kept.push(job);
            }
        }
        assert(views.take(views.len() as int) =~= views);
        let r: bool = kept.len() < count;
        self.jobs = kept;
        r
    }

    /// Books a run of the first job with the id at a time. Returns the alert
    /// that it raises.
    pub fn mark_run_result_at(&mut self, id: &str, record: RunRecord, stamp: &Stamp) -> (r: Option<
        String,
    >)
        requires
            has_id(old(self).view_jobs(), id@) ==> can_count(
                old(self).view_jobs()[index_of_id(old(self).view_jobs(), id@)],
            ),
        ensures
            final(self).same_but_jobs(*old(self)),
            (final(self).view_jobs(), opt_text(r)) == booked_jobs(
                old(self).view_jobs(),
                id@,
                record@,
                old(self).zone_name(),
                stamp.at,
                stamp.text@,
            ),
    {
        let i: usize = self.position(id);
        if i >= self.jobs.len() {
            return None;
        }
        let ghost before = self.jobs@;
        assert(job_views(before)[i as int] == before[i as int]@);
        let timezone = self.timezone.clone();
        let r = book_run(&mut self.jobs[i], record, timezone.as_str(), stamp);
        assert(job_views(self.jobs@) =~= job_views(before).update(i as int, self.jobs@[i as int]@));
        r
    }

    /// Books a run of the first job with the id. Returns the alert that it raises.
    pub fn mark_run_result(&mut self, id: &str, record: RunRecord) -> (r: Option<String>)
        requires
            has_id(old(self).view_jobs(), id@) ==> can_count(
                old(self).view_jobs()[index_of_id(old(self).view_jobs(), id@)],
            ),
        ensures
            final(self).same_but_jobs(*old(self)),
            exists|now: UtcInstant, text: Seq<char>|
                (final(self).view_jobs(), opt_text(r)) == #[trigger] booked_jobs(
                    old(self).view_jobs(),
                    id@,
                    record@,
                    old(self).zone_name(),
                    now,
                    text,
                ) && text_of(now) == Some(text) && is_reading(now),
    {
        let stamp = read_clock();
        self.mark_run_result_at(id, record, &stamp)
    }

    /// Deletes the jobs that have made all their runs and are to be deleted then.
    /// Returns their ids.
    pub fn drain_auto_delete(&mut self) -> (r: Vec<String>)
        ensures
            final(self).same_but_jobs(*old(self)),
            texts(r@) == finished_ids(old(self).view_jobs()),
            final(self).view_jobs() == without_all(
                old(self).view_jobs(),
                finished_ids(old(self).view_jobs()),
            ),
    {
        let ghost before = self.jobs@;
        let ghost views = job_views(before);
        let mut ids: Vec<String> = Vec::new();
        let mut i: usize = 0;
        assert(views.take(0) =~= Seq::<JobView>::empty());
        assert(texts(ids@) =~= Seq::<Seq<char>>::empty());
        while i < self.jobs.len()
            invariant
                i <= self.jobs@.len(),
                self.jobs@ == before,
                self.same_but_jobs(*old(self)),
                views == job_views(before),
                texts(ids@) == finished_ids(views.take(i as int)),
            decreases self.jobs@.len() - i,
        {
            let j = &self.jobs[i];
            assert(views.take(i as int + 1).drop_last() =~= views.take(i as int));
            assert(views.take(i as int + 1).last() == j@);
            let done: bool = match j.max_runs {
                Some(m) => j.successful_runs >= m,
                None => false,
            };
            if done && j.delete_after_run {
                let id = j.id.clone();
                proof {
                    crate::split::lemma_texts_push(ids@, id);
                }
                ids.push(id);
            }
            i += 1;
        }
        assert(views.take(views.len() as int) =~= views);
        let ghost gone = texts(ids@);
        let mut kept: Vec<JobEntry> = Vec::new();
        let mut rest: Vec<JobEntry> = Vec::new();
        std::mem::swap(&mut rest, &mut self.jobs);
        assert(job_views(kept@) =~= Seq::<JobView>::empty());
        while rest.len() > 0
            invariant
                rest@.len() <= before.len(),
                views == job_views(before),
                gone == texts(ids@),
                rest@ == before.skip(before.len() - rest@.len()),
                job_views(kept@) == without_all(views.take(before.len() - rest@.len()), gone),
            decreases rest@.len(),
        {
            let ghost k = before.len() - rest@.len();
            let job = rest.remove(0);
            assert(rest@ =~= before.skip(k + 1));
            assert(views.take(k + 1).drop_last() =~= views.take(k));
            assert(views.take(k + 1).last() == job@);
            let mut found: bool = false;
            let mut n: usize = 0;
            while n < ids.len()
                invariant
                    n <= ids@.len(),
                    gone == texts(ids@),
                    found == exists|m: int| 0 <= m < n && (#[trigger] gone[m]) == job.id@,
                decreases ids@.len() - n,
            {
                if same_str(ids[n].as_str(), job.id.as_str()) {
                    assert(gone[n as int] == job.id@);
                    found = true;
                }
                n += 1;
            }
            assert(found == gone.contains(job.id@));
            if !found {
                assert(job_views(kept@.push(job)) =~= job_views(kept@).push(job@));
                kept.push(job);
            }
        }
        self.jobs = kept;
        ids
    }

    /// The triggers of the jobs that are due at a time.
    pub fn due_triggers(&self, now: &UtcInstant) -> (r: Vec<CronTrigger>)
        ensures
            trigger_views(r@) == due_triggers_of(self.view_jobs(), self.zone_name(), *now),
    {
        let ghost views = self.view_jobs();
        let mut r: Vec<CronTrigger> = Vec::new();
        let mut i: usize = 0;
        assert(views.take(0) =~= Seq::<JobView>::empty());
        assert(trigger_views(r@) =~= Seq::<TriggerView>::empty());
        while i < self.jobs.len()
            invariant
                i <= self.jobs@.len(),
                views == job_views(self.jobs@),
                trigger_views(r@) == due_triggers_of(
                    views.take(i as int),
                    self.zone_name(),
                    *now,
                ),
            decreases self.jobs@.len() - i,
        {
            let j = &self.jobs[i];
            assert(views.take(i as int + 1).drop_last() =~= views.take(i as int));
            assert(views.take(i as int + 1).last() == j@);
            if job_due(j, self.timezone.as_str(), now) {
                let t = CronTrigger {
                    session_key: session_key(j.id.as_str()),
                    prompt: j.prompt.clone(),
                    target_channel: parse_target_channel(j.target.as_str()),
                    target_account: parse_target_account(j.target.as_str()),
                    target_recipient: match j.delivery {
                        Some(ref d) => copy_opt(&d.to),
                        None => None,
                    },
                    job_id: j.id.clone(),
                    model: copy_opt(&j.model),
                    context_policy: j.context_policy,
                };
                assert(trigger_views(r@.push(t)) =~= trigger_views(r@).push(t@));
                r.push(t);
            }
            i += 1;
        }
        assert(views.take(views.len() as int) =~= views);
        r
    }

    /// Marks the first job with the id as set off at a time.
    pub fn mark_started(&mut self, id: &str, stamp: &Stamp)
        ensures
            final(self).same_but_jobs(*old(self)),
            final(self).view_jobs() == with_started(
                old(self).view_jobs(),
                id@,
                old(self).zone_name(),
                stamp.at,
                stamp.text@,
            ),
    {
        let i: usize = self.position(id);
        if i >= self.jobs.len() {
            return ;
        }
        let ghost before = self.jobs@;
        let timezone = self.timezone.clone();
        let job = &mut self.jobs[i];
        job.last_run_at = Some(stamp.text.clone());
        let next = next_for(job, timezone.as_str(), &stamp.at);
        job.next_run_at = next;
        assert(job_views(self.jobs@) =~= job_views(before).update(i as int, self.jobs@[i as int]@));
    }

    /// One tick of the timer at a time: the triggers of the jobs that are due,
    /// which are marked as set off.
    pub fn tick(&mut self, stamp: &Stamp) -> (r: Vec<CronTrigger>)
        ensures
            final(self).same_but_jobs(*old(self)),
            trigger_views(r@) == due_triggers_of(
                old(self).view_jobs(),
                old(self).zone_name(),
                stamp.at,
            ),
            final(self).view_jobs() == with_all_started(
                old(self).view_jobs(),
                trigger_views(r@),
                old(self).zone_name(),
                stamp.at,
                stamp.text@,
            ),
    {
        let r = self.due_triggers(&stamp.at);
        let ghost ts = trigger_views(r@);
        let ghost before = self.view_jobs();
        let mut i: usize = 0;
        assert(ts.take(0) =~= Seq::<TriggerView>::empty());
        while i < r.len()
            invariant
                i <= r@.len(),
                ts == trigger_views(r@),
                before == old(self).view_jobs(),
                self.same_but_jobs(*old(self)),
                self.view_jobs() == with_all_started(
                    before,
                    ts.take(i as int),
                    old(self).zone_name(),
                    stamp.at,
                    stamp.text@,
                ),
            decreases r@.len() - i,
        {
            assert(ts.take(i as int + 1).drop_last() =~= ts.take(i as int));
            assert(ts.take(i as int + 1).last() == r@[i as int]@);
            self.mark_started(r[i].job_id.as_str(), stamp);
            i += 1;
        }
        assert(ts.take(ts.len() as int) =~= ts);
        r
    }

    /// Adds the job of a Markdown file under an id, unless the file is no cron
    /// job or a job with its schedule and prompt is there. Returns whether it was
    /// added.
    pub fn migrate_file(&mut self, file: &MarkdownFile, fresh_id: String) -> (r: bool)
        ensures
            final(self).same_but_jobs(*old(self)),
            r == match cron_job_of(file.content@) {
                Ok(j) => !timed_prompts(old(self).view_jobs()).contains(
                    (Some(j.schedule), j.prompt),
                ),
                Err(_) => false,
            },
            final(self).view_jobs() == (if r {
                old(self).view_jobs().push(
                    markdown_job(
                        fresh_id@,
                        opt_text(file.stem),
                        cron_job_of(file.content@)->Ok_0,
                    ),
                )
            } else {
                old(self).view_jobs()
            }),
    {
        let job = match parse_cron_file(file.content.as_str()) {
            Ok(j) => j,
            Err(_) => {
                return false;
            },
        };
        let ghost key = (Some(job.schedule@), job.prompt@);
        let ghost views = self.view_jobs();
        let mut i: usize = 0;
        while i < self.jobs.len()
            invariant
                i <= self.jobs@.len(),
                views == job_views(self.jobs@),
                views == old(self).view_jobs(),
                self.same_but_jobs(*old(self)),
                key == (Some(job.schedule@), job.prompt@),
                cron_job_of(file.content@) matches Ok(v) && v == job@,
                forall|k: int| 0 <= k < i ==> #[trigger] timed_prompts(views)[k] != key,
            decreases self.jobs@.len() - i,
        {
            assert(timed_prompts(views)[i as int] == (
                opt_text(self.jobs@[i as int].schedule),
                self.jobs@[i as int].prompt@,
            ));
            if same_opt(&self.jobs[i].schedule, job.schedule.as_str()) && same_str(
                self.jobs[i].prompt.as_str(),
                job.prompt.as_str(),
            ) {
                assert(timed_prompts(views)[i as int] == key);
                return false;
            }
            i += 1;
        }
        assert(!timed_prompts(views).contains(key));
        let entry = JobEntry {
            id: fresh_id,
            schedule: Some(job.schedule),
            prompt: job.prompt,
            target: job.target,
            name: copy_opt(&file.stem),
            tz: None,
            active_hours: job.active_hours,
            enabled: true,
            last_run_at: None,
            next_run_at: None,
            created_at: None,
            delivery: None,
            last_runs: Vec::new(),
            enabled_tools: None,
            disabled_tools: None,
            schedule_kind: None,
            retry: None,
            failure_alert: None,
            consecutive_errors: 0,
            consecutive_skipped: 0,
            max_runs: None,
            completed_runs: 0,
            successful_runs: 0,
            delete_after_run: false,
            model: None,
            provider: None,
            last_failure_alert_at: None,
            context_policy: ContextPolicy::Inject,
            webhook: None,
        };
        let ghost before = self.jobs@;
        assert(entry@.last_runs =~= Seq::<RunRecordView>::empty());
        self.jobs.push(entry);
        assert(job_views(self.jobs@) =~= job_views(before).push(entry@));
        true
    }

    /// Adds the jobs of Markdown files. Returns how many were added.
    pub fn migrate_from_markdown(&mut self, files: &Vec<MarkdownFile>) -> (r: usize)
        ensures
            final(self).same_but_jobs(*old(self)),
            exists|uuids: Seq<Seq<char>>|
                uuids.len() == files@.len() && all_uuid_texts(uuids) && final(self).view_jobs() == #[trigger] migrated_jobs(
                    old(self).view_jobs(),
                    files@,
                    old(self).id_namespace(),
                    uuids,
                ),
            timed_prompts(final(self).view_jobs()) == migrated_prompts(
                timed_prompts(old(self).view_jobs()),
                files@,
            ),
            final(self).view_jobs().len() == old(self).view_jobs().len() + r,
            final(self).view_jobs().take(old(self).view_jobs().len() as int) == old(self).view_jobs(),
    {
        let mut count: usize = 0;
        let mut i: usize = 0;
        let ghost before = self.view_jobs();
        let ghost namespace = self.id_namespace();
        let ghost mut uuids: Seq<Seq<char>> = Seq::empty();
        assert(files@.take(0) =~= Seq::<MarkdownFile>::empty());
        assert(self.view_jobs().take(before.len() as int) =~= before);
        while i < files.len()
            invariant
                i <= files@.len(),
                count <= i,
                before == old(self).view_jobs(),
                namespace == old(self).id_namespace(),
                self.same_but_jobs(*old(self)),
                uuids.len() == i,
                all_uuid_texts(uuids),
                self.view_jobs() == migrated_jobs(before, files@.take(i as int), namespace, uuids),
                timed_prompts(self.view_jobs()) == migrated_prompts(
                    timed_prompts(before),
                    files@.take(i as int),
                ),
                self.view_jobs().len() == before.len() + count,
                self.view_jobs().take(before.len() as int) == before,
            decreases files@.len() - i,
        {
            assert(files@.take(i as int + 1).drop_last() =~= files@.take(i as int));
            assert(files@.take(i as int + 1).last() == files@[i as int]);
            let ghost mid = self.view_jobs();
            let fresh = self.generate_id();
            proof {
                let uuid = choose|uuid: Seq<char>|
                    fresh@ == #[trigger] job_id(self.id_namespace(), uuid) && is_uuid_text(
                        uuid,
                        '7',
                    );
                lemma_migrated_uuids(before, files@.take(i as int), namespace, uuids, uuid);
                uuids = uuids.push(uuid);
            }
            if self.migrate_file(&files[i], fresh) {
                count += 1;
                proof {
                    let last = self.view_jobs().last();
                    assert(timed_prompts(self.view_jobs()) =~= timed_prompts(mid).push(
                        (last.schedule, last.prompt),
                    ));
                    assert(self.view_jobs().take(before.len() as int) =~= mid.take(
                        before.len() as int,
                    ));
                }
            }
            i += 1;
        }
        assert(files@.take(files@.len() as int) =~= files@);
        count
    }
}

} // verus!
