//! Jobs: what runs, when, and where its output goes.

use crate::scheduling::cron_types::{
    held_kind, DeliveryConfig, FailureAlertConfig, KindView, RetryConfig, RunRecord, RunRecordView,
    ScheduleKind,
};
use crate::scheduling::webhook_loader::WebhookAuth;
use crate::split::lemma_texts_push;
use crate::text::{chars_of, copy_opt, copy_str, opt_text, same_str, texts};
use vstd::prelude::*;

verus! {

/// Whether a job runs in the user's session or in one of its own.
#[derive(Clone, Copy, PartialEq, Eq, Structural, Debug)]
pub enum ContextPolicy {
    Inject,
    Isolated,
}

/// One condition on the payload of a webhook request.
#[derive(Debug)]
pub struct WebhookFilter {
    /// Dot path into the payload, such as "issue.state".
    pub field: String,
    /// The value that the field must have.
    pub equals: Option<String>,
    /// A regular expression that must match somewhere in the field.
    pub matches: Option<String>,
    /// Turns the condition round.
    pub not: bool,
}

/// The mathematical value of a [`WebhookFilter`].
pub struct FilterView {
    pub field: Seq<char>,
    pub equals: Option<Seq<char>>,
    pub matches: Option<Seq<char>>,
    pub not: bool,
}

impl View for WebhookFilter {
    type V = FilterView;

    open spec fn view(&self) -> FilterView {
        FilterView {
            field: self.field@,
            equals: opt_text(self.equals),
            matches: opt_text(self.matches),
            not: self.not,
        }
    }
}

impl WebhookFilter {
    /// A copy of the filter.
    pub fn copy(&self) -> (r: WebhookFilter)
        ensures
            r == *self,
    {
        WebhookFilter {
            field: self.field.clone(),
            equals: copy_opt(&self.equals),
            matches: copy_opt(&self.matches),
            not: self.not,
        }
    }
}

/// The webhook side of a job. Its route is the name of the job.
#[derive(Debug)]
pub struct WebhookDef {
    /// "hmac" or "bearer".
    pub auth: String,
    /// HMAC secret or bearer token. A webhook without one is not served.
    pub secret: String,
    /// Event types that set the job off; others are ignored.
    pub events: Option<Vec<String>>,
    /// Conditions that must all hold.
    pub filters: Option<Vec<WebhookFilter>>,
    /// Leaves the payload out of the end of the prompt.
    pub payload_off: bool,
}

/// The views of a row of filters.
pub open spec fn filter_views(v: Seq<WebhookFilter>) -> Seq<FilterView> {
    v.map_values(|f: WebhookFilter| f@)
}

/// The view of an optional row of texts.
pub open spec fn opt_texts(o: Option<Vec<String>>) -> Option<Seq<Seq<char>>> {
    match o {
        Some(v) => Some(texts(v@)),
        None => None,
    }
}

/// The view of an optional row of filters.
pub open spec fn opt_filters(o: Option<Vec<WebhookFilter>>) -> Option<Seq<FilterView>> {
    match o {
        Some(v) => Some(filter_views(v@)),
        None => None,
    }
}

/// The mathematical value of a [`WebhookDef`].
pub struct WebhookDefView {
    pub auth: Seq<char>,
    pub secret: Seq<char>,
    pub events: Option<Seq<Seq<char>>>,
    pub filters: Option<Seq<FilterView>>,
    pub payload_off: bool,
}

impl View for WebhookDef {
    type V = WebhookDefView;

    open spec fn view(&self) -> WebhookDefView {
        WebhookDefView {
            auth: self.auth@,
            secret: self.secret@,
            events: opt_texts(self.events),
            filters: opt_filters(self.filters),
            payload_off: self.payload_off,
        }
    }
}

/// How a webhook with this `auth` text is authenticated: by bearer token where
/// it says so, else by signature.
pub open spec fn auth_of(auth: Seq<char>) -> WebhookAuth {
    if auth == "bearer"@ {
        WebhookAuth::Bearer
    } else {
        WebhookAuth::Hmac
    }
}

impl WebhookDef {
    /// How requests prove themselves.
    pub fn auth_kind(&self) -> (r: WebhookAuth)
        ensures
            r == auth_of(self@.auth),
    {
        if same_str(self.auth.as_str(), "bearer") {
            WebhookAuth::Bearer
        } else {
            WebhookAuth::Hmac
        }
    }
}

/// The authentication of a webhook that names none.
pub fn default_webhook_auth() -> (r: String)
    ensures
        r@ == "hmac"@,
{
    copy_str("hmac")
}

/// The context policy of a job that names none.
pub fn default_context_policy() -> (r: ContextPolicy)
    ensures
        r == ContextPolicy::Inject,
{
    ContextPolicy::Inject
}

/// The target of a job that names none.
pub fn default_target() -> (r: String)
    ensures
        r@ == "last"@,
{
    copy_str("last")
}

/// Whether a job that does not say so is enabled.
pub fn default_true() -> (r: bool)
    ensures
        r,
{
    true
}

/// A job.
#[derive(Debug)]
pub struct JobEntry {
    /// `<namespace>/job/<uuid>`.
    pub id: String,
    /// Cron expression of six fields: second, minute, hour, day, month, weekday.
    /// A job without a schedule never runs by its timer.
    pub schedule: Option<String>,
    /// What the agent is asked when the job runs.
    pub prompt: String,
    /// Where output goes: "last", "none", or a channel.
    pub target: String,
    /// The name, which is also the webhook route.
    pub name: Option<String>,
    /// Time zone of the job's own.
    pub tz: Option<String>,
    /// Hours in which the job may run, such as "08:00-24:00".
    pub active_hours: Option<String>,
    pub enabled: bool,
    /// RFC 3339 text of the last run.
    pub last_run_at: Option<String>,
    /// RFC 3339 text of the next run.
    pub next_run_at: Option<String>,
    /// RFC 3339 text of the creation.
    pub created_at: Option<String>,
    /// Overrides `target` when set.
    pub delivery: Option<DeliveryConfig>,
    /// The most recent runs.
    pub last_runs: Vec<RunRecord>,
    /// The only tools available to the job, when set.
    pub enabled_tools: Option<Vec<String>>,
    /// Tools that are not available to the job.
    pub disabled_tools: Option<Vec<String>>,
    /// Overrides `schedule` as to when the job runs.
    pub schedule_kind: Option<ScheduleKind>,
    pub retry: Option<RetryConfig>,
    pub failure_alert: Option<FailureAlertConfig>,
    /// Failures since the last success.
    pub consecutive_errors: u32,
    /// Skipped runs in a row.
    pub consecutive_skipped: u32,
    /// Max number of successful runs before the job is disabled, none for no limit.
    pub max_runs: Option<u32>,
    /// Number of completed runs, successful or not.
    pub completed_runs: u32,
    /// Number of successful runs.
    pub successful_runs: u32,
    /// Whether a job that has ended is deleted, not only disabled.
    pub delete_after_run: bool,
    pub model: Option<String>,
    pub provider: Option<String>,
    /// RFC 3339 text of the last alert.
    pub last_failure_alert_at: Option<String>,
    pub context_policy: ContextPolicy,
    /// The webhook side of the job.
    pub webhook: Option<WebhookDef>,
}

/// The mathematical value of a [`JobEntry`].
pub struct JobView {
    pub id: Seq<char>,
    pub schedule: Option<Seq<char>>,
    pub prompt: Seq<char>,
    pub target: Seq<char>,
    pub name: Option<Seq<char>>,
    pub tz: Option<Seq<char>>,
    pub active_hours: Option<Seq<char>>,
    pub enabled: bool,
    pub last_run_at: Option<Seq<char>>,
    pub next_run_at: Option<Seq<char>>,
    pub created_at: Option<Seq<char>>,
    pub delivery: Option<DeliveryConfig>,
    pub last_runs: Seq<RunRecordView>,
    pub enabled_tools: Option<Seq<Seq<char>>>,
    pub disabled_tools: Option<Seq<Seq<char>>>,
    pub schedule_kind: Option<KindView>,
    pub retry: Option<RetryConfig>,
    pub failure_alert: Option<FailureAlertConfig>,
    pub consecutive_errors: u32,
    pub consecutive_skipped: u32,
    pub max_runs: Option<u32>,
    pub completed_runs: u32,
    pub successful_runs: u32,
    pub delete_after_run: bool,
    pub model: Option<Seq<char>>,
    pub provider: Option<Seq<char>>,
    pub last_failure_alert_at: Option<Seq<char>>,
    pub context_policy: ContextPolicy,
    pub webhook: Option<WebhookDefView>,
}

/// The views of a row of run records.
pub open spec fn record_views(v: Seq<RunRecord>) -> Seq<RunRecordView> {
    v.map_values(|r: RunRecord| r@)
}

/// The view of an optional webhook definition.
pub open spec fn opt_webhook(o: Option<WebhookDef>) -> Option<WebhookDefView> {
    match o {
        Some(w) => Some(w@),
        None => None,
    }
}

impl View for JobEntry {
    type V = JobView;

    open spec fn view(&self) -> JobView {
        JobView {
            id: self.id@,
            schedule: opt_text(self.schedule),
            prompt: self.prompt@,
            target: self.target@,
            name: opt_text(self.name),
            tz: opt_text(self.tz),
            active_hours: opt_text(self.active_hours),
            enabled: self.enabled,
            last_run_at: opt_text(self.last_run_at),
            next_run_at: opt_text(self.next_run_at),
            created_at: opt_text(self.created_at),
            delivery: self.delivery,
            last_runs: record_views(self.last_runs@),
            enabled_tools: opt_texts(self.enabled_tools),
            disabled_tools: opt_texts(self.disabled_tools),
            schedule_kind: held_kind(self.schedule_kind),
            retry: self.retry,
            failure_alert: self.failure_alert,
            consecutive_errors: self.consecutive_errors,
            consecutive_skipped: self.consecutive_skipped,
            max_runs: self.max_runs,
            completed_runs: self.completed_runs,
            successful_runs: self.successful_runs,
            delete_after_run: self.delete_after_run,
            model: opt_text(self.model),
            provider: opt_text(self.provider),
            last_failure_alert_at: opt_text(self.last_failure_alert_at),
            context_policy: self.context_policy,
            webhook: opt_webhook(self.webhook),
        }
    }
}

/// The views of a row of jobs.
pub open spec fn job_views(v: Seq<JobEntry>) -> Seq<JobView> {
    v.map_values(|j: JobEntry| j@)
}

/// A file of jobs.
#[derive(Debug)]
pub struct JobsFile {
    pub jobs: Vec<JobEntry>,
}

/// Changes to a job. What is not set stays.
#[derive(Debug)]
pub struct JobUpdate {
    pub name: Option<String>,
    /// The new schedule, if `schedule_changed`; `None` then takes the timer away.
    pub schedule: Option<String>,
    pub schedule_changed: bool,
    pub schedule_kind: Option<ScheduleKind>,
    /// The new webhook, if `webhook_changed`.
    pub webhook: Option<Option<WebhookDef>>,
    pub webhook_changed: bool,
    pub prompt: Option<String>,
    pub target: Option<String>,
    pub tz: Option<String>,
    pub active_hours: Option<String>,
    pub enabled: Option<bool>,
    pub delivery: Option<DeliveryConfig>,
    pub enabled_tools: Option<Vec<String>>,
    pub disabled_tools: Option<Vec<String>>,
    pub retry: Option<RetryConfig>,
    pub failure_alert: Option<FailureAlertConfig>,
    pub max_runs: Option<Option<u32>>,
    pub delete_after_run: Option<bool>,
    pub model: Option<Option<String>>,
    pub provider: Option<Option<String>>,
    /// Makes the job due at once. Only an enabled job with a schedule can be.
    pub trigger_now: bool,
}

/// Whether an update changes nothing.
pub open spec fn is_empty_update(u: JobUpdate) -> bool {
    &&& u.name is None
    &&& u.schedule is None
    &&& !u.schedule_changed
    &&& u.schedule_kind is None
    &&& u.webhook is None
    &&& !u.webhook_changed
    &&& u.prompt is None
    &&& u.target is None
    &&& u.tz is None
    &&& u.active_hours is None
    &&& u.enabled is None
    &&& u.delivery is None
    &&& u.enabled_tools is None
    &&& u.disabled_tools is None
    &&& u.retry is None
    &&& u.failure_alert is None
    &&& u.max_runs is None
    &&& u.delete_after_run is None
    &&& u.model is None
    &&& u.provider is None
    &&& !u.trigger_now
}

impl Default for JobUpdate {
    fn default() -> (r: JobUpdate)
        ensures
            is_empty_update(r),
    {
        JobUpdate {
            name: None,
            schedule: None,
            schedule_changed: false,
            schedule_kind: None,
            webhook: None,
            webhook_changed: false,
            prompt: None,
            target: None,
            tz: None,
            active_hours: None,
            enabled: None,
            delivery: None,
            enabled_tools: None,
            disabled_tools: None,
            retry: None,
            failure_alert: None,
            max_runs: None,
            delete_after_run: None,
            model: None,
            provider: None,
            trigger_now: false,
        }
    }
}

/// How often memory is distilled while nobody writes.
#[derive(Clone, Copy, PartialEq, Eq, Structural, Debug)]
pub struct DistillConfig {
    /// Seconds without a message before a pass may run.
    pub idle_secs: u64,
    /// Seconds between two checks.
    pub interval_secs: u64,
}

/// A webhook job as the server sees it. It is served at `POST /hooks/{route}`.
#[derive(Debug)]
pub struct WebhookJobDef {
    /// Id of the owning job.
    pub id: String,
    /// The name of the job.
    pub route: String,
    /// HMAC secret or bearer token, never empty.
    pub secret: String,
    pub auth: WebhookAuth,
    pub target: String,
    /// The prompt of the job, with `{{a.b.c}}` placeholders.
    pub prompt_template: String,
    pub events: Option<Vec<String>>,
    pub filters: Option<Vec<WebhookFilter>>,
    pub payload_off: bool,
}

/// The mathematical value of a [`WebhookJobDef`].
pub struct WebhookJobView {
    pub id: Seq<char>,
    pub route: Seq<char>,
    pub secret: Seq<char>,
    pub auth: WebhookAuth,
    pub target: Seq<char>,
    pub prompt_template: Seq<char>,
    pub events: Option<Seq<Seq<char>>>,
    pub filters: Option<Seq<FilterView>>,
    pub payload_off: bool,
}

impl View for WebhookJobDef {
    type V = WebhookJobView;

    open spec fn view(&self) -> WebhookJobView {
        WebhookJobView {
            id: self.id@,
            route: self.route@,
            secret: self.secret@,
            auth: self.auth,
            target: self.target@,
            prompt_template: self.prompt_template@,
            events: opt_texts(self.events),
            filters: opt_filters(self.filters),
            payload_off: self.payload_off,
        }
    }
}

/// The views of a row of webhook jobs.
pub open spec fn webhook_views(v: Seq<WebhookJobDef>) -> Seq<WebhookJobView> {
    v.map_values(|j: WebhookJobDef| j@)
}

/// A copy of a row of strings.
pub fn copy_strings(v: &Vec<String>) -> (r: Vec<String>)
    ensures
        texts(r@) == texts(v@),
{
    let mut r: Vec<String> = Vec::new();
    let mut i: usize = 0;
    assert(texts(v@).take(0) =~= texts(r@));
    while i < v.len()
        invariant
            i <= v@.len(),
            texts(r@) == texts(v@).take(i as int),
        decreases v@.len() - i,
    {
        let s = v[i].clone();
        proof {
            lemma_texts_push(r@, s);
            assert(texts(v@).take(i as int + 1) =~= texts(v@).take(i as int).push(s@));
        }
        r.push(s);
        i += 1;
    }
    assert(texts(v@).take(v@.len() as int) =~= texts(v@));
    r
}

/// A copy of a row of filters.
pub fn copy_filters(v: &Vec<WebhookFilter>) -> (r: Vec<WebhookFilter>)
    ensures
        filter_views(r@) == filter_views(v@),
{
    let mut r: Vec<WebhookFilter> = Vec::new();
    let mut i: usize = 0;
    while i < v.len()
        invariant
            i <= v@.len(),
            r@ == v@.take(i as int),
        decreases v@.len() - i,
    {
        r.push(v[i].copy());
        assert(v@.take(i as int + 1) =~= v@.take(i as int).push(v@[i as int]));
        i += 1;
    }
    assert(v@.take(v@.len() as int) =~= v@);
    r
}

// ── Routes ─────────────────────────────────────────────────────────────────

/// Whether a character may stand in a route: `[a-z0-9-]`.
pub open spec fn is_slug_char(c: char) -> bool {
    ||| 'a' as int <= c as int <= 'z' as int
    ||| '0' as int <= c as int <= '9' as int
    ||| c == '-'
}

/// Whether a text is a route: 1 to 64 characters of `[a-z0-9-]`.
pub open spec fn is_slug(s: Seq<char>) -> bool {
    1 <= s.len() <= 64 && forall|i: int| 0 <= i < s.len() ==> is_slug_char(#[trigger] s[i])
}

fn slug_char(c: char) -> (r: bool)
    ensures
        r == is_slug_char(c),
{
    let n: u32 = c as u32;
    (97 <= n && n <= 122) || (48 <= n && n <= 57) || c == '-'
}

/// Whether a text is a route: 1 to 64 characters of `[a-z0-9-]`.
pub fn is_route_slug(s: &str) -> (r: bool)
    ensures
        r == is_slug(s@),
{
    let v = chars_of(s);
    if v.len() == 0 || v.len() > 64 {
        return false;
    }
    let mut i: usize = 0;
    while i < v.len()
        invariant
            i <= v@.len(),
            v@ == s@,
            forall|j: int| 0 <= j < i ==> is_slug_char(#[trigger] v@[j]),
        decreases v@.len() - i,
    {
        if !slug_char(v[i]) {
            assert(!is_slug_char(s@[i as int]));
            return false;
        }
        i += 1;
    }
    true
}

} // verus!
