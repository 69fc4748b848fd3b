//! The webhook server's decisions: which requests are admitted, what becomes of
//! them, and what is answered.
//!
//! A request to a job's route passes these steps, the cheap ones first: method,
//! route, content type, rate limit, concurrency cap, size, credentials, duplicate
//! deliveries, white list and conditions. What is left runs a turn of the agent.

use crate::json::{field_of, json_parsed, json_pretty_text, Json, JsonView};
use crate::number::{parse_unsigned, parsed_unsigned};
use crate::scheduling::cron_types::{bare_record, RunRecord, RunRecordView, RunStatus};
use crate::scheduling::job::{webhook_views, WebhookJobDef, WebhookJobView};
use crate::scheduling::scheduler::{session_key, session_key_of};
use crate::scheduling::webhook_auth::{
    auth_failure, authorize, bears, bears_token, AuthFailure, Credentials, CredentialsView,
};
use crate::scheduling::webhook_guard::{
    counted, is_new_delivery, notes_delivery, recent, within_rate, InflightGuard, WebhookGuard,
    WEBHOOK_CONCURRENCY_MAX, WEBHOOK_RATE_MAX,
};
use crate::scheduling::webhook_payload::{
    acceptable_content_type, cut_text, event_type_of, extract_event_type, ignore_reason,
    ignore_reason_of, is_json_content, json_content_type, payload_of, pretty_payload, prompt_of,
    read_payload, takes_content, webhook_prompt, RECORD_PAYLOAD_CHARS,
};
use crate::split::{head_of, take_chars};
use crate::text::{
    begins_with, chars_of, copy_str, cut_once, find_char, opt_str, opt_text, piece, same_str,
    split_once, starts_with, string_of, trim, trimmed,
};
use crate::time::{is_reading, read_clock, text_of, Stamp, UtcInstant};
use vstd::prelude::*;

verus! {

/// The largest body, in bytes, that a webhook takes.
pub const WEBHOOK_BODY_LIMIT: usize = 262_144;

/// How long, in seconds, a webhook waits for a body.
pub const WEBHOOK_BODY_TIMEOUT_SECS: u64 = 15;

/// How many characters of the prompt a record of a run holds.
pub const RECORD_PROMPT_CHARS: usize = 512;

// ── Replies ────────────────────────────────────────────────────────────────

/// The answer to a request.
#[derive(Clone, Copy, Debug)]
pub struct Reply {
    pub status: u16,
    pub body: &'static str,
}

/// The mathematical value of a [`Reply`].
pub struct ReplyView {
    pub status: u16,
    pub body: Seq<char>,
}

impl View for Reply {
    type V = ReplyView;

    open spec fn view(&self) -> ReplyView {
        ReplyView { status: self.status, body: self.body@ }
    }
}

/// The view of an optional reply.
pub open spec fn opt_reply(o: Option<Reply>) -> Option<ReplyView> {
    match o {
        Some(r) => Some(r@),
        None => None,
    }
}

/// The answer to a request that is turned away for its credentials.
pub open spec fn failure_reply(f: AuthFailure) -> ReplyView {
    match f {
        AuthFailure::Misconfigured => ReplyView { status: 500, body: "route misconfigured"@ },
        AuthFailure::StaleTimestamp => ReplyView { status: 401, body: "stale timestamp"@ },
        AuthFailure::InvalidSignature => ReplyView { status: 401, body: "invalid signature"@ },
        AuthFailure::MissingSignature => ReplyView { status: 401, body: "missing signature"@ },
        AuthFailure::InvalidToken => ReplyView { status: 401, body: "invalid token"@ },
    }
}

fn reply_to_failure(f: AuthFailure) -> (r: Reply)
    ensures
        r@ == failure_reply(f),
{
    match f {
        AuthFailure::Misconfigured => Reply { status: 500, body: "route misconfigured" },
        AuthFailure::StaleTimestamp => Reply { status: 401, body: "stale timestamp" },
        AuthFailure::InvalidSignature => Reply { status: 401, body: "invalid signature" },
        AuthFailure::MissingSignature => Reply { status: 401, body: "missing signature" },
        AuthFailure::InvalidToken => Reply { status: 401, body: "invalid token" },
    }
}

// ── Requests ───────────────────────────────────────────────────────────────

/// What the head of a request says. A header that is missing or no text is `None`.
#[derive(Debug)]
pub struct RequestHead {
    /// Whether the method is `POST`.
    pub is_post: bool,
    pub path: String,
    pub content_type: Option<String>,
    pub content_length: Option<String>,
    /// `X-Hub-Signature-256`.
    pub signature: Option<String>,
    /// `Authorization`.
    pub authorization: Option<String>,
    /// `X-MyClaw-Timestamp`.
    pub timestamp: Option<String>,
    /// `X-GitHub-Event` or `X-GitLab-Event`.
    pub event: Option<String>,
    /// `X-GitHub-Delivery`, `svix-id` or `X-Request-ID`.
    pub delivery_id: Option<String>,
}

/// The credentials in the head of a request.
pub open spec fn credentials_of(h: RequestHead) -> CredentialsView {
    CredentialsView {
        signature: opt_text(h.signature),
        authorization: opt_text(h.authorization),
        timestamp: opt_text(h.timestamp),
    }
}

/// The text of an optional string.
pub fn as_opt_str(o: &Option<String>) -> (r: Option<&str>)
    ensures
        opt_str(r) == opt_text(*o),
{
    match o {
        Some(s) => Some(s.as_str()),
        None => None,
    }
}

/// The text of the first of several headers that is there at all. A header is
/// `None` where it is missing and `Some(None)` where it is no text.
pub open spec fn first_present(headers: Seq<Option<Option<String>>>) -> Option<String>
    decreases headers.len(),
{
    if headers.len() == 0 {
        None
    } else if headers[0] is Some {
        headers[0].unwrap()
    } else {
        first_present(headers.skip(1))
    }
}

/// The text of the first of several headers that is there at all: a header that
/// is no text hides those behind it.
pub fn first_header(headers: Vec<Option<Option<String>>>) -> (r: Option<String>)
    ensures
        r == first_present(headers@),
{
    let mut i: usize = 0;
    assert(headers@.skip(0) =~= headers@);
    while i < headers.len()
        invariant
            i <= headers@.len(),
            first_present(headers@.skip(i as int)) == first_present(headers@),
        decreases headers@.len() - i,
    {
        assert(headers@.skip(i as int).skip(1) =~= headers@.skip(i as int + 1));
        match headers[i] {
            Some(ref text) => {
                return crate::text::copy_opt(text);
            },
            None => {},
        }
        i += 1;
    }
    None
}

// ── Routing ────────────────────────────────────────────────────────────────

/// Where a request goes.
pub enum Routing {
    Refused(ReplyView),
    AgentHook,
    WakeHook,
    /// The job at this place.
    Job(int),
}

/// The place of the first job with a route, or the number of jobs.
pub open spec fn route_index(jobs: Seq<WebhookJobView>, route: Seq<char>) -> int
    decreases jobs.len(),
{
    if jobs.len() == 0 {
        0
    } else if jobs[0].route == route {
        0
    } else {
        1 + route_index(jobs.skip(1), route)
    }
}

proof fn lemma_route_index(jobs: Seq<WebhookJobView>, route: Seq<char>, i: int)
    requires
        0 <= i <= jobs.len(),
        forall|j: int| 0 <= j < i ==> (#[trigger] jobs[j]).route != route,
        i < jobs.len() ==> jobs[i].route == route,
    ensures
        route_index(jobs, route) == i,
    decreases jobs.len(),
{
    if jobs.len() > 0 && i > 0 {
        assert(jobs[0].route != route);
        assert forall|j: int| 0 <= j < i - 1 implies (#[trigger] jobs.skip(1)[j]).route != route by {
            assert(jobs.skip(1)[j] == jobs[j + 1]);
        }
        lemma_route_index(jobs.skip(1), route, i - 1);
    }
}

/// Where a request goes: `/hooks/agent` and `/hooks/wake` are built in, and
/// `/hooks/{route}` leads to the job with that route.
pub open spec fn routing_of(is_post: bool, path: Seq<char>, jobs: Seq<WebhookJobView>) -> Routing {
    let nothing_here = Routing::Refused(
        ReplyView { status: 404, body: "no webhook at this path"@ },
    );
    if !is_post {
        Routing::Refused(ReplyView { status: 405, body: "POST only"@ })
    } else if path == "/hooks/agent"@ {
        Routing::AgentHook
    } else if path == "/hooks/wake"@ {
        Routing::WakeHook
    } else if !begins_with(path, "/hooks/"@) || path.skip(7).contains('/') {
        nothing_here
    } else if route_index(jobs, path.skip(7)) < jobs.len() {
        Routing::Job(route_index(jobs, path.skip(7)))
    } else {
        nothing_here
    }
}

/// Where a request goes, in the code.
pub enum Route {
    Refused(Reply),
    AgentHook,
    WakeHook,
    /// The job at this place.
    Job(usize),
}

impl View for Route {
    type V = Routing;

    open spec fn view(&self) -> Routing {
        match self {
            Route::Refused(r) => Routing::Refused(r@),
            Route::AgentHook => Routing::AgentHook,
            Route::WakeHook => Routing::WakeHook,
            Route::Job(i) => Routing::Job(*i as int),
        }
    }
}

fn find_route(jobs: &Vec<WebhookJobDef>, route: &str) -> (i: usize)
    ensures
        i == route_index(webhook_views(jobs@), route@),
        i <= jobs@.len(),
{
    let ghost views = webhook_views(jobs@);
    let mut i: usize = 0;
    while i < jobs.len()
        invariant
            i <= jobs@.len(),
            views == webhook_views(jobs@),
            forall|j: int| 0 <= j < i ==> (#[trigger] views[j]).route != route@,
        decreases jobs@.len() - i,
    {
        assert(views[i as int] == jobs@[i as int]@);
        if same_str(jobs[i].route.as_str(), route) {
            proof {
                lemma_route_index(views, route@, i as int);
            }
            return i;
        }
        i += 1;
    }
    proof {
        lemma_route_index(views, route@, i as int);
    }
    i
}

/// Where a request goes.
pub fn route_request(is_post: bool, path: &str, jobs: &Vec<WebhookJobDef>) -> (r: Route)
    ensures
        r@ == routing_of(is_post, path@, webhook_views(jobs@)),
{
    if !is_post {
        return Route::Refused(Reply { status: 405, body: "POST only" });
    }
    if same_str(path, "/hooks/agent") {
        return Route::AgentHook;
    }
    if same_str(path, "/hooks/wake") {
        return Route::WakeHook;
    }
    let v = chars_of(path);
    if !starts_with(&v, "/hooks/") {
        return Route::Refused(Reply { status: 404, body: "no webhook at this path" });
    }
    proof {
        reveal_strlit("/hooks/");
    }
    let rest = piece(&v, 7, v.len());
    assert(rest@ =~= path@.skip(7));
    if find_char(rest, '/') < rest.len() {
        return Route::Refused(Reply { status: 404, body: "no webhook at this path" });
    }
    let route = string_of(rest);
    let i: usize = find_route(jobs, route.as_str());
    if i < jobs.len() {
        Route::Job(i)
    } else {
        Route::Refused(Reply { status: 404, body: "no webhook at this path" })
    }
}

// ── Admission ──────────────────────────────────────────────────────────────

/// Whether the `Content-Length` header announces a body that is too large.
pub open spec fn announces_too_much(content_length: Option<Seq<char>>) -> bool {
    content_length matches Some(c) && parsed_unsigned(c, usize::MAX as nat) matches Some(n) && n
        > WEBHOOK_BODY_LIMIT
}

fn too_long(content_length: Option<&str>) -> (r: bool)
    ensures
        r == announces_too_much(opt_str(content_length)),
{
    match content_length {
        Some(c) => {
            let v = chars_of(c);
            match parse_unsigned(&v, usize::MAX as u64) {
                Some(n) => n > WEBHOOK_BODY_LIMIT as u64,
                None => false,
            }
        },
        None => false,
    }
}

/// What becomes of a request whose job is known, before its body is read.
pub enum Gate {
    Refused(Reply),
    /// The request holds a slot of its route, to be released when it is done.
    Admitted(InflightGuard),
}

/// The answer to a request to a job that is not admitted, given the content type,
/// the announced length, the recent requests from its address and the requests
/// that the route runs.
pub open spec fn gate_reply(
    content_type: Option<Seq<char>>,
    content_length: Option<Seq<char>>,
    recent_requests: nat,
    running: nat,
) -> Option<ReplyView> {
    if !takes_content(content_type) {
        Some(
            ReplyView {
                status: 415,
                body: "Content-Type must be application/json, text/* or application/x-www-form-urlencoded"@,
            },
        )
    } else if recent_requests >= WEBHOOK_RATE_MAX {
        Some(ReplyView { status: 429, body: "rate limit exceeded"@ })
    } else if running >= WEBHOOK_CONCURRENCY_MAX {
        Some(ReplyView { status: 503, body: "route busy"@ })
    } else if announces_too_much(content_length) {
        Some(ReplyView { status: 413, body: "body too large"@ })
    } else {
        None
    }
}

/// Whether the request times are those after a request of an address to a route: it
/// is counted against the rate limit if its content type is taken.
pub open spec fn counts_request(
    content_type: Option<Seq<char>>,
    before: WebhookGuard,
    route: Seq<char>,
    remote_ip: Seq<char>,
    now: u64,
    after: WebhookGuard,
) -> bool {
    if takes_content(content_type) {
        counted(before, route, remote_ip, now, within_rate(before, route, remote_ip, now), after)
    } else {
        after.same_windows(before)
    }
}

/// Decides on a request to a job before its body is read. A request that is
/// refused leaves no slot taken.
pub fn pass_gate(
    job: &WebhookJobDef,
    head: &RequestHead,
    guard: &mut WebhookGuard,
    remote_ip: &str,
    now: u64,
) -> (r: Gate)
    requires
        old(guard).wf(),
    ensures
        final(guard).wf(),
        final(guard).seen() == old(guard).seen(),
        counts_request(
            opt_text(head.content_type),
            *old(guard),
            job.route@,
            remote_ip@,
            now,
            *final(guard),
        ),
        match gate_reply(
            opt_text(head.content_type),
            opt_text(head.content_length),
            recent(old(guard).window(job.route@, remote_ip@), now).len(),
            old(guard).running(job.route@),
        ) {
            Some(reply) => {
                &&& r matches Gate::Refused(said) && said@ == reply
                &&& final(guard).same_running(*old(guard))
            },
            None => {
                &&& r matches Gate::Admitted(slot) && slot.route@ == job.route@
                &&& final(guard).running(job.route@) == old(guard).running(job.route@) + 1
                &&& forall|a: Seq<char>|
                    a != job.route@ ==> #[trigger] final(guard).running(a) == old(guard).running(a)
            },
        },
{
    if !acceptable_content_type(as_opt_str(&head.content_type)) {
        return Gate::Refused(
            Reply {
                status: 415,
                body: "Content-Type must be application/json, text/* or application/x-www-form-urlencoded",
            },
        );
    }
    if !guard.check_rate_at(job.route.as_str(), remote_ip, now) {
        return Gate::Refused(Reply { status: 429, body: "rate limit exceeded" });
    }
    match guard.acquire(job.route.as_str()) {
        Some(slot) => {
            if too_long(as_opt_str(&head.content_length)) {
                guard.release(slot);
                return Gate::Refused(Reply { status: 413, body: "body too large" });
            }
            Gate::Admitted(slot)
        },
        None => Gate::Refused(Reply { status: 503, body: "route busy" }),
    }
}

/// What becomes of a request before its body is read.
pub enum Admission {
    Refused(Reply),
    AgentHook,
    WakeHook,
    /// The request is for the job at this place and holds a slot of its route.
    Job { index: usize, slot: InflightGuard },
}

/// Whether a request to a server in a given state comes to an admission, and leaves
/// the request times as given, when the guard's clock shows `now`.
pub open spec fn is_admission(
    r: Admission,
    head: RequestHead,
    jobs: Seq<WebhookJobView>,
    guard: WebhookGuard,
    remote_ip: Seq<char>,
    now: u64,
    after: WebhookGuard,
) -> bool {
    &&& match routing_of(head.is_post, head.path@, jobs) {
        Routing::Job(i) => counts_request(
            opt_text(head.content_type),
            guard,
            jobs[i].route,
            remote_ip,
            now,
            after,
        ),
        _ => after.same_windows(guard),
    }
    &&& answers_request(r, head, jobs, guard, remote_ip, now)
}

/// Whether an admission is the answer to a request when the guard's clock shows
/// `now`.
pub open spec fn answers_request(
    r: Admission,
    head: RequestHead,
    jobs: Seq<WebhookJobView>,
    guard: WebhookGuard,
    remote_ip: Seq<char>,
    now: u64,
) -> bool {
    match routing_of(head.is_post, head.path@, jobs) {
        Routing::Refused(reply) => r matches Admission::Refused(said) && said@ == reply,
        Routing::AgentHook => r is AgentHook,
        Routing::WakeHook => r is WakeHook,
        Routing::Job(i) => match gate_reply(
            opt_text(head.content_type),
            opt_text(head.content_length),
            recent(guard.window(jobs[i].route, remote_ip), now).len(),
            guard.running(jobs[i].route),
        ) {
            Some(reply) => r matches Admission::Refused(said) && said@ == reply,
            None => r matches Admission::Job { index, slot } && index == i && slot.route@
                == jobs[i].route,
        },
    }
}

/// Decides on a request before its body is read. Only an admitted request holds a
/// slot.
pub fn admit_request(
    head: &RequestHead,
    jobs: &Vec<WebhookJobDef>,
    guard: &mut WebhookGuard,
    remote_ip: &str,
) -> (r: Admission)
    requires
        old(guard).wf(),
    ensures
        exists|now: u64| #[trigger]
            is_admission(
                r,
                *head,
                webhook_views(jobs@),
                *old(guard),
                remote_ip@,
                now,
                *final(guard),
            ),
        final(guard).wf(),
        final(guard).seen() == old(guard).seen(),
        match r {
            Admission::Job { index, slot } => {
                &&& index < jobs@.len()
                &&& final(guard).running(slot.route@) == old(guard).running(slot.route@) + 1
                &&& forall|a: Seq<char>|
                    a != slot.route@ ==> #[trigger] final(guard).running(a) == old(guard).running(a)
            },
            _ => final(guard).same_running(*old(guard)),
        },
{
    let ghost views = webhook_views(jobs@);
    let now: u64 = guard.now();
    let ghost before = *guard;
    match route_request(head.is_post, head.path.as_str(), jobs) {
        Route::Refused(reply) => {
            let r = Admission::Refused(reply);
            assert(is_admission(r, *head, views, before, remote_ip@, now, *guard));
            r
        },
        Route::AgentHook => {
            let r = Admission::AgentHook;
            assert(is_admission(r, *head, views, before, remote_ip@, now, *guard));
            r
        },
        Route::WakeHook => {
            let r = Admission::WakeHook;
            assert(is_admission(r, *head, views, before, remote_ip@, now, *guard));
            r
        },
        Route::Job(index) => {
            proof {
                law_jobs_are_reached_by_their_route(
                    head.is_post,
                    head.path@,
                    views,
                    index as int,
                );
            }
            assert(views[index as int] == jobs@[index as int]@);
            let r = match pass_gate(&jobs[index], head, guard, remote_ip, now) {
                Gate::Refused(reply) => Admission::Refused(reply),
                Gate::Admitted(slot) => Admission::Job { index, slot },
            };
            assert(is_admission(r, *head, views, before, remote_ip@, now, *guard));
            r
        },
    }
}

// ── Bodies ─────────────────────────────────────────────────────────────────

/// Adds a chunk of a body to what was read, unless the body grows too large.
pub fn take_chunk(body: &mut Vec<u8>, chunk: &[u8]) -> (r: bool)
    ensures
        r == (old(body)@.len() + chunk@.len() <= WEBHOOK_BODY_LIMIT),
        final(body)@ == (if r {
            old(body)@ + chunk@
        } else {
            old(body)@
        }),
{
    if body.len() > WEBHOOK_BODY_LIMIT || chunk.len() > WEBHOOK_BODY_LIMIT - body.len() {
        return false;
    }
    let ghost before = body@;
    let mut i: usize = 0;
    while i < chunk.len()
        invariant
            i <= chunk@.len(),
            body@ == before + chunk@.take(i as int),
        decreases chunk@.len() - i,
    {
        body.push(chunk[i]);
        assert(chunk@.take(i as int + 1) =~= chunk@.take(i as int).push(chunk@[i as int]));
        i += 1;
    }
    assert(chunk@.take(chunk@.len() as int) =~= chunk@);
    true
}

/// How the reading of a body failed.
#[derive(Clone, Copy, PartialEq, Eq, Structural, Debug)]
pub enum BodyFailure {
    TooLarge,
    TimedOut,
    Broken,
}

/// The answer to a request whose body could not be read.
pub fn body_failure_reply(f: BodyFailure) -> (r: Reply)
    ensures
        r@ == (match f {
            BodyFailure::TooLarge => ReplyView { status: 413, body: "body too large"@ },
            BodyFailure::TimedOut => ReplyView { status: 408, body: "body read timeout"@ },
            BodyFailure::Broken => ReplyView { status: 400, body: "failed to read body"@ },
        }),
{
    match f {
        BodyFailure::TooLarge => Reply { status: 413, body: "body too large" },
        BodyFailure::TimedOut => Reply { status: 408, body: "body read timeout" },
        BodyFailure::Broken => Reply { status: 400, body: "failed to read body" },
    }
}

// ── Judgement ──────────────────────────────────────────────────────────────

/// What becomes of a request whose body was read.
pub enum Verdict {
    /// It is answered and nothing runs.
    Refused(Reply),
    /// It is acknowledged as not for the agent, and noted.
    Ignored { record: RunRecord, reply: Reply },
    /// It runs a turn of the agent.
    Run { prompt: String, session_key: String, payload: Json },
}

/// The mathematical value of a [`Verdict`].
pub enum VerdictView {
    Refused(ReplyView),
    Ignored { record: RunRecordView, reply: ReplyView },
    Run { prompt: Seq<char>, session_key: Seq<char>, payload: JsonView },
}

impl View for Verdict {
    type V = VerdictView;

    open spec fn view(&self) -> VerdictView {
        match self {
            Verdict::Refused(r) => VerdictView::Refused(r@),
            Verdict::Ignored { record, reply } => VerdictView::Ignored {
                record: record@,
                reply: reply@,
            },
            Verdict::Run { prompt, session_key, payload } => VerdictView::Run {
                prompt: prompt@,
                session_key: session_key@,
                payload: payload@,
            },
        }
    }
}

/// The record of a request that was not for the agent.
pub open spec fn ignored_record(at: Seq<char>, reason: Seq<char>, payload: JsonView) -> RunRecordView {
    RunRecordView {
        trigger: Some("webhook"@),
        error: Some(reason),
        payload: Some(cut_text(json_pretty_text(payload), RECORD_PAYLOAD_CHARS as int)),
        ..bare_record(at, RunStatus::Skipped)
    }
}

/// What becomes of a request that proved itself, given its payload.
pub open spec fn judged(
    job: WebhookJobView,
    event: Option<Seq<char>>,
    payload: JsonView,
    at: Seq<char>,
) -> VerdictView {
    let event_type = event_type_of(event, payload);
    match ignore_reason_of(job, event_type, payload) {
        Some(reason) => VerdictView::Ignored {
            record: ignored_record(at, reason, payload),
            reply: ReplyView { status: 200, body: "ignored"@ },
        },
        None => VerdictView::Run {
            prompt: prompt_of(job, event_type, payload),
            session_key: session_key_of(job.id),
            payload,
        },
    }
}

/// Decides on a request that proved itself, given its payload.
pub fn judge_payload(job: &WebhookJobDef, event: Option<&str>, payload: Json, at: &str) -> (r:
    Verdict)
    ensures
        r@ == judged(job@, opt_str(event), payload@, at@),
{
    let event_type = extract_event_type(event, &payload);
    match ignore_reason(job, as_opt_str(&event_type), &payload) {
        Some(reason) => {
            let mut record = RunRecord::at(copy_str(at), RunStatus::Skipped);
            record.trigger = Some(copy_str("webhook"));
            record.error = Some(reason);
            record.payload = Some(pretty_payload(&payload, RECORD_PAYLOAD_CHARS));
            Verdict::Ignored { record, reply: Reply { status: 200, body: "ignored" } }
        },
        None => {
            let prompt = webhook_prompt(job, as_opt_str(&event_type), &payload);
            Verdict::Run { prompt, session_key: session_key(job.id.as_str()), payload }
        },
    }
}

/// What becomes of a request whose body was read, given the deliveries seen.
pub open spec fn verdict_of(
    job: WebhookJobView,
    head: RequestHead,
    body: Seq<u8>,
    seen: Map<Seq<char>, u64>,
    stamp: Stamp,
    now: u64,
) -> VerdictView {
    match auth_failure(job, credentials_of(head), body, stamp.at) {
        Some(f) => VerdictView::Refused(failure_reply(f)),
        None => if head.delivery_id is Some && !is_new_delivery(
            seen,
            head.delivery_id.unwrap()@,
            now,
        ) {
            VerdictView::Refused(ReplyView { status: 200, body: "duplicate"@ })
        } else {
            judged(job, opt_text(head.event), payload_of(body), stamp.text@)
        },
    }
}

/// Whether the deliveries seen are those after a request at a time: its id is noted
/// if it has one and has proved itself, and else nothing changes.
pub open spec fn notes_request(
    job: WebhookJobView,
    head: RequestHead,
    body: Seq<u8>,
    before: Map<Seq<char>, u64>,
    after: Map<Seq<char>, u64>,
    stamp: Stamp,
    now: u64,
) -> bool {
    if auth_failure(job, credentials_of(head), body, stamp.at) is Some || head.delivery_id is None {
        after == before
    } else {
        notes_delivery(before, after, head.delivery_id.unwrap()@, now)
    }
}

/// Decides on a request whose body was read. The delivery id is noted once the
/// request has proved itself.
pub fn judge_request(
    job: &WebhookJobDef,
    head: &RequestHead,
    body: &[u8],
    guard: &mut WebhookGuard,
    stamp: &Stamp,
    now: u64,
) -> (r: Verdict)
    requires
        old(guard).wf(),
    ensures
        r@ == verdict_of(job@, *head, body@, old(guard).seen(), *stamp, now),
        final(guard).wf(),
        final(guard).same_windows(*old(guard)),
        final(guard).same_running(*old(guard)),
        notes_request(
            job@,
            *head,
            body@,
            old(guard).seen(),
            final(guard).seen(),
            *stamp,
            now,
        ),
{
    let credentials = Credentials {
        signature: as_opt_str(&head.signature),
        authorization: as_opt_str(&head.authorization),
        timestamp: as_opt_str(&head.timestamp),
    };
    assert(credentials@ == credentials_of(*head));
    match authorize(job, &credentials, body, &stamp.at) {
        Some(f) => {
            return Verdict::Refused(reply_to_failure(f));
        },
        None => {},
    }
    match head.delivery_id {
        Some(ref id) => {
            if !guard.check_delivery_at(id.as_str(), now) {
                return Verdict::Refused(Reply { status: 200, body: "duplicate" });
            }
        },
        None => {},
    }
    judge_payload(job, as_opt_str(&head.event), read_payload(body), stamp.text.as_str())
}

/// Decides, now, on a request whose body was read.
pub fn handle_body(
    job: &WebhookJobDef,
    head: &RequestHead,
    body: &[u8],
    guard: &mut WebhookGuard,
) -> (r: Verdict)
    requires
        old(guard).wf(),
    ensures
        exists|stamp: Stamp, now: u64|
            stamp.wf() && is_reading(stamp.at) && #[trigger] verdict_of(
                job@,
                *head,
                body@,
                old(guard).seen(),
                stamp,
                now,
            ) == r@ && notes_request(
                job@,
                *head,
                body@,
                old(guard).seen(),
                final(guard).seen(),
                stamp,
                now,
            ),
        final(guard).wf(),
        final(guard).same_windows(*old(guard)),
        final(guard).same_running(*old(guard)),
{
    let stamp = read_clock();
    let now: u64 = guard.now();
    judge_request(job, head, body, guard, &stamp, now)
}

// ── After the turn ─────────────────────────────────────────────────────────

/// What is done once the agent has run.
pub struct Finish {
    /// The record of the run.
    pub record: RunRecord,
    /// What goes to the target.
    pub deliver: Option<String>,
    pub reply: Reply,
}

/// The answer once the agent has run.
pub open spec fn outcome_reply(succeeded: bool) -> ReplyView {
    if succeeded {
        ReplyView { status: 200, body: "ok"@ }
    } else {
        ReplyView { status: 500, body: "agent error"@ }
    }
}

/// What goes to the target: an answer that is not blank, unless there is no
/// target.
pub open spec fn delivered(outcome: Result<String, String>, target: Seq<char>) -> Option<Seq<char>> {
    match outcome {
        Ok(text) => if trimmed(text@).len() > 0 && target != "none"@ {
            Some(text@)
        } else {
            None
        },
        Err(_) => None,
    }
}

/// The record of a run that a webhook set off.
pub open spec fn run_record(
    at: Seq<char>,
    outcome: Result<String, String>,
    duration_ms: u64,
    payload: JsonView,
    prompt: Seq<char>,
) -> RunRecordView {
    RunRecordView {
        trigger: Some("webhook"@),
        duration_ms,
        payload: Some(cut_text(json_pretty_text(payload), RECORD_PAYLOAD_CHARS as int)),
        prompt_head: Some(head_of(prompt, RECORD_PROMPT_CHARS as int)),
        error: (match outcome {
            Ok(_) => None,
            Err(e) => Some(e@),
        }),
        ..bare_record(
            at,
            if outcome is Ok {
                RunStatus::Succeeded
            } else {
                RunStatus::Error
            },
        )
    }
}

fn choose_delivery(outcome: Result<String, String>, target: &str) -> (r: (Option<String>, Reply))
    ensures
        opt_text(r.0) == delivered(outcome, target@),
        r.1@ == outcome_reply(outcome is Ok),
{
    match outcome {
        Ok(text) => {
            let v = chars_of(text.as_str());
            let deliver = if trim(&v).len() > 0 && !same_str(target, "none") {
                Some(text)
            } else {
                None
            };
            (deliver, Reply { status: 200, body: "ok" })
        },
        Err(_) => (None, Reply { status: 500, body: "agent error" }),
    }
}

/// Settles a run that a webhook set off.
pub fn finish_run(
    target: &str,
    payload: &Json,
    prompt: &str,
    outcome: Result<String, String>,
    duration_ms: u64,
    at: &str,
) -> (r: Finish)
    ensures
        r.record@ == run_record(at@, outcome, duration_ms, payload@, prompt@),
        opt_text(r.deliver) == delivered(outcome, target@),
        r.reply@ == outcome_reply(outcome is Ok),
{
    let mut record = RunRecord::at(
        copy_str(at),
        match outcome {
            Ok(_) => RunStatus::Succeeded,
            Err(_) => RunStatus::Error,
        },
    );
    record.trigger = Some(copy_str("webhook"));
    record.duration_ms = duration_ms;
    record.payload = Some(pretty_payload(payload, RECORD_PAYLOAD_CHARS));
    let p = chars_of(prompt);
    record.prompt_head = Some(string_of(take_chars(&p, RECORD_PROMPT_CHARS)));
    record.error = match outcome {
        Ok(_) => None,
        Err(ref e) => Some(copy_str(e.as_str())),
    };
    let (deliver, reply) = choose_delivery(outcome, target);
    Finish { record, deliver, reply }
}

/// Settles, now, a run that a webhook set off.
pub fn settle_run(
    target: &str,
    payload: &Json,
    prompt: &str,
    outcome: Result<String, String>,
    duration_ms: u64,
) -> (r: Finish)
    ensures
        exists|t: UtcInstant| #[trigger] text_of(t) == Some(r.record.run_at@),
        r.record@ == run_record(r.record.run_at@, outcome, duration_ms, payload@, prompt@),
        opt_text(r.deliver) == delivered(outcome, target@),
        r.reply@ == outcome_reply(outcome is Ok),
{
    let stamp = read_clock();
    assert(text_of(stamp.at) == Some(stamp.text@));
    finish_run(target, payload, prompt, outcome, duration_ms, stamp.text.as_str())
}

// ── Built-in hooks ─────────────────────────────────────────────────────────

/// Whether a request carries the token of the server, where it has one.
pub open spec fn may_call(authorization: Option<Seq<char>>, secret: Option<Seq<char>>) -> bool {
    match secret {
        Some(s) => bears(authorization, s),
        None => true,
    }
}

/// Turns away a call of `/hooks/agent` by its head.
pub fn agent_hook_gate(
    content_type: Option<&str>,
    authorization: Option<&str>,
    secret: Option<&str>,
) -> (r: Option<Reply>)
    ensures
        opt_reply(r) == (if !is_json_content(opt_str(content_type)) {
            Some(ReplyView { status: 415, body: "Content-Type must be application/json"@ })
        } else if !may_call(opt_str(authorization), opt_str(secret)) {
            Some(ReplyView { status: 401, body: "invalid token"@ })
        } else {
            None
        }),
{
    if !json_content_type(content_type) {
        return Some(Reply { status: 415, body: "Content-Type must be application/json" });
    }
    wake_hook_gate(authorization, secret)
}

/// Turns away a call of `/hooks/wake` by its head.
pub fn wake_hook_gate(authorization: Option<&str>, secret: Option<&str>) -> (r: Option<Reply>)
    ensures
        opt_reply(r) == (if may_call(opt_str(authorization), opt_str(secret)) {
            None
        } else {
            Some(ReplyView { status: 401, body: "invalid token"@ })
        }),
{
    match secret {
        Some(s) => if bears_token(authorization, s) {
            None
        } else {
            Some(Reply { status: 401, body: "invalid token" })
        },
        None => None,
    }
}

/// What a call of `/hooks/agent` asks for.
#[derive(Debug)]
pub struct AgentCall {
    /// The prompt of the turn.
    pub message: String,
    /// Where the answer goes.
    pub target: String,
}

/// The string under a name, or another text where there is none.
pub open spec fn string_field(v: JsonView, name: Seq<char>, otherwise: Seq<char>) -> Seq<char> {
    match field_of(v, name) {
        Some(JsonView::Str(s)) => s,
        _ => otherwise,
    }
}

fn read_string_field(v: &Json, name: &str, otherwise: &str) -> (r: String)
    ensures
        r@ == string_field(v@, name@, otherwise@),
{
    match v.get(name) {
        Some(f) => match f.as_str() {
            Some(s) => copy_str(s),
            None => copy_str(otherwise),
        },
        None => copy_str(otherwise),
    }
}

/// What a call of `/hooks/agent` comes to: a message and a target, or a reply.
pub open spec fn agent_call_of(parsed: Option<JsonView>) -> Result<(Seq<char>, Seq<char>), ReplyView> {
    match parsed {
        Some(v) => if string_field(v, "message"@, Seq::empty()).len() == 0 {
            Err(ReplyView { status: 400, body: "missing 'message' field"@ })
        } else {
            Ok((string_field(v, "message"@, Seq::empty()), string_field(v, "target"@, "last"@)))
        },
        None => Err(ReplyView { status: 400, body: "invalid JSON"@ }),
    }
}

/// The view of what a call of `/hooks/agent` comes to.
pub open spec fn call_view(r: Result<AgentCall, Reply>) -> Result<(Seq<char>, Seq<char>), ReplyView> {
    match r {
        Ok(c) => Ok((c.message@, c.target@)),
        Err(e) => Err(e@),
    }
}

/// The view of an optional value.
pub open spec fn opt_value(o: Option<Json>) -> Option<JsonView> {
    match o {
        Some(v) => Some(v@),
        None => None,
    }
}

/// Reads what a call of `/hooks/agent` asks for from the value of its body.
pub fn agent_call(parsed: Option<Json>) -> (r: Result<AgentCall, Reply>)
    ensures
        call_view(r) == agent_call_of(opt_value(parsed)),
{
    match parsed {
        Some(v) => {
            let message = read_string_field(&v, "message", "");
            proof {
                reveal_strlit("");
                assert(""@ =~= Seq::empty());
            }
            if message.as_str().is_empty() {
                return Err(Reply { status: 400, body: "missing 'message' field" });
            }
            Ok(AgentCall { message, target: read_string_field(&v, "target", "last") })
        },
        None => Err(Reply { status: 400, body: "invalid JSON" }),
    }
}

/// Reads a call of `/hooks/agent` from its body.
pub fn read_agent_call(body: &[u8]) -> (r: Result<AgentCall, Reply>)
    ensures
        call_view(r) == agent_call_of(json_parsed(body@)),
{
    agent_call(Json::parse(body))
}

/// The session key of the turns that `/hooks/agent` runs.
pub fn agent_hook_session() -> (r: String)
    ensures
        r@ == "_hooks_agent"@,
{
    copy_str("_hooks_agent")
}

/// Settles a turn that `/hooks/agent` ran: what goes to the target, and the
/// answer.
pub fn finish_agent_call(target: &str, outcome: Result<String, String>) -> (r: (
    Option<String>,
    Reply,
))
    ensures
        opt_text(r.0) == delivered(outcome, target@),
        r.1@ == outcome_reply(outcome is Ok),
{
    choose_delivery(outcome, target)
}

/// Answers a call of `/hooks/wake` by its body.
pub fn answer_wake(body: &[u8]) -> (r: Reply)
    ensures
        r@ == (if json_parsed(body@) is Some {
            ReplyView { status: 200, body: "wake acknowledged"@ }
        } else {
            ReplyView { status: 400, body: "invalid JSON"@ }
        }),
{
    match Json::parse(body) {
        Some(_) => Reply { status: 200, body: "wake acknowledged" },
        None => Reply { status: 400, body: "invalid JSON" },
    }
}

// ── Targets ────────────────────────────────────────────────────────────────

/// The channel and the account that a target stands for.
pub open spec fn address_of(target: Seq<char>, last: Option<Seq<char>>) -> Option<
    (Seq<char>, Seq<char>),
> {
    if target == "none"@ {
        None
    } else if target == "last"@ {
        match last {
            Some(key) => split_once(key, ':'),
            None => None,
        }
    } else {
        match split_once(target, ':') {
            Some(p) => Some(p),
            None => Some((target, "default"@)),
        }
    }
}

/// The view of an optional pair of strings.
pub open spec fn opt_pair(o: Option<(String, String)>) -> Option<(Seq<char>, Seq<char>)> {
    match o {
        Some(p) => Some((p.0@, p.1@)),
        None => None,
    }
}

fn cut_key(key: &str) -> (r: Option<(String, String)>)
    ensures
        opt_pair(r) == split_once(key@, ':'),
{
    let v = chars_of(key);
    match cut_once(&v, ':') {
        Some(p) => Some((string_of(p.0), string_of(p.1))),
        None => None,
    }
}

/// The channel and the account to send to: none for `none`, the last channel
/// used for `last`, and else those that the target names, with the account
/// `default` where it names none.
pub fn target_address(target: &str, last: Option<&str>) -> (r: Option<(String, String)>)
    ensures
        opt_pair(r) == address_of(target@, opt_str(last)),
{
    if same_str(target, "none") {
        return None;
    }
    if same_str(target, "last") {
        return match last {
            Some(key) => cut_key(key),
            None => None,
        };
    }
    match cut_key(target) {
        Some(p) => Some(p),
        None => Some((copy_str(target), copy_str("default"))),
    }
}

// ── Laws ───────────────────────────────────────────────────────────────────

/// A request without a job behind its path, or with another method than `POST`,
/// reaches no job.
pub proof fn law_jobs_are_reached_by_their_route(
    is_post: bool,
    path: Seq<char>,
    jobs: Seq<WebhookJobView>,
    i: int,
)
    requires
        routing_of(is_post, path, jobs) == Routing::Job(i),
    ensures
        is_post,
        0 <= i < jobs.len(),
        path == "/hooks/"@ + jobs[i].route,
        !jobs[i].route.contains('/'),
{
    reveal_strlit("/hooks/");
    lemma_route_index_found(jobs, path.skip(7));
    assert(path =~= path.take(7) + path.skip(7));
    assert(path.take(7) =~= "/hooks/"@);
}

proof fn lemma_route_index_found(jobs: Seq<WebhookJobView>, route: Seq<char>)
    ensures
        0 <= route_index(jobs, route) <= jobs.len(),
        route_index(jobs, route) < jobs.len() ==> jobs[route_index(jobs, route)].route == route,
    decreases jobs.len(),
{
    if jobs.len() > 0 && jobs[0].route != route {
        lemma_route_index_found(jobs.skip(1), route);
    }
}

/// Nothing of a request that did not prove itself is noted or run: it is only
/// answered.
pub proof fn law_unproved_requests_do_nothing(
    job: WebhookJobView,
    head: RequestHead,
    body: Seq<u8>,
    seen: Map<Seq<char>, u64>,
    stamp: Stamp,
    now: u64,
)
    requires
        auth_failure(job, credentials_of(head), body, stamp.at) is Some,
    ensures
        verdict_of(job, head, body, seen, stamp, now) matches VerdictView::Refused(reply)
            && reply.status >= 400,
{
}

/// A delivery that was noted within the hour runs nothing.
pub proof fn law_deliveries_run_once(
    job: WebhookJobView,
    head: RequestHead,
    body: Seq<u8>,
    seen: Map<Seq<char>, u64>,
    stamp: Stamp,
    now: u64,
)
    requires
        head.delivery_id is Some,
        seen.dom().contains(head.delivery_id.unwrap()@),
        now < seen[head.delivery_id.unwrap()@]
            + crate::scheduling::webhook_guard::WEBHOOK_DELIVERY_TTL_NANOS,
    ensures
        verdict_of(job, head, body, seen, stamp, now) is Refused,
{
}

/// A request that proved itself, is new, whose event is on the white list and of
/// which all conditions hold runs a turn of the agent, in the session of its job.
pub proof fn law_wanted_requests_run(
    job: WebhookJobView,
    head: RequestHead,
    body: Seq<u8>,
    seen: Map<Seq<char>, u64>,
    stamp: Stamp,
    now: u64,
)
    requires
        auth_failure(job, credentials_of(head), body, stamp.at) is None,
        head.delivery_id is Some ==> is_new_delivery(seen, head.delivery_id.unwrap()@, now),
        ignore_reason_of(
            job,
            event_type_of(opt_text(head.event), payload_of(body)),
            payload_of(body),
        ) is None,
    ensures
        verdict_of(job, head, body, seen, stamp, now) matches VerdictView::Run {
            prompt,
            session_key,
            payload,
        } && payload == payload_of(body) && session_key == session_key_of(job.id),
{
}

} // verus!
