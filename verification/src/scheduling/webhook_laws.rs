//! What the judgement of a webhook request promises of every request.

use vstd::prelude::*;
use vstd::utf8::encode_utf8;

use crate::json::{json_parsed, json_pretty_text, JsonView};
use crate::number::{hex_char, parsed_i64, parsed_unsigned};
use crate::pattern::occurs;
use crate::scheduling::cron_types::RunStatus;
use crate::scheduling::job::{FilterView, WebhookJobView};
use crate::scheduling::scheduler::session_key_of;
use crate::scheduling::webhook::{
    address_of, agent_call_of, answers_request, credentials_of, delivered, failure_reply,
    first_present, gate_reply, judged, notes_request, outcome_reply, route_index, routing_of,
    run_record, verdict_of, Admission, ReplyView, RequestHead, Routing, VerdictView,
};
use crate::scheduling::webhook_auth::{
    auth_failure, hex_bytes, hmac_code, is_fresh, lossy_text, AuthFailure, CredentialsView,
};
use crate::scheduling::webhook_guard::{is_new_delivery, notes_delivery, WEBHOOK_DELIVERY_TTL_NANOS};

use crate::scheduling::webhook_payload::{
    event_type_of, filter_holds, ignore_reason_of, payload_of, prompt_of, prompt_with,
    takes_content,
};
use crate::split::split_on;
use crate::text::{begins_with, has_text, lemma_has_text, opt_text, trimmed};
use crate::text_laws::{law_cutting_once, law_splitting, lemma_holds_around};
use crate::time::{Stamp, UtcInstant, CALENDAR_END, CALENDAR_START};

verus! {

// ── Filters and events ─────────────────────────────────────────────────────

/// A request of which some condition does not hold is ignored and not run, whatever
/// the other conditions say.
pub proof fn law_one_failed_filter_stops_a_request(
    job: WebhookJobView,
    event: Option<Seq<char>>,
    payload: JsonView,
    at: Seq<char>,
    filters: Seq<FilterView>,
    i: int,
)
    requires
        job.filters == Some(filters),
        0 <= i < filters.len(),
        !filter_holds(filters[i], payload),
    ensures
        ignore_reason_of(job, event, payload) is Some,
        ignore_reason_of(job, event_type_of(event, payload), payload) is Some,
        judged(job, event, payload, at) is Ignored,
{
}

/// A request all of whose conditions hold, and whose event is listed if there is a
/// list, is run.
pub proof fn law_a_request_that_fits_is_run(
    job: WebhookJobView,
    event: Option<Seq<char>>,
    payload: JsonView,
    at: Seq<char>,
)
    requires
        job.filters is Some ==> forall|i: int|
            0 <= i < job.filters->0.len() ==> filter_holds(#[trigger] job.filters->0[i], payload),
        job.events is Some ==> exists|k: int|
            0 <= k < job.events->0.len() && (match event_type_of(event, payload) {
                Some(e) => #[trigger] job.events->0[k] == e,
                None => job.events->0[k].len() == 0,
            }),
    ensures
        ignore_reason_of(job, event_type_of(event, payload), payload) is None,
        judged(job, event, payload, at) is Run,
{
    if job.events is Some {
        let k = choose|k: int|
            0 <= k < job.events->0.len() && (match event_type_of(event, payload) {
                Some(e) => #[trigger] job.events->0[k] == e,
                None => job.events->0[k].len() == 0,
            });
        if event_type_of(event, payload) is None {
            assert(job.events->0[k] =~= Seq::<char>::empty());
        }
        assert(job.events->0.contains(job.events->0[k]));
    }
}

/// A request whose event is not on the list of a job is ignored, and the reason names
/// the event.
pub proof fn law_unlisted_events_are_ignored(
    job: WebhookJobView,
    event: Seq<char>,
    payload: JsonView,
    at: Seq<char>,
)
    requires
        event.len() > 0,
        job.events is Some,
        forall|k: int| 0 <= k < job.events->0.len() ==> #[trigger] job.events->0[k] != event,
    ensures
        judged(job, Some(event), payload, at) is Ignored,
        ignore_reason_of(job, Some(event), payload) is Some,
        has_text(ignore_reason_of(job, Some(event), payload)->0, event),
{
    reveal_strlit("event '");
    reveal_strlit("' not in whitelist");
    let e = Seq::<char>::empty();
    let t = ignore_reason_of(job, Some(event), payload)->0;
    assert(t =~= "event '"@ + e + event + (e + "' not in whitelist"@));
    lemma_holds_around(t, "event '"@, e, event, e, "' not in whitelist"@);
    assert(e + event + e =~= event);
}

/// An ignored request leaves a skipped run with the reason and the payload in the
/// history, and is answered as a success.
pub proof fn law_ignored_requests_are_recorded(
    job: WebhookJobView,
    event: Option<Seq<char>>,
    payload: JsonView,
    at: Seq<char>,
)
    requires
        ignore_reason_of(job, event_type_of(event, payload), payload) is Some,
    ensures
        judged(job, event, payload, at) matches VerdictView::Ignored { record, reply }
            && record.status == RunStatus::Skipped && record.run_at == at && record.error
            == ignore_reason_of(job, event_type_of(event, payload), payload) && record.trigger
            == Some("webhook"@) && record.payload is Some && (json_pretty_text(payload).len()
            <= 8192 ==> record.payload == Some(json_pretty_text(payload))) && reply.status == 200
            && reply.body == "ignored"@,
{
}

/// A condition on a field of an object: the text of the field is compared or searched
/// for the pattern, and `not` turns the outcome round.
pub proof fn law_conditions_on_texts(
    f: FilterView,
    m: Map<Seq<char>, JsonView>,
    text: Seq<char>,
)
    requires
        !f.field.contains('.'),
        m.dom().contains(f.field),
        m[f.field] == JsonView::Str(text) || m[f.field] == JsonView::Number(text) || (m[f.field]
            == JsonView::Bool(true) && text == "true"@) || (m[f.field] == JsonView::Bool(false)
            && text == "false"@),
    ensures
        f.equals is Some ==> filter_holds(f, JsonView::Object(m)) == ((text == f.equals->0)
            != f.not),
        f.equals is None && f.matches is Some ==> filter_holds(f, JsonView::Object(m)) == (occurs(
            f.matches->0,
            text,
        ) != f.not),
        f.equals is None && f.matches is None ==> filter_holds(f, JsonView::Object(m)) == !f.not,
{
    law_splitting(f.field, '.', Seq::empty());
    reveal_with_fuel(crate::scheduling::webhook_payload::field_walk, 3);
    let names = split_on(f.field, '.');
    assert(names[0] == f.field);
    assert(names.skip(1) =~= Seq::<Seq<char>>::empty());
}

/// A condition on a field that is not there, or holds an object, a list or null, holds
/// exactly if it is negated.
pub proof fn law_conditions_on_missing_fields(
    f: FilterView,
    m: Map<Seq<char>, JsonView>,
)
    requires
        !f.field.contains('.'),
        !m.dom().contains(f.field) || m[f.field] is Object || m[f.field] is Array || m[f.field]
            is Null,
    ensures
        filter_holds(f, JsonView::Object(m)) == f.not,
{
    law_splitting(f.field, '.', Seq::empty());
    reveal_with_fuel(crate::scheduling::webhook_payload::field_walk, 3);
    let names = split_on(f.field, '.');
    assert(names[0] == f.field);
    assert(names.skip(1) =~= Seq::<Seq<char>>::empty());
}

/// A path with dots leads through nested objects: a condition on a field of a field is
/// the condition on the inner object.
pub proof fn law_conditions_follow_the_path(
    f: FilterView,
    m: Map<Seq<char>, JsonView>,
    outer: Seq<char>,
    inner: Seq<char>,
)
    requires
        !outer.contains('.'),
        f.field == outer.push('.') + inner,
    ensures
        m.dom().contains(outer) ==> filter_holds(f, JsonView::Object(m)) == filter_holds(
            (FilterView { field: inner, ..f }),
            m[outer],
        ),
        !m.dom().contains(outer) ==> filter_holds(f, JsonView::Object(m)) == f.not,
{
    law_splitting(outer, '.', inner);
    let names = split_on(f.field, '.');
    assert(names[0] == outer);
    assert(names.skip(1) =~= split_on(inner, '.'));
}

/// The event type is the header's where there is one. Otherwise it is the text of the
/// field `event_type` or, without that field, of the field `type`.
pub proof fn law_event_types(header: Seq<char>, m: Map<Seq<char>, JsonView>, text: Seq<char>)
    ensures
        header.len() > 0 ==> event_type_of(Some(header), JsonView::Object(m)) == Some(header),
        m.dom().contains("event_type"@) && m["event_type"@] == JsonView::Str(text)
            ==> event_type_of(None, JsonView::Object(m)) == Some(text),
        !m.dom().contains("event_type"@) && m.dom().contains("type"@) && m["type"@]
            == JsonView::Str(text) ==> event_type_of(None, JsonView::Object(m)) == Some(text),
        !m.dom().contains("event_type"@) && !m.dom().contains("type"@) ==> event_type_of(
            None,
            JsonView::Object(m),
        ) is None,
        event_type_of(Some(Seq::<char>::empty()), JsonView::Object(m)) == event_type_of(
            None,
            JsonView::Object(m),
        ),
{
}

// ── Payloads and prompts ───────────────────────────────────────────────────

/// A body that is JSON is taken for its value, any other for its text.
pub proof fn law_bodies(body: Seq<u8>)
    ensures
        json_parsed(body) is Some ==> payload_of(body) == json_parsed(body)->0,
        json_parsed(body) is None ==> payload_of(body) == JsonView::Str(lossy_text(body)),
{
}

/// A prompt without placeholders is sent as it is. The whole payload follows it unless
/// the job does without it or there is nothing of it.
pub proof fn law_plain_prompts(
    job: WebhookJobView,
    event_type: Option<Seq<char>>,
    payload: JsonView,
    full: Seq<char>,
)
    requires
        !has_text(job.prompt_template, "{{"@),
    ensures
        begins_with(prompt_with(job, event_type, payload, full), job.prompt_template),
        job.payload_off || full.len() == 0 ==> prompt_with(job, event_type, payload, full)
            == job.prompt_template,
        !job.payload_off && full.len() > 0 ==> prompt_with(job, event_type, payload, full)
            == job.prompt_template + "\n\n--- webhook payload ---\n"@ + full,
{
    let t = job.prompt_template;
    lemma_has_text(t, "{{"@);
    lemma_no_mark(t, "{{payload}}"@);
    lemma_no_mark(t, "{{event_type}}"@);
    crate::text_laws::law_replacing(t, "{{event_type}}"@, match event_type {
        Some(e) => e,
        None => Seq::empty(),
    });
    let r = prompt_with(job, event_type, payload, full);
    assert(r.take(t.len() as int) =~= t);
}

proof fn lemma_no_mark(t: Seq<char>, mark: Seq<char>)
    requires
        !has_text(t, "{{"@),
        mark == "{{payload}}"@ || mark == "{{event_type}}"@,
    ensures
        !has_text(t, mark),
        mark.len() > 0,
{
    reveal_strlit("{{");
    reveal_strlit("{{payload}}");
    reveal_strlit("{{event_type}}");
    if has_text(t, mark) {
        let i = choose|i: int| crate::text::matches_at(t, mark, i);
        assert(t.subrange(i, i + 2) =~= t.subrange(i, i + mark.len()).take(2));
        assert(mark.take(2) =~= "{{"@);
        assert(crate::text::matches_at(t, "{{"@, i));
    }
}

/// A payload that is shorter than the limit is shown whole in the prompt of a job that
/// does not do without it.
pub proof fn law_prompts_show_the_payload(
    job: WebhookJobView,
    event_type: Option<Seq<char>>,
    payload: JsonView,
)
    requires
        !has_text(job.prompt_template, "{{"@),
        !job.payload_off,
        0 < json_pretty_text(payload).len() <= 4000,
    ensures
        has_text(prompt_of(job, event_type, payload), json_pretty_text(payload)),
        begins_with(prompt_of(job, event_type, payload), job.prompt_template),
{
    let full = json_pretty_text(payload);
    law_plain_prompts(job, event_type, payload, full);
    let e = Seq::<char>::empty();
    let t = prompt_of(job, event_type, payload);
    let p = job.prompt_template + "\n\n--- webhook payload ---\n"@;
    assert(t =~= p + e + full + (e + e));
    lemma_holds_around(t, p, e, full, e, e);
    assert(e + full + e =~= full);
}

/// A request that is run is run in the conversation of its job, with its payload and
/// the prompt that is made of it.
pub proof fn law_requests_run_with_their_payload(
    job: WebhookJobView,
    event: Option<Seq<char>>,
    payload: JsonView,
    at: Seq<char>,
)
    requires
        judged(job, event, payload, at) is Run,
    ensures
        judged(job, event, payload, at) matches VerdictView::Run {
            prompt,
            session_key,
            payload: kept,
        } && kept == payload && session_key == session_key_of(job.id) && prompt == prompt_of(
            job,
            event_type_of(event, payload),
            payload,
        ),
{
}

// ── Proofs of origin ───────────────────────────────────────────────────────

/// What the header of a signature of a message must be.
pub open spec fn signature_header(secret: Seq<char>, message: Seq<u8>) -> Seq<char> {
    "sha256="@ + hex_bytes(hmac_code(encode_utf8(secret), message))
}

/// The code of a message in a header: two digits for each byte, the higher half first.
pub proof fn law_codes_in_hex(code: Seq<u8>, i: int)
    requires
        0 <= i < code.len(),
    ensures
        hex_bytes(code).len() == 2 * code.len(),
        hex_bytes(code)[2 * i] == hex_char((code[i] / 16) as nat),
        hex_bytes(code)[2 * i + 1] == hex_char((code[i] % 16) as nat),
    decreases code.len(),
{
    let fewer = code.drop_last();
    if i < fewer.len() {
        law_codes_in_hex(fewer, i);
        assert(fewer[i] == code[i]);
    } else if fewer.len() > 0 {
        law_codes_in_hex(fewer, 0);
    } else {
        assert(hex_bytes(fewer).len() == 0);
    }
}

/// A signed request without a timestamp enters exactly with the signature of its body.
pub proof fn law_signed_bodies_enter(
    job: WebhookJobView,
    c: CredentialsView,
    body: Seq<u8>,
    now: UtcInstant,
)
    requires
        job.auth is Hmac,
        job.secret.len() > 0,
        c.timestamp is None,
    ensures
        (auth_failure(job, c, body, now) is None) == (c.signature == Some(
            signature_header(job.secret, body),
        )),
        c.signature is None ==> auth_failure(job, c, body, now) == Some(
            AuthFailure::MissingSignature,
        ),
        c.signature is Some && c.signature->0 != signature_header(job.secret, body)
            ==> auth_failure(job, c, body, now) == Some(AuthFailure::InvalidSignature),
{
}

/// A signed request with a timestamp enters exactly if the timestamp is fresh and the
/// signature is that of the timestamp and the body together.
pub proof fn law_signed_timestamps_enter(
    job: WebhookJobView,
    c: CredentialsView,
    body: Seq<u8>,
    now: UtcInstant,
    ts: Seq<char>,
)
    requires
        job.auth is Hmac,
        job.secret.len() > 0,
        c.timestamp == Some(ts),
    ensures
        (auth_failure(job, c, body, now) is None) == (is_fresh(ts, now) && c.signature == Some(
            signature_header(
                job.secret,
                encode_utf8("v2:"@ + ts + ":"@ + lossy_text(body)),
            ),
        )),
        !is_fresh(ts, now) ==> auth_failure(job, c, body, now) == Some(
            AuthFailure::StaleTimestamp,
        ),
{
}

/// A timestamp is fresh exactly if it lies at most 300 whole seconds before or after
/// now.
pub proof fn law_fresh_timestamps(ts: Seq<char>, t: int, now: UtcInstant)
    requires
        parsed_i64(ts) == Some(t),
        CALENDAR_START <= t <= CALENDAR_END,
        now.nanos < 1_000_000_000,
    ensures
        is_fresh(ts, now) == (t * 1_000_000_000 - now.total() < 301 * 1_000_000_000
            && now.secs - t <= 300),
{
}

/// A timestamp that cannot be read is not fresh.
pub proof fn law_unreadable_timestamps(ts: Seq<char>, now: UtcInstant)
    requires
        parsed_i64(ts) is None,
    ensures
        !is_fresh(ts, now),
{
}

/// A request with a token enters exactly if the token is the secret.
pub proof fn law_tokens_enter(
    job: WebhookJobView,
    c: CredentialsView,
    body: Seq<u8>,
    now: UtcInstant,
)
    requires
        job.auth is Bearer,
    ensures
        (auth_failure(job, c, body, now) is None) == (job.secret.len() > 0 && c.authorization
            == Some("Bearer "@ + job.secret)),
{
}

/// A route without a secret lets nobody in.
pub proof fn law_no_secret_no_entry(
    job: WebhookJobView,
    c: CredentialsView,
    body: Seq<u8>,
    now: UtcInstant,
)
    requires
        job.secret.len() == 0,
    ensures
        auth_failure(job, c, body, now) == Some(AuthFailure::Misconfigured),
        failure_reply(AuthFailure::Misconfigured).status == 500,
{
}

/// Whoever does not prove themselves is told that they are not let in.
pub proof fn law_failures_are_unauthorized(f: AuthFailure)
    ensures
        f != AuthFailure::Misconfigured ==> failure_reply(f).status == 401,
{
}

// ── Deliveries ─────────────────────────────────────────────────────────────

/// A request that proved itself is judged once: the same delivery, within an hour, is
/// answered as a duplicate and not run.
pub proof fn law_a_delivery_is_judged_once(
    job: WebhookJobView,
    head: RequestHead,
    body: Seq<u8>,
    before: Map<Seq<char>, u64>,
    after: Map<Seq<char>, u64>,
    stamp: Stamp,
    now: u64,
    again: Stamp,
    later: u64,
)
    requires
        head.delivery_id is Some,
        auth_failure(job, credentials_of(head), body, stamp.at) is None,
        auth_failure(job, credentials_of(head), body, again.at) is None,
        is_new_delivery(before, head.delivery_id->0@, now),
        notes_request(job, head, body, before, after, stamp, now),
        now <= later < now + WEBHOOK_DELIVERY_TTL_NANOS,
    ensures
        verdict_of(job, head, body, before, stamp, now) == judged(
            job,
            opt_text(head.event),
            payload_of(body),
            stamp.text@,
        ),
        verdict_of(job, head, body, after, again, later) == VerdictView::Refused(
            ReplyView { status: 200, body: "duplicate"@ },
        ),
        after.dom().contains(head.delivery_id->0@),
{
}

/// A request without a delivery id is judged each time.
pub proof fn law_requests_without_an_id_are_judged(
    job: WebhookJobView,
    head: RequestHead,
    body: Seq<u8>,
    seen: Map<Seq<char>, u64>,
    stamp: Stamp,
    now: u64,
)
    requires
        head.delivery_id is None,
        auth_failure(job, credentials_of(head), body, stamp.at) is None,
    ensures
        verdict_of(job, head, body, seen, stamp, now) == judged(
            job,
            opt_text(head.event),
            payload_of(body),
            stamp.text@,
        ),
{
}

/// A request that did not prove itself is refused with its failure and leaves no trace.
pub proof fn law_refused_requests_leave_no_trace(
    job: WebhookJobView,
    head: RequestHead,
    body: Seq<u8>,
    before: Map<Seq<char>, u64>,
    after: Map<Seq<char>, u64>,
    stamp: Stamp,
    now: u64,
)
    requires
        auth_failure(job, credentials_of(head), body, stamp.at) is Some,
        notes_request(job, head, body, before, after, stamp, now),
    ensures
        after == before,
        verdict_of(job, head, body, before, stamp, now) == VerdictView::Refused(
            failure_reply(auth_failure(job, credentials_of(head), body, stamp.at)->0),
        ),
{
}

/// The credentials of a request are those of its headers.
pub proof fn law_credentials(head: RequestHead)
    ensures
        credentials_of(head).signature == opt_text(head.signature),
        credentials_of(head).authorization == opt_text(head.authorization),
        credentials_of(head).timestamp == opt_text(head.timestamp),
{
}

/// A delivery is forgotten after an hour and not before. Noting one delivery keeps the
/// others that are not forgotten.
pub proof fn law_deliveries_are_remembered(
    before: Map<Seq<char>, u64>,
    after: Map<Seq<char>, u64>,
    id: Seq<char>,
    other: Seq<char>,
    now: u64,
)
    requires
        notes_delivery(before, after, id, now),
        other != id,
        before.dom().contains(other),
        before[other] <= now,
    ensures
        after.dom().contains(other) == (now - before[other] < 3600 * 1_000_000_000),
        after.dom().contains(other) ==> after[other] == before[other],
        is_new_delivery(before, other, now) == (now - before[other] >= 3600 * 1_000_000_000),
{
}

// ── Routes and gates ───────────────────────────────────────────────────────

proof fn lemma_route_index(jobs: Seq<WebhookJobView>, i: int)
    requires
        0 <= i < jobs.len(),
        forall|k: int| 0 <= k < i ==> (#[trigger] jobs[k]).route != jobs[i].route,
    ensures
        route_index(jobs, jobs[i].route) == i,
    decreases jobs.len(),
{
    if i > 0 {
        assert(jobs[0].route != jobs[i].route);
        assert(jobs.skip(1)[i - 1] == jobs[i]);
        assert forall|k: int| 0 <= k < i - 1 implies (#[trigger] jobs.skip(1)[k]).route
            != jobs.skip(1)[i - 1].route by {
            assert(jobs.skip(1)[k] == jobs[k + 1]);
        }
        lemma_route_index(jobs.skip(1), i - 1);
    }
}

proof fn lemma_no_route(jobs: Seq<WebhookJobView>, route: Seq<char>)
    requires
        forall|k: int| 0 <= k < jobs.len() ==> (#[trigger] jobs[k]).route != route,
    ensures
        route_index(jobs, route) == jobs.len(),
    decreases jobs.len(),
{
    if jobs.len() > 0 {
        assert(jobs[0].route != route);
        assert forall|k: int| 0 <= k < jobs.skip(1).len() implies (#[trigger] jobs.skip(1)[k]).route
            != route by {
            assert(jobs.skip(1)[k] == jobs[k + 1]);
        }
        lemma_no_route(jobs.skip(1), route);
    }
}

/// A posted request to the route of a job reaches the first job of that route.
pub proof fn law_every_job_is_reached(jobs: Seq<WebhookJobView>, i: int)
    requires
        0 <= i < jobs.len(),
        forall|k: int| 0 <= k < i ==> (#[trigger] jobs[k]).route != jobs[i].route,
        !jobs[i].route.contains('/'),
        jobs[i].route != "agent"@,
        jobs[i].route != "wake"@,
    ensures
        routing_of(true, "/hooks/"@ + jobs[i].route, jobs) == Routing::Job(i),
{
    reveal_strlit("/hooks/");
    reveal_strlit("/hooks/agent");
    reveal_strlit("/hooks/wake");
    reveal_strlit("agent");
    reveal_strlit("wake");
    let r = jobs[i].route;
    let path = "/hooks/"@ + r;
    assert(path.skip(7) =~= r);
    assert("/hooks/agent"@.skip(7) =~= "agent"@);
    assert("/hooks/wake"@.skip(7) =~= "wake"@);
    assert(path.take(7) =~= "/hooks/"@);
    lemma_route_index(jobs, i);
}

/// A request that is not posted is refused, and so is one to a path that is nobody's.
pub proof fn law_other_paths_are_refused(
    path: Seq<char>,
    route: Seq<char>,
    jobs: Seq<WebhookJobView>,
)
    requires
        forall|k: int| 0 <= k < jobs.len() ==> (#[trigger] jobs[k]).route != route,
        route != "agent"@,
        route != "wake"@,
    ensures
        routing_of(false, path, jobs) == Routing::Refused(
            ReplyView { status: 405, body: "POST only"@ },
        ),
        routing_of(true, "/hooks/"@ + route, jobs) == Routing::Refused(
            ReplyView { status: 404, body: "no webhook at this path"@ },
        ),
        routing_of(true, "/hooks/agent"@, jobs) == Routing::AgentHook,
        routing_of(true, "/hooks/wake"@, jobs) == Routing::WakeHook,
{
    reveal_strlit("/hooks/");
    reveal_strlit("/hooks/agent");
    reveal_strlit("/hooks/wake");
    reveal_strlit("agent");
    reveal_strlit("wake");
    let p = "/hooks/"@ + route;
    assert(p.skip(7) =~= route);
    assert("/hooks/agent"@.skip(7) =~= "agent"@);
    assert("/hooks/wake"@.skip(7) =~= "wake"@);
    assert("/hooks/wake"@.len() != "/hooks/agent"@.len());
    lemma_no_route(jobs, route);
}

/// A request is let in exactly if its content type is taken, its address has
/// sent fewer than 120 requests lately, fewer than 8 requests of the route are running,
/// and it does not announce more than the limit of a body. The refusals come in that
/// order.
pub proof fn law_who_is_let_in(
    content_type: Option<Seq<char>>,
    content_length: Option<Seq<char>>,
    recent_requests: nat,
    running: nat,
)
    ensures
        ({
            let r = gate_reply(content_type, content_length, recent_requests, running);
            let large = content_length is Some && parsed_unsigned(
                content_length->0,
                usize::MAX as nat,
            ) is Some && parsed_unsigned(content_length->0, usize::MAX as nat)->0 > 256 * 1024;
            &&& (r is None) == (takes_content(content_type) && recent_requests < 120 && running
                < 8 && !large)
            &&& !takes_content(content_type) ==> r is Some && r->0.status == 415
            &&& takes_content(content_type) && recent_requests >= 120 ==> r is Some
                && r->0.status == 429
            &&& takes_content(content_type) && recent_requests < 120 && running >= 8 ==> r is Some
                && r->0.status == 503
            &&& takes_content(content_type) && recent_requests < 120 && running < 8 && large
                ==> r is Some && r->0.status == 413
        }),
{
}

/// Each request is answered as its path and what is known of it say: a refusal is the one
/// of its path, or of what it lacks; the hooks of the agent are told apart.
pub proof fn law_requests_are_answered(
    r: Admission,
    head: RequestHead,
    jobs: Seq<WebhookJobView>,
    guard: crate::scheduling::webhook_guard::WebhookGuard,
    remote_ip: Seq<char>,
    now: u64,
)
    requires
        answers_request(r, head, jobs, guard, remote_ip, now),
    ensures
        !head.is_post ==> (r matches Admission::Refused(said) && said.status == 405),
        head.is_post && head.path@ == "/hooks/agent"@ ==> r is AgentHook,
        head.is_post && head.path@ == "/hooks/wake"@ ==> r is WakeHook,
        routing_of(head.is_post, head.path@, jobs) matches Routing::Refused(reply) ==> (
        r matches Admission::Refused(said) && said@ == reply),
        routing_of(head.is_post, head.path@, jobs) matches Routing::Job(i) ==> (!takes_content(
            opt_text(head.content_type),
        ) ==> (r matches Admission::Refused(said) && said.status == 415)),
        routing_of(head.is_post, head.path@, jobs) matches Routing::Job(i) ==> (takes_content(
            opt_text(head.content_type),
        ) && crate::scheduling::webhook_guard::recent(
            guard.window(jobs[i].route, remote_ip),
            now,
        ).len() >= 120 ==> (r matches Admission::Refused(said) && said.status == 429)),
{
    reveal_strlit("/hooks/agent");
    reveal_strlit("/hooks/wake");
    assert("/hooks/wake"@.len() != "/hooks/agent"@.len());
}

/// A request that is admitted to a job holds a slot of that job's route.
pub proof fn law_admitted_requests_hold_a_slot(
    r: Admission,
    head: RequestHead,
    jobs: Seq<WebhookJobView>,
    guard: crate::scheduling::webhook_guard::WebhookGuard,
    remote_ip: Seq<char>,
    now: u64,
)
    requires
        answers_request(r, head, jobs, guard, remote_ip, now),
        r is Job,
    ensures
        r matches Admission::Job { index, slot } && routing_of(head.is_post, head.path@, jobs)
            == Routing::Job(index as int) && slot.route@ == jobs[index as int].route
            && guard.running(jobs[index as int].route) < 8 && takes_content(
            opt_text(head.content_type),
        ),
{
}

/// Of several headers the first that is there counts, whether it can be read or not.
pub proof fn law_the_first_header_counts(
    missing: Seq<Option<Option<String>>>,
    value: Option<String>,
    rest: Seq<Option<Option<String>>>,
)
    requires
        forall|i: int| 0 <= i < missing.len() ==> (#[trigger] missing[i]) is None,
    ensures
        first_present(missing.push(Some(value)) + rest) == value,
        first_present(missing) is None,
    decreases missing.len(),
{
    let all = missing.push(Some(value)) + rest;
    if missing.len() == 0 {
        assert(all[0] == Some(value));
    } else {
        assert(all[0] == missing[0]);
        assert(all.skip(1) =~= missing.skip(1).push(Some(value)) + rest);
        assert forall|i: int| 0 <= i < missing.skip(1).len() implies (#[trigger] missing.skip(
            1,
        )[i]) is None by {
            assert(missing.skip(1)[i] == missing[i + 1]);
        }
        law_the_first_header_counts(missing.skip(1), value, rest);
    }
}

// ── After the turn ─────────────────────────────────────────────────────────

/// What an agent said goes to the target of the job, unless it said nothing or there
/// is no target. An error goes nowhere.
pub proof fn law_answers_are_delivered(outcome: Result<String, String>, target: Seq<char>)
    ensures
        outcome is Ok && trimmed(outcome->Ok_0@).len() > 0 && target != "none"@ ==> delivered(
            outcome,
            target,
        ) == Some(outcome->Ok_0@),
        outcome is Ok && (trimmed(outcome->Ok_0@).len() == 0 || target == "none"@) ==> delivered(
            outcome,
            target,
        ) is None,
        outcome is Err ==> delivered(outcome, target) is None,
        outcome_reply(true).status == 200,
        outcome_reply(false).status == 500,
{
}

/// The record of a run says when it was, how it ended and how long it took, and keeps
/// the beginnings of the payload and the prompt.
pub proof fn law_runs_are_recorded(
    at: Seq<char>,
    outcome: Result<String, String>,
    duration_ms: u64,
    payload: JsonView,
    prompt: Seq<char>,
)
    ensures
        ({
            let r = run_record(at, outcome, duration_ms, payload, prompt);
            &&& r.run_at == at
            &&& r.duration_ms == duration_ms
            &&& r.trigger == Some("webhook"@)
            &&& outcome is Ok ==> r.status == RunStatus::Succeeded && r.error is None
            &&& outcome is Err ==> r.status == RunStatus::Error && r.error == Some(
                outcome->Err_0@,
            )
            &&& r.prompt_head is Some
            &&& r.prompt_head->0.len() == (if prompt.len() < 512 {
                prompt.len()
            } else {
                512
            })
            &&& prompt.take(r.prompt_head->0.len() as int) == r.prompt_head->0
            &&& json_pretty_text(payload).len() <= 8192 ==> r.payload == Some(
                json_pretty_text(payload),
            )
        }),
{
    assert(prompt.take(prompt.len() as int) =~= prompt);
}

/// Where an answer goes: nowhere for "none", to the last channel for "last", and
/// otherwise to the named channel, with its default account if none is named.
pub proof fn law_addresses(
    channel: Seq<char>,
    account: Seq<char>,
    last: Option<Seq<char>>,
)
    requires
        !channel.contains(':'),
    ensures
        address_of("none"@, last) is None,
        address_of("last"@, None) is None,
        address_of("last"@, Some(channel.push(':') + account)) == Some((channel, account)),
        channel.push(':') + account != "none"@ && channel.push(':') + account != "last"@
            ==> address_of(channel.push(':') + account, last) == Some((channel, account)),
        channel != "none"@ && channel != "last"@ ==> address_of(channel, last) == Some(
            (channel, "default"@),
        ),
{
    law_cutting_once(channel, ':', account);
    reveal_strlit("none");
    reveal_strlit("last");
    assert("none"@[0] != "last"@[0]);
}

/// A call of the agent hook needs a message. Its target is the last channel unless it
/// names one.
pub proof fn law_agent_calls(m: Map<Seq<char>, JsonView>, message: Seq<char>, target: Seq<char>)
    ensures
        agent_call_of(None) is Err,
        m.dom().contains("message"@) && m["message"@] == JsonView::Str(message) && message.len()
            > 0 && m.dom().contains("target"@) && m["target"@] == JsonView::Str(target)
            ==> agent_call_of(Some(JsonView::Object(m))) == Ok::<
            (Seq<char>, Seq<char>),
            ReplyView,
        >((message, target)),
        m.dom().contains("message"@) && m["message"@] == JsonView::Str(message) && message.len()
            > 0 && !m.dom().contains("target"@) ==> agent_call_of(Some(JsonView::Object(m)))
            == Ok::<(Seq<char>, Seq<char>), ReplyView>((message, "last"@)),
        !m.dom().contains("message"@) ==> agent_call_of(Some(JsonView::Object(m))) is Err,
{
}

} // verus!
