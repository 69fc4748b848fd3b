//! What a webhook makes of a request body: its payload, the conditions on it and
//! the prompt for the agent.

use crate::json::{field_of, json_parsed, json_pretty_text, opt_json, Json, JsonView};
use crate::pattern::{occurs, occurs_in};
use crate::scheduling::job::{
    filter_views, FilterView, WebhookFilter, WebhookJobDef, WebhookJobView,
};
use crate::scheduling::webhook_auth::{lossy_text, read_lossy};
use crate::scheduling::webhook_loader::{bool_text, fill_template, filled, Reserved, ReservedView};
use crate::split::{replace_text, replaced, slices, split_char, split_on};
use crate::text::{
    begins_with, chars_of, copy_str, has_text, is_text, lowered, opt_str, opt_text, piece,
    same_str, starts_with, str_holds, string_of, texts, to_lower, trim, trimmed,
};
use vstd::prelude::*;

verus! {

/// How many characters of the payload a prompt holds.
pub const PROMPT_PAYLOAD_CHARS: usize = 4000;

/// How many characters of the payload a record of a run holds.
pub const RECORD_PAYLOAD_CHARS: usize = 8192;

// ── Content types ──────────────────────────────────────────────────────────

/// The media type of a `Content-Type` header, without its parameters.
pub open spec fn media_type(ct: Seq<char>) -> Seq<char> {
    lowered(trimmed(split_on(ct, ';')[0]))
}

fn read_media_type(ct: &str) -> (r: Vec<char>)
    ensures
        r@ == media_type(ct@),
{
    let v = chars_of(ct);
    let parts = split_char(&v, ';');
    assert(slices(parts@)[0] == parts@[0]@);
    to_lower(trim(parts[0]))
}

/// Whether a webhook takes bodies of a content type.
pub open spec fn takes_content(ct: Option<Seq<char>>) -> bool {
    match ct {
        Some(c) => media_type(c) == "application/json"@ || begins_with(media_type(c), "text/"@)
            || media_type(c) == "application/x-www-form-urlencoded"@,
        None => false,
    }
}

/// Whether a webhook takes bodies of a content type: JSON, any text and forms.
pub fn acceptable_content_type(ct: Option<&str>) -> (r: bool)
    ensures
        r == takes_content(opt_str(ct)),
{
    match ct {
        Some(c) => {
            let mime = read_media_type(c);
            is_text(&mime, "application/json") || starts_with(&mime, "text/") || is_text(
                &mime,
                "application/x-www-form-urlencoded",
            )
        },
        None => false,
    }
}

/// Whether a content type is that of JSON.
pub open spec fn is_json_content(ct: Option<Seq<char>>) -> bool {
    ct matches Some(c) && media_type(c) == "application/json"@
}

/// Whether a content type is that of JSON.
pub fn json_content_type(ct: Option<&str>) -> (r: bool)
    ensures
        r == is_json_content(opt_str(ct)),
{
    match ct {
        Some(c) => {
            let mime = read_media_type(c);
            is_text(&mime, "application/json")
        },
        None => false,
    }
}

// ── Payloads ───────────────────────────────────────────────────────────────

/// The payload of a body, given what it parses to and what it reads as.
pub open spec fn payload_from(parsed: Option<JsonView>, text: Seq<char>) -> JsonView {
    match parsed {
        Some(v) => v,
        None => JsonView::Str(text),
    }
}

/// The payload of a body: its JSON value, or its text where it holds none.
pub open spec fn payload_of(body: Seq<u8>) -> JsonView {
    payload_from(json_parsed(body), lossy_text(body))
}

/// Reads the payload of a body.
pub fn read_payload(body: &[u8]) -> (r: Json)
    ensures
        r@ == payload_of(body@),
{
    match Json::parse(body) {
        Some(v) => v,
        None => Json::Str(read_lossy(body)),
    }
}

/// `s`, or its first `max` characters and a mark that there is more.
pub open spec fn cut_text(s: Seq<char>, max: int) -> Seq<char> {
    if s.len() <= max {
        s
    } else {
        s.take(max) + "\n…[truncated]"@
    }
}

/// Cuts a text down to `max` characters, with a mark that there is more.
pub fn truncate_text(s: &str, max: usize) -> (r: String)
    ensures
        r@ == cut_text(s@, max as int),
{
    let v = chars_of(s);
    if v.len() <= max {
        copy_str(s)
    } else {
        let mut t = string_of(piece(&v, 0, max));
        assert(t@ =~= s@.take(max as int));
        t.append("\n…[truncated]");
        t
    }
}

/// The indented text of a payload, cut down to `max_chars` characters.
pub fn pretty_payload(payload: &Json, max_chars: usize) -> (r: String)
    ensures
        r@ == cut_text(json_pretty_text(payload@), max_chars as int),
{
    truncate_text(payload.to_pretty().as_str(), max_chars)
}

/// A cut text shows a beginning of the whole text.
pub proof fn law_cut_text_keeps_the_beginning(s: Seq<char>, max: int)
    requires
        0 <= max,
    ensures
        s.len() <= max ==> cut_text(s, max) == s,
        s.len() > max ==> cut_text(s, max).len() == max + 13,
        forall|i: int|
            0 <= i < s.len() && i < max ==> cut_text(s, max)[i] == #[trigger] s[i],
{
    reveal_strlit("\n…[truncated]");
}

// ── Events ─────────────────────────────────────────────────────────────────

/// The event type of a request: that of its header, or else what the payload
/// has under `event_type` or, where it has none, under `type`.
pub open spec fn event_type_of(header: Option<Seq<char>>, payload: JsonView) -> Option<Seq<char>> {
    if header is Some && header.unwrap().len() > 0 {
        header
    } else {
        let field = if field_of(payload, "event_type"@) is Some {
            field_of(payload, "event_type"@)
        } else {
            field_of(payload, "type"@)
        };
        match field {
            Some(JsonView::Str(s)) => Some(s),
            _ => None,
        }
    }
}

/// The event type of a request.
pub fn extract_event_type(event_header: Option<&str>, payload: &Json) -> (r: Option<String>)
    ensures
        opt_text(r) == event_type_of(opt_str(event_header), payload@),
{
    match event_header {
        Some(h) => {
            if !h.is_empty() {
                return Some(copy_str(h));
            }
        },
        None => {},
    }
    let field = match payload.get("event_type") {
        Some(v) => Some(v),
        None => payload.get("type"),
    };
    match field {
        Some(v) => match v.as_str() {
            Some(s) => Some(copy_str(s)),
            None => None,
        },
        None => None,
    }
}

// ── Conditions ─────────────────────────────────────────────────────────────

/// What a row of field names leads to.
pub open spec fn field_walk(v: JsonView, names: Seq<Seq<char>>) -> Option<JsonView>
    decreases names.len(),
{
    if names.len() == 0 {
        Some(v)
    } else {
        match field_of(v, names[0]) {
            Some(w) => field_walk(w, names.skip(1)),
            None => None,
        }
    }
}

/// The text by which a string, a number or a truth value is compared.
pub open spec fn scalar_text(v: JsonView) -> Option<Seq<char>> {
    match v {
        JsonView::Str(s) => Some(s),
        JsonView::Number(t) => Some(t),
        JsonView::Bool(b) => Some(bool_text(b)),
        _ => None,
    }
}

/// Whether a condition, not turned round, holds of a text.
pub open spec fn text_fits(f: FilterView, text: Seq<char>) -> bool {
    match f.equals {
        Some(e) => text == e,
        None => match f.matches {
            Some(p) => occurs(p, text),
            None => true,
        },
    }
}

/// Whether a condition holds of a payload. Of a field that is missing or no
/// scalar only a condition that is turned round holds.
pub open spec fn filter_holds(f: FilterView, payload: JsonView) -> bool {
    match field_walk(payload, split_on(f.field, '.')) {
        Some(v) => match scalar_text(v) {
            Some(t) => text_fits(f, t) != f.not,
            None => f.not,
        },
        None => f.not,
    }
}

fn walk_fields<'a>(payload: &'a Json, field: &str) -> (r: Option<&'a Json>)
    ensures
        opt_json(r) == field_walk(payload@, split_on(field@, '.')),
{
    let v = chars_of(field);
    let parts = split_char(&v, '.');
    let ghost names = slices(parts@);
    let mut current: &'a Json = payload;
    let mut i: usize = 0;
    assert(names.skip(0) =~= names);
    while i < parts.len()
        invariant
            i <= parts@.len(),
            names == slices(parts@),
            names == split_on(field@, '.'),
            field_walk(current@, names.skip(i as int)) == field_walk(payload@, names),
        decreases parts@.len() - i,
    {
        let name = string_of(parts[i]);
        assert(names.skip(i as int)[0] == name@);
        assert(names.skip(i as int).skip(1) =~= names.skip(i as int + 1));
        match current.get(name.as_str()) {
            Some(w) => {
                current = w;
            },
            None => {
                return None;
            },
        }
        i += 1;
    }
    Some(current)
}

fn show_scalar(v: &Json) -> (r: Option<String>)
    ensures
        opt_text(r) == scalar_text(v@),
{
    match v {
        Json::Str(s) => Some(s.clone()),
        Json::Number(n) => Some(n.to_text()),
        Json::Bool(b) => if *b {
            Some(copy_str("true"))
        } else {
            Some(copy_str("false"))
        },
        _ => None,
    }
}

/// Whether a condition holds of a payload.
pub fn filter_matches(f: &WebhookFilter, payload: &Json) -> (r: bool)
    ensures
        r == filter_holds(f@, payload@),
{
    let value = match walk_fields(payload, f.field.as_str()) {
        Some(v) => v,
        None => {
            return f.not;
        },
    };
    let actual = match show_scalar(value) {
        Some(t) => t,
        None => {
            return f.not;
        },
    };
    let fits = match f.equals {
        Some(ref e) => same_str(actual.as_str(), e.as_str()),
        None => match f.matches {
            Some(ref p) => occurs_in(p.as_str(), actual.as_str()),
            None => true,
        },
    };
    fits != f.not
}

/// A condition that is turned round holds of exactly those payloads of which it
/// otherwise does not.
pub proof fn law_not_turns_a_condition_round(f: FilterView, payload: JsonView)
    ensures
        filter_holds((FilterView { not: !f.not, ..f }), payload) == !filter_holds(f, payload),
{
}

/// Whether all conditions hold of a payload.
pub open spec fn all_hold(filters: Seq<FilterView>, payload: JsonView) -> bool {
    forall|i: int| 0 <= i < filters.len() ==> filter_holds(#[trigger] filters[i], payload)
}

fn all_match(filters: &Vec<WebhookFilter>, payload: &Json) -> (r: bool)
    ensures
        r == all_hold(filter_views(filters@), payload@),
{
    let ghost views = filter_views(filters@);
    let mut i: usize = 0;
    while i < filters.len()
        invariant
            i <= filters@.len(),
            views == filter_views(filters@),
            forall|j: int| 0 <= j < i ==> filter_holds(#[trigger] views[j], payload@),
        decreases filters@.len() - i,
    {
        assert(views[i as int] == filters@[i as int]@);
        if !filter_matches(&filters[i], payload) {
            return false;
        }
        i += 1;
    }
    true
}

/// The event type by which a white list judges a request.
pub open spec fn listed_event(event_type: Option<Seq<char>>) -> Seq<char> {
    match event_type {
        Some(e) => e,
        None => Seq::empty(),
    }
}

/// Why a request is not for the agent: its event is not on the white list, or a
/// condition does not hold.
pub open spec fn ignore_reason_of(
    job: WebhookJobView,
    event_type: Option<Seq<char>>,
    payload: JsonView,
) -> Option<Seq<char>> {
    if job.events is Some && !job.events.unwrap().contains(listed_event(event_type)) {
        Some("event '"@ + listed_event(event_type) + "' not in whitelist"@)
    } else if job.filters is Some && !all_hold(job.filters.unwrap(), payload) {
        Some("filters not satisfied"@)
    } else {
        None
    }
}

fn is_listed(list: &Vec<String>, text: &str) -> (r: bool)
    ensures
        r == texts(list@).contains(text@),
{
    let mut i: usize = 0;
    while i < list.len()
        invariant
            i <= list@.len(),
            forall|j: int| 0 <= j < i ==> texts(list@)[j] != text@,
        decreases list@.len() - i,
    {
        if same_str(list[i].as_str(), text) {
            assert(texts(list@)[i as int] == text@);
            return true;
        }
        i += 1;
    }
    false
}

/// Why a request is not for the agent, if it is not.
pub fn ignore_reason(job: &WebhookJobDef, event_type: Option<&str>, payload: &Json) -> (r: Option<
    String,
>)
    ensures
        opt_text(r) == ignore_reason_of(job@, opt_str(event_type), payload@),
{
    match job.events {
        Some(ref events) => {
            let event = match event_type {
                Some(e) => copy_str(e),
                None => String::new(),
            };
            assert(event@ =~= listed_event(opt_str(event_type)));
            if !is_listed(events, event.as_str()) {
                let mut reason = copy_str("event '");
                reason.append(event.as_str());
                reason.append("' not in whitelist");
                return Some(reason);
            }
        },
        None => {},
    }
    match job.filters {
        Some(ref filters) => if all_match(filters, payload) {
            None
        } else {
            Some(copy_str("filters not satisfied"))
        },
        None => None,
    }
}

// ── Prompts ────────────────────────────────────────────────────────────────

/// A filled template with the reserved placeholders that it still spells replaced:
/// `{{payload}}` by the text that stands for the whole payload or, where it does not
/// spell that, `{{event_type}}` by the event type.
pub open spec fn with_reserved(
    head: Seq<char>,
    event_type: Option<Seq<char>>,
    full: Seq<char>,
) -> Seq<char> {
    if has_text(head, "{{payload}}"@) {
        replaced(head, "{{payload}}"@, full)
    } else {
        match event_type {
            Some(e) => replaced(head, "{{event_type}}"@, e),
            None => head,
        }
    }
}

/// Replaces the reserved placeholders that a filled template still spells.
fn put_reserved(head: String, event_type: Option<&str>, full: &str) -> (r: String)
    ensures
        r@ == with_reserved(head@, opt_str(event_type), full@),
{
    let v = chars_of(head.as_str());
    proof {
        reveal_strlit("{{payload}}");
        reveal_strlit("{{event_type}}");
    }
    if str_holds(head.as_str(), "{{payload}}") {
        return replace_text(&v, "{{payload}}", full);
    }
    match event_type {
        Some(e) => replace_text(&v, "{{event_type}}", e),
        None => head,
    }
}

/// The prompt of a request, given the text that stands for the whole payload.
/// Reserved placeholders are replaced in the template and also where a value of the
/// payload spells them. The whole payload follows the template unless the template
/// holds it already or the job does without it.
pub open spec fn prompt_with(
    job: WebhookJobView,
    event_type: Option<Seq<char>>,
    payload: JsonView,
    full: Seq<char>,
) -> Seq<char> {
    let head = with_reserved(
        filled(
            job.prompt_template,
            payload,
            Some(ReservedView { payload: "{{payload}}"@, event_type }),
        ),
        event_type,
        full,
    );
    if job.payload_off || has_text(job.prompt_template, "{{payload}}"@) || full.len() == 0 {
        head
    } else {
        head + "\n\n--- webhook payload ---\n"@ + full
    }
}

/// The prompt of a request.
pub open spec fn prompt_of(
    job: WebhookJobView,
    event_type: Option<Seq<char>>,
    payload: JsonView,
) -> Seq<char> {
    prompt_with(
        job,
        event_type,
        payload,
        cut_text(json_pretty_text(payload), PROMPT_PAYLOAD_CHARS as int),
    )
}

/// Writes the prompt of a request, given the text that stands for the whole
/// payload.
pub fn write_prompt(
    job: &WebhookJobDef,
    event_type: Option<&str>,
    payload: &Json,
    full: &str,
) -> (r: String)
    ensures
        r@ == prompt_with(job@, opt_str(event_type), payload@, full@),
{
    let head = fill_template(
        job.prompt_template.as_str(),
        payload,
        Some(Reserved { payload: "{{payload}}", event_type }),
    );
    let mut prompt = put_reserved(head, event_type, full);
    let shown = str_holds(job.prompt_template.as_str(), "{{payload}}");
    if !job.payload_off && !shown && !full.is_empty() {
        prompt.append("\n\n--- webhook payload ---\n");
        prompt.append(full);
    }
    prompt
}

/// Writes the prompt of a request.
pub fn webhook_prompt(job: &WebhookJobDef, event_type: Option<&str>, payload: &Json) -> (r: String)
    ensures
        r@ == prompt_of(job@, opt_str(event_type), payload@),
{
    let full = pretty_payload(payload, PROMPT_PAYLOAD_CHARS);
    write_prompt(job, event_type, payload, full.as_str())
}

} // verus!
