//! What templates, paths into payloads and content types mean.

use vstd::prelude::*;

use crate::json::{field_of, fields_of, json_text, map_of, model_of, models_of, Json, JsonView};
use crate::number::{decimal, lemma_decimal_digits, parsed_unsigned};
use crate::scheduling::job::WebhookJobView;
use crate::scheduling::webhook::may_call;
use crate::scheduling::webhook_auth::{signature_of, AuthFailure, CredentialsView};
use crate::scheduling::webhook_loader::{
    filled, placeholder_text, shown, value_at, ReservedView, WebhookAuth, WebhookJobDef,
};
use crate::scheduling::webhook_path::{path_auth_failure, path_index, path_session, value_or_null};
use crate::scheduling::webhook_payload::{
    is_json_content, media_type, prompt_with, takes_content,
};
use crate::split::replaced;
use crate::text::{find_from, has_text, lemma_find_from, lowered, matches_at, trimmed};
use crate::text_laws::law_splitting;

verus! {

// ── Templates ──────────────────────────────────────────────────────────────

/// A template is filled from the front: what stands before the first placeholder stays,
/// the placeholder becomes its text, and the rest is filled in the same way.
pub proof fn law_templates_are_filled_in_order(
    before: Seq<char>,
    inner: Seq<char>,
    after: Seq<char>,
    payload: JsonView,
    reserved: Option<ReservedView>,
)
    requires
        !has_text(before.push('{'), "{{"@),
        !has_text(inner.push('}'), "}}"@),
    ensures
        filled(before + "{{"@ + inner + "}}"@ + after, payload, reserved) == before
            + placeholder_text(inner, payload, reserved) + filled(after, payload, reserved),
{
    reveal_strlit("{{");
    reveal_strlit("}}");
    let t = before + "{{"@ + inner + "}}"@ + after;
    let n = before.len() as int;
    let m = n + 2 + inner.len();
    assert(t.subrange(n, n + 2) =~= "{{"@);
    assert(matches_at(t, "{{"@, n));
    assert forall|j: int| 0 <= j < n implies !matches_at(t, "{{"@, j) by {
        if matches_at(t, "{{"@, j) {
            let s = before.push('{');
            assert(s.subrange(j, j + 2) =~= t.subrange(j, j + 2));
            assert(matches_at(s, "{{"@, j));
        }
    }
    lemma_find_from(t, "{{"@, 0);
    assert(find_from(t, "{{"@, 0) == Some(n));
    assert(t.subrange(m, m + 2) =~= "}}"@);
    assert(matches_at(t, "}}"@, m));
    assert forall|j: int| n + 2 <= j < m implies !matches_at(t, "}}"@, j) by {
        if matches_at(t, "}}"@, j) {
            let s = inner.push('}');
            assert(s.subrange(j - n - 2, j - n) =~= t.subrange(j, j + 2));
            assert(matches_at(s, "}}"@, j - n - 2));
        }
    }
    lemma_find_from(t, "}}"@, n + 2);
    assert(find_from(t, "}}"@, n + 2) == Some(m));
    assert(t.take(n) =~= before);
    assert(t.subrange(n + 2, m) =~= inner);
    assert(t.skip(m + 2) =~= after);
}

/// The words for the payload and the event stand for what the caller set aside for them;
/// every other placeholder, and those without anything set aside, is a path into the
/// payload.
pub proof fn law_placeholders(inner: Seq<char>, payload: JsonView, r: ReservedView)
    ensures
        placeholder_text("payload"@, payload, Some(r)) == r.payload,
        r.event_type is Some ==> placeholder_text("event_type"@, payload, Some(r))
            == r.event_type->0,
        r.event_type is None ==> placeholder_text("event_type"@, payload, Some(r)) == shown(
            value_at(payload, trimmed("event_type"@)),
        ),
        inner != "payload"@ && inner != "event_type"@ ==> placeholder_text(inner, payload, Some(r))
            == shown(value_at(payload, trimmed(inner))),
        placeholder_text(inner, payload, None) == shown(value_at(payload, trimmed(inner))),
{
    reveal_strlit("payload");
    reveal_strlit("event_type");
    assert("payload"@.len() != "event_type"@.len());
}

/// A text is shown without quotes, a number as it is written, a truth value as its word; a
/// null and a value that is not there are shown as nothing, lists and objects as JSON.
pub proof fn law_shown_values(s: Seq<char>, n: Seq<char>, v: JsonView)
    ensures
        shown(Some(JsonView::Str(s))) == s,
        shown(Some(JsonView::Number(n))) == n,
        shown(Some(JsonView::Bool(true))) == "true"@,
        shown(Some(JsonView::Bool(false))) == "false"@,
        shown(Some(JsonView::Null)).len() == 0,
        shown(None).len() == 0,
        v is Array || v is Object ==> shown(Some(v)) == json_text(v),
{
}

/// A prompt that has a place for the payload shows it there and nowhere else, even if the
/// job does without payloads behind its prompts.
pub proof fn law_the_payload_stands_in_its_place(
    job: WebhookJobView,
    before: Seq<char>,
    after: Seq<char>,
    event_type: Option<Seq<char>>,
    payload: JsonView,
    full: Seq<char>,
)
    requires
        job.prompt_template == before + "{{payload}}"@ + after,
        !has_text(before.push('{'), "{{"@),
        !has_text(after, "{{"@),
    ensures
        prompt_with(job, event_type, payload, full) == before + full + after,
{
    reveal_strlit("{{payload}}");
    reveal_strlit("{{");
    reveal_strlit("}}");
    reveal_strlit("payload");
    let t = job.prompt_template;
    let mark = "{{payload}}"@;
    let word = "payload"@;
    assert(mark =~= "{{"@ + word + "}}"@);
    assert(t =~= before + "{{"@ + word + "}}"@ + after);
    assert(!has_text(word.push('}'), "}}"@)) by {
        if has_text(word.push('}'), "}}"@) {
            let i = choose|i: int| matches_at(word.push('}'), "}}"@, i);
            assert(word.push('}').subrange(i, i + 2)[0] == word.push('}')[i]);
            assert(word.push('}').subrange(i, i + 2)[1] == word.push('}')[i + 1]);
        }
    }
    let r = ReservedView { payload: mark, event_type };
    law_templates_are_filled_in_order(before, word, after, payload, Some(r));
    crate::scheduling::webhook_loader::law_plain_template(after, payload, Some(r));
    law_placeholders(word, payload, r);
    assert(filled(t, payload, Some(r)) == t);
    let n = before.len() as int;
    assert(t.subrange(n, n + 11) =~= mark);
    assert(matches_at(t, mark, n));
    assert(has_text(t, mark));
    lemma_mark_at(before, mark, after);
    lemma_find_from(t, mark, 0);
    assert(find_from(t, mark, 0) == Some(n));
    assert(t.take(n) =~= before);
    assert(t.skip(n + 11) =~= after);
    assert(!has_text(after, mark)) by {
        if has_text(after, mark) {
            let i = choose|i: int| matches_at(after, mark, i);
            assert(after.subrange(i, i + 2) =~= after.subrange(i, i + 11).take(2));
            assert(mark.take(2) =~= "{{"@);
            assert(matches_at(after, "{{"@, i));
        }
    }
    crate::text_laws::law_replacing(after, mark, full);
}

proof fn lemma_mark_at(before: Seq<char>, mark: Seq<char>, after: Seq<char>)
    requires
        mark == "{{payload}}"@,
        !has_text(before.push('{'), "{{"@),
    ensures
        forall|j: int| 0 <= j < before.len() ==> !matches_at(before + mark + after, mark, j),
{
    reveal_strlit("{{payload}}");
    reveal_strlit("{{");
    let t = before + mark + after;
    assert forall|j: int| 0 <= j < before.len() implies !matches_at(t, mark, j) by {
        if matches_at(t, mark, j) {
            let s = before.push('{');
            assert(t.subrange(j, j + 11)[0] == t[j]);
            assert(t.subrange(j, j + 11)[1] == t[j + 1]);
            assert(s[j] == t[j]);
            assert(s[j + 1] == t[j + 1]);
            assert(s.subrange(j, j + 2) =~= "{{"@);
            assert(matches_at(s, "{{"@, j));
        }
    }
}

// ── Paths into a payload ───────────────────────────────────────────────────

/// A path is followed step by step: the first name is a field, and the rest is a path into
/// its value; a field that is not there ends it.
pub proof fn law_paths_are_followed(v: JsonView, name: Seq<char>, rest: Seq<char>)
    requires
        !name.contains('.'),
        !name.contains('['),
    ensures
        value_at(v, name) == field_of(v, name),
        field_of(v, name) is Some ==> value_at(v, name + seq!['.'] + rest) == value_at(
            field_of(v, name)->0,
            rest,
        ),
        field_of(v, name) is None ==> value_at(v, name + seq!['.'] + rest) is None,
{
    law_splitting(name, '.', rest);
    assert(name + seq!['.'] + rest =~= name.push('.') + rest);
    let more = crate::split::split_on(rest, '.');
    assert((seq![name] + more)[0] == name);
    assert((seq![name] + more).skip(1) =~= more);
    reveal_with_fuel(crate::scheduling::webhook_loader::path_walk, 2);
    assert(seq![name].skip(1) =~= Seq::<Seq<char>>::empty());
}

/// A number in brackets behind a field, or alone, is a place in a list, counted from zero.
pub proof fn law_places_in_lists(v: JsonView, name: Seq<char>, i: nat)
    requires
        !name.contains('.'),
        !name.contains('['),
        i <= usize::MAX,
    ensures
        ({
            let list = if name.len() == 0 {
                Some(v)
            } else {
                field_of(v, name)
            };
            let r = value_at(v, name + seq!['['] + decimal(i) + seq![']']);
            &&& list matches Some(JsonView::Array(items)) ==> (i < items.len() ==> r == Some(
                items[i as int],
            )) && (i >= items.len() ==> r is None)
            &&& !(list matches Some(JsonView::Array(_))) ==> r is None
        }),
{
    let d = decimal(i);
    lemma_decimal_digits(i);
    let open = seq!['['] + d;
    let t = name + seq!['['] + d + seq![']'];
    let n = name.len() as int;
    assert forall|k: int| 0 <= k < d.len() implies '0' as u32 <= (#[trigger] d[k]) as u32
        <= '9' as u32 by {
        assert(crate::number::is_digit(d[k]));
    }
    assert(!t.contains('.')) by {
        if t.contains('.') {
            let k = choose|k: int| 0 <= k < t.len() && t[k] == '.';
            if k < n {
                assert(name[k] == '.');
            } else if n < k < n + 1 + d.len() {
                assert(d[k - n - 1] == '.');
            }
        }
    }
    law_splitting(t, '.', Seq::empty());
    assert(t[n] == '[');
    assert forall|k: int| 0 <= k < n implies t[k] != '[' by {
        assert(t[k] == name[k]);
    }
    crate::text::lemma_first_at(t, '[', n);
    assert(t.contains('['));
    assert(t.take(n) =~= name);
    let inner = t.skip(n);
    let none = Seq::<char>::empty();
    assert(inner =~= open.push(']') + none);
    assert(!open.contains(']')) by {
        if open.contains(']') {
            let k = choose|k: int| 0 <= k < open.len() && open[k] == ']';
            if k > 0 {
                assert(d[k - 1] == ']');
            }
        }
    }
    law_splitting(open, ']', none);
    assert(!none.contains(']'));
    law_splitting(none, ']', none);
    let parts = seq![open] + seq![none];
    assert(crate::split::split_on(inner, ']') == parts);
    assert(parts[0] == open);
    assert(parts.skip(1) =~= seq![none]);
    assert(seq![none].skip(1) =~= Seq::<Seq<char>>::empty());
    let set = seq!['['];
    assert(set[0] == '[');
    assert(set.contains('['));
    assert(open.skip(1) =~= d);
    assert(!set.contains(d[0]));
    reveal_with_fuel(crate::text::stripped_start, 2);
    assert(crate::text::stripped_start(open, set) == d);
    assert(parsed_unsigned(d, usize::MAX as nat) == Some(i));
    reveal_with_fuel(crate::scheduling::webhook_loader::index_walk, 3);
    reveal_with_fuel(crate::scheduling::webhook_loader::path_walk, 2);
    assert(seq![t].skip(1) =~= Seq::<Seq<char>>::empty());
}

/// Of fields with one name the last counts; the others keep their values. The items of a
/// list keep their order.
pub proof fn law_fields_and_items(
    pairs: Seq<(Seq<char>, JsonView)>,
    name: Seq<char>,
    v: JsonView,
    other: Seq<char>,
    rows: Seq<(String, Json)>,
    row: (String, Json),
    items: Seq<Json>,
    item: Json,
)
    requires
        other != name,
    ensures
        field_of(JsonView::Object(map_of(pairs.push((name, v)))), name) == Some(v),
        field_of(JsonView::Object(map_of(pairs.push((name, v)))), other) == field_of(
            JsonView::Object(map_of(pairs)),
            other,
        ),
        field_of(JsonView::Object(map_of(Seq::empty())), name) is None,
        fields_of(rows.push(row)) == fields_of(rows).push((row.0@, model_of(row.1))),
        fields_of(Seq::<(String, Json)>::empty()).len() == 0,
        models_of(items.push(item)) == models_of(items).push(model_of(item)),
        models_of(Seq::<Json>::empty()).len() == 0,
{
    assert(pairs.push((name, v)).drop_last() =~= pairs);
    assert(rows.push(row).drop_last() =~= rows);
    assert(items.push(item).drop_last() =~= items);
}

// ── Content types ──────────────────────────────────────────────────────────

/// Parameters, spaces and capitals of a content type do not matter; JSON, texts and forms
/// are taken, and nothing without a type.
pub proof fn law_content_types(name: Seq<char>, parameters: Seq<char>)
    requires
        !name.contains(';'),
    ensures
        takes_content(Some(name + seq![';'] + parameters)) == takes_content(Some(name)),
        is_json_content(Some(name + seq![';'] + parameters)) == is_json_content(Some(name)),
        takes_content(Some(name)) <==> (lowered(trimmed(name)) == "application/json"@ || lowered(
            trimmed(name),
        ) == "application/x-www-form-urlencoded"@ || (lowered(trimmed(name)).len() >= 5 && lowered(
            trimmed(name),
        ).take(5) == "text/"@)),
        is_json_content(Some(name)) <==> lowered(trimmed(name)) == "application/json"@,
        !takes_content(None),
        !is_json_content(None),
{
    reveal_strlit("text/");
    law_splitting(name, ';', parameters);
    assert(name + seq![';'] + parameters =~= name.push(';') + parameters);
    let more = seq![name] + crate::split::split_on(parameters, ';');
    assert(more[0] == name);
    assert(media_type(name) == lowered(trimmed(name)));
}

// ── Webhooks by path ───────────────────────────────────────────────────────

/// The first job of a path is the one that is meant.
pub proof fn law_jobs_are_found_by_path(jobs: Seq<WebhookJobDef>, path: Seq<char>)
    ensures
        0 <= path_index(jobs, path) <= jobs.len(),
        forall|i: int| 0 <= i < path_index(jobs, path) ==> (#[trigger] jobs[i]).path@ != path,
        path_index(jobs, path) < jobs.len() ==> jobs[path_index(jobs, path)].path@ == path,
    decreases jobs.len(),
{
    if jobs.len() > 0 && jobs[0].path@ != path {
        let rest = jobs.skip(1);
        law_jobs_are_found_by_path(rest, path);
        assert forall|i: int| 0 <= i < path_index(jobs, path) implies (#[trigger] jobs[i]).path@
            != path by {
            if i > 0 {
                assert(rest[i - 1] == jobs[i]);
            }
        }
    }
}

/// A job with a secret lets in exactly those who sign the body with it, or bear it; a job
/// without lets in everybody.
pub proof fn law_secrets_guard_paths(key: Seq<char>, c: CredentialsView, body: Seq<u8>, auth: WebhookAuth)
    ensures
        path_auth_failure(None, auth, c, body) is None,
        path_auth_failure(Some(key), WebhookAuth::Hmac, c, body) is None <==> c.signature == Some(
            signature_of(key, body),
        ),
        path_auth_failure(Some(key), WebhookAuth::Bearer, c, body) is None <==> c.authorization
            == Some("Bearer "@ + key),
        c.signature is None ==> path_auth_failure(Some(key), WebhookAuth::Hmac, c, body) == Some(
            AuthFailure::MissingSignature,
        ),
        c.signature is Some && c.signature->0 != signature_of(key, body) ==> path_auth_failure(
            Some(key),
            WebhookAuth::Hmac,
            c,
            body,
        ) == Some(AuthFailure::InvalidSignature),
        c.authorization != Some("Bearer "@ + key) ==> path_auth_failure(
            Some(key),
            WebhookAuth::Bearer,
            c,
            body,
        ) == Some(AuthFailure::InvalidToken),
{
}

/// The hooks of the agent are open where no secret is set, and else to those who bear it.
pub proof fn law_callers_of_the_agent(authorization: Option<Seq<char>>, secret: Seq<char>)
    ensures
        may_call(authorization, None),
        may_call(authorization, Some(secret)) <==> authorization == Some("Bearer "@ + secret),
{
}

/// A body that cannot be read is a null, and the conversation of a path is named after it:
/// without the slashes before it, and with a line for each other slash.
pub proof fn law_conversations_of_paths(path: Seq<char>, v: JsonView)
    ensures
        value_or_null(None) == JsonView::Null,
        value_or_null(Some(v)) == v,
        path_session(seq!['/'] + path) == path_session(path),
        path.len() == 0 || path[0] != '/' ==> path_session(path) == "_webhook_"@ + replaced(
            path,
            seq!['/'],
            seq!['_'],
        ),
{
    reveal_strlit("/");
    reveal_strlit("_");
    assert(seq!['/'] =~= "/"@);
    assert(seq!['_'] =~= "_"@);
    let set = seq!['/'];
    assert(set[0] == '/');
    assert(set.contains('/'));
    let t = set + path;
    assert(t[0] == '/');
    assert(t.skip(1) =~= path);
    assert(crate::text::stripped_start(t, set) == crate::text::stripped_start(path, set));
    if path.len() > 0 && path[0] != '/' {
        assert(!set.contains(path[0]));
    }
}

} // verus!
