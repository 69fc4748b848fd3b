//! Path-based webhook jobs and prompt templates.

use crate::json::{field_of, item_of, json_text, opt_json, Json, JsonView};
use crate::number::{parse_unsigned, parsed_unsigned};
use crate::split::{slices, split_char, split_on};
use crate::text::{
    chars_of, find_char, find_from, find_text, first_at, has_text, is_text, lemma_find_from,
    lemma_has_text, opt_str, piece, push_chars, string_of, strip_start, stripped_start, trim,
    trimmed,
};
use vstd::prelude::*;

verus! {

/// How a webhook request proves itself.
#[derive(Clone, Copy, PartialEq, Eq, Structural, Debug)]
pub enum WebhookAuth {
    /// An HMAC-SHA256 signature in the `X-Hub-Signature-256` header.
    Hmac,
    /// A bearer token in the `Authorization` header.
    Bearer,
}

/// A webhook job that listens on a path.
#[derive(Debug)]
pub struct WebhookJobDef {
    /// Id of the owning job.
    pub id: String,
    /// URL path, such as "/github/issues".
    pub path: String,
    /// HMAC secret or bearer token.
    pub secret: Option<String>,
    /// How requests prove themselves.
    pub auth: WebhookAuth,
    /// Where output goes: last, none, or a channel name.
    pub target: String,
    /// The prompt, with `{{path.to.field}}` placeholders.
    pub prompt_template: String,
}

// ── Paths into a payload ───────────────────────────────────────────────────

/// The value that a row of bracket parts such as `[0` leads to.
pub open spec fn index_walk(v: JsonView, parts: Seq<Seq<char>>) -> Option<JsonView>
    decreases parts.len(),
{
    if parts.len() == 0 {
        Some(v)
    } else if parts[0].len() == 0 {
        index_walk(v, parts.skip(1))
    } else {
        match parsed_unsigned(stripped_start(parts[0], seq!['[']), usize::MAX as nat) {
            Some(i) => match item_of(v, i as int) {
                Some(w) => index_walk(w, parts.skip(1)),
                None => None,
            },
            None => None,
        }
    }
}

/// The value that one segment of a path, such as `commits[0]`, leads to.
pub open spec fn segment_step(v: JsonView, segment: Seq<char>) -> Option<JsonView> {
    if segment.contains('[') {
        let b = first_at(segment, '[');
        let field = segment.take(b);
        let parts = split_on(segment.skip(b), ']');
        if field.len() == 0 {
            index_walk(v, parts)
        } else {
            match field_of(v, field) {
                Some(w) => index_walk(w, parts),
                None => None,
            }
        }
    } else {
        field_of(v, segment)
    }
}

/// The value that a row of segments leads to.
pub open spec fn path_walk(v: JsonView, segments: Seq<Seq<char>>) -> Option<JsonView>
    decreases segments.len(),
{
    if segments.len() == 0 {
        Some(v)
    } else {
        match segment_step(v, segments[0]) {
            Some(w) => path_walk(w, segments.skip(1)),
            None => None,
        }
    }
}

/// The value at a path such as `issue.user.login` or `commits[0].message`.
pub open spec fn value_at(v: JsonView, path: Seq<char>) -> Option<JsonView> {
    path_walk(v, split_on(path, '.'))
}

fn step_indices<'a>(v: &'a Json, rest: &[char]) -> (r: Option<&'a Json>)
    ensures
        opt_json(r) == index_walk(v@, split_on(rest@, ']')),
{
    let parts = split_char(rest, ']');
    let ghost ps = slices(parts@);
    let open_bracket: Vec<char> = vec!['['];
    assert(open_bracket@ =~= seq!['[']);
    let mut current: &'a Json = v;
    let mut i: usize = 0;
    assert(ps.skip(0) =~= ps);
    while i < parts.len()
        invariant
            i <= parts@.len(),
            ps == slices(parts@),
            ps == split_on(rest@, ']'),
            open_bracket@ == seq!['['],
            index_walk(current@, ps.skip(i as int)) == index_walk(v@, ps),
        decreases parts@.len() - i,
    {
        let part = parts[i];
        assert(ps.skip(i as int)[0] == part@);
        assert(ps.skip(i as int).skip(1) =~= ps.skip(i as int + 1));
        if part.len() > 0 {
            let digits = strip_start(part, &open_bracket);
            match parse_unsigned(digits, usize::MAX as u64) {
                Some(n) => match current.at(n as usize) {
                    Some(w) => {
                        current = w;
                    },
                    None => {
                        return None;
                    },
                },
                None => {
                    return None;
                },
            }
        }
        i += 1;
    }
    assert(ps.skip(ps.len() as int) =~= Seq::<Seq<char>>::empty());
    Some(current)
}

fn step_segment<'a>(v: &'a Json, segment: &[char]) -> (r: Option<&'a Json>)
    ensures
        opt_json(r) == segment_step(v@, segment@),
{
    let b: usize = find_char(segment, '[');
    if b < segment.len() {
        let field = piece(segment, 0, b);
        assert(field@ =~= segment@.take(b as int));
        let rest = piece(segment, b, segment.len());
        assert(rest@ =~= segment@.skip(b as int));
        if field.len() == 0 {
            step_indices(v, rest)
        } else {
            let name = string_of(field);
            match v.get(name.as_str()) {
                Some(w) => step_indices(w, rest),
                None => None,
            }
        }
    } else {
        let name = string_of(segment);
        v.get(name.as_str())
    }
}

fn navigate_chars<'a>(val: &'a Json, path: &[char]) -> (r: Option<&'a Json>)
    ensures
        opt_json(r) == value_at(val@, path@),
{
    let segments = split_char(path, '.');
    let ghost ss = slices(segments@);
    let mut current: &'a Json = val;
    let mut i: usize = 0;
    assert(ss.skip(0) =~= ss);
    while i < segments.len()
        invariant
            i <= segments@.len(),
            ss == slices(segments@),
            ss == split_on(path@, '.'),
            path_walk(current@, ss.skip(i as int)) == path_walk(val@, ss),
        decreases segments@.len() - i,
    {
        assert(ss.skip(i as int)[0] == segments@[i as int]@);
        assert(ss.skip(i as int).skip(1) =~= ss.skip(i as int + 1));
        match step_segment(current, segments[i]) {
            Some(w) => {
                current = w;
            },
            None => {
                return None;
            },
        }
        i += 1;
    }
    assert(ss.skip(ss.len() as int) =~= Seq::<Seq<char>>::empty());
    Some(current)
}

/// Follows a path of fields and array indices into a value.
pub fn navigate_json_value<'a>(val: &'a Json, path: &str) -> (r: Option<&'a Json>)
    ensures
        opt_json(r) == value_at(val@, path@),
{
    let p = chars_of(path);
    navigate_chars(val, &p)
}

// ── Templates ──────────────────────────────────────────────────────────────

/// The text of a truth value.
pub open spec fn bool_text(b: bool) -> Seq<char> {
    if b {
        "true"@
    } else {
        "false"@
    }
}

/// The text that stands for a value in a prompt. What is missing has none.
pub open spec fn shown(v: Option<JsonView>) -> Seq<char> {
    match v {
        Some(JsonView::Str(s)) => s,
        Some(JsonView::Number(t)) => t,
        Some(JsonView::Bool(b)) => bool_text(b),
        Some(JsonView::Null) => Seq::empty(),
        Some(other) => json_text(other),
        None => Seq::empty(),
    }
}

/// The texts of the reserved placeholders `{{payload}}` and `{{event_type}}`.
pub struct ReservedView {
    pub payload: Seq<char>,
    pub event_type: Option<Seq<char>>,
}

/// The text that takes the place of a placeholder, given what stands between
/// its braces. Without an event type, `event_type` is a field as any other.
pub open spec fn placeholder_text(
    inner: Seq<char>,
    payload: JsonView,
    reserved: Option<ReservedView>,
) -> Seq<char> {
    match reserved {
        Some(r) => if inner == "payload"@ {
            r.payload
        } else if inner == "event_type"@ && r.event_type is Some {
            r.event_type.unwrap()
        } else {
            shown(value_at(payload, trimmed(inner)))
        },
        None => shown(value_at(payload, trimmed(inner))),
    }
}

/// The template with its placeholders replaced, from the left. Replacements are
/// not looked at again; braces that are not closed stay.
pub open spec fn filled(t: Seq<char>, payload: JsonView, reserved: Option<ReservedView>) -> Seq<char>
    decreases t.len(),
    via filled_decreases
{
    match find_from(t, "{{"@, 0) {
        Some(open) => match find_from(t, "}}"@, open + 2) {
            Some(close) => t.take(open) + placeholder_text(
                t.subrange(open + 2, close),
                payload,
                reserved,
            ) + filled(t.skip(close + 2), payload, reserved),
            None => t,
        },
        None => t,
    }
}

#[via_fn]
proof fn filled_decreases(t: Seq<char>, payload: JsonView, reserved: Option<ReservedView>) {
    reveal_strlit("{{");
    reveal_strlit("}}");
    lemma_find_from(t, "{{"@, 0);
    match find_from(t, "{{"@, 0) {
        Some(open) => {
            lemma_find_from(t, "}}"@, open + 2);
        },
        None => {},
    }
}

/// The texts of the reserved placeholders.
pub struct Reserved<'a> {
    pub payload: &'a str,
    pub event_type: Option<&'a str>,
}

/// The view of optional reserved texts.
pub open spec fn opt_reserved(o: Option<Reserved>) -> Option<ReservedView> {
    match o {
        Some(r) => Some(ReservedView { payload: r.payload@, event_type: opt_str(r.event_type) }),
        None => None,
    }
}

fn show(v: Option<&Json>) -> (r: String)
    ensures
        r@ == shown(opt_json(v)),
{
    match v {
        Some(j) => match j {
            Json::Str(s) => s.clone(),
            Json::Number(n) => n.to_text(),
            Json::Bool(b) => if *b {
                crate::text::copy_str("true")
            } else {
                crate::text::copy_str("false")
            },
            Json::Null => String::new(),
            _ => j.to_text(),
        },
        None => String::new(),
    }
}

fn placeholder(inner: &[char], payload: &Json, reserved: &Option<Reserved>) -> (r: String)
    ensures
        r@ == placeholder_text(inner@, payload@, opt_reserved(*reserved)),
{
    match reserved {
        Some(res) => {
            if is_text(inner, "payload") {
                return crate::text::copy_str(res.payload);
            }
            match res.event_type {
                Some(e) => {
                    if is_text(inner, "event_type") {
                        return crate::text::copy_str(e);
                    }
                },
                None => {},
            }
        },
        None => {},
    }
    show(navigate_chars(payload, trim(inner)))
}

/// Replaces the placeholders of a template. With reserved texts, `{{payload}}`
/// and `{{event_type}}` stand for these.
pub fn fill_template(template: &str, payload: &Json, reserved: Option<Reserved>) -> (r: String)
    ensures
        r@ == filled(template@, payload@, opt_reserved(reserved)),
{
    let t = chars_of(template);
    let opening = chars_of("{{");
    let closing = chars_of("}}");
    proof {
        reveal_strlit("{{");
        reveal_strlit("}}");
    }
    let ghost res = opt_reserved(reserved);
    let mut out = String::new();
    let mut start: usize = 0;
    assert(t@.skip(0) =~= t@);
    assert(out@ + filled(t@, payload@, res) =~= filled(t@, payload@, res));
    loop
        invariant
            start <= t@.len(),
            t@ == template@,
            opening@ == "{{"@,
            closing@ == "}}"@,
            opening@.len() == 2,
            closing@.len() == 2,
            res == opt_reserved(reserved),
            out@ + filled(t@.skip(start as int), payload@, res) == filled(t@, payload@, res),
        decreases t@.len() - start,
    {
        let rest = piece(&t, start, t.len());
        assert(rest@ =~= t@.skip(start as int));
        let open: usize = match find_text(rest, &opening, 0) {
            Some(i) => i,
            None => {
                push_chars(&mut out, rest);
                return out;
            },
        };
        let close: usize = match find_text(rest, &closing, open + 2) {
            Some(i) => i,
            None => {
                push_chars(&mut out, rest);
                return out;
            },
        };
        let ghost before = out@;
        let head = piece(rest, 0, open);
        assert(head@ =~= rest@.take(open as int));
        push_chars(&mut out, head);
        let value = placeholder(piece(rest, open + 2, close), payload, &reserved);
        out.append(value.as_str());
        let next: usize = start + close + 2;
        assert(rest@.skip(close + 2) =~= t@.skip(next as int));
        assert(out@ + filled(t@.skip(next as int), payload@, res) =~= before + (head@ + value@
            + filled(t@.skip(next as int), payload@, res)));
        start = next;
    }
}

/// Replaces each `{{path.to.field}}` of a template by the value at that path of
/// the payload. Missing fields become empty.
pub fn render_template(template: &str, payload: &Json) -> (r: String)
    ensures
        r@ == filled(template@, payload@, None),
{
    fill_template(template, payload, None)
}

/// A template without opening braces stays as it is.
pub proof fn law_plain_template(t: Seq<char>, payload: JsonView, reserved: Option<ReservedView>)
    requires
        !has_text(t, "{{"@),
    ensures
        filled(t, payload, reserved) == t,
{
    lemma_has_text(t, "{{"@);
}

/// A template of one placeholder becomes the text of that placeholder.
pub proof fn law_single_placeholder(
    inner: Seq<char>,
    payload: JsonView,
    reserved: Option<ReservedView>,
)
    requires
        !inner.contains('}'),
    ensures
        filled("{{"@ + inner + "}}"@, payload, reserved) == placeholder_text(
            inner,
            payload,
            reserved,
        ),
{
    reveal_strlit("{{");
    reveal_strlit("}}");
    let t = "{{"@ + inner + "}}"@;
    lemma_find_from(t, "{{"@, 0);
    assert(t.subrange(0, 2) =~= "{{"@);
    assert(crate::text::matches_at(t, "{{"@, 0));
    lemma_find_from(t, "}}"@, 2);
    assert(t.subrange(2 + inner.len() as int, 2 + inner.len() as int + 2) =~= "}}"@);
    assert(crate::text::matches_at(t, "}}"@, 2 + inner.len() as int));
    assert forall|j: int| 2 <= j < 2 + inner.len() implies !crate::text::matches_at(
        t,
        "}}"@,
        j,
    ) by {
        if crate::text::matches_at(t, "}}"@, j) {
            assert(t.subrange(j, j + 2)[0] == t[j]);
            assert(inner[j - 2] == '}');
        }
    }
    assert(find_from(t, "}}"@, 2) == Some(2 + inner.len() as int));
    assert(t.subrange(2, 2 + inner.len() as int) =~= inner);
    assert(t.skip(2 + inner.len() as int + 2) =~= Seq::<char>::empty());
    let e = Seq::<char>::empty();
    lemma_find_from(e, "{{"@, 0);
    assert(filled(e, payload, reserved) =~= e);
    assert(t.take(0) =~= e);
    assert(e + placeholder_text(inner, payload, reserved) + e =~= placeholder_text(
        inner,
        payload,
        reserved,
    ));
}

} // verus!
