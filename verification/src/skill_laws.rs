//! What the files of skills mean, and what extraction and its reminders do.

use vstd::prelude::*;

use crate::json::{field_of, JsonView};
use crate::number::decimal;
use crate::order::text_before;
use crate::session::chat::{CallView, ChatMessage, PartView};
use crate::skill_draft_reminder::{backlog_on, due_drafts, is_armed, Armed, ScopeState};
use crate::skill_extract::{
    admit_extraction, answer_message, arguments_from, calling_message, collected, extract_prompt_of,
    index_line, index_lines, index_of, notice_of, quoted, result_failed, result_text, screened,
    string_at, with_session, written_by, EventView, ExtractResponse, ExtractedSessions,
    ResponseView, ScreenedView, SkillExtractRun, ToolOutput, PROMPT_CLOSING, PROMPT_OPENING,
    PROMPT_RULES,
};
use crate::skill_loader::{
    dash_items, first_value, front_matter_of, inline_items, inserted, skill_of, unquoted, yaml_list,
    yaml_string, SkillDefinition,
};
use crate::split::{joined, lines_of, split_on};
use crate::text::{
    begins_with, find_from, has_text, lemma_find_from, matches_at, opt_text, texts, trimmed,
};

verus! {

// ── Front matter ───────────────────────────────────────────────────────────

/// Front matter stands between the dashes that a file begins with and the next line that
/// begins with dashes; the body is what stands behind them.
pub proof fn law_front_matter(content: Seq<char>, front: Seq<char>, body: Seq<char>)
    requires
        trimmed(content) == "---"@ + front + "\n---"@ + body,
        forall|j: int| 0 <= j < front.len() ==> !matches_at(front + "\n---"@, "\n---"@, j),
    ensures
        front_matter_of(content) == (trimmed(front), trimmed(body)),
{
    reveal_strlit("---");
    reveal_strlit("\n---");
    let t = trimmed(content);
    assert(t.take(3) =~= "---"@);
    let rest = t.skip(3);
    let n = front.len() as int;
    assert(rest =~= front + "\n---"@ + body);
    assert(rest.subrange(n, n + 4) =~= "\n---"@);
    assert(matches_at(rest, "\n---"@, n));
    assert forall|j: int| 0 <= j < n implies !matches_at(rest, "\n---"@, j) by {
        let s = front + "\n---"@;
        assert(!matches_at(s, "\n---"@, j));
        assert(s.subrange(j, j + 4) =~= rest.subrange(j, j + 4));
    }
    lemma_find_from(rest, "\n---"@, 0);
    assert(find_from(rest, "\n---"@, 0) == Some(n));
    assert(t.subrange(3, 3 + n) =~= front);
    assert(t.skip(3 + n + 4) =~= body);
}

/// A file that does not begin with dashes, or never closes them, is all body.
pub proof fn law_files_without_front_matter(content: Seq<char>)
    requires
        !begins_with(trimmed(content), "---"@) || !has_text(trimmed(content).skip(3), "\n---"@),
    ensures
        front_matter_of(content).0.len() == 0,
        front_matter_of(content).1 == trimmed(content),
{
    crate::text::lemma_has_text(trimmed(content).skip(3), "\n---"@);
}

/// Quotes around a value are taken off, of either sort and in pairs; other values stay.
pub proof fn law_quotes_are_taken_off(v: Seq<char>)
    ensures
        unquoted(seq!['"'] + v + seq!['"']) == v,
        unquoted(seq!['\''] + v + seq!['\'']) == v,
        v.len() < 2 || v[0] != v.last() || (v[0] != '"' && v[0] != '\'') ==> unquoted(v) == v,
{
    let a = seq!['"'] + v + seq!['"'];
    let b = seq!['\''] + v + seq!['\''];
    assert(a.subrange(1, a.len() - 1) =~= v);
    assert(b.subrange(1, b.len() - 1) =~= v);
}

/// The value of a key is what stands behind its colon on the first line that has it.
pub proof fn law_values_of_keys(
    yaml: Seq<char>,
    key: Seq<char>,
    before: Seq<Seq<char>>,
    line: Seq<char>,
    value: Seq<char>,
    after: Seq<Seq<char>>,
)
    requires
        forall|i: int|
            0 <= i < before.len() ==> !begins_with(trimmed(#[trigger] before[i]), key + ":"@),
        trimmed(line) == key + ":"@ + value,
    ensures
        lines_of(yaml) == before + seq![line] + after ==> yaml_string(yaml, key) == Some(
            unquoted(trimmed(value)),
        ),
        lines_of(yaml) == before ==> yaml_string(yaml, key) is None,
{
    let p = key + ":"@;
    assert(trimmed(line).take(p.len() as int) =~= p);
    assert(trimmed(line).skip(p.len() as int) =~= value);
    lemma_first_value(before, line, after, p);
}

proof fn lemma_first_value(
    before: Seq<Seq<char>>,
    line: Seq<char>,
    after: Seq<Seq<char>>,
    p: Seq<char>,
)
    requires
        forall|i: int| 0 <= i < before.len() ==> !begins_with(trimmed(#[trigger] before[i]), p),
        begins_with(trimmed(line), p),
    ensures
        first_value(before + seq![line] + after, p) == Some(
            unquoted(trimmed(trimmed(line).skip(p.len() as int))),
        ),
        first_value(before, p) is None,
    decreases before.len(),
{
    let all = before + seq![line] + after;
    if before.len() == 0 {
        assert(all[0] == line);
    } else {
        let rest = before.skip(1);
        assert forall|i: int| 0 <= i < rest.len() implies !begins_with(
            trimmed(#[trigger] rest[i]),
            p,
        ) by {
            assert(rest[i] == before[i + 1]);
        }
        lemma_first_value(rest, line, after, p);
        assert(all[0] == before[0]);
        assert(all.skip(1) =~= rest + seq![line] + after);
    }
}

/// The list of a key stands in brackets behind its colon, or as dashes on the lines below.
pub proof fn law_lists_of_keys(
    yaml: Seq<char>,
    key: Seq<char>,
    line: Seq<char>,
    value: Seq<char>,
    after: Seq<Seq<char>>,
)
    requires
        lines_of(yaml) == seq![line] + after,
        trimmed(line) == key + ":"@ + value,
    ensures
        trimmed(value).len() == 0 ==> yaml_list(yaml, key) == dash_items(after),
        forall|inner: Seq<char>|
            trimmed(value) == #[trigger] (seq!['['] + inner + seq![']']) && inner.len() > 0
                && inner[0] != '[' && inner[0] != ']' && inner.last() != '[' && inner.last() != ']'
                ==> yaml_list(yaml, key) == inline_items(split_on(inner, ',')),
{
    let p = key + ":"@;
    let all = seq![line] + after;
    assert(all[0] == line);
    assert(all.skip(1) =~= after);
    assert(trimmed(line).take(p.len() as int) =~= p);
    assert(trimmed(line).skip(p.len() as int) =~= value);
    assert forall|inner: Seq<char>|
        trimmed(value) == #[trigger] (seq!['['] + inner + seq![']']) && inner.len() > 0 && inner[0]
            != '[' && inner[0] != ']' && inner.last() != '[' && inner.last() != ']' implies yaml_list(
        yaml,
        key,
    ) == inline_items(split_on(inner, ',')) by {
        let rest = trimmed(value);
        let set = seq!['[', ']'];
        assert(set[0] == '[' && set[1] == ']');
        assert(set.contains('[') && set.contains(']'));
        assert(rest[0] == '[');
        let open = inner + seq![']'];
        assert(rest.skip(1) =~= open);
        assert(open[0] == inner[0]);
        assert(!set.contains(inner[0]));
        assert(crate::text::stripped_start(open, set) == open);
        assert(crate::text::stripped_start(rest, set) == open);
        assert(open.last() == ']');
        assert(open.drop_last() =~= inner);
        assert(!set.contains(inner.last()));
        assert(crate::text::stripped_end(inner, set) == inner);
        assert(crate::text::stripped_end(open, set) == inner);
    }
}

/// Items in brackets are taken in order, without spaces around them; empty ones are left
/// out.
pub proof fn law_inline_items(a: Seq<Seq<char>>, b: Seq<Seq<char>>, item: Seq<char>)
    ensures
        inline_items(a + b) == inline_items(a) + inline_items(b),
        trimmed(item).len() == 0 ==> inline_items(seq![item]).len() == 0,
        trimmed(item).len() > 0 && trimmed(item)[0] != '"' && trimmed(item)[0] != '\'' && trimmed(
            item,
        ).last() != '"' && trimmed(item).last() != '\'' ==> inline_items(seq![item]) == seq![
            trimmed(item),
        ],
    decreases b.len(),
{
    reveal_with_fuel(inline_items, 2);
    let none = Seq::<Seq<char>>::empty();
    let set = seq!['"', '\''];
    assert(seq![item].drop_last() =~= none);
    assert(seq![item].last() == item);
    assert(none.push(trimmed(item)) =~= seq![trimmed(item)]);
    if b.len() == 0 {
        assert(a + b =~= a);
        assert(inline_items(a) + inline_items(b) =~= inline_items(a));
    } else {
        assert((a + b).drop_last() =~= a + b.drop_last());
        assert((a + b).last() == b.last());
        law_inline_items(a, b.drop_last(), item);
        assert(inline_items(a + b) =~= inline_items(a) + inline_items(b));
    }
}

/// Items on lines below are taken in order until a line that is no item; blank lines and
/// comments are passed over.
pub proof fn law_dash_items(line: Seq<char>, after: Seq<Seq<char>>)
    ensures
        begins_with(trimmed(line), "- "@) ==> dash_items(seq![line] + after) == seq![
            unquoted(trimmed(trimmed(line).skip(2))),
        ] + dash_items(after),
        trimmed(line).len() == 0 || (trimmed(line)[0] == '#' && !begins_with(trimmed(line), "- "@))
            ==> dash_items(seq![line] + after) == dash_items(after),
        trimmed(line).len() > 0 && trimmed(line)[0] != '#' && !begins_with(trimmed(line), "- "@)
            ==> dash_items(seq![line] + after).len() == 0,
{
    reveal_strlit("- ");
    let all = seq![line] + after;
    assert(all[0] == line);
    assert(all.skip(1) =~= after);
}

/// A skill is read as its file says: its name from the front matter, else from its
/// directory; its prompt is the body.
pub proof fn law_skill_files(content: Seq<char>, dir: Option<Seq<char>>, path: Seq<char>)
    ensures
        ({
            let front = front_matter_of(content).0;
            let r = skill_of(content, dir, path);
            &&& yaml_string(front, "name"@) is Some ==> r.name == yaml_string(front, "name"@)->0
            &&& yaml_string(front, "name"@) is None && dir is Some ==> r.name == dir->0
            &&& yaml_string(front, "name"@) is None && dir is None ==> r.name == "unknown"@
            &&& yaml_string(front, "description"@) is Some ==> r.description == yaml_string(
                front,
                "description"@,
            )->0
            &&& yaml_string(front, "description"@) is None ==> r.description.len() == 0
            &&& r.keywords == yaml_list(front, "keywords"@)
            &&& r.prompt_body == trimmed(front_matter_of(content).1)
            &&& r.source_path == path
        }),
{
}

// ── Order of skills ────────────────────────────────────────────────────────

/// Texts are ordered by the first character in which they differ; a text comes before
/// those that it begins.
pub proof fn law_texts_are_ordered(
    p: Seq<char>,
    c: char,
    d: char,
    s: Seq<char>,
    t: Seq<char>,
)
    requires
        c != d,
    ensures
        text_before(p + seq![c] + s, p + seq![d] + t) == ((c as int) < (d as int)),
        text_before(p, p + seq![d] + t),
        !text_before(p + s, p),
    decreases p.len(),
{
    let a = p + seq![c] + s;
    let b = p + seq![d] + t;
    if p.len() == 0 {
        assert(a[0] == c && b[0] == d);
    } else {
        let q = p.skip(1);
        law_texts_are_ordered(q, c, d, s, t);
        assert(a[0] == p[0] && b[0] == p[0]);
        assert(a.skip(1) =~= q + seq![c] + s);
        assert(b.skip(1) =~= q + seq![d] + t);
        assert((p + s)[0] == p[0]);
        assert((p + s).skip(1) =~= q + s);
    }
}

/// A skill is put behind those with names not after its own and before those with names
/// after it; the others stay as they were.
pub proof fn law_skills_are_put_in_order(v: Seq<SkillDefinition>, x: SkillDefinition)
    ensures
        exists|k: int|
            0 <= k <= v.len() && inserted(v, x) == #[trigger] v.take(k) + seq![x] + v.skip(k) && (
            forall|i: int| k <= i < v.len() ==> text_before(x.name@, (#[trigger] v[i]).name@)) && (k
                > 0 ==> !text_before(x.name@, v[k - 1].name@)),
    decreases v.len(),
{
    if v.len() > 0 && text_before(x.name@, v.last().name@) {
        let fewer = v.drop_last();
        law_skills_are_put_in_order(fewer, x);
        let k = choose|k: int|
            0 <= k <= fewer.len() && inserted(fewer, x) == #[trigger] fewer.take(k) + seq![x]
                + fewer.skip(k) && (forall|i: int|
                k <= i < fewer.len() ==> text_before(x.name@, (#[trigger] fewer[i]).name@)) && (k
                > 0 ==> !text_before(x.name@, fewer[k - 1].name@));
        assert(inserted(v, x) =~= v.take(k) + seq![x] + v.skip(k));
        assert forall|i: int| k <= i < v.len() implies text_before(
            x.name@,
            (#[trigger] v[i]).name@,
        ) by {
            if i < fewer.len() {
                assert(fewer[i] == v[i]);
            }
        }
        if k > 0 {
            assert(fewer[k - 1] == v[k - 1]);
        }
    } else {
        let k = v.len() as int;
        assert(v.push(x) =~= v.take(k) + seq![x] + v.skip(k));
    }
}

// ── Extraction ─────────────────────────────────────────────────────────────

/// A session that is claimed comes last; the memory holds two hundred, and forgets the
/// oldest fifty at once when there are more.
pub proof fn law_claimed_sessions(ids: Seq<Seq<char>>, id: Seq<char>)
    requires
        ids.len() <= 200,
    ensures
        with_session(ids, id).last() == id,
        ids.len() < 200 ==> with_session(ids, id) == ids + seq![id],
        ids.len() == 200 ==> with_session(ids, id) == ids.skip(50) + seq![id],
{
    assert(ids.push(id) =~= ids + seq![id]);
    if ids.len() == 200 {
        assert(ids.push(id).skip(50) =~= ids.skip(50) + seq![id]);
    }
}

/// The index has a line for each skill, in order, with its name and the beginning of its
/// description.
pub proof fn law_the_index_lists_all_skills(
    a: Seq<SkillDefinition>,
    b: Seq<SkillDefinition>,
    d: SkillDefinition,
)
    requires
        a.len() > 0,
        b.len() > 0,
    ensures
        index_of(a + b) == index_of(a) + "\n"@ + index_of(b),
        index_of(Seq::<SkillDefinition>::empty()) == "(empty — no skills yet)"@,
        index_of(seq![d]) == index_line(d),
        d.description@.len() <= 120 ==> index_line(d) == "- "@ + d.name@ + ": "@ + d.description@,
        d.description@.len() > 120 ==> index_line(d) == "- "@ + d.name@ + ": "@
            + d.description@.take(120),
{
    assert(index_lines(a + b) =~= index_lines(a) + index_lines(b));
    crate::text_laws::law_joining(index_lines(a), index_lines(b), "\n"@);
    assert(index_lines(seq![d]) =~= seq![index_line(d)]);
    assert(d.description@.len() == 120 ==> d.description@.take(120) =~= d.description@);
}

/// The prompt holds the index of skills, and behind it the session and the day.
pub proof fn law_extraction_prompts(index: Seq<char>, session: Seq<char>, today: Seq<char>)
    ensures
        ({
            let p = extract_prompt_of(index, session, today);
            &&& p.take(PROMPT_OPENING@.len() as int) == PROMPT_OPENING@
            &&& has_text(p, index)
            &&& has_text(p, session + "` on "@ + today)
        }),
{
    let p = extract_prompt_of(index, session, today);
    let none = Seq::<char>::empty();
    assert(p.take(PROMPT_OPENING@.len() as int) =~= PROMPT_OPENING@);
    let rest = PROMPT_RULES@ + session + "` on "@ + today + PROMPT_CLOSING@;
    assert(p =~= PROMPT_OPENING@ + none + index + (none + rest));
    crate::text_laws::lemma_holds_around(p, PROMPT_OPENING@, none, index, none, rest);
    assert(none + index + none =~= index);
    let head = PROMPT_OPENING@ + index + PROMPT_RULES@;
    let said = session + "` on "@ + today;
    assert(p =~= head + none + said + (none + PROMPT_CLOSING@));
    crate::text_laws::lemma_holds_around(p, head, none, said, none, PROMPT_CLOSING@);
    assert(none + said + none =~= said);
}

/// A streamed answer is put together in order: text behind text, call behind call.
pub proof fn law_streams_are_put_together(events: Seq<EventView>, e: EventView, k: int)
    ensures
        ({
            let before = collected(events);
            let after = collected(events.push(e));
            &&& e matches EventView::Delta(t) ==> after.text == before.text + t
                && after.tool_calls == before.tool_calls
            &&& e matches EventView::Start(c) ==> after.text == before.text && after.tool_calls
                == before.tool_calls + seq![c]
            &&& e is Other ==> after == before
            &&& e matches EventView::More { index, id, name, delta } ==> {
                &&& after.text == before.text
                &&& after.tool_calls.len() > index
                &&& 0 <= k < before.tool_calls.len() && k != index ==> after.tool_calls[k]
                    == before.tool_calls[k]
                &&& index < before.tool_calls.len() ==> after.tool_calls.len()
                    == before.tool_calls.len() && after.tool_calls[index as int].arguments
                    == before.tool_calls[index as int].arguments + delta
                &&& index < before.tool_calls.len() && id.len() == 0
                    ==> after.tool_calls[index as int].id == before.tool_calls[index as int].id
                &&& index < before.tool_calls.len() && name.len() == 0
                    ==> after.tool_calls[index as int].name == before.tool_calls[index as int].name
                &&& id.len() > 0 ==> after.tool_calls[index as int].id == id
                &&& name.len() > 0 ==> after.tool_calls[index as int].name == name
                &&& index >= before.tool_calls.len() ==> after.tool_calls.len() == index + 1
                    && after.tool_calls[index as int].arguments == delta
            }
        }),
        collected(Seq::<EventView>::empty()).text.len() == 0,
        collected(Seq::<EventView>::empty()).tool_calls.len() == 0,
{
    assert(events.push(e).drop_last() =~= events);
    assert(events.push(e).last() == e);
    let before = collected(events);
    let after = collected(events.push(e));
    if let EventView::Start(c) = e {
        assert(after.tool_calls =~= before.tool_calls + seq![c]);
    }
    if let EventView::More { index, id, name, delta } = e {
        if index >= before.tool_calls.len() {
            assert(after.tool_calls[index as int].arguments =~= delta);
        }
    }
}

/// No arguments are an empty object, arguments that can be read are what they say, and
/// others are handed on as they came.
pub proof fn law_arguments(parsed: Option<JsonView>, text: Seq<char>, key: Seq<char>)
    ensures
        text.len() == 0 ==> field_of(arguments_from(parsed, text), key) is None,
        text.len() > 0 && parsed is Some ==> arguments_from(parsed, text) == parsed->0,
        text.len() > 0 && parsed is None ==> field_of(arguments_from(parsed, text), "raw"@) == Some(
            JsonView::Str(text),
        ) && (key != "raw"@ ==> field_of(arguments_from(parsed, text), key) is None),
{
}

/// A call is made exactly if it lists skills or creates one and the tool is there; every
/// other call is answered with an error under its id.
pub proof fn law_calls_are_screened(call: CallView, is_known: bool, args: JsonView)
    ensures
        ({
            let r = screened(call, is_known, args);
            let lists = call.name == "skills_list"@;
            let manages = call.name == "skill_manage"@;
            let other = string_at(args, "action"@) is Some && string_at(args, "action"@) != Some(
                "create"@,
            );
            &&& r is Execute <==> is_known && (lists || (manages && !other))
            &&& r matches ScreenedView::Execute { args: a, created_name } ==> a == args
                && created_name == string_at(args, "name"@)
            &&& r matches ScreenedView::Answer(m) ==> m.role == "tool"@ && m.tool_call_id == Some(
                call.id,
            ) && m.is_error == Some(true)
            &&& !lists && !manages ==> r->0.parts == seq![
                PartView::Text(
                    "tool '"@ + call.name + "' not available during skill extraction"@,
                ),
            ]
            &&& (lists || manages) && !is_known ==> r->0.parts == seq![
                PartView::Text("tool '"@ + call.name + "' not found in registry"@),
            ]
            &&& manages && is_known && other ==> r->0.parts == seq![
                PartView::Text(
                    "Only skill_manage(action='create') is available during skill extraction."@,
                ),
            ]
        }),
{
    reveal_strlit("skills_list");
    reveal_strlit("skill_manage");
    assert("skills_list"@.len() != "skill_manage"@.len());
}

/// The answer to a call is its output, or its error where there is no output; a skill is
/// written exactly by a management call that did not fail.
pub proof fn law_answers_to_calls(
    outcome: Result<ToolOutput, String>,
    name: Seq<char>,
    created: Option<Seq<char>>,
    id: Seq<char>,
    text: Seq<char>,
    failed: bool,
)
    ensures
        outcome matches Ok(out) ==> result_failed(outcome) == !out.success && (out.output@.len() > 0
            ==> result_text(outcome) == out.output@) && (out.output@.len() == 0 && out.error
            is None ==> result_text(outcome).len() == 0) && (out.output@.len() == 0 && out.error
            is Some ==> result_text(outcome) == "error: "@ + out.error->0@),
        outcome matches Err(e) ==> result_failed(outcome) && result_text(outcome) == "error: "@
            + e@,
        written_by(name, created, outcome) == (if name == "skill_manage"@ && !result_failed(
            outcome,
        ) {
            created
        } else {
            None
        }),
        answer_message(id, text, failed).tool_call_id == Some(id),
        answer_message(id, text, failed).is_error == Some(failed),
        answer_message(id, text, failed).parts == seq![PartView::Text(text)],
{
}

/// What the model answered goes into the history with its text and all its calls.
pub proof fn law_answers_are_kept_with_their_calls(r: ResponseView)
    ensures
        calling_message(r).role == "assistant"@,
        calling_message(r).parts == seq![PartView::Text(r.text)],
        calling_message(r).tool_calls == Some(r.tool_calls),
{
}

/// A notice counts the skills that were written, and names each, in order.
pub proof fn law_notices_name_the_skills(
    names: Seq<Seq<char>>,
    before: Seq<Seq<char>>,
    name: Seq<char>,
    after: Seq<Seq<char>>,
)
    requires
        names == before + seq![name] + after,
    ensures
        begins_with(notice_of(names), "本次会话沉淀了 "@ + decimal(names.len()) + " 个 draft skill:"@),
        has_text(notice_of(names), "「"@ + name + "」"@),
{
    let marked = names.map_values(|n: Seq<char>| quoted(n));
    let head = "本次会话沉淀了 "@ + decimal(names.len()) + " 个 draft skill:"@;
    let tail = "，待审核。可以让我查看内容并提议保留/合并/删除。"@;
    let t = notice_of(names);
    assert(t.take(head.len() as int) =~= head);
    lemma_joined_holds(marked, before.len() as int, "、"@);
    assert(marked[before.len() as int] == quoted(name));
    let inner = joined(marked, "、"@);
    let i = choose|i: int| matches_at(inner, quoted(name), i);
    assert(t =~= head + inner + tail);
    assert(t.subrange(head.len() + i, head.len() + i + quoted(name).len()) =~= inner.subrange(
        i,
        i + quoted(name).len(),
    ));
    assert(matches_at(t, quoted(name), head.len() + i));
}

proof fn lemma_joined_holds(parts: Seq<Seq<char>>, k: int, sep: Seq<char>)
    requires
        0 <= k < parts.len(),
    ensures
        has_text(joined(parts, sep), parts[k]),
    decreases parts.len(),
{
    let r = joined(parts, sep);
    if parts.len() == 1 {
        assert(r.subrange(0, r.len() as int) =~= r);
        assert(matches_at(r, parts[k], 0));
    } else if k == parts.len() - 1 {
        let head = joined(parts.drop_last(), sep) + sep;
        assert(r.subrange(head.len() as int, (head.len() + parts[k].len()) as int) =~= parts[k]);
        assert(matches_at(r, parts[k], head.len() as int));
    } else {
        let fewer = parts.drop_last();
        lemma_joined_holds(fewer, k, sep);
        let b = joined(fewer, sep);
        let i = choose|i: int| matches_at(b, fewer[k], i);
        assert(fewer[k] == parts[k]);
        assert(r.subrange(i, i + parts[k].len()) =~= b.subrange(i, i + parts[k].len()));
        assert(matches_at(r, parts[k], i));
    }
}

// ── Reminders of drafts ────────────────────────────────────────────────────

/// Drafts are due, all of them and in order, exactly if there are five or more and nobody
/// was reminded today.
pub proof fn law_drafts_are_due(
    last: Option<Seq<char>>,
    today: Seq<char>,
    drafts: Seq<Seq<char>>,
)
    ensures
        drafts.len() >= 5 && last != Some(today) ==> due_drafts(last, today, drafts) == drafts,
        drafts.len() < 5 || last == Some(today) ==> due_drafts(last, today, drafts).len() == 0,
{
}

/// A user is reminded of their own drafts, an operator of the agent's as well.
pub proof fn law_who_is_reminded(
    today: Seq<char>,
    owner: Seq<char>,
    is_operator: bool,
    user: ScopeState,
    agent: ScopeState,
)
    ensures
        owner.len() > 0 && user.drafts@.len() >= 5 && opt_text(user.last_reminded) != Some(today)
            ==> backlog_on(today, owner, is_operator, user, agent).user_layer == texts(
            user.drafts@,
        ),
        owner.len() == 0 ==> backlog_on(today, owner, is_operator, user, agent).user_layer.len()
            == 0,
        is_operator && agent.drafts@.len() >= 5 && opt_text(agent.last_reminded) != Some(today)
            ==> backlog_on(today, owner, is_operator, user, agent).agent_layer == texts(
            agent.drafts@,
        ),
{
}

/// A reminder names what is due, and its day is kept for exactly those who are reminded;
/// where nothing is due, there is none.
pub proof fn law_days_of_reminders(
    r: Armed,
    today: Seq<char>,
    owner: Seq<char>,
    is_operator: bool,
    user: ScopeState,
    agent: ScopeState,
)
    requires
        is_armed(r, today, owner, is_operator, user, agent),
    ensures
        ({
            let due = backlog_on(today, owner, is_operator, user, agent);
            let nothing = due.user_layer.len() == 0 && due.agent_layer.len() == 0;
            &&& r.backlog is None <==> nothing
            &&& !nothing ==> texts(r.backlog->0.user_layer@) == due.user_layer && texts(
                r.backlog->0.agent_layer@,
            ) == due.agent_layer
            &&& due.user_layer.len() > 0 ==> opt_text(r.user_date) == Some(today)
            &&& due.user_layer.len() == 0 ==> r.user_date is None
            &&& due.agent_layer.len() > 0 ==> opt_text(r.agent_date) == Some(today)
            &&& due.agent_layer.len() == 0 ==> r.agent_date is None
        }),
{
}

// ── How the steps of an extraction relate ──────────────────────────────────

/// A session is claimed once: the second claim fails and changes nothing.
pub proof fn law_sessions_are_claimed_once(
    a: &mut ExtractedSessions,
    id: &str,
    r: bool,
    b: &mut ExtractedSessions,
    again: bool,
)
    requires
        old(a).wf(),
        call_ensures(ExtractedSessions::claim, (a, id), r),
        *old(b) == *final(a),
        call_ensures(ExtractedSessions::claim, (b, id), again),
    ensures
        r <==> !texts(old(a).ids@).contains(id@),
        !again,
        texts(final(b).ids@) == texts(final(a).ids@),
{
    let ids = texts(old(a).ids@);
    if r {
        law_claimed_sessions(ids, id@);
        let all = with_session(ids, id@);
        assert(all[all.len() - 1] == id@);
        assert(texts(final(a).ids@).contains(id@));
    }
}

/// Extraction is admitted for a session that was not claimed, while none runs; the session
/// counts as claimed either way.
pub proof fn law_extractions_are_admitted(
    s: &mut ExtractedSessions,
    id: &str,
    none_runs: bool,
    r: bool,
)
    requires
        old(s).wf(),
        call_ensures(admit_extraction, (s, id, none_runs), r),
    ensures
        r <==> !texts(old(s).ids@).contains(id@) && none_runs,
        texts(final(s).ids@).contains(id@),
{
    let ids = texts(old(s).ids@);
    if !ids.contains(id@) {
        law_claimed_sessions(ids, id@);
        let all = with_session(ids, id@);
        assert(all[all.len() - 1] == id@);
    }
}

/// An extraction goes on for three rounds at most and ends with the first answer that
/// calls nothing; an answer with calls is kept behind what was said.
pub proof fn law_extraction_rounds(
    run: &mut SkillExtractRun,
    response: &ExtractResponse,
    r: bool,
    after: &SkillExtractRun,
    more: bool,
)
    requires
        call_ensures(SkillExtractRun::take_response, (run, response), r),
        *after == *final(run),
        call_ensures(SkillExtractRun::wants_response, (after,), more),
    ensures
        r <==> response.tool_calls@.len() > 0,
        !r ==> !more && final(run).messages@.len() == old(run).messages@.len(),
        r ==> final(run).messages@.len() == old(run).messages@.len() + 1
            && final(run).messages@.last()@.tool_calls == Some(
            crate::session::chat::calls_of(response.tool_calls@),
        ),
        r ==> final(run).rounds == old(run).rounds + 1,
        more ==> final(run).rounds < 3 && !final(run).finished,
        r && !old(run).finished && old(run).rounds + 1 < 3 ==> more,
{
    let a = crate::session::chat::messages_of(final(run).messages@);
    let b = crate::session::chat::messages_of(old(run).messages@);
    assert(a.len() == final(run).messages@.len());
    assert(b.len() == old(run).messages@.len());
    if r {
        assert(a.last() == final(run).messages@.last()@);
    }
}

/// Each answer is kept behind what was said, and what was written is remembered in order.
pub proof fn law_written_skills_are_remembered(
    run: &mut SkillExtractRun,
    answer: ChatMessage,
    written: Option<String>,
)
    requires
        call_ensures(SkillExtractRun::take_answer, (run, answer, written), ()),
    ensures
        crate::session::chat::messages_of(final(run).messages@) == crate::session::chat::messages_of(
            old(run).messages@,
        ) + seq![answer@],
        written is Some ==> texts(final(run).written@) == texts(old(run).written@) + seq![
            written->0@,
        ],
        written is None ==> texts(final(run).written@) == texts(old(run).written@),
        final(run).rounds == old(run).rounds,
{
    let b = crate::session::chat::messages_of(old(run).messages@);
    assert(b.push(answer@) =~= b + seq![answer@]);
    if written is Some {
        let w = texts(old(run).written@);
        assert(w.push(written->0@) =~= w + seq![written->0@]);
    }
}

} // verus!
