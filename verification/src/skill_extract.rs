//! Drafting skills at the end of a turn.
//!
//! A conversation is shown once more to the model, which may save a reusable
//! procedure of it as a draft skill. It may list skills and create one, and has
//! a few rounds for it.

use crate::json::{
    field_of, fields_of, json_parsed, lemma_fields_of, map_of, model_of, Json, JsonView,
};
use crate::number::{decimal, decimal_of};
use crate::session::chat::{
    calls_of, messages_of, text_message, CallView, ChatMessage, MessageView, ToolCall,
};
use crate::skill_loader::SkillDefinition;
use crate::split::{head_of, join_strings, joined, lemma_texts_push, take_chars};
use crate::text::{chars_of, copy_str, opt_text, same_str, string_of, texts};
use crate::time::{date_text, format_date, is_reading, read_clock, UtcInstant};
use vstd::prelude::*;
use vstd::utf8::encode_utf8;

verus! {

/// How often the model is asked.
pub const MAX_ROUNDS: usize = 3;

/// How long, in seconds, an extraction may take.
pub const OVERALL_TIMEOUT_SECS: u64 = 90;

/// How many sessions are remembered as done.
pub const REMEMBERED_SESSIONS: usize = 200;

/// How many sessions are forgotten when there are too many.
pub const FORGOTTEN_SESSIONS: usize = 50;

// ── Once per session ───────────────────────────────────────────────────────

/// The sessions of which skills were extracted, the oldest first.
#[derive(Debug)]
pub struct ExtractedSessions {
    pub ids: Vec<String>,
}

/// The ids after a session is added. When there are too many, the oldest go.
pub open spec fn with_session(ids: Seq<Seq<char>>, id: Seq<char>) -> Seq<Seq<char>> {
    if ids.len() + 1 > REMEMBERED_SESSIONS {
        ids.push(id).skip(FORGOTTEN_SESSIONS as int)
    } else {
        ids.push(id)
    }
}

impl ExtractedSessions {
    /// Whether no session is there twice and there are not too many.
    pub open spec fn wf(self) -> bool {
        &&& self.ids@.len() <= REMEMBERED_SESSIONS
        &&& texts(self.ids@).no_duplicates()
    }

    /// No session yet.
    pub fn new() -> (r: ExtractedSessions)
        ensures
            r.wf(),
            r.ids@.len() == 0,
    {
        ExtractedSessions { ids: Vec::new() }
    }

    /// Whether a session is remembered.
    pub fn contains(&self, id: &str) -> (r: bool)
        ensures
            r == texts(self.ids@).contains(id@),
    {
        let mut i: usize = 0;
        while i < self.ids.len()
            invariant
                i <= self.ids@.len(),
                forall|j: int| 0 <= j < i ==> texts(self.ids@)[j] != id@,
            decreases self.ids@.len() - i,
        {
            if same_str(self.ids[i].as_str(), id) {
                assert(texts(self.ids@)[i as int] == id@);
                return true;
            }
            i += 1;
        }
        false
    }

    /// Claims the extraction of a session. A session that is remembered is
    /// refused.
    pub fn claim(&mut self, id: &str) -> (r: bool)
        requires
            old(self).wf(),
        ensures
            final(self).wf(),
            r == !texts(old(self).ids@).contains(id@),
            texts(final(self).ids@) == (if r {
                with_session(texts(old(self).ids@), id@)
            } else {
                texts(old(self).ids@)
            }),
    {
        if self.contains(id) {
            return false;
        }
        let ghost before = texts(self.ids@);
        let copy = copy_str(id);
        proof {
            lemma_texts_push(self.ids@, copy);
        }
        self.ids.push(copy);
        let ghost all = texts(self.ids@);
        assert(all == before.push(id@));
        assert(all.no_duplicates()) by {
            assert forall|i: int, j: int|
                0 <= i < all.len() && 0 <= j < all.len() && i != j implies all[i] != all[j] by {
                if i == before.len() {
                    assert(before.contains(before[j]));
                } else if j == before.len() {
                    assert(before.contains(before[i]));
                }
            }
        }
        if self.ids.len() > REMEMBERED_SESSIONS {
            let mut kept: Vec<String> = Vec::new();
            let mut i: usize = FORGOTTEN_SESSIONS;
            assert(texts(kept@) =~= all.subrange(FORGOTTEN_SESSIONS as int, i as int));
            while i < self.ids.len()
                invariant
                    FORGOTTEN_SESSIONS <= i <= self.ids@.len(),
                    all == texts(self.ids@),
                    texts(kept@) == all.subrange(FORGOTTEN_SESSIONS as int, i as int),
                decreases self.ids@.len() - i,
            {
                let ghost so_far = texts(kept@);
                let copy = self.ids[i].clone();
                proof {
                    lemma_texts_push(kept@, copy);
                }
                kept.push(copy);
                assert(texts(kept@) =~= all.subrange(FORGOTTEN_SESSIONS as int, i as int + 1));
                i += 1;
            }
            self.ids = kept;
            assert(texts(self.ids@) =~= all.skip(FORGOTTEN_SESSIONS as int));
        }
        true
    }
}

/// Decides whether an extraction goes ahead. It is the first of its session, and
/// no other runs; a session whose turn comes while another runs is not taken up
/// again.
pub fn admit_extraction(sessions: &mut ExtractedSessions, session_id: &str, none_runs: bool) -> (r:
    bool)
    requires
        old(sessions).wf(),
    ensures
        final(sessions).wf(),
        r == (!texts(old(sessions).ids@).contains(session_id@) && none_runs),
        texts(final(sessions).ids@) == (if texts(old(sessions).ids@).contains(session_id@) {
            texts(old(sessions).ids@)
        } else {
            with_session(texts(old(sessions).ids@), session_id@)
        }),
{
    sessions.claim(session_id) && none_runs
}

impl Default for ExtractedSessions {
    fn default() -> (r: ExtractedSessions)
        ensures
            r.wf(),
            r.ids@.len() == 0,
    {
        ExtractedSessions::new()
    }
}

/// A session whose extraction was claimed is remembered, so a second claim right
/// after it is refused.
pub proof fn law_claimed_once(ids: Seq<Seq<char>>, id: Seq<char>)
    ensures
        with_session(ids, id).contains(id),
{
    let after = with_session(ids, id);
    if ids.len() + 1 > REMEMBERED_SESSIONS {
        assert(after[after.len() - 1] == id);
    } else {
        assert(after[ids.len() as int] == id);
    }
}

/// Claims of other sessions make a session forgotten only when many of them came
/// in between: as long as the memory does not overflow, every claimed session
/// stays remembered.
pub proof fn law_remembered_until_the_memory_is_full(
    ids: Seq<Seq<char>>,
    id: Seq<char>,
    other: Seq<char>,
)
    requires
        ids.contains(id),
        ids.len() < REMEMBERED_SESSIONS,
    ensures
        with_session(ids, other).contains(id),
{
    let i = choose|i: int| 0 <= i < ids.len() && ids[i] == id;
    assert(with_session(ids, other)[i] == id);
}

// ── Prompt ─────────────────────────────────────────────────────────────────

/// The line that describes a skill.
pub open spec fn index_line(d: SkillDefinition) -> Seq<char> {
    "- "@ + d.name@ + ": "@ + head_of(d.description@, 120)
}

/// The lines that describe skills.
pub open spec fn index_lines(v: Seq<SkillDefinition>) -> Seq<Seq<char>> {
    v.map_values(|d: SkillDefinition| index_line(d))
}

/// The index of the skills there are.
pub open spec fn index_of(v: Seq<SkillDefinition>) -> Seq<char> {
    if v.len() == 0 {
        "(empty — no skills yet)"@
    } else {
        joined(index_lines(v), "\n"@)
    }
}

/// The index of the skills there are: a line for each, with the beginning of its
/// description.
pub fn build_existing_skills_index(definitions: &Vec<SkillDefinition>) -> (r: String)
    ensures
        r@ == index_of(definitions@),
{
    if definitions.len() == 0 {
        return copy_str("(empty — no skills yet)");
    }
    let mut lines: Vec<String> = Vec::new();
    let mut i: usize = 0;
    assert(texts(lines@) =~= index_lines(definitions@).take(0));
    while i < definitions.len()
        invariant
            i <= definitions@.len(),
            texts(lines@) == index_lines(definitions@).take(i as int),
        decreases definitions@.len() - i,
    {
        let mut line = copy_str("- ");
        line.append(definitions[i].name.as_str());
        line.append(": ");
        let v = chars_of(definitions[i].description.as_str());
        let beginning = string_of(take_chars(&v, 120));
        line.append(beginning.as_str());
        assert(line@ == index_line(definitions@[i as int]));
        proof {
            lemma_texts_push(lines@, line);
        }
        lines.push(line);
        assert(texts(lines@) =~= index_lines(definitions@).take(i as int + 1));
        i += 1;
    }
    assert(index_lines(definitions@).take(definitions@.len() as int) =~= index_lines(definitions@));
    join_strings(&lines, "\n")
}

/// What the prompt says before the index of skills.
pub const PROMPT_OPENING: &'static str = "\n\
\n\
---\n\
You are now acting as the skill extraction subagent. Analyze the conversation above and decide if any reusable procedural knowledge (a step-by-step HOW-TO with concrete commands) should be saved as a skill.\n\
\n\
## Existing skills\n";

/// What the prompt says between the index of skills and the session.
pub const PROMPT_RULES: &'static str = "\n\
\n\
Check this list before creating — do NOT duplicate an existing skill. If a similar skill exists, skip.\n\
\n\
## Three-part admission gate (ALL must pass)\n\
Before creating any skill, the conversation must satisfy all three:\n\
\n\
1. REUSABILITY: The same type of request will recur in future sessions. Exclude one-off tasks (fixing a specific commit, restarting a specific service).\n\
2. PROCEDURAL DEPTH: The solution involved 3+ distinct steps with concrete commands, parameters, or tool sequences. A single-command solution is knowledge, not a procedure.\n\
3. NON-TRIVIAL DISCOVERY: At least one of:\n\
- A pitfall/correction (something that did NOT work and why)\n\
- A non-obvious parameter or configuration value\n\
- A required operation ordering that is not documented\n\
- An easy-to-miss prerequisite condition\n\
\n\
If any gate fails, respond with exactly: no skill needed\n\
\n\
## Output rules\n\
- Create at most 1 skill. Quality over quantity.\n\
- Use `skill_manage` action `create` with a `name` (kebab-case directory name).\n\
- The `content` parameter is the FULL SKILL.md including YAML frontmatter.\n\
- Frontmatter MUST include `metadata.status: draft` — draft skills are hidden from normal loading until a human reviews and activates them.\n\
\n\
## SKILL.md content structure\n\
```yaml\n\
---\n\
name: your-skill-name\n\
description: \"One-line description with trigger conditions and keywords (中英文)\"\n\
metadata:\n\
\x20\x20keywords: [keyword1, keyword2]\n\
\x20\x20status: draft\n\
---\n\
```\n\
(`name`/`description` are the only standard top-level fields — everything else goes under `metadata:`, matching how existing skills are structured.)\n\
Then the body:\n\
\n\
# Skill Title\n\
One sentence on what this does.\n\
\n\
## Prerequisites\n\
- Required environment, dependencies, or conditions\n\
\n\
## Steps\n\
1. Exact command with real parameters (not placeholders)\n\
2. Exact command\n\
3. ...\n\
\n\
## Pitfalls\n\
- What NOT to do and why (extracted from errors/corrections in the conversation)\n\
\n\
## Verification\n\
- How to confirm the operation succeeded\n\
\n\
## Rules\n\
- Commands MUST be real — actual commands that ran successfully in this conversation.\n\
- The Pitfalls section is REQUIRED when the conversation involved any error or correction.\n\
- The description must include trigger keywords that would cause this skill to activate.\n\
- Add provenance at the bottom:\n\
> Extracted from session `";

/// What the prompt says after the date.
pub const PROMPT_CLOSING: &'static str = "\n\
\n\
If no skill is warranted, respond with exactly: no skill needed\n\
\n\
You have a limited turn budget. Be efficient.\n\
Available tools: skills_list, skill_manage.";

/// The prompt of an extraction on a date.
pub open spec fn extract_prompt_of(index: Seq<char>, session_id: Seq<char>, today: Seq<char>) -> Seq<
    char,
> {
    PROMPT_OPENING@ + index + PROMPT_RULES@ + session_id + "` on "@ + today + PROMPT_CLOSING@
}

/// The prompt of an extraction on a date.
pub fn build_skill_extract_prompt(existing_index: &str, session_id: &str, today: &str) -> (r: String)
    ensures
        r@ == extract_prompt_of(existing_index@, session_id@, today@),
{
    let mut prompt = copy_str(PROMPT_OPENING);
    prompt.append(existing_index);
    prompt.append(PROMPT_RULES);
    prompt.append(session_id);
    prompt.append("` on ");
    prompt.append(today);
    prompt.append(PROMPT_CLOSING);
    prompt
}

/// Whether a text is the prompt of an extraction on some date.
pub open spec fn is_extract_prompt(text: Seq<char>, index: Seq<char>, session_id: Seq<char>) -> bool {
    exists|now: UtcInstant|
        #[trigger] is_reading(now) && match date_text(now.secs) {
            Some(today) => text == extract_prompt_of(index, session_id, today),
            None => text == extract_prompt_of(index, session_id, Seq::empty()),
        }
}

/// The prompt of an extraction today.
pub fn skill_extract_prompt(existing_index: &str, session_id: &str) -> (r: String)
    ensures
        is_extract_prompt(r@, existing_index@, session_id@),
{
    let stamp = read_clock();
    let today = match format_date(stamp.at.secs) {
        Some(d) => d,
        None => String::new(),
    };
    assert(date_text(stamp.at.secs) is None ==> today@ =~= Seq::<char>::empty());
    build_skill_extract_prompt(existing_index, session_id, today.as_str())
}

// ── Responses ──────────────────────────────────────────────────────────────

/// A piece of a model's response.
#[derive(Debug)]
pub enum StreamEvent {
    /// More text.
    Delta { text: String },
    /// A new call.
    ToolCallStart { id: String, name: String, initial_arguments: String },
    /// More of the call at a place.
    ToolCallDelta { index: u32, id: String, name: String, delta: String },
    /// Anything else.
    Other,
}

/// The mathematical value of a [`StreamEvent`].
pub enum EventView {
    Delta(Seq<char>),
    Start(CallView),
    More { index: nat, id: Seq<char>, name: Seq<char>, delta: Seq<char> },
    Other,
}

impl View for StreamEvent {
    type V = EventView;

    open spec fn view(&self) -> EventView {
        match self {
            StreamEvent::Delta { text } => EventView::Delta(text@),
            StreamEvent::ToolCallStart { id, name, initial_arguments } => EventView::Start(
                CallView { id: id@, name: name@, arguments: initial_arguments@ },
            ),
            StreamEvent::ToolCallDelta { index, id, name, delta } => EventView::More {
                index: *index as nat,
                id: id@,
                name: name@,
                delta: delta@,
            },
            StreamEvent::Other => EventView::Other,
        }
    }
}

/// A model's response, as far as it was received.
#[derive(Debug)]
pub struct ExtractResponse {
    pub text: String,
    pub tool_calls: Vec<ToolCall>,
}

/// The mathematical value of an [`ExtractResponse`].
pub struct ResponseView {
    pub text: Seq<char>,
    pub tool_calls: Seq<CallView>,
}

impl View for ExtractResponse {
    type V = ResponseView;

    open spec fn view(&self) -> ResponseView {
        ResponseView { text: self.text@, tool_calls: calls_of(self.tool_calls@) }
    }
}

/// A call of which nothing is known.
pub open spec fn blank_call() -> CallView {
    CallView { id: Seq::empty(), name: Seq::empty(), arguments: Seq::empty() }
}

/// The calls with blank ones behind them, until there is one at a place.
pub open spec fn padded_to(calls: Seq<CallView>, index: nat) -> Seq<CallView> {
    if calls.len() > index {
        calls
    } else {
        calls + Seq::new((index + 1 - calls.len()) as nat, |i: int| blank_call())
    }
}

/// `new`, or `old_text` where `new` is empty.
pub open spec fn replaced_unless_empty(old_text: Seq<char>, new: Seq<char>) -> Seq<char> {
    if new.len() > 0 {
        new
    } else {
        old_text
    }
}

/// A response after one more piece.
pub open spec fn with_event(r: ResponseView, e: EventView) -> ResponseView {
    match e {
        EventView::Delta(t) => ResponseView { text: r.text + t, ..r },
        EventView::Start(c) => ResponseView { tool_calls: r.tool_calls.push(c), ..r },
        EventView::More { index, id, name, delta } => {
            let calls = padded_to(r.tool_calls, index);
            let c = calls[index as int];
            ResponseView {
                tool_calls: calls.update(
                    index as int,
                    CallView {
                        id: replaced_unless_empty(c.id, id),
                        name: replaced_unless_empty(c.name, name),
                        arguments: c.arguments + delta,
                    },
                ),
                ..r
            }
        },
        EventView::Other => r,
    }
}

/// Whether a list can hold the call that a piece speaks of.
pub open spec fn has_room(e: EventView) -> bool {
    e matches EventView::More { index, .. } ==> index < usize::MAX
}

/// A response after several pieces.
pub open spec fn collected(events: Seq<EventView>) -> ResponseView
    decreases events.len(),
{
    if events.len() == 0 {
        ResponseView { text: Seq::empty(), tool_calls: Seq::empty() }
    } else {
        with_event(collected(events.drop_last()), events.last())
    }
}

impl ExtractResponse {
    /// A response of which nothing was received.
    pub fn new() -> (r: ExtractResponse)
        ensures
            r@ == collected(Seq::empty()),
    {
        let r = ExtractResponse { text: String::new(), tool_calls: Vec::new() };
        assert(r@.text =~= Seq::<char>::empty());
        assert(r@.tool_calls =~= Seq::<CallView>::empty());
        r
    }

    /// Makes sure that there is a call at a place.
    fn pad_to(&mut self, index: usize)
        requires
            index < usize::MAX,
        ensures
            final(self)@ == (ResponseView {
                tool_calls: padded_to(old(self)@.tool_calls, index as nat),
                ..old(self)@
            }),
    {
        let ghost before = calls_of(self.tool_calls@);
        let ghost text = self.text@;
        assert(before =~= before + Seq::new(0, |i: int| blank_call()));
        while self.tool_calls.len() <= index
            invariant
                index < usize::MAX,
                self.text@ == text,
                self.tool_calls@.len() >= before.len(),
                self.tool_calls@.len() > before.len() ==> self.tool_calls@.len() <= index + 1,
                calls_of(self.tool_calls@) == before + Seq::new(
                    (self.tool_calls@.len() - before.len()) as nat,
                    |i: int| blank_call(),
                ),
            decreases index + 1 - self.tool_calls@.len(),
        {
            let ghost so_far = calls_of(self.tool_calls@);
            let call = ToolCall { id: String::new(), name: String::new(), arguments: String::new() };
            assert(call@.id =~= Seq::<char>::empty());
            assert(call@.name =~= Seq::<char>::empty());
            assert(call@.arguments =~= Seq::<char>::empty());
            self.tool_calls.push(call);
            assert(calls_of(self.tool_calls@) =~= so_far.push(blank_call()));
            assert(calls_of(self.tool_calls@) =~= before + Seq::new(
                (self.tool_calls@.len() - before.len()) as nat,
                |i: int| blank_call(),
            ));
        }
    }

    /// Takes in one more piece.
    pub fn absorb(&mut self, event: StreamEvent)
        requires
            has_room(event@),
        ensures
            final(self)@ == with_event(old(self)@, event@),
    {
        match event {
            StreamEvent::Delta { text } => {
                self.text.append(text.as_str());
            },
            StreamEvent::ToolCallStart { id, name, initial_arguments } => {
                let ghost before = calls_of(self.tool_calls@);
                let call = ToolCall { id, name, arguments: initial_arguments };
                self.tool_calls.push(call);
                assert(calls_of(self.tool_calls@) =~= before.push(call@));
            },
            StreamEvent::ToolCallDelta { index, id, name, delta } => {
                let at: usize = index as usize;
                self.pad_to(at);
                let ghost padded = calls_of(self.tool_calls@);
                assert(padded == padded_to(old(self)@.tool_calls, at as nat));
                assert(padded.len() > at);
                assert(padded.len() == self.tool_calls@.len());
                let mut call = self.tool_calls[at].copy();
                if !id.as_str().is_empty() {
                    call.id = id;
                }
                if !name.as_str().is_empty() {
                    call.name = name;
                }
                call.arguments.append(delta.as_str());
                self.tool_calls.set(at, call);
                assert(calls_of(self.tool_calls@) =~= padded.update(at as int, call@));
            },
            StreamEvent::Other => {},
        }
    }
}

/// Puts a response together from its pieces.
pub fn collect_extract_stream(events: Vec<StreamEvent>) -> (r: ExtractResponse)
    requires
        forall|i: int| 0 <= i < events@.len() ==> has_room((#[trigger] events@[i])@),
    ensures
        r@ == collected(events@.map_values(|e: StreamEvent| e@)),
{
    let ghost views = events@.map_values(|e: StreamEvent| e@);
    let mut r = ExtractResponse::new();
    let ghost mut i: int = 0;
    let mut left = events;
    assert(views.take(0) =~= Seq::<EventView>::empty());
    while left.len() > 0
        invariant
            0 <= i,
            i + left@.len() == views.len(),
            forall|j: int| 0 <= j < left@.len() ==> (#[trigger] left@[j])@ == views[i + j],
            forall|j: int| 0 <= j < left@.len() ==> has_room((#[trigger] left@[j])@),
            r@ == collected(views.take(i)),
        decreases left@.len(),
    {
        let ghost remaining = left@;
        let event = left.remove(0);
        assert(event == remaining[0]);
        assert(views.take(i + 1).drop_last() =~= views.take(i));
        assert(views.take(i + 1).last() == event@);
        assert forall|j: int| 0 <= j < left@.len() implies (#[trigger] left@[j])@ == views[i + 1
            + j] by {
            assert(left@[j] == remaining[j + 1]);
        }
        r.absorb(event);
        proof {
            i = i + 1;
        }
    }
    assert(views.take(views.len() as int) =~= views);
    r
}

// ── Calls ──────────────────────────────────────────────────────────────────

/// Whether a tool may be called during an extraction.
pub open spec fn is_allowed(name: Seq<char>) -> bool {
    name == "skills_list"@ || name == "skill_manage"@
}

/// The arguments of a call, given what their text parses to.
pub open spec fn arguments_from(parsed: Option<JsonView>, text: Seq<char>) -> JsonView {
    if text.len() == 0 {
        JsonView::Object(Map::empty())
    } else {
        match parsed {
            Some(v) => v,
            None => JsonView::Object(Map::empty().insert("raw"@, JsonView::Str(text))),
        }
    }
}

/// The arguments of a call: its JSON value, or its text under `raw` where it
/// holds none.
pub open spec fn arguments_of(text: Seq<char>) -> JsonView {
    arguments_from(json_parsed(encode_utf8(text)), text)
}

/// Reads the arguments of a call.
pub fn read_arguments(text: &str) -> (r: Json)
    ensures
        r@ == arguments_of(text@),
{
    if text.is_empty() {
        let fields: Vec<(String, Json)> = Vec::new();
        assert(map_of(fields_of(fields@)) =~= Map::<Seq<char>, JsonView>::empty());
        return Json::Object(fields);
    }
    match Json::parse(text.as_bytes()) {
        Some(v) => v,
        None => {
            let mut fields: Vec<(String, Json)> = Vec::new();
            let ghost none = fields@;
            let raw = Json::Str(copy_str(text));
            assert(model_of(raw) == JsonView::Str(text@));
            fields.push((copy_str("raw"), raw));
            proof {
                lemma_fields_of(fields@);
            }
            assert(fields@.drop_last() =~= none);
            assert(fields_of(none) =~= Seq::<(Seq<char>, JsonView)>::empty());
            assert(fields_of(fields@) =~= seq![("raw"@, JsonView::Str(text@))]);
            assert(fields_of(fields@).drop_last() =~= Seq::<(Seq<char>, JsonView)>::empty());
            assert(map_of(fields_of(fields@).drop_last()) =~= Map::<
                Seq<char>,
                JsonView,
            >::empty());
            Json::Object(fields)
        },
    }
}

/// The message that answers a call.
pub open spec fn answer_message(id: Seq<char>, text: Seq<char>, is_error: bool) -> MessageView {
    MessageView {
        tool_call_id: Some(id),
        is_error: Some(is_error),
        ..text_message("tool"@, text)
    }
}

fn answer_with(id: &str, text: &str, is_error: bool) -> (r: ChatMessage)
    ensures
        r@ == answer_message(id@, text@, is_error),
{
    let mut m = ChatMessage::text("tool", text);
    m.tool_call_id = Some(copy_str(id));
    m.is_error = Some(is_error);
    m
}

/// What becomes of a call.
pub enum Screened {
    /// It is answered and not made.
    Answer(ChatMessage),
    /// It is made. A skill that it creates has this name.
    Execute { args: Json, created_name: Option<String> },
}

/// The mathematical value of a [`Screened`].
pub enum ScreenedView {
    Answer(MessageView),
    Execute { args: JsonView, created_name: Option<Seq<char>> },
}

impl View for Screened {
    type V = ScreenedView;

    open spec fn view(&self) -> ScreenedView {
        match self {
            Screened::Answer(m) => ScreenedView::Answer(m@),
            Screened::Execute { args, created_name } => ScreenedView::Execute {
                args: args@,
                created_name: opt_text(*created_name),
            },
        }
    }
}

/// The string under a name.
pub open spec fn string_at(v: JsonView, name: Seq<char>) -> Option<Seq<char>> {
    match field_of(v, name) {
        Some(JsonView::Str(s)) => Some(s),
        _ => None,
    }
}

fn read_string(v: &Json, name: &str) -> (r: Option<String>)
    ensures
        opt_text(r) == string_at(v@, name@),
{
    match v.get(name) {
        Some(f) => match f.as_str() {
            Some(s) => Some(copy_str(s)),
            None => None,
        },
        None => None,
    }
}

/// Whether a call asks for anything but the creation of a skill.
pub open spec fn is_no_creation(name: Seq<char>, args: JsonView) -> bool {
    &&& name == "skill_manage"@
    &&& string_at(args, "action"@) is Some
    &&& string_at(args, "action"@) != Some("create"@)
}

/// What becomes of a call, given whether there is such a tool and its arguments.
/// Only skills may be listed, and one created.
pub open spec fn screened(call: CallView, is_known: bool, args: JsonView) -> ScreenedView {
    if !is_allowed(call.name) {
        ScreenedView::Answer(
            answer_message(
                call.id,
                "tool '"@ + call.name + "' not available during skill extraction"@,
                true,
            ),
        )
    } else if !is_known {
        ScreenedView::Answer(
            answer_message(call.id, "tool '"@ + call.name + "' not found in registry"@, true),
        )
    } else if is_no_creation(call.name, args) {
        ScreenedView::Answer(
            answer_message(
                call.id,
                "Only skill_manage(action='create') is available during skill extraction."@,
                true,
            ),
        )
    } else {
        ScreenedView::Execute { args, created_name: string_at(args, "name"@) }
    }
}

/// Decides on a call, given its arguments.
pub fn screen_with(call: &ToolCall, is_known: bool, args: Json) -> (r: Screened)
    ensures
        r@ == screened(call@, is_known, args@),
{
    let name = call.name.as_str();
    if !same_str(name, "skills_list") && !same_str(name, "skill_manage") {
        let mut text = copy_str("tool '");
        text.append(name);
        text.append("' not available during skill extraction");
        return Screened::Answer(answer_with(call.id.as_str(), text.as_str(), true));
    }
    if !is_known {
        let mut text = copy_str("tool '");
        text.append(name);
        text.append("' not found in registry");
        return Screened::Answer(answer_with(call.id.as_str(), text.as_str(), true));
    }
    if same_str(name, "skill_manage") {
        match read_string(&args, "action") {
            Some(action) => {
                if !same_str(action.as_str(), "create") {
                    return Screened::Answer(
                        answer_with(
                            call.id.as_str(),
                            "Only skill_manage(action='create') is available during skill extraction.",
                            true,
                        ),
                    );
                }
            },
            None => {},
        }
    }
    let created_name = read_string(&args, "name");
    Screened::Execute { args, created_name }
}

/// Decides on a call.
pub fn screen_call(call: &ToolCall, is_known: bool) -> (r: Screened)
    ensures
        r@ == screened(call@, is_known, arguments_of(call.arguments@)),
{
    screen_with(call, is_known, read_arguments(call.arguments.as_str()))
}

/// Nothing is made but the listing of skills and calls of `skill_manage` that
/// name no other action than `create`.
pub proof fn law_only_listing_and_creation(call: CallView, is_known: bool, args: JsonView)
    requires
        screened(call, is_known, args) is Execute,
    ensures
        is_known,
        call.name == "skills_list"@ || call.name == "skill_manage"@,
        call.name == "skill_manage"@ ==> string_at(args, "action"@) is None || string_at(
            args,
            "action"@,
        ) == Some("create"@),
{
}

/// What a tool gives back.
#[derive(Debug)]
pub struct ToolOutput {
    pub success: bool,
    pub output: String,
    pub error: Option<String>,
}

/// The text that answers a call that was made.
pub open spec fn result_text(outcome: Result<ToolOutput, String>) -> Seq<char> {
    match outcome {
        Ok(out) => if out.output@.len() == 0 && out.error is Some {
            "error: "@ + out.error.unwrap()@
        } else {
            out.output@
        },
        Err(e) => "error: "@ + e@,
    }
}

/// Whether a call that was made failed.
pub open spec fn result_failed(outcome: Result<ToolOutput, String>) -> bool {
    match outcome {
        Ok(out) => !out.success,
        Err(_) => true,
    }
}

/// The skill that a call wrote.
pub open spec fn written_by(
    name: Seq<char>,
    created_name: Option<Seq<char>>,
    outcome: Result<ToolOutput, String>,
) -> Option<Seq<char>> {
    if !result_failed(outcome) && name == "skill_manage"@ {
        created_name
    } else {
        None
    }
}

/// The message that answers a call that was made, and the skill that it wrote.
pub fn settle_call(call: &ToolCall, created_name: Option<String>, outcome: Result<
    ToolOutput,
    String,
>) -> (r: (ChatMessage, Option<String>))
    ensures
        r.0@ == answer_message(call.id@, result_text(outcome), result_failed(outcome)),
        opt_text(r.1) == written_by(call.name@, opt_text(created_name), outcome),
{
    match outcome {
        Ok(out) => {
            let written = if out.success && same_str(call.name.as_str(), "skill_manage") {
                created_name
            } else {
                None
            };
            let text = match out.error {
                Some(ref e) => if out.output.as_str().is_empty() {
                    let mut t = copy_str("error: ");
                    t.append(e.as_str());
                    t
                } else {
                    out.output
                },
                None => out.output,
            };
            (answer_with(call.id.as_str(), text.as_str(), !out.success), written)
        },
        Err(e) => {
            let mut t = copy_str("error: ");
            t.append(e.as_str());
            (answer_with(call.id.as_str(), t.as_str(), true), None)
        },
    }
}

// ── Rounds ─────────────────────────────────────────────────────────────────

/// What an extraction begins with.
pub struct SkillExtractInput {
    /// The system prompt and the conversation.
    pub messages: Vec<ChatMessage>,
    /// The model of the turn.
    pub model_id: String,
    pub session_id: String,
    /// The directory that holds the skills.
    pub base_dir: String,
    /// Whether there is a channel to tell of drafts.
    pub has_channel: bool,
    /// Where to tell of drafts.
    pub reply_target: Option<String>,
}

/// An extraction under way.
pub struct SkillExtractRun {
    /// What the model is shown.
    pub messages: Vec<ChatMessage>,
    /// The skills written.
    pub written: Vec<String>,
    /// How often the model has called tools.
    pub rounds: usize,
    /// Whether the model has called no more tools.
    pub finished: bool,
}

/// The message with which a model calls tools.
pub open spec fn calling_message(response: ResponseView) -> MessageView {
    MessageView {
        tool_calls: Some(response.tool_calls),
        ..text_message("assistant"@, response.text)
    }
}

impl SkillExtractRun {
    /// Whether the rounds are within their limit.
    pub open spec fn wf(self) -> bool {
        self.rounds <= MAX_ROUNDS
    }

    /// Begins an extraction: the conversation and the prompt.
    pub fn begin(messages: Vec<ChatMessage>, prompt: &str) -> (r: SkillExtractRun)
        ensures
            r.wf(),
            messages_of(r.messages@) == messages_of(messages@).push(
                text_message("user"@, prompt@),
            ),
            r.written@.len() == 0,
            r.rounds == 0,
            !r.finished,
    {
        let ghost before = messages_of(messages@);
        let mut all = messages;
        let last = ChatMessage::user_text(prompt);
        all.push(last);
        assert(messages_of(all@) =~= before.push(last@));
        SkillExtractRun { messages: all, written: Vec::new(), rounds: 0, finished: false }
    }

    /// Begins an extraction today, given the skills there are.
    pub fn start(input: SkillExtractInput, definitions: &Vec<SkillDefinition>) -> (r:
        SkillExtractRun)
        ensures
            r.wf(),
            r.rounds == 0,
            !r.finished,
            r.written@.len() == 0,
            exists|prompt: Seq<char>|
                messages_of(r.messages@) == messages_of(input.messages@).push(
                    #[trigger] text_message("user"@, prompt),
                ) && is_extract_prompt(prompt, index_of(definitions@), input.session_id@),
    {
        let index = build_existing_skills_index(definitions);
        let prompt = skill_extract_prompt(index.as_str(), input.session_id.as_str());
        SkillExtractRun::begin(input.messages, prompt.as_str())
    }

    /// Whether the model is to be asked.
    pub fn wants_response(&self) -> (r: bool)
        ensures
            r == (!self.finished && self.rounds < MAX_ROUNDS),
    {
        !self.finished && self.rounds < MAX_ROUNDS
    }

    /// Takes in a response, and says whether its calls are to be dealt with. A
    /// response without calls ends the extraction.
    pub fn take_response(&mut self, response: &ExtractResponse) -> (r: bool)
        requires
            old(self).wf(),
            old(self).rounds < MAX_ROUNDS,
        ensures
            final(self).wf(),
            r == (response.tool_calls@.len() > 0),
            final(self).finished == (old(self).finished || !r),
            final(self).rounds == old(self).rounds + (if r {
                1int
            } else {
                0int
            }),
            messages_of(final(self).messages@) == (if r {
                messages_of(old(self).messages@).push(calling_message(response@))
            } else {
                messages_of(old(self).messages@)
            }),
            final(self).written == old(self).written,
    {
        if response.tool_calls.len() == 0 {
            self.finished = true;
            return false;
        }
        let ghost before = messages_of(self.messages@);
        let mut m = ChatMessage::assistant_text(response.text.as_str());
        m.tool_calls = Some(crate::session::chat::copy_calls(&response.tool_calls));
        self.messages.push(m);
        assert(messages_of(self.messages@) =~= before.push(m@));
        self.rounds = self.rounds + 1;
        true
    }

    /// Takes in the answer to a call and the skill that it wrote.
    pub fn take_answer(&mut self, answer: ChatMessage, written: Option<String>)
        ensures
            messages_of(final(self).messages@) == messages_of(old(self).messages@).push(answer@),
            texts(final(self).written@) == (match opt_text(written) {
                Some(name) => texts(old(self).written@).push(name),
                None => texts(old(self).written@),
            }),
            final(self).rounds == old(self).rounds,
            final(self).finished == old(self).finished,
    {
        let ghost before = messages_of(self.messages@);
        self.messages.push(answer);
        assert(messages_of(self.messages@) =~= before.push(answer@));
        match written {
            Some(name) => {
                proof {
                    lemma_texts_push(self.written@, name);
                }
                self.written.push(name);
            },
            None => {},
        }
    }
}

// ── Notice ─────────────────────────────────────────────────────────────────

/// A name in quotes.
pub open spec fn quoted(name: Seq<char>) -> Seq<char> {
    "「"@ + name + "」"@
}

/// The notice that drafts were written.
pub open spec fn notice_of(names: Seq<Seq<char>>) -> Seq<char> {
    "本次会话沉淀了 "@ + decimal(names.len()) + " 个 draft skill:"@ + joined(
        names.map_values(|n: Seq<char>| quoted(n)),
        "、"@,
    ) + "，待审核。可以让我查看内容并提议保留/合并/删除。"@
}

/// The notice that drafts were written, which names them all.
pub fn drafts_notice(names: &Vec<String>) -> (r: String)
    ensures
        r@ == notice_of(texts(names@)),
{
    let ghost wanted = texts(names@).map_values(|n: Seq<char>| quoted(n));
    let mut parts: Vec<String> = Vec::new();
    let mut i: usize = 0;
    assert(texts(parts@) =~= wanted.take(0));
    while i < names.len()
        invariant
            i <= names@.len(),
            wanted == texts(names@).map_values(|n: Seq<char>| quoted(n)),
            texts(parts@) == wanted.take(i as int),
        decreases names@.len() - i,
    {
        let mut part = copy_str("「");
        part.append(names[i].as_str());
        part.append("」");
        assert(part@ == wanted[i as int]);
        proof {
            lemma_texts_push(parts@, part);
        }
        parts.push(part);
        assert(texts(parts@) =~= wanted.take(i as int + 1));
        i += 1;
    }
    assert(wanted.take(names@.len() as int) =~= wanted);
    let mut text = copy_str("本次会话沉淀了 ");
    text.append(decimal_of(names.len() as u64).as_str());
    text.append(" 个 draft skill:");
    text.append(join_strings(&parts, "、").as_str());
    text.append("，待审核。可以让我查看内容并提议保留/合并/删除。");
    text
}

/// Whom to tell what of the drafts that were written: nobody, without a channel
/// or without an address.
pub fn notify_drafts_written(has_channel: bool, reply_target: Option<String>, names: &Vec<
    String,
>) -> (r: Option<(String, String)>)
    ensures
        match r {
            Some(p) => has_channel && opt_text(reply_target) == Some(p.0@) && p.1@ == notice_of(
                texts(names@),
            ),
            None => !has_channel || reply_target is None,
        },
{
    if !has_channel {
        return None;
    }
    match reply_target {
        Some(target) => Some((target, drafts_notice(names))),
        None => None,
    }
}

} // verus!
