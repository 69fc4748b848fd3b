//! Skills: Markdown files with YAML front matter.
//!
//! ```markdown
//! ---
//! name: weather
//! description: "Get current weather conditions and forecasts."
//! keywords: [weather, forecast, temperature, rain]
//! ---
//!
//! # Weather Skill
//! ```

use crate::order::{
    comes_before, lemma_before_total, lemma_not_before_transitive, text_before,
};
use crate::split::{lemma_texts_push, lines_of, slices, split_char, split_lines, split_on};
use crate::text::{
    begins_with, chars_of, copy_str, find_from, find_text, piece, starts_with, string_of,
    strip_both, strip_prefix, stripped_end, stripped_start, texts, trim, trimmed,
};
use vstd::prelude::*;

verus! {

/// A skill.
#[derive(Debug)]
pub struct SkillDefinition {
    pub name: String,
    pub description: String,
    pub keywords: Vec<String>,
    /// The Markdown body, which goes into the system prompt.
    pub prompt_body: String,
    pub source_path: String,
}

// ── Front matter ───────────────────────────────────────────────────────────

/// The front matter and the body of a file. A file has front matter where it
/// begins with `---` and a later line begins with `---`.
pub open spec fn front_matter_of(content: Seq<char>) -> (Seq<char>, Seq<char>) {
    let t = trimmed(content);
    if begins_with(t, "---"@) {
        match find_from(t.skip(3), "\n---"@, 0) {
            Some(end) => (trimmed(t.subrange(3, 3 + end)), trimmed(t.skip(3 + end + 4))),
            None => (Seq::empty(), t),
        }
    } else {
        (Seq::empty(), t)
    }
}

/// Parts the front matter from the body.
pub fn parse_front_matter(content: &str) -> (r: (String, String))
    ensures
        (r.0@, r.1@) == front_matter_of(content@),
{
    let all = chars_of(content);
    let t = trim(&all);
    proof {
        reveal_strlit("---");
        reveal_strlit("\n---");
    }
    if starts_with(t, "---") {
        let rest = piece(t, 3, t.len());
        assert(rest@ =~= t@.skip(3));
        let mark = chars_of("\n---");
        match find_text(rest, &mark, 0) {
            Some(end) => {
                let front = piece(t, 3, 3 + end);
                let body = piece(t, 3 + end + 4, t.len());
                assert(body@ =~= t@.skip(3 + end + 4));
                return (string_of(trim(front)), string_of(trim(body)));
            },
            None => {},
        }
    }
    (String::new(), string_of(t))
}

/// A value without the quotes around it. A quote by itself is no pair.
pub open spec fn unquoted(v: Seq<char>) -> Seq<char> {
    if v.len() >= 2 && ((v[0] == '"' && v.last() == '"') || (v[0] == '\'' && v.last() == '\'')) {
        v.subrange(1, v.len() - 1)
    } else {
        v
    }
}

fn unquote<'a>(v: &'a [char]) -> (r: &'a [char])
    ensures
        r@ == unquoted(v@),
{
    let n: usize = v.len();
    if n >= 2 && ((v[0] == '"' && v[n - 1] == '"') || (v[0] == '\'' && v[n - 1] == '\'')) {
        piece(v, 1, n - 1)
    } else {
        v
    }
}

/// The value of the first line that begins with `prefix`.
pub open spec fn first_value(lines: Seq<Seq<char>>, prefix: Seq<char>) -> Option<Seq<char>>
    decreases lines.len(),
{
    if lines.len() == 0 {
        None
    } else if begins_with(trimmed(lines[0]), prefix) {
        Some(unquoted(trimmed(trimmed(lines[0]).skip(prefix.len() as int))))
    } else {
        first_value(lines.skip(1), prefix)
    }
}

/// The text value of a key.
pub open spec fn yaml_string(yaml: Seq<char>, key: Seq<char>) -> Option<Seq<char>> {
    first_value(lines_of(yaml), key + ":"@)
}

fn key_prefix(key: &str) -> (r: String)
    ensures
        r@ == key@ + ":"@,
{
    let mut p = copy_str(key);
    p.append(":");
    p
}

/// The text value of a key, without quotes.
pub fn extract_yaml_string(yaml: &str, key: &str) -> (r: Option<String>)
    ensures
        crate::text::opt_text(r) == yaml_string(yaml@, key@),
{
    let all = chars_of(yaml);
    let lines = split_lines(&all);
    let prefix = key_prefix(key);
    let ghost ls = slices(lines@);
    let mut i: usize = 0;
    assert(ls.skip(0) =~= ls);
    while i < lines.len()
        invariant
            i <= lines@.len(),
            ls == slices(lines@),
            first_value(ls.skip(i as int), prefix@) == first_value(ls, prefix@),
            first_value(ls, prefix@) == yaml_string(yaml@, key@),
        decreases lines@.len() - i,
    {
        let line = trim(lines[i]);
        assert(ls.skip(i as int)[0] == lines@[i as int]@);
        assert(ls.skip(i as int).skip(1) =~= ls.skip(i as int + 1));
        match strip_prefix(line, prefix.as_str()) {
            Some(rest) => {
                return Some(string_of(unquote(trim(rest))));
            },
            None => {},
        }
        i += 1;
    }
    assert(ls.skip(ls.len() as int) =~= Seq::<Seq<char>>::empty());
    None
}

/// The items of an inline list "[a, b, c]".
pub open spec fn inline_items(parts: Seq<Seq<char>>) -> Seq<Seq<char>>
    decreases parts.len(),
{
    if parts.len() == 0 {
        Seq::empty()
    } else {
        let p = trimmed(parts.last());
        let item = stripped_end(stripped_start(p, seq!['"', '\'']), seq!['"', '\'']);
        if item.len() == 0 {
            inline_items(parts.drop_last())
        } else {
            inline_items(parts.drop_last()).push(item)
        }
    }
}

/// What stands between the brackets of an inline list.
pub open spec fn inline_inner(rest: Seq<char>) -> Seq<char> {
    stripped_end(stripped_start(rest, seq!['[', ']']), seq!['[', ']'])
}

/// The items of a list of lines "- item". Blank lines and comments may stand
/// between them; any other line ends the list.
pub open spec fn dash_items(lines: Seq<Seq<char>>) -> Seq<Seq<char>>
    decreases lines.len(),
{
    if lines.len() == 0 {
        Seq::empty()
    } else {
        let t = trimmed(lines[0]);
        if begins_with(t, "- "@) {
            seq![unquoted(trimmed(t.skip(2)))] + dash_items(lines.skip(1))
        } else if t.len() > 0 && t[0] != '#' {
            Seq::empty()
        } else {
            dash_items(lines.skip(1))
        }
    }
}

/// The list of the first line that begins with `prefix` and opens a list.
pub open spec fn first_list(lines: Seq<Seq<char>>, prefix: Seq<char>) -> Seq<Seq<char>>
    decreases lines.len(),
{
    if lines.len() == 0 {
        Seq::empty()
    } else {
        let t = trimmed(lines[0]);
        let rest = trimmed(t.skip(prefix.len() as int));
        if begins_with(t, prefix) && rest.len() > 0 && rest[0] == '[' {
            inline_items(split_on(inline_inner(rest), ','))
        } else if begins_with(t, prefix) && rest.len() == 0 {
            dash_items(lines.skip(1))
        } else {
            first_list(lines.skip(1), prefix)
        }
    }
}

/// The list value of a key.
pub open spec fn yaml_list(yaml: Seq<char>, key: Seq<char>) -> Seq<Seq<char>> {
    first_list(lines_of(yaml), key + ":"@)
}

fn inline_list(rest: &[char]) -> (r: Vec<String>)
    ensures
        texts(r@) == inline_items(split_on(inline_inner(rest@), ',')),
{
    let brackets: Vec<char> = vec!['[', ']'];
    let quotes: Vec<char> = vec!['"', '\''];
    assert(brackets@ =~= seq!['[', ']']);
    assert(quotes@ =~= seq!['"', '\'']);
    let inner = strip_both(rest, &brackets);
    let parts = split_char(inner, ',');
    let ghost ps = slices(parts@);
    let mut r: Vec<String> = Vec::new();
    let mut i: usize = 0;
    assert(ps.take(0) =~= Seq::<Seq<char>>::empty());
    assert(texts(r@) =~= Seq::<Seq<char>>::empty());
    while i < parts.len()
        invariant
            i <= parts@.len(),
            ps == slices(parts@),
            quotes@ == seq!['"', '\''],
            texts(r@) == inline_items(ps.take(i as int)),
        decreases parts@.len() - i,
    {
        assert(ps.take(i as int + 1).drop_last() =~= ps.take(i as int));
        assert(ps.take(i as int + 1).last() == parts@[i as int]@);
        let item = strip_both(trim(parts[i]), &quotes);
        if item.len() > 0 {
            let text = string_of(item);
            proof {
                lemma_texts_push(r@, text);
            }
            r.push(text);
        }
        i += 1;
    }
    assert(ps.take(ps.len() as int) =~= ps);
    r
}

fn dash_list(lines: &Vec<&[char]>, from: usize) -> (r: Vec<String>)
    requires
        from <= lines@.len(),
    ensures
        texts(r@) == dash_items(slices(lines@).skip(from as int)),
{
    let ghost ls = slices(lines@);
    let mut r: Vec<String> = Vec::new();
    let mut i: usize = from;
    assert(texts(r@) =~= Seq::<Seq<char>>::empty());
    assert(texts(r@) + dash_items(ls.skip(from as int)) =~= dash_items(ls.skip(from as int)));
    while i < lines.len()
        invariant
            from <= i <= lines@.len(),
            ls == slices(lines@),
            texts(r@) + dash_items(ls.skip(i as int)) == dash_items(ls.skip(from as int)),
        decreases lines@.len() - i,
    {
        let t = trim(lines[i]);
        assert(ls.skip(i as int)[0] == lines@[i as int]@);
        assert(ls.skip(i as int).skip(1) =~= ls.skip(i as int + 1));
        proof {
            reveal_strlit("- ");
        }
        match strip_prefix(t, "- ") {
            Some(item) => {
                let text = string_of(unquote(trim(item)));
                let ghost before = texts(r@);
                proof {
                    lemma_texts_push(r@, text);
                }
                r.push(text);
                assert(before.push(text@) + dash_items(ls.skip(i as int + 1)) =~= before + (seq![
                    text@,
                ] + dash_items(ls.skip(i as int + 1))));
            },
            None => {
                if t.len() > 0 && t[0] != '#' {
                    assert(texts(r@) + dash_items(ls.skip(i as int)) =~= texts(r@));
                    return r;
                }
            },
        }
        i += 1;
    }
    assert(ls.skip(ls.len() as int) =~= Seq::<Seq<char>>::empty());
    assert(texts(r@) + dash_items(ls.skip(ls.len() as int)) =~= texts(r@));
    r
}

/// The list value of a key, inline or on lines of its own.
pub fn extract_yaml_list(yaml: &str, key: &str) -> (r: Vec<String>)
    ensures
        texts(r@) == yaml_list(yaml@, key@),
{
    let all = chars_of(yaml);
    let lines = split_lines(&all);
    let prefix = key_prefix(key);
    let ghost ls = slices(lines@);
    let mut i: usize = 0;
    assert(ls.skip(0) =~= ls);
    while i < lines.len()
        invariant
            i <= lines@.len(),
            ls == slices(lines@),
            first_list(ls.skip(i as int), prefix@) == first_list(ls, prefix@),
            first_list(ls, prefix@) == yaml_list(yaml@, key@),
        decreases lines@.len() - i,
    {
        let line = trim(lines[i]);
        assert(ls.skip(i as int)[0] == lines@[i as int]@);
        assert(ls.skip(i as int).skip(1) =~= ls.skip(i as int + 1));
        match strip_prefix(line, prefix.as_str()) {
            Some(after) => {
                let rest = trim(after);
                if rest.len() == 0 {
                    return dash_list(&lines, i + 1);
                }
                if rest[0] == '[' {
                    return inline_list(rest);
                }
            },
            None => {},
        }
        i += 1;
    }
    assert(ls.skip(ls.len() as int) =~= Seq::<Seq<char>>::empty());
    let r: Vec<String> = Vec::new();
    assert(texts(r@) =~= Seq::<Seq<char>>::empty());
    r
}

// ── Skills ─────────────────────────────────────────────────────────────────

/// The mathematical value of a [`SkillDefinition`].
pub struct SkillView {
    pub name: Seq<char>,
    pub description: Seq<char>,
    pub keywords: Seq<Seq<char>>,
    pub prompt_body: Seq<char>,
    pub source_path: Seq<char>,
}

impl View for SkillDefinition {
    type V = SkillView;

    open spec fn view(&self) -> SkillView {
        SkillView {
            name: self.name@,
            description: self.description@,
            keywords: texts(self.keywords@),
            prompt_body: self.prompt_body@,
            source_path: self.source_path@,
        }
    }
}

/// The skill of a file. A skill without a name is named after its directory.
pub open spec fn skill_of(
    content: Seq<char>,
    dir_name: Option<Seq<char>>,
    source_path: Seq<char>,
) -> SkillView {
    let (front, body) = front_matter_of(content);
    SkillView {
        name: match (yaml_string(front, "name"@), dir_name) {
            (Some(n), _) => n,
            (None, Some(d)) => d,
            (None, None) => "unknown"@,
        },
        description: match yaml_string(front, "description"@) {
            Some(d) => d,
            None => Seq::empty(),
        },
        keywords: yaml_list(front, "keywords"@),
        prompt_body: trimmed(body),
        source_path,
    }
}

/// Parses the content of a skill file that lies in the directory `dir_name`.
pub fn parse_skill(content: &str, dir_name: Option<&str>, source_path: &str) -> (r: SkillDefinition)
    ensures
        r@ == skill_of(content@, crate::text::opt_str(dir_name), source_path@),
{
    let (front, body) = parse_front_matter(content);
    let name = match extract_yaml_string(front.as_str(), "name") {
        Some(n) => n,
        None => match dir_name {
            Some(d) => copy_str(d),
            None => copy_str("unknown"),
        },
    };
    let description = match extract_yaml_string(front.as_str(), "description") {
        Some(d) => d,
        None => String::new(),
    };
    let keywords = extract_yaml_list(front.as_str(), "keywords");
    let prompt_body = crate::text::trim_str(body.as_str());
    SkillDefinition { name, description, keywords, prompt_body, source_path: copy_str(source_path) }
}

/// `x` put into a row after everything that it does not come before.
pub open spec fn inserted(v: Seq<SkillDefinition>, x: SkillDefinition) -> Seq<SkillDefinition>
    decreases v.len(),
{
    if v.len() > 0 && text_before(x.name@, v.last().name@) {
        inserted(v.drop_last(), x).push(v.last())
    } else {
        v.push(x)
    }
}

/// A row in the order of names; skills of one name keep their order.
pub open spec fn by_name(v: Seq<SkillDefinition>) -> Seq<SkillDefinition>
    decreases v.len(),
{
    if v.len() == 0 {
        Seq::empty()
    } else {
        inserted(by_name(v.drop_last()), v.last())
    }
}

/// Whether a row is in the order of names.
pub open spec fn ordered(v: Seq<SkillDefinition>) -> bool {
    forall|i: int, j: int|
        0 <= i < j < v.len() ==> !text_before(
            (#[trigger] v[j]).name@,
            (#[trigger] v[i]).name@,
        )
}

proof fn lemma_inserted(v: Seq<SkillDefinition>, x: SkillDefinition)
    requires
        ordered(v),
    ensures
        ordered(inserted(v, x)),
        inserted(v, x).to_multiset() == v.to_multiset().insert(x),
        inserted(v, x).len() == v.len() + 1,
    decreases v.len(),
{
    broadcast use vstd::seq_lib::group_to_multiset_ensures;

    let r = inserted(v, x);
    if v.len() > 0 && text_before(x.name@, v.last().name@) {
        let rest = v.drop_last();
        lemma_inserted(rest, x);
        let p = inserted(rest, x);
        assert(v =~= rest.push(v.last()));
        assert(r.to_multiset() =~= v.to_multiset().insert(x));
        assert forall|i: int, j: int| 0 <= i < j < r.len() implies !text_before(
            (#[trigger] r[j]).name@,
            (#[trigger] r[i]).name@,
        ) by {
            if j < p.len() {
                assert(p[i] == r[i] && p[j] == r[j]);
            } else {
                assert(p.to_multiset().count(p[i]) > 0) by {
                    assert(p.contains(p[i]));
                }
                if p[i] != x {
                    assert(rest.to_multiset().count(p[i]) > 0);
                    assert(rest.contains(p[i]));
                    let k = choose|k: int| 0 <= k < rest.len() && rest[k] == p[i];
                    assert(v[k] == p[i]);
                    assert(!text_before(v[v.len() - 1].name@, v[k].name@));
                } else {
                    lemma_before_total(x.name@, v.last().name@);
                }
            }
        }
    } else {
        assert forall|i: int, j: int| 0 <= i < j < r.len() implies !text_before(
            (#[trigger] r[j]).name@,
            (#[trigger] r[i]).name@,
        ) by {
            if j == v.len() {
                if i < v.len() - 1 {
                    assert(!text_before(v[v.len() - 1].name@, v[i].name@));
                    lemma_not_before_transitive(v[i].name@, v.last().name@, x.name@);
                }
            } else {
                assert(v[i] == r[i] && v[j] == r[j]);
            }
        }
    }
}

/// Sorting by name keeps every skill, as often as it was there, and leaves them
/// in the order of names.
pub proof fn law_by_name(v: Seq<SkillDefinition>)
    ensures
        ordered(by_name(v)),
        by_name(v).to_multiset() == v.to_multiset(),
    decreases v.len(),
{
    broadcast use vstd::seq_lib::group_to_multiset_ensures;

    if v.len() > 0 {
        law_by_name(v.drop_last());
        lemma_inserted(by_name(v.drop_last()), v.last());
        assert(v =~= v.drop_last().push(v.last()));
    } else {
        assert(v =~= Seq::<SkillDefinition>::empty());
    }
}

proof fn lemma_inserted_at(v: Seq<SkillDefinition>, x: SkillDefinition, n: int)
    requires
        0 <= n <= v.len(),
        forall|j: int| n <= j < v.len() ==> text_before(x.name@, (#[trigger] v[j]).name@),
        n > 0 ==> !text_before(x.name@, v[n - 1].name@),
    ensures
        inserted(v, x) == v.insert(n, x),
    decreases v.len(),
{
    if n < v.len() {
        assert(text_before(x.name@, v[v.len() - 1].name@));
        assert forall|j: int| n <= j < v.drop_last().len() implies text_before(
            x.name@,
            (#[trigger] v.drop_last()[j]).name@,
        ) by {
            assert(text_before(x.name@, v[j].name@));
        }
        lemma_inserted_at(v.drop_last(), x, n);
    }
    assert(inserted(v, x) =~= v.insert(n, x));
}

/// Sorts skills by name. Skills of one name keep their order.
pub fn sort_skills(skills: Vec<SkillDefinition>) -> (r: Vec<SkillDefinition>)
    ensures
        r@ == by_name(skills@),
{
    let ghost all = skills@;
    let mut rest = skills;
    let mut r: Vec<SkillDefinition> = Vec::new();
    assert(all.take(0) =~= Seq::<SkillDefinition>::empty());
    while rest.len() > 0
        invariant
            rest@.len() <= all.len(),
            rest@ == all.skip(all.len() - rest@.len()),
            r@ == by_name(all.take(all.len() - rest@.len())),
        decreases rest@.len(),
    {
        let ghost k = all.len() - rest@.len();
        let x = rest.remove(0);
        assert(all.take(k + 1).drop_last() =~= all.take(k));
        assert(all.take(k + 1).last() == x);
        assert(rest@ =~= all.skip(k + 1));
        let mut n: usize = r.len();
        while n > 0 && comes_before(x.name.as_str(), r[n - 1].name.as_str())
            invariant
                n <= r@.len(),
                forall|j: int| n <= j < r@.len() ==> text_before(x.name@, (#[trigger] r@[j]).name@),
            decreases n,
        {
            n -= 1;
        }
        proof {
            lemma_inserted_at(r@, x, n as int);
        }
        r.insert(n, x);
    }
    assert(all.take(all.len() as int) =~= all);
    r
}

} // verus!
