//! What the script of an answer promises of every answer.

use vstd::prelude::*;

use crate::pattern::rewritten;
use crate::session_context::tts::{
    amounts_spoken, degrees_spoken, is_fence, is_rule, script_of, spoken_line, spoken_lines,
    symbols_spoken, with_signs_spelled, without_lead, without_markup, without_marks,
    without_pictographs, without_thoughts,
};
use crate::split::{joined, lines_of, replaced, without_cr};
use crate::text::{begins_with, trimmed, trimmed_start};
use crate::text_laws::{
    all_spaces, is_trim, law_a_replaced_character_is_gone, law_joining, law_lines,
    law_nothing_to_replace, law_replacing_piece_by_piece, law_trimming,
};

verus! {

// ── Lines ──────────────────────────────────────────────────────────────────

/// The lines of an answer are spoken one after another, in their order.
pub proof fn law_lines_are_spoken_in_order(a: Seq<Seq<char>>, b: Seq<Seq<char>>)
    ensures
        spoken_lines(a + b) == spoken_lines(a) + spoken_lines(b),
    decreases b.len(),
{
    if b.len() == 0 {
        assert(a + b =~= a);
        assert(spoken_lines(a) + spoken_lines(b) =~= spoken_lines(a));
    } else {
        assert((a + b).drop_last() =~= a + b.drop_last());
        assert((a + b).last() == b.last());
        law_lines_are_spoken_in_order(a, b.drop_last());
        assert(spoken_lines(a + b) =~= spoken_lines(a) + spoken_lines(b));
    }
}

/// A line alone is spoken as it is cleaned, and ends with a line feed; a line that is
/// left out leaves nothing.
pub proof fn law_a_line_is_spoken(line: Seq<char>)
    ensures
        spoken_line(line) is Some ==> spoken_lines(seq![line]) == spoken_line(line)->0 + "\n"@,
        spoken_line(line) is None ==> spoken_lines(seq![line]).len() == 0,
{
    reveal_with_fuel(spoken_lines, 2);
    assert(seq![line].drop_last() =~= Seq::<Seq<char>>::empty());
    assert(seq![line].last() == line);
    let e = Seq::<char>::empty();
    if spoken_line(line) is Some {
        assert(e + spoken_line(line)->0 + "\n"@ =~= spoken_line(line)->0 + "\n"@);
    }
}

/// The lines that fence code are left out, and so are rules across the page; every
/// other line is spoken.
pub proof fn law_fences_and_rules_are_left_out(line: Seq<char>)
    ensures
        begins_with(trimmed_start(line), "```"@) || begins_with(trimmed_start(line), "~~~"@)
            ==> spoken_line(line) is None,
        !(begins_with(trimmed_start(line), "```"@) || begins_with(trimmed_start(line), "~~~"@))
            ==> (spoken_line(line) is None) == is_rule(without_lead(line)),
{
}

proof fn lemma_absent_stays(s: Seq<char>, c: char, to: Seq<char>, d: char)
    requires
        !s.contains(d),
        !to.contains(d),
    ensures
        !replaced(s, seq![c], to).contains(d),
    decreases s.len(),
{
    let from = seq![c];
    crate::text::lemma_find_from(s, from, 0);
    match crate::text::find_from(s, from, 0) {
        Some(i) => {
            let rest = s.skip(i + 1);
            assert(!rest.contains(d)) by {
                if rest.contains(d) {
                    let k = choose|k: int| 0 <= k < rest.len() && rest[k] == d;
                    assert(s[k + i + 1] == d);
                    assert(s.contains(d));
                }
            }
            lemma_absent_stays(rest, c, to, d);
            let tail = replaced(rest, from, to);
            let r = s.take(i) + to + tail;
            if r.contains(d) {
                let k = choose|k: int| 0 <= k < r.len() && r[k] == d;
                if k < i {
                    assert(s[k] == d);
                    assert(s.contains(d));
                } else if k < i + to.len() {
                    assert(to[k - i] == d);
                    assert(to.contains(d));
                } else {
                    assert(tail[k - i - to.len()] == d);
                    assert(tail.contains(d));
                }
            }
        },
        None => {},
    }
}

/// The signs of emphasis are not spoken.
pub proof fn law_no_marks_are_spoken(line: Seq<char>)
    requires
        spoken_line(line) is Some,
    ensures
        !spoken_line(line)->0.contains('*'),
        !spoken_line(line)->0.contains('_'),
        !without_marks(line).contains('*'),
        !without_marks(line).contains('_'),
{
    lemma_no_marks(line);
    let t = without_lead(line);
    let a = replaced(t, "|"@, " "@);
    let l = rewritten("\\[([^\\]]*)\\]\\([^)]*\\)"@, a, "$1"@);
    let i = rewritten("!\\[[^\\]]*\\]\\([^)]*\\)"@, l, ""@);
    let c = replaced(i, "`"@, ""@);
    let b = rewritten("\\*\\*|__"@, c, ""@);
    assert(spoken_line(line)->0 == without_marks(b));
    lemma_no_marks(b);
}

proof fn lemma_no_marks(s: Seq<char>)
    ensures
        !without_marks(s).contains('*'),
        !without_marks(s).contains('_'),
{
    reveal_strlit("*");
    reveal_strlit("_");
    reveal_strlit("");
    assert("*"@ =~= seq!['*']);
    assert("_"@ =~= seq!['_']);
    let none = ""@;
    assert(!none.contains('*') && !none.contains('_'));
    law_a_replaced_character_is_gone(s, '*', none);
    let t = replaced(s, seq!['*'], none);
    lemma_absent_stays(t, '_', none, '*');
    law_a_replaced_character_is_gone(t, '_', none);
}

// ── Signs ──────────────────────────────────────────────────────────────────

/// The word for a sign.
pub open spec fn word_for(sign: char) -> Seq<char> {
    if sign == '¥' {
        "元"@
    } else if sign == '€' {
        "欧元"@
    } else if sign == '£' {
        "英镑"@
    } else if sign == '→' || sign == '⇒' {
        " 到 "@
    } else if sign == '≈' || sign == '~' {
        " 约 "@
    } else if sign == '&' {
        " 和 "@
    } else {
        " "@
    }
}

/// Whether a character is a sign that is spelled out.
pub open spec fn is_sign(c: char) -> bool {
    c == '¥' || c == '€' || c == '£' || c == '→' || c == '⇒' || c == '≈' || c == '~' || c == '&'
        || c == '•'
}

/// Whether a text holds no sign that is spelled out.
pub open spec fn no_signs(s: Seq<char>) -> bool {
    forall|i: int| 0 <= i < s.len() ==> !is_sign(#[trigger] s[i])
}

/// Whether the amounts of money in a text are spoken already.
pub open spec fn no_amounts(s: Seq<char>) -> bool {
    &&& forall|r: Seq<char>| #[trigger] rewritten("¥\\s*(\\d+(?:[,.]\\d+)*)"@, s, r) == s
    &&& forall|r: Seq<char>| #[trigger] rewritten("€\\s*(\\d+(?:[,.]\\d+)*)"@, s, r) == s
    &&& forall|r: Seq<char>| #[trigger] rewritten("£\\s*(\\d+(?:[,.]\\d+)*)"@, s, r) == s
}

proof fn lemma_step(a: Seq<char>, m: Seq<char>, b: Seq<char>, d: char, to: Seq<char>)
    requires
        no_signs(a),
        no_signs(b),
        is_sign(d),
    ensures
        replaced(a + m + b, seq![d], to) == a + replaced(m, seq![d], to) + b,
{
    assert(!a.contains(d) && !b.contains(d));
    law_replacing_piece_by_piece(a + m, b, d, to);
    law_replacing_piece_by_piece(a, m, d, to);
    law_nothing_to_replace(a, d, to);
    law_nothing_to_replace(b, d, to);
}

proof fn lemma_spelled(c: char, d: char, to: Seq<char>)
    ensures
        c == d ==> replaced(seq![c], seq![d], to) == to,
        c != d ==> replaced(seq![c], seq![d], to) == seq![c],
{
    let s = seq![c];
    if c == d {
        assert(s.subrange(0, 1) =~= seq![d]);
        assert(crate::text::matches_at(s, seq![d], 0));
        assert(s.skip(1) =~= Seq::<char>::empty());
        assert(s.take(0) =~= Seq::<char>::empty());
        law_nothing_to_replace(Seq::<char>::empty(), d, to);
        assert(s.take(0) + to + Seq::<char>::empty() =~= to);
    } else {
        assert(!s.contains(d));
        law_nothing_to_replace(s, d, to);
    }
}

proof fn lemma_words()
    ensures
        "¥"@ == seq!['¥'],
        "€"@ == seq!['€'],
        "£"@ == seq!['£'],
        "→"@ == seq!['→'],
        "⇒"@ == seq!['⇒'],
        "≈"@ == seq!['≈'],
        "~"@ == seq!['~'],
        "&"@ == seq!['&'],
        "•"@ == seq!['•'],
        no_signs("元"@),
        no_signs("欧元"@),
        no_signs("英镑"@),
        no_signs(" 到 "@),
        no_signs(" 约 "@),
        no_signs(" 和 "@),
        no_signs(" "@),
{
    reveal_strlit("¥");
    reveal_strlit("€");
    reveal_strlit("£");
    reveal_strlit("→");
    reveal_strlit("⇒");
    reveal_strlit("≈");
    reveal_strlit("~");
    reveal_strlit("&");
    reveal_strlit("•");
    reveal_strlit("元");
    reveal_strlit("欧元");
    reveal_strlit("英镑");
    reveal_strlit(" 到 ");
    reveal_strlit(" 约 ");
    reveal_strlit(" 和 ");
    reveal_strlit(" ");
    assert("¥"@ =~= seq!['¥']);
    assert("€"@ =~= seq!['€']);
    assert("£"@ =~= seq!['£']);
    assert("→"@ =~= seq!['→']);
    assert("⇒"@ =~= seq!['⇒']);
    assert("≈"@ =~= seq!['≈']);
    assert("~"@ =~= seq!['~']);
    assert("&"@ =~= seq!['&']);
    assert("•"@ =~= seq!['•']);
}

/// What becomes of a short text when a sign in it is spelled out.
proof fn lemma_one_sign(m: Seq<char>, d: char, to: Seq<char>)
    ensures
        no_signs(m) && is_sign(d) ==> replaced(m, seq![d], to) == m,
        m.len() == 1 && m[0] == d ==> replaced(m, seq![d], to) == to,
        m.len() == 1 && m[0] != d ==> replaced(m, seq![d], to) == m,
{
    if no_signs(m) && is_sign(d) {
        assert(!m.contains(d));
        law_nothing_to_replace(m, d, to);
    }
    if m.len() == 1 {
        assert(m =~= seq![m[0]]);
        lemma_spelled(m[0], d, to);
    }
}

/// A sign is spelled out where it stands, and what stands around it stays.
pub proof fn law_signs_are_spelled_out(a: Seq<char>, sign: char, b: Seq<char>)
    requires
        no_signs(a),
        no_signs(b),
        is_sign(sign),
        no_amounts(a + seq![sign] + b),
    ensures
        with_signs_spelled(a + seq![sign] + b) == a + word_for(sign) + b,
{
    lemma_words();
    let m0 = seq![sign];
    let s = a + m0 + b;
    let m1 = replaced(m0, seq!['¥'], "元"@);
    let m2 = replaced(m1, seq!['€'], "欧元"@);
    let m3 = replaced(m2, seq!['£'], "英镑"@);
    let m4 = replaced(m3, seq!['→'], " 到 "@);
    let m5 = replaced(m4, seq!['⇒'], " 到 "@);
    let m6 = replaced(m5, seq!['≈'], " 约 "@);
    let m7 = replaced(m6, seq!['~'], " 约 "@);
    let m8 = replaced(m7, seq!['&'], " 和 "@);
    let m9 = replaced(m8, seq!['•'], " "@);
    lemma_step(a, m0, b, '¥', "元"@);
    lemma_step(a, m1, b, '€', "欧元"@);
    lemma_step(a, m2, b, '£', "英镑"@);
    lemma_step(a, m3, b, '→', " 到 "@);
    lemma_step(a, m4, b, '⇒', " 到 "@);
    lemma_step(a, m5, b, '≈', " 约 "@);
    lemma_step(a, m6, b, '~', " 约 "@);
    lemma_step(a, m7, b, '&', " 和 "@);
    lemma_step(a, m8, b, '•', " "@);
    assert(with_signs_spelled(s) == a + m9 + b);
    lemma_one_sign(m0, '¥', "元"@);
    lemma_one_sign(m1, '€', "欧元"@);
    lemma_one_sign(m2, '£', "英镑"@);
    lemma_one_sign(m3, '→', " 到 "@);
    lemma_one_sign(m4, '⇒', " 到 "@);
    lemma_one_sign(m5, '≈', " 约 "@);
    lemma_one_sign(m6, '~', " 约 "@);
    lemma_one_sign(m7, '&', " 和 "@);
    lemma_one_sign(m8, '•', " "@);
    assert(m9 == word_for(sign));
}

/// No sign is left when signs were spelled out, and no degree sign when degrees were.
pub proof fn law_no_sign_is_left(s: Seq<char>)
    ensures
        no_signs(with_signs_spelled(s)),
        !degrees_spoken(s).contains('°'),
{
    lemma_words();
    let y = rewritten("¥\\s*(\\d+(?:[,.]\\d+)*)"@, s, "${1}元"@);
    let e = rewritten("€\\s*(\\d+(?:[,.]\\d+)*)"@, y, "${1}欧元"@);
    let p = rewritten("£\\s*(\\d+(?:[,.]\\d+)*)"@, e, "${1}英镑"@);
    let t1 = replaced(p, seq!['¥'], "元"@);
    let t2 = replaced(t1, seq!['€'], "欧元"@);
    let t3 = replaced(t2, seq!['£'], "英镑"@);
    let t4 = replaced(t3, seq!['→'], " 到 "@);
    let t5 = replaced(t4, seq!['⇒'], " 到 "@);
    let t6 = replaced(t5, seq!['≈'], " 约 "@);
    let t7 = replaced(t6, seq!['~'], " 约 "@);
    let t8 = replaced(t7, seq!['&'], " 和 "@);
    let t9 = replaced(t8, seq!['•'], " "@);
    assert(with_signs_spelled(s) == t9);
    lemma_gone(p, '¥', "元"@);
    lemma_gone(t1, '€', "欧元"@);
    lemma_gone(t2, '£', "英镑"@);
    lemma_gone(t3, '→', " 到 "@);
    lemma_gone(t4, '⇒', " 到 "@);
    lemma_gone(t5, '≈', " 约 "@);
    lemma_gone(t6, '~', " 约 "@);
    lemma_gone(t7, '&', " 和 "@);
    lemma_gone(t8, '•', " "@);
    assert forall|i: int| 0 <= i < t9.len() implies !is_sign(#[trigger] t9[i]) by {
        assert(t9.contains(t9[i]));
    }
    reveal_strlit("°");
    reveal_strlit("度");
    assert("°"@ =~= seq!['°']);
    let c = rewritten("(?i)([-+]?\\d+(?:\\.\\d+)?)\\s*°\\s*C\\b"@, s, "${1}摄氏度"@);
    let f = rewritten("(?i)([-+]?\\d+(?:\\.\\d+)?)\\s*°\\s*F\\b"@, c, "${1}华氏度"@);
    let d = rewritten("([-+]?\\d+(?:\\.\\d+)?)\\s*°"@, f, "${1}度"@);
    assert(!"度"@.contains('°'));
    law_a_replaced_character_is_gone(d, '°', "度"@);
}

/// A sign that is spelled out is gone, and no sign that was gone comes back.
proof fn lemma_gone(s: Seq<char>, d: char, to: Seq<char>)
    requires
        no_signs(to),
        is_sign(d),
    ensures
        !replaced(s, seq![d], to).contains(d),
        forall|x: char|
            is_sign(x) && !s.contains(x) ==> !(#[trigger] replaced(s, seq![d], to).contains(x)),
{
    assert(!to.contains(d));
    law_a_replaced_character_is_gone(s, d, to);
    assert forall|x: char| is_sign(x) && !s.contains(x) implies !(#[trigger] replaced(
        s,
        seq![d],
        to,
    ).contains(x)) by {
        assert(!to.contains(x));
        lemma_absent_stays(s, d, to, x);
    }
}

// ── Plain answers ──────────────────────────────────────────────────────────

/// Whether a pattern matches nowhere in a text.
pub open spec fn leaves(pattern: Seq<char>, s: Seq<char>) -> bool {
    forall|r: Seq<char>| #[trigger] rewritten(pattern, s, r) == s
}

/// Whether a line has no markup.
pub open spec fn is_plain_line(s: Seq<char>) -> bool {
    &&& !s.contains('\n')
    &&& !s.contains('\r')
    &&& !s.contains('|')
    &&& !s.contains('`')
    &&& !s.contains('*')
    &&& !s.contains('_')
    &&& !is_fence(s)
    &&& !is_rule(s)
    &&& leaves("^#{1,6}\\s*"@, s)
    &&& leaves("^\\s*>\\s?"@, s)
    &&& leaves("^\\s*[-*+•]\\s+"@, s)
    &&& leaves("^\\s*\\d+\\.\\s+"@, s)
    &&& leaves("\\[([^\\]]*)\\]\\([^)]*\\)"@, s)
    &&& leaves("!\\[[^\\]]*\\]\\([^)]*\\)"@, s)
    &&& leaves("\\*\\*|__"@, s)
}

/// Whether a text holds no symbols and no thoughts.
pub open spec fn is_plain_text(s: Seq<char>) -> bool {
    &&& no_signs(s)
    &&& no_amounts(s)
    &&& !s.contains('°')
    &&& !s.contains('%')
    &&& leaves("(?s)<think[\\s>].*?</think>"@, s)
    &&& leaves("(?s)<think[\\s>].*\\z"@, s)
    &&& leaves("\\n{3,}"@, s.push('\n'))
    &&& leaves("(?i)([-+]?\\d+(?:\\.\\d+)?)\\s*°\\s*C\\b"@, s)
    &&& leaves("(?i)([-+]?\\d+(?:\\.\\d+)?)\\s*°\\s*F\\b"@, s)
    &&& leaves("([-+]?\\d+(?:\\.\\d+)?)\\s*°"@, s)
    &&& leaves("(\\d+(?:\\.\\d+)?)\\s*%"@, s)
    &&& leaves("\\$\\s*(\\d+(?:[,.]\\d+)*)"@, s)
    &&& leaves(
        "[\u{1F600}-\u{1F64F}\u{1F300}-\u{1F5FF}\u{1F680}-\u{1F6FF}\u{1F700}-\u{1F77F}\u{1F780}-\u{1F7FF}\u{1F800}-\u{1F8FF}\u{1F900}-\u{1F9FF}\u{1FA00}-\u{1FAFF}\u{2600}-\u{26FF}\u{2700}-\u{27BF}\u{1F1E6}-\u{1F1FF}]+"@,
        s,
    )
    &&& leaves("[\u{FE0F}\u{FE0E}]"@, s)
    &&& leaves("[ \\t]{2,}"@, s)
    &&& leaves("\\s+([，。！？；：、,.!?;:])"@, s)
}

/// A line without markup is spoken as it is.
pub proof fn law_plain_lines_are_spoken_as_they_are(line: Seq<char>)
    requires
        is_plain_line(line),
    ensures
        spoken_line(line) == Some(line),
{
    reveal_strlit("|");
    reveal_strlit("`");
    reveal_strlit("*");
    reveal_strlit("_");
    assert("|"@ =~= seq!['|']);
    assert("`"@ =~= seq!['`']);
    assert("*"@ =~= seq!['*']);
    assert("_"@ =~= seq!['_']);
    assert(without_lead(line) == line);
    law_nothing_to_replace(line, '|', " "@);
    law_nothing_to_replace(line, '`', ""@);
    law_nothing_to_replace(line, '*', ""@);
    law_nothing_to_replace(line, '_', ""@);
    assert(without_markup(line) == line);
}

proof fn lemma_lines_of_joined(lines: Seq<Seq<char>>)
    requires
        lines.len() > 0,
        forall|i: int| 0 <= i < lines.len() ==> is_plain_line(#[trigger] lines[i]),
        lines.last().len() > 0,
    ensures
        lines_of(joined(lines, seq!['\n'])) == lines,
    decreases lines.len(),
{
    if lines.len() == 1 {
        assert(lines =~= seq![lines[0]]);
        law_lines(lines[0], Seq::empty());
    } else {
        let first = lines[0];
        let rest = lines.skip(1);
        assert(is_plain_line(first));
        assert forall|i: int| 0 <= i < rest.len() implies is_plain_line(#[trigger] rest[i]) by {
            assert(rest[i] == lines[i + 1]);
        }
        assert(rest.last() == lines.last());
        lemma_lines_of_joined(rest);
        assert(lines =~= seq![first] + rest);
        law_joining(seq![first], rest, seq!['\n']);
        let tail = joined(rest, seq!['\n']);
        assert(joined(seq![first], seq!['\n']) == first);
        assert(joined(lines, seq!['\n']) =~= first.push('\n') + tail);
        law_lines(first, tail);
        if first.len() > 0 {
            assert(first.contains(first[first.len() - 1]));
        }
        assert(without_cr(first) == first);
    }
}

proof fn lemma_plain_spoken(lines: Seq<Seq<char>>)
    requires
        lines.len() > 0,
        forall|i: int| 0 <= i < lines.len() ==> is_plain_line(#[trigger] lines[i]),
    ensures
        spoken_lines(lines) == joined(lines, seq!['\n']).push('\n'),
    decreases lines.len(),
{
    reveal_strlit("\n");
    assert("\n"@ =~= seq!['\n']);
    let last = lines.last();
    assert(is_plain_line(lines[lines.len() - 1]));
    law_plain_lines_are_spoken_as_they_are(last);
    if lines.len() == 1 {
        assert(lines.drop_last() =~= Seq::<Seq<char>>::empty());
        assert(spoken_lines(lines.drop_last()) =~= Seq::<char>::empty());
        assert(spoken_lines(lines) =~= last.push('\n'));
    } else {
        let before = lines.drop_last();
        assert forall|i: int| 0 <= i < before.len() implies is_plain_line(#[trigger] before[i]) by {
            assert(before[i] == lines[i]);
        }
        lemma_plain_spoken(before);
        assert(spoken_lines(lines) =~= joined(lines, seq!['\n']).push('\n'));
    }
}

/// An answer of plain lines, without markup, symbols, thoughts or blanks around it, is
/// its own script.
pub proof fn law_plain_answers_are_spoken_as_they_are(lines: Seq<Seq<char>>)
    requires
        lines.len() > 0,
        forall|i: int| 0 <= i < lines.len() ==> is_plain_line(#[trigger] lines[i]),
        lines.last().len() > 0,
        is_trim(joined(lines, seq!['\n'])),
        is_plain_text(joined(lines, seq!['\n'])),
    ensures
        script_of(joined(lines, seq!['\n'])) == joined(lines, seq!['\n']),
{
    let s = joined(lines, seq!['\n']);
    assert(without_thoughts(s) == s);
    lemma_lines_of_joined(lines);
    lemma_plain_spoken(lines);
    let e = Seq::<char>::empty();
    let feed = seq!['\n'];
    assert(all_spaces(feed));
    assert(all_spaces(e));
    law_trimming(e, s, feed);
    assert(e + s + feed =~= s.push('\n'));
    assert(trimmed(s.push('\n')) == s);
    law_plain_texts_have_no_symbols(s);
}

/// A text without symbols, and without blanks around it, has nothing to be spelled out.
pub proof fn law_plain_texts_have_no_symbols(s: Seq<char>)
    requires
        is_plain_text(s),
        is_trim(s),
    ensures
        symbols_spoken(s) == s,
{
    lemma_words();
    reveal_strlit("°");
    reveal_strlit("%");
    assert("°"@ =~= seq!['°']);
    assert("%"@ =~= seq!['%']);
    law_nothing_to_replace(s, '°', "度"@);
    assert(degrees_spoken(s) == s);
    law_nothing_to_replace(s, '%', "百分之"@);
    assert(amounts_spoken(s) == s);
    assert forall|d: char| is_sign(d) implies !s.contains(d) by {}
    law_nothing_to_replace(s, '¥', "元"@);
    law_nothing_to_replace(s, '€', "欧元"@);
    law_nothing_to_replace(s, '£', "英镑"@);
    law_nothing_to_replace(s, '→', " 到 "@);
    law_nothing_to_replace(s, '⇒', " 到 "@);
    law_nothing_to_replace(s, '≈', " 约 "@);
    law_nothing_to_replace(s, '~', " 约 "@);
    law_nothing_to_replace(s, '&', " 和 "@);
    law_nothing_to_replace(s, '•', " "@);
    assert(with_signs_spelled(s) == s);
    assert(without_pictographs(s) == s);
    let e = Seq::<char>::empty();
    law_trimming(e, s, e);
}

} // verus!
