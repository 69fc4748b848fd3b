//! Text made ready to be spoken.

use vstd::prelude::*;

use crate::pattern::{occurs, occurs_in, rewrite, rewritten};
use crate::split::{lines_of, replace_text, replaced, slices, split_lines};
use crate::text::{
    begins_with, chars_of, starts_with, string_of, trim_start, trim_str, trimmed, trimmed_start,
};

verus! {

/// `text` with every `from` replaced.
fn swap(text: &str, from: &str, to: &str) -> (r: String)
    requires
        from@.len() > 0,
    ensures
        r@ == replaced(text@, from@, to@),
{
    let v = chars_of(text);
    replace_text(&v, from, to)
}

/// Currency signs, arrows and other signs as words. The word of a currency stands
/// behind the number that follows its sign; a sign without one becomes the word.
pub open spec fn with_signs_spelled(s: Seq<char>) -> Seq<char> {
    let y = rewritten("¥\\s*(\\d+(?:[,.]\\d+)*)"@, s, "${1}元"@);
    let e = rewritten("€\\s*(\\d+(?:[,.]\\d+)*)"@, y, "${1}欧元"@);
    let p = rewritten("£\\s*(\\d+(?:[,.]\\d+)*)"@, e, "${1}英镑"@);
    let t1 = replaced(p, "¥"@, "元"@);
    let t2 = replaced(t1, "€"@, "欧元"@);
    let t3 = replaced(t2, "£"@, "英镑"@);
    let t4 = replaced(t3, "→"@, " 到 "@);
    let t5 = replaced(t4, "⇒"@, " 到 "@);
    let t6 = replaced(t5, "≈"@, " 约 "@);
    let t7 = replaced(t6, "~"@, " 约 "@);
    let t8 = replaced(t7, "&"@, " 和 "@);
    let t9 = replaced(t8, "•"@, " "@);
    t9
}

/// Currency signs, arrows and other signs as words, the word of a currency behind
/// its number.
pub fn spell_signs(s: &str) -> (r: String)
    ensures
        r@ == with_signs_spelled(s@),
{
    proof {
        reveal_strlit("¥");
        reveal_strlit("€");
        reveal_strlit("£");
        reveal_strlit("→");
        reveal_strlit("⇒");
        reveal_strlit("≈");
        reveal_strlit("~");
        reveal_strlit("&");
        reveal_strlit("•");
    }
    let y = rewrite("¥\\s*(\\d+(?:[,.]\\d+)*)", s, "${1}元");
    let e = rewrite("€\\s*(\\d+(?:[,.]\\d+)*)", &y, "${1}欧元");
    let p = rewrite("£\\s*(\\d+(?:[,.]\\d+)*)", &e, "${1}英镑");
    let t1 = swap(&p, "¥", "元");
    let t2 = swap(&t1, "€", "欧元");
    let t3 = swap(&t2, "£", "英镑");
    let t4 = swap(&t3, "→", " 到 ");
    let t5 = swap(&t4, "⇒", " 到 ");
    let t6 = swap(&t5, "≈", " 约 ");
    let t7 = swap(&t6, "~", " 约 ");
    let t8 = swap(&t7, "&", " 和 ");
    let t9 = swap(&t8, "•", " ");
    t9
}

/// `s` without asterisks and underscores.
pub open spec fn without_marks(s: Seq<char>) -> Seq<char> {
    let t1 = replaced(s, "*"@, ""@);
    let t2 = replaced(t1, "_"@, ""@);
    t2
}

/// `s` without asterisks and underscores.
pub fn strip_marks(s: &str) -> (r: String)
    ensures
        r@ == without_marks(s@),
{
    proof {
        reveal_strlit("*");
        reveal_strlit("_");
    }
    let t1 = swap(s, "*", "");
    let t2 = swap(&t1, "_", "");
    t2
}

/// Numbers with a degree sign as words.
pub open spec fn degrees_spoken(s: Seq<char>) -> Seq<char> {
    let c = rewritten("(?i)([-+]?\\d+(?:\\.\\d+)?)\\s*°\\s*C\\b"@, s, "${1}摄氏度"@);
    let f = rewritten("(?i)([-+]?\\d+(?:\\.\\d+)?)\\s*°\\s*F\\b"@, c, "${1}华氏度"@);
    let d = rewritten("([-+]?\\d+(?:\\.\\d+)?)\\s*°"@, f, "${1}度"@);
    replaced(d, "°"@, "度"@)
}

/// Numbers with a percent or dollar sign as words.
pub open spec fn amounts_spoken(s: Seq<char>) -> Seq<char> {
    let p = rewritten("(\\d+(?:\\.\\d+)?)\\s*%"@, s, "百分之${1}"@);
    let q = replaced(p, "%"@, "百分之"@);
    rewritten("\\$\\s*(\\d+(?:[,.]\\d+)*)"@, q, "${1}美元"@)
}

/// `s` without pictographs, and with the blanks that they leave drawn together.
pub open spec fn without_pictographs(s: Seq<char>) -> Seq<char> {
    let e = rewritten(
        "[\u{1F600}-\u{1F64F}\u{1F300}-\u{1F5FF}\u{1F680}-\u{1F6FF}\u{1F700}-\u{1F77F}\u{1F780}-\u{1F7FF}\u{1F800}-\u{1F8FF}\u{1F900}-\u{1F9FF}\u{1FA00}-\u{1FAFF}\u{2600}-\u{26FF}\u{2700}-\u{27BF}\u{1F1E6}-\u{1F1FF}]+"@,
        s,
        " "@,
    );
    let v = rewritten("[\u{FE0F}\u{FE0E}]"@, e, ""@);
    let m = rewritten("[ \\t]{2,}"@, v, " "@);
    rewritten("\\s+([，。！？；：、,.!?;:])"@, m, "${1}"@)
}

/// Symbols and shorthand as words that a speech engine reads well.
pub open spec fn symbols_spoken(s: Seq<char>) -> Seq<char> {
    trimmed(without_pictographs(with_signs_spelled(amounts_spoken(degrees_spoken(s)))))
}

fn speak_degrees(s: &str) -> (r: String)
    ensures
        r@ == degrees_spoken(s@),
{
    proof {
        reveal_strlit("°");
    }
    let c = rewrite("(?i)([-+]?\\d+(?:\\.\\d+)?)\\s*°\\s*C\\b", s, "${1}摄氏度");
    let f = rewrite("(?i)([-+]?\\d+(?:\\.\\d+)?)\\s*°\\s*F\\b", &c, "${1}华氏度");
    let d = rewrite("([-+]?\\d+(?:\\.\\d+)?)\\s*°", &f, "${1}度");
    swap(&d, "°", "度")
}

fn speak_amounts(s: &str) -> (r: String)
    ensures
        r@ == amounts_spoken(s@),
{
    proof {
        reveal_strlit("%");
    }
    let p = rewrite("(\\d+(?:\\.\\d+)?)\\s*%", s, "百分之${1}");
    let q = swap(&p, "%", "百分之");
    rewrite("\\$\\s*(\\d+(?:[,.]\\d+)*)", &q, "${1}美元")
}

fn drop_pictographs(s: &str) -> (r: String)
    ensures
        r@ == without_pictographs(s@),
{
    let e = rewrite(
        "[\u{1F600}-\u{1F64F}\u{1F300}-\u{1F5FF}\u{1F680}-\u{1F6FF}\u{1F700}-\u{1F77F}\u{1F780}-\u{1F7FF}\u{1F800}-\u{1F8FF}\u{1F900}-\u{1F9FF}\u{1FA00}-\u{1FAFF}\u{2600}-\u{26FF}\u{2700}-\u{27BF}\u{1F1E6}-\u{1F1FF}]+",
        s,
        " ",
    );
    let v = rewrite("[\u{FE0F}\u{FE0E}]", &e, "");
    let m = rewrite("[ \\t]{2,}", &v, " ");
    rewrite("\\s+([，。！？；：、,.!?;:])", &m, "${1}")
}

/// Symbols and shorthand as words that a speech engine reads well.
pub fn normalize_symbols_for_tts(text: &str) -> (r: String)
    ensures
        r@ == symbols_spoken(text@),
{
    let d = speak_degrees(text);
    let a = speak_amounts(&d);
    let s = spell_signs(&a);
    let p = drop_pictographs(&s);
    trim_str(&p)
}

/// Whether a line opens or closes a block of code.
pub open spec fn is_fence(line: Seq<char>) -> bool {
    begins_with(trimmed_start(line), "```"@) || begins_with(trimmed_start(line), "~~~"@)
}

/// Whether a line opens or closes a block of code.
pub fn fences(line: &str) -> (r: bool)
    ensures
        r == is_fence(line@),
{
    let v = chars_of(line);
    let t = trim_start(&v);
    starts_with(t, "```") || starts_with(t, "~~~")
}

/// A line without the marks of headings, quotes and lists in front.
pub open spec fn without_lead(line: Seq<char>) -> Seq<char> {
    let h = rewritten("^#{1,6}\\s*"@, line, ""@);
    let q = rewritten("^\\s*>\\s?"@, h, ""@);
    let b = rewritten("^\\s*[-*+•]\\s+"@, q, ""@);
    rewritten("^\\s*\\d+\\.\\s+"@, b, ""@)
}

/// Whether a line is a rule across the page.
pub open spec fn is_rule(line: Seq<char>) -> bool {
    occurs("^\\s*-{3,}\\s*$"@, line) || occurs("^\\s*\\*{3,}\\s*$"@, line) || occurs("^\\s*_{3,}\\s*$"@, line)
}

/// A line without tables, links, images, code marks and emphasis.
pub open spec fn without_markup(line: Seq<char>) -> Seq<char> {
    let t = replaced(line, "|"@, " "@);
    let l = rewritten("\\[([^\\]]*)\\]\\([^)]*\\)"@, t, "$1"@);
    let i = rewritten("!\\[[^\\]]*\\]\\([^)]*\\)"@, l, ""@);
    let c = replaced(i, "`"@, ""@);
    let b = rewritten("\\*\\*|__"@, c, ""@);
    without_marks(b)
}

/// What is spoken of a line; of fences and rules, nothing.
pub open spec fn spoken_line(line: Seq<char>) -> Option<Seq<char>> {
    if is_fence(line) {
        None
    } else {
        let t = without_lead(line);
        if is_rule(t) {
            None
        } else {
            Some(without_markup(t))
        }
    }
}

/// What is spoken of the lines, each with its end.
pub open spec fn spoken_lines(lines: Seq<Seq<char>>) -> Seq<char>
    decreases lines.len(),
{
    if lines.len() == 0 {
        Seq::empty()
    } else {
        let before = spoken_lines(lines.drop_last());
        match spoken_line(lines.last()) {
            Some(l) => before + l + "\n"@,
            None => before,
        }
    }
}

/// `s` without the blocks in which a model thinks.
pub open spec fn without_thoughts(s: Seq<char>) -> Seq<char> {
    let t = rewritten("(?s)<think[\\s>].*?</think>"@, s, " "@);
    rewritten("(?s)<think[\\s>].*\\z"@, t, " "@)
}

/// The script that a speech engine is given: no thoughts, no markup, symbols as
/// words.
pub open spec fn script_of(s: Seq<char>) -> Seq<char> {
    let lines = spoken_lines(lines_of(without_thoughts(s)));
    symbols_spoken(trimmed(rewritten("\\n{3,}"@, lines, "\n\n"@)))
}

fn drop_lead(line: &str) -> (r: String)
    ensures
        r@ == without_lead(line@),
{
    let h = rewrite("^#{1,6}\\s*", line, "");
    let q = rewrite("^\\s*>\\s?", &h, "");
    let b = rewrite("^\\s*[-*+•]\\s+", &q, "");
    rewrite("^\\s*\\d+\\.\\s+", &b, "")
}

fn drop_markup(line: &str) -> (r: String)
    ensures
        r@ == without_markup(line@),
{
    proof {
        reveal_strlit("|");
        reveal_strlit("`");
    }
    let t = swap(line, "|", " ");
    let l = rewrite("\\[([^\\]]*)\\]\\([^)]*\\)", &t, "$1");
    let i = rewrite("!\\[[^\\]]*\\]\\([^)]*\\)", &l, "");
    let c = swap(&i, "`", "");
    let b = rewrite("\\*\\*|__", &c, "");
    strip_marks(&b)
}

/// What is spoken of a line; of fences and rules, nothing.
pub fn speak_line(line: &str) -> (r: Option<String>)
    ensures
        crate::text::opt_text(r) == spoken_line(line@),
{
    if fences(line) {
        return None;
    }
    let t = drop_lead(line);
    if occurs_in("^\\s*-{3,}\\s*$", &t) || occurs_in("^\\s*\\*{3,}\\s*$", &t) || occurs_in("^\\s*_{3,}\\s*$", &t) {
        return None;
    }
    Some(drop_markup(&t))
}

/// The script that a speech engine is given: blocks in which a model thinks are
/// left out, then markup is taken away line by line, then symbols become words.
pub fn prepare_text_for_tts(input: &str) -> (r: String)
    ensures
        r@ == script_of(input@),
{
    let t = rewrite("(?s)<think[\\s>].*?</think>", input, " ");
    let text = rewrite("(?s)<think[\\s>].*\\z", &t, " ");
    let v = chars_of(&text);
    let lines = split_lines(&v);
    let ghost all = slices(lines@);
    let mut out = String::new();
    let mut i: usize = 0;
    assert(out@ =~= spoken_lines(all.take(0)));
    while i < lines.len()
        invariant
            i <= lines@.len(),
            all == slices(lines@),
            out@ == spoken_lines(all.take(i as int)),
        decreases lines@.len() - i,
    {
        assert(all.take(i as int + 1).drop_last() =~= all.take(i as int));
        assert(all.take(i as int + 1).last() == lines@[i as int]@);
        let line = string_of(lines[i]);
        if let Some(l) = speak_line(&line) {
            out.append(&l);
            out.append("\n");
        }
        i += 1;
    }
    assert(all.take(all.len() as int) =~= all);
    let closer = rewrite("\\n{3,}", &out, "\n\n");
    let plain = trim_str(&closer);
    normalize_symbols_for_tts(&plain)
}

} // verus!
