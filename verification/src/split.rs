//! Taking texts apart and putting them together: splitting at a character, at
//! line ends and at whitespace, joining, replacing, truncating.

use crate::text::{
    chars_of, char_is_space, find_char, find_from, find_text, first_at, is_space, lemma_find_from,
    lemma_first_at_props, piece, push_chars, texts, trim_start, trimmed_start,
};
use vstd::prelude::*;

verus! {

/// The views of a sequence of character slices.
pub open spec fn slices(v: Seq<&[char]>) -> Seq<Seq<char>> {
    v.map_values(|s: &[char]| s@)
}

/// Pushing a slice pushes its view.
pub proof fn lemma_slices_push(v: Seq<&[char]>, x: &[char])
    ensures
        slices(v.push(x)) == slices(v).push(x@),
{
    assert(slices(v.push(x)) =~= slices(v).push(x@));
}

/// Pushing a string pushes its view.
pub proof fn lemma_texts_push(v: Seq<String>, x: String)
    ensures
        texts(v.push(x)) == texts(v).push(x@),
{
    assert(texts(v.push(x)) =~= texts(v).push(x@));
}

// ── Splitting at a character ───────────────────────────────────────────────

/// The parts of `s` between occurrences of `c`. There is always one more part
/// than there are occurrences.
pub open spec fn split_on(s: Seq<char>, c: char) -> Seq<Seq<char>>
    decreases s.len(),
    via split_on_decreases
{
    let i = first_at(s, c);
    if i < s.len() {
        seq![s.take(i)] + split_on(s.skip(i + 1), c)
    } else {
        seq![s]
    }
}

#[via_fn]
proof fn split_on_decreases(s: Seq<char>, c: char) {
    lemma_first_at_props(s, c);
}

/// Splits at every `c`.
pub fn split_char<'a>(v: &'a [char], c: char) -> (r: Vec<&'a [char]>)
    ensures
        slices(r@) == split_on(v@, c),
        r@.len() >= 1,
{
    let mut r: Vec<&'a [char]> = Vec::new();
    let mut start: usize = 0;
    assert(v@.skip(0) == v@);
    assert(slices(r@) =~= Seq::<Seq<char>>::empty());
    loop
        invariant
            start <= v@.len(),
            slices(r@) + split_on(v@.skip(start as int), c) == split_on(v@, c),
        decreases v@.len() - start,
    {
        let rest = piece(v, start, v.len());
        assert(rest@ == v@.skip(start as int));
        let i: usize = find_char(rest, c);
        if i < rest.len() {
            let part = piece(rest, 0, i);
            assert(part@ == rest@.take(i as int));
            proof {
                lemma_slices_push(r@, part);
            }
            let ghost before = slices(r@);
            r.push(part);
            assert(rest@.skip(i as int + 1) == v@.skip(start + i + 1));
            assert(before.push(part@) + split_on(v@.skip(start + i + 1), c) =~= before + (seq![
                part@,
            ] + split_on(v@.skip(start + i + 1), c)));
            start = start + i + 1;
        } else {
            proof {
                lemma_slices_push(r@, rest);
            }
            assert(slices(r@).push(rest@) =~= slices(r@) + seq![rest@]);
            r.push(rest);
            return r;
        }
    }
}

// ── Lines ──────────────────────────────────────────────────────────────────

/// `s` without one carriage return at its end.
pub open spec fn without_cr(s: Seq<char>) -> Seq<char> {
    if s.len() > 0 && s.last() == '\r' {
        s.drop_last()
    } else {
        s
    }
}

/// The lines of `s`. A line ends with a line feed, or a carriage return and a
/// line feed; the last line may lack its end.
pub open spec fn lines_of(s: Seq<char>) -> Seq<Seq<char>>
    decreases s.len(),
    via lines_of_decreases
{
    if s.len() == 0 {
        Seq::empty()
    } else {
        let i = first_at(s, '\n');
        if i < s.len() {
            seq![without_cr(s.take(i))] + lines_of(s.skip(i + 1))
        } else {
            seq![s]
        }
    }
}

#[via_fn]
proof fn lines_of_decreases(s: Seq<char>) {
    lemma_first_at_props(s, '\n');
}

/// The lines of `v`.
pub fn split_lines<'a>(v: &'a [char]) -> (r: Vec<&'a [char]>)
    ensures
        slices(r@) == lines_of(v@),
{
    let mut r: Vec<&'a [char]> = Vec::new();
    let mut start: usize = 0;
    assert(v@.skip(0) == v@);
    assert(slices(r@) =~= Seq::<Seq<char>>::empty());
    while start < v.len()
        invariant
            start <= v@.len(),
            slices(r@) + lines_of(v@.skip(start as int)) == lines_of(v@),
        decreases v@.len() - start,
    {
        let rest = piece(v, start, v.len());
        assert(rest@ == v@.skip(start as int));
        let i: usize = find_char(rest, '\n');
        if i < rest.len() {
            let whole = piece(rest, 0, i);
            assert(whole@ == rest@.take(i as int));
            let line = if i > 0 && whole[i - 1] == '\r' {
                piece(whole, 0, i - 1)
            } else {
                whole
            };
            assert(line@ == without_cr(whole@));
            proof {
                lemma_slices_push(r@, line);
            }
            let ghost before = slices(r@);
            r.push(line);
            assert(rest@.skip(i as int + 1) == v@.skip(start + i + 1));
            assert(before.push(line@) + lines_of(v@.skip(start + i + 1)) =~= before + (seq![
                line@,
            ] + lines_of(v@.skip(start + i + 1))));
            start = start + i + 1;
        } else {
            proof {
                lemma_slices_push(r@, rest);
            }
            assert(slices(r@).push(rest@) =~= slices(r@) + seq![rest@]);
            assert(v@.skip(v@.len() as int) =~= Seq::<char>::empty());
            assert(lines_of(v@.skip(v@.len() as int)) =~= Seq::<Seq<char>>::empty());
            r.push(rest);
            assert(slices(r@) + lines_of(v@.skip(v@.len() as int)) =~= slices(r@));
            start = v.len();
        }
    }
    assert(v@.skip(start as int) =~= Seq::<char>::empty());
    assert(slices(r@) + lines_of(v@.skip(start as int)) =~= slices(r@));
    r
}

// ── Words ──────────────────────────────────────────────────────────────────

/// The index of the first whitespace in `s`, or its length.
pub open spec fn first_space(s: Seq<char>) -> int
    decreases s.len(),
{
    if s.len() == 0 {
        0
    } else if is_space(s[0]) {
        0
    } else {
        1 + first_space(s.skip(1))
    }
}

proof fn lemma_first_space(s: Seq<char>, i: int)
    requires
        0 <= i <= s.len(),
        forall|j: int| 0 <= j < i ==> !is_space(s[j]),
        i == s.len() || is_space(s[i]),
    ensures
        first_space(s) == i,
    decreases s.len(),
{
    if s.len() > 0 && i > 0 {
        assert forall|j: int| 0 <= j < i - 1 implies !is_space(s.skip(1)[j]) by {
            assert(s.skip(1)[j] == s[j + 1]);
        }
        lemma_first_space(s.skip(1), i - 1);
    }
}

proof fn lemma_first_space_bounds(s: Seq<char>)
    ensures
        0 <= first_space(s) <= s.len(),
    decreases s.len(),
{
    if s.len() > 0 && !is_space(s[0]) {
        lemma_first_space_bounds(s.skip(1));
    }
}

proof fn lemma_trimmed_start_shape(s: Seq<char>)
    ensures
        trimmed_start(s).len() <= s.len(),
        trimmed_start(s).len() > 0 ==> !is_space(trimmed_start(s)[0]),
    decreases s.len(),
{
    if s.len() > 0 && is_space(s[0]) {
        lemma_trimmed_start_shape(s.skip(1));
    }
}

/// The maximal runs of `s` without whitespace.
pub open spec fn words_of(s: Seq<char>) -> Seq<Seq<char>>
    decreases s.len(),
    via words_of_decreases
{
    let t = trimmed_start(s);
    if t.len() == 0 {
        Seq::empty()
    } else {
        let i = first_space(t);
        seq![t.take(i)] + words_of(t.skip(i))
    }
}

#[via_fn]
proof fn words_of_decreases(s: Seq<char>) {
    let t = trimmed_start(s);
    lemma_trimmed_start_shape(s);
    lemma_first_space_bounds(t);
    if t.len() > 0 {
        lemma_first_space_bounds(t.skip(1));
    }
}

/// The words of `v`.
pub fn split_words<'a>(v: &'a [char]) -> (r: Vec<&'a [char]>)
    ensures
        slices(r@) == words_of(v@),
{
    let mut r: Vec<&'a [char]> = Vec::new();
    let mut rest: &'a [char] = v;
    assert(slices(r@) =~= Seq::<Seq<char>>::empty());
    assert(slices(r@) + words_of(v@) =~= words_of(v@));
    loop
        invariant
            slices(r@) + words_of(rest@) == words_of(v@),
        decreases rest@.len(),
    {
        let ghost whole = rest@;
        let t = trim_start(rest);
        proof {
            lemma_trimmed_start_shape(rest@);
        }
        if t.len() == 0 {
            assert(slices(r@) + words_of(rest@) =~= slices(r@));
            return r;
        }
        let mut i: usize = 0;
        while i < t.len() && !char_is_space(t[i])
            invariant
                i <= t@.len(),
                forall|j: int| 0 <= j < i ==> !is_space(t@[j]),
            decreases t@.len() - i,
        {
            i += 1;
        }
        proof {
            lemma_first_space(t@, i as int);
        }
        assert(i > 0);
        let word = piece(t, 0, i);
        assert(word@ == t@.take(i as int));
        proof {
            lemma_slices_push(r@, word);
        }
        let ghost before = slices(r@);
        r.push(word);
        let tail = piece(t, i, t.len());
        assert(tail@ == t@.skip(i as int));
        assert(before.push(word@) + words_of(tail@) =~= before + (seq![word@] + words_of(tail@)));
        rest = tail;
    }
}

// ── Joining ────────────────────────────────────────────────────────────────

/// `parts` one after the other with `sep` between each two.
pub open spec fn joined(parts: Seq<Seq<char>>, sep: Seq<char>) -> Seq<char>
    decreases parts.len(),
{
    if parts.len() == 0 {
        Seq::empty()
    } else if parts.len() == 1 {
        parts[0]
    } else {
        joined(parts.drop_last(), sep) + sep + parts.last()
    }
}

/// Joins slices with `sep` between each two.
pub fn join_slices(parts: &Vec<&[char]>, sep: &str) -> (r: String)
    ensures
        r@ == joined(slices(parts@), sep@),
{
    let sp = chars_of(sep);
    let mut r = String::new();
    let mut i: usize = 0;
    assert(slices(parts@).take(0) =~= Seq::<Seq<char>>::empty());
    while i < parts.len()
        invariant
            i <= parts@.len(),
            sp@ == sep@,
            r@ == joined(slices(parts@).take(i as int), sep@),
        decreases parts@.len() - i,
    {
        assert(slices(parts@).take(i as int + 1).drop_last() =~= slices(parts@).take(i as int));
        assert(slices(parts@).take(i as int + 1).last() == parts@[i as int]@);
        if i > 0 {
            push_chars(&mut r, &sp);
        }
        push_chars(&mut r, parts[i]);
        assert(r@ =~= joined(slices(parts@).take(i as int + 1), sep@));
        i += 1;
    }
    assert(slices(parts@).take(parts@.len() as int) =~= slices(parts@));
    r
}

/// Joins strings with `sep` between each two.
pub fn join_strings(parts: &Vec<String>, sep: &str) -> (r: String)
    ensures
        r@ == joined(texts(parts@), sep@),
{
    let mut r = String::new();
    let mut i: usize = 0;
    assert(texts(parts@).take(0) =~= Seq::<Seq<char>>::empty());
    while i < parts.len()
        invariant
            i <= parts@.len(),
            r@ == joined(texts(parts@).take(i as int), sep@),
        decreases parts@.len() - i,
    {
        assert(texts(parts@).take(i as int + 1).drop_last() =~= texts(parts@).take(i as int));
        assert(texts(parts@).take(i as int + 1).last() == parts@[i as int]@);
        if i > 0 {
            r.append(sep);
        }
        r.append(parts[i].as_str());
        assert(r@ =~= joined(texts(parts@).take(i as int + 1), sep@));
        i += 1;
    }
    assert(texts(parts@).take(parts@.len() as int) =~= texts(parts@));
    r
}

// ── Replacing and truncating ───────────────────────────────────────────────

/// `s` with each occurrence of `from`, taken from the left without overlap,
/// replaced by `to`.
pub open spec fn replaced(s: Seq<char>, from: Seq<char>, to: Seq<char>) -> Seq<char>
    recommends
        from.len() > 0,
    decreases s.len(),
    via replaced_decreases
{
    match find_from(s, from, 0) {
        Some(i) if from.len() > 0 => s.take(i) + to + replaced(s.skip(i + from.len()), from, to),
        _ => s,
    }
}

#[via_fn]
proof fn replaced_decreases(s: Seq<char>, from: Seq<char>, to: Seq<char>) {
    lemma_find_from(s, from, 0);
}

/// Replaces each occurrence of `from` by `to`.
pub fn replace_text(v: &[char], from: &str, to: &str) -> (r: String)
    requires
        from@.len() > 0,
    ensures
        r@ == replaced(v@, from@, to@),
{
    let f = chars_of(from);
    let mut r = String::new();
    let mut start: usize = 0;
    assert(v@.skip(0) == v@);
    assert(r@ + replaced(v@, from@, to@) =~= replaced(v@, from@, to@));
    loop
        invariant
            start <= v@.len(),
            f@ == from@,
            from@.len() > 0,
            r@ + replaced(v@.skip(start as int), from@, to@) == replaced(v@, from@, to@),
        decreases v@.len() - start,
    {
        let rest = piece(v, start, v.len());
        assert(rest@ == v@.skip(start as int));
        match find_text(rest, &f, 0) {
            Some(i) => {
                let ghost before = r@;
                let head = piece(rest, 0, i);
                assert(head@ == rest@.take(i as int));
                push_chars(&mut r, head);
                r.append(to);
                let next: usize = start + i + f.len();
                assert(rest@.skip(i + f@.len()) == v@.skip(next as int));
                assert(r@ + replaced(v@.skip(next as int), from@, to@) =~= before + (head@ + to@
                    + replaced(v@.skip(next as int), from@, to@)));
                start = next;
            },
            None => {
                push_chars(&mut r, rest);
                return r;
            },
        }
    }
}

/// At most the first `n` characters of `s`.
pub open spec fn head_of(s: Seq<char>, n: int) -> Seq<char> {
    if n < s.len() {
        s.take(n)
    } else {
        s
    }
}

/// At most the first `n` characters of `v`.
pub fn take_chars<'a>(v: &'a [char], n: usize) -> (r: &'a [char])
    ensures
        r@ == head_of(v@, n as int),
{
    if n < v.len() {
        assert(v@.take(n as int) == v@.subrange(0, n as int));
        piece(v, 0, n)
    } else {
        v
    }
}

} // verus!
