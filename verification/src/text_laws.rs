//! What trimming, splitting, joining and replacing promise of every text.

use vstd::prelude::*;

use crate::split::{joined, lines_of, replaced, split_on, without_cr, words_of};
use crate::text::{
    find_from, first_at, has_text, is_space, lemma_find_from, lemma_first_at_props, lemma_has_text,
    matches_at, split_once, trimmed, trimmed_end, trimmed_start,
};

verus! {

/// What stands between a beginning and an end stands in the whole.
pub proof fn lemma_holds_around(
    t: Seq<char>,
    p: Seq<char>,
    q: Seq<char>,
    x: Seq<char>,
    r: Seq<char>,
    s: Seq<char>,
)
    requires
        t == p + q + x + (r + s),
    ensures
        has_text(t, q + x + r),
{
    let m = q + x + r;
    assert(t =~= p + m + s);
    assert(t.subrange(p.len() as int, (p.len() + m.len()) as int) =~= m);
    assert(matches_at(t, m, p.len() as int));
}

/// Whether all characters of a text are spaces.
pub open spec fn all_spaces(s: Seq<char>) -> bool {
    forall|i: int| 0 <= i < s.len() ==> is_space(#[trigger] s[i])
}

/// Whether a text neither begins nor ends with a space.
pub open spec fn is_trim(s: Seq<char>) -> bool {
    s.len() > 0 ==> !is_space(s[0]) && !is_space(s.last())
}

proof fn lemma_trim_start(a: Seq<char>, s: Seq<char>)
    requires
        all_spaces(a),
        s.len() > 0 ==> !is_space(s[0]),
    ensures
        trimmed_start(a + s) == s,
    decreases a.len(),
{
    if a.len() == 0 {
        assert(a + s =~= s);
    } else {
        assert((a + s)[0] == a[0]);
        assert((a + s).skip(1) =~= a.skip(1) + s);
        lemma_trim_start(a.skip(1), s);
    }
}

proof fn lemma_trim_end(s: Seq<char>, b: Seq<char>)
    requires
        all_spaces(b),
        s.len() > 0 ==> !is_space(s.last()),
    ensures
        trimmed_end(s + b) == s,
    decreases b.len(),
{
    if b.len() == 0 {
        assert(s + b =~= s);
    } else {
        assert((s + b).last() == b[b.len() - 1]);
        assert((s + b).drop_last() =~= s + b.drop_last());
        lemma_trim_end(s, b.drop_last());
    }
}

/// Trimming takes the spaces away that stand around a text, and nothing else.
pub proof fn law_trimming(a: Seq<char>, s: Seq<char>, b: Seq<char>)
    requires
        all_spaces(a),
        all_spaces(b),
        is_trim(s),
    ensures
        trimmed(a + s + b) == s,
        trimmed(s) == s,
{
    let e = Seq::<char>::empty();
    lemma_trim_end(s, b);
    lemma_trim_end(s, e);
    assert(s + e =~= s);
    if s.len() > 0 {
        assert((s + b)[0] == s[0]);
        assert(a + s + b =~= a + (s + b));
        lemma_trim_start(a, s + b);
        lemma_trim_start(e, s);
        assert(e + s =~= s);
    } else {
        assert(s =~= e);
        let all = a + b;
        assert(all_spaces(all)) by {
            assert forall|i: int| 0 <= i < all.len() implies is_space(#[trigger] all[i]) by {
                if i < a.len() {
                    assert(all[i] == a[i]);
                } else {
                    assert(all[i] == b[i - a.len()]);
                }
            }
        }
        assert(a + s + b =~= all + e);
        lemma_trim_start(all, e);
    }
}

proof fn lemma_first_in(a: Seq<char>, c: char, b: Seq<char>)
    requires
        !a.contains(c),
    ensures
        first_at(a.push(c) + b, c) == a.len(),
        first_at(a, c) == a.len(),
    decreases a.len(),
{
    let s = a.push(c) + b;
    assert forall|k: int| 0 <= k < a.len() implies s[k] != c by {
        assert(s[k] == a[k]);
        assert(a.contains(a[k]));
    }
    if a.len() > 0 {
        assert(s[0] == a[0]);
        assert(a.contains(a[0]));
        assert(s.skip(1) =~= a.skip(1).push(c) + b);
        assert(!a.skip(1).contains(c)) by {
            if a.skip(1).contains(c) {
                let k = choose|k: int| 0 <= k < a.skip(1).len() && a.skip(1)[k] == c;
                assert(a[k + 1] == c);
                assert(a.contains(c));
            }
        }
        lemma_first_in(a.skip(1), c, b);
    } else {
        assert(s[0] == c);
    }
}

/// A text is cut at the first separator, and the separator goes.
pub proof fn law_cutting_once(a: Seq<char>, c: char, b: Seq<char>)
    requires
        !a.contains(c),
    ensures
        split_once(a.push(c) + b, c) == Some((a, b)),
        split_once(a, c) is None,
{
    let s = a.push(c) + b;
    lemma_first_in(a, c, b);
    assert(s.take(a.len() as int) =~= a);
    assert(s.skip(a.len() as int + 1) =~= b);
}

/// A text is split at each separator: what stands before the first one is the first
/// piece, and the rest is split in the same way.
pub proof fn law_splitting(a: Seq<char>, c: char, b: Seq<char>)
    requires
        !a.contains(c),
    ensures
        split_on(a.push(c) + b, c) == seq![a] + split_on(b, c),
        split_on(a, c) == seq![a],
{
    let s = a.push(c) + b;
    lemma_first_in(a, c, b);
    assert(s.take(a.len() as int) =~= a);
    assert(s.skip(a.len() as int + 1) =~= b);
}

/// The lines of a text: a line ends at a line feed, and a carriage return before that
/// is no part of it.
pub proof fn law_lines(a: Seq<char>, b: Seq<char>)
    requires
        !a.contains('\n'),
    ensures
        lines_of(a.push('\n') + b) == seq![without_cr(a)] + lines_of(b),
        a.len() > 0 ==> lines_of(a) == seq![a],
{
    let s = a.push('\n') + b;
    lemma_first_in(a, '\n', b);
    assert(s.take(a.len() as int) =~= a);
    assert(s.skip(a.len() as int + 1) =~= b);
}

/// Pieces are joined in their order, with the separator between neighbours.
pub proof fn law_joining(a: Seq<Seq<char>>, b: Seq<Seq<char>>, sep: Seq<char>)
    requires
        a.len() > 0,
        b.len() > 0,
    ensures
        joined(a + b, sep) == joined(a, sep) + sep + joined(b, sep),
    decreases b.len(),
{
    let all = a + b;
    assert(all.drop_last() =~= a + b.drop_last());
    assert(all.last() == b.last());
    if b.len() == 1 {
        assert(all.drop_last() =~= a);
        assert(joined(b, sep) == b[0]);
    } else {
        law_joining(a, b.drop_last(), sep);
        assert(joined(all, sep) =~= joined(a, sep) + sep + joined(b, sep));
    }
}

/// Joining undoes splitting.
pub proof fn law_joining_undoes_splitting(s: Seq<char>, c: char)
    ensures
        joined(split_on(s, c), seq![c]) == s,
        split_on(s, c).len() > 0,
    decreases s.len(),
{
    lemma_first_at_props(s, c);
    let i = first_at(s, c);
    if i < s.len() {
        let rest = s.skip(i + 1);
        law_joining_undoes_splitting(rest, c);
        let first = seq![s.take(i)];
        law_joining(first, split_on(rest, c), seq![c]);
        assert(joined(first, seq![c]) == s.take(i));
        assert(s =~= s.take(i) + seq![c] + rest);
    } else {
        assert(joined(seq![s], seq![c]) == s);
    }
}

/// A text that does not hold what is to be replaced stays. Otherwise what stands before
/// the first occurrence stays, the replacement follows, and the rest is treated in the
/// same way.
pub proof fn law_replacing(s: Seq<char>, from: Seq<char>, to: Seq<char>)
    requires
        from.len() > 0,
    ensures
        !has_text(s, from) ==> replaced(s, from, to) == s,
        has_text(s, from) ==> exists|i: int|
            #[trigger] matches_at(s, from, i) && (forall|j: int|
                0 <= j < i ==> !matches_at(s, from, j)) && replaced(s, from, to) == s.take(i) + to
                + replaced(s.skip(i + from.len()), from, to),
{
    lemma_has_text(s, from);
    lemma_find_from(s, from, 0);
    if has_text(s, from) {
        let i = find_from(s, from, 0)->0;
        assert(matches_at(s, from, i));
    }
}

proof fn lemma_char_matches(s: Seq<char>, c: char, i: int)
    ensures
        matches_at(s, seq![c], i) == (0 <= i < s.len() && s[i] == c),
{
    if 0 <= i < s.len() {
        assert(s.subrange(i, i + 1) =~= seq![s[i]]);
        if s[i] != c {
            assert(seq![s[i]][0] != seq![c][0]);
        }
    }
}

/// A character that is replaced by a text without it is gone.
pub proof fn law_a_replaced_character_is_gone(s: Seq<char>, c: char, to: Seq<char>)
    requires
        !to.contains(c),
    ensures
        !replaced(s, seq![c], to).contains(c),
    decreases s.len(),
{
    let from = seq![c];
    lemma_find_from(s, from, 0);
    match find_from(s, from, 0) {
        Some(i) => {
            lemma_char_matches(s, c, i);
            law_a_replaced_character_is_gone(s.skip(i + 1), c, to);
            let rest = replaced(s.skip(i + 1), from, to);
            let r = s.take(i) + to + rest;
            if r.contains(c) {
                let k = choose|k: int| 0 <= k < r.len() && r[k] == c;
                if k < i {
                    lemma_char_matches(s, c, k);
                    assert(r[k] == s[k]);
                } else if k < i + to.len() {
                    assert(to[k - i] == c);
                    assert(to.contains(c));
                } else {
                    assert(rest[k - i - to.len()] == c);
                    assert(rest.contains(c));
                }
            }
        },
        None => {
            if s.contains(c) {
                let k = choose|k: int| 0 <= k < s.len() && s[k] == c;
                lemma_char_matches(s, c, k);
                assert(matches_at(s, from, k));
            }
        },
    }
}

/// A text without a character stays when that character is replaced.
pub proof fn law_nothing_to_replace(s: Seq<char>, c: char, to: Seq<char>)
    requires
        !s.contains(c),
    ensures
        replaced(s, seq![c], to) == s,
{
    lemma_find_from(s, seq![c], 0);
    if find_from(s, seq![c], 0) is Some {
        let i = find_from(s, seq![c], 0)->0;
        lemma_char_matches(s, c, i);
        assert(s.contains(s[i]));
    }
}

/// Texts that follow one another are replaced in one after another, if it is a single
/// character that is replaced.
pub proof fn law_replacing_piece_by_piece(a: Seq<char>, b: Seq<char>, c: char, to: Seq<char>)
    ensures
        replaced(a + b, seq![c], to) == replaced(a, seq![c], to) + replaced(b, seq![c], to),
    decreases a.len(),
{
    let from = seq![c];
    lemma_find_from(a, from, 0);
    lemma_find_from(a + b, from, 0);
    match find_from(a, from, 0) {
        Some(i) => {
            lemma_char_matches(a, c, i);
            lemma_char_matches(a + b, c, i);
            assert forall|k: int| 0 <= k < i implies !matches_at(a + b, from, k) by {
                lemma_char_matches(a, c, k);
                lemma_char_matches(a + b, c, k);
            }
            assert(matches_at(a + b, from, i));
            assert(find_from(a + b, from, 0) == Some(i));
            assert((a + b).skip(i + 1) =~= a.skip(i + 1) + b);
            assert((a + b).take(i) =~= a.take(i));
            law_replacing_piece_by_piece(a.skip(i + 1), b, c, to);
            assert(replaced(a + b, from, to) =~= replaced(a, from, to) + replaced(b, from, to));
        },
        None => {
            assert forall|k: int| 0 <= k < a.len() implies !matches_at(a + b, from, k) by {
                lemma_char_matches(a, c, k);
                lemma_char_matches(a + b, c, k);
            }
            lemma_find_from(b, from, 0);
            match find_from(b, from, 0) {
                Some(i) => {
                    lemma_char_matches(b, c, i);
                    let n = (a.len() + i) as int;
                    lemma_char_matches(a + b, c, n);
                    assert(matches_at(a + b, from, n));
                    assert forall|k: int| 0 <= k < n implies !matches_at(a + b, from, k) by {
                        lemma_char_matches(a + b, c, k);
                        if k >= a.len() {
                            lemma_char_matches(b, c, k - a.len());
                        }
                    }
                    assert(find_from(a + b, from, 0) == Some(n));
                    assert((a + b).take(n) =~= a + b.take(i));
                    assert((a + b).skip(n + 1) =~= b.skip(i + 1));
                    assert(replaced(a + b, from, to) =~= replaced(a, from, to) + replaced(
                        b,
                        from,
                        to,
                    ));
                },
                None => {
                    assert forall|k: int| 0 <= k implies !matches_at(a + b, from, k) by {
                        lemma_char_matches(a + b, c, k);
                        if k >= a.len() {
                            lemma_char_matches(b, c, k - a.len());
                        }
                    }
                    if find_from(a + b, from, 0) is Some {
                        assert(matches_at(a + b, from, find_from(a + b, from, 0)->0));
                    }
                },
            }
        },
    }
}

/// The words of a text are what spaces set apart, in their order.
pub proof fn law_words(a: Seq<char>, w: Seq<char>, space: char, b: Seq<char>)
    requires
        all_spaces(a),
        w.len() > 0,
        forall|i: int| 0 <= i < w.len() ==> !is_space(#[trigger] w[i]),
        is_space(space),
    ensures
        words_of(a + w.push(space) + b) == seq![w] + words_of(b),
        words_of(a + w) == seq![w],
        words_of(a).len() == 0,
{
    let e = Seq::<char>::empty();
    let tail = w.push(space) + b;
    assert(tail[0] == w[0]);
    assert(a + w.push(space) + b =~= a + tail);
    lemma_trim_start(a, tail);
    lemma_trim_start(a, w);
    lemma_trim_start(a, e);
    assert(a + e =~= a);
    lemma_word_end(w, space, b);
    assert(tail.take(w.len() as int) =~= w);
    assert(w.take(w.len() as int) =~= w);
    assert(w.skip(w.len() as int) =~= e);
    lemma_trim_start(e, e);
    assert(e + e =~= e);
    assert(words_of(e).len() == 0);
    assert(words_of(a + w) =~= seq![w]);
    let rest = tail.skip(w.len() as int);
    assert(rest =~= seq![space] + b);
    assert(rest[0] == space);
    assert(rest.skip(1) =~= b);
    assert(trimmed_start(rest) == trimmed_start(b));
    assert(words_of(rest) == words_of(b));
}

proof fn lemma_word_end(w: Seq<char>, space: char, b: Seq<char>)
    requires
        forall|i: int| 0 <= i < w.len() ==> !is_space(#[trigger] w[i]),
        is_space(space),
    ensures
        crate::split::first_space(w.push(space) + b) == w.len(),
        crate::split::first_space(w) == w.len(),
    decreases w.len(),
{
    let s = w.push(space) + b;
    if w.len() == 0 {
        assert(s[0] == space);
    } else {
        assert(s[0] == w[0]);
        assert(s.skip(1) =~= w.skip(1).push(space) + b);
        assert forall|i: int| 0 <= i < w.skip(1).len() implies !is_space(
            #[trigger] w.skip(1)[i],
        ) by {
            assert(w.skip(1)[i] == w[i + 1]);
        }
        lemma_word_end(w.skip(1), space, b);
    }
}

} // verus!
