//! Regular expressions.

use vstd::prelude::*;

verus! {

/// What `regex` makes of a text whose matches of a pattern are replaced, or
/// nothing if the pattern is none.
pub uninterp spec fn regex_replaced(
    pattern: Seq<char>,
    text: Seq<char>,
    rep: Seq<char>,
) -> Option<Seq<char>>;

/// Calls `regex::Regex::new` and `replace_all` with a replacement text, in which
/// `$1` and `${1}` stand for the first group.
#[verifier::external_body]
pub(crate) fn regex_replace_all(pattern: &str, text: &str, rep: &str) -> (r: Option<String>)
    ensures
        match r {
            Some(s) => regex_replaced(pattern@, text@, rep@) == Some(s@),
            None => regex_replaced(pattern@, text@, rep@) is None,
        },
{
    regex::Regex::new(pattern).ok().map(|re| re.replace_all(text, rep).into_owned())
}

/// Whether `regex` finds a match of a pattern anywhere in a text, or nothing if
/// the pattern is none.
pub uninterp spec fn regex_matched(pattern: Seq<char>, text: Seq<char>) -> Option<bool>;

/// Calls `regex::Regex::new` and `is_match`.
#[verifier::external_body]
pub(crate) fn regex_is_match(pattern: &str, text: &str) -> (r: Option<bool>)
    ensures
        r == regex_matched(pattern@, text@),
{
    regex::Regex::new(pattern).ok().map(|re| re.is_match(text))
}

/// `text` with the matches of a pattern replaced; left as it is if the pattern
/// is none.
pub open spec fn rewritten(pattern: Seq<char>, text: Seq<char>, rep: Seq<char>) -> Seq<char> {
    match regex_replaced(pattern, text, rep) {
        Some(s) => s,
        None => text,
    }
}

/// `text` with the matches of a pattern replaced.
pub fn rewrite(pattern: &str, text: &str, rep: &str) -> (r: String)
    ensures
        r@ == rewritten(pattern@, text@, rep@),
{
    match regex_replace_all(pattern, text, rep) {
        Some(s) => s,
        None => crate::text::copy_str(text),
    }
}

/// Whether a pattern has a match in a text.
pub open spec fn occurs(pattern: Seq<char>, text: Seq<char>) -> bool {
    regex_matched(pattern, text) == Some(true)
}

/// Whether a pattern has a match in a text; what is no pattern has none.
pub fn occurs_in(pattern: &str, text: &str) -> (r: bool)
    ensures
        r == occurs(pattern@, text@),
{
    match regex_is_match(pattern, text) {
        Some(b) => b,
        None => false,
    }
}

} // verus!
