//! Answers that say that there is nothing to say.

use crate::text::{chars_of, copy_str, lowered, same_chars, to_lower, trim, trimmed};
use vstd::prelude::*;

verus! {

/// The marker by which a scheduled turn of some kind stays silent.
pub open spec fn silent_marker(kind: Seq<char>) -> Seq<char> {
    kind + "_ok"@
}

/// Whether an answer is the marker of its kind, in capitals or not.
pub fn is_silent_ok(text: &str, kind: &str) -> (r: bool)
    ensures
        r == (lowered(trimmed(text@)) == lowered(silent_marker(kind@))),
{
    let v = chars_of(text);
    let said = to_lower(trim(&v));
    let mut marker = copy_str(kind);
    marker.append("_ok");
    let m = chars_of(marker.as_str());
    let wanted = to_lower(&m);
    same_chars(&said, &wanted)
}

} // verus!
