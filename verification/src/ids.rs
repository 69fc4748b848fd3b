//! Ids that are drawn.

use vstd::prelude::*;

verus! {

/// Whether a character is a hexadecimal digit in lower case.
pub open spec fn is_lower_hex(c: char) -> bool {
    ('0' <= c && c <= '9') || ('a' <= c && c <= 'f')
}

/// Whether a text is that of a uuid of a version: 32 hexadecimal digits in five
/// groups with hyphens between them, of which the third starts with the version.
pub open spec fn is_uuid_text(s: Seq<char>, version: char) -> bool {
    &&& s.len() == 36
    &&& forall|i: int|
        0 <= i < 36 ==> if i == 8 || i == 13 || i == 18 || i == 23 {
            #[trigger] s[i] == '-'
        } else {
            is_lower_hex(s[i])
        }
    &&& s[14] == version
}

/// Calls `uuid::Uuid::now_v7`. The result is the text of a uuid of version 7; time
/// and chance decide the other digits.
#[verifier::external_body]
pub(crate) fn fresh_uuid() -> (r: String)
    ensures
        is_uuid_text(r@, '7'),
{
    uuid::Uuid::now_v7().to_string()
}

/// Calls `uuid::Uuid::new_v4`. The result is the text of a uuid of version 4; chance
/// decides the other digits.
#[verifier::external_body]
pub(crate) fn random_uuid() -> (r: String)
    ensures
        is_uuid_text(r@, '4'),
{
    uuid::Uuid::new_v4().to_string()
}

} // verus!
