//! Fresh identifiers.

use vstd::prelude::*;
#[allow(unused_imports)]
use crate::text::{position_bounds, up_to};

verus! {

/// A lower-case hexadecimal digit.
pub open spec fn is_hex_digit(c: char) -> bool {
    '0' <= c <= '9' || 'a' <= c <= 'f'
}

/// The text has the form of an identifier: five groups of lower-case hexadecimal digits, of
/// 8, 4, 4, 4 and 12, with hyphens between them.
pub open spec fn is_hyphenated(id: Seq<char>) -> bool {
    &&& id.len() == 36
    &&& forall|i: int|
        0 <= i < 36 ==> if i == 8 || i == 13 || i == 18 || i == 23 {
            #[trigger] id[i] == '-'
        } else {
            is_hex_digit(id[i])
        }
}

/// `uuid::Uuid::new_v4`, displayed. Each call gives another identifier, so nothing is
/// promised of it but its form: `Uuid` is displayed in lower-case hexadecimal, with hyphens.
#[verifier::external_body]
pub(crate) fn fresh_id() -> (id: String)
    ensures
        is_hyphenated(id@),
{
    uuid::Uuid::new_v4().to_string()
}

/// The first group of an identifier is its first eight characters.
pub proof fn first_group(id: Seq<char>)
    requires
        is_hyphenated(id),
    ensures
        up_to(id, '-') == id.take(8),
{
    assert(id[8] == '-');
    assert forall|i: int| 0 <= i < 8 implies id[i] != '-' by {
        assert(is_hex_digit(id[i]));
    }
    position_bounds(id, '-');
}

} // verus!
