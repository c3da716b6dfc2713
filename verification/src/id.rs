//! Names for accounts and transfers that nothing else has.

use vstd::prelude::*;

verus! {

/// Whether a character is a lower-case hexadecimal digit.
pub open spec fn is_hex(c: char) -> bool {
    '0' <= c <= '9' || 'a' <= c <= 'f'
}

/// Whether a text has the form of a random identifier: 32 hexadecimal digits in groups of 8, 4, 4,
/// 4 and 12 with hyphens between them, the third group begun by a 4 and the fourth by one of 8, 9,
/// a and b.
pub open spec fn identifies(s: Seq<char>) -> bool {
    &&& s.len() == 36
    &&& forall|i: int|
        0 <= i < 36 ==> if i == 8 || i == 13 || i == 18 || i == 23 {
            #[trigger] s[i] == '-'
        } else {
            is_hex(s[i])
        }
    &&& s[14] == '4'
    &&& s[19] == '8' || s[19] == '9' || s[19] == 'a' || s[19] == 'b'
}

/// Trusted: `uuid::Uuid::new_v4` draws a random version 4 identifier, which `to_string` writes in
/// lower case with hyphens. Which one it is, is left open.
#[verifier::external_body]
pub(crate) fn fresh_id() -> (id: String)
    ensures
        identifies(id@),
{
    uuid::Uuid::new_v4().to_string()
}

} // verus!
