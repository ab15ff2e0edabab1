//! The identifiers by which subscriptions are told apart.

use vstd::prelude::*;

verus! {

/// The lower-case hexadecimal digits.
pub open spec fn is_hex_digit(c: char) -> bool {
    ('0' <= c <= '9') || ('a' <= c <= 'f')
}

/// Where the hyphens of an identifier stand.
pub open spec fn is_hyphen_place(i: int) -> bool {
    i == 8 || i == 13 || i == 18 || i == 23
}

/// The written form of a random identifier: five groups of hexadecimal digits
/// with hyphens between them, the digit of the version and the digit of the
/// variant in their places.
pub open spec fn is_random_id(s: Seq<char>) -> bool {
    &&& s.len() == 36
    &&& forall|i: int|
        0 <= i < 36 ==> if is_hyphen_place(i) {
            #[trigger] s[i] == '-'
        } else {
            is_hex_digit(s[i])
        }
    &&& s[14] == '4'
    &&& s[19] == '8' || s[19] == '9' || s[19] == 'a' || s[19] == 'b'
}

/// A fresh random identifier: `uuid::Uuid::new_v4`, written out.
///
/// Claimed of it: the form of what is written. Which identifier it is, chance
/// says; nothing is claimed of two of them. It panics where the operating system
/// has no random bytes to give.
#[verifier::external_body]
pub(crate) fn new_id() -> (r: String)
    ensures
        is_random_id(r@),
{
    uuid::Uuid::new_v4().to_string()
}

} // verus!
