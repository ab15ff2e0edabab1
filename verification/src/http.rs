//! The answers of a web server, as far as the manager looks at them.

use vstd::prelude::*;

use crate::text::{decimal, law_decimal_stands_for_its_number, number_written};

verus! {

/// The status codes that an answer can carry.
pub open spec fn is_status(code: u16) -> bool {
    100 <= code <= 999
}

/// The codes that report success.
pub open spec fn is_success_status(code: u16) -> bool {
    200 <= code <= 299
}

/// The customary words for a status code.
pub uninterp spec fn reason_phrase(code: u16) -> Seq<char>;

/// How a status is shown: the code and the words for it.
pub open spec fn status_shown(code: u16) -> Seq<char> {
    decimal(code as nat) + seq![' '] + reason_phrase(code)
}

/// Shows a status: `reqwest::StatusCode`, made by `from_u16` and written out.
///
/// Claimed of it: codes of three digits make a status, which is written as the
/// code in decimal, a space and words that the code alone decides.
#[verifier::external_body]
pub(crate) fn status_text(code: u16) -> (r: String)
    requires
        is_status(code),
    ensures
        r@ == decimal(code as nat) + seq![' '] + reason_phrase(code),
{
    reqwest::StatusCode::from_u16(code).unwrap().to_string()
}

/// Whether a status reports success.
pub fn is_success(code: u16) -> (r: bool)
    ensures
        r == is_success_status(code),
{
    200 <= code && code <= 299
}

// --------------------------------------------------------------------- laws

/// The codes that report success are the two hundreds.
pub proof fn law_success_is_in_the_two_hundreds(code: u16)
    ensures
        is_success_status(code) <==> code / 100 == 2,
{
}

/// The codes that an answer can carry are those of three digits.
pub proof fn law_status_has_three_digits(code: u16)
    ensures
        is_status(code) <==> decimal(code as nat).len() == 3,
{
    reveal_with_fuel(decimal, 5);
}

/// A status is shown with its code in front, and a space behind that.
pub proof fn law_status_is_shown_with_its_code(code: u16)
    requires
        is_status(code),
    ensures
        number_written(status_shown(code).take(3)) == code,
        status_shown(code)[3] == ' ',
        status_shown(code).skip(4) == reason_phrase(code),
{
    law_status_has_three_digits(code);
    law_decimal_stands_for_its_number(code as nat);
    assert(status_shown(code).take(3) =~= decimal(code as nat));
    assert(status_shown(code).skip(4) =~= reason_phrase(code));
}

} // verus!
