//! What an HTTP status means.

use vstd::prelude::*;

verus! {

/// Whether a status reports success.
pub open spec fn is_success(code: u16) -> bool {
    200 <= code < 300
}

/// Whether a status reports success.
pub fn succeeded(code: u16) -> (b: bool)
    ensures
        b == is_success(code),
{
    200 <= code && code < 300
}

/// A status reports success by its hundreds.
pub proof fn law_success_is_told_by_the_hundreds(code: u16)
    ensures
        is_success(code) <==> code / 100 == 2,
{
}

} // verus!
