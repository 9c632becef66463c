//! What the assembler needs of strings and `vstd` does not offer.

use vstd::prelude::*;

verus! {

/// Calls `str`'s `==`. Believed: two strings are equal exactly when they hold
/// the same characters in the same order.
#[verifier::external_body]
pub(crate) fn str_eq(a: &str, b: &str) -> (same: bool)
    ensures
        same == (a@ == b@),
{
    a == b
}

} // verus!
