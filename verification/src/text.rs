//! Joining strings.

use vstd::prelude::*;

verus! {

/// Three strings, one after the other: `concat` of std on a slice of them,
/// which gives the characters of the first, then those of the second, then
/// those of the third.
#[verifier::external_body]
pub(crate) fn join3(a: &str, b: &str, c: &str) -> (joined: String)
    ensures
        joined@ == a@ + b@ + c@,
{
    [a, b, c].concat()
}

} // verus!
