//! Comparison of texts.

use vstd::prelude::*;

verus! {

/// Whether two texts hold the same characters.
///
/// Trusted. It calls `==` on `str` of the standard library, which holds when
/// the two texts are the same sequence of characters.
#[verifier::external_body]
pub(crate) fn same_text(a: &str, b: &str) -> (r: bool)
    ensures
        r == (a@ == b@),
{
    a == b
}

} // verus!
