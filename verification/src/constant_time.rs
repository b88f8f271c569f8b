//! Comparison of bytes in time that does not depend on them.
use subtle::ConstantTimeEq;
use vstd::prelude::*;

verus! {

/// Calls `subtle::ConstantTimeEq::ct_eq` on two byte slices and turns the `Choice` into a
/// `bool`. It is true for equal lengths and equal bytes, and false otherwise.
#[verifier::external_body]
pub(crate) fn ct_eq(a: &[u8], b: &[u8]) -> (equal: bool)
    ensures
        equal == (a@ == b@),
{
    bool::from(a.ct_eq(b))
}

} // verus!
