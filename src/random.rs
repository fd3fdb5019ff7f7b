//! The source of randomness.
use vstd::prelude::*;

verus! {

/// Relies on `rand::random_range`: a draw from the inclusive range
/// `lo..=hi`; it panics only when that range is empty.
#[verifier::external_body]
pub(crate) fn draw(lo: usize, hi: usize) -> (r: usize)
    requires
        lo <= hi,
    ensures
        lo <= r <= hi,
{
    rand::random_range(lo..=hi)
}

} // verus!
