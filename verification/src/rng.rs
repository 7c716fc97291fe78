//! The one randomness source of the simulation: an integer drawn from a
//! half-open range. Spawn placement and bullet spread take the drawn
//! values as plain integers and are verified for every possible draw.

use vstd::prelude::*;

verus! {

/// Relies on `rand::Rng::gen_range` on a `Range<i64>`: it returns a
/// value of the given half-open range, and panics only on an empty
/// range, which the precondition rules out. Nothing more is assumed:
/// callers are verified for every value of the range.
#[verifier::external_body]
pub(crate) fn rand_range_i64(lo: i64, hi: i64) -> (r: i64)
    requires
        lo < hi,
    ensures
        lo <= r < hi,
{
    rand::Rng::gen_range(&mut rand::thread_rng(), lo..hi)
}

} // verus!
