//! The source of the random draws that shape the track.

use vstd::prelude::*;
use rand::rngs::StdRng;
use rand::Rng;

verus! {

/// The seedable generator of the `rand` crate. Nothing is known of its state.
#[verifier::external_type_specification]
#[verifier::external_body]
pub struct ExStdRng(StdRng);

/// Calls `Rng::gen_range` of the `rand` crate on the inclusive range from
/// `lo` to `hi`. The call panics on an empty range, which `requires` leaves
/// out. All that is claimed of the outcome is that it lies in the range.
#[verifier::external_body]
pub(crate) fn draw_between(rng: &mut StdRng, lo: i64, hi: i64) -> (r: i64)
    requires
        lo <= hi,
    ensures
        lo <= r <= hi,
{
    rng.gen_range(lo..=hi)
}

} // verus!
