//! Randomness, through a caller-supplied seedable generator.
//!
//! Every stage of the pipeline draws from a `rand::rngs::StdRng` handed in by
//! the caller, so a fixed seed reproduces a run. The single trusted call is
//! uniform sampling below a bound; the ranges and coin flips the stages need
//! are derived from it in verified code.

use rand::Rng;
use rand::rngs::StdRng;
use vstd::prelude::*;

verus! {

/// rand's standard seedable generator, declared so that handles to it can
/// cross the verified boundary.
#[verifier::external_type_specification]
#[verifier::external_body]
pub struct ExStdRng(StdRng);

/// Relies on rand::Rng::gen_range over the half-open range 0..n: it panics on
/// an empty range, and otherwise returns a uniformly sampled value of the
/// range. Nothing relates two calls: every outcome below n is possible.
#[verifier::external_body]
pub(crate) fn rand_below(rng: &mut StdRng, n: u32) -> (r: u32)
    requires
        1 <= n,
    ensures
        r < n,
{
    rng.gen_range(0..n)
}

/// A uniform sample of [lo, hi).
pub(crate) fn rand_in_range(rng: &mut StdRng, lo: u32, hi: u32) -> (r: u32)
    requires
        lo < hi,
    ensures
        lo <= r < hi,
{
    lo + rand_below(rng, hi - lo)
}

/// A coin flip that comes up true with probability `percent` in a hundred.
pub(crate) fn rand_chance(rng: &mut StdRng, percent: u32) -> (r: bool)
    ensures
        percent == 0 ==> !r,
        percent >= 100 ==> r,
{
    rand_below(rng, 100) < percent
}

} // verus!
