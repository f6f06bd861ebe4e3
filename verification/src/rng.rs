//! The single pseudo-random source that piece generation draws from.
//! The generator itself comes from the `rand` crate; the library only
//! relies on the documented range of each draw, never on any particular
//! outcome.

use rand::Rng;
use vstd::prelude::*;

verus! {

#[verifier::external_type_specification]
#[verifier::external_body]
pub struct ExStdRng(rand::rngs::StdRng);

/// Relies on rand's `Rng::gen_range` over `0..n`: the sample lies in
/// that range. `gen_range` panics on an empty range, so `n` must be
/// positive.
#[verifier::external_body]
pub(crate) fn rand_below(rng: &mut rand::rngs::StdRng, n: usize) -> (r: usize)
    requires
        0 < n,
    ensures
        r < n,
{
    rng.gen_range(0..n)
}

} // verus!
