//! Drawing at random.

use rand::distributions::{Distribution, Uniform};
use vstd::prelude::*;

verus! {

/// Draws a whole number below `n`, every one with the same chance.
///
/// Trusted: the body samples `rand`'s `Uniform` over `0..n` with the thread's
/// generator. `Uniform` refuses an empty range, so `n` must be positive; what
/// it hands back lies in the range. Two calls may differ, so nothing more is
/// claimed of the result.
#[verifier::external_body]
pub(crate) fn uniform_below(n: usize) -> (r: usize)
    requires
        n > 0,
    ensures
        r < n,
{
    let mut rng = rand::thread_rng();
    Uniform::from(0..n).sample(&mut rng)
}

} // verus!
