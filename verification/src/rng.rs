//! Trusted boundary to the `rand` crate: the thread-local generator and a
//! bounded index draw, the only randomness the simulation consumes.

use rand::Rng;
use vstd::prelude::*;

verus! {

/// Declares rand::rngs::ThreadRng so it can stand in signatures; values of
/// it are opaque to the verifier.
#[verifier::external_type_specification]
#[verifier::external_body]
pub struct ExThreadRng(rand::rngs::ThreadRng);

/// Relies on rand::thread_rng: returns a handle to the thread-local
/// generator, seeded by the operating system. Nothing is promised of the
/// values it will yield.
#[verifier::external_body]
pub(crate) fn new_rng() -> rand::rngs::ThreadRng {
    rand::thread_rng()
}

/// Relies on rand::Rng::gen_range over `0..n`: returns an index strictly
/// below `n`. The call panics only on an empty range, which `n > 0`
/// excludes. Which index comes back is not promised: the callers' proofs
/// hold for every outcome.
#[verifier::external_body]
pub(crate) fn rand_index(rng: &mut rand::rngs::ThreadRng, n: usize) -> (r: usize)
    requires
        n > 0,
    ensures
        r < n,
{
    rng.gen_range(0..n)
}

} // verus!
