//! Calls into the process's source of randomness.
//!
//! Nothing here is deterministic: a fresh identifier and a random index
//! differ from call to call, so the contracts state only what holds of
//! every outcome.
use vstd::prelude::*;
use rand::Rng;
use rand::SeedableRng;

verus! {

/// Relies on `uuid::Uuid::new_v4`: a randomly generated version-4 UUID,
/// read out as its 128-bit value. The result depends on the process's
/// entropy source, so nothing is promised of it.
#[verifier::external_body]
pub(crate) fn fresh_uuid() -> u128 {
    uuid::Uuid::new_v4().as_u128()
}

/// Relies on `rand::Rng::gen_range` on a freshly seeded `rand::rngs::StdRng`:
/// a uniformly distributed index drawn from `[0, len)`. It panics only on an
/// empty range, which the precondition rules out; every outcome lies below
/// `len`.
#[verifier::external_body]
pub(crate) fn random_index(len: usize) -> (r: usize)
    requires
        len > 0,
    ensures
        r < len,
{
    let mut rng = rand::rngs::StdRng::from_entropy();
    rng.gen_range(0..len)
}

} // verus!
