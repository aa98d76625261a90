//! The simulation's sources of randomness, behind trusted wrappers.

use vstd::prelude::*;

verus! {

/// Relies on `rand::Rng::gen_range` over the inclusive range `lo..=hi`:
/// the result lies within that range. It panics only on an empty range,
/// which the precondition rules out.
#[verifier::external_body]
pub(crate) fn sample_in_range(lo: u16, hi: u16) -> (r: u16)
    requires
        lo <= hi,
    ensures
        lo <= r <= hi,
{
    rand::Rng::gen_range(&mut rand::thread_rng(), lo..=hi)
}

/// Relies on `rand::random::<bool>`: a fresh random draw, of which nothing
/// is promised.
#[verifier::external_body]
pub(crate) fn sample_bool() -> bool {
    rand::random::<bool>()
}

/// Relies on `uuid::Uuid::new_v4`: a randomly generated version-4 UUID,
/// read back as its 128-bit value. Nothing is promised of the draw;
/// callers that need distinctness check it themselves.
#[verifier::external_body]
pub(crate) fn fresh_token() -> u128 {
    uuid::Uuid::new_v4().as_u128()
}

} // verus!
