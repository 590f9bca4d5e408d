use vstd::prelude::*;
use rand::Rng;
use rand_chacha::ChaCha8Rng;
use spacetimedb::Identity;

verus! {

#[verifier::external_type_specification]
#[verifier::external_body]
pub struct ExIdentity(spacetimedb::Identity);

/// Compares two identities with `spacetimedb::Identity`'s `==`.
///
/// `Identity` derives `PartialEq` over its single 256-bit field, so the
/// comparison is equality of the two values.
#[verifier::external_body]
pub(crate) fn same_identity(a: &Identity, b: &Identity) -> (r: bool)
    ensures
        r == (*a == *b),
{
    *a == *b
}

#[verifier::external_type_specification]
#[verifier::external_body]
pub struct ExChaCha8Rng(rand_chacha::ChaCha8Rng);

/// `Rng::gen_range(0..len)` over `usize`: an index below `len`, drawn from the
/// generator (which panics on an empty range, hence `len > 0`).
#[verifier::external_body]
pub(crate) fn random_index(rng: &mut ChaCha8Rng, len: usize) -> (r: usize)
    requires
        len > 0,
    ensures
        r < len,
{
    rng.gen_range(0..len)
}

/// `Rng::gen_range(low..high)` over `i32`: a value in the half-open range,
/// drawn from the generator (which panics on an empty range).
#[verifier::external_body]
pub(crate) fn random_i32(rng: &mut ChaCha8Rng, low: i32, high: i32) -> (r: i32)
    requires
        low < high,
    ensures
        low <= r < high,
{
    rng.gen_range(low..high)
}

/// `Rng::gen_range(low..high)` over `u64`: a value in the half-open range,
/// drawn from the generator (which panics on an empty range).
#[verifier::external_body]
pub(crate) fn random_u64(rng: &mut ChaCha8Rng, low: u64, high: u64) -> (r: u64)
    requires
        low < high,
    ensures
        low <= r < high,
{
    rng.gen_range(low..high)
}

} // verus!
