use vstd::prelude::*;

use rand::Rng;

verus! {

/// Relies on rand's Rng::random_range over an inclusive u32 range: it
/// returns a value within the given bounds and panics only when the
/// range is empty.
#[verifier::external_body]
pub(crate) fn random_u32_inclusive(lo: u32, hi: u32) -> (r: u32)
    requires
        lo <= hi,
    ensures
        lo <= r <= hi,
{
    rand::rng().random_range(lo..=hi)
}

/// Relies on rand's Rng::sample with a Uniform distribution over
/// `[0, n)`: it returns an index below `n`; building the distribution
/// fails only when the range is empty.
#[verifier::external_body]
pub(crate) fn random_index(n: usize) -> (r: usize)
    requires
        n > 0,
    ensures
        r < n,
{
    let mut rng = rand::rng();
    rng.sample(rand::distr::Uniform::new(0, n).unwrap())
}

} // verus!
