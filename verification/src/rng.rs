//! The randomness boundary: every draw the engine makes goes through the
//! trusted wrappers here, so that all the logic around them is verified
//! for every value a draw can produce.

use vstd::prelude::*;

use rand::distributions::Distribution;
use rand::distributions::WeightedIndex;
use rand::rngs::StdRng;
use rand::Rng;

verus! {

#[verifier::external_type_specification]
#[verifier::external_body]
pub struct ExStdRng(StdRng);

/// A fitness-proportionate sampler: rand's `WeightedIndex` over unsigned
/// weights. Verus cannot declare that type's own trait bounds, so it is
/// held opaquely in a private field.
#[verifier::external_body]
pub struct GenePool {
    inner: WeightedIndex<u64>,
}

/// The weight list a gene pool was built from.
pub uninterp spec fn pool_weights(pool: GenePool) -> Seq<u64>;

/// The sum of a sequence of weights.
pub open spec fn sum_weights(s: Seq<u64>) -> int
    decreases s.len(),
{
    if s.len() == 0 {
        0
    } else {
        sum_weights(s.drop_last()) + s.last()
    }
}

/// Relies on rand's `Rng::gen_range` on `0..100`: a uniform draw below
/// one hundred.
#[verifier::external_body]
pub(crate) fn rng_roll_100(rng: &mut StdRng) -> (r: u32)
    ensures
        r < 100,
{
    rng.gen_range(0..100u32)
}

/// Relies on rand's `Rng::gen_range` on `0..n`: a uniform index below
/// `n`. The range must not be empty, or the call would panic.
#[verifier::external_body]
pub(crate) fn rng_index(rng: &mut StdRng, n: usize) -> (r: usize)
    requires
        n > 0,
    ensures
        r < n,
{
    rng.gen_range(0..n)
}

/// Relies on rand's `WeightedIndex::new`: over unsigned weights it fails
/// exactly on an empty list or an all-zero total, and otherwise remembers
/// the weights it was given. The total must fit in the weight type, or
/// the summation inside the call could overflow.
#[verifier::external_body]
pub(crate) fn pool_new(weights: &Vec<u64>) -> (r: Option<GenePool>)
    requires
        sum_weights(weights@) <= u64::MAX,
    ensures
        r is Some <==> (weights@.len() > 0 && sum_weights(weights@) > 0),
        r matches Some(pool) ==> pool_weights(pool) == weights@,
{
    match WeightedIndex::new(weights) {
        Ok(inner) => Some(GenePool { inner }),
        Err(_) => None,
    }
}

/// Relies on rand's `WeightedIndex` sampling: the draw indexes the weight
/// list the pool was built from and never lands on a zero weight.
#[verifier::external_body]
pub(crate) fn pool_sample(pool: &GenePool, rng: &mut StdRng) -> (r: usize)
    ensures
        r < pool_weights(*pool).len(),
        pool_weights(*pool)[r as int] > 0,
{
    pool.inner.sample(rng)
}

} // verus!
