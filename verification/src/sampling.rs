//! Weighted random choice, through `rand`'s `WeightedIndex`.

use vstd::prelude::*;

use rand::distributions::{Distribution, WeightedError, WeightedIndex};
use rand::rngs::StdRng;

verus! {

/// `rand`'s standard seedable generator, carried through opaquely.
#[verifier::external_type_specification]
#[verifier::external_body]
pub struct ExStdRng(StdRng);

/// Why `rand` refused to build a weighted distribution.
#[verifier::external_type_specification]
#[verifier::external_body]
pub struct ExWeightedError(WeightedError);

/// A distribution over the indices of a list of `u128` weights: `rand`'s
/// `WeightedIndex`, held in a private field. Verified code sees it only
/// through `weighted_choice_weights`, the weights it was built from.
#[verifier::external_body]
pub struct WeightedChoice {
    dist: WeightedIndex<u128>,
}

/// The sum of `ws`.
pub open spec fn total(ws: Seq<u128>) -> int
    decreases ws.len(),
{
    if ws.len() == 0 {
        0
    } else {
        total(ws.drop_last()) + ws.last()
    }
}

/// The weights a `WeightedChoice` was built from, in order.
pub uninterp spec fn weighted_choice_weights(d: WeightedChoice) -> Seq<u128>;

/// Calls `rand::distributions::WeightedIndex::new` on `weights`.
///
/// From its source (rand 0.8.8): it fails with `NoItem` on an empty list and
/// with `AllWeightsZero` when the weights add up to zero (an unsigned weight
/// is never `InvalidWeight`); otherwise it succeeds and keeps the weights
/// as cumulative sums. The running sum is computed in `u128`, so the weights
/// must add up to at most `u128::MAX`.
#[verifier::external_body]
pub fn weighted_index(weights: &Vec<u128>) -> (r: Result<WeightedChoice, WeightedError>)
    requires
        total(weights@) <= u128::MAX,
    ensures
        r is Ok <==> (weights@.len() > 0 && total(weights@) > 0),
        r matches Ok(d) ==> weighted_choice_weights(d) == weights@,
{
    match WeightedIndex::new(weights.iter()) {
        Ok(dist) => Ok(WeightedChoice { dist }),
        Err(e) => Err(e),
    }
}

/// Calls `Distribution::sample` of a `WeightedIndex` with `rng`.
///
/// From its source (rand 0.8.8): it draws a value uniformly below the total
/// weight and returns the first index whose cumulative weight exceeds it;
/// that index is in range and its weight is not zero. Which index comes out
/// depends on the generator's state, and is left unsaid.
#[verifier::external_body]
pub fn sample_index(d: &WeightedChoice, rng: &mut StdRng) -> (i: usize)
    ensures
        i < weighted_choice_weights(*d).len(),
        weighted_choice_weights(*d)[i as int] > 0,
{
    d.dist.sample(rng)
}

} // verus!
