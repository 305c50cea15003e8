//! The random source of the search, and the draws that the search makes from it.

use rand::distributions::Distribution;
use rand::distributions::WeightedIndex;
use rand::rngs::StdRng;
use rand::seq::SliceRandom;
use rand::Rng;
use vstd::prelude::*;

verus! {

/// The generator of `rand` that a seed determines.
#[verifier::external_type_specification]
#[verifier::external_body]
pub struct ExStdRng(StdRng);

/// The sum of the weights.
pub open spec fn total_weight(weights: Seq<usize>) -> nat
    decreases weights.len(),
{
    if weights.len() == 0 {
        0
    } else {
        total_weight(weights.drop_last()) + weights.last() as nat
    }
}

/// Whether a weighted draw can be made: there is a weight, not all weights
/// are zero, and their sum is a machine number.
pub open spec fn drawable(weights: Seq<usize>) -> bool {
    weights.len() > 0 && 0 < total_weight(weights) <= usize::MAX
}

/// Draws an index with `rand::distributions::WeightedIndex`: `new` on
/// the weights, then `sample`. The contract claims that the index lies
/// within the weights and that its weight is not zero; it leaves out the
/// weights for which `WeightedIndex::new` fails or its sum overflows.
#[verifier::external_body]
fn draw_weighted(rng: &mut StdRng, weights: &Vec<usize>) -> (index: usize)
    requires
        drawable(weights@),
    ensures
        index < weights@.len(),
        weights@[index as int] > 0,
{
    WeightedIndex::new(weights.iter()).unwrap().sample(rng)
}

/// Flips a fair coin with `rand::Rng::gen_ratio`, one in two. Nothing is claimed of the outcome.
#[verifier::external_body]
fn draw_coin(rng: &mut StdRng) -> bool {
    rng.gen_ratio(1, 2)
}

/// Reorders the items with `rand::seq::SliceRandom::shuffle`, which only swaps them:
/// the contract claims that the same items are there afterwards, each as
/// often as before.
#[verifier::external_body]
fn draw_order<T>(rng: &mut StdRng, items: &mut Vec<T>)
    ensures
        final(items)@.to_multiset() == old(items)@.to_multiset(),
{
    items.shuffle(rng)
}

/// Adds the weights up, as long as the sum is a machine number.
pub fn sum_weights(weights: &Vec<usize>) -> (r: Option<usize>)
    ensures
        total_weight(weights@) <= usize::MAX ==> r == Some(total_weight(weights@) as usize),
        total_weight(weights@) > usize::MAX ==> r is None,
{
    let mut total: usize = 0;
    let mut i: usize = 0;
    while i < weights.len()
        invariant
            i <= weights@.len(),
            total == total_weight(weights@.take(i as int)),
        decreases weights@.len() - i,
    {
        proof {
            assert(weights@.take(i as int + 1).drop_last() == weights@.take(i as int));
            lemma_total_weight_grows(weights@, i as int + 1);
        }
        if weights[i] > usize::MAX - total {
            return None;
        }
        total = total + weights[i];
        i = i + 1;
    }
    proof {
        assert(weights@.take(i as int) == weights@);
    }
    Some(total)
}

/// The sum of a part from the start is at most the sum of the whole.
pub proof fn lemma_total_weight_grows(weights: Seq<usize>, n: int)
    requires
        0 <= n <= weights.len(),
    ensures
        total_weight(weights.take(n)) <= total_weight(weights),
    decreases weights.len(),
{
    if n == weights.len() {
        assert(weights.take(n) == weights);
    } else {
        assert(weights.drop_last().take(n) == weights.take(n));
        lemma_total_weight_grows(weights.drop_last(), n);
    }
}

/// Where every weight is at least `least` and at most `most`, their sum
/// is at least `least` and at most `most` for each of them.
pub proof fn lemma_total_weight_bounds(weights: Seq<usize>, least: nat, most: nat)
    requires
        forall|i: int| 0 <= i < weights.len() ==> least <= #[trigger] weights[i] <= most,
    ensures
        least * weights.len() <= total_weight(weights) <= most * weights.len(),
    decreases weights.len(),
{
    if weights.len() > 0 {
        let rest = weights.drop_last();
        lemma_total_weight_bounds(rest, least, most);
        assert(least * weights.len() == least * rest.len() + least) by (nonlinear_arith)
            requires
                weights.len() == rest.len() + 1,
        ;
        assert(most * weights.len() == most * rest.len() + most) by (nonlinear_arith)
            requires
                weights.len() == rest.len() + 1,
        ;
    }
}

/// Picks an index by its weight: one of positive weight, or none where no
/// weighted draw can be made.
pub fn weighted(rng: &mut StdRng, weights: &Vec<usize>) -> (r: Option<usize>)
    ensures
        drawable(weights@) ==> (r matches Some(index) && index < weights@.len()
            && weights@[index as int] > 0),
        !drawable(weights@) ==> r is None,
{
    if weights.len() == 0 {
        return None;
    }
    match sum_weights(weights) {
        Some(total) => {
            if total == 0 {
                None
            } else {
                Some(draw_weighted(rng, weights))
            }
        },
        None => None,
    }
}

/// Flips a fair coin.
pub fn is_head_not_tails(rng: &mut StdRng) -> bool {
    draw_coin(rng)
}

/// Brings the items into a random order. No item is lost and none is added.
pub fn shuffle<T>(rng: &mut StdRng, items: &mut Vec<T>)
    ensures
        final(items)@.to_multiset() == old(items)@.to_multiset(),
        final(items)@.len() == old(items)@.len(),
{
    draw_order(rng, items);
    proof {
        old(items)@.to_multiset_ensures();
        final(items)@.to_multiset_ensures();
    }
}

} // verus!
