//! The coefficient of variation as a termination criterion: the search
//! ends when the last costs differ too little from each other.
//!
//! The costs, the coefficient and the threshold are doubles, handled by
//! their bit patterns. This module keeps the window of the last costs and
//! decides; the coefficient of a window is computed by the caller.

use crate::comparison::{float_less, is_less};
use crate::evolution::{same_search, RefinementContext};
use vstd::prelude::*;

verus! {

/// Uses coefficient of variation as termination criteria.
pub struct VariationCoefficient {
    sample: usize,
    threshold: u64,
    key: String,
}

/// The window for `sample` costs where nothing has been noted: all zero.
pub open spec fn fresh_window(sample: nat) -> Seq<u64> {
    Seq::new(sample, |i: int| 0u64)
}

/// The window after the cost of a generation has been noted: a window of
/// another length than `sample` is replaced by a fresh one first, then the
/// cost is written at the place `generation mod sample`.
pub open spec fn noted(window: Seq<u64>, sample: nat, generation: nat, cost: u64) -> Seq<u64>
    recommends
        sample > 0,
{
    let base = if window.len() == sample {
        window
    } else {
        fresh_window(sample)
    };
    base.update((generation % sample) as int, cost)
}

/// The window after the costs of consecutive generations have been noted,
/// the first of them for the generation `first`.
pub open spec fn noted_all(window: Seq<u64>, sample: nat, first: nat, costs: Seq<u64>) -> Seq<u64>
    recommends
        sample > 0,
    decreases costs.len(),
{
    if costs.len() == 0 {
        window
    } else {
        noted(
            noted_all(window, sample, first, costs.drop_last()),
            sample,
            (first + costs.len() - 1) as nat,
            costs.last(),
        )
    }
}

impl VariationCoefficient {
    /// The number of costs that the window holds.
    pub closed spec fn sample(&self) -> nat {
        self.sample as nat
    }

    /// The threshold under which the coefficient ends the search.
    pub closed spec fn threshold(&self) -> u64 {
        self.threshold
    }

    /// The key under which the window is kept.
    pub closed spec fn key(&self) -> Seq<char> {
        self.key@
    }

    /// Creates a new instance of [`VariationCoefficient`].
    pub fn new(sample: usize, threshold: u64, key: &str) -> (r: Self)
        ensures
            r.sample() == sample,
            r.threshold() == threshold,
            r.key() == key@,
    {
        VariationCoefficient { sample, threshold, key: key.to_owned() }
    }

    /// The number of costs that the window holds.
    pub fn get_sample(&self) -> (r: usize)
        ensures
            r == self.sample(),
    {
        self.sample
    }

    /// The key under which the window is kept.
    pub fn get_key(&self) -> (r: &String)
        ensures
            r@ == self.key(),
    {
        &self.key
    }

    /// Notes the cost of a generation in the window, and tells whether
    /// the window is filled: whether `sample` generations have been
    /// noted, the first of them being generation 0.
    pub fn update(&self, costs: &mut Vec<u64>, generation: usize, cost: u64) -> (is_filled: bool)
        requires
            self.sample() > 0,
        ensures
            final(costs)@ == noted(old(costs)@, self.sample(), generation as nat, cost),
            is_filled == (generation >= self.sample() - 1),
    {
        if costs.len() != self.sample {
            costs.clear();
            let mut i: usize = 0;
            while i < self.sample
                invariant
                    i <= self.sample,
                    costs@.len() == i,
                    forall|k: int| 0 <= k < i ==> costs@[k] == 0u64,
                decreases self.sample - i,
            {
                costs.push(0);
                i = i + 1;
            }
            proof {
                assert(costs@ =~= fresh_window(self.sample()));
            }
        }
        let index: usize = generation % self.sample;
        costs.set(index, cost);
        generation >= self.sample - 1
    }

    /// Tells whether a coefficient of variation is below the threshold, as
    /// `<` on doubles has it.
    pub fn check_threshold(&self, coefficient: u64) -> (r: bool)
        ensures
            r == float_less(coefficient, self.threshold()),
    {
        is_less(coefficient, self.threshold)
    }

    /// Updates refinement_ctx and checks variation coefficient threshold:
    /// notes the cost of the state's generation in the window that the
    /// state keeps under the key, and decides whether the search ends.
    /// It does where the window is filled and the coefficient of variation
    /// of its costs is below the threshold. The coefficient is asked for
    /// only where the window is filled, and of the window as it is after
    /// the cost has been noted.
    pub fn update_and_check<S, Q, F: Fn(&Vec<u64>) -> u64>(
        &self,
        refinement_ctx: &mut RefinementContext<S, Q>,
        cost: u64,
        coefficient: F,
    ) -> (r: bool)
        requires
            self.sample() > 0,
            forall|window: &Vec<u64>| coefficient.requires((window,)),
        ensures
            same_search(*final(refinement_ctx), *old(refinement_ctx)),
            final(refinement_ctx).state@ == old(refinement_ctx).state@.insert(
                self.key(),
                noted(
                    window_of(old(refinement_ctx).state@, self.key()),
                    self.sample(),
                    old(refinement_ctx).generation as nat,
                    cost,
                ),
            ),
            old(refinement_ctx).generation < self.sample() - 1 ==> !r,
            old(refinement_ctx).generation >= self.sample() - 1 ==> exists|
                window: Vec<u64>,
                value: u64,
            |
                window@ == final(refinement_ctx).state@[self.key()] && #[trigger] coefficient.ensures(
                    (&window,),
                    value,
                ) && r == float_less(value, self.threshold()),
    {
        let mut costs = match refinement_ctx.state.remove(&self.key) {
            Some(window) => window,
            None => Vec::new(),
        };
        proof {
            assert(costs@ =~= window_of(old(refinement_ctx).state@, self.key()));
        }
        let is_filled = self.update(&mut costs, refinement_ctx.generation, cost);
        let ghost window = costs;
        let mut value: u64 = 0;
        let r = if is_filled {
            value = coefficient(&costs);
            self.check_threshold(value)
        } else {
            false
        };
        refinement_ctx.state.insert(self.key.clone(), costs);
        proof {
            assert(refinement_ctx.state@ =~= old(refinement_ctx).state@.insert(
                self.key(),
                window@,
            ));
            if is_filled {
                assert(coefficient.ensures((&window,), value));
            }
        }
        r
    }
}

/// The window that a state keeps under a key; an empty one where it keeps none.
pub open spec fn window_of(entries: Map<Seq<char>, Seq<u64>>, key: Seq<char>) -> Seq<u64> {
    if entries.contains_key(key) {
        entries[key]
    } else {
        Seq::empty()
    }
}

/// Noting a cost keeps the length of a window of the right length, puts
/// the cost at its place and leaves the other places alone.
pub proof fn lemma_noted(window: Seq<u64>, sample: nat, generation: nat, cost: u64)
    requires
        sample > 0,
    ensures
        noted(window, sample, generation, cost).len() == sample,
        noted(window, sample, generation, cost)[(generation % sample) as int] == cost,
        window.len() == sample ==> forall|i: int|
            0 <= i < sample && i != generation % sample ==> noted(
                window,
                sample,
                generation,
                cost,
            )[i] == window[i],
{
}

/// After the costs of at least `sample` consecutive generations have been
/// noted, the window holds the last `sample` of them, each at the place
/// of its generation.
pub proof fn lemma_window_holds_last_costs(
    window: Seq<u64>,
    sample: nat,
    first: nat,
    costs: Seq<u64>,
)
    requires
        sample > 0,
        costs.len() >= 1,
    ensures
        noted_all(window, sample, first, costs).len() == sample,
        forall|i: int|
            0 <= i < costs.len() && i >= costs.len() - sample ==> noted_all(
                window,
                sample,
                first,
                costs,
            )[((first + i) % (sample as int))] == #[trigger] costs[i],
    decreases costs.len(),
{
    let rest = costs.drop_last();
    let before = noted_all(window, sample, first, rest);
    let generation = (first + costs.len() - 1) as nat;
    lemma_noted(before, sample, generation, costs.last());
    if rest.len() >= 1 {
        lemma_window_holds_last_costs(window, sample, first, rest);
        assert forall|i: int| 0 <= i < costs.len() && i >= costs.len() - sample implies noted_all(
            window,
            sample,
            first,
            costs,
        )[((first + i) % (sample as int))] == #[trigger] costs[i] by {
            if i < costs.len() - 1 {
                assert(rest[i] == costs[i]);
                lemma_distinct_places(first as int + i, generation as int, sample as int);
            }
        }
    }
}

/// Two generations that are less than `sample` apart have different places in the window.
pub proof fn lemma_distinct_places(a: int, b: int, sample: int)
    requires
        sample > 0,
        0 <= a < b,
        b - a < sample,
    ensures
        a % sample != b % sample,
{
    assert(a % sample != b % sample) by (nonlinear_arith)
        requires
            sample > 0,
            0 <= a < b,
            b - a < sample,
    ;
}

} // verus!
