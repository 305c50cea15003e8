//! Dominance between fitness vectors.
//!
//! A fitness vector holds one double per objective term, each by its bit
//! pattern; a smaller value is the better one.

use crate::comparison::{
    compare_floats, fitness_order, float_order, lemma_order_antisymmetric,
    lemma_order_transitive, order_floats, order_for, to_ordering, Order,
};
use std::cmp::Ordering;
use vstd::prelude::*;

verus! {

/// Whether `a` is better than `b` on at least one term.
pub open spec fn better_somewhere(a: Seq<u64>, b: Seq<u64>) -> bool {
    exists|i: int| 0 <= i < a.len() && i < b.len() && #[trigger] float_order(a[i], b[i]) == Ordering::Less
}

/// Whether `a` is worse than `b` on at least one term.
pub open spec fn worse_somewhere(a: Seq<u64>, b: Seq<u64>) -> bool {
    exists|i: int|
        0 <= i < a.len() && i < b.len() && #[trigger] float_order(a[i], b[i]) == Ordering::Greater
}

/// `a` dominates `b`: no worse on any term and better on at least one.
pub open spec fn dominates(a: Seq<u64>, b: Seq<u64>) -> bool {
    better_somewhere(a, b) && !worse_somewhere(a, b)
}

/// The dominance order of two fitness vectors: `Less` where the first
/// dominates, `Greater` where the second does, `Equal` where neither does.
pub open spec fn dominance(a: Seq<u64>, b: Seq<u64>) -> Ordering {
    if better_somewhere(a, b) && !worse_somewhere(a, b) {
        Ordering::Less
    } else if worse_somewhere(a, b) && !better_somewhere(a, b) {
        Ordering::Greater
    } else {
        Ordering::Equal
    }
}

/// Calculates the dominance order of two fitness vectors. Terms beyond the
/// shorter vector's end are not compared.
pub fn compare_fitness(a: &Vec<u64>, b: &Vec<u64>) -> (r: Ordering)
    ensures
        r == dominance(a@, b@),
{
    let mut has_less: bool = false;
    let mut has_greater: bool = false;
    let mut i: usize = 0;
    while i < a.len() && i < b.len()
        invariant
            has_less <==> exists|k: int|
                0 <= k < i && k < a@.len() && k < b@.len() && #[trigger] float_order(a@[k], b@[k])
                    == Ordering::Less,
            has_greater <==> exists|k: int|
                0 <= k < i && k < a@.len() && k < b@.len() && #[trigger] float_order(a@[k], b@[k])
                    == Ordering::Greater,
            i <= a@.len(),
            i <= b@.len(),
        decreases a@.len() - i,
    {
        match compare_floats(a[i], b[i]) {
            Ordering::Less => {
                has_less = true;
            },
            Ordering::Greater => {
                has_greater = true;
            },
            Ordering::Equal => {},
        }
        i = i + 1;
    }
    if has_less && !has_greater {
        Ordering::Less
    } else if has_greater && !has_less {
        Ordering::Greater
    } else {
        Ordering::Equal
    }
}

/// Tells whether the first fitness vector dominates the second.
pub fn is_dominating(a: &Vec<u64>, b: &Vec<u64>) -> (r: bool)
    ensures
        r == dominates(a@, b@),
{
    match compare_fitness(a, b) {
        Ordering::Less => true,
        _ => false,
    }
}

/// No fitness vector dominates itself.
pub proof fn lemma_dominates_irreflexive(a: Seq<u64>)
    ensures
        !dominates(a, a),
{
}

/// Swapping the arguments of the dominance order reverses it.
pub proof fn lemma_dominance_antisymmetric(a: Seq<u64>, b: Seq<u64>)
    ensures
        better_somewhere(a, b) <==> worse_somewhere(b, a),
        dominance(a, b) == Ordering::Less <==> dominance(b, a) == Ordering::Greater,
        dominance(a, b) == Ordering::Equal <==> dominance(b, a) == Ordering::Equal,
{
    assert(better_somewhere(a, b) <==> worse_somewhere(b, a)) by {
        if better_somewhere(a, b) {
            let i = choose|i: int|
                0 <= i < a.len() && i < b.len() && #[trigger] float_order(a[i], b[i])
                    == Ordering::Less;
            lemma_order_antisymmetric(a[i], b[i]);
            assert(float_order(b[i], a[i]) == Ordering::Greater);
        }
        if worse_somewhere(b, a) {
            let i = choose|i: int|
                0 <= i < b.len() && i < a.len() && #[trigger] float_order(b[i], a[i])
                    == Ordering::Greater;
            lemma_order_antisymmetric(a[i], b[i]);
            assert(float_order(a[i], b[i]) == Ordering::Less);
        }
    }
    assert(worse_somewhere(a, b) <==> better_somewhere(b, a)) by {
        if worse_somewhere(a, b) {
            let i = choose|i: int|
                0 <= i < a.len() && i < b.len() && #[trigger] float_order(a[i], b[i])
                    == Ordering::Greater;
            lemma_order_antisymmetric(b[i], a[i]);
            assert(float_order(b[i], a[i]) == Ordering::Less);
        }
        if better_somewhere(b, a) {
            let i = choose|i: int|
                0 <= i < b.len() && i < a.len() && #[trigger] float_order(b[i], a[i])
                    == Ordering::Less;
            lemma_order_antisymmetric(b[i], a[i]);
            assert(float_order(a[i], b[i]) == Ordering::Greater);
        }
    }
}

/// Of two fitness vectors at most one dominates the other.
pub proof fn lemma_dominates_asymmetric(a: Seq<u64>, b: Seq<u64>)
    ensures
        dominates(a, b) ==> !dominates(b, a),
{
    lemma_dominance_antisymmetric(a, b);
}

/// Dominance is transitive on fitness vectors of one length.
pub proof fn lemma_dominates_transitive(a: Seq<u64>, b: Seq<u64>, c: Seq<u64>)
    requires
        a.len() == b.len(),
        b.len() == c.len(),
        dominates(a, b),
        dominates(b, c),
    ensures
        dominates(a, c),
{
    let i = choose|i: int|
        0 <= i < a.len() && i < b.len() && #[trigger] float_order(a[i], b[i]) == Ordering::Less;
    assert(float_order(b[i], c[i]) != Ordering::Greater);
    lemma_order_transitive(a[i], b[i], c[i]);
    assert(float_order(a[i], c[i]) == Ordering::Less);
    assert forall|k: int| 0 <= k < a.len() && k < c.len() implies #[trigger] float_order(
        a[k],
        c[k],
    ) != Ordering::Greater by {
        assert(float_order(a[k], b[k]) != Ordering::Greater);
        assert(float_order(b[k], c[k]) != Ordering::Greater);
        lemma_order_transitive(a[k], b[k], c[k]);
    }
}

/// An *objective* gives the fitness of a solution: a double, by its bit
/// pattern, where a smaller value is the better one. It orders any two
/// solutions; unless it says otherwise, by their fitness.
pub trait Objective {
    /// The solution value type that the objective is defined on.
    type Solution;

    /// Whether `value` may be the fitness of the solution. An objective
    /// may say of itself which value it gives.
    open spec fn is_fitness(&self, solution: &Self::Solution, value: u64) -> bool {
        true
    }

    /// Whether `order` may be how solution `a` stands to solution `b`:
    /// as a fitness of `a` stands to a fitness of `b`. An objective that
    /// orders otherwise says so here.
    open spec fn may_order(&self, a: &Self::Solution, b: &Self::Solution, order: Order) -> bool {
        exists|fitness_a: u64, fitness_b: u64|
            self.is_fitness(a, fitness_a) && self.is_fitness(b, fitness_b) && order
                == #[trigger] fitness_order(fitness_a, fitness_b)
    }

    /// An objective fitness value for given `solution`.
    fn fitness(&self, solution: &Self::Solution) -> (r: u64)
        ensures
            self.is_fitness(solution, r),
    ;

    /// An objective defines a total ordering between any two solution
    /// values: is solution `a` better, equal or worse than solution `b`.
    /// An objective that orders by fitness gives what `order_by_fitness` gives.
    fn total_order(&self, a: &Self::Solution, b: &Self::Solution) -> (r: Order)
        ensures
            self.may_order(a, b, r),
    ;
}

/// Orders two solutions by their fitness: what an objective does that
/// does not order otherwise.
pub fn order_by_fitness<O: Objective>(objective: &O, a: &O::Solution, b: &O::Solution) -> (r: Order)
    ensures
        exists|fitness_a: u64, fitness_b: u64|
            objective.is_fitness(a, fitness_a) && objective.is_fitness(b, fitness_b) && r
                == #[trigger] fitness_order(fitness_a, fitness_b),
{
    let fitness_a = objective.fitness(a);
    let fitness_b = objective.fitness(b);
    let r = order_floats(fitness_a, fitness_b);
    proof {
        assert(r == fitness_order(fitness_a, fitness_b));
    }
    r
}

/// A multi objective: an objective that is made of several.
pub trait MultiObjective: Objective {
    /// The type of the objectives that it is made of.
    type Term: Objective<Solution = Self::Solution>;

    /// Returns the objectives that it is made of.
    fn objectives(&self) -> &Vec<Self::Term>;
}

/// Whether the vector may be the fitness vector of a solution: its
/// fitness by each of the objectives, in their order.
pub open spec fn is_fitness_vector<O: Objective>(
    objectives: Seq<O>,
    solution: &O::Solution,
    fitness: Seq<u64>,
) -> bool {
    &&& fitness.len() == objectives.len()
    &&& forall|i: int|
        0 <= i < objectives.len() ==> (#[trigger] objectives[i]).is_fitness(solution, fitness[i])
}

/// Whether the orders may be how solution `a` stands to solution `b` by
/// each of the objectives, in their order.
pub open spec fn are_orders<O: Objective>(
    objectives: Seq<O>,
    a: &O::Solution,
    b: &O::Solution,
    orders: Seq<Order>,
) -> bool {
    &&& orders.len() == objectives.len()
    &&& forall|i: int|
        0 <= i < objectives.len() ==> (#[trigger] objectives[i]).may_order(a, b, orders[i])
}

/// Whether one of the orders is `order`.
pub open spec fn has_order(orders: Seq<Order>, order: Order) -> bool {
    exists|i: int| 0 <= i < orders.len() && #[trigger] orders[i] == order
}

/// The dominance that orders by several objectives stand for: the first
/// dominates where it is less by one objective and greater by none, the
/// second where it is the other way round, and neither otherwise.
pub open spec fn dominance_by(orders: Seq<Order>) -> Order {
    if has_order(orders, Order::Less) && !has_order(orders, Order::Greater) {
        Order::Less
    } else if has_order(orders, Order::Greater) && !has_order(orders, Order::Less) {
        Order::Greater
    } else {
        Order::Equal
    }
}

/// Where each objective orders by fitness, the dominance by the
/// objectives is the dominance of the fitness vectors.
pub proof fn lemma_dominance_by_fitness(orders: Seq<Order>, a: Seq<u64>, b: Seq<u64>)
    requires
        a.len() == orders.len(),
        b.len() == orders.len(),
        forall|i: int| 0 <= i < orders.len() ==> #[trigger] orders[i] == fitness_order(a[i], b[i]),
    ensures
        dominance_by(orders) == order_for(dominance(a, b)),
{
    if has_order(orders, Order::Less) {
        let i = choose|i: int| 0 <= i < orders.len() && #[trigger] orders[i] == Order::Less;
        assert(float_order(a[i], b[i]) == Ordering::Less);
    }
    if has_order(orders, Order::Greater) {
        let i = choose|i: int| 0 <= i < orders.len() && #[trigger] orders[i] == Order::Greater;
        assert(float_order(a[i], b[i]) == Ordering::Greater);
    }
    if better_somewhere(a, b) {
        let i = choose|i: int|
            0 <= i < a.len() && i < b.len() && #[trigger] float_order(a[i], b[i]) == Ordering::Less;
        assert(orders[i] == Order::Less);
    }
    if worse_somewhere(a, b) {
        let i = choose|i: int|
            0 <= i < a.len() && i < b.len() && #[trigger] float_order(a[i], b[i])
                == Ordering::Greater;
        assert(orders[i] == Order::Greater);
    }
}

/// Tells whether solution `a` is better, equal or worse than solution
/// `b`, according to the objective.
pub fn total_order<O: Objective>(objective: &O, a: &O::Solution, b: &O::Solution) -> (r: Ordering)
    ensures
        objective.may_order(a, b, order_for(r)),
{
    to_ordering(objective.total_order(a, b))
}

/// Computes the fitness vector of a solution.
pub fn fitness_vector<O: Objective>(objectives: &Vec<O>, solution: &O::Solution) -> (r: Vec<u64>)
    ensures
        is_fitness_vector(objectives@, solution, r@),
{
    let mut fitness: Vec<u64> = Vec::new();
    let mut i: usize = 0;
    while i < objectives.len()
        invariant
            i <= objectives@.len(),
            fitness@.len() == i,
            forall|k: int|
                0 <= k < i ==> (#[trigger] objectives@[k]).is_fitness(solution, fitness@[k]),
        decreases objectives@.len() - i,
    {
        fitness.push(objectives[i].fitness(solution));
        i = i + 1;
    }
    fitness
}

/// Calculates dominance order of two solutions using multiple
/// objectives: each objective orders the two, and the first solution
/// dominates where it is less by one objective and greater by none.
pub fn dominance_order<O: Objective>(a: &O::Solution, b: &O::Solution, objectives: &Vec<O>) -> (r:
    Ordering)
    ensures
        exists|orders: Seq<Order>| #[trigger]
            are_orders(objectives@, a, b, orders) && order_for(r) == dominance_by(orders),
{
    let ghost mut orders: Seq<Order> = Seq::empty();
    let mut less_cnt: usize = 0;
    let mut greater_cnt: usize = 0;
    let mut i: usize = 0;
    while i < objectives.len()
        invariant
            i <= objectives@.len(),
            orders.len() == i,
            forall|k: int| 0 <= k < i ==> (#[trigger] objectives@[k]).may_order(a, b, orders[k]),
            less_cnt <= i,
            greater_cnt <= i,
            less_cnt > 0 <==> has_order(orders, Order::Less),
            greater_cnt > 0 <==> has_order(orders, Order::Greater),
        decreases objectives@.len() - i,
    {
        let order = objectives[i].total_order(a, b);
        let ghost before = orders;
        proof {
            orders = orders.push(order);
            let at = i + 0;
            assert(orders[at] == order);
            assert forall|k: int| 0 <= k < i + 1 implies (#[trigger] objectives@[k]).may_order(
                a,
                b,
                orders[k],
            ) by {
                if k < i {
                    assert(orders[k] == before[k]);
                }
            }
            assert(has_order(orders, Order::Less) <==> (has_order(before, Order::Less) || order
                == Order::Less)) by {
                if has_order(before, Order::Less) {
                    let w = choose|w: int| 0 <= w < before.len() && #[trigger] before[w] == Order::Less;
                    assert(orders[w] == Order::Less);
                }
                if has_order(orders, Order::Less) {
                    let w = choose|w: int| 0 <= w < orders.len() && #[trigger] orders[w] == Order::Less;
                    if w < i {
                        assert(before[w] == Order::Less);
                    }
                }
            }
            assert(has_order(orders, Order::Greater) <==> (has_order(before, Order::Greater)
                || order == Order::Greater)) by {
                if has_order(before, Order::Greater) {
                    let w = choose|w: int|
                        0 <= w < before.len() && #[trigger] before[w] == Order::Greater;
                    assert(orders[w] == Order::Greater);
                }
                if has_order(orders, Order::Greater) {
                    let w = choose|w: int|
                        0 <= w < orders.len() && #[trigger] orders[w] == Order::Greater;
                    if w < i {
                        assert(before[w] == Order::Greater);
                    }
                }
            }
        }
        match order {
            Order::Less => {
                less_cnt = less_cnt + 1;
            },
            Order::Greater => {
                greater_cnt = greater_cnt + 1;
            },
            Order::Equal => {},
        }
        i = i + 1;
    }
    let r = if less_cnt > 0 && greater_cnt == 0 {
        Ordering::Less
    } else if greater_cnt > 0 && less_cnt == 0 {
        Ordering::Greater
    } else {
        Ordering::Equal
    };
    proof {
        assert(are_orders(objectives@, a, b, orders));
    }
    r
}

} // verus!
