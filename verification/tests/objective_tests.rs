use std::cmp::Ordering;
use vrp_core::comparison::{order_floats, to_order, to_ordering, Order};
use vrp_core::objective::{
    compare_fitness, dominance_order, fitness_vector, is_dominating, order_by_fitness,
    total_order, MultiObjective, Objective,
};

fn bits(values: &[f64]) -> Vec<u64> {
    values.iter().map(|v| v.to_bits()).collect()
}

#[test]
fn better_on_one_term_and_equal_on_the_rest_dominates() {
    assert_eq!(compare_fitness(&bits(&[1.0, 2.0, 3.0]), &bits(&[1.0, 2.5, 3.0])), Ordering::Less);
    assert_eq!(compare_fitness(&bits(&[1.0, 2.5, 3.0]), &bits(&[1.0, 2.0, 3.0])), Ordering::Greater);
}

#[test]
fn better_on_every_term_dominates() {
    assert_eq!(compare_fitness(&bits(&[0.0, 1.0]), &bits(&[1.0, 2.0])), Ordering::Less);
    assert!(is_dominating(&bits(&[0.0, 1.0]), &bits(&[1.0, 2.0])));
    assert!(!is_dominating(&bits(&[1.0, 2.0]), &bits(&[0.0, 1.0])));
}

#[test]
fn mixed_terms_do_not_dominate() {
    assert_eq!(compare_fitness(&bits(&[1.0, 3.0]), &bits(&[2.0, 2.0])), Ordering::Equal);
    assert_eq!(compare_fitness(&bits(&[2.0, 2.0]), &bits(&[1.0, 3.0])), Ordering::Equal);
    assert!(!is_dominating(&bits(&[1.0, 3.0]), &bits(&[2.0, 2.0])));
}

#[test]
fn equal_vectors_do_not_dominate() {
    assert_eq!(compare_fitness(&bits(&[1.0, 3.0]), &bits(&[1.0, 3.0])), Ordering::Equal);
    assert!(!is_dominating(&bits(&[1.0, 3.0]), &bits(&[1.0, 3.0])));
}

#[test]
fn empty_vectors_are_equal() {
    assert_eq!(compare_fitness(&bits(&[]), &bits(&[])), Ordering::Equal);
}

#[test]
fn a_nan_term_is_the_worst() {
    assert_eq!(compare_fitness(&bits(&[1.0, 5.0]), &bits(&[1.0, f64::NAN])), Ordering::Less);
    assert_eq!(compare_fitness(&bits(&[f64::NAN]), &bits(&[f64::NAN])), Ordering::Equal);
    assert_eq!(compare_fitness(&bits(&[f64::NAN, 0.0]), &bits(&[0.0, 1.0])), Ordering::Equal);
}

#[test]
fn terms_beyond_the_shorter_vector_are_not_compared() {
    assert_eq!(compare_fitness(&bits(&[1.0, 9.0]), &bits(&[2.0])), Ordering::Less);
    assert_eq!(compare_fitness(&bits(&[1.0]), &bits(&[1.0, 0.0])), Ordering::Equal);
}

#[test]
fn dominance_is_reversed_by_swapping() {
    let vectors = [
        bits(&[1.0, 2.0]),
        bits(&[2.0, 1.0]),
        bits(&[1.0, 1.0]),
        bits(&[2.0, 2.0]),
        bits(&[f64::NAN, 0.0]),
    ];
    for a in vectors.iter() {
        for b in vectors.iter() {
            assert_eq!(compare_fitness(a, b), compare_fitness(b, a).reverse());
        }
    }
}

struct Coordinate(usize);

impl Objective for Coordinate {
    type Solution = Vec<f64>;

    fn fitness(&self, solution: &Vec<f64>) -> u64 {
        solution[self.0].to_bits()
    }

    fn total_order(&self, a: &Vec<f64>, b: &Vec<f64>) -> Order {
        order_by_fitness(self, a, b)
    }
}

struct MoreIsBetter;

impl Objective for MoreIsBetter {
    type Solution = Vec<f64>;

    fn fitness(&self, solution: &Vec<f64>) -> u64 {
        solution[0].to_bits()
    }

    fn total_order(&self, a: &Vec<f64>, b: &Vec<f64>) -> Order {
        order_floats(b[0].to_bits(), a[0].to_bits())
    }
}

struct Both(Vec<Coordinate>);

impl Objective for Both {
    type Solution = Vec<f64>;

    fn fitness(&self, solution: &Vec<f64>) -> u64 {
        self.0[0].fitness(solution)
    }

    fn total_order(&self, a: &Vec<f64>, b: &Vec<f64>) -> Order {
        to_order(dominance_order(a, b, &self.0))
    }
}

impl MultiObjective for Both {
    type Term = Coordinate;

    fn objectives(&self) -> &Vec<Coordinate> {
        &self.0
    }
}

#[test]
fn an_objective_orders_solutions_by_their_fitness() {
    let second = Coordinate(1);
    assert_eq!(total_order(&second, &vec![9.0, 1.0], &vec![0.0, 2.0]), Ordering::Less);
    assert_eq!(total_order(&second, &vec![0.0, 2.0], &vec![9.0, 1.0]), Ordering::Greater);
    assert_eq!(total_order(&second, &vec![0.0, 2.0], &vec![9.0, 2.0]), Ordering::Equal);
    assert_eq!(total_order(&second, &vec![0.0, f64::NAN], &vec![9.0, 2.0]), Ordering::Greater);
}

#[test]
fn the_fitness_vector_has_one_entry_for_each_objective() {
    let objectives = vec![Coordinate(1), Coordinate(0), Coordinate(1)];
    assert_eq!(fitness_vector(&objectives, &vec![3.0, 4.0]), bits(&[4.0, 3.0, 4.0]));
    assert_eq!(fitness_vector(&Vec::<Coordinate>::new(), &vec![3.0, 4.0]), bits(&[]));
}

#[test]
fn solutions_are_ordered_by_dominance_over_the_objectives() {
    let both = Both(vec![Coordinate(0), Coordinate(1)]);
    let order = |a: &[f64], b: &[f64]| dominance_order(&a.to_vec(), &b.to_vec(), both.objectives());
    assert_eq!(order(&[1.0, 2.0], &[1.0, 3.0]), Ordering::Less);
    assert_eq!(order(&[1.0, 3.0], &[1.0, 2.0]), Ordering::Greater);
    assert_eq!(order(&[1.0, 3.0], &[2.0, 2.0]), Ordering::Equal);
    assert_eq!(order(&[1.0, 3.0], &[1.0, 3.0]), Ordering::Equal);
    assert_eq!(dominance_order(&vec![1.0], &vec![2.0], &Vec::<Coordinate>::new()), Ordering::Equal);
}

#[test]
fn orders_and_orderings_stand_for_each_other() {
    for ordering in [Ordering::Less, Ordering::Equal, Ordering::Greater] {
        assert_eq!(to_ordering(to_order(ordering)), ordering);
    }
    assert_eq!(to_order(Ordering::Less), Order::Less);
    assert_eq!(to_order(Ordering::Equal), Order::Equal);
    assert_eq!(to_order(Ordering::Greater), Order::Greater);
    assert_eq!(order_floats(1.0f64.to_bits(), 2.0f64.to_bits()), Order::Less);
    assert_eq!(order_floats(f64::NAN.to_bits(), 2.0f64.to_bits()), Order::Greater);
    assert_eq!(order_floats(f64::NAN.to_bits(), f64::NAN.to_bits()), Order::Equal);
}

#[test]
fn an_objective_may_order_other_than_by_fitness() {
    assert_eq!(total_order(&MoreIsBetter, &vec![2.0], &vec![1.0]), Ordering::Less);
    assert_eq!(total_order(&MoreIsBetter, &vec![1.0], &vec![2.0]), Ordering::Greater);
    assert_eq!(order_by_fitness(&MoreIsBetter, &vec![1.0], &vec![2.0]), Order::Less);
    let objectives = vec![MoreIsBetter];
    assert_eq!(dominance_order(&vec![2.0], &vec![1.0], &objectives), Ordering::Less);
}

#[test]
fn a_multi_objective_orders_by_dominance() {
    let both = Both(vec![Coordinate(0), Coordinate(1)]);
    assert_eq!(both.total_order(&vec![1.0, 2.0], &vec![1.0, 3.0]), Order::Less);
    assert_eq!(both.total_order(&vec![1.0, 3.0], &vec![2.0, 2.0]), Order::Equal);
    assert_eq!(both.total_order(&vec![2.0, 3.0], &vec![2.0, 2.0]), Order::Greater);
}
