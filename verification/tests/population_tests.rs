use rand::rngs::StdRng;
use rand::SeedableRng;
use vrp_core::population::{DominancePopulation, Individual};

fn individual(values: &[f64], solution: u32) -> Individual<u32> {
    Individual { fitness: values.iter().map(|v| v.to_bits()).collect(), solution }
}

fn solutions(population: &DominancePopulation<u32>) -> Vec<u32> {
    (0..population.size()).map(|i| population.get(i).unwrap().solution).collect()
}

#[test]
fn a_new_population_is_empty() {
    let population = DominancePopulation::<u32>::new(2, 3);
    assert_eq!(population.size(), 0);
    assert_eq!(population.max_size(), 3);
    assert_eq!(population.fitness_len(), 2);
    assert!(population.get(0).is_none());
    assert_eq!(population.fronts(), Vec::<usize>::new());
}

#[test]
fn a_candidate_that_dominates_every_member_is_kept_and_stands_first() {
    let mut population = DominancePopulation::new(2, 3);
    assert!(population.add(individual(&[5.0, 5.0], 1)));
    assert!(population.add(individual(&[4.0, 6.0], 2)));
    assert!(population.add(individual(&[6.0, 4.0], 3)));
    assert!(population.add(individual(&[1.0, 1.0], 4)));
    assert_eq!(population.size(), 3);
    assert_eq!(population.get(0).unwrap().solution, 4);
    assert_eq!(population.fronts()[0], 0);
}

#[test]
fn a_dominating_candidate_is_kept_in_a_population_of_one() {
    let mut population = DominancePopulation::new(1, 1);
    assert!(population.add(individual(&[5.0], 1)));
    assert!(population.add(individual(&[4.0], 2)));
    assert_eq!(solutions(&population), vec![2]);
}

#[test]
fn a_candidate_dominated_by_every_member_of_a_full_population_is_rejected() {
    let mut population = DominancePopulation::new(2, 2);
    assert!(population.add(individual(&[1.0, 2.0], 1)));
    assert!(population.add(individual(&[2.0, 1.0], 2)));
    assert!(!population.add(individual(&[3.0, 3.0], 3)));
    assert_eq!(solutions(&population), vec![1, 2]);
}

#[test]
fn a_dominated_candidate_is_kept_while_there_is_room() {
    let mut population = DominancePopulation::new(2, 3);
    assert!(population.add(individual(&[1.0, 2.0], 1)));
    assert!(population.add(individual(&[2.0, 1.0], 2)));
    assert!(population.add(individual(&[3.0, 3.0], 3)));
    assert_eq!(solutions(&population), vec![1, 2, 3]);
    assert_eq!(population.fronts(), vec![0, 0, 1]);
}

#[test]
fn the_last_member_of_the_greatest_front_leaves() {
    let mut population = DominancePopulation::new(2, 3);
    assert!(population.add(individual(&[3.0, 3.0], 1)));
    assert!(population.add(individual(&[4.0, 4.0], 2)));
    assert!(population.add(individual(&[5.0, 5.0], 3)));
    assert_eq!(population.fronts(), vec![0, 1, 2]);
    assert!(population.add(individual(&[1.0, 9.0], 4)));
    assert_eq!(solutions(&population), vec![1, 2, 4]);
    assert_eq!(population.fronts(), vec![0, 1, 0]);
}

#[test]
fn a_candidate_stands_before_the_first_member_that_it_dominates() {
    let mut population = DominancePopulation::new(1, 5);
    assert!(population.add(individual(&[1.0], 1)));
    assert!(population.add(individual(&[3.0], 3)));
    assert!(population.add(individual(&[2.0], 2)));
    assert_eq!(solutions(&population), vec![1, 2, 3]);
    assert_eq!(population.fronts(), vec![0, 1, 2]);
}

#[test]
fn a_candidate_with_another_number_of_terms_is_turned_away() {
    let mut population = DominancePopulation::new(2, 3);
    assert!(population.add(individual(&[1.0, 2.0], 1)));
    assert!(!population.add(individual(&[0.0], 2)));
    assert!(!population.add(individual(&[0.0, 0.0, 0.0], 3)));
    assert_eq!(solutions(&population), vec![1]);
}

#[test]
fn a_population_without_room_keeps_nothing() {
    let mut population = DominancePopulation::new(1, 0);
    assert!(!population.add(individual(&[1.0], 1)));
    assert_eq!(population.size(), 0);
}

#[test]
fn the_size_never_exceeds_the_maximum() {
    let mut population = DominancePopulation::new(2, 4);
    for i in 0..50u32 {
        let x = ((i * 37) % 11) as f64;
        let y = ((i * 53) % 13) as f64;
        population.add(individual(&[x, y], i));
        assert!(population.size() <= 4);
    }
    assert_eq!(population.size(), 4);
}

#[test]
fn the_ranking_goes_by_fronts_and_then_by_places() {
    let mut population = DominancePopulation::new(2, 6);
    assert_eq!(population.ranked(), Vec::<usize>::new());
    population.add(individual(&[3.0, 3.0], 1));
    population.add(individual(&[4.0, 4.0], 2));
    population.add(individual(&[1.0, 9.0], 3));
    population.add(individual(&[5.0, 5.0], 4));
    population.add(individual(&[9.0, 1.0], 5));
    population.add(individual(&[2.0, 9.5], 6));
    assert_eq!(solutions(&population), vec![1, 2, 3, 4, 5, 6]);
    assert_eq!(population.fronts(), vec![0, 1, 0, 2, 0, 1]);
    assert_eq!(population.ranked(), vec![0, 2, 4, 1, 5, 3]);
}

#[test]
fn a_parent_is_selected_from_the_population() {
    let mut rng = StdRng::seed_from_u64(17);
    let mut population = DominancePopulation::new(1, 4);
    assert_eq!(population.select(&mut rng), None);
    population.add(individual(&[1.0], 1));
    for _ in 0..20 {
        assert_eq!(population.select(&mut rng), Some(0));
    }
    population.add(individual(&[2.0], 2));
    population.add(individual(&[3.0], 3));
    let mut seen = vec![0usize; 3];
    for _ in 0..3000 {
        seen[population.select(&mut rng).unwrap()] += 1;
    }
    assert!(seen[0] > seen[1] && seen[1] > seen[2] && seen[2] > 0);
}

fn crowding(members: &Vec<Individual<u32>>, fronts: &Vec<usize>) -> Vec<u64> {
    let terms = members.first().map_or(0, |m| m.fitness.len());
    let mut distances = vec![0.0f64; members.len()];
    let last = fronts.iter().copied().max().unwrap_or(0);
    for front in 0..=last {
        let places: Vec<usize> = (0..members.len()).filter(|i| fronts[*i] == front).collect();
        for term in 0..terms {
            let value = |i: usize| f64::from_bits(members[i].fitness[term]);
            let mut sorted = places.clone();
            sorted.sort_by(|a, b| value(*a).partial_cmp(&value(*b)).unwrap());
            let span = value(sorted[sorted.len() - 1]) - value(sorted[0]);
            distances[sorted[0]] = f64::INFINITY;
            distances[sorted[sorted.len() - 1]] = f64::INFINITY;
            for k in 1..sorted.len().saturating_sub(1) {
                if span > 0.0 {
                    distances[sorted[k]] += (value(sorted[k + 1]) - value(sorted[k - 1])) / span;
                }
            }
        }
    }
    distances.iter().map(|d| d.to_bits()).collect()
}

fn front_of_four() -> DominancePopulation<u32> {
    let mut population = DominancePopulation::new(2, 4);
    population.add(individual(&[0.0, 10.0], 1));
    population.add(individual(&[4.0, 6.0], 2));
    population.add(individual(&[5.0, 5.0], 3));
    population.add(individual(&[10.0, 0.0], 4));
    population
}

#[test]
fn the_most_crowded_individual_of_the_last_front_leaves() {
    let mut population = front_of_four();
    assert!(population.add_crowded(individual(&[8.0, 2.0], 5), crowding));
    assert_eq!(solutions(&population), vec![1, 2, 4, 5]);
    let mut population = front_of_four();
    assert!(!population.add_crowded(individual(&[4.5, 5.5], 5), crowding));
    assert_eq!(solutions(&population), vec![1, 2, 3, 4]);
}

#[test]
fn crowding_is_not_asked_while_there_is_room() {
    let mut population = DominancePopulation::new(2, 4);
    let never = |_: &Vec<Individual<u32>>, _: &Vec<usize>| -> Vec<u64> { panic!("asked") };
    assert!(population.add_crowded(individual(&[1.0, 2.0], 1), never));
    assert!(population.add_crowded(individual(&[2.0, 1.0], 2), never));
    assert!(!population.add_crowded(individual(&[2.0], 3), never));
    assert_eq!(solutions(&population), vec![1, 2]);
}

#[test]
fn a_dominated_candidate_leaves_whatever_its_crowding() {
    let mut population = front_of_four();
    assert!(!population.add_crowded(individual(&[20.0, 20.0], 5), crowding));
    assert_eq!(solutions(&population), vec![1, 2, 3, 4]);
}

#[test]
fn a_dominating_candidate_stays_with_crowding() {
    let mut population = front_of_four();
    assert!(population.add_crowded(individual(&[0.0, 0.0], 5), crowding));
    assert_eq!(population.get(0).unwrap().solution, 5);
    assert_eq!(population.size(), 4);
}

#[test]
fn without_a_distance_for_each_the_last_of_the_last_front_leaves() {
    let mut population = front_of_four();
    let short = |_: &Vec<Individual<u32>>, _: &Vec<usize>| vec![0u64];
    assert!(!population.add_crowded(individual(&[8.0, 2.0], 5), short));
    assert_eq!(solutions(&population), vec![1, 2, 3, 4]);
}

#[test]
fn the_ranking_by_crowding_puts_the_loneliest_first() {
    let mut population = DominancePopulation::new(2, 6);
    population.add(individual(&[0.0, 10.0], 1));
    population.add(individual(&[4.0, 6.0], 2));
    population.add(individual(&[5.0, 5.0], 3));
    population.add(individual(&[10.0, 0.0], 4));
    population.add(individual(&[11.0, 11.0], 5));
    let distances: Vec<u64> =
        [9.0f64, 1.0, 2.0, 9.0, 0.5].iter().map(|d| d.to_bits()).collect();
    assert_eq!(population.fronts(), vec![0, 0, 0, 0, 1]);
    assert_eq!(population.ranked_by(&distances), vec![0, 3, 2, 1, 4]);
    let equal: Vec<u64> = [1.0f64; 5].iter().map(|d| d.to_bits()).collect();
    assert_eq!(population.ranked_by(&equal), vec![0, 1, 2, 3, 4]);
    assert_eq!(population.ranked_by(&vec![]), population.ranked());
    let computed = crowding(
        &(0..5).map(|i| {
            let m = population.get(i).unwrap();
            Individual { fitness: m.fitness.clone(), solution: m.solution }
        })
        .collect(),
        &population.fronts(),
    );
    assert_eq!(population.ranked_by(&computed), vec![0, 3, 2, 1, 4]);
}

#[test]
fn a_parent_is_selected_by_front_and_crowding() {
    let mut rng = StdRng::seed_from_u64(23);
    let population = front_of_four();
    let distances: Vec<u64> = [1.0f64, 4.0, 3.0, 2.0].iter().map(|d| d.to_bits()).collect();
    let mut seen = vec![0usize; 4];
    for _ in 0..4000 {
        seen[population.select_by(&mut rng, &distances).unwrap()] += 1;
    }
    assert!(seen[1] > seen[2] && seen[2] > seen[3] && seen[3] > seen[0] && seen[0] > 0);
    let empty = DominancePopulation::<u32>::new(2, 4);
    assert_eq!(empty.select_by(&mut rng, &vec![]), None);
    assert!(population.select_by(&mut rng, &vec![]).unwrap() < 4);
}
