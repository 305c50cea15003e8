use rand::rngs::StdRng;
use rand::SeedableRng;
use vrp_core::random::{is_head_not_tails, shuffle, sum_weights, weighted};

#[test]
fn sums_the_weights() {
    assert_eq!(sum_weights(&vec![]), Some(0));
    assert_eq!(sum_weights(&vec![1, 2, 3]), Some(6));
    assert_eq!(sum_weights(&vec![usize::MAX]), Some(usize::MAX));
    assert_eq!(sum_weights(&vec![usize::MAX, 0]), Some(usize::MAX));
    assert_eq!(sum_weights(&vec![usize::MAX, 1]), None);
    assert_eq!(sum_weights(&vec![1, usize::MAX, 0]), None);
}

#[test]
fn draws_no_index_without_usable_weights() {
    let mut rng = StdRng::seed_from_u64(1);
    assert_eq!(weighted(&mut rng, &vec![]), None);
    assert_eq!(weighted(&mut rng, &vec![0]), None);
    assert_eq!(weighted(&mut rng, &vec![0, 0, 0]), None);
    assert_eq!(weighted(&mut rng, &vec![usize::MAX, 1]), None);
}

#[test]
fn draws_the_only_index_of_positive_weight() {
    let mut rng = StdRng::seed_from_u64(1);
    for _ in 0..100 {
        assert_eq!(weighted(&mut rng, &vec![0, 5, 0]), Some(1));
        assert_eq!(weighted(&mut rng, &vec![7]), Some(0));
        assert_eq!(weighted(&mut rng, &vec![0, 0, 1]), Some(2));
    }
}

#[test]
fn draws_every_index_of_positive_weight_and_no_other() {
    let mut rng = StdRng::seed_from_u64(7);
    let weights = vec![1, 0, 2, 0, 3];
    let mut seen = vec![0usize; 5];
    for _ in 0..1000 {
        let index = weighted(&mut rng, &weights).unwrap();
        assert!(index < 5);
        assert!(weights[index] > 0);
        seen[index] += 1;
    }
    assert!(seen[0] > 0 && seen[2] > 0 && seen[4] > 0);
    assert_eq!(seen[1] + seen[3], 0);
}

#[test]
fn shuffle_keeps_the_items() {
    let mut rng = StdRng::seed_from_u64(3);
    let mut items: Vec<u32> = (0..100).collect();
    shuffle(&mut rng, &mut items);
    let mut sorted = items.clone();
    sorted.sort();
    assert_eq!(sorted, (0..100).collect::<Vec<u32>>());
}

#[test]
fn shuffle_changes_the_order() {
    let mut rng = StdRng::seed_from_u64(3);
    let mut items: Vec<u32> = (0..100).collect();
    shuffle(&mut rng, &mut items);
    assert_ne!(items, (0..100).collect::<Vec<u32>>());
}

#[test]
fn shuffle_of_nothing_and_of_one() {
    let mut rng = StdRng::seed_from_u64(3);
    let mut none: Vec<u32> = vec![];
    shuffle(&mut rng, &mut none);
    assert!(none.is_empty());
    let mut one = vec![9u32];
    shuffle(&mut rng, &mut one);
    assert_eq!(one, vec![9]);
}

#[test]
fn the_same_seed_gives_the_same_draws() {
    let mut first = StdRng::seed_from_u64(42);
    let mut second = StdRng::seed_from_u64(42);
    let weights = vec![3, 1, 4, 1, 5];
    for _ in 0..100 {
        assert_eq!(weighted(&mut first, &weights), weighted(&mut second, &weights));
        assert_eq!(is_head_not_tails(&mut first), is_head_not_tails(&mut second));
    }
    let mut a: Vec<u32> = (0..50).collect();
    let mut b: Vec<u32> = (0..50).collect();
    shuffle(&mut first, &mut a);
    shuffle(&mut second, &mut b);
    assert_eq!(a, b);
}

#[test]
fn the_coin_shows_both_sides() {
    let mut rng = StdRng::seed_from_u64(5);
    let mut heads = 0;
    for _ in 0..200 {
        if is_head_not_tails(&mut rng) {
            heads += 1;
        }
    }
    assert!(heads > 0 && heads < 200);
}
