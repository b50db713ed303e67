use hakai_core::rng::SeededRng;
use std::collections::HashSet;

#[test]
fn same_seed_gives_same_sequence() {
    let mut a = SeededRng::new(12_345);
    let mut b = SeededRng::new(12_345);
    for _ in 0..200 {
        assert_eq!(a.next_u64(), b.next_u64());
    }
}

#[test]
fn different_seeds_diverge() {
    let mut x = SeededRng::new(1);
    let mut y = SeededRng::new(2);
    let xs: Vec<u64> = (0..20).map(|_| x.next_u64()).collect();
    let ys: Vec<u64> = (0..20).map(|_| y.next_u64()).collect();
    assert_ne!(xs, ys);
}

#[test]
fn seed_zero_does_not_degenerate() {
    let mut rng = SeededRng::new(0);
    let values: HashSet<u64> = (0..10).map(|_| rng.next_u64()).collect();
    assert_eq!(values.len(), 10);
}

#[test]
fn int_with_empty_or_reversed_range_returns_lower_bound() {
    let mut rng = SeededRng::new(3);
    assert_eq!(rng.int_range(5, 5), 5);
    assert_eq!(rng.int_range(5, 2), 5);
}

#[test]
fn int_range_stays_in_bounds() {
    let mut rng = SeededRng::new(7);
    for _ in 0..20_000 {
        let i = rng.int_range(4, 9);
        assert!((4..9).contains(&i));
    }
}

#[test]
fn seed_one_draws_the_splitmix64_value() {
    // SplitMix64 from state 1: state 1 + 0x9E3779B97F4A7C15, then the finaliser.
    let mut rng = SeededRng::new(1);
    assert_eq!(rng.next_u64(), 0x910A2DEC89025CC1);
}

#[test]
fn seed_zero_starts_from_the_increment() {
    let mut zero = SeededRng::new(0);
    let mut gamma = SeededRng::new(0x9E3779B97F4A7C15);
    for _ in 0..5 {
        assert_eq!(zero.next_u64(), gamma.next_u64());
    }
}

#[test]
fn an_empty_range_does_not_advance_the_generator() {
    let mut a = SeededRng::new(11);
    let mut b = SeededRng::new(11);
    assert_eq!(a.int_range(3, 3), 3);
    assert_eq!(a.next_u64(), b.next_u64());
}

#[test]
fn int_range_is_the_draw_modulo_the_width() {
    let mut a = SeededRng::new(42);
    let mut b = SeededRng::new(42);
    let x = b.next_u64();
    assert_eq!(a.int_range(-10, 10), -10 + (x % 20) as i64);
}
