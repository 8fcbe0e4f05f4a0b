use rand_chacha::rand_core::{RngCore, SeedableRng};
use room_graph::math_utils::{isqrt, Point};
use room_graph::poisson::{distance_squared, Poisson, TURN};
use room_graph::random::RandomDeterministic;

#[test]
fn distance_squared_of_a_three_four_five_triangle() {
    let a = Point::new(0, 0);
    let b = Point::new(3000, -4000);
    assert_eq!(distance_squared(&a, &b), 25_000_000);
    assert_eq!(distance_squared(&b, &a), 25_000_000);
}

#[test]
fn distance_squared_at_the_extremes() {
    let a = Point::new(i32::MIN, i32::MIN);
    let b = Point::new(i32::MAX, i32::MAX);
    let d: u128 = (u32::MAX as u128) * (u32::MAX as u128) * 2;
    assert_eq!(distance_squared(&a, &b), d);
}

#[test]
fn integer_square_roots() {
    assert_eq!(isqrt(0), 0);
    assert_eq!(isqrt(1), 1);
    assert_eq!(isqrt(15), 3);
    assert_eq!(isqrt(16), 4);
    assert_eq!(isqrt(u128::MAX), u64::MAX);
}

#[test]
fn sweep_turns_spread_evenly_from_the_seed() {
    let poisson = Poisson::new();
    assert_eq!(poisson.sweep_turns(0, 4), vec![0, 1 << 30, 1 << 31, 3 << 30]);
    assert_eq!(poisson.sweep_turns(1u64 << 63, 4), vec![1 << 31, 3 << 30, 0, 1 << 30]);
    assert_eq!(poisson.sweep_turns(u64::MAX, 0), Vec::<u32>::new());
    assert_eq!(poisson.sweep_turns(5 * TURN + 7, 1), vec![5]);
}

#[test]
fn first_candidate_is_taken_when_nothing_exists() {
    let poisson = Poisson::new();
    let offsets = vec![Point::new(40_010, 0), Point::new(0, 40_010)];
    let r = poisson.compute_new_position(&vec![], &Point::new(5, 5), 40_000, &offsets);
    assert_eq!(r, Some(Point::new(40_015, 5)));
}

#[test]
fn blocked_candidates_are_skipped_in_order() {
    let poisson = Poisson::new();
    let existing = vec![Point::new(0, 0), Point::new(40_010, 0)];
    let offsets = vec![Point::new(40_010, 0), Point::new(0, 40_010), Point::new(-40_010, 0)];
    let r = poisson.compute_new_position(&existing, &Point::new(0, 0), 40_000, &offsets);
    assert_eq!(r, Some(Point::new(0, 40_010)));
}

#[test]
fn sampler_gives_up_when_every_candidate_is_too_close() {
    let poisson = Poisson::new();
    let existing = vec![Point::new(0, 0)];
    let offsets = vec![Point::new(40_009, 0), Point::new(0, 100), Point::new(-28_290, -28_290)];
    let r = poisson.compute_new_position(&existing, &Point::new(0, 0), 40_000, &offsets);
    assert_eq!(r, None);
    let far = vec![Point::new(1, 0)];
    let r = poisson.compute_new_position(&existing, &Point::new(i32::MAX, 0), 40_000, &far);
    assert_eq!(r, None);
}

#[test]
fn random_source_follows_the_chacha20_stream() {
    let mut source = RandomDeterministic::from_seed(42);
    let mut stream = rand_chacha::ChaCha20Rng::seed_from_u64(42);
    assert_eq!(source.next_u32(), stream.next_u32());
    assert_eq!(source.next_u64(), stream.next_u64());
    assert_eq!(source.next_u32(), stream.next_u32());
    assert_eq!(source.word_pos, 4);
    for _ in 0..40u32 {
        assert_eq!(source.next_u64(), stream.next_u64());
    }
    assert_eq!(source.next_u32(), stream.next_u32());
}

#[test]
fn reseeding_restarts_the_stream() {
    let mut a = RandomDeterministic::from_seed(7);
    let first: u64 = a.next_u64();
    a.next_u32();
    a.set_seed(7);
    assert_eq!(a.word_pos, 0);
    assert_eq!(a.next_u64(), first);
    let mut b = RandomDeterministic::from_seed(8);
    assert_ne!(b.next_u64(), first);
    let mut c = RandomDeterministic::from_seed(42);
    let v: u64 = c.next_u64();
    assert_ne!(v, 42);
    assert_ne!(v, 0);
}

#[test]
fn sweep_draws_one_value() {
    let poisson = Poisson::new();
    let mut a = RandomDeterministic::from_seed(42);
    let mut b = RandomDeterministic::from_seed(42);
    let turns = poisson.sweep(&mut a, 5);
    let word: u64 = b.next_u64();
    assert_eq!(turns, poisson.sweep_turns(word, 5));
    assert_eq!(a.word_pos, 2);
}
