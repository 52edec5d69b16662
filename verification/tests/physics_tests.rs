use falling_sand::coords::{unit_neighbors, Coordinate};
use falling_sand::math::{clamp_i64, floor_div_scale, isqrt};
use falling_sand::rng::Coin;

#[test]
fn isqrt_examples() {
    assert_eq!(isqrt(0), 0);
    assert_eq!(isqrt(1), 1);
    assert_eq!(isqrt(3), 1);
    assert_eq!(isqrt(4), 2);
    assert_eq!(isqrt(90_000), 300);
    assert_eq!(isqrt(90_601), 301);
    assert_eq!(isqrt(90_600), 300);
    assert_eq!(isqrt(u64::MAX), 4_294_967_295);
}

#[test]
fn floor_div_scale_rounds_toward_negative_infinity() {
    assert_eq!(floor_div_scale(0), 0);
    assert_eq!(floor_div_scale(999), 0);
    assert_eq!(floor_div_scale(1000), 1);
    assert_eq!(floor_div_scale(-1), -1);
    assert_eq!(floor_div_scale(-1000), -1);
    assert_eq!(floor_div_scale(-1001), -2);
    assert_eq!(floor_div_scale(50_000 - 50), 49);
}

#[test]
fn clamp_examples() {
    assert_eq!(clamp_i64(5, 10), 5);
    assert_eq!(clamp_i64(-5, 10), -5);
    assert_eq!(clamp_i64(15, 10), 10);
    assert_eq!(clamp_i64(-15, 10), -10);
}

#[test]
fn unit_neighbor_table_is_the_eight_diagonal_pairs() {
    assert_eq!(unit_neighbors((0, 1)), Some(((1, 1), (-1, 1))));
    assert_eq!(unit_neighbors((1, 0)), Some(((1, 1), (1, -1))));
    assert_eq!(unit_neighbors((1, 1)), Some(((1, 0), (0, 1))));
    assert_eq!(unit_neighbors((-1, 1)), Some(((-1, 0), (0, 1))));
    assert_eq!(unit_neighbors((0, -1)), Some(((-1, -1), (1, -1))));
    assert_eq!(unit_neighbors((-1, -1)), Some(((-1, 0), (0, -1))));
    assert_eq!(unit_neighbors((1, -1)), Some(((1, 0), (0, -1))));
    // The leftward entry deliberately repeats the lower-left diagonal.
    assert_eq!(unit_neighbors((-1, 0)), Some(((-1, -1), (-1, -1))));
    assert_eq!(unit_neighbors((0, 0)), None);
    assert_eq!(unit_neighbors((2, 0)), None);
    assert_eq!(unit_neighbors((-1, 2)), None);
}

#[test]
fn coordinate_difference_is_signed() {
    let a = Coordinate::new(3, 7);
    let b = Coordinate::new(5, 2);
    assert_eq!(a.difference(&b), (-2, 5));
    assert_eq!(b.difference(&a), (2, -5));
    assert_eq!(a.difference(&a), (0, 0));
}

#[test]
fn scripted_coin_replays_script_then_stays_false() {
    let mut coin = Coin::scripted(vec![true, false, true]);
    assert!(coin.flip());
    assert!(!coin.flip());
    assert!(coin.flip());
    assert!(!coin.flip());
    assert!(!coin.flip());
}

#[test]
fn seeded_coin_is_reproducible() {
    let mut a = Coin::seeded(99);
    let mut b = Coin::seeded(99);
    for _ in 0..64 {
        assert_eq!(a.flip(), b.flip());
    }
}
