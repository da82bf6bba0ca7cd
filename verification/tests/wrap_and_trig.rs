//! Screen wrapping, fixed-point trigonometry, and the small numeric
//! helpers.

use yarnballs::trig::{cos_mdeg, isqrt, sin_mdeg};
use yarnballs::utils::{floor_div, modulo, rand_range, wrap_dim};

#[test]
fn wrap_stays_in_band() {
    // results are whole units in [-45, 640 - 45), expressed in milli-units
    for v in [-300_000i64, -45_000, 0, 10_500, 594_999, 595_000, 900_000, 1_900_000] {
        let r = wrap_dim(v, 640, 45_000);
        assert!(-45_000 <= r && r < 595_000, "wrap_dim({}) gave {}", v, r);
    }
}

#[test]
fn wrap_examples() {
    // 650 units wraps to 10 units for a 45-unit radius on a 640-unit axis
    assert_eq!(wrap_dim(650_000, 640, 45_000), 10_000);
    // mid-screen positions are unchanged
    assert_eq!(wrap_dim(100_000, 640, 45_000), 100_000);
    // just past the right reappearance point wraps to the left band
    assert_eq!(wrap_dim(595_000, 640, 45_000), -45_000);
}

#[test]
fn wrap_twice_around_returns_home() {
    // advancing by two full 640-unit periods lands on the same wrapped spot
    for v in [0i64, 123_000, -20_000, 594_000] {
        let once = wrap_dim(v, 640, 45_000);
        let twice = wrap_dim(v + 2 * 640_000, 640, 45_000);
        assert_eq!(once, twice);
    }
}

#[test]
fn sine_exact_points() {
    assert_eq!(sin_mdeg(0), 0);
    assert_eq!(sin_mdeg(30_000), 500);
    assert_eq!(sin_mdeg(90_000), 1000);
    assert_eq!(sin_mdeg(180_000), 0);
    assert_eq!(sin_mdeg(270_000), -1000);
    assert_eq!(sin_mdeg(360_000), 0);
    assert_eq!(cos_mdeg(0), 1000);
    assert_eq!(cos_mdeg(90_000), 0);
    assert_eq!(cos_mdeg(180_000), -1000);
    // negative angles reduce into the same turn
    assert_eq!(sin_mdeg(-90_000), -1000);
}

#[test]
fn isqrt_exact_points() {
    assert_eq!(isqrt(0), 0);
    assert_eq!(isqrt(1), 1);
    assert_eq!(isqrt(3), 1);
    assert_eq!(isqrt(4), 2);
    assert_eq!(isqrt(1_000_000), 1000);
    assert_eq!(isqrt(999_999), 999);
    assert_eq!(isqrt(4_000_000_000_000_000_000), 2_000_000_000);
}

#[test]
fn modulo_and_floor_div() {
    assert_eq!(modulo(7, 3), 1);
    assert_eq!(modulo(-7, 3), 2);
    assert_eq!(modulo(-6, 3), 0);
    assert_eq!(floor_div(7, 3), 2);
    assert_eq!(floor_div(-7, 3), -3);
    assert_eq!(floor_div(-6, 3), -2);
}

#[test]
fn random_range_respects_bounds() {
    // a single-value range must return that value
    assert_eq!(rand_range(5, 6), 5);
    for _ in 0..50 {
        let r = rand_range(-3, 4);
        assert!(-3 <= r && r < 4);
    }
}
