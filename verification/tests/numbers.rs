//! Growth factors and shrink thresholds: arithmetic on binary64 numbers.

use elasticq::binary64::Binary64;
use elasticq::Config;

fn number(x: f64) -> Binary64 {
    Binary64::from_bits(x.to_bits())
}

const SIZES: [usize; 20] = [
    1,
    2,
    3,
    5,
    7,
    10,
    99,
    100,
    1023,
    1024,
    65_536,
    1_000_003,
    16_777_217,
    4_294_967_295,
    9_007_199_254_740_991,
    9_007_199_254_740_992,
    9_007_199_254_740_993,
    123_456_789_012_345_678,
    18_446_744_073_709_551_614,
    18_446_744_073_709_551_615,
];

#[test]
fn growth_rounds_up_like_the_machine() {
    let factors = vec![
        2.0, 1.5, 1.1, 1.01, 1.25, 3.7, 10.0, 1.0000000000000002, 1e9, 1e30, 1e300,
        std::f64::consts::PI, f64::MAX, f64::INFINITY,
    ];
    for f in factors {
        assert!(number(f).is_above_one());
        for n in SIZES {
            assert_eq!(number(f).multiply_ceil(n), (n as f64 * f).ceil() as usize, "{} * {}", n, f);
        }
    }
}

#[test]
fn threshold_rounds_down_like_the_machine() {
    let thresholds = vec![
        0.25, 0.3, 0.4, 0.5, 0.01, 0.99, 0.1, 1e-10, 1e-300, 0.9999999999999999, f64::MIN_POSITIVE,
        5e-324,
    ];
    for t in thresholds {
        assert!(number(t).is_between_zero_and_one());
        for n in SIZES {
            assert_eq!(number(t).multiply_trunc(n), (n as f64 * t) as usize, "{} * {}", n, t);
        }
        assert_eq!(number(t).multiply_trunc(0), 0);
    }
}

#[test]
fn shrinking_rounds_down_like_the_machine() {
    let factors = vec![
        2.0, 1.5, 1.1, 1.01, 1.25, 3.7, 10.0, 1.0000000000000002, 1e9, 1e30, 1e300,
        std::f64::consts::PI, f64::MAX, f64::INFINITY,
    ];
    for f in factors {
        for n in SIZES {
            assert_eq!(number(f).divide_floor(n), (n as f64 / f).floor() as usize, "{} / {}", n, f);
        }
        assert_eq!(number(f).divide_floor(0), 0);
    }
}

#[test]
fn only_numbers_above_one_are_growth_factors() {
    for f in vec![1.0000000000000002, 2.0, f64::MAX, f64::INFINITY] {
        assert!(number(f).is_above_one(), "{}", f);
    }
    for f in vec![1.0, 0.9999999999999999, 0.0, -0.0, -2.0, f64::NEG_INFINITY, f64::NAN] {
        assert!(!number(f).is_above_one(), "{}", f);
        assert!(Config::default().with_growth_factor(number(f)).validate().is_err(), "{}", f);
    }
}

#[test]
fn only_numbers_between_zero_and_one_are_thresholds() {
    for t in vec![5e-324, 0.25, 0.9999999999999999] {
        assert!(number(t).is_between_zero_and_one(), "{}", t);
    }
    for t in vec![0.0, -0.0, 1.0, 1.5, -0.5, f64::INFINITY, f64::NAN, -f64::NAN] {
        assert!(!number(t).is_between_zero_and_one(), "{}", t);
        assert!(Config::default().with_shrink_threshold(number(t)).validate().is_err(), "{}", t);
    }
}

#[test]
fn growth_is_strict() {
    for n in vec![1usize, 2, 3, 100, 65_536, 9_007_199_254_740_993] {
        assert!(number(1.0000000000000002).multiply_ceil(n) > n);
    }
    assert_eq!(number(1.01).multiply_ceil(1), 2);
    assert_eq!(number(1.1).multiply_ceil(10), 11);
    assert_eq!(number(1.1).multiply_ceil(100), 111);
    assert_eq!(number(2.0).multiply_ceil(usize::MAX), usize::MAX);
}

#[test]
fn bits_are_kept() {
    assert_eq!(number(2.0).bits, 0x4000_0000_0000_0000);
    assert_eq!(number(0.25).bits, 0x3FD0_0000_0000_0000);
}
