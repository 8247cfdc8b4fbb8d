//! Arithmetic on binary64 numbers, held against the processor's own.

use io_thread_controller::binary64::Binary64;
use io_thread_controller::figures::{average_share, busy_share, ratio, seconds, task_share};

fn number(x: f64) -> Binary64 {
    Binary64::from_bits(x.to_bits())
}

fn value(x: Binary64) -> f64 {
    f64::from_bits(x.bits)
}

/// A run of patterns that looks random and is always the same.
fn patterns(count: usize) -> Vec<u64> {
    let mut state: u64 = 0x9e37_79b9_7f4a_7c15;
    let mut all = Vec::new();
    for _ in 0..count {
        state ^= state << 13;
        state ^= state >> 7;
        state ^= state << 17;
        all.push(state);
    }
    all
}

/// Finite numbers that are not negative: the ends of their range and many between.
fn magnitudes() -> Vec<f64> {
    let mut all = vec![
        0.0,
        5e-324,
        1e-323,
        f64::MIN_POSITIVE,
        f64::from_bits(f64::MIN_POSITIVE.to_bits() - 1),
        f64::EPSILON,
        0.1,
        0.5,
        1.0 - f64::EPSILON / 2.0,
        1.0,
        1.0 + f64::EPSILON,
        2.0,
        3.0,
        9_007_199_254_740_992.0,
        9_007_199_254_740_993.0,
        1e300,
        f64::MAX / 2.0,
        f64::MAX,
    ];
    for pattern in patterns(120) {
        all.push(f64::from_bits(pattern % f64::INFINITY.to_bits()));
        all.push(f64::from_bits(1.0f64.to_bits() + (pattern >> 9)));
        all.push(f64::from_bits(pattern >> 12));
    }
    all
}

#[test]
fn counts_are_rounded() {
    let mut counts = vec![0, 1, 2, 3, 100, u64::MAX, u64::MAX - 1, 1 << 63, (1 << 53) + 1];
    for shift in 0..64 {
        for pattern in patterns(40) {
            counts.push(pattern >> shift);
        }
        for low in 0..5 {
            counts.push((1u64 << shift).wrapping_sub(2).wrapping_add(low));
        }
    }
    for n in counts {
        assert_eq!(value(Binary64::from_count(n)), n as f64, "{n}");
    }
}

#[test]
fn products_and_quotients_are_rounded() {
    let numbers = magnitudes();
    for &a in &numbers {
        for &b in &numbers {
            assert_eq!(value(number(a).multiply(number(b))), a * b, "{a} {b}");
            if b > 0.0 {
                assert_eq!(value(number(a).divide(number(b))), a / b, "{a} {b}");
            }
        }
    }
}

#[test]
fn sums_and_differences_are_rounded() {
    let numbers = magnitudes();
    for &a in &numbers {
        for &b in &numbers {
            assert_eq!(value(number(a).add_to(number(b))), a + b, "{a} {b}");
            if b <= a {
                assert_eq!(value(number(a).subtract(number(b))), a - b, "{a} {b}");
            }
        }
    }
}

#[test]
fn numbers_are_rounded_up_to_counts() {
    let mut numbers = magnitudes();
    numbers.push(f64::INFINITY);
    for n in 0..200 {
        let whole = f64::from(n);
        for x in [whole, whole + 0.25, whole + f64::EPSILON, whole + 0.999_999] {
            numbers.push(x);
        }
    }
    for x in [4_294_967_294.0, 4_294_967_294.5, 4_294_967_295.0, 4_294_967_295.5, 4_294_967_296.0] {
        numbers.push(x);
    }
    for x in numbers {
        let expected = x.ceil().clamp(1.0, f64::from(u32::MAX)) as u32;
        assert_eq!(number(x).ceil_count(), expected, "{x}");
    }
}

#[test]
fn numbers_are_rounded_to_whole_ones() {
    for x in magnitudes() {
        assert_eq!(number(x).floor_count(), x as u64, "{x}");
        if x < 4_503_599_627_370_496.0 {
            assert_eq!(number(x).round_count(), x.round_ties_even() as u64, "{x}");
        }
    }
    for n in 0..500 {
        let x = f64::from(n) / 8.0;
        assert_eq!(number(x).floor_count(), x as u64);
        assert_eq!(number(x).round_count(), x.round_ties_even() as u64);
    }
    for shift in 0..66 {
        let x = 1.75 * 2f64.powi(shift);
        assert_eq!(number(x).floor_count(), x as u64);
    }
}

#[test]
fn seconds_are_those_of_a_duration() {
    for shift in 0..64 {
        for pattern in patterns(40) {
            let ns = pattern >> shift;
            let expected = std::time::Duration::from_nanos(ns).as_secs_f64();
            assert_eq!(value(seconds(u128::from(ns))), expected, "{ns}");
        }
    }
    let longest = std::time::Duration::MAX;
    assert_eq!(value(seconds(longest.as_nanos())), longest.as_secs_f64());
}

#[test]
fn shares_are_held_to_one() {
    assert_eq!(value(ratio(1, 3)), 1.0 / 3.0);
    assert_eq!(value(ratio(0, 3)), 0.0);
    assert_eq!(ratio(4, 3), Binary64::one());
    assert_eq!(value(busy_share(25, 100, 1_000_000_000)), 0.25);
    assert_eq!(value(busy_share(25, 100, 3_000_000_000)), 0.25 / 3.0);
    assert_eq!(busy_share(101, 100, 1_000_000_000), Binary64::one());
    assert_eq!(value(average_share(&vec![100, 20, 300], 100, 1_000_000_000)), (1.0 + 0.2 + 1.0) / 3.0);
    assert_eq!(average_share(&vec![], 100, 1), Binary64::zero());
    assert_eq!(value(task_share(90, 700_000_000, 100, 3)), 90.0 / (0.7 * 100.0) / 3.0);
    assert_eq!(task_share(91, 100_000_000, 100, 3), Binary64::one());
}
