use neat_gru::fixed::{fx_abs_diff, fx_add, fx_clamp, fx_div_count, fx_mul, fx_of_count, fx_sig};
use neat_gru::fixed::{LIMIT, SCALE};
use neat_gru::rng::Rng;

#[test]
fn multiplication_matches_fixed_point_arithmetic() {
    assert_eq!(fx_mul(SCALE, SCALE), SCALE); // 1.0 * 1.0
    assert_eq!(fx_mul(2 * SCALE, SCALE / 2), SCALE); // 2.0 * 0.5
    assert_eq!(fx_mul(-SCALE, SCALE / 4), -SCALE / 4); // -1.0 * 0.25
    assert_eq!(fx_mul(0, 12345), 0);
    // saturation at the limit
    assert_eq!(fx_mul(LIMIT, LIMIT), LIMIT);
    assert_eq!(fx_mul(-LIMIT, LIMIT), -LIMIT);
}

#[test]
fn addition_saturates() {
    assert_eq!(fx_add(SCALE, SCALE), 2 * SCALE);
    assert_eq!(fx_add(LIMIT, LIMIT), LIMIT);
    assert_eq!(fx_add(-LIMIT, -5), -LIMIT);
    assert_eq!(fx_clamp(i64::MAX), LIMIT);
    assert_eq!(fx_clamp(i64::MIN), -LIMIT);
}

#[test]
fn sigmoid_values() {
    assert_eq!(fx_sig(0), SCALE / 2);
    assert_eq!(fx_sig(SCALE / 8), 5 * SCALE / 8);
    assert_eq!(fx_sig(-SCALE / 8), 3 * SCALE / 8);
    // knees of the central slope: 0.375 maps to 7/8, -0.375 to 1/8
    assert_eq!(fx_sig(24576), 57344);
    assert_eq!(fx_sig(-24576), 8192);
    // gentle tails: slope 1/64 beyond the knees
    assert_eq!(fx_sig(SCALE), 57984);
    assert_eq!(fx_sig(-SCALE), 7552);
    // saturation at +-8.375
    assert_eq!(fx_sig(548864), SCALE);
    assert_eq!(fx_sig(-548864), 0);
    assert_eq!(fx_sig(i64::MAX), SCALE);
    assert_eq!(fx_sig(i64::MIN), 0);
}

#[test]
fn division_by_count_truncates_toward_zero() {
    assert_eq!(fx_div_count(10, 3), 3);
    assert_eq!(fx_div_count(-10, 3), -3);
    assert_eq!(fx_div_count(0, 7), 0);
}

#[test]
fn absolute_difference_and_counts() {
    assert_eq!(fx_abs_diff(SCALE, SCALE / 2), SCALE / 2);
    assert_eq!(fx_abs_diff(-SCALE, SCALE), 2 * SCALE);
    assert_eq!(fx_of_count(0), 0);
    assert_eq!(fx_of_count(3), 3 * SCALE);
    assert_eq!(fx_of_count(1000000), LIMIT);
}

#[test]
fn generator_is_deterministic_and_bounded() {
    let mut a = Rng::new(99);
    let mut b = Rng::new(99);
    for _ in 0..100 {
        let x = a.sample();
        assert_eq!(x, b.sample());
        assert!(x < 32768);
    }
    for n in [1u64, 2, 7, 32768] {
        let r = a.below(n);
        assert!(r < n);
    }
    for _ in 0..100 {
        let j = a.jitter(SCALE);
        assert!(-SCALE <= j && j <= SCALE);
    }
}
