//! Tests of the fixed-point arithmetic layer.

use orbital_core::errors::OrbitalError;
use orbital_core::fixed::{
    abs_diff_fixed, add_fixed, clamped_sub_fixed, convert_from_fixed, convert_to_fixed, div_fixed,
    max_fixed, min_fixed, mul_fixed, signed_diff, signed_sub_fixed, sqrt_fixed, sub_fixed, MAX_RAW,
    SCALE,
};

#[test]
fn round_trip_conversion() {
    for x in [0u128, 1, 2, 12345, 0xFFFF_FFFF, MAX_RAW] {
        let f = convert_to_fixed(x).unwrap();
        assert_eq!(convert_from_fixed(f), x);
    }
}

#[test]
fn conversion_overflow_is_reported() {
    assert_eq!(convert_to_fixed(MAX_RAW + 1), Err(OrbitalError::Overflow));
    assert_eq!(convert_to_fixed(u128::MAX), Err(OrbitalError::Overflow));
}

#[test]
fn conversion_truncates_fraction() {
    // 3.5 scales down to 3
    assert_eq!(convert_from_fixed(3 * SCALE + SCALE / 2), 3);
}

#[test]
fn addition_and_subtraction() {
    assert_eq!(add_fixed(2 * SCALE, 3 * SCALE), Ok(5 * SCALE));
    assert_eq!(add_fixed(u128::MAX, 1), Err(OrbitalError::Overflow));
    assert_eq!(sub_fixed(5 * SCALE, 3 * SCALE), Ok(2 * SCALE));
    assert_eq!(sub_fixed(3 * SCALE, 5 * SCALE), Err(OrbitalError::Underflow));
    assert_eq!(sub_fixed(7, 7), Ok(0));
}

#[test]
fn multiplication_exact_values() {
    // 1.0 * 1.0 == 1.0
    assert_eq!(mul_fixed(SCALE, SCALE), Ok(SCALE));
    // 2.5 * 4.0 == 10.0
    assert_eq!(mul_fixed(5 * SCALE / 2, 4 * SCALE), Ok(10 * SCALE));
    // 0.5 * 0.5 == 0.25
    assert_eq!(mul_fixed(SCALE / 2, SCALE / 2), Ok(SCALE / 4));
    assert_eq!(mul_fixed(0, u128::MAX), Ok(0));
}

#[test]
fn multiplication_overflow_is_reported() {
    assert_eq!(mul_fixed(u128::MAX, u128::MAX), Err(OrbitalError::Overflow));
    assert_eq!(mul_fixed(u128::MAX, 2 * SCALE), Err(OrbitalError::Overflow));
}

#[test]
fn division_exact_values() {
    // 1.0 / 2.0 == 0.5
    assert_eq!(div_fixed(SCALE, 2 * SCALE), Ok(SCALE / 2));
    // 10.0 / 4.0 == 2.5
    assert_eq!(div_fixed(10 * SCALE, 4 * SCALE), Ok(5 * SCALE / 2));
    // division by a value below one grows the result
    assert_eq!(div_fixed(SCALE, SCALE / 2), Ok(2 * SCALE));
}

#[test]
fn division_by_zero_and_overflow_are_reported() {
    assert_eq!(div_fixed(SCALE, 0), Err(OrbitalError::DivisionByZero));
    assert_eq!(div_fixed(u128::MAX, 1), Err(OrbitalError::Overflow));
}

#[test]
fn mul_div_round_trip_within_one_unit() {
    // exact when the product carries no truncated bits
    let a = 7 * SCALE / 2;
    let b = 2 * SCALE;
    let m = mul_fixed(a, b).unwrap();
    assert_eq!(m, 7 * SCALE);
    assert_eq!(div_fixed(m, b).unwrap(), a);
    // a divisor of at least one keeps the loss within one unit in the last place
    for (a, b) in [
        (123456789u128, 3 * SCALE),
        (987654321987654321u128, SCALE + 1),
        (SCALE + 12345, 17 * SCALE / 5),
    ] {
        let m = mul_fixed(a, b).unwrap();
        let d = div_fixed(m, b).unwrap();
        assert!(d <= a && a - d <= 1, "a {a} b {b} d {d}");
    }
    // a divisor far below one loses more: bounded by one whole scale step
    let a = SCALE + SCALE / 2;  // 1.5
    let b = 1u128;  // 2^-48
    let m = mul_fixed(a, b).unwrap();
    assert_eq!(m, 1);
    let d = div_fixed(m, b).unwrap();
    assert_eq!(d, SCALE);
    assert!(d <= a && a - d < SCALE);
}

#[test]
fn sqrt_exact_values() {
    assert_eq!(sqrt_fixed(0), 0);
    assert_eq!(sqrt_fixed(SCALE), SCALE);
    assert_eq!(sqrt_fixed(4 * SCALE), 2 * SCALE);
    assert_eq!(sqrt_fixed(9 * SCALE), 3 * SCALE);
    // sqrt(2.0), truncated to 48 fractional bits
    assert_eq!(sqrt_fixed(2 * SCALE), 398065729532860);
    // sqrt(5.0) is the precomputed constant of the tick geometry
    assert_eq!(sqrt_fixed(5 * SCALE), orbital_core::config::SQRT5_FIXED);
}

#[test]
fn sqrt_monotonic_samples() {
    let samples = [
        0u128,
        1,
        2,
        SCALE / 2,
        SCALE,
        SCALE + 1,
        3 * SCALE,
        1000 * SCALE,
        1001 * SCALE,
        MAX_RAW,
        u128::MAX,
    ];
    let mut prev = sqrt_fixed(samples[0]);
    for &x in &samples[1..] {
        let s = sqrt_fixed(x);
        assert!(s >= prev, "sqrt not monotonic at {x}");
        prev = s;
    }
}

#[test]
fn sqrt_square_stays_close() {
    for x in [1u128, 2, 3, SCALE - 1, SCALE, 5 * SCALE, 12345678 * SCALE, u128::MAX] {
        let s = sqrt_fixed(x);
        let sq = mul_fixed(s, s).unwrap();
        assert!(sq <= x, "square exceeds argument at {x}");
        let slack = 2 * (s / SCALE) + 2;
        assert!(x - sq <= slack, "square too far below argument at {x}");
    }
}

#[test]
fn signed_arithmetic() {
    let pos = signed_sub_fixed(10 * SCALE, 3 * SCALE);
    assert!(!pos.is_negative);
    assert_eq!(pos.magnitude, 7 * SCALE);
    let neg = signed_sub_fixed(3 * SCALE, 10 * SCALE);
    assert!(neg.is_negative);
    assert_eq!(neg.magnitude, 7 * SCALE);
    // zero is canonically non-negative
    let zero = signed_sub_fixed(5, 5);
    assert!(!zero.is_negative);
    assert_eq!(zero.magnitude, 0);
    // (+7) - (-7) == +14
    let d = signed_diff(pos, neg);
    assert!(!d.is_negative);
    assert_eq!(d.magnitude, 14 * SCALE);
    // (-7) - (+7) == -14
    let e = signed_diff(neg, pos);
    assert!(e.is_negative);
    assert_eq!(e.magnitude, 14 * SCALE);
    // equal values cancel to canonical zero
    let f = signed_diff(pos, pos);
    assert!(!f.is_negative);
    assert_eq!(f.magnitude, 0);
}

#[test]
fn min_max_abs_and_clamp() {
    assert_eq!(min_fixed(3, 7), 3);
    assert_eq!(max_fixed(3, 7), 7);
    assert_eq!(min_fixed(9, 9), 9);
    assert_eq!(abs_diff_fixed(10, 4), 6);
    assert_eq!(abs_diff_fixed(4, 10), 6);
    assert_eq!(clamped_sub_fixed(10, 4), 6);
    assert_eq!(clamped_sub_fixed(4, 10), 0);
}
