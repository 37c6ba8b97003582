//! Exact-value tests for the numeric interface: saturation policy,
//! rounding directions, constants, and the bit transport.

use fixed::types::{I16F16, I32F32};
use fixed_analytics::bounded::NonNegative;
use fixed_analytics::kernel::{circular_gain_inv, hyperbolic_gain, hyperbolic_gain_inv};
use fixed_analytics::{sqrt_non_negative, CordicNumber, Error};

#[test]
fn to_raw_is_the_bit_pattern() {
    assert_eq!(I16F16::from_bits(12345).to_raw(), 12345);
    assert_eq!(I16F16::from_bits(-77).to_raw(), -77);
    assert_eq!(I32F32::from_bits(1 << 40).to_raw(), 1_i128 << 40);
}

#[test]
fn from_raw_is_the_bit_pattern() {
    assert_eq!(<I16F16 as CordicNumber>::from_raw(77).to_bits(), 77);
    assert_eq!(<I16F16 as CordicNumber>::from_raw(-12345).to_bits(), -12345);
}

#[test]
fn saturating_add_clamps_at_the_extremes() {
    assert_eq!(
        CordicNumber::saturating_add(I16F16::MAX, I16F16::ONE),
        I16F16::MAX
    );
    assert_eq!(
        CordicNumber::saturating_sub(I16F16::MIN, I16F16::ONE),
        I16F16::MIN
    );
    let two = CordicNumber::saturating_add(I16F16::ONE, I16F16::ONE);
    assert_eq!(two, I16F16::from_num(2));
}

#[test]
fn negation_of_the_minimum_saturates() {
    assert_eq!(CordicNumber::neg(I16F16::MIN), I16F16::MAX);
    assert_eq!(CordicNumber::abs(I16F16::MIN), I16F16::MAX);
    assert_eq!(CordicNumber::abs(I16F16::from_num(-2)), I16F16::from_num(2));
}

#[test]
fn shift_rounds_toward_negative_infinity() {
    // The mantissa -3 halves to -2, as an arithmetic shift does.
    assert_eq!(
        CordicNumber::shr(I16F16::from_bits(-3), 1),
        I16F16::from_bits(-2)
    );
    assert_eq!(
        CordicNumber::shr(I16F16::from_bits(3), 1),
        I16F16::from_bits(1)
    );
}

#[test]
fn division_rounds_toward_zero() {
    // The mantissa -3 divided by two gives the mantissa -1, not -2.
    let q = CordicNumber::div(I16F16::from_bits(-3), I16F16::from_num(2));
    assert_eq!(q.to_bits(), -1);
    let q2 = CordicNumber::div(I16F16::from_bits(3), I16F16::from_num(2));
    assert_eq!(q2.to_bits(), 1);
}

#[test]
fn trunc_to_int_rounds_toward_zero() {
    assert_eq!(I16F16::from_num(2.7).trunc_to_int(), I16F16::from_num(2));
    assert_eq!(I16F16::from_num(-2.7).trunc_to_int(), I16F16::from_num(-2));
    assert_eq!(I16F16::from_num(0.9).trunc_to_int(), I16F16::ZERO);
}

#[test]
fn interface_constants_match_their_values() {
    assert_eq!(I16F16::two(), I16F16::from_num(2));
    assert_eq!(I16F16::half(), I16F16::from_num(0.5));
    assert_eq!(I16F16::max_value(), I16F16::MAX);
    assert_eq!(I16F16::min_value(), I16F16::MIN);
    assert!((I16F16::e().to_num::<f64>() - core::f64::consts::E).abs() < 1e-4);
    assert!((I16F16::ln_2().to_num::<f64>() - core::f64::consts::LN_2).abs() < 1e-4);
    assert!((I16F16::ln_10().to_num::<f64>() - core::f64::consts::LN_10).abs() < 1e-4);
    assert!((I16F16::frac_pi_4().to_num::<f64>() - core::f64::consts::FRAC_PI_4).abs() < 1e-4);
}

#[test]
fn comparisons_follow_the_values() {
    let a = I16F16::from_num(1.5);
    let b = I16F16::from_num(-0.5);
    assert!(b.lt(a));
    assert!(b.le(a));
    assert!(a.gt(b));
    assert!(a.ge(a));
    assert!(a.eq_v(a));
    assert!(!a.eq_v(b));
    assert!(b.is_negative());
    assert!(a.is_positive());
}

#[test]
fn gain_constants_match_their_values() {
    assert!((circular_gain_inv::<I32F32>().to_num::<f64>() - 0.6072529350088813).abs() < 1e-9);
    assert!((hyperbolic_gain::<I32F32>().to_num::<f64>() - 0.8281593609602156).abs() < 1e-9);
    assert!((hyperbolic_gain_inv::<I32F32>().to_num::<f64>() - 1.2074970677630722).abs() < 1e-9);
}

#[test]
fn sqrt_of_proven_non_negative_value() {
    let nine = NonNegative::new(I16F16::from_num(9)).unwrap();
    let root: f64 = sqrt_non_negative(nine).to_num();
    assert!((root - 3.0).abs() < 0.01);
    assert!(NonNegative::new(I16F16::from_num(-9)).is_none());
}

#[test]
fn describe_names_the_function_and_domain() {
    let err = Error::domain("acosh", "value >= 1");
    let msg = err.describe();
    assert!(msg.contains("acosh"));
    assert!(msg.contains("value >= 1"));
    let overflow = Error::overflow("exp");
    assert!(overflow.describe().contains("overflow"));
}
