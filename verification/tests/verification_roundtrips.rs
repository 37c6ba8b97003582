//! Inverse-function round trips.


use fixed::types::I16F16;
use fixed_analytics::{
    acos, acosh, asin, asinh, atan, atanh, cos, cosh, exp, ln, sin, sinh, tan, tanh,
};

const TOL: f64 = 0.01;

#[test]
fn verification_sin_asin_roundtrip() {
    // For x in [-1, 1]: sin(asin(x)) ≈ x
    for i in 0..200 {
        let t = (i as f64) / 199.0 * 1.98 - 0.99; // (-0.99, 0.99)
        let x = I16F16::from_num(t);

        if let Ok(asin_x) = asin(x) {
            let roundtrip = sin(asin_x);
            let err = (roundtrip.to_num::<f64>() - t).abs();
            assert!(err < TOL, "sin(asin({t})) = {}", roundtrip.to_num::<f64>());
        }
    }
}

#[test]
fn asin_sin_roundtrip() {
    // For x in [-π/2, π/2]: asin(sin(x)) ≈ x
    let half_pi = core::f64::consts::FRAC_PI_2 * 0.95;
    for i in 0..200 {
        let t = (i as f64) / 199.0 * 2.0 * half_pi - half_pi;
        let x = I16F16::from_num(t);
        let sin_x = sin(x);

        if let Ok(roundtrip) = asin(sin_x) {
            let err = (roundtrip.to_num::<f64>() - t).abs();
            assert!(err < TOL, "asin(sin({t})) = {}", roundtrip.to_num::<f64>());
        }
    }
}

#[test]
fn verification_cos_acos_roundtrip() {
    // For x in [-1, 1]: cos(acos(x)) ≈ x
    for i in 0..200 {
        let t = (i as f64) / 199.0 * 1.98 - 0.99;
        let x = I16F16::from_num(t);

        if let Ok(acos_x) = acos(x) {
            let roundtrip = cos(acos_x);
            let err = (roundtrip.to_num::<f64>() - t).abs();
            assert!(err < TOL, "cos(acos({t})) = {}", roundtrip.to_num::<f64>());
        }
    }
}

#[test]
fn verification_tan_atan_roundtrip() {
    // atan(tan(x)) ≈ x for x in (-π/2, π/2)
    let half_pi = core::f64::consts::FRAC_PI_2 * 0.9;
    for i in 0..200 {
        let t = (i as f64) / 199.0 * 2.0 * half_pi - half_pi;
        let x = I16F16::from_num(t);
        let tan_x = tan(x);
        let roundtrip = atan(tan_x);

        let err = (roundtrip.to_num::<f64>() - t).abs();
        assert!(err < TOL, "atan(tan({t})) = {}", roundtrip.to_num::<f64>());
    }
}

#[test]
fn exp_ln_roundtrip() {
    // For x > 0: exp(ln(x)) ≈ x
    for i in 1..200 {
        let t = (i as f64) / 20.0; // (0.05, 10)
        let x = I16F16::from_num(t);

        if let Ok(ln_x) = ln(x) {
            let roundtrip = exp(ln_x);
            let rel_err = (roundtrip.to_num::<f64>() - t).abs() / t;
            assert!(
                rel_err < TOL,
                "exp(ln({t})) = {}",
                roundtrip.to_num::<f64>()
            );
        }
    }
}

#[test]
fn ln_exp_roundtrip() {
    // ln(exp(x)) ≈ x for small x
    for i in 0..200 {
        let t = (i as f64) / 20.0 - 5.0; // (-5, 5)
        let x = I16F16::from_num(t);
        let exp_x = exp(x);

        if let Ok(roundtrip) = ln(exp_x) {
            let err = (roundtrip.to_num::<f64>() - t).abs();
            assert!(err < TOL, "ln(exp({t})) = {}", roundtrip.to_num::<f64>());
        }
    }
}

#[test]
fn verification_sinh_asinh_roundtrip() {
    // Hyperbolic functions have lower precision, use smaller range
    for i in 0..200 {
        let t = (i as f64) / 50.0 - 2.0; // (-2, 2)
        let x = I16F16::from_num(t);
        let sinh_x = sinh(x);
        let roundtrip = asinh(sinh_x);

        let err = (roundtrip.to_num::<f64>() - t).abs();
        assert!(
            err < TOL * 2.0,
            "asinh(sinh({t})) = {}",
            roundtrip.to_num::<f64>()
        );
    }
}

#[test]
fn verification_cosh_acosh_roundtrip() {
    // For x >= 0: acosh(cosh(x)) ≈ x (cosh is not injective, so test non-negative)
    // Use smaller range for better precision
    for i in 0..200 {
        let t = (i as f64) / 50.0; // (0, 4)
        let x = I16F16::from_num(t);
        let cosh_x = cosh(x);

        if let Ok(roundtrip) = acosh(cosh_x) {
            let err = (roundtrip.to_num::<f64>() - t).abs();
            assert!(
                err < TOL * 2.0,
                "acosh(cosh({t})) = {}",
                roundtrip.to_num::<f64>()
            );
        }
    }
}

#[test]
fn verification_tanh_atanh_roundtrip() {
    // For x in (-1, 1): tanh(atanh(x)) ≈ x
    for i in 0..200 {
        let t = (i as f64) / 199.0 * 1.9 - 0.95; // (-0.95, 0.95)
        let x = I16F16::from_num(t);

        if let Ok(atanh_x) = atanh(x) {
            let roundtrip = tanh(atanh_x);
            let err = (roundtrip.to_num::<f64>() - t).abs();
            assert!(
                err < TOL,
                "tanh(atanh({t})) = {}",
                roundtrip.to_num::<f64>()
            );
        }
    }
}
