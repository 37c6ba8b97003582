//! Fundamental identities checked on sampled inputs.


use fixed::types::I16F16;
use fixed_analytics::{exp, ln, sin_cos, sinh_cosh};

fn sample_bits(seed: u64, index: u64) -> i32 {
    let mut x = seed.wrapping_add(index.wrapping_mul(0x9E37_79B9_7F4A_7C15));
    x = x.wrapping_mul(0x5851_F42D_4C95_7F2D);
    x = x ^ (x >> 32);
    x as i32
}

const SAMPLES: u64 = 1000;
const SEED: u64 = 0x1234_5678_9ABC_DEF0;

#[test]
fn pythagorean_identity() {
    // sin²(x) + cos²(x) = 1
    for i in 0..SAMPLES {
        let bits = sample_bits(SEED, i);
        let x = I16F16::from_bits(bits);
        let x_f64: f64 = x.to_num();

        if x_f64.abs() > 100.0 {
            continue;
        }

        let (s, c) = sin_cos(x);
        let s_f64: f64 = s.to_num();
        let c_f64: f64 = c.to_num();
        let sum_sq = s_f64 * s_f64 + c_f64 * c_f64;

        assert!(
            (sum_sq - 1.0).abs() < 0.01,
            "sin²({x_f64}) + cos²({x_f64}) = {sum_sq}, expected 1.0"
        );
    }
}

#[test]
fn verification_hyperbolic_identity() {
    // cosh²(x) - sinh²(x) = 1
    for i in 0..SAMPLES {
        let bits = sample_bits(SEED, i);
        let x = I16F16::from_bits(bits);
        let x_f64: f64 = x.to_num();

        // Skip large values where overflow occurs
        if x_f64.abs() > 8.0 {
            continue;
        }

        let (sh, ch) = sinh_cosh(x);
        let sh_f64: f64 = sh.to_num();
        let ch_f64: f64 = ch.to_num();
        let diff = ch_f64 * ch_f64 - sh_f64 * sh_f64;

        assert!(
            (diff - 1.0).abs() < 0.02,
            "cosh²({x_f64}) - sinh²({x_f64}) = {diff}, expected 1.0"
        );
    }
}

#[test]
fn angle_addition() {
    // sin(a + b) = sin(a)cos(b) + cos(a)sin(b)
    for i in 0..200 {
        for j in 0..200 {
            let a_bits = sample_bits(SEED, i);
            let b_bits = sample_bits(SEED ^ 0xFFFF, j);

            // Use smaller values to stay in good precision range
            let a = I16F16::from_bits(a_bits >> 8);
            let b = I16F16::from_bits(b_bits >> 8);

            let (sin_a, cos_a) = sin_cos(a);
            let (sin_b, cos_b) = sin_cos(b);
            let (sin_ab, _) = sin_cos(a + b);

            // sin(a+b) should equal sin(a)cos(b) + cos(a)sin(b)
            let expected = sin_a.to_num::<f64>() * cos_b.to_num::<f64>()
                + cos_a.to_num::<f64>() * sin_b.to_num::<f64>();
            let actual: f64 = sin_ab.to_num();

            assert!(
                (actual - expected).abs() < 0.02,
                "sin({}+{}) = {actual}, expected {expected}",
                a.to_num::<f64>(),
                b.to_num::<f64>()
            );
        }
    }
}

#[test]
fn double_angle() {
    // sin(2x) = 2*sin(x)*cos(x)
    // cos(2x) = cos²(x) - sin²(x)
    for i in 0..SAMPLES {
        let bits = sample_bits(SEED, i);
        // Keep x small to avoid angle reduction errors compounding
        let x = I16F16::from_bits(bits >> 8); // Much smaller range
        let x_f64: f64 = x.to_num();

        // Skip large angles where errors compound
        if x_f64.abs() > 50.0 {
            continue;
        }

        let two_x = x + x;

        let (sin_x, cos_x) = sin_cos(x);
        let (sin_2x, cos_2x) = sin_cos(two_x);

        let expected_sin_2x = 2.0 * sin_x.to_num::<f64>() * cos_x.to_num::<f64>();
        let expected_cos_2x = cos_x.to_num::<f64>().powi(2) - sin_x.to_num::<f64>().powi(2);

        let sin_err = (sin_2x.to_num::<f64>() - expected_sin_2x).abs();
        let cos_err = (cos_2x.to_num::<f64>() - expected_cos_2x).abs();

        assert!(
            sin_err < 0.02,
            "sin(2*{}) = {}, expected {expected_sin_2x}",
            x.to_num::<f64>(),
            sin_2x.to_num::<f64>()
        );
        assert!(
            cos_err < 0.02,
            "cos(2*{}) = {}, expected {expected_cos_2x}",
            x.to_num::<f64>(),
            cos_2x.to_num::<f64>()
        );
    }
}

#[test]
fn exp_addition() {
    // exp(a + b) = exp(a) * exp(b)
    for i in 0..200 {
        for j in 0..200 {
            let a_bits = sample_bits(SEED, i);
            let b_bits = sample_bits(SEED ^ 0xFFFF, j);

            // Keep values small to avoid overflow
            // Map to roughly [-2, 2]
            let a = I16F16::from_bits(a_bits >> 14);
            let b = I16F16::from_bits(b_bits >> 14);

            let a_f64: f64 = a.to_num();
            let b_f64: f64 = b.to_num();

            // Skip if sum would overflow
            if (a_f64 + b_f64).abs() > 8.0 {
                continue;
            }

            let exp_a = exp(a);
            let exp_b = exp(b);
            let exp_ab = exp(a + b);

            let expected = exp_a.to_num::<f64>() * exp_b.to_num::<f64>();
            let actual: f64 = exp_ab.to_num();

            let rel_err = (actual - expected).abs() / expected.max(0.001);

            assert!(
                rel_err < 0.05,
                "exp({a_f64}+{b_f64}) = {actual}, expected {expected}"
            );
        }
    }
}

#[test]
fn ln_multiplication() {
    // ln(a * b) = ln(a) + ln(b)
    for i in 0..200 {
        for j in 0..200 {
            let a_bits = sample_bits(SEED, i);
            let b_bits = sample_bits(SEED ^ 0xFFFF, j);

            // Keep values in range [0.5, 128] for reasonable precision
            let a_bits = (a_bits & 0x007F_FFFF).max(0x0000_8000);
            let b_bits = (b_bits & 0x007F_FFFF).max(0x0000_8000);
            let a = I16F16::from_bits(a_bits);
            let b = I16F16::from_bits(b_bits);

            let a_f64: f64 = a.to_num();
            let b_f64: f64 = b.to_num();

            // Skip if product would overflow or underflow significantly
            let product = a_f64 * b_f64;
            if product > 10000.0 || product < 0.1 {
                continue;
            }

            let ab = a.saturating_mul(b);

            if let (Ok(ln_a), Ok(ln_b), Ok(ln_ab)) = (ln(a), ln(b), ln(ab)) {
                let expected = ln_a.to_num::<f64>() + ln_b.to_num::<f64>();
                let actual: f64 = ln_ab.to_num();

                assert!(
                    (actual - expected).abs() < 0.05,
                    "ln({a_f64}*{b_f64}) = {actual}, expected {expected}"
                );
            }
        }
    }
}
