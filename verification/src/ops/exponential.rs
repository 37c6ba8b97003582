//! Exponential and logarithmic functions.
//!
//! `exp` combines `sinh` and `cosh` after reducing its argument by
//! multiples of `ln 2`; `ln` normalizes its argument into `[1/2, 2]` and
//! computes `2 atanh((x-1)/(x+1))`; `log2`, `log10` and `pow2` derive from
//! those by a change of base.

use vstd::prelude::*;

verus! {

use vstd::arithmetic::power2::lemma_pow2_pos;
use crate::bounded::{NormalizedLnArg, OpenUnitInterval};
use crate::error::Error;
use crate::ops::hyperbolic::{sinh_cosh_m, atanh_core_m};
use crate::raw::{sat_m, div_t};
use crate::traits::{CordicNumber, one_m, ln_2_m, ln_10_m};

/// The positive reduction of the exponential: subtract `ln 2` and double
/// the scale while the residue exceeds `ln 2`, up to 128 rounds.
pub open spec fn exp_reduce_pos_m(red: int, scale: int, it: nat, fb: u32, tb: u32) -> (int, int)
    decreases 128 - it,
{
    let l2 = ln_2_m(fb);
    if !(red > l2) || it >= 128 {
        (red, scale)
    } else {
        exp_reduce_pos_m(sat_m(red - l2, tb), sat_m(scale + scale, tb), it + 1, fb, tb)
    }
}

/// The negative reduction of the exponential: add `ln 2` and halve the
/// scale while the residue is below `-ln 2`, up to 128 rounds.
pub open spec fn exp_reduce_neg_m(red: int, scale: int, it: nat, fb: u32, tb: u32) -> (int, int)
    decreases 128 - it,
{
    let l2 = ln_2_m(fb);
    if !(red < -l2) || it >= 128 {
        (red, scale)
    } else {
        exp_reduce_neg_m(sat_m(red + l2, tb), scale / 2, it + 1, fb, tb)
    }
}

/// The exact mantissa the exponential computes: the reduced residue's
/// `sinh + cosh`, rescaled by the accumulated power-of-two factor.
pub open spec fn exp_m(xm: int, fb: u32, tb: u32) -> int {
    let om = vstd::arithmetic::power2::pow2(fb as nat) as int;
    if xm == 0 {
        om
    } else {
        let ax = sat_m(if xm < 0 { -xm } else { xm }, tb);
        let thr = sat_m(2 * ln_2_m(fb), tb);
        if ax > thr {
            let rs = if xm > 0 {
                exp_reduce_pos_m(xm, om, 0, fb, tb)
            } else {
                exp_reduce_neg_m(xm, om, 0, fb, tb)
            };
            let sc = sinh_cosh_m(rs.0, fb, tb);
            let er = sat_m(sc.1 + sc.0, tb);
            sat_m(rs.1 * er / om, tb)
        } else {
            let sc = sinh_cosh_m(xm, fb, tb);
            sat_m(sc.1 + sc.0, tb)
        }
    }
}

/// Halve the argument until it is at most two, adding `ln 2` to the
/// accumulator per halving.
pub open spec fn ln_halve_m(n: int, k: int, fb: u32, tb: u32) -> (int, int)
    decreases n
    via ln_halve_m_dec
{
    let om = vstd::arithmetic::power2::pow2(fb as nat) as int;
    if !(n > 2 * om) {
        (n, k)
    } else {
        ln_halve_m(n / 2, sat_m(k + ln_2_m(fb), tb), fb, tb)
    }
}

#[via_fn]
proof fn ln_halve_m_dec(n: int, k: int, fb: u32, tb: u32) {
    lemma_pow2_pos(fb as nat);
    if n > 2 * vstd::arithmetic::power2::pow2(fb as nat) as int {
        vstd::arithmetic::div_mod::lemma_div_is_strictly_smaller(n, 2);
        crate::raw::lemma_div_shrinks(n, 2);
    }
}

/// Double the argument until it is at least one half, subtracting `ln 2`
/// from the accumulator per doubling, up to 128 rounds.
pub open spec fn ln_double_m(n: int, k: int, d: nat, fb: u32, tb: u32) -> (int, int)
    decreases 128 - d,
{
    let hm = vstd::arithmetic::power2::pow2((fb - 1) as nat) as int;
    if !(n < hm) || d >= 128 {
        (n, k)
    } else {
        ln_double_m(sat_m(n + n, tb), sat_m(k - ln_2_m(fb), tb), d + 1, fb, tb)
    }
}

/// The exact mantissa the natural logarithm computes for a positive
/// argument other than one: twice the inverse hyperbolic tangent of the
/// normalized quotient `(n - 1) / (n + 1)`, plus the accumulated
/// multiples of `ln 2`.
pub open spec fn ln_m(xm: int, fb: u32, tb: u32) -> int {
    let om = vstd::arithmetic::power2::pow2(fb as nat) as int;
    let h = ln_halve_m(xm, 0, fb, tb);
    let nk = ln_double_m(h.0, h.1, 0, fb, tb);
    let q = sat_m(div_t((nk.0 - om) * om, nk.0 + om), tb);
    let a = atanh_core_m(q, fb, tb);
    sat_m(sat_m(a + a, tb) + nk.1, tb)
}

/// The mantissa the natural logarithm answers on its whole domain: zero
/// at one, the model elsewhere.
pub open spec fn ln_ok_m(xm: int, fb: u32, tb: u32) -> int {
    if xm == vstd::arithmetic::power2::pow2(fb as nat) as int {
        0
    } else {
        ln_m(xm, fb, tb)
    }
}

/// Computes the exponential function `e^x`.
///
/// Large arguments are reduced by multiples of `ln 2` while a power-of-two
/// scale factor accumulates; extreme inputs saturate at the representable
/// bounds instead of overflowing.  `exp(0)` is exactly one, and the result
/// is exactly the value of the model.
pub fn exp<T: CordicNumber>(x: T) -> (r: T)
    requires
        T::tb() <= 64,
    ensures
        r.bv() == exp_m(x.bv(), T::fb(), T::tb()),
        x.bv() == 0 ==> r.bv() == one_m(T::fb()),
{
    let fbits = T::frac_bits();
    let zero = T::zero();
    let one = T::one();
    let ln2 = T::ln_2();
    let ghost xm = x.bv();

    if x.eq_v(zero) {
        return one;
    }

    proof {
        lemma_pow2_pos(T::fb() as nat);
        lemma_pow2_pos((T::tb() - 1) as nat);
    }

    let abs_x = x.abs();
    let threshold = ln2.saturating_add(ln2);

    if abs_x.gt(threshold) {
        // exp(x) = 2^k * exp(x - k ln 2), with the scale applied by
        // repeated doubling or halving.
        let mut reduced = x;
        let mut scale_factor = one;
        let max_iterations: u32 = 128;
        let mut iterations: u32 = 0;

        if x.is_positive() {
            while reduced.gt(ln2) && iterations < max_iterations
                invariant
                    iterations <= max_iterations,
                    max_iterations == 128,
                    T::tb() <= 64,
                    ln2.bv() == ln_2_m(T::fb()),
                    exp_reduce_pos_m(
                        reduced.bv(),
                        scale_factor.bv(),
                        iterations as nat,
                        T::fb(),
                        T::tb(),
                    ) == exp_reduce_pos_m(xm, one_m(T::fb()), 0, T::fb(), T::tb()),
                decreases max_iterations - iterations,
            {
                reduced = reduced.saturating_sub(ln2);
                scale_factor = scale_factor.saturating_add(scale_factor);
                iterations = iterations + 1;
            }
            proof {
                assert(exp_reduce_pos_m(
                    reduced.bv(),
                    scale_factor.bv(),
                    iterations as nat,
                    T::fb(),
                    T::tb(),
                ) == (reduced.bv(), scale_factor.bv()));
            }
        } else {
            let neg_ln2 = ln2.neg();
            while reduced.lt(neg_ln2) && iterations < max_iterations
                invariant
                    iterations <= max_iterations,
                    max_iterations == 128,
                    T::tb() <= 64,
                    ln2.bv() == ln_2_m(T::fb()),
                    neg_ln2.bv() == -ln_2_m(T::fb()),
                    exp_reduce_neg_m(
                        reduced.bv(),
                        scale_factor.bv(),
                        iterations as nat,
                        T::fb(),
                        T::tb(),
                    ) == exp_reduce_neg_m(xm, one_m(T::fb()), 0, T::fb(), T::tb()),
                decreases max_iterations - iterations,
            {
                proof {
                    vstd::arithmetic::power2::lemma2_to64();
                }
                reduced = reduced.saturating_add(ln2);
                scale_factor = scale_factor.shr(1);
                iterations = iterations + 1;
            }
            proof {
                assert(exp_reduce_neg_m(
                    reduced.bv(),
                    scale_factor.bv(),
                    iterations as nat,
                    T::fb(),
                    T::tb(),
                ) == (reduced.bv(), scale_factor.bv()));
            }
        }

        let sc = crate::ops::hyperbolic::sinh_cosh(reduced);
        let exp_r = sc.1.saturating_add(sc.0);
        return scale_factor.saturating_mul(exp_r);
    }

    let sc = crate::ops::hyperbolic::sinh_cosh(x);
    sc.1.saturating_add(sc.0)
}

/// Computes the natural logarithm of a positive value.
///
/// The argument is halved or doubled into `[1/2, 2]` — the normalization
/// that [`NormalizedLnArg`] captures — while multiples of `ln 2`
/// accumulate; the normalized part is `2 atanh((x-1)/(x+1))`, whose
/// argument the bounded types prove to lie inside `(-1, 1)`.  `ln(1)` is
/// exactly zero.
pub fn ln<T: CordicNumber>(x: T) -> (r: Result<T, Error>)
    requires
        T::tb() <= 64,
    ensures
        x.bv() <= 0 <==> r is Err,
        r is Err ==> r == Err::<T, Error>(Error::DomainError {
            function: "ln",
            expected: "positive value" }),
        x.bv() == one_m(T::fb()) ==> (r matches Ok(v) && v.bv() == 0),
        r matches Ok(v) ==> v.bv() == ln_ok_m(x.bv(), T::fb(), T::tb()),
{
    let fbits = T::frac_bits();
    let zero = T::zero();
    let one = T::one();
    let two = T::two();
    let half = T::half();
    let ln2 = T::ln_2();
    let ghost xm = x.bv();

    if x.le(zero) {
        return Err(Error::DomainError { function: "ln", expected: "positive value" });
    }

    if x.eq_v(one) {
        return Ok(zero);
    }

    proof {
        lemma_pow2_pos(T::fb() as nat);
        lemma_pow2_pos((T::tb() - 1) as nat);
    }

    // Normalize into [1/2, 2], accumulating k * ln 2.
    let mut normalized = x;
    let mut k_ln2 = zero;

    while normalized.gt(two)
        invariant
            normalized.bv() >= 1,
            T::tb() <= 64,
            4 <= T::fb(),
            T::fb() + 3 <= T::tb(),
            two.bv() == 2 * one_m(T::fb()),
            ln2.bv() == ln_2_m(T::fb()),
            ln_halve_m(normalized.bv(), k_ln2.bv(), T::fb(), T::tb())
                == ln_halve_m(xm, 0, T::fb(), T::tb()),
        decreases normalized.bv(),
    {
        proof {
            lemma_pow2_pos(T::fb() as nat);
            crate::raw::lemma_div_shrinks(normalized.bv(), 2);
            vstd::arithmetic::power2::lemma2_to64();
            assert(normalized.bv() / 2 >= 1) by {
                vstd::arithmetic::div_mod::lemma_div_is_ordered(2, normalized.bv(), 2);
            };
            assert(normalized.bv() / 2 < normalized.bv()) by {
                vstd::arithmetic::div_mod::lemma_div_is_strictly_smaller(normalized.bv(), 2);
            };
        }
        normalized = normalized.shr(1);
        k_ln2 = k_ln2.saturating_add(ln2);
    }

    proof {
        lemma_pow2_pos(T::fb() as nat);
        vstd::arithmetic::power2::lemma_pow2_adds(T::fb() as nat, 1);
        vstd::arithmetic::power2::lemma_pow2_strictly_increases(
            (T::fb() + 1) as nat,
            (T::tb() - 1) as nat,
        );
        assert(ln_halve_m(normalized.bv(), k_ln2.bv(), T::fb(), T::tb())
            == (normalized.bv(), k_ln2.bv()));
        vstd::arithmetic::power2::lemma2_to64();
    }
    let ghost half_done = (normalized.bv(), k_ln2.bv());
    let mut doublings: u32 = 0;
    while normalized.lt(half) && doublings < 128
        invariant
            normalized.bv() >= 1,
            normalized.bv() <= 2 * one_m(T::fb()),
            normalized.bv() >= vstd::arithmetic::power2::pow2(doublings as nat) as int,
            doublings <= 128,
            T::tb() <= 64,
            4 <= T::fb(),
            T::fb() + 3 <= T::tb(),
            half.bv() * 2 == one_m(T::fb()),
            half.bv() == vstd::arithmetic::power2::pow2((T::fb() - 1) as nat) as int,
            ln2.bv() == ln_2_m(T::fb()),
            ln_double_m(normalized.bv(), k_ln2.bv(), doublings as nat, T::fb(), T::tb())
                == ln_double_m(half_done.0, half_done.1, 0, T::fb(), T::tb()),
        decreases 128 - doublings,
    {
        proof {
            vstd::arithmetic::power2::lemma2_to64();
            lemma_pow2_pos(T::fb() as nat);
            lemma_pow2_pos((T::tb() - 1) as nat);
            vstd::arithmetic::power2::lemma_pow2_strictly_increases(1, (T::tb() - 1) as nat);
            vstd::arithmetic::power2::lemma_pow2_adds(T::fb() as nat, 1);
            vstd::arithmetic::power2::lemma_pow2_strictly_increases(
                (T::fb() + 1) as nat,
                (T::tb() - 1) as nat,
            );
        }
        proof {
            vstd::arithmetic::power2::lemma_pow2_unfold((doublings + 1) as nat);
        }
        normalized = normalized.saturating_add(normalized);
        k_ln2 = k_ln2.saturating_sub(ln2);
        doublings = doublings + 1;
    }

    proof {
        // The doubling loop cannot run out of rounds: the value at least
        // doubles each time and the representable range is far below
        // 2^128, so the loop exits with the argument at least one half.
        lemma_pow2_pos(T::fb() as nat);
        vstd::arithmetic::power2::lemma_pow2_adds(T::fb() as nat, 1);
        if doublings == 128 {
            crate::raw::lemma_pow2_127();
            vstd::arithmetic::power2::lemma_pow2_adds(127, 1);
            crate::raw::lemma_pow2_increases((T::fb() + 1) as nat, 64);
            vstd::arithmetic::power2::lemma2_to64();
            vstd::arithmetic::power2::lemma2_to64_rest();
            assert(false);
        }
        assert(normalized.bv() >= half.bv());
        assert(ln_double_m(normalized.bv(), k_ln2.bv(), doublings as nat, T::fb(), T::tb())
            == (normalized.bv(), k_ln2.bv()));
    }
    let norm = NormalizedLnArg::from_normalized(normalized);
    let arg = OpenUnitInterval::from_normalized_ln_arg(norm);
    let atanh_val = crate::ops::hyperbolic::atanh_core(arg.get());
    let ln_normalized = atanh_val.saturating_add(atanh_val);

    Ok(ln_normalized.saturating_add(k_ln2))
}

/// Computes the base-2 logarithm, `ln(x) / ln 2`, of a positive value:
/// exactly the logarithm model's value divided by `ln 2`.
pub fn log2<T: CordicNumber>(x: T) -> (r: Result<T, Error>)
    requires
        T::tb() <= 64,
    ensures
        x.bv() <= 0 <==> r is Err,
        r is Err ==> r == Err::<T, Error>(Error::DomainError {
            function: "ln",
            expected: "positive value" }),
        r matches Ok(v) ==> v.bv() == sat_m(
            div_t(ln_ok_m(x.bv(), T::fb(), T::tb()) * one_m(T::fb()), ln_2_m(T::fb())),
            T::tb(),
        ),
{
    let fbits = T::frac_bits();
    proof {
        lemma_pow2_pos(T::fb() as nat);
    }
    match ln(x) {
        Ok(ln_x) => {
            let ln2 = T::ln_2();
            proof {
                lemma_ln2_positive::<T>();
            }
            Ok(ln_x.div(ln2))
        },
        Err(e) => Err(e)}
}

/// Computes the base-10 logarithm, `ln(x) / ln 10`, of a positive value:
/// exactly the logarithm model's value divided by `ln 10`.
pub fn log10<T: CordicNumber>(x: T) -> (r: Result<T, Error>)
    requires
        T::tb() <= 64,
    ensures
        x.bv() <= 0 <==> r is Err,
        r is Err ==> r == Err::<T, Error>(Error::DomainError {
            function: "ln",
            expected: "positive value" }),
        r matches Ok(v) ==> v.bv() == sat_m(
            div_t(ln_ok_m(x.bv(), T::fb(), T::tb()) * one_m(T::fb()), ln_10_m(T::fb())),
            T::tb(),
        ),
{
    match ln(x) {
        Ok(ln_x) => {
            let ln10 = T::ln_10();
            proof {
                lemma_pow2_pos(T::fb() as nat);
            }
            Ok(ln_x.div(ln10))
        },
        Err(e) => Err(e)}
}

/// The mantissa of `ln 2` is positive for every supported width.
proof fn lemma_ln2_positive<T: CordicNumber>()
    requires
        4 <= T::fb(),
        T::fb() <= 125,
    ensures
        ln_2_m(T::fb()) > 0,
{
    vstd::arithmetic::power2::lemma2_to64();
    vstd::arithmetic::power2::lemma2_to64_rest();
    crate::traits::lemma_const_positive(crate::traits::LN_2_I4F60 as int, T::fb());
}

/// Computes `2^x` as `exp(x ln 2)`; saturates at the representable bounds
/// for extreme arguments, and is exactly the exponential model applied to
/// the product.
pub fn pow2<T: CordicNumber>(x: T) -> (r: T)
    requires
        T::tb() <= 64,
    ensures
        x.bv() == 0 ==> r.bv() == one_m(T::fb()),
        r.bv() == exp_m(
            sat_m(x.bv() * ln_2_m(T::fb()) / one_m(T::fb()), T::tb()),
            T::fb(),
            T::tb(),
        ),
{
    let ln2 = T::ln_2();
    proof {
        lemma_pow2_pos(T::fb() as nat);
        lemma_pow2_pos((T::tb() - 1) as nat);
        if x.bv() == 0 {
            assert(sat_m(0 * ln2.bv() / one_m(T::fb()), T::tb()) == 0) by {
                assert(0 * ln2.bv() == 0) by (nonlinear_arith);
                vstd::arithmetic::div_mod::lemma_div_of0(one_m(T::fb()));
            };
        }
    }
    exp(x.saturating_mul(ln2))
}

} // verus!
