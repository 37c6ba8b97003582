//! Hyperbolic functions.
//!
//! `sinh_cosh` drives everything: large arguments are halved and rebuilt
//! through the double-angle identities, very small ones use a short Taylor
//! polynomial (the first CORDIC hyperbolic step would overshoot them), and
//! the remaining range runs the hyperbolic rotation kernel.  The inverse
//! functions reduce to the hyperbolic vectoring kernel through algebraic
//! identities, with the bounded types discharging their domain conditions.

use vstd::prelude::*;

verus! {

use vstd::arithmetic::power2::{pow2, lemma_pow2_pos, lemma_pow2_adds, lemma2_to64};
use vstd::arithmetic::div_mod::{lemma_div_is_ordered,
    lemma_div_is_strictly_smaller,
    lemma_fundamental_div_mod,
    lemma_fundamental_div_mod_converse_div,
    lemma_mod_bound,
    lemma_div_multiples_vanish};
use crate::error::Error;
use crate::kernel::cordic::{hyperbolic_gain_inv, hyperbolic_rotation, hyperbolic_vectoring};
use crate::raw::{rescale_m, max_m, sat_m, div_t};
use crate::tables::hyperbolic::{ATANH_HALF, HYPERBOLIC_GAIN_INV};
use crate::traits::{CordicNumber, one_m};

/// The fractional part of the hyperbolic convergence limit, about
/// `0.1182`, as a bit pattern with 63 fractional bits; the limit itself is
/// one plus this value.
pub const HYPERBOLIC_LIMIT_FRAC: i64 = 0x0F22_3D70_A3D7_0A3D;

/// `0.1`, as a bit pattern with 63 fractional bits: the threshold under
/// which the Taylor fallback replaces the CORDIC iteration on types with
/// fewer than 24 fractional bits.
pub const SMALL_SINH_FRAC: i64 = 0x0CCC_CCCC_CCCC_CCCD;

/// `0.05`, as a bit pattern with 63 fractional bits: the Taylor threshold
/// for types with at least 24 fractional bits.
pub const SMALL_SINH_HI_FRAC: i64 = 0x0666_6666_6666_6666;

/// `0.75`, as a bit pattern with 63 fractional bits: the largest argument
/// the hyperbolic vectoring kernel takes directly.
pub const ATANH_DIRECT_FRAC: i64 = 0x6000_0000_0000_0000;

/// A positive sub-unit bit pattern (63 fractional bits) at least as large
/// as one target unit rescales to a mantissa in `[1, 2^fb)`.
proof fn lemma_frac_const_range(bits: int, fb: u32)
    requires
        pow2((63 - fb) as nat) <= bits < pow2(63),
        4 <= fb <= 61,
    ensures
        1 <= rescale_m(bits, 63, fb) < pow2(fb as nat),
{
    let d = pow2((63 - fb) as nat) as int;
    let om = pow2(fb as nat) as int;
    lemma_pow2_pos((63 - fb) as nat);
    lemma_pow2_pos(fb as nat);
    lemma_pow2_adds(fb as nat, (63 - fb) as nat);
    assert(om * d == pow2(63) as int);
    // Lower bound: bits >= d, so the quotient is at least one.
    lemma_div_is_ordered(d, bits, d);
    lemma_div_multiples_vanish(1, d);
    // Upper bound: bits <= om * d - 1.
    lemma_div_is_ordered(bits, om * d - 1, d);
    assert(om * d - 1 == (om - 1) * d + (d - 1)) by (nonlinear_arith);
    lemma_fundamental_div_mod_converse_div(om * d - 1, d, om - 1, d - 1);
}

/// At zero every Taylor term vanishes: dividing and shifting a zero
/// mantissa yields zero.
proof fn lemma_zero_taylor_terms(d: int)
    requires
        d > 0,
    ensures
        div_t(0, d) == 0,
        forall|k: nat| #[trigger] (0int / pow2(k) as int) == 0,
{
    assert forall|k: nat| #[trigger] (0int / pow2(k) as int) == 0 by {
        lemma_pow2_pos(k);
        vstd::arithmetic::div_mod::lemma_div_of0(pow2(k) as int);
    };
}

/// The supported format shape: at least four fractional bits, at least
/// three integer bits, at most 64 bits in all.
pub open spec fn hyp_wf(fb: u32, tb: u32) -> bool {
    4 <= fb && fb + 3 <= tb && tb <= 64
}

/// The exact mantissa pair the hyperbolic sine and cosine compute: the
/// double-angle reconstruction above the convergence limit, the Taylor
/// polynomial below the small threshold, and the hyperbolic rotation from
/// `(1/K_h, 0, x)` in between.
pub open spec fn sinh_cosh_m(xm: int, fb: u32, tb: u32) -> (int, int)
    decreases (if xm < 0 { -xm } else { xm })
    via sinh_cosh_m_dec
{
    let om = pow2(fb as nat) as int;
    if !hyp_wf(fb, tb) {
        (0, om)
    } else {
        let limit = om + rescale_m(HYPERBOLIC_LIMIT_FRAC as int, 63, fb);
        let ax = sat_m(if xm < 0 { -xm } else { xm }, tb);
        if ax > limit {
            let sc = sinh_cosh_m(xm / 2, fb, tb);
            let sh = sc.0;
            let ch = sc.1;
            let sinh_r = sat_m(sat_m(sh * ch / om, tb) * (2 * om) / om, tb);
            let cosh_r = sat_m(sat_m(ch * ch / om, tb) + sat_m(sh * sh / om, tb), tb);
            (sinh_r, cosh_r)
        } else {
            let thr = if fb >= 24 {
                rescale_m(SMALL_SINH_HI_FRAC as int, 63, fb)
            } else {
                rescale_m(SMALL_SINH_FRAC as int, 63, fb)
            };
            if ax < thr {
                sinh_cosh_taylor_m(xm, fb, tb)
            } else {
                let ig = rescale_m(HYPERBOLIC_GAIN_INV as int, 62, fb);
                let rot = crate::kernel::cordic::hyp_iter(
                    (ig, 0, xm),
                    crate::kernel::cordic::hyp_rot_iterations(fb),
                    1,
                    false,
                    false,
                    fb,
                    tb,
                );
                (rot.1, rot.0)
            }
        }
    }
}

/// The Taylor fallback: `x + x^3/6 (+ x^5/120)` and
/// `1 + x^2/2 + x^4/24 (+ x^6/720)`, with the extra terms on formats of at
/// least 24 fractional bits and two spare integer bits.
pub open spec fn sinh_cosh_taylor_m(xm: int, fb: u32, tb: u32) -> (int, int) {
    let om = pow2(fb as nat) as int;
    let three = 3 * om;
    let five = 5 * om;
    let x_sq = sat_m(xm * xm / om, tb);
    let x_cu = sat_m(x_sq * xm / om, tb);
    let x_4 = sat_m(x_sq * x_sq / om, tb);
    let sinh3 = sat_m(xm + sat_m(div_t((x_cu / 2) * om, three), tb), tb);
    let cosh4 = sat_m(
        sat_m(om + x_sq / 2, tb) + sat_m(div_t((x_4 / 8) * om, three), tb),
        tb,
    );
    if fb >= 24 && tb >= fb + 5 {
        let x_5 = sat_m(x_4 * xm / om, tb);
        let x_6 = sat_m(x_4 * x_sq / om, tb);
        let t5 = sat_m(div_t(sat_m(div_t((x_5 / 8) * om, three), tb) * om, five), tb);
        let t6 = sat_m(
            div_t(sat_m(div_t(sat_m(div_t((x_6 / 16) * om, three), tb) * om, three), tb) * om, five),
            tb,
        );
        (sat_m(sinh3 + t5, tb), sat_m(cosh4 + t6, tb))
    } else {
        (sinh3, cosh4)
    }
}

#[via_fn]
proof fn sinh_cosh_m_dec(xm: int, fb: u32, tb: u32) {
    if hyp_wf(fb, tb) {
        let om = pow2(fb as nat) as int;
        lemma_pow2_pos(fb as nat);
        lemma_pow2_pos((tb - 1) as nat);
        lemma2_to64();
        vstd::arithmetic::power2::lemma_pow2_strictly_increases(2, fb as nat);
        // The limit is at least one unit: the stored fraction is positive.
        assert(rescale_m(HYPERBOLIC_LIMIT_FRAC as int, 63, fb) >= 0) by {
            lemma_pow2_pos((63 - fb) as nat);
            vstd::arithmetic::div_mod::lemma_div_pos_is_pos(
                HYPERBOLIC_LIMIT_FRAC as int,
                pow2((63 - fb) as nat) as int,
            );
        };
        let limit = om + rescale_m(HYPERBOLIC_LIMIT_FRAC as int, 63, fb);
        let ax = sat_m(if xm < 0 { -xm } else { xm }, tb);
        if ax > limit {
            // |xm| is at least the limit, so halving strictly shrinks it.
            assert(xm >= 2 || xm <= -2);
            crate::raw::lemma_div_shrinks(xm, 2);
            if xm > 0 {
                lemma_div_is_strictly_smaller(xm, 2);
            } else {
                let q = xm / 2;
                lemma_fundamental_div_mod(xm, 2);
                lemma_mod_bound(xm, 2);
                assert(q != xm) by (nonlinear_arith)
                    requires
                        xm == q * 2 + xm % 2,
                        0 <= xm % 2 < 2,
                        xm <= -2,
                ;
            }
        }
    }
}

/// Computes the hyperbolic sine and cosine simultaneously.
///
/// `sinh_cosh(0)` is exactly `(0, 1)`, and the result is exactly the value
/// of the model above.
pub fn sinh_cosh<T: CordicNumber>(x: T) -> (r: (T, T))
    requires
        T::tb() <= 64,
    ensures
        (r.0.bv(), r.1.bv()) == sinh_cosh_m(x.bv(), T::fb(), T::tb()),
        x.bv() == 0 ==> r.0.bv() == 0 && r.1.bv() == one_m(T::fb()),
    decreases
        (if x.bv() < 0 { -x.bv() } else { x.bv() }),
{
    let zero = T::zero();
    let one = T::one();
    let fbits = T::frac_bits();
    proof {
        lemma_pow2_pos(T::fb() as nat);
        lemma_pow2_pos((T::tb() - 1) as nat);
        lemma_pow2_adds(T::fb() as nat, 1);
        vstd::arithmetic::power2::lemma_pow2_strictly_increases(
            T::fb() as nat,
            (T::tb() - 1) as nat,
        );
        vstd::arithmetic::power2::lemma_pow2_strictly_increases(
            (T::fb() + 1) as nat,
            (T::tb() - 1) as nat,
        );
        lemma2_to64();
        vstd::arithmetic::power2::lemma2_to64_rest();
        crate::raw::lemma_pow2_increases((63 - T::fb()) as nat, 59);
        lemma_frac_const_range(HYPERBOLIC_LIMIT_FRAC as int, T::fb());
        lemma_frac_const_range(SMALL_SINH_FRAC as int, T::fb());
        if T::fb() >= 24 {
            crate::raw::lemma_pow2_increases((63 - T::fb()) as nat, 58);
            lemma_frac_const_range(SMALL_SINH_HI_FRAC as int, T::fb());
        }
        vstd::arithmetic::power2::lemma_pow2_strictly_increases(2, T::fb() as nat);
    }
    let limit = one.saturating_add(T::from_i64_frac(HYPERBOLIC_LIMIT_FRAC));
    let abs_x = x.abs();
    proof {
        assert(limit.bv() >= one_m(T::fb()));
    }

    if abs_x.gt(limit) {
        // sinh(2u) = 2 sinh(u) cosh(u); cosh(2u) = cosh(u)^2 + sinh(u)^2.
        let half_x = x.shr(1);
        proof {
            lemma2_to64();
            crate::raw::lemma_div_shrinks(x.bv(), 2);
            if x.bv() > 0 {
                lemma_div_is_strictly_smaller(x.bv(), 2);
            } else {
                // x <= -4: the floor quotient is strictly above x.
                let q = x.bv() / 2;
                lemma_fundamental_div_mod(x.bv(), 2);
                lemma_mod_bound(x.bv(), 2);
                assert(q != x.bv()) by (nonlinear_arith)
                    requires
                        x.bv() == q * 2 + x.bv() % 2,
                        0 <= x.bv() % 2 < 2,
                        x.bv() <= -4,
                ;
            }
        }
        let sc = sinh_cosh(half_x);
        let sh = sc.0;
        let ch = sc.1;
        let two = T::two();
        let sinh_result = sh.saturating_mul(ch).saturating_mul(two);
        let cosh_result = ch.saturating_mul(ch).saturating_add(sh.saturating_mul(sh));
        return (sinh_result, cosh_result);
    }

    // Taylor fallback for small arguments, where the first CORDIC step
    // (atanh(1/2), about 0.55) would overshoot: a short polynomial is more
    // accurate.  High-precision types use a tighter threshold and two more
    // terms.
    let high_precision = fbits >= 24;
    let small_threshold = T::from_i64_frac(
        if high_precision {
            SMALL_SINH_HI_FRAC
        } else {
            SMALL_SINH_FRAC
        },
    );
    if abs_x.lt(small_threshold) {
        let tbits = T::total_bits();
        let three = one.saturating_add(T::two());
        let ghost om = one_m(T::fb());
        proof {
            lemma_pow2_adds(T::fb() as nat, 2);
            vstd::arithmetic::power2::lemma_pow2_unfold((T::fb() + 2) as nat);
            vstd::arithmetic::power2::lemma_pow2_unfold((T::fb() + 1) as nat);
            crate::raw::lemma_pow2_increases((T::fb() + 2) as nat, (T::tb() - 1) as nat);
            assert(three.bv() > 0);
            if x.bv() == 0 {
                assert(x.bv() * x.bv() == 0) by (nonlinear_arith)
                    requires
                        x.bv() == 0,
                ;
                vstd::arithmetic::div_mod::lemma_div_of0(om);
                vstd::arithmetic::div_mod::lemma_div_of0(pow2(1) as int);
            }
        }
        // sinh(x) ~ x + x^3/6 (+ x^5/120); cosh(x) ~ 1 + x^2/2 + x^4/24
        // (+ x^6/720).  The divisors come as halvings and divisions by
        // three and five, which every supported width represents.
        let x_sq = x.saturating_mul(x);
        let x_cu = x_sq.saturating_mul(x);
        let x_4 = x_sq.saturating_mul(x_sq);
        let sinh3 = x.saturating_add(x_cu.shr(1).div(three));
        let cosh4 = one.saturating_add(x_sq.shr(1)).saturating_add(x_4.shr(3).div(three));
        proof {
            if x.bv() == 0 {
                lemma_zero_taylor_terms(three.bv());
            }
        }
        if high_precision && tbits >= fbits + 5 {
            let five = T::two().saturating_add(three);
            proof {
                lemma_pow2_adds(T::fb() as nat, 3);
                crate::raw::lemma_pow2_increases((T::fb() + 3) as nat, (T::tb() - 1) as nat);
                vstd::arithmetic::power2::lemma_pow2_unfold((T::fb() + 3) as nat);
                assert(five.bv() > 0);
                if x.bv() == 0 {
                    lemma_zero_taylor_terms(five.bv());
                }
            }
            let x_5 = x_4.saturating_mul(x);
            let x_6 = x_4.saturating_mul(x_sq);
            let sinh5 = sinh3.saturating_add(x_5.shr(3).div(three).div(five));
            let cosh6 = cosh4.saturating_add(x_6.shr(4).div(three).div(three).div(five));
            return (sinh5, cosh6);
        }
        return (sinh3, cosh4);
    }

    // Here the Taylor branch has already handled zero: the threshold is at
    // least one mantissa unit, so this branch only sees non-zero inputs.
    let inv_gain = hyperbolic_gain_inv::<T>();
    let rot = hyperbolic_rotation(inv_gain, zero, x);
    proof {
        assert(x.bv() != 0);
    }
    (rot.1, rot.0)
}

/// Computes the hyperbolic sine: the first component of the model;
/// `sinh(0)` is exactly zero.
pub fn sinh<T: CordicNumber>(x: T) -> (r: T)
    requires
        T::tb() <= 64,
    ensures
        r.bv() == sinh_cosh_m(x.bv(), T::fb(), T::tb()).0,
        x.bv() == 0 ==> r.bv() == 0,
{
    sinh_cosh(x).0
}

/// Computes the hyperbolic cosine: the second component of the model;
/// `cosh(0)` is exactly one.
pub fn cosh<T: CordicNumber>(x: T) -> (r: T)
    requires
        T::tb() <= 64,
    ensures
        r.bv() == sinh_cosh_m(x.bv(), T::fb(), T::tb()).1,
        x.bv() == 0 ==> r.bv() == one_m(T::fb()),
{
    sinh_cosh(x).1
}

/// The quotient a hyperbolic ratio forms from a sine and cosine pair: the
/// truncated fixed-point division of `num` by `den`, or the representable
/// extreme of `num`'s sign where `den` rounded to exactly zero.
pub open spec fn hyp_quot_m(num: int, den: int, fb: u32, tb: u32) -> int {
    if den == 0 {
        if num < 0 {
            crate::raw::min_m(tb)
        } else {
            max_m(tb)
        }
    } else {
        sat_m(div_t(num * pow2(fb as nat) as int, den), tb)
    }
}

/// The clamp of `v` strictly inside the unit interval.
pub open spec fn clamp_open_m(v: int, fb: u32, tb: u32) -> int {
    let om = pow2(fb as nat) as int;
    if v >= om {
        sat_m(om - 1, tb)
    } else if v <= -om {
        sat_m(-(sat_m(om - 1, tb)), tb)
    } else {
        v
    }
}

/// Computes the hyperbolic tangent `sinh/cosh`; the result lies strictly
/// inside `(-1, 1)`, the function's mathematical range, to which it is
/// clamped, and is exactly the clamped quotient of the model pair.
pub fn tanh<T: CordicNumber>(x: T) -> (r: T)
    requires
        T::tb() <= 64,
    ensures
        -one_m(T::fb()) < r.bv() < one_m(T::fb()),
        x.bv() == 0 ==> r.bv() == 0,
        x.bv() != 0 ==> r.bv() == clamp_open_m(
            hyp_quot_m(
                sinh_cosh_m(x.bv(), T::fb(), T::tb()).0,
                sinh_cosh_m(x.bv(), T::fb(), T::tb()).1,
                T::fb(),
                T::tb(),
            ),
            T::fb(),
            T::tb(),
        ),
{
    let fbits = T::frac_bits();
    let zero = T::zero();
    if x.eq_v(zero) {
        proof {
            lemma_pow2_pos(T::fb() as nat);
        }
        return zero;
    }
    let sc = sinh_cosh(x);
    let q = if sc.1.eq_v(zero) {
        if sc.0.is_negative() {
            T::min_value()
        } else {
            T::max_value()
        }
    } else {
        sc.0.div(sc.1)
    };
    clamp_open_unit(q)
}

/// Computes the hyperbolic cotangent `cosh/sinh` of a non-zero value.
///
/// The function has a pole at zero, where it is mathematically undefined;
/// `coth(0)` reports a domain error, the deterministic convention this
/// crate documents.  Elsewhere the result is exactly the reciprocal
/// quotient of the model pair.
pub fn coth<T: CordicNumber>(x: T) -> (r: Result<T, Error>)
    requires
        T::tb() <= 64,
    ensures
        x.bv() == 0 <==> r is Err,
        r is Err ==> r == Err::<T, Error>(Error::DomainError {
            function: "coth",
            expected: "non-zero value" }),
        r matches Ok(v) ==> v.bv() == hyp_quot_m(
            sinh_cosh_m(x.bv(), T::fb(), T::tb()).1,
            sinh_cosh_m(x.bv(), T::fb(), T::tb()).0,
            T::fb(),
            T::tb(),
        ),
{
    let zero = T::zero();
    if x.eq_v(zero) {
        return Err(Error::DomainError { function: "coth", expected: "non-zero value" });
    }
    let sc = sinh_cosh(x);
    if sc.0.eq_v(zero) {
        if sc.1.is_negative() {
            Ok(T::min_value())
        } else {
            Ok(T::max_value())
        }
    } else {
        Ok(sc.1.div(sc.0))
    }
}

/// Clamps a value strictly inside the unit interval, leaving values
/// already inside it unchanged.
fn clamp_open_unit<T: CordicNumber>(v: T) -> (r: T)
    ensures
        -one_m(T::fb()) < r.bv() < one_m(T::fb()),
        -one_m(T::fb()) < v.bv() < one_m(T::fb()) ==> r.bv() == v.bv(),
        r.bv() == clamp_open_m(v.bv(), T::fb(), T::tb()),
{
    let fbits = T::frac_bits();
    let one = T::one();
    proof {
        lemma_pow2_pos(T::fb() as nat);
        lemma_pow2_pos((T::tb() - 1) as nat);
        vstd::arithmetic::power2::lemma_pow2_strictly_increases(
            T::fb() as nat,
            (T::tb() - 1) as nat,
        );
    }
    let hi = one.saturating_sub(T::from_raw(1));
    if v.ge(one) {
        hi
    } else if v.le(one.neg()) {
        hi.neg()
    } else {
        v
    }
}

/// The reduction loop of the inverse hyperbolic tangent: while the
/// magnitude exceeds `3/4`, replace it by `(ax - 1/2) / (1 - ax/2)` and
/// add `atanh(1/2)` to the accumulator, up to 64 rounds; the pair is the
/// final magnitude and accumulator.
pub open spec fn atanh_reduce_m(ax: int, acc: int, rounds: nat, fb: u32, tb: u32) -> (int, int)
    decreases 64 - rounds,
{
    let om = pow2(fb as nat) as int;
    let hm = pow2((fb - 1) as nat) as int;
    let thr = rescale_m(ATANH_DIRECT_FRAC as int, 63, fb);
    let ah = rescale_m(ATANH_HALF as int, 63, fb);
    if !(ax > thr) || rounds >= 64 {
        (ax, acc)
    } else {
        let num = sat_m(ax - hm, tb);
        let den = sat_m(om - sat_m(hm * ax / om, tb), tb);
        if den <= num || num < 0 {
            (ax, acc)
        } else {
            atanh_reduce_m(
                sat_m(div_t(num * om, den), tb),
                sat_m(acc + ah, tb),
                rounds + 1,
                fb,
                tb,
            )
        }
    }
}

/// The exact mantissa the inverse hyperbolic tangent computes: the
/// reduction loop's accumulator plus the hyperbolic vectoring of the
/// reduced magnitude, with the argument's sign restored.
pub open spec fn atanh_core_m(xm: int, fb: u32, tb: u32) -> int {
    let om = pow2(fb as nat) as int;
    if xm == 0 {
        0
    } else {
        let red = atanh_reduce_m(sat_m(if xm < 0 { -xm } else { xm }, tb), 0, 0, fb, tb);
        let direct = crate::kernel::cordic::hyp_iter(
            (om, red.0, 0),
            crate::kernel::cordic::hyp_vec_iterations(fb),
            1,
            false,
            true,
            fb,
            tb,
        ).2;
        let total = sat_m(red.1 + direct, tb);
        if xm < 0 {
            sat_m(-total, tb)
        } else {
            total
        }
    }
}

/// The inverse hyperbolic tangent of a value inside `(-1, 1)`, computed
/// without a domain check: the argument is reduced through
/// `atanh(x) = atanh(1/2) + atanh((x - 1/2) / (1 - x/2))` until it falls
/// in the vectoring kernel's direct range `[-3/4, 3/4]`.
/// `atanh_core(0)` is exactly zero.
pub(crate) fn atanh_core<T: CordicNumber>(x: T) -> (r: T)
    requires
        T::tb() <= 64,
        -one_m(T::fb()) < x.bv() < one_m(T::fb()),
    ensures
        r.bv() == atanh_core_m(x.bv(), T::fb(), T::tb()),
        x.bv() == 0 ==> r.bv() == 0,
{
    let fbits = T::frac_bits();
    let zero = T::zero();
    let one = T::one();
    let half = T::half();

    if x.eq_v(zero) {
        return zero;
    }

    proof {
        lemma_pow2_pos(T::fb() as nat);
        lemma_pow2_pos((T::tb() - 1) as nat);
        vstd::arithmetic::power2::lemma_pow2_strictly_increases(
            T::fb() as nat,
            (T::tb() - 1) as nat,
        );
    }

    let negative = x.is_negative();
    let mut ax = x.abs();
    let ghost ax0 = ax.bv();
    let threshold = T::from_i64_frac(ATANH_DIRECT_FRAC);
    let atanh_half = T::from_i64_frac(ATANH_HALF);
    let mut acc = zero;
    let mut rounds: u32 = 0;
    let mut settled = false;

    while !settled && ax.gt(threshold) && rounds < 64
        invariant
            0 <= ax.bv() < one_m(T::fb()),
            rounds <= 64,
            T::tb() <= 64,
            4 <= T::fb(),
            T::fb() + 3 <= T::tb(),
            threshold.bv() == rescale_m(ATANH_DIRECT_FRAC as int, 63, T::fb()),
            atanh_half.bv() == rescale_m(ATANH_HALF as int, 63, T::fb()),
            half.bv() == pow2((T::fb() - 1) as nat) as int,
            one.bv() == one_m(T::fb()),
            atanh_reduce_m(ax.bv(), acc.bv(), rounds as nat, T::fb(), T::tb())
                == atanh_reduce_m(ax0, 0, 0, T::fb(), T::tb()),
            settled ==> atanh_reduce_m(ax.bv(), acc.bv(), rounds as nat, T::fb(), T::tb())
                == (ax.bv(), acc.bv()),
        decreases 64 - rounds, (if settled { 0int } else { 1int }),
    {
        let num = ax.saturating_sub(half);
        let den = one.saturating_sub(half.saturating_mul(ax));
        proof {
            lemma_pow2_pos(T::fb() as nat);
            lemma_pow2_pos((T::tb() - 1) as nat);
            vstd::arithmetic::power2::lemma_pow2_strictly_increases(
                T::fb() as nat,
                (T::tb() - 1) as nat,
            );
        }
        if den.le(num) || num.is_negative() {
            // Unreachable for arguments inside the unit interval; keeps
            // the division's obligations total.
            settled = true;
        } else {
            let next = num.div(den);
            proof {
                crate::bounded::lemma_quotient_in_unit(num.bv(), den.bv(), one_m(T::fb()));
            }
            ax = next;
            acc = acc.saturating_add(atanh_half);
            rounds = rounds + 1;
        }
    }

    proof {
        assert(atanh_reduce_m(ax.bv(), acc.bv(), rounds as nat, T::fb(), T::tb())
            == (ax.bv(), acc.bv()));
    }
    let direct = hyperbolic_vectoring(one, ax, zero).2;
    let total = acc.saturating_add(direct);
    if negative {
        total.neg()
    } else {
        total
    }
}

/// The exact mantissa of the inverse hyperbolic sine: the inverse
/// hyperbolic tangent of `x / sqrt(1 + x^2)`; the quotient is clamped
/// inside the unit interval on the (dead in practice) path where the
/// computed square root does not exceed `|x|`.
pub open spec fn asinh_m(xm: int, fb: u32, tb: u32) -> int {
    let om = pow2(fb as nat) as int;
    let w = sat_m(om + sat_m(xm * xm / om, tb), tb);
    let sq = crate::ops::algebraic::sqrt_m(w, fb, tb);
    let ax = sat_m(if xm < 0 { -xm } else { xm }, tb);
    if sq > ax {
        atanh_core_m(sat_m(div_t(xm * om, sq), tb), fb, tb)
    } else {
        atanh_core_m(clamp_open_m(xm, fb, tb), fb, tb)
    }
}

/// Computes the inverse hyperbolic sine through the identity
/// `asinh(x) = atanh(x / sqrt(1 + x^2))`; `asinh(0)` is exactly zero and
/// the result is exactly the value of the model.
pub fn asinh<T: CordicNumber>(x: T) -> (r: T)
    requires
        T::tb() <= 64,
    ensures
        x.bv() == 0 ==> r.bv() == 0,
        x.bv() != 0 ==> r.bv() == asinh_m(x.bv(), T::fb(), T::tb()),
{
    let fbits = T::frac_bits();
    let zero = T::zero();
    if x.eq_v(zero) {
        return zero;
    }
    proof {
        lemma_pow2_pos(T::fb() as nat);
        lemma_pow2_pos((T::tb() - 1) as nat);
        vstd::arithmetic::power2::lemma_pow2_strictly_increases(
            T::fb() as nat,
            (T::tb() - 1) as nat,
        );
    }
    let non_neg = crate::bounded::NonNegative::one_plus_square(x);
    let sqrt_term = crate::ops::algebraic::sqrt_non_negative(non_neg);
    // Reading the raw mantissas teaches the prover that both fit the
    // type's width, which rules the saturating corner cases out below.
    let _sqrt_fits: i128 = sqrt_term.to_raw();
    let _x_fits: i128 = x.to_raw();
    let abs_x = x.abs();
    if sqrt_term.gt(abs_x) {
        let open = crate::bounded::OpenUnitInterval::from_div_by_sqrt_one_plus_square(x, sqrt_term);
        atanh_core(open.get())
    } else {
        // Unreachable for an exact square root, which always exceeds |x|;
        // keeps the quotient's domain obligations total.
        atanh_core(clamp_open_unit(x))
    }
}

/// The exact mantissa of the inverse hyperbolic cosine for arguments
/// above one: the inverse hyperbolic tangent of `sqrt(x^2 - 1) / x`,
/// clamped inside the unit interval on the (dead in practice) path where
/// the computed square root reaches `x`.
pub open spec fn acosh_m(xm: int, fb: u32, tb: u32) -> int {
    let om = pow2(fb as nat) as int;
    let w = sat_m(sat_m(xm * xm / om, tb) - om, tb);
    let sq = crate::ops::algebraic::sqrt_m(w, fb, tb);
    atanh_core_m(clamp_open_m(sat_m(div_t(sq * om, xm), tb), fb, tb), fb, tb)
}

/// Computes the inverse hyperbolic cosine of a value at least one, through
/// `acosh(x) = atanh(sqrt(x^2 - 1) / x)`.
///
/// `acosh(1)` is exactly zero; above one the result is exactly the value
/// of the model.
pub fn acosh<T: CordicNumber>(x: T) -> (r: Result<T, Error>)
    requires
        T::tb() <= 64,
    ensures
        x.bv() < one_m(T::fb()) <==> r is Err,
        r is Err ==> r == Err::<T, Error>(Error::DomainError {
            function: "acosh",
            expected: "value >= 1" }),
        x.bv() == one_m(T::fb()) ==> (r matches Ok(v) && v.bv() == 0),
        x.bv() > one_m(T::fb()) ==> (r matches Ok(v) && v.bv() == acosh_m(
            x.bv(),
            T::fb(),
            T::tb(),
        )),
{
    let one = T::one();
    let at_least = match crate::bounded::AtLeastOne::new(x) {
        Some(a) => a,
        None => {
            return Err(Error::DomainError { function: "acosh", expected: "value >= 1" });
        }};

    if x.eq_v(one) {
        return Ok(T::zero());
    }

    let fbits = T::frac_bits();
    proof {
        lemma_pow2_pos(T::fb() as nat);
        lemma_pow2_pos((T::tb() - 1) as nat);
        vstd::arithmetic::power2::lemma_pow2_strictly_increases(
            T::fb() as nat,
            (T::tb() - 1) as nat,
        );
    }

    let non_neg = crate::bounded::NonNegative::square_minus_one(at_least);
    let sqrt_term = crate::ops::algebraic::sqrt_non_negative(non_neg);
    let at_least_again = match crate::bounded::AtLeastOne::new(x) {
        Some(a) => a,
        None => {
            return Err(Error::DomainError { function: "acosh", expected: "value >= 1" });
        }};
    if sqrt_term.lt(x) {
        let open = crate::bounded::OpenUnitInterval::from_sqrt_square_minus_one_div(
            sqrt_term,
            at_least_again,
        );
        Ok(atanh_core(open.get()))
    } else {
        // Unreachable for an exact square root: sqrt(x^2 - 1) < x for
        // x >= 1.  Keeps the quotient's domain obligations total.
        Ok(atanh_core(clamp_open_unit(sqrt_term.div(x))))
    }
}

/// Computes the inverse hyperbolic tangent of a value inside `(-1, 1)`.
///
/// `atanh(0)` is exactly zero.
pub fn atanh<T: CordicNumber>(x: T) -> (r: Result<T, Error>)
    requires
        T::tb() <= 64,
    ensures
        (-one_m(T::fb()) < x.bv() < one_m(T::fb())) <==> r is Ok,
        r is Err ==> r == Err::<T, Error>(Error::DomainError {
            function: "atanh",
            expected: "value in range (-1, 1)" }),
        x.bv() == 0 ==> (r matches Ok(v) && v.bv() == 0),
        r matches Ok(v) ==> v.bv() == atanh_core_m(x.bv(), T::fb(), T::tb()),
{
    let fbits = T::frac_bits();
    proof {
        lemma_pow2_pos(T::fb() as nat);
    }
    match crate::bounded::OpenUnitInterval::new(x) {
        Some(open) => Ok(atanh_core(open.get())),
        None => Err(Error::DomainError { function: "atanh", expected: "value in range (-1, 1)" })}
}

/// Computes the inverse hyperbolic cotangent of a value with `|x| > 1`, as
/// `acoth(x) = atanh(1/x)`.
pub fn acoth<T: CordicNumber>(x: T) -> (r: Result<T, Error>)
    requires
        T::tb() <= 64,
    ensures
        (x.bv() > one_m(T::fb()) || x.bv() < -one_m(T::fb())) <==> r is Ok,
        r is Err ==> r == Err::<T, Error>(Error::DomainError {
            function: "acoth",
            expected: "|value| > 1" }),
        r matches Ok(v) ==> v.bv() == atanh_core_m(
            sat_m(div_t(one_m(T::fb()) * one_m(T::fb()), x.bv()), T::tb()),
            T::fb(),
            T::tb(),
        ),
{
    let fbits = T::frac_bits();
    let one = T::one();
    let abs_x = x.abs();
    proof {
        lemma_pow2_pos(T::fb() as nat);
        lemma_pow2_pos((T::tb() - 1) as nat);
        vstd::arithmetic::power2::lemma_pow2_strictly_increases(
            T::fb() as nat,
            (T::tb() - 1) as nat,
        );
        vstd::arithmetic::power2::lemma2_to64();
        vstd::arithmetic::power2::lemma_pow2_adds(T::fb() as nat, 1);
        crate::raw::lemma_pow2_increases((T::fb() + 1) as nat, (T::tb() - 1) as nat);
        vstd::arithmetic::power2::lemma_pow2_strictly_increases(1, T::fb() as nat);
        assert(one_m(T::fb()) < max_m(T::tb()));
    }
    // Reading the raw mantissa teaches the prover that `x` fits the
    // type's width, so the absolute value below reflects it faithfully.
    let _x_fits: i128 = x.to_raw();
    if abs_x.le(one) {
        proof {
            assert(x.bv() <= one_m(T::fb()) && -one_m(T::fb()) <= x.bv());
        }
        return Err(Error::DomainError { function: "acoth", expected: "|value| > 1" });
    }
    let recip = one.div(x);
    proof {
        crate::bounded::lemma_quotient_in_unit(one_m(T::fb()), x.bv(), one_m(T::fb()));
    }
    Ok(atanh_core(recip))
}

} // verus!
