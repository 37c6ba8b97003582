//! Circular (trigonometric) functions.
//!
//! `sin`, `cos`, `tan`, `sin_cos`, `asin`, `acos`, `atan` and `atan2`,
//! built on circular CORDIC.  Angle arguments are reduced into the
//! kernel's convergence range first; outputs are clamped to the
//! function's mathematical range, which fixed-point rounding could
//! otherwise overshoot by a few units in the last place.

use vstd::prelude::*;

verus! {

use vstd::arithmetic::power2::{pow2, lemma_pow2_pos};
use crate::error::Error;
use crate::kernel::cordic::{circular_gain_inv, circular_rotation, circular_vectoring};
use crate::raw::{sat_m, div_t, fits_m, min_m, max_m, rescale_m};
use crate::traits::{CordicNumber, one_m, pi_m, frac_pi_2_m};

/// The clamp of `v` into `[-hi, hi]`.
pub open spec fn clamp_m(v: int, hi: int) -> int {
    if v < -hi {
        -hi
    } else if v > hi {
        hi
    } else {
        v
    }
}

/// Clamps a value into `[-hi, hi]`.
fn clamp_sym<T: CordicNumber>(v: T, hi: T) -> (r: T)
    requires
        hi.bv() >= 0,
    ensures
        -hi.bv() <= r.bv() <= hi.bv(),
        -hi.bv() <= v.bv() <= hi.bv() ==> r.bv() == v.bv(),
        r.bv() == clamp_m(v.bv(), hi.bv()),
{
    // Reading the raw mantissas teaches the prover that both fit the
    // type's width, so negating the bound cannot saturate.
    let _v_fits: i128 = v.to_raw();
    let _hi_fits: i128 = hi.to_raw();
    let lo = hi.neg();
    proof {
        lemma_pow2_pos((T::tb() - 1) as nat);
    }
    if v.lt(lo) {
        lo
    } else if v.gt(hi) {
        hi
    } else {
        v
    }
}

/// Reduces an angle toward `[-pi/2, pi/2]`, tracking whether the result
/// was shifted by half a turn (in which case both sine and cosine change
/// sign).  The reduction is quotient-based — one truncated division by
/// `2 pi` followed by constant-count corrections — so its cost does not
/// depend on the argument's magnitude.
///
/// Where one whole turn (`2 pi`) fits the representable range, the
/// reduction is exact: the result lies in `[-pi/2, pi/2]` and differs from
/// the angle by a whole number of half-turns, whose parity the flip flag
/// records.
fn reduce_angle<T: CordicNumber>(angle: T) -> (r: (T, bool))
    requires
        T::tb() <= 64,
    ensures
        2 * pi_m(T::fb()) <= max_m(T::tb()) ==> exists|j: int|
            angle.bv() == r.0.bv() + #[trigger] (j * pi_m(T::fb())) && (r.1 <==> j % 2 == 1),
        2 * pi_m(T::fb()) <= max_m(T::tb()) ==> -frac_pi_2_m(T::fb()) <= r.0.bv()
            <= frac_pi_2_m(T::fb()),
{
    let fbits = T::frac_bits();
    let pi = T::pi();
    let two_pi = pi.saturating_add(pi);
    let frac_pi_2 = T::frac_pi_2();
    let ghost cond = 2 * pi_m(T::fb()) <= max_m(T::tb());
    let ghost pm = pi_m(T::fb());
    let ghost am = angle.bv();
    // Reading the raw mantissa teaches the prover that the angle fits the
    // type's width.
    let _angle_fits: i128 = angle.to_raw();
    proof {
        vstd::arithmetic::power2::lemma2_to64();
        lemma_pow2_pos(T::fb() as nat);
        lemma_pow2_pos((T::tb() - 1) as nat);
        vstd::arithmetic::power2::lemma_pow2_strictly_increases(0, (T::tb() - 1) as nat);
        assert(two_pi.bv() > 0);
        assert(cond ==> two_pi.bv() == 2 * pm);
        if cond {
            crate::traits::lemma_pi_m_bounds(T::fb());
            crate::traits::lemma_pi_le_two_fp2(T::fb());
        }
    }
    let q = angle.div(two_pi);
    let k = q.trunc_to_int();
    let prod = k.saturating_mul(two_pi);
    proof {
        if cond {
            lemma_exact_turns::<T>(am, q.bv(), k.bv(), prod.bv());
        }
    }
    let mut reduced = angle.saturating_sub(prod);
    let ghost mut j: int = if cond { (-2) * (k.bv() / one_m(T::fb())) } else { 0 };
    proof {
        if cond {
            assert(prod.bv() == (k.bv() / one_m(T::fb())) * (2 * pm));
            assert(am - prod.bv() == am + j * pm) by (nonlinear_arith)
                requires
                    prod.bv() == (k.bv() / one_m(T::fb())) * (2 * pm),
                    j == (-2) * (k.bv() / one_m(T::fb())),
            ;
            assert(reduced.bv() == am + j * pm);
        }
    }
    if reduced.gt(pi) {
        reduced = reduced.saturating_sub(two_pi);
        proof {
            j = j - 2;
            if cond {
                assert(reduced.bv() == am + j * pm) by (nonlinear_arith)
                    requires
                        reduced.bv() == (am + (j + 2) * pm) - 2 * pm,
                ;
            }
        }
    }
    if reduced.lt(pi.neg()) {
        reduced = reduced.saturating_add(two_pi);
        proof {
            j = j + 2;
            if cond {
                assert(reduced.bv() == am + j * pm) by (nonlinear_arith)
                    requires
                        reduced.bv() == (am + (j - 2) * pm) + 2 * pm,
                ;
            }
        }
    }
    proof {
        if cond {
            assert(j % 2 == 0) by (nonlinear_arith)
                requires
                    j % 4 == 0 || j % 2 == 0,
            ;
        }
    }
    if reduced.gt(frac_pi_2) {
        let out = reduced.saturating_sub(pi);
        proof {
            j = j - 1;
            if cond {
                assert(out.bv() == am + j * pm) by (nonlinear_arith)
                    requires
                        out.bv() == (am + (j + 1) * pm) - pm,
                ;
                lemma_odd_parity(j);
                assert(am == out.bv() + (-j) * pm && (-j) % 2 == 1) by (nonlinear_arith)
                    requires
                        out.bv() == am + j * pm,
                        j % 2 == 1,
                        (-j) % 2 == 1,
                ;
            }
        }
        (out, true)
    } else if reduced.lt(frac_pi_2.neg()) {
        let out = reduced.saturating_add(pi);
        proof {
            j = j + 1;
            if cond {
                assert(out.bv() == am + j * pm) by (nonlinear_arith)
                    requires
                        out.bv() == (am + (j - 1) * pm) + pm,
                ;
                lemma_odd_parity(j);
                assert(am == out.bv() + (-j) * pm && (-j) % 2 == 1) by (nonlinear_arith)
                    requires
                        out.bv() == am + j * pm,
                        j % 2 == 1,
                        (-j) % 2 == 1,
                ;
            }
        }
        (out, true)
    } else {
        proof {
            if cond {
                assert(am == reduced.bv() + (-j) * pm && (-j) % 2 == 0) by (nonlinear_arith)
                    requires
                        reduced.bv() == am + j * pm,
                        j % 2 == 0,
                ;
                assert((-j) % 2 == 0) by (nonlinear_arith)
                    requires
                        j % 2 == 0,
                ;
            }
        }
        (reduced, false)
    }
}

/// When two whole turns are representable, the quotient path of the
/// reduction is exact: the truncated whole-turn count times `2 pi` keeps
/// the angle's sign, never exceeds its magnitude, and none of the steps
/// saturates.
proof fn lemma_exact_turns<T: CordicNumber>(am: int, qv: int, kv: int, prodv: int)
    requires
        4 <= T::fb(),
        T::fb() + 3 <= T::tb(),
        T::tb() <= 128,
        2 * pi_m(T::fb()) <= max_m(T::tb()),
        fits_m(am, T::tb()),
        qv == sat_m(div_t(am * one_m(T::fb()), 2 * pi_m(T::fb())), T::tb()),
        kv == div_t(qv, one_m(T::fb())) * one_m(T::fb()),
        prodv == sat_m((kv * (2 * pi_m(T::fb()))) / one_m(T::fb()), T::tb()),
    ensures
        prodv == (kv / one_m(T::fb())) * (2 * pi_m(T::fb())),
        am >= 0 ==> 0 <= prodv <= am,
        am < 0 ==> am <= prodv <= 0,
        fits_m(am - prodv, T::tb()),
        -(2 * pi_m(T::fb())) < am - prodv < 2 * pi_m(T::fb()),
{
    let om = one_m(T::fb());
    let pm = pi_m(T::fb());
    let d = 2 * pm;
    let mx = max_m(T::tb());
    vstd::arithmetic::power2::lemma_pow2_pos(T::fb() as nat);
    vstd::arithmetic::power2::lemma_pow2_pos((T::tb() - 1) as nat);
    // pi is at least three units, so the divisor dominates one unit.
    crate::traits::lemma_pi_m_bounds(T::fb());
    assert(om <= d);

    // The raw quotient is within range: |div_t(am * om, d)| <= |am|.
    let qraw = div_t(am * om, d);
    let pa = if am >= 0 { am } else { -am };
    crate::raw::lemma_div_t_decompose(am * om, d);
    assert(pa * om >= 0 && (am >= 0 ==> pa * om == am * om) && (am < 0 ==> pa * om == -(am * om)))
        by (nonlinear_arith)
        requires
            pa == (if am >= 0 { am } else { -am }),
            om >= 1,
    ;
    vstd::arithmetic::div_mod::lemma_div_is_ordered_by_denominator(pa * om, om, d);
    vstd::arithmetic::div_mod::lemma_div_multiples_vanish(pa, om);
    assert(pa * om == om * pa) by (nonlinear_arith);
    assert((pa * om) / d <= pa);
    vstd::arithmetic::div_mod::lemma_div_pos_is_pos(pa * om, d);
    assert(qv == qraw);

    // Truncation to whole units keeps sign and magnitude.
    let t = div_t(qv, om);
    crate::raw::lemma_div_t_decompose(qv, om);
    let pq = if qv >= 0 { qv } else { -qv };
    crate::raw::lemma_div_mul_le(pq, om);
    assert(kv == t * om);
    vstd::arithmetic::div_mod::lemma_div_multiples_vanish(t, om);
    assert(t * om == om * t) by (nonlinear_arith);
    assert(kv / om == t);
    assert((am >= 0 ==> 0 <= kv <= qv) && (am < 0 ==> qv <= kv <= 0)) by (nonlinear_arith)
        requires
            kv == t * om,
            t == (if (qv >= 0) == (om > 0) { pq / om } else { -(pq / om) }),
            pq == (if qv >= 0 { qv } else { -qv }),
            0 <= (pq / om) * om <= pq,
            om >= 1,
            am >= 0 ==> qv >= 0,
            am < 0 ==> qv <= 0,
    ;

    // The scaled-back product is exact and bounded by the angle.
    vstd::arithmetic::div_mod::lemma_div_multiples_vanish(t * d, om);
    assert(kv * d == om * (t * d)) by (nonlinear_arith)
        requires
            kv == t * om,
    ;
    assert((kv * d) / om == t * d);
    // qv * d versus am * om comes from the division's remainder.
    assert(am >= 0 ==> qv * d <= am * om) by {
        if am >= 0 {
            crate::raw::lemma_div_t_rem(am * om, d);
            assert(qv * d == am * om - (am * om - div_t(am * om, d) * d));
        }
    };
    assert(am < 0 ==> am * om <= qv * d) by {
        if am < 0 {
            crate::raw::lemma_div_t_rem(am * om, d);
            assert(qv * d == am * om - (am * om - div_t(am * om, d) * d));
        }
    };
    // |t * d| <= |am|: t * om is within qraw, and qraw * d is within am * om.
    let prodraw = t * d;
    assert((am >= 0 ==> 0 <= prodraw * om <= am * om) && (am < 0 ==> am * om <= prodraw * om && prodraw * om <= 0))
        by (nonlinear_arith)
        requires
            prodraw == t * d,
            kv == t * om,
            am >= 0 ==> 0 <= kv <= qv,
            am < 0 ==> qv <= kv <= 0,
            am >= 0 ==> 0 <= qv && qv * d <= am * om,
            am < 0 ==> qv <= 0 && am * om <= qv * d,
            om >= 1,
            d >= 1,
    ;
    assert((am >= 0 ==> 0 <= prodraw <= am) && (am < 0 ==> am <= prodraw <= 0)) by (nonlinear_arith)
        requires
            am >= 0 ==> 0 <= prodraw * om <= am * om,
            am < 0 ==> am * om <= prodraw * om && prodraw * om <= 0,
            om >= 1,
    ;
    assert(prodv == prodraw);

    // The residue is less than one whole turn: the division's remainder is
    // below the turn, and the truncation's remainder is below one unit.
    let rem0 = am * om - qv * d;
    crate::raw::lemma_div_t_rem(am * om, d);
    assert(-d < rem0 < d);
    let rem1 = qv - t * om;
    crate::raw::lemma_div_t_rem(qv, om);
    assert(-om < rem1 < om);
    assert((am - prodraw) * om == rem0 + rem1 * d) by (nonlinear_arith)
        requires
            rem0 == am * om - qv * d,
            rem1 == qv - t * om,
            prodraw == t * d,
    ;
    assert(-(om * d) < (am - prodraw) * om < om * d) by (nonlinear_arith)
        requires
            (am - prodraw) * om == rem0 + rem1 * d,
            -d < rem0 < d,
            -om < rem1 < om,
            d >= 1,
            om >= 1,
    ;
    assert(-d < am - prodraw < d) by (nonlinear_arith)
        requires
            -(om * d) < (am - prodraw) * om < om * d,
            om >= 1,
            d >= 1,
    ;
}

/// An even integer, decremented or incremented, is odd, and negation
/// keeps parity.
proof fn lemma_odd_parity(j: int)
    requires
        (j + 1) % 2 == 0 || (j - 1) % 2 == 0,
    ensures
        j % 2 == 1,
        (-j) % 2 == 1,
{
    vstd::arithmetic::div_mod::lemma_mod_bound(j, 2);
    vstd::arithmetic::div_mod::lemma_mod_bound(-j, 2);
    vstd::arithmetic::div_mod::lemma_mod_bound(j + 1, 2);
    vstd::arithmetic::div_mod::lemma_mod_bound(j - 1, 2);
    vstd::arithmetic::div_mod::lemma_fundamental_div_mod(j, 2);
    vstd::arithmetic::div_mod::lemma_fundamental_div_mod(-j, 2);
    vstd::arithmetic::div_mod::lemma_fundamental_div_mod(j + 1, 2);
    vstd::arithmetic::div_mod::lemma_fundamental_div_mod(j - 1, 2);
    assert(j % 2 == 1 && (-j) % 2 == 1) by (nonlinear_arith)
        requires
            0 <= j % 2 < 2,
            0 <= (-j) % 2 < 2,
            0 <= (j + 1) % 2 < 2,
            0 <= (j - 1) % 2 < 2,
            j == 2 * (j / 2) + j % 2,
            -j == 2 * ((-j) / 2) + (-j) % 2,
            j + 1 == 2 * ((j + 1) / 2) + (j + 1) % 2,
            j - 1 == 2 * ((j - 1) / 2) + (j - 1) % 2,
            (j + 1) % 2 == 0 || (j - 1) % 2 == 0,
    ;
}

/// The pair that a circular rotation from `(1/K, 0)` by the angle `red`
/// produces, negated for an odd half-turn count `j` and clamped to the
/// unit interval: the exact mantissa-level value of `(sin, cos)` for any
/// angle congruent to `red` plus `j` half-turns.
pub open spec fn sin_cos_m(red: int, j: int, fb: u32, tb: u32) -> (int, int) {
    let rot = crate::kernel::cordic::circ_rot_iter(
        (rescale_m(crate::tables::circular::CIRCULAR_GAIN_INV as int, 63, fb), 0, red),
        crate::kernel::cordic::circ_iterations(fb),
        fb,
        tb,
    );
    let s0 = if j % 2 == 1 {
        sat_m(-rot.1, tb)
    } else {
        rot.1
    };
    let c0 = if j % 2 == 1 {
        sat_m(-rot.0, tb)
    } else {
        rot.0
    };
    (clamp_m(s0, pow2(fb as nat) as int), clamp_m(c0, pow2(fb as nat) as int))
}

/// Computes the sine and cosine of an angle simultaneously.
///
/// The angle is reduced modulo `2 pi` into `[-pi/2, pi/2]` with a sign
/// flip, then a single circular rotation from `(1/K, 0)` produces both
/// values; each lies in `[-1, 1]`.  Where two whole turns are
/// representable, the result is exactly the rotation's output for some
/// angle congruent to the argument modulo half-turns, negated when that
/// half-turn count is odd.
pub fn sin_cos<T: CordicNumber>(angle: T) -> (r: (T, T))
    requires
        T::tb() <= 64,
    ensures
        -one_m(T::fb()) <= r.0.bv() <= one_m(T::fb()),
        -one_m(T::fb()) <= r.1.bv() <= one_m(T::fb()),
        2 * pi_m(T::fb()) <= max_m(T::tb()) ==> exists|red: int, j: int|
            angle.bv() == red + j * pi_m(T::fb())
            && -frac_pi_2_m(T::fb()) <= red <= frac_pi_2_m(T::fb())
            && (r.0.bv(), r.1.bv()) == #[trigger] sin_cos_m(red, j, T::fb(), T::tb()),
{
    let zero = T::zero();
    let one = T::one();
    let ghost cond = 2 * pi_m(T::fb()) <= max_m(T::tb());
    let (reduced, negate) = reduce_angle(angle);
    let inv_gain = circular_gain_inv::<T>();
    let rot = circular_rotation(inv_gain, zero, reduced);
    let cos_val = rot.0;
    let sin_val = rot.1;
    proof {
        lemma_pow2_pos(T::fb() as nat);
        lemma_pow2_pos((T::tb() - 1) as nat);
    }
    let (s, c) = if negate {
        (sin_val.neg(), cos_val.neg())
    } else {
        (sin_val, cos_val)
    };
    let out = (clamp_sym(s, one), clamp_sym(c, one));
    proof {
        if cond {
            let pm = pi_m(T::fb());
            let jw = choose|j: int|
                angle.bv() == reduced.bv() + #[trigger] (j * pm) && (negate <==> j % 2 == 1);
            vstd::arithmetic::div_mod::lemma_mod_bound(jw, 2);
            assert((out.0.bv(), out.1.bv()) == sin_cos_m(reduced.bv(), jw, T::fb(), T::tb()));
            assert(angle.bv() == reduced.bv() + jw * pm);
            assert(-frac_pi_2_m(T::fb()) <= reduced.bv() <= frac_pi_2_m(T::fb()));
        }
    }
    out
}

/// Computes the sine of an angle; the result lies in `[-1, 1]` and, where
/// two whole turns are representable, equals the first component of the
/// exact rotation model.
pub fn sin<T: CordicNumber>(angle: T) -> (r: T)
    requires
        T::tb() <= 64,
    ensures
        -one_m(T::fb()) <= r.bv() <= one_m(T::fb()),
        2 * pi_m(T::fb()) <= max_m(T::tb()) ==> exists|red: int, j: int|
            angle.bv() == red + j * pi_m(T::fb())
            && -frac_pi_2_m(T::fb()) <= red <= frac_pi_2_m(T::fb())
            && r.bv() == (#[trigger] sin_cos_m(red, j, T::fb(), T::tb())).0,
{
    let sc = sin_cos(angle);
    proof {
        if 2 * pi_m(T::fb()) <= max_m(T::tb()) {
            let (red, j) = choose|red: int, j: int|
                angle.bv() == red + j * pi_m(T::fb())
                && -frac_pi_2_m(T::fb()) <= red <= frac_pi_2_m(T::fb())
                && (sc.0.bv(), sc.1.bv()) == #[trigger] sin_cos_m(red, j, T::fb(), T::tb());
            assert(sc.0.bv() == sin_cos_m(red, j, T::fb(), T::tb()).0);
        }
    }
    sc.0
}

/// Computes the cosine of an angle; the result lies in `[-1, 1]` and, where
/// two whole turns are representable, equals the second component of the
/// exact rotation model.
pub fn cos<T: CordicNumber>(angle: T) -> (r: T)
    requires
        T::tb() <= 64,
    ensures
        -one_m(T::fb()) <= r.bv() <= one_m(T::fb()),
        2 * pi_m(T::fb()) <= max_m(T::tb()) ==> exists|red: int, j: int|
            angle.bv() == red + j * pi_m(T::fb())
            && -frac_pi_2_m(T::fb()) <= red <= frac_pi_2_m(T::fb())
            && r.bv() == (#[trigger] sin_cos_m(red, j, T::fb(), T::tb())).1,
{
    let sc = sin_cos(angle);
    proof {
        if 2 * pi_m(T::fb()) <= max_m(T::tb()) {
            let (red, j) = choose|red: int, j: int|
                angle.bv() == red + j * pi_m(T::fb())
                && -frac_pi_2_m(T::fb()) <= red <= frac_pi_2_m(T::fb())
                && (sc.0.bv(), sc.1.bv()) == #[trigger] sin_cos_m(red, j, T::fb(), T::tb());
            assert(sc.1.bv() == sin_cos_m(red, j, T::fb(), T::tb()).1);
        }
    }
    sc.1
}

/// The quotient a tangent forms from a sine and cosine pair: the
/// truncated fixed-point division, or the representable extreme of the
/// sine's sign where the cosine rounded to exactly zero at a pole.
pub open spec fn tan_quot_m(sc: (int, int), fb: u32, tb: u32) -> int {
    if sc.1 == 0 {
        if sc.0 < 0 {
            min_m(tb)
        } else {
            max_m(tb)
        }
    } else {
        sat_m(div_t(sc.0 * pow2(fb as nat) as int, sc.1), tb)
    }
}

/// Computes the tangent of an angle as `sin/cos`.
///
/// Near the poles the cosine can round to exactly zero; the result then
/// saturates to the representable extreme of the sine's sign rather than
/// dividing by zero.  Where two whole turns are representable, the result
/// is exactly the tangent quotient of the rotation model.
pub fn tan<T: CordicNumber>(angle: T) -> (r: T)
    requires
        T::tb() <= 64,
    ensures
        2 * pi_m(T::fb()) <= max_m(T::tb()) ==> exists|red: int, j: int|
            angle.bv() == red + j * pi_m(T::fb())
            && -frac_pi_2_m(T::fb()) <= red <= frac_pi_2_m(T::fb())
            && r.bv() == tan_quot_m(#[trigger] sin_cos_m(red, j, T::fb(), T::tb()), T::fb(), T::tb()),
{
    let sc = sin_cos(angle);
    let s = sc.0;
    let c = sc.1;
    let zero = T::zero();
    let out = if c.eq_v(zero) {
        if s.is_negative() {
            T::min_value()
        } else {
            T::max_value()
        }
    } else {
        s.div(c)
    };
    proof {
        if 2 * pi_m(T::fb()) <= max_m(T::tb()) {
            let (red, j) = choose|red: int, j: int|
                angle.bv() == red + j * pi_m(T::fb())
                && -frac_pi_2_m(T::fb()) <= red <= frac_pi_2_m(T::fb())
                && (s.bv(), c.bv()) == #[trigger] sin_cos_m(red, j, T::fb(), T::tb());
            assert(out.bv() == tan_quot_m(sin_cos_m(red, j, T::fb(), T::tb()), T::fb(), T::tb()));
        }
    }
    out
}

/// `2^-15`, as a bit pattern with 63 fractional bits: below this the
/// square root in the arcsine is too small to divide by safely.
pub const ASIN_TINY_FRAC: i64 = 0x0001_0000_0000_0000;

/// The exact mantissa the arcsine computes on its domain: the boundary
/// points answered directly, the identity `atan(x / sqrt(1 - x^2))`
/// elsewhere, with `±pi/2` where the square root collapses.
pub open spec fn asin_m(xm: int, fb: u32, tb: u32) -> int {
    let om = pow2(fb as nat) as int;
    let fp2 = frac_pi_2_m(fb);
    if xm == om {
        fp2
    } else if xm == -om {
        -fp2
    } else if xm == 0 {
        0
    } else {
        let w = sat_m(om - sat_m(xm * xm / om, tb), tb);
        let sq = crate::ops::algebraic::sqrt_m(w, fb, tb);
        let tiny = rescale_m(ASIN_TINY_FRAC as int, 63, fb);
        if sq < tiny || sq == 0 {
            if xm > 0 {
                fp2
            } else {
                -fp2
            }
        } else {
            let arg = sat_m(div_t(xm * om, sq), tb);
            if arg == 0 {
                0
            } else {
                atan_m(arg, fb, tb)
            }
        }
    }
}

/// Computes the arcsine of a value in `[-1, 1]`.
///
/// Uses the identity `asin(x) = atan(x / sqrt(1 - x^2))`, with exact
/// special cases at `-1`, `0` and `1` and a direct `±pi/2` branch when the
/// square root is too small to divide by safely; the result is exactly
/// the value of the model.
pub fn asin<T: CordicNumber>(x: T) -> (r: Result<T, Error>)
    requires
        T::tb() <= 64,
    ensures
        r matches Ok(v) ==> v.bv() == asin_m(x.bv(), T::fb(), T::tb()),
        (x.bv() > one_m(T::fb()) || x.bv() < -one_m(T::fb())) <==> r is Err,
        r is Err ==> r == Err::<T, Error>(Error::DomainError {
            function: "asin",
            expected: "value in range [-1, 1]" }),
        r matches Ok(v) ==> -frac_pi_2_m(T::fb()) <= v.bv() <= frac_pi_2_m(T::fb()),
        x.bv() == one_m(T::fb()) ==> (r matches Ok(v) && v.bv() == frac_pi_2_m(T::fb())),
        x.bv() == -one_m(T::fb()) ==> (r matches Ok(v) && v.bv() == -frac_pi_2_m(T::fb())),
        x.bv() == 0 ==> (r matches Ok(v) && v.bv() == 0),
{
    let fbits = T::frac_bits();
    let one = T::one();
    let neg_one = one.neg();
    let zero = T::zero();
    let frac_pi_2 = T::frac_pi_2();
    proof {
        vstd::arithmetic::power2::lemma2_to64();
        lemma_pow2_pos(T::fb() as nat);
        lemma_pow2_pos((T::tb() - 1) as nat);
        vstd::arithmetic::power2::lemma_pow2_strictly_increases(
            T::fb() as nat,
            (T::tb() - 1) as nat,
        );
        vstd::arithmetic::power2::lemma_pow2_adds(T::fb() as nat, 1);
        crate::raw::lemma_pow2_increases((T::fb() + 1) as nat, (T::tb() - 1) as nat);
    }

    let unit = match crate::bounded::UnitInterval::new(x) {
        Some(u) => u,
        None => {
            return Err(Error::DomainError {
                function: "asin",
                expected: "value in range [-1, 1]" });
        }};

    if x.eq_v(one) {
        return Ok(frac_pi_2);
    }
    if x.eq_v(neg_one) {
        return Ok(frac_pi_2.neg());
    }
    if x.eq_v(zero) {
        return Ok(zero);
    }

    // asin(x) = atan(x / sqrt(1 - x^2)); the bounded types discharge the
    // square root's domain obligation.
    let non_neg = crate::bounded::NonNegative::one_minus_square(unit);
    let sqrt_term = crate::ops::algebraic::sqrt_non_negative(non_neg);

    // Near |x| = 1 the root collapses; answer ±pi/2 directly instead of
    // dividing by a vanishing quantity.
    let tiny = T::from_i64_frac(ASIN_TINY_FRAC);
    if sqrt_term.lt(tiny) || sqrt_term.eq_v(zero) {
        if x.is_positive() {
            return Ok(frac_pi_2);
        } else {
            return Ok(frac_pi_2.neg());
        }
    }

    Ok(atan(x.div(sqrt_term)))
}

/// Computes the arccosine of a value in `[-1, 1]` as `pi/2 - asin(x)`:
/// exactly the saturating difference of `pi/2` and the arcsine model.
pub fn acos<T: CordicNumber>(x: T) -> (r: Result<T, Error>)
    requires
        T::tb() <= 64,
    ensures
        r matches Ok(v) ==> v.bv() == sat_m(
            frac_pi_2_m(T::fb()) - asin_m(x.bv(), T::fb(), T::tb()),
            T::tb(),
        ),
        x.bv() == -one_m(T::fb()) ==> (r matches Ok(v) && v.bv() == sat_m(
            2 * frac_pi_2_m(T::fb()),
            T::tb(),
        )),
        (x.bv() > one_m(T::fb()) || x.bv() < -one_m(T::fb())) <==> r is Err,
        r is Err ==> r == Err::<T, Error>(Error::DomainError {
            function: "asin",
            expected: "value in range [-1, 1]" }),
        r matches Ok(v) ==> 0 <= v.bv() <= 2 * frac_pi_2_m(T::fb()),
        x.bv() == one_m(T::fb()) ==> (r matches Ok(v) && v.bv() == 0),
        x.bv() == 0 ==> (r matches Ok(v) && v.bv() == frac_pi_2_m(T::fb())),
{
    let fbits = T::frac_bits();
    let frac_pi_2 = T::frac_pi_2();
    proof {
        vstd::arithmetic::power2::lemma2_to64();
        lemma_pow2_pos(T::fb() as nat);
        lemma_pow2_pos((T::tb() - 1) as nat);
        crate::raw::lemma_pow2_increases((T::fb() + 1) as nat, (T::tb() - 1) as nat);
        vstd::arithmetic::power2::lemma_pow2_adds(T::fb() as nat, 1);
        vstd::arithmetic::power2::lemma_pow2_adds(T::fb() as nat, 2);
        crate::raw::lemma_pow2_increases((T::fb() + 2) as nat, (T::tb() - 1) as nat);
    }
    match asin(x) {
        Ok(a) => Ok(frac_pi_2.saturating_sub(a)),
        Err(e) => Err(e)}
}

/// The exact mantissa the arctangent computes for a non-zero argument:
/// direct vectoring from `(1, x)` inside the unit interval, and the
/// reciprocal identity `sign(x) pi/2 - atan(1/x)` outside it, clamped
/// strictly inside `(-pi/2, pi/2)`.
pub open spec fn atan_m(xm: int, fb: u32, tb: u32) -> int {
    let om = pow2(fb as nat) as int;
    let fp2 = frac_pi_2_m(fb);
    let iters = crate::kernel::cordic::circ_iterations(fb);
    if -om <= xm <= om {
        clamp_m(crate::kernel::cordic::circ_vec_iter((om, xm, 0), iters, fb, tb).2, fp2 - 1)
    } else {
        let recip = sat_m(div_t(om * om, xm), tb);
        let a = crate::kernel::cordic::circ_vec_iter((om, recip, 0), iters, fb, tb).2;
        if xm > 0 {
            clamp_m(sat_m(fp2 - a, tb), fp2 - 1)
        } else {
            clamp_m(sat_m(-fp2 - a, tb), fp2 - 1)
        }
    }
}

/// Computes the arctangent of any value; the result lies strictly inside
/// `(-pi/2, pi/2)`, the function's mathematical range, to which it is
/// clamped, and is exactly the value of the arctangent model.
///
/// For `|x| > 1` the identity `atan(x) = sign(x) pi/2 - atan(1/x)` keeps
/// the kernel's argument inside its convergence range.
pub fn atan<T: CordicNumber>(x: T) -> (r: T)
    requires
        T::tb() <= 64,
    ensures
        -frac_pi_2_m(T::fb()) < r.bv() < frac_pi_2_m(T::fb()),
        x.bv() == 0 ==> r.bv() == 0,
        x.bv() != 0 ==> r.bv() == atan_m(x.bv(), T::fb(), T::tb()),
{
    let zero = T::zero();
    let one = T::one();
    let frac_pi_2 = T::frac_pi_2();

    if x.eq_v(zero) {
        return zero;
    }

    let fbits = T::frac_bits();
    // Reading the raw mantissa teaches the prover that `x` fits the
    // type's width, so its absolute value reflects it faithfully.
    let _x_fits: i128 = x.to_raw();
    proof {
        vstd::arithmetic::power2::lemma2_to64();
        lemma_pow2_pos(T::fb() as nat);
        lemma_pow2_pos((T::tb() - 1) as nat);
        vstd::arithmetic::power2::lemma_pow2_adds(T::fb() as nat, 1);
        crate::raw::lemma_pow2_increases((T::fb() + 1) as nat, (T::tb() - 1) as nat);
        vstd::arithmetic::power2::lemma_pow2_strictly_increases(
            T::fb() as nat,
            (T::tb() - 1) as nat,
        );
    }

    let abs_x = x.abs();
    let base = if abs_x.gt(one) {
        let recip = one.div(x);
        let atan_recip = circular_vectoring(one, recip, zero).2;
        if x.is_positive() {
            frac_pi_2.saturating_sub(atan_recip)
        } else {
            frac_pi_2.neg().saturating_sub(atan_recip)
        }
    } else {
        circular_vectoring(one, x, zero).2
    };
    let hi = frac_pi_2.saturating_sub(T::from_raw(1));
    clamp_sym(base, hi)
}

/// The exact mantissa the four-quadrant arctangent computes off the axes:
/// the clamped vectoring angle of the magnitudes, with the quadrant
/// correction chosen by the sign pair.
pub open spec fn atan2_m(ym: int, xm: int, fb: u32, tb: u32) -> int {
    let pm = pi_m(fb);
    let ax = sat_m(if xm < 0 { -xm } else { xm }, tb);
    let ay = sat_m(if ym < 0 { -ym } else { ym }, tb);
    let base = clamp_m(
        crate::kernel::cordic::circ_vec_iter(
            (ax, ay, 0),
            crate::kernel::cordic::circ_iterations(fb),
            fb,
            tb,
        ).2,
        pm,
    );
    let q = if xm < 0 {
        if ym < 0 {
            sat_m(base - pm, tb)
        } else {
            sat_m(pm - base, tb)
        }
    } else {
        if ym < 0 {
            sat_m(-base, tb)
        } else {
            base
        }
    };
    clamp_m(q, pm)
}

/// Computes the four-quadrant arctangent of `y/x`, in `[-pi, pi]`.
///
/// The base angle comes from vectoring `(|x|, |y|)`; the quadrant is then
/// restored from the signs of `x` and `y`.  On the axes the result is
/// exact: `atan2(0, x > 0) = 0`, `atan2(0, x < 0) = pi`,
/// `atan2(y > 0, 0) = pi/2`, `atan2(y < 0, 0) = -pi/2`, and `atan2(0, 0)`
/// is defined as `0`; off the axes it is exactly the value of the model.
pub fn atan2<T: CordicNumber>(y: T, x: T) -> (r: T)
    requires
        T::tb() <= 64,
    ensures
        x.bv() != 0 && y.bv() != 0 ==> r.bv() == atan2_m(y.bv(), x.bv(), T::fb(), T::tb()),
        -pi_m(T::fb()) <= r.bv() <= pi_m(T::fb()),
        y.bv() == 0 && x.bv() > 0 ==> r.bv() == 0,
        y.bv() == 0 && x.bv() < 0 ==> r.bv() == pi_m(T::fb()),
        y.bv() == 0 && x.bv() == 0 ==> r.bv() == 0,
        x.bv() == 0 && y.bv() > 0 ==> r.bv() == frac_pi_2_m(T::fb()),
        x.bv() == 0 && y.bv() < 0 ==> r.bv() == -frac_pi_2_m(T::fb()),
{
    let fbits = T::frac_bits();
    let zero = T::zero();
    let pi = T::pi();
    let frac_pi_2 = T::frac_pi_2();
    proof {
        vstd::arithmetic::power2::lemma2_to64();
        lemma_pow2_pos(T::fb() as nat);
        lemma_pow2_pos((T::tb() - 1) as nat);
        vstd::arithmetic::power2::lemma_pow2_adds(T::fb() as nat, 2);
        crate::raw::lemma_pow2_increases((T::fb() + 2) as nat, (T::tb() - 1) as nat);
    }

    if x.eq_v(zero) {
        return if y.is_negative() {
            frac_pi_2.neg()
        } else if y.eq_v(zero) {
            zero
        } else {
            frac_pi_2
        };
    }

    if y.eq_v(zero) {
        return if x.is_negative() {
            pi
        } else {
            zero
        };
    }

    let base = circular_vectoring(x.abs(), y.abs(), zero).2;
    let base = clamp_sym(base, pi);
    let r = if x.is_negative() {
        if y.is_negative() {
            base.saturating_sub(pi)
        } else {
            pi.saturating_sub(base)
        }
    } else {
        if y.is_negative() {
            base.neg()
        } else {
            base
        }
    };
    clamp_sym(r, pi)
}

} // verus!
