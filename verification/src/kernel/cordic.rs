//! Core CORDIC iteration procedures and their mantissa-level models.
//!
//! Each micro-rotation at index `i` moves the state `(x, y, z)` by shifted
//! copies of `x` and `y` and by the table angle for `i`; the direction is
//! chosen by the sign of `z` (rotation) or `y` (vectoring), ties taking the
//! non-negative branch.  The spec functions below state one step and the
//! whole iteration exactly; every kernel's `ensures` says that its result
//! is that iteration applied to its arguments.

use vstd::prelude::*;

verus! {

use vstd::arithmetic::power2::pow2;
use crate::raw::{sat_m, rescale_m};
use crate::tables::circular::{ATAN_TABLE, CIRCULAR_GAIN_INV};
use crate::tables::hyperbolic::{ATANH_TABLE, HYPERBOLIC_GAIN, HYPERBOLIC_GAIN_INV, needs_repeat, is_repeat_index};
use crate::traits::CordicNumber;

/// Table lookup for a CORDIC iteration.
pub fn table_lookup(table: &[i64; 64], index: u32) -> (r: i64)
    requires
        index < 64,
    ensures
        r == table[index as int],
{
    table[index as usize]
}

/// Returns the inverse circular gain `1/K`, about `0.60725`, in the target
/// type.  Pre-multiply initial vectors by it to compensate the circular
/// CORDIC gain.
pub fn circular_gain_inv<T: CordicNumber>() -> (r: T)
    ensures
        r.bv() == rescale_m(CIRCULAR_GAIN_INV as int, 63, T::fb()),
{
    T::from_i64_frac(CIRCULAR_GAIN_INV)
}

/// Returns the hyperbolic gain `K_h`, about `0.82816`, in the target type.
pub fn hyperbolic_gain<T: CordicNumber>() -> (r: T)
    ensures
        r.bv() == rescale_m(HYPERBOLIC_GAIN as int, 63, T::fb()),
{
    T::from_i64_frac(HYPERBOLIC_GAIN)
}

/// Returns the inverse hyperbolic gain `1/K_h`, about `1.20750`, in the
/// target type.  Pre-multiply initial vectors by it to compensate the
/// hyperbolic CORDIC gain.
pub fn hyperbolic_gain_inv<T: CordicNumber>() -> (r: T)
    ensures
        r.bv() == rescale_m(HYPERBOLIC_GAIN_INV as int, 62, T::fb()),
{
    T::from_i2f62_frac(HYPERBOLIC_GAIN_INV)
}

/// One circular micro-rotation at index `i`, on mantissas with `fb`
/// fractional bits saturating at `tb` total bits.
pub open spec fn circ_rot_step(s: (int, int, int), i: nat, fb: u32, tb: u32) -> (int, int, int) {
    let ang = rescale_m(ATAN_TABLE[i as int] as int, 63, fb);
    let xs = s.1 / pow2(i) as int;
    let ys = s.0 / pow2(i) as int;
    if s.2 >= 0 {
        (sat_m(s.0 - xs, tb), sat_m(s.1 + ys, tb), sat_m(s.2 - ang, tb))
    } else {
        (sat_m(s.0 + xs, tb), sat_m(s.1 - ys, tb), sat_m(s.2 + ang, tb))
    }
}

/// The first `n` circular rotation steps.
pub open spec fn circ_rot_iter(s: (int, int, int), n: nat, fb: u32, tb: u32) -> (int, int, int)
    decreases n,
{
    if n == 0 {
        s
    } else {
        circ_rot_step(circ_rot_iter(s, (n - 1) as nat, fb, tb), (n - 1) as nat, fb, tb)
    }
}

/// One circular vectoring step at index `i`: the rotation direction is
/// chosen to drive `y` toward zero, accumulating the angle into `z`.
pub open spec fn circ_vec_step(s: (int, int, int), i: nat, fb: u32, tb: u32) -> (int, int, int) {
    let ang = rescale_m(ATAN_TABLE[i as int] as int, 63, fb);
    let xs = s.1 / pow2(i) as int;
    let ys = s.0 / pow2(i) as int;
    if s.1 < 0 {
        (sat_m(s.0 - xs, tb), sat_m(s.1 + ys, tb), sat_m(s.2 - ang, tb))
    } else {
        (sat_m(s.0 + xs, tb), sat_m(s.1 - ys, tb), sat_m(s.2 + ang, tb))
    }
}

/// The first `n` circular vectoring steps.
pub open spec fn circ_vec_iter(s: (int, int, int), n: nat, fb: u32, tb: u32) -> (int, int, int)
    decreases n,
{
    if n == 0 {
        s
    } else {
        circ_vec_step(circ_vec_iter(s, (n - 1) as nat, fb, tb), (n - 1) as nat, fb, tb)
    }
}

/// The number of circular iterations: the type's fractional width, capped
/// by the table.
pub open spec fn circ_iterations(fb: u32) -> nat {
    if fb < 62 { fb as nat } else { 62 }
}

/// Performs circular CORDIC in rotation mode.
///
/// Rotates `(x, y)` by the angle `z`; after the iterations the result is
/// scaled by the circular gain `K`.  The contract states the exact
/// recurrence; convergence (`z` driven to zero) needs `|z|` below the sum
/// of the table angles, about `1.74` radians.
pub fn circular_rotation<T: CordicNumber>(x: T, y: T, z: T) -> (r: (T, T, T))
    ensures
        (r.0.bv(), r.1.bv(), r.2.bv()) == circ_rot_iter(
            (x.bv(), y.bv(), z.bv()),
            circ_iterations(T::fb()),
            T::fb(),
            T::tb(),
        ),
{
    let fbits = T::frac_bits();
    let iterations: u32 = if fbits < 62 { fbits } else { 62 };
    let ghost init = (x.bv(), y.bv(), z.bv());
    let mut cx = x;
    let mut cy = y;
    let mut cz = z;
    let zero = T::zero();
    let mut i: u32 = 0;
    while i < iterations
        invariant
            i <= iterations,
            iterations == circ_iterations(T::fb()),
            iterations <= 62,
            zero.bv() == 0,
            (cx.bv(), cy.bv(), cz.bv()) == circ_rot_iter(init, i as nat, T::fb(), T::tb()),
        decreases iterations - i,
    {
        let ang = T::from_i64_frac(table_lookup(&ATAN_TABLE, i));
        let xs = cy.shr(i);
        let ys = cx.shr(i);
        if cz.ge(zero) {
            cx = cx.saturating_sub(xs);
            cy = cy.saturating_add(ys);
            cz = cz.saturating_sub(ang);
        } else {
            cx = cx.saturating_add(xs);
            cy = cy.saturating_sub(ys);
            cz = cz.saturating_add(ang);
        }
        i = i + 1;
    }
    (cx, cy, cz)
}

/// Performs circular CORDIC in vectoring mode.
///
/// Drives `y` toward zero while accumulating the traversed angle into `z`;
/// after the iterations `x` is scaled by the circular gain `K` and `z`
/// approaches `z + atan(y/x)` for positive `x`.  The contract states the
/// exact recurrence.
pub fn circular_vectoring<T: CordicNumber>(x: T, y: T, z: T) -> (r: (T, T, T))
    ensures
        (r.0.bv(), r.1.bv(), r.2.bv()) == circ_vec_iter(
            (x.bv(), y.bv(), z.bv()),
            circ_iterations(T::fb()),
            T::fb(),
            T::tb(),
        ),
{
    let fbits = T::frac_bits();
    let iterations: u32 = if fbits < 62 { fbits } else { 62 };
    let ghost init = (x.bv(), y.bv(), z.bv());
    let mut cx = x;
    let mut cy = y;
    let mut cz = z;
    let zero = T::zero();
    let mut i: u32 = 0;
    while i < iterations
        invariant
            i <= iterations,
            iterations == circ_iterations(T::fb()),
            iterations <= 62,
            zero.bv() == 0,
            (cx.bv(), cy.bv(), cz.bv()) == circ_vec_iter(init, i as nat, T::fb(), T::tb()),
        decreases iterations - i,
    {
        let ang = T::from_i64_frac(table_lookup(&ATAN_TABLE, i));
        let xs = cy.shr(i);
        let ys = cx.shr(i);
        if cy.lt(zero) {
            cx = cx.saturating_sub(xs);
            cy = cy.saturating_add(ys);
            cz = cz.saturating_sub(ang);
        } else {
            cx = cx.saturating_add(xs);
            cy = cy.saturating_sub(ys);
            cz = cz.saturating_add(ang);
        }
        i = i + 1;
    }
    (cx, cy, cz)
}

/// One hyperbolic micro-rotation at index `i` (rotation direction chosen by
/// the sign of `z`).  The table entry for index `i` sits at position
/// `i - 1`, since hyperbolic iteration starts at one.
pub open spec fn hyp_rot_step(s: (int, int, int), i: nat, fb: u32, tb: u32) -> (int, int, int) {
    let ang = rescale_m(ATANH_TABLE[i as int - 1] as int, 63, fb);
    let xs = s.1 / pow2(i) as int;
    let ys = s.0 / pow2(i) as int;
    if s.2 >= 0 {
        (sat_m(s.0 + xs, tb), sat_m(s.1 + ys, tb), sat_m(s.2 - ang, tb))
    } else {
        (sat_m(s.0 - xs, tb), sat_m(s.1 - ys, tb), sat_m(s.2 + ang, tb))
    }
}

/// One hyperbolic vectoring step at index `i` (direction chosen by the
/// sign of `y`).
pub open spec fn hyp_vec_step(s: (int, int, int), i: nat, fb: u32, tb: u32) -> (int, int, int) {
    let ang = rescale_m(ATANH_TABLE[i as int - 1] as int, 63, fb);
    let xs = s.1 / pow2(i) as int;
    let ys = s.0 / pow2(i) as int;
    if s.1 < 0 {
        (sat_m(s.0 + xs, tb), sat_m(s.1 + ys, tb), sat_m(s.2 - ang, tb))
    } else {
        (sat_m(s.0 - xs, tb), sat_m(s.1 - ys, tb), sat_m(s.2 + ang, tb))
    }
}

/// `count` hyperbolic steps starting at index `i`, executing each repeat
/// index (`4, 13, 40, ...`) twice; `vectoring` selects the step kind.
pub open spec fn hyp_iter(
    s: (int, int, int),
    count: nat,
    i: nat,
    repeated: bool,
    vectoring: bool,
    fb: u32,
    tb: u32,
) -> (int, int, int)
    decreases count,
{
    if count == 0 || i >= 64 {
        s
    } else {
        let s2 = if vectoring {
            hyp_vec_step(s, i, fb, tb)
        } else {
            hyp_rot_step(s, i, fb, tb)
        };
        if is_repeat_index(i as u32) && !repeated {
            hyp_iter(s2, (count - 1) as nat, i, true, vectoring, fb, tb)
        } else {
            hyp_iter(s2, (count - 1) as nat, i + 1, false, vectoring, fb, tb)
        }
    }
}

/// The number of hyperbolic rotation iterations: the fractional width,
/// capped at 54.
pub open spec fn hyp_rot_iterations(fb: u32) -> nat {
    if fb < 54 { fb as nat } else { 54 }
}

/// The number of hyperbolic vectoring iterations: the fractional width,
/// clamped to `[24, 54]`; the floor keeps low-precision types accurate.
pub open spec fn hyp_vec_iterations(fb: u32) -> nat {
    if fb < 24 { 24 } else if fb < 54 { fb as nat } else { 54 }
}

/// Performs hyperbolic CORDIC in rotation mode.
///
/// Drives `z` toward zero through hyperbolic pseudo-rotations, starting at
/// index one and repeating the indices of the repeat set; after the
/// iterations the result is scaled by the hyperbolic gain `K_h`.
/// Convergence needs `|z|` at most about `1.118`.
pub fn hyperbolic_rotation<T: CordicNumber>(x: T, y: T, z: T) -> (r: (T, T, T))
    ensures
        (r.0.bv(), r.1.bv(), r.2.bv()) == hyp_iter(
            (x.bv(), y.bv(), z.bv()),
            hyp_rot_iterations(T::fb()),
            1,
            false,
            false,
            T::fb(),
            T::tb(),
        ),
{
    let fbits = T::frac_bits();
    let max_iterations: u32 = if fbits < 54 { fbits } else { 54 };
    hyperbolic_iterate(x, y, z, max_iterations, false)
}

/// Performs hyperbolic CORDIC in vectoring mode.
///
/// Drives `y` toward zero while accumulating the hyperbolic angle into
/// `z`: for `x = 1` and `|y| < 1`, `z` approaches `z + atanh(y/x)`.
pub fn hyperbolic_vectoring<T: CordicNumber>(x: T, y: T, z: T) -> (r: (T, T, T))
    ensures
        (r.0.bv(), r.1.bv(), r.2.bv()) == hyp_iter(
            (x.bv(), y.bv(), z.bv()),
            hyp_vec_iterations(T::fb()),
            1,
            false,
            true,
            T::fb(),
            T::tb(),
        ),
{
    let fbits = T::frac_bits();
    let max_iterations: u32 = if fbits < 24 {
        24
    } else if fbits < 54 {
        fbits
    } else {
        54
    };
    hyperbolic_iterate(x, y, z, max_iterations, true)
}

/// The shared hyperbolic iteration loop.
fn hyperbolic_iterate<T: CordicNumber>(x: T, y: T, z: T, max_iterations: u32, vectoring: bool) -> (r: (T, T, T))
    requires
        max_iterations <= 54,
    ensures
        (r.0.bv(), r.1.bv(), r.2.bv()) == hyp_iter(
            (x.bv(), y.bv(), z.bv()),
            max_iterations as nat,
            1,
            false,
            vectoring,
            T::fb(),
            T::tb(),
        ),
{
    let fbits = T::frac_bits();
    let ghost init = (x.bv(), y.bv(), z.bv());
    let mut cx = x;
    let mut cy = y;
    let mut cz = z;
    let zero = T::zero();
    let mut i: u32 = 1;
    let mut iteration_count: u32 = 0;
    let mut repeated = false;
    while iteration_count < max_iterations && i < 64
        invariant
            1 <= i <= 64,
            iteration_count <= max_iterations <= 54,
            zero.bv() == 0,
            hyp_iter(
                (cx.bv(), cy.bv(), cz.bv()),
                (max_iterations - iteration_count) as nat,
                i as nat,
                repeated,
                vectoring,
                T::fb(),
                T::tb(),
            ) == hyp_iter(init, max_iterations as nat, 1, false, vectoring, T::fb(), T::tb()),
        decreases max_iterations - iteration_count,
    {
        let table_index = i - 1;
        let ang = T::from_i64_frac(table_lookup(&ATANH_TABLE, table_index));
        let xs = cy.shr(i);
        let ys = cx.shr(i);
        if vectoring {
            if cy.lt(zero) {
                cx = cx.saturating_add(xs);
                cy = cy.saturating_add(ys);
                cz = cz.saturating_sub(ang);
            } else {
                cx = cx.saturating_sub(xs);
                cy = cy.saturating_sub(ys);
                cz = cz.saturating_add(ang);
            }
        } else {
            if cz.ge(zero) {
                cx = cx.saturating_add(xs);
                cy = cy.saturating_add(ys);
                cz = cz.saturating_sub(ang);
            } else {
                cx = cx.saturating_sub(xs);
                cy = cy.saturating_sub(ys);
                cz = cz.saturating_add(ang);
            }
        }
        iteration_count = iteration_count + 1;
        if needs_repeat(i) && !repeated {
            repeated = true;
        } else {
            repeated = false;
            i = i + 1;
        }
    }
    (cx, cy, cz)
}

} // verus!
