//! Mantissa-level model of fixed-point values.
//!
//! A fixed-point number with `tb` total bits and `fb` fractional bits is
//! modelled by its mantissa: the signed integer whose value, divided by
//! `2^fb`, is the number represented.  All contracts in this crate speak of
//! mantissas.  This module holds the spec-level vocabulary (ranges,
//! saturation, truncating division, format conversion) and a few verified
//! executable helpers on raw `i128` mantissas.

use vstd::prelude::*;

verus! {

use vstd::arithmetic::power2::{pow2, lemma_pow2_strictly_increases, lemma_pow2_adds, lemma2_to64, lemma2_to64_rest, lemma_pow2_pos};

/// Smallest mantissa representable in `tb` total bits.
pub open spec fn min_m(tb: u32) -> int
    recommends
        1 <= tb <= 128,
{
    -(pow2((tb - 1) as nat) as int)
}

/// Largest mantissa representable in `tb` total bits.
pub open spec fn max_m(tb: u32) -> int
    recommends
        1 <= tb <= 128,
{
    pow2((tb - 1) as nat) as int - 1
}

/// Whether mantissa `v` is representable in `tb` total bits.
pub open spec fn fits_m(v: int, tb: u32) -> bool {
    min_m(tb) <= v <= max_m(tb)
}

/// `v` clamped to the representable mantissa range: the saturation policy of
/// every arithmetic operation of the numeric interface.
pub open spec fn sat_m(v: int, tb: u32) -> int {
    if v < min_m(tb) {
        min_m(tb)
    } else if v > max_m(tb) {
        max_m(tb)
    } else {
        v
    }
}

/// Division truncated toward zero, as machine division rounds.  The case
/// split mirrors the specification that vstd gives to `checked_div`.
pub open spec fn div_t(a: int, b: int) -> int
    recommends
        b != 0,
{
    if a == 0 {
        0
    } else if a > 0 && b > 0 {
        a / b
    } else if a < 0 && b < 0 {
        (a * -1) / (b * -1)
    } else if a < 0 {
        ((a * -1) / b) * -1
    } else {
        (a / (b * -1)) * -1
    }
}

/// The mantissa, at `fb` fractional bits, of a value stored as a 64-bit
/// pattern with `src_fb` fractional bits.  Right shifts truncate toward
/// negative infinity, as an arithmetic shift does.
pub open spec fn rescale_m(bits: int, src_fb: u32, fb: u32) -> int {
    if fb <= src_fb {
        bits / pow2((src_fb - fb) as nat) as int
    } else {
        bits * pow2((fb - src_fb) as nat) as int
    }
}

/// The two top powers of two of the 128-bit range, beyond the table that
/// vstd's `lemma2_to64_rest` covers.
pub proof fn lemma_pow2_127()
    ensures
        pow2(126) == 0x40000000000000000000000000000000,
        pow2(127) == 0x80000000000000000000000000000000,
{
    lemma2_to64();
    lemma2_to64_rest();
    lemma_pow2_adds(63, 63);
    lemma_pow2_adds(63, 64);
}

/// `2^k` as an `i128`.
pub fn pow2_i128(k: u32) -> (r: i128)
    requires
        k <= 126,
    ensures
        r as int == pow2(k as nat),
        r >= 1,
{
    let mut i: u32 = 0;
    let mut r: i128 = 1;
    proof {
        vstd::arithmetic::power2::lemma_pow2(0);
        vstd::arithmetic::power::lemma_pow0(2);
    }
    while i < k
        invariant
            i <= k <= 126,
            r as int == pow2(i as nat),
            r >= 1,
        decreases k - i,
    {
        proof {
            lemma_pow2_127();
            if ((i + 1) as nat) < 126 {
                lemma_pow2_strictly_increases((i + 1) as nat, 126);
            }
            assert(pow2((i + 1) as nat) == 2 * pow2(i as nat)) by {
                vstd::arithmetic::power2::lemma_pow2_unfold((i + 1) as nat);
            };
            lemma_pow2_pos(i as nat);
        }
        r = r * 2;
        i = i + 1;
    }
    r
}

/// The pair `(min_m(tb), max_m(tb))` of representable mantissa bounds.
pub fn raw_bounds(tb: u32) -> (r: (i128, i128))
    requires
        2 <= tb <= 128,
    ensures
        r.0 as int == min_m(tb),
        r.1 as int == max_m(tb),
{
    if tb == 128 {
        proof {
            lemma_pow2_127();
        }
        (i128::MIN, i128::MAX)
    } else {
        let p = pow2_i128(tb - 1);
        (-p, p - 1)
    }
}

/// Floor division by a positive divisor moves a value toward zero and never
/// past it: the quotient stays between the dividend and zero.
pub proof fn lemma_div_shrinks(a: int, p: int)
    requires
        p >= 1,
    ensures
        a >= 0 ==> 0 <= a / p <= a,
        a < 0 ==> a <= a / p <= 0,
{
    if a >= 0 {
        vstd::arithmetic::div_mod::lemma_div_pos_is_pos(a, p);
        vstd::arithmetic::div_mod::lemma_div_nonincreasing(a, p);
    } else {
        vstd::arithmetic::div_mod::lemma_div_is_ordered(a, 0, p);
        vstd::arithmetic::div_mod::lemma_div_of0(p);
        vstd::arithmetic::div_mod::lemma_fundamental_div_mod(a, p);
        vstd::arithmetic::div_mod::lemma_mod_bound(a, p);
        let q = a / p;
        let r = a % p;
        assert(q <= -1);
        assert(a <= q) by (nonlinear_arith)
            requires
                a == q * p + r,
                0 <= r < p,
                p >= 1,
                q <= -1,
        ;
    }
}

/// Monotonicity of `pow2`, in the non-strict form.
pub proof fn lemma_pow2_increases(e1: nat, e2: nat)
    requires
        e1 <= e2,
    ensures
        pow2(e1) <= pow2(e2),
{
    if e1 < e2 {
        lemma_pow2_strictly_increases(e1, e2);
    }
}

/// Truncating division by a nonzero divisor never grows the magnitude.
pub proof fn lemma_div_t_shrinks(a: int, b: int)
    requires
        b != 0,
    ensures
        a >= 0 ==> -a <= div_t(a, b) <= a,
        a < 0 ==> a <= div_t(a, b) <= -a,
{
    if a == 0 {
    } else if a > 0 && b > 0 {
        lemma_div_shrinks(a, b);
    } else if a < 0 && b < 0 {
        lemma_div_shrinks(a * -1, b * -1);
    } else if a < 0 {
        lemma_div_shrinks(a * -1, b);
    } else {
        lemma_div_shrinks(a, b * -1);
    }
}

/// Floor division of `a` by `2^k`: the arithmetic right shift of a mantissa.
pub fn shr_floor(a: i128, k: u32) -> (r: i128)
    requires
        k <= 126,
    ensures
        r as int == a as int / pow2(k as nat) as int,
{
    let p = pow2_i128(k);
    proof {
        lemma_pow2_pos(k as nat);
        lemma_div_shrinks(a as int, p as int);
    }
    match a.checked_div_euclid(p) {
        Some(q) => q,
        None => 0,
    }
}

} // verus!

verus! {

use vstd::arithmetic::div_mod::{lemma_fundamental_div_mod, lemma_mod_bound, lemma_div_pos_is_pos, lemma_div_nonincreasing};

/// Truncating division is the floor quotient of the magnitudes, carrying
/// the product of the signs.
pub proof fn lemma_div_t_decompose(n: int, d: int)
    requires
        d != 0,
    ensures
        div_t(n, d) == (if (n >= 0) == (d > 0) {
            (if n >= 0 { n } else { -n }) / (if d > 0 { d } else { -d })
        } else {
            -((if n >= 0 { n } else { -n }) / (if d > 0 { d } else { -d }))
        }),
{
    let pn = if n >= 0 { n } else { -n };
    let pd = if d > 0 { d } else { -d };
    if n == 0 {
        vstd::arithmetic::div_mod::lemma_div_of0(pd);
    } else {
        assert(n * -1 == -n);
        assert(d * -1 == -d);
    }
}

/// The truncating quotient, scaled back by the divisor, misses the
/// dividend by less than one divisor, on the dividend's own side of zero.
pub proof fn lemma_div_t_rem(n: int, d: int)
    requires
        d > 0,
    ensures
        n >= 0 ==> 0 <= n - div_t(n, d) * d < d,
        n < 0 ==> -d < n - div_t(n, d) * d <= 0,
{
    lemma_div_t_decompose(n, d);
    if n >= 0 {
        lemma_fundamental_div_mod(n, d);
        lemma_mod_bound(n, d);
    } else {
        lemma_fundamental_div_mod(-n, d);
        lemma_mod_bound(-n, d);
        let q = (-n) / d;
        assert(div_t(n, d) == -q);
        assert(n - (-q) * d == -((-n) - q * d)) by (nonlinear_arith);
    }
}

/// The magnitude of a floor quotient of non-negative values, scaled back
/// by the divisor, never exceeds the dividend.
pub proof fn lemma_div_mul_le(n: int, d: int)
    requires
        n >= 0,
        d > 0,
    ensures
        0 <= (n / d) * d <= n,
{
    lemma_fundamental_div_mod(n, d);
    lemma_mod_bound(n, d);
    lemma_div_pos_is_pos(n, d);
    assert((n / d) * d >= 0) by (nonlinear_arith)
        requires
            n / d >= 0,
            d > 0,
    ;
    assert(d * (n / d) == (n / d) * d) by (nonlinear_arith);
    assert((n / d) * d <= n);
    assert(0 <= (n / d) * d);
}

} // verus!
