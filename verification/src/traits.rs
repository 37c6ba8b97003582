//! The numeric interface every fixed-point representation must provide.
//!
//! [`CordicNumber`] abstracts over signed fixed-point types.  A value is
//! modelled by its mantissa `bv()` (see [`crate::raw`]); the type supplies
//! the mantissa transport (`to_raw`, `from_raw`) and its format (`fb()`
//! fractional bits of `tb()` total bits), and the interface derives every
//! arithmetic operation, comparison and named constant from those, with
//! exact mantissa-level contracts.  Overflow always saturates; no operation
//! of the interface panics.
//!
//! The crate implements the interface for the signed types of the `fixed`
//! crate; only the two bit-transport functions per type are trusted.

use vstd::prelude::*;

verus! {

use vstd::arithmetic::power2::{
    pow2,
    lemma_pow2_pos,
    lemma_pow2_adds,
    lemma_pow2_strictly_increases,
    lemma2_to64,
    lemma2_to64_rest};
use vstd::arithmetic::div_mod::{
    lemma_div_nonincreasing,
    lemma_div_is_ordered,
    lemma_div_pos_is_pos,
    lemma_div_multiples_vanish};
use vstd::arithmetic::mul::lemma_mul_inequality;
use crate::raw::{min_m, max_m, fits_m, sat_m, div_t, rescale_m, pow2_i128, raw_bounds, shr_floor};

/// The mantissa of the value one at `fb` fractional bits: `2^fb`.
pub open spec fn one_m(fb: u32) -> int {
    pow2(fb as nat) as int
}

/// π stored with 60 fractional bits.
pub const PI_I4F60: i64 = 0x3243F6A8885A308D;

/// π/2 stored with 60 fractional bits.
pub const FRAC_PI_2_I4F60: i64 = 0x1921FB54442D1847;

/// π/4 stored with 60 fractional bits.
pub const FRAC_PI_4_I4F60: i64 = 0x0C90FDAA22168C23;

/// Euler's number e stored with 60 fractional bits.
pub const E_I4F60: i64 = 0x2B7E151628AED2A7;

/// ln 2 stored with 60 fractional bits.
pub const LN_2_I4F60: i64 = 0x0B17217F7D1CF79B;

/// ln 10 stored with 60 fractional bits.
pub const LN_10_I4F60: i64 = 0x24D763776AAA2B06;

/// The mantissa of π at `fb` fractional bits.
pub open spec fn pi_m(fb: u32) -> int {
    rescale_m(PI_I4F60 as int, 60, fb)
}

/// The mantissa of π/2 at `fb` fractional bits.
pub open spec fn frac_pi_2_m(fb: u32) -> int {
    rescale_m(FRAC_PI_2_I4F60 as int, 60, fb)
}

/// The mantissa of π/4 at `fb` fractional bits.
pub open spec fn frac_pi_4_m(fb: u32) -> int {
    rescale_m(FRAC_PI_4_I4F60 as int, 60, fb)
}

/// The mantissa of e at `fb` fractional bits.
pub open spec fn e_m(fb: u32) -> int {
    rescale_m(E_I4F60 as int, 60, fb)
}

/// The mantissa of ln 2 at `fb` fractional bits.
pub open spec fn ln_2_m(fb: u32) -> int {
    rescale_m(LN_2_I4F60 as int, 60, fb)
}

/// The mantissa of ln 10 at `fb` fractional bits.
pub open spec fn ln_10_m(fb: u32) -> int {
    rescale_m(LN_10_I4F60 as int, 60, fb)
}

/// Rescaling a 60-fractional-bit pattern in `[lo·2^60, hi·2^60)` lands in
/// `[lo·2^fb, hi·2^fb)`.
proof fn lemma_rescale_range(bits: int, lo: int, hi: int, fb: u32)
    requires
        0 <= lo,
        lo * pow2(60) <= bits < hi * pow2(60),
        fb <= 126,
    ensures
        lo * pow2(fb as nat) <= rescale_m(bits, 60, fb) < hi * pow2(fb as nat),
{
    if fb <= 60 {
        let d = pow2((60 - fb) as nat) as int;
        lemma_pow2_pos((60 - fb) as nat);
        lemma_pow2_adds(fb as nat, (60 - fb) as nat);
        assert(pow2(60) == pow2(fb as nat) * pow2((60 - fb) as nat));
        let p = pow2(fb as nat) as int;
        // bits / d >= lo * p  since  bits >= (lo * p) * d
        assert(lo * (p * d) == (lo * p) * d) by (nonlinear_arith);
        vstd::arithmetic::div_mod::lemma_div_multiples_vanish(lo * p, d);
        vstd::arithmetic::div_mod::lemma_div_is_ordered((lo * p) * d, bits, d);
        // bits / d < hi * p  since  bits <= (hi * p) * d - 1
        assert(hi * (p * d) == (hi * p) * d) by (nonlinear_arith);
        vstd::arithmetic::div_mod::lemma_div_is_ordered(bits, (hi * p) * d - 1, d);
        assert((hi * p) * d - 1 == (hi * p - 1) * d + (d - 1)) by (nonlinear_arith);
        vstd::arithmetic::div_mod::lemma_fundamental_div_mod_converse_div((hi * p) * d - 1, d, hi * p - 1, d - 1);
    } else {
        let f = pow2((fb - 60) as nat) as int;
        lemma_pow2_pos((fb - 60) as nat);
        lemma_pow2_adds(60, (fb - 60) as nat);
        let p = pow2(fb as nat) as int;
        assert(p == pow2(60) * f);
        assert(lo * (pow2(60) * f) == (lo * pow2(60)) * f) by (nonlinear_arith);
        assert(hi * (pow2(60) * f) == (hi * pow2(60)) * f) by (nonlinear_arith);
        lemma_mul_inequality(lo * pow2(60), bits, f);
        assert(bits * f < (hi * pow2(60)) * f) by (nonlinear_arith)
            requires
                bits < hi * pow2(60),
                f > 0,
        ;
    }
}

use vstd::arithmetic::div_mod::lemma_fundamental_div_mod_converse_div;

/// The shared argument behind every named constant of the interface: a
/// 60-fractional-bit pattern between `lo` and `hi` units rescales to a
/// mantissa between `lo` and `hi` units of the target format, fitting both
/// the type's width and the 128-bit working range.
proof fn lemma_const_range(bits: int, lo: int, hi: int, fb: u32, tb: u32)
    requires
        0 <= lo,
        hi <= 4,
        lo * 0x1000_0000_0000_0000 <= bits < hi * 0x1000_0000_0000_0000,
        4 <= fb,
        fb + 3 <= tb,
        tb <= 128,
    ensures
        lo * one_m(fb) <= rescale_m(bits, 60, fb) < hi * one_m(fb),
        fits_m(rescale_m(bits, 60, fb), tb),
        -(pow2(127) as int) <= rescale_m(bits, 60, fb) < pow2(127) as int,
        fb <= 125,
{
    lemma2_to64();
    lemma2_to64_rest();
    crate::raw::lemma_pow2_127();
    assert(pow2(60) == 0x1000_0000_0000_0000);
    lemma_rescale_range(bits, lo, hi, fb);
    lemma_pow2_pos(fb as nat);
    lemma_pow2_pos((tb - 1) as nat);
    lemma_pow2_adds(fb as nat, 2);
    if ((fb + 2) as nat) < ((tb - 1) as nat) {
        lemma_pow2_strictly_increases((fb + 2) as nat, (tb - 1) as nat);
    }
    crate::raw::lemma_pow2_increases((fb + 2) as nat, 127);
    assert(hi * pow2(fb as nat) as int <= 4 * pow2(fb as nat) as int) by (nonlinear_arith)
        requires
            hi <= 4,
            pow2(fb as nat) as int > 0,
    ;
    assert(4 * pow2(fb as nat) as int == pow2((fb + 2) as nat) as int);
    assert(lo * pow2(fb as nat) as int >= 0) by (nonlinear_arith)
        requires
            lo >= 0,
            pow2(fb as nat) as int > 0,
    ;
}

/// A number type usable by the CORDIC engine.
///
/// A value stands for the rational `bv() / 2^fb()`, where the mantissa
/// `bv()` fits in `tb()` total bits.  Implementations provide the format and
/// the mantissa transport; everything else has a default implementation,
/// verified once here against the transport's contract.  Arithmetic
/// saturates at the representable bounds instead of wrapping or panicking.
///
/// Exact products and quotients need a 128-bit intermediate twice the
/// type's width, so multiplication and division (and everything built on
/// them) are provided for types of at most 64 total bits; wider types can
/// still be constructed, compared, shifted, added and converted.
pub trait CordicNumber: Sized + Copy {
    /// The mantissa this value stands for.
    spec fn bv(self) -> int;

    /// The number of fractional bits of this type.
    spec fn fb() -> u32;

    /// The total number of bits of this type.
    spec fn tb() -> u32;

    /// Returns the number of fractional bits in this type.
    fn frac_bits() -> (r: u32)
        ensures
            r == Self::fb(),
            4 <= Self::fb(),
            Self::fb() + 3 <= Self::tb(),
            Self::tb() <= 128,
    ;

    /// Returns the total number of bits in this type.
    fn total_bits() -> (r: u32)
        ensures
            r == Self::tb(),
            4 <= Self::fb(),
            Self::fb() + 3 <= Self::tb(),
            Self::tb() <= 128,
    ;

    /// The mantissa of this value, widened to an `i128`.
    fn to_raw(self) -> (r: i128)
        ensures
            r as int == self.bv(),
            fits_m(self.bv(), Self::tb()),
    ;

    /// The value with the given mantissa.
    fn from_raw(bits: i128) -> (r: Self)
        requires
            fits_m(bits as int, Self::tb()),
        ensures
            r.bv() == bits as int,
    ;

    /// The zero value.
    fn zero() -> (r: Self)
        ensures
            r.bv() == 0,
    {
        let tbits = Self::total_bits();
        proof {
            lemma_pow2_pos((tbits - 1) as nat);
        }
        Self::from_raw(0)
    }

    /// The value one.
    fn one() -> (r: Self)
        ensures
            r.bv() == one_m(Self::fb()),
    {
        let fbits = Self::frac_bits();
        let tbits = Self::total_bits();
        let p = pow2_i128(fbits);
        proof {
            lemma_pow2_pos((tbits - 1) as nat);
            lemma_pow2_strictly_increases(fbits as nat, (tbits - 1) as nat);
        }
        Self::from_raw(p)
    }

    /// The value two.
    fn two() -> (r: Self)
        ensures
            r.bv() == 2 * one_m(Self::fb()),
    {
        let fbits = Self::frac_bits();
        let tbits = Self::total_bits();
        let p = pow2_i128(fbits + 1);
        proof {
            lemma_pow2_pos((tbits - 1) as nat);
            lemma_pow2_adds(fbits as nat, 1);
            lemma_pow2_strictly_increases((fbits + 1) as nat, (tbits - 1) as nat);
            assert(pow2((fbits + 1) as nat) == 2 * pow2(fbits as nat)) by {
                vstd::arithmetic::power2::lemma_pow2_unfold((fbits + 1) as nat);
            };
        }
        Self::from_raw(p)
    }

    /// The value one half.
    fn half() -> (r: Self)
        ensures
            r.bv() == pow2((Self::fb() - 1) as nat) as int,
            2 * r.bv() == one_m(Self::fb()),
    {
        let fbits = Self::frac_bits();
        let tbits = Self::total_bits();
        let p = pow2_i128(fbits - 1);
        proof {
            lemma_pow2_pos((tbits - 1) as nat);
            lemma_pow2_strictly_increases((fbits - 1) as nat, (tbits - 1) as nat);
            assert(pow2(fbits as nat) == 2 * pow2((fbits - 1) as nat)) by {
                vstd::arithmetic::power2::lemma_pow2_unfold(fbits as nat);
            };
        }
        Self::from_raw(p)
    }

    /// The mathematical constant π.
    fn pi() -> (r: Self)
        ensures
            r.bv() == pi_m(Self::fb()),
            3 * one_m(Self::fb()) <= r.bv() < 4 * one_m(Self::fb()),
    {
        let fbits = Self::frac_bits();
        let tbits = Self::total_bits();
        proof {
            lemma_const_range(PI_I4F60 as int, 3, 4, fbits, tbits);
        }
        let raw = rescale_raw(PI_I4F60, 60, fbits);
        Self::from_raw(raw)
    }

    /// The mathematical constant π/2.
    fn frac_pi_2() -> (r: Self)
        ensures
            r.bv() == frac_pi_2_m(Self::fb()),
            one_m(Self::fb()) <= r.bv() < 2 * one_m(Self::fb()),
    {
        let fbits = Self::frac_bits();
        let tbits = Self::total_bits();
        proof {
            lemma_const_range(FRAC_PI_2_I4F60 as int, 1, 2, fbits, tbits);
        }
        let raw = rescale_raw(FRAC_PI_2_I4F60, 60, fbits);
        Self::from_raw(raw)
    }

    /// The mathematical constant π/4.
    fn frac_pi_4() -> (r: Self)
        ensures
            r.bv() == frac_pi_4_m(Self::fb()),
            0 <= r.bv() < one_m(Self::fb()),
    {
        let fbits = Self::frac_bits();
        let tbits = Self::total_bits();
        proof {
            lemma_const_range(FRAC_PI_4_I4F60 as int, 0, 1, fbits, tbits);
        }
        let raw = rescale_raw(FRAC_PI_4_I4F60, 60, fbits);
        Self::from_raw(raw)
    }

    /// Euler's number e.
    fn e() -> (r: Self)
        ensures
            r.bv() == e_m(Self::fb()),
            2 * one_m(Self::fb()) <= r.bv() < 3 * one_m(Self::fb()),
    {
        let fbits = Self::frac_bits();
        let tbits = Self::total_bits();
        proof {
            lemma_const_range(E_I4F60 as int, 2, 3, fbits, tbits);
        }
        let raw = rescale_raw(E_I4F60, 60, fbits);
        Self::from_raw(raw)
    }

    /// The natural logarithm of 2.
    fn ln_2() -> (r: Self)
        ensures
            r.bv() == ln_2_m(Self::fb()),
            0 <= r.bv() < one_m(Self::fb()),
    {
        let fbits = Self::frac_bits();
        let tbits = Self::total_bits();
        proof {
            lemma_const_range(LN_2_I4F60 as int, 0, 1, fbits, tbits);
        }
        let raw = rescale_raw(LN_2_I4F60, 60, fbits);
        Self::from_raw(raw)
    }

    /// The natural logarithm of 10.
    fn ln_10() -> (r: Self)
        ensures
            r.bv() == ln_10_m(Self::fb()),
            2 * one_m(Self::fb()) <= r.bv() < 3 * one_m(Self::fb()),
    {
        let fbits = Self::frac_bits();
        let tbits = Self::total_bits();
        proof {
            lemma_const_range(LN_10_I4F60 as int, 2, 3, fbits, tbits);
        }
        let raw = rescale_raw(LN_10_I4F60, 60, fbits);
        Self::from_raw(raw)
    }

    /// Converts from a 64-bit signed fractional representation with 63
    /// fractional bits.
    fn from_i64_frac(bits: i64) -> (r: Self)
        ensures
            r.bv() == rescale_m(bits as int, 63, Self::fb()),
    {
        let fbits = Self::frac_bits();
        let tbits = Self::total_bits();
        proof {
            lemma2_to64();
            lemma2_to64_rest();
            crate::raw::lemma_pow2_127();
            lemma_rescale_mag(bits as int, 63, fbits);
            lemma_pow2_strictly_increases(fbits as nat, (tbits - 1) as nat);
            lemma_pow2_strictly_increases(fbits as nat, 127);
        }
        let raw = rescale_raw(bits, 63, fbits);
        Self::from_raw(raw)
    }

    /// Converts from a 64-bit signed fractional representation with 62
    /// fractional bits, used for constants in `[1, 2)`.
    fn from_i2f62_frac(bits: i64) -> (r: Self)
        ensures
            r.bv() == rescale_m(bits as int, 62, Self::fb()),
    {
        let fbits = Self::frac_bits();
        let tbits = Self::total_bits();
        proof {
            lemma2_to64();
            lemma2_to64_rest();
            crate::raw::lemma_pow2_127();
            lemma_rescale_mag(bits as int, 62, fbits);
            lemma_pow2_strictly_increases((fbits + 1) as nat, (tbits - 1) as nat);
            lemma_pow2_strictly_increases((fbits + 1) as nat, 127);
        }
        let raw = rescale_raw(bits, 62, fbits);
        Self::from_raw(raw)
    }

    /// Checks if this value is negative.
    fn is_negative(self) -> (r: bool)
        ensures
            r == (self.bv() < 0),
    {
        self.to_raw() < 0
    }

    /// Checks if this value is positive.
    fn is_positive(self) -> (r: bool)
        ensures
            r == (self.bv() > 0),
    {
        self.to_raw() > 0
    }

    /// Comparison `self < rhs`.
    fn lt(self, rhs: Self) -> (r: bool)
        ensures
            r == (self.bv() < rhs.bv()),
    {
        self.to_raw() < rhs.to_raw()
    }

    /// Comparison `self <= rhs`.
    fn le(self, rhs: Self) -> (r: bool)
        ensures
            r == (self.bv() <= rhs.bv()),
    {
        self.to_raw() <= rhs.to_raw()
    }

    /// Comparison `self > rhs`.
    fn gt(self, rhs: Self) -> (r: bool)
        ensures
            r == (self.bv() > rhs.bv()),
    {
        self.to_raw() > rhs.to_raw()
    }

    /// Comparison `self >= rhs`.
    fn ge(self, rhs: Self) -> (r: bool)
        ensures
            r == (self.bv() >= rhs.bv()),
    {
        self.to_raw() >= rhs.to_raw()
    }

    /// Equality of the represented values.
    fn eq_v(self, rhs: Self) -> (r: bool)
        ensures
            r == (self.bv() == rhs.bv()),
    {
        self.to_raw() == rhs.to_raw()
    }

    /// Saturating negation.
    fn neg(self) -> (r: Self)
        ensures
            r.bv() == sat_m(-self.bv(), Self::tb()),
    {
        let tbits = Self::total_bits();
        let a = self.to_raw();
        let (lo, hi) = raw_bounds(tbits);
        if a == i128::MIN {
            proof {
                crate::raw::lemma_pow2_127();
            }
            Self::from_raw(hi)
        } else {
            let n = -a;
            Self::from_raw(if n < lo { lo } else if n > hi { hi } else { n })
        }
    }

    /// Returns the absolute value, saturated at the greatest representable
    /// value.
    fn abs(self) -> (r: Self)
        ensures
            r.bv() == sat_m(if self.bv() < 0 { -self.bv() } else { self.bv() }, Self::tb()),
            r.bv() >= 0,
    {
        let tbits = Self::total_bits();
        let a = self.to_raw();
        proof {
            lemma_pow2_pos((tbits - 1) as nat);
        }
        if a < 0 {
            self.neg()
        } else {
            self
        }
    }

    /// Saturating addition.
    fn saturating_add(self, rhs: Self) -> (r: Self)
        ensures
            r.bv() == sat_m(self.bv() + rhs.bv(), Self::tb()),
    {
        let tbits = Self::total_bits();
        let a = self.to_raw();
        let b = rhs.to_raw();
        let (lo, hi) = raw_bounds(tbits);
        match a.checked_add(b) {
            Some(s) => Self::from_raw(if s < lo { lo } else if s > hi { hi } else { s }),
            None => {
                proof {
                    crate::raw::lemma_pow2_127();
                    lemma_pow2_pos((tbits - 1) as nat);
                    crate::raw::lemma_pow2_increases((tbits - 1) as nat, 127);
                }
                Self::from_raw(if a > 0 { hi } else { lo })
            }}
    }

    /// Saturating subtraction.
    fn saturating_sub(self, rhs: Self) -> (r: Self)
        ensures
            r.bv() == sat_m(self.bv() - rhs.bv(), Self::tb()),
    {
        let tbits = Self::total_bits();
        let a = self.to_raw();
        let b = rhs.to_raw();
        let (lo, hi) = raw_bounds(tbits);
        match a.checked_sub(b) {
            Some(s) => Self::from_raw(if s < lo { lo } else if s > hi { hi } else { s }),
            None => {
                proof {
                    crate::raw::lemma_pow2_127();
                    lemma_pow2_pos((tbits - 1) as nat);
                    crate::raw::lemma_pow2_increases((tbits - 1) as nat, 127);
                }
                Self::from_raw(if b < 0 { hi } else { lo })
            }}
    }

    /// Arithmetic right shift: floor division of the mantissa by `2^k`.
    fn shr(self, k: u32) -> (r: Self)
        requires
            k <= 126,
        ensures
            r.bv() == self.bv() / pow2(k as nat) as int,
    {
        let tbits = Self::total_bits();
        let a = self.to_raw();
        let q = shr_floor(a, k);
        proof {
            lemma_pow2_pos(k as nat);
            crate::raw::lemma_div_shrinks(a as int, pow2(k as nat) as int);
        }
        Self::from_raw(q)
    }

    /// Saturating multiplication: the exact product of the represented
    /// values, rounded toward negative infinity to `fb` fractional bits and
    /// clamped to the representable range.
    fn saturating_mul(self, rhs: Self) -> (r: Self)
        requires
            Self::tb() <= 64,
        ensures
            r.bv() == sat_m((self.bv() * rhs.bv()) / one_m(Self::fb()), Self::tb()),
    {
        let fbits = Self::frac_bits();
        let tbits = Self::total_bits();
        let a = self.to_raw();
        let b = rhs.to_raw();
        let (lo, hi) = raw_bounds(tbits);
        proof {
            lemma2_to64();
            lemma2_to64_rest();
            crate::raw::lemma_pow2_increases((tbits - 1) as nat, 63);
            assert(-(pow2(63) as int) * pow2(63) as int <= a as int * b as int <= pow2(63) as int * pow2(63) as int)
                by (nonlinear_arith)
                requires
                    -(pow2(63) as int) <= a as int <= pow2(63) as int,
                    -(pow2(63) as int) <= b as int <= pow2(63) as int,
            ;
            lemma_pow2_adds(63, 63);
        }
        let p = match a.checked_mul(b) {
            Some(p) => p,
            None => 0};
        let q = shr_floor(p, fbits);
        proof {
            lemma_pow2_pos(fbits as nat);
            crate::raw::lemma_div_shrinks(p as int, pow2(fbits as nat) as int);
        }
        Self::from_raw(if q < lo { lo } else if q > hi { hi } else { q })
    }

    /// Division: the exact quotient of the represented values, truncated
    /// toward zero to `fb` fractional bits and clamped to the representable
    /// range.
    fn div(self, rhs: Self) -> (r: Self)
        requires
            Self::tb() <= 64,
            rhs.bv() != 0,
        ensures
            r.bv() == sat_m(div_t(self.bv() * one_m(Self::fb()), rhs.bv()), Self::tb()),
    {
        let fbits = Self::frac_bits();
        let tbits = Self::total_bits();
        let a = self.to_raw();
        let b = rhs.to_raw();
        let (lo, hi) = raw_bounds(tbits);
        proof {
            lemma2_to64();
            lemma2_to64_rest();
            crate::raw::lemma_pow2_increases((tbits - 1) as nat, 63);
            crate::raw::lemma_pow2_increases(fbits as nat, 62);
            lemma_pow2_pos(fbits as nat);
            assert(-(pow2(63) as int) * pow2(62) as int <= a as int * pow2(fbits as nat) as int <= pow2(63) as int * pow2(62) as int)
                by (nonlinear_arith)
                requires
                    -(pow2(63) as int) <= a as int <= pow2(63) as int,
                    0 < pow2(fbits as nat) as int <= pow2(62) as int,
            ;
            lemma_pow2_adds(63, 62);
        }
        let pf = pow2_i128(fbits);
        let num = match a.checked_mul(pf) {
            Some(n) => n,
            None => 0};
        let q = match num.checked_div(b) {
            Some(q) => q,
            None => 0};
        proof {
            crate::raw::lemma_div_t_shrinks(num as int, b as int);
            assert(q as int == div_t(num as int, b as int));
            assert(num as int == self.bv() * one_m(Self::fb()));
        }
        Self::from_raw(if q < lo { lo } else if q > hi { hi } else { q })
    }

    /// The mantissa truncated toward zero to a whole number of units.
    fn trunc_to_int(self) -> (r: Self)
        requires
            Self::tb() <= 64,
        ensures
            r.bv() == div_t(self.bv(), one_m(Self::fb())) * one_m(Self::fb()),
    {
        let fbits = Self::frac_bits();
        let tbits = Self::total_bits();
        let a = self.to_raw();
        proof {
            lemma_pow2_pos(fbits as nat);
            lemma2_to64();
            lemma2_to64_rest();
            crate::raw::lemma_pow2_127();
            crate::raw::lemma_pow2_increases((tbits - 1) as nat, 63);
        }
        let p = pow2_i128(fbits);
        if a >= 0 {
            let q = shr_floor(a, fbits);
            proof {
                lemma_div_nonincreasing(a as int, p as int);
                lemma_div_pos_is_pos(a as int, p as int);
                assert((a as int / p as int) * p as int <= a as int && 0 <= (a as int / p as int) * p as int) by {
                    vstd::arithmetic::div_mod::lemma_fundamental_div_mod(a as int, p as int);
                    vstd::arithmetic::div_mod::lemma_mod_bound(a as int, p as int);
                };
            }
            Self::from_raw(q * p)
        } else {
            let q = shr_floor(-a, fbits);
            proof {
                lemma_div_nonincreasing(-a as int, p as int);
                lemma_div_pos_is_pos(-a as int, p as int);
                assert((((-a) as int / p as int) * p as int <= (-a) as int) && 0 <= ((-a) as int / p as int) * p as int) by {
                    vstd::arithmetic::div_mod::lemma_fundamental_div_mod((-a) as int, p as int);
                    vstd::arithmetic::div_mod::lemma_mod_bound((-a) as int, p as int);
                };
                assert((q as int * -1) * p as int == -(q as int * p as int)) by (nonlinear_arith);
                assert(div_t(self.bv(), p as int) == q as int * -1);
            }
            Self::from_raw(-(q * p))
        }
    }

    /// The maximum representable value.
    fn max_value() -> (r: Self)
        ensures
            r.bv() == max_m(Self::tb()),
    {
        let tbits = Self::total_bits();
        let (lo, hi) = raw_bounds(tbits);
        proof {
            lemma_pow2_pos((tbits - 1) as nat);
        }
        Self::from_raw(hi)
    }

    /// The minimum representable value.
    fn min_value() -> (r: Self)
        ensures
            r.bv() == min_m(Self::tb()),
    {
        let tbits = Self::total_bits();
        let (lo, hi) = raw_bounds(tbits);
        proof {
            lemma_pow2_pos((tbits - 1) as nat);
        }
        Self::from_raw(lo)
    }
}

/// Rescales a 64-bit pattern with `src_fb` fractional bits to a mantissa
/// with `fb` fractional bits.
fn rescale_raw(bits: i64, src_fb: u32, fb: u32) -> (r: i128)
    requires
        60 <= src_fb <= 63,
        fb <= 125,
        -(pow2(127) as int) <= rescale_m(bits as int, src_fb, fb),
        rescale_m(bits as int, src_fb, fb) < pow2(127) as int,
    ensures
        r as int == rescale_m(bits as int, src_fb, fb),
{
    let a = bits as i128;
    if fb <= src_fb {
        shr_floor(a, src_fb - fb)
    } else {
        let f = pow2_i128(fb - src_fb);
        proof {
            crate::raw::lemma_pow2_127();
            assert(a as int * f as int == rescale_m(bits as int, src_fb, fb));
        }
        match a.checked_mul(f) {
            Some(p) => p,
            None => 0}
    }
}

/// Rescaling keeps the halving relation between π and π/2: the mantissa of
/// π is at most one more than twice the mantissa of π/2.
pub proof fn lemma_pi_le_two_fp2(fb: u32)
    requires
        4 <= fb <= 125,
    ensures
        pi_m(fb) <= 2 * frac_pi_2_m(fb) + 1,
{
    let f = FRAC_PI_2_I4F60 as int;
    assert(PI_I4F60 as int == 2 * f - 1);
    if fb <= 60 {
        let d = pow2((60 - fb) as nat) as int;
        lemma_pow2_pos((60 - fb) as nat);
        let a = f / d;
        vstd::arithmetic::div_mod::lemma_fundamental_div_mod(f, d);
        vstd::arithmetic::div_mod::lemma_mod_bound(f, d);
        let r = f % d;
        // 2f - 1 < (2a + 2) d, so its floor quotient is at most 2a + 1.
        assert(2 * f - 1 <= (2 * a + 2) * d - 1) by (nonlinear_arith)
            requires
                f == d * a + r,
                0 <= r < d,
        ;
        vstd::arithmetic::div_mod::lemma_div_is_ordered(2 * f - 1, (2 * a + 2) * d - 1, d);
        assert(((2 * a + 2) * d - 1) / d == 2 * a + 1) by {
            assert((2 * a + 2) * d - 1 == (2 * a + 1) * d + (d - 1)) by (nonlinear_arith);
            vstd::arithmetic::div_mod::lemma_fundamental_div_mod_converse_div(
                (2 * a + 2) * d - 1,
                d,
                2 * a + 1,
                d - 1,
            );
        };
    } else {
        let e = pow2((fb - 60) as nat) as int;
        lemma_pow2_pos((fb - 60) as nat);
        assert((2 * f - 1) * e <= 2 * (f * e)) by (nonlinear_arith)
            requires
                e >= 1,
        ;
    }
}

/// The mantissa of π lies between three and four units at every supported
/// fractional width.
pub proof fn lemma_pi_m_bounds(fb: u32)
    requires
        4 <= fb <= 125,
    ensures
        3 * one_m(fb) <= pi_m(fb),
        pi_m(fb) < 4 * one_m(fb),
{
    lemma2_to64();
    lemma2_to64_rest();
    lemma_rescale_range(PI_I4F60 as int, 3, 4, fb);
}

/// A 60-fractional-bit pattern of at least `2^56` rescales to a positive
/// mantissa at any supported fractional width.
pub proof fn lemma_const_positive(bits: int, fb: u32)
    requires
        pow2(56) <= bits,
        4 <= fb <= 125,
    ensures
        rescale_m(bits, 60, fb) > 0,
{
    if fb <= 60 {
        let d = pow2((60 - fb) as nat) as int;
        lemma_pow2_pos((60 - fb) as nat);
        crate::raw::lemma_pow2_increases((60 - fb) as nat, 56);
        vstd::arithmetic::div_mod::lemma_div_is_ordered(d, bits, d);
        vstd::arithmetic::div_mod::lemma_div_multiples_vanish(1, d);} else {
        let f = pow2((fb - 60) as nat) as int;
        lemma_pow2_pos((fb - 60) as nat);
        lemma_pow2_pos(56);
        assert(bits * f > 0) by (nonlinear_arith)
            requires
                bits > 0,
                f > 0,
        ;
    }
}

/// The magnitude of a rescaled 64-bit pattern: rescaling from `src_fb` to
/// `fb` fractional bits multiplies the magnitude bound `2^63` by
/// `2^(fb - src_fb)`.
proof fn lemma_rescale_mag(bits: int, src_fb: u32, fb: u32)
    requires
        60 <= src_fb <= 63,
        fb <= 126,
        -(pow2(63) as int) <= bits <= pow2(63) as int,
    ensures
        -(pow2((63 - src_fb + fb) as nat) as int) <= rescale_m(bits, src_fb, fb)
            <= pow2((63 - src_fb + fb) as nat) as int,
{
    if fb <= src_fb {
        let d = pow2((src_fb - fb) as nat) as int;
        let bound = pow2((63 - src_fb + fb) as nat) as int;
        lemma_pow2_pos((src_fb - fb) as nat);
        lemma_pow2_adds((63 - src_fb + fb) as nat, (src_fb - fb) as nat);
        assert(bound * d == pow2(63) as int);
        lemma_div_is_ordered(bits, pow2(63) as int, d);
        lemma_div_is_ordered(-(pow2(63) as int), bits, d);
        lemma_div_multiples_vanish(bound, d);
        lemma_div_multiples_vanish(-bound, d);
        assert((-bound) * d == -(bound * d)) by (nonlinear_arith);
    } else {
        let f = pow2((fb - src_fb) as nat) as int;
        let bound = pow2((63 - src_fb + fb) as nat) as int;
        lemma_pow2_pos((fb - src_fb) as nat);
        lemma_pow2_adds(63, (fb - src_fb) as nat);
        assert(bound == pow2(63) as int * f);
        assert(bits * f <= pow2(63) as int * f && -(pow2(63) as int) * f <= bits * f)
            by (nonlinear_arith)
            requires
                -(pow2(63) as int) <= bits <= pow2(63) as int,
                f > 0,
        ;
        assert(-(pow2(63) as int) * f == -(pow2(63) as int * f)) by (nonlinear_arith);
    }
}

// ------------------------------------------------------------------
// Implementations for the signed fixed-point types of the `fixed` crate.
//
// Only the two bit-transport functions of each type are trusted: `to_bits`
// and `from_bits` of the `fixed` crate are documented as the identity on
// the bitwise representation, which is exactly the mantissa.  Everything
// else comes from the verified default methods of the trait.
// ------------------------------------------------------------------

#[verifier::external_type_specification]
#[verifier::external_body]
pub struct ExUTerm(typenum::UTerm);

#[verifier::external_type_specification]
#[verifier::external_body]
pub struct ExB0(typenum::B0);

#[verifier::external_type_specification]
#[verifier::external_body]
pub struct ExB1(typenum::B1);

#[verifier::external_type_specification]
#[verifier::external_body]
#[verifier::reject_recursive_types(U)]
#[verifier::reject_recursive_types(B)]
pub struct ExUInt<U, B>(typenum::UInt<U, B>);

#[verifier::external_type_specification]
#[verifier::external_body]
#[verifier::reject_recursive_types(Frac)]
pub struct ExFixedI16<Frac>(fixed::FixedI16<Frac>);

#[verifier::external_type_specification]
#[verifier::external_body]
#[verifier::reject_recursive_types(Frac)]
pub struct ExFixedI32<Frac>(fixed::FixedI32<Frac>);

#[verifier::external_type_specification]
#[verifier::external_body]
#[verifier::reject_recursive_types(Frac)]
pub struct ExFixedI64<Frac>(fixed::FixedI64<Frac>);

#[verifier::external_type_specification]
#[verifier::external_body]
#[verifier::reject_recursive_types(Frac)]
pub struct ExFixedI128<Frac>(fixed::FixedI128<Frac>);


/// The mantissa of a `FixedI16<U8>` value (16 bits, 8 fractional).
pub uninterp spec fn m_i8f8(x: fixed::FixedI16<fixed::types::extra::U8>) -> int;

/// Relies on `fixed::FixedI16::to_bits`: an integer bitwise identical to the
/// fixed-point number, which is the mantissa this crate names `m_i8f8`.
#[verifier::external_body]
fn i8f8_bits(x: fixed::FixedI16<fixed::types::extra::U8>) -> (r: i128)
    ensures
        r as int == m_i8f8(x),
        -(pow2(15) as int) <= r as int && (r as int) < pow2(15) as int,
{
    x.to_bits() as i128
}

/// Relies on `fixed::FixedI16::from_bits`: builds the fixed-point number
/// bitwise identical to the given integer.
#[verifier::external_body]
fn i8f8_make(bits: i128) -> (r: fixed::FixedI16<fixed::types::extra::U8>)
    requires
        -(pow2(15) as int) <= bits as int && (bits as int) < pow2(15) as int,
    ensures
        m_i8f8(r) == bits as int,
{
    fixed::FixedI16::from_bits(bits as i16)
}

impl CordicNumber for fixed::FixedI16<fixed::types::extra::U8> {
    open spec fn bv(self) -> int {
        m_i8f8(self)
    }

    open spec fn fb() -> u32 {
        8
    }

    open spec fn tb() -> u32 {
        16
    }

    fn frac_bits() -> (r: u32) {
        proof {
            assert(<fixed::FixedI16<fixed::types::extra::U8> as CordicNumber>::fb() == 8);
            assert(<fixed::FixedI16<fixed::types::extra::U8> as CordicNumber>::tb() == 16);
        }
        8
    }

    fn total_bits() -> (r: u32) {
        proof {
            assert(<fixed::FixedI16<fixed::types::extra::U8> as CordicNumber>::fb() == 8);
            assert(<fixed::FixedI16<fixed::types::extra::U8> as CordicNumber>::tb() == 16);
        }
        16
    }

    fn to_raw(self) -> (r: i128) {
        proof {
            assert(<fixed::FixedI16<fixed::types::extra::U8> as CordicNumber>::tb() == 16);
            lemma2_to64();
            lemma2_to64_rest();
        }
        i8f8_bits(self)
    }

    fn from_raw(bits: i128) -> (r: Self) {
        proof {
            assert(<fixed::FixedI16<fixed::types::extra::U8> as CordicNumber>::tb() == 16);
            lemma2_to64();
            lemma2_to64_rest();
        }
        i8f8_make(bits)
    }
}


/// The mantissa of a `FixedI16<U12>` value (16 bits, 12 fractional).
pub uninterp spec fn m_i4f12(x: fixed::FixedI16<fixed::types::extra::U12>) -> int;

/// Relies on `fixed::FixedI16::to_bits`: an integer bitwise identical to the
/// fixed-point number, which is the mantissa this crate names `m_i4f12`.
#[verifier::external_body]
fn i4f12_bits(x: fixed::FixedI16<fixed::types::extra::U12>) -> (r: i128)
    ensures
        r as int == m_i4f12(x),
        -(pow2(15) as int) <= r as int && (r as int) < pow2(15) as int,
{
    x.to_bits() as i128
}

/// Relies on `fixed::FixedI16::from_bits`: builds the fixed-point number
/// bitwise identical to the given integer.
#[verifier::external_body]
fn i4f12_make(bits: i128) -> (r: fixed::FixedI16<fixed::types::extra::U12>)
    requires
        -(pow2(15) as int) <= bits as int && (bits as int) < pow2(15) as int,
    ensures
        m_i4f12(r) == bits as int,
{
    fixed::FixedI16::from_bits(bits as i16)
}

impl CordicNumber for fixed::FixedI16<fixed::types::extra::U12> {
    open spec fn bv(self) -> int {
        m_i4f12(self)
    }

    open spec fn fb() -> u32 {
        12
    }

    open spec fn tb() -> u32 {
        16
    }

    fn frac_bits() -> (r: u32) {
        proof {
            assert(<fixed::FixedI16<fixed::types::extra::U12> as CordicNumber>::fb() == 12);
            assert(<fixed::FixedI16<fixed::types::extra::U12> as CordicNumber>::tb() == 16);
        }
        12
    }

    fn total_bits() -> (r: u32) {
        proof {
            assert(<fixed::FixedI16<fixed::types::extra::U12> as CordicNumber>::fb() == 12);
            assert(<fixed::FixedI16<fixed::types::extra::U12> as CordicNumber>::tb() == 16);
        }
        16
    }

    fn to_raw(self) -> (r: i128) {
        proof {
            assert(<fixed::FixedI16<fixed::types::extra::U12> as CordicNumber>::tb() == 16);
            lemma2_to64();
            lemma2_to64_rest();
        }
        i4f12_bits(self)
    }

    fn from_raw(bits: i128) -> (r: Self) {
        proof {
            assert(<fixed::FixedI16<fixed::types::extra::U12> as CordicNumber>::tb() == 16);
            lemma2_to64();
            lemma2_to64_rest();
        }
        i4f12_make(bits)
    }
}


/// The mantissa of a `FixedI32<U16>` value (32 bits, 16 fractional).
pub uninterp spec fn m_i16f16(x: fixed::FixedI32<fixed::types::extra::U16>) -> int;

/// Relies on `fixed::FixedI32::to_bits`: an integer bitwise identical to the
/// fixed-point number, which is the mantissa this crate names `m_i16f16`.
#[verifier::external_body]
fn i16f16_bits(x: fixed::FixedI32<fixed::types::extra::U16>) -> (r: i128)
    ensures
        r as int == m_i16f16(x),
        -(pow2(31) as int) <= r as int && (r as int) < pow2(31) as int,
{
    x.to_bits() as i128
}

/// Relies on `fixed::FixedI32::from_bits`: builds the fixed-point number
/// bitwise identical to the given integer.
#[verifier::external_body]
fn i16f16_make(bits: i128) -> (r: fixed::FixedI32<fixed::types::extra::U16>)
    requires
        -(pow2(31) as int) <= bits as int && (bits as int) < pow2(31) as int,
    ensures
        m_i16f16(r) == bits as int,
{
    fixed::FixedI32::from_bits(bits as i32)
}

impl CordicNumber for fixed::FixedI32<fixed::types::extra::U16> {
    open spec fn bv(self) -> int {
        m_i16f16(self)
    }

    open spec fn fb() -> u32 {
        16
    }

    open spec fn tb() -> u32 {
        32
    }

    fn frac_bits() -> (r: u32) {
        proof {
            assert(<fixed::FixedI32<fixed::types::extra::U16> as CordicNumber>::fb() == 16);
            assert(<fixed::FixedI32<fixed::types::extra::U16> as CordicNumber>::tb() == 32);
        }
        16
    }

    fn total_bits() -> (r: u32) {
        proof {
            assert(<fixed::FixedI32<fixed::types::extra::U16> as CordicNumber>::fb() == 16);
            assert(<fixed::FixedI32<fixed::types::extra::U16> as CordicNumber>::tb() == 32);
        }
        32
    }

    fn to_raw(self) -> (r: i128) {
        proof {
            assert(<fixed::FixedI32<fixed::types::extra::U16> as CordicNumber>::tb() == 32);
            lemma2_to64();
            lemma2_to64_rest();
        }
        i16f16_bits(self)
    }

    fn from_raw(bits: i128) -> (r: Self) {
        proof {
            assert(<fixed::FixedI32<fixed::types::extra::U16> as CordicNumber>::tb() == 32);
            lemma2_to64();
            lemma2_to64_rest();
        }
        i16f16_make(bits)
    }
}


/// The mantissa of a `FixedI32<U24>` value (32 bits, 24 fractional).
pub uninterp spec fn m_i8f24(x: fixed::FixedI32<fixed::types::extra::U24>) -> int;

/// Relies on `fixed::FixedI32::to_bits`: an integer bitwise identical to the
/// fixed-point number, which is the mantissa this crate names `m_i8f24`.
#[verifier::external_body]
fn i8f24_bits(x: fixed::FixedI32<fixed::types::extra::U24>) -> (r: i128)
    ensures
        r as int == m_i8f24(x),
        -(pow2(31) as int) <= r as int && (r as int) < pow2(31) as int,
{
    x.to_bits() as i128
}

/// Relies on `fixed::FixedI32::from_bits`: builds the fixed-point number
/// bitwise identical to the given integer.
#[verifier::external_body]
fn i8f24_make(bits: i128) -> (r: fixed::FixedI32<fixed::types::extra::U24>)
    requires
        -(pow2(31) as int) <= bits as int && (bits as int) < pow2(31) as int,
    ensures
        m_i8f24(r) == bits as int,
{
    fixed::FixedI32::from_bits(bits as i32)
}

impl CordicNumber for fixed::FixedI32<fixed::types::extra::U24> {
    open spec fn bv(self) -> int {
        m_i8f24(self)
    }

    open spec fn fb() -> u32 {
        24
    }

    open spec fn tb() -> u32 {
        32
    }

    fn frac_bits() -> (r: u32) {
        proof {
            assert(<fixed::FixedI32<fixed::types::extra::U24> as CordicNumber>::fb() == 24);
            assert(<fixed::FixedI32<fixed::types::extra::U24> as CordicNumber>::tb() == 32);
        }
        24
    }

    fn total_bits() -> (r: u32) {
        proof {
            assert(<fixed::FixedI32<fixed::types::extra::U24> as CordicNumber>::fb() == 24);
            assert(<fixed::FixedI32<fixed::types::extra::U24> as CordicNumber>::tb() == 32);
        }
        32
    }

    fn to_raw(self) -> (r: i128) {
        proof {
            assert(<fixed::FixedI32<fixed::types::extra::U24> as CordicNumber>::tb() == 32);
            lemma2_to64();
            lemma2_to64_rest();
        }
        i8f24_bits(self)
    }

    fn from_raw(bits: i128) -> (r: Self) {
        proof {
            assert(<fixed::FixedI32<fixed::types::extra::U24> as CordicNumber>::tb() == 32);
            lemma2_to64();
            lemma2_to64_rest();
        }
        i8f24_make(bits)
    }
}


/// The mantissa of a `FixedI32<U8>` value (32 bits, 8 fractional).
pub uninterp spec fn m_i24f8(x: fixed::FixedI32<fixed::types::extra::U8>) -> int;

/// Relies on `fixed::FixedI32::to_bits`: an integer bitwise identical to the
/// fixed-point number, which is the mantissa this crate names `m_i24f8`.
#[verifier::external_body]
fn i24f8_bits(x: fixed::FixedI32<fixed::types::extra::U8>) -> (r: i128)
    ensures
        r as int == m_i24f8(x),
        -(pow2(31) as int) <= r as int && (r as int) < pow2(31) as int,
{
    x.to_bits() as i128
}

/// Relies on `fixed::FixedI32::from_bits`: builds the fixed-point number
/// bitwise identical to the given integer.
#[verifier::external_body]
fn i24f8_make(bits: i128) -> (r: fixed::FixedI32<fixed::types::extra::U8>)
    requires
        -(pow2(31) as int) <= bits as int && (bits as int) < pow2(31) as int,
    ensures
        m_i24f8(r) == bits as int,
{
    fixed::FixedI32::from_bits(bits as i32)
}

impl CordicNumber for fixed::FixedI32<fixed::types::extra::U8> {
    open spec fn bv(self) -> int {
        m_i24f8(self)
    }

    open spec fn fb() -> u32 {
        8
    }

    open spec fn tb() -> u32 {
        32
    }

    fn frac_bits() -> (r: u32) {
        proof {
            assert(<fixed::FixedI32<fixed::types::extra::U8> as CordicNumber>::fb() == 8);
            assert(<fixed::FixedI32<fixed::types::extra::U8> as CordicNumber>::tb() == 32);
        }
        8
    }

    fn total_bits() -> (r: u32) {
        proof {
            assert(<fixed::FixedI32<fixed::types::extra::U8> as CordicNumber>::fb() == 8);
            assert(<fixed::FixedI32<fixed::types::extra::U8> as CordicNumber>::tb() == 32);
        }
        32
    }

    fn to_raw(self) -> (r: i128) {
        proof {
            assert(<fixed::FixedI32<fixed::types::extra::U8> as CordicNumber>::tb() == 32);
            lemma2_to64();
            lemma2_to64_rest();
        }
        i24f8_bits(self)
    }

    fn from_raw(bits: i128) -> (r: Self) {
        proof {
            assert(<fixed::FixedI32<fixed::types::extra::U8> as CordicNumber>::tb() == 32);
            lemma2_to64();
            lemma2_to64_rest();
        }
        i24f8_make(bits)
    }
}


/// The mantissa of a `FixedI32<U12>` value (32 bits, 12 fractional).
pub uninterp spec fn m_i20f12(x: fixed::FixedI32<fixed::types::extra::U12>) -> int;

/// Relies on `fixed::FixedI32::to_bits`: an integer bitwise identical to the
/// fixed-point number, which is the mantissa this crate names `m_i20f12`.
#[verifier::external_body]
fn i20f12_bits(x: fixed::FixedI32<fixed::types::extra::U12>) -> (r: i128)
    ensures
        r as int == m_i20f12(x),
        -(pow2(31) as int) <= r as int && (r as int) < pow2(31) as int,
{
    x.to_bits() as i128
}

/// Relies on `fixed::FixedI32::from_bits`: builds the fixed-point number
/// bitwise identical to the given integer.
#[verifier::external_body]
fn i20f12_make(bits: i128) -> (r: fixed::FixedI32<fixed::types::extra::U12>)
    requires
        -(pow2(31) as int) <= bits as int && (bits as int) < pow2(31) as int,
    ensures
        m_i20f12(r) == bits as int,
{
    fixed::FixedI32::from_bits(bits as i32)
}

impl CordicNumber for fixed::FixedI32<fixed::types::extra::U12> {
    open spec fn bv(self) -> int {
        m_i20f12(self)
    }

    open spec fn fb() -> u32 {
        12
    }

    open spec fn tb() -> u32 {
        32
    }

    fn frac_bits() -> (r: u32) {
        proof {
            assert(<fixed::FixedI32<fixed::types::extra::U12> as CordicNumber>::fb() == 12);
            assert(<fixed::FixedI32<fixed::types::extra::U12> as CordicNumber>::tb() == 32);
        }
        12
    }

    fn total_bits() -> (r: u32) {
        proof {
            assert(<fixed::FixedI32<fixed::types::extra::U12> as CordicNumber>::fb() == 12);
            assert(<fixed::FixedI32<fixed::types::extra::U12> as CordicNumber>::tb() == 32);
        }
        32
    }

    fn to_raw(self) -> (r: i128) {
        proof {
            assert(<fixed::FixedI32<fixed::types::extra::U12> as CordicNumber>::tb() == 32);
            lemma2_to64();
            lemma2_to64_rest();
        }
        i20f12_bits(self)
    }

    fn from_raw(bits: i128) -> (r: Self) {
        proof {
            assert(<fixed::FixedI32<fixed::types::extra::U12> as CordicNumber>::tb() == 32);
            lemma2_to64();
            lemma2_to64_rest();
        }
        i20f12_make(bits)
    }
}


/// The mantissa of a `FixedI64<U32>` value (64 bits, 32 fractional).
pub uninterp spec fn m_i32f32(x: fixed::FixedI64<fixed::types::extra::U32>) -> int;

/// Relies on `fixed::FixedI64::to_bits`: an integer bitwise identical to the
/// fixed-point number, which is the mantissa this crate names `m_i32f32`.
#[verifier::external_body]
fn i32f32_bits(x: fixed::FixedI64<fixed::types::extra::U32>) -> (r: i128)
    ensures
        r as int == m_i32f32(x),
        -(pow2(63) as int) <= r as int && (r as int) < pow2(63) as int,
{
    x.to_bits() as i128
}

/// Relies on `fixed::FixedI64::from_bits`: builds the fixed-point number
/// bitwise identical to the given integer.
#[verifier::external_body]
fn i32f32_make(bits: i128) -> (r: fixed::FixedI64<fixed::types::extra::U32>)
    requires
        -(pow2(63) as int) <= bits as int && (bits as int) < pow2(63) as int,
    ensures
        m_i32f32(r) == bits as int,
{
    fixed::FixedI64::from_bits(bits as i64)
}

impl CordicNumber for fixed::FixedI64<fixed::types::extra::U32> {
    open spec fn bv(self) -> int {
        m_i32f32(self)
    }

    open spec fn fb() -> u32 {
        32
    }

    open spec fn tb() -> u32 {
        64
    }

    fn frac_bits() -> (r: u32) {
        proof {
            assert(<fixed::FixedI64<fixed::types::extra::U32> as CordicNumber>::fb() == 32);
            assert(<fixed::FixedI64<fixed::types::extra::U32> as CordicNumber>::tb() == 64);
        }
        32
    }

    fn total_bits() -> (r: u32) {
        proof {
            assert(<fixed::FixedI64<fixed::types::extra::U32> as CordicNumber>::fb() == 32);
            assert(<fixed::FixedI64<fixed::types::extra::U32> as CordicNumber>::tb() == 64);
        }
        64
    }

    fn to_raw(self) -> (r: i128) {
        proof {
            assert(<fixed::FixedI64<fixed::types::extra::U32> as CordicNumber>::tb() == 64);
            lemma2_to64();
            lemma2_to64_rest();
        }
        i32f32_bits(self)
    }

    fn from_raw(bits: i128) -> (r: Self) {
        proof {
            assert(<fixed::FixedI64<fixed::types::extra::U32> as CordicNumber>::tb() == 64);
            lemma2_to64();
            lemma2_to64_rest();
        }
        i32f32_make(bits)
    }
}


/// The mantissa of a `FixedI64<U16>` value (64 bits, 16 fractional).
pub uninterp spec fn m_i48f16(x: fixed::FixedI64<fixed::types::extra::U16>) -> int;

/// Relies on `fixed::FixedI64::to_bits`: an integer bitwise identical to the
/// fixed-point number, which is the mantissa this crate names `m_i48f16`.
#[verifier::external_body]
fn i48f16_bits(x: fixed::FixedI64<fixed::types::extra::U16>) -> (r: i128)
    ensures
        r as int == m_i48f16(x),
        -(pow2(63) as int) <= r as int && (r as int) < pow2(63) as int,
{
    x.to_bits() as i128
}

/// Relies on `fixed::FixedI64::from_bits`: builds the fixed-point number
/// bitwise identical to the given integer.
#[verifier::external_body]
fn i48f16_make(bits: i128) -> (r: fixed::FixedI64<fixed::types::extra::U16>)
    requires
        -(pow2(63) as int) <= bits as int && (bits as int) < pow2(63) as int,
    ensures
        m_i48f16(r) == bits as int,
{
    fixed::FixedI64::from_bits(bits as i64)
}

impl CordicNumber for fixed::FixedI64<fixed::types::extra::U16> {
    open spec fn bv(self) -> int {
        m_i48f16(self)
    }

    open spec fn fb() -> u32 {
        16
    }

    open spec fn tb() -> u32 {
        64
    }

    fn frac_bits() -> (r: u32) {
        proof {
            assert(<fixed::FixedI64<fixed::types::extra::U16> as CordicNumber>::fb() == 16);
            assert(<fixed::FixedI64<fixed::types::extra::U16> as CordicNumber>::tb() == 64);
        }
        16
    }

    fn total_bits() -> (r: u32) {
        proof {
            assert(<fixed::FixedI64<fixed::types::extra::U16> as CordicNumber>::fb() == 16);
            assert(<fixed::FixedI64<fixed::types::extra::U16> as CordicNumber>::tb() == 64);
        }
        64
    }

    fn to_raw(self) -> (r: i128) {
        proof {
            assert(<fixed::FixedI64<fixed::types::extra::U16> as CordicNumber>::tb() == 64);
            lemma2_to64();
            lemma2_to64_rest();
        }
        i48f16_bits(self)
    }

    fn from_raw(bits: i128) -> (r: Self) {
        proof {
            assert(<fixed::FixedI64<fixed::types::extra::U16> as CordicNumber>::tb() == 64);
            lemma2_to64();
            lemma2_to64_rest();
        }
        i48f16_make(bits)
    }
}


/// The mantissa of a `FixedI64<U60>` value (64 bits, 60 fractional).
pub uninterp spec fn m_i4f60(x: fixed::FixedI64<fixed::types::extra::U60>) -> int;

/// Relies on `fixed::FixedI64::to_bits`: an integer bitwise identical to the
/// fixed-point number, which is the mantissa this crate names `m_i4f60`.
#[verifier::external_body]
fn i4f60_bits(x: fixed::FixedI64<fixed::types::extra::U60>) -> (r: i128)
    ensures
        r as int == m_i4f60(x),
        -(pow2(63) as int) <= r as int && (r as int) < pow2(63) as int,
{
    x.to_bits() as i128
}

/// Relies on `fixed::FixedI64::from_bits`: builds the fixed-point number
/// bitwise identical to the given integer.
#[verifier::external_body]
fn i4f60_make(bits: i128) -> (r: fixed::FixedI64<fixed::types::extra::U60>)
    requires
        -(pow2(63) as int) <= bits as int && (bits as int) < pow2(63) as int,
    ensures
        m_i4f60(r) == bits as int,
{
    fixed::FixedI64::from_bits(bits as i64)
}

impl CordicNumber for fixed::FixedI64<fixed::types::extra::U60> {
    open spec fn bv(self) -> int {
        m_i4f60(self)
    }

    open spec fn fb() -> u32 {
        60
    }

    open spec fn tb() -> u32 {
        64
    }

    fn frac_bits() -> (r: u32) {
        proof {
            assert(<fixed::FixedI64<fixed::types::extra::U60> as CordicNumber>::fb() == 60);
            assert(<fixed::FixedI64<fixed::types::extra::U60> as CordicNumber>::tb() == 64);
        }
        60
    }

    fn total_bits() -> (r: u32) {
        proof {
            assert(<fixed::FixedI64<fixed::types::extra::U60> as CordicNumber>::fb() == 60);
            assert(<fixed::FixedI64<fixed::types::extra::U60> as CordicNumber>::tb() == 64);
        }
        64
    }

    fn to_raw(self) -> (r: i128) {
        proof {
            assert(<fixed::FixedI64<fixed::types::extra::U60> as CordicNumber>::tb() == 64);
            lemma2_to64();
            lemma2_to64_rest();
        }
        i4f60_bits(self)
    }

    fn from_raw(bits: i128) -> (r: Self) {
        proof {
            assert(<fixed::FixedI64<fixed::types::extra::U60> as CordicNumber>::tb() == 64);
            lemma2_to64();
            lemma2_to64_rest();
        }
        i4f60_make(bits)
    }
}


/// The mantissa of a `FixedI128<U64>` value (128 bits, 64 fractional).
pub uninterp spec fn m_i64f64(x: fixed::FixedI128<fixed::types::extra::U64>) -> int;

/// Relies on `fixed::FixedI128::to_bits`: an integer bitwise identical to the
/// fixed-point number, which is the mantissa this crate names `m_i64f64`.
#[verifier::external_body]
fn i64f64_bits(x: fixed::FixedI128<fixed::types::extra::U64>) -> (r: i128)
    ensures
        r as int == m_i64f64(x),
        -(pow2(127) as int) <= r as int && (r as int) < pow2(127) as int,
{
    x.to_bits()
}

/// Relies on `fixed::FixedI128::from_bits`: builds the fixed-point number
/// bitwise identical to the given integer.
#[verifier::external_body]
fn i64f64_make(bits: i128) -> (r: fixed::FixedI128<fixed::types::extra::U64>)
    requires
        -(pow2(127) as int) <= bits as int && (bits as int) < pow2(127) as int,
    ensures
        m_i64f64(r) == bits as int,
{
    fixed::FixedI128::from_bits(bits)
}

impl CordicNumber for fixed::FixedI128<fixed::types::extra::U64> {
    open spec fn bv(self) -> int {
        m_i64f64(self)
    }

    open spec fn fb() -> u32 {
        64
    }

    open spec fn tb() -> u32 {
        128
    }

    fn frac_bits() -> (r: u32) {
        proof {
            assert(<fixed::FixedI128<fixed::types::extra::U64> as CordicNumber>::fb() == 64);
            assert(<fixed::FixedI128<fixed::types::extra::U64> as CordicNumber>::tb() == 128);
        }
        64
    }

    fn total_bits() -> (r: u32) {
        proof {
            assert(<fixed::FixedI128<fixed::types::extra::U64> as CordicNumber>::fb() == 64);
            assert(<fixed::FixedI128<fixed::types::extra::U64> as CordicNumber>::tb() == 128);
        }
        128
    }

    fn to_raw(self) -> (r: i128) {
        proof {
            assert(<fixed::FixedI128<fixed::types::extra::U64> as CordicNumber>::tb() == 128);
            lemma2_to64();
            lemma2_to64_rest();
        }
        i64f64_bits(self)
    }

    fn from_raw(bits: i128) -> (r: Self) {
        proof {
            assert(<fixed::FixedI128<fixed::types::extra::U64> as CordicNumber>::tb() == 128);
            lemma2_to64();
            lemma2_to64_rest();
        }
        i64f64_make(bits)
    }
}

} // verus!
