//! Bounded value types: wrappers that carry a numeric range invariant.
//!
//! Each type holds one fixed-point value and guarantees, for as long as the
//! wrapper lives, that the value satisfies the stated predicate.  A checked
//! constructor (`new`) returns nothing when the predicate fails; where an
//! algebraic identity makes the predicate unavoidable, an infallible
//! constructor computes the value itself.  The wrappers carry no other
//! behaviour: `get` returns the wrapped value.

use vstd::prelude::*;

verus! {

use vstd::arithmetic::power2::{lemma_pow2_pos, lemma_pow2_adds};
use crate::raw::{sat_m, div_t};
use crate::traits::{CordicNumber, one_m};

/// A value guaranteed to be non-negative, enabling infallible square roots.
pub struct NonNegative<T: CordicNumber> {
    v: T}

/// The wrapped value of a [`NonNegative`] is at least zero.
#[verifier::type_invariant]
pub closed spec fn non_negative_inv<T: CordicNumber>(s: NonNegative<T>) -> bool {
    s.v.bv() >= 0
}

impl<T: CordicNumber> NonNegative<T> {
    /// The mantissa of the wrapped value.
    pub closed spec fn mv(self) -> int {
        self.v.bv()
    }

    /// Creates a `NonNegative` value if the input is at least zero, and
    /// nothing otherwise.
    pub fn new(value: T) -> (r: Option<Self>)
        ensures
            value.bv() >= 0 <==> r is Some,
            r matches Some(s) ==> s.mv() == value.bv(),
    {
        let zero = T::zero();
        if value.ge(zero) {
            Some(NonNegative { v: value })
        } else {
            None
        }
    }

    /// Constructs from `1 + x^2`, which is at least one for every real `x`.
    pub fn one_plus_square(x: T) -> (r: Self)
        requires
            T::tb() <= 64,
        ensures
            r.mv() == sat_m(
                one_m(T::fb()) + sat_m(x.bv() * x.bv() / one_m(T::fb()), T::tb()),
                T::tb(),
            ),
            r.mv() >= 0,
    {
        let fbits = T::frac_bits();
        let x_sq = x.saturating_mul(x);
        let one = T::one();
        let s = one.saturating_add(x_sq);
        proof {
            lemma_pow2_pos(T::fb() as nat);
            lemma_pow2_pos((T::tb() - 1) as nat);
            assert(x.bv() * x.bv() >= 0) by (nonlinear_arith);
            vstd::arithmetic::div_mod::lemma_div_pos_is_pos(x.bv() * x.bv(), one_m(T::fb()));
        }
        NonNegative { v: s }
    }

    /// Constructs from `1 - x^2`, non-negative because `|x| <= 1`.
    pub fn one_minus_square(x: UnitInterval<T>) -> (r: Self)
        requires
            T::tb() <= 64,
        ensures
            r.mv() == sat_m(
                one_m(T::fb()) - sat_m(x.mv() * x.mv() / one_m(T::fb()), T::tb()),
                T::tb(),
            ),
            r.mv() >= 0,
    {
        let fbits = T::frac_bits();
        let xv = x.get();
        let x_sq = xv.saturating_mul(xv);
        let one = T::one();
        let s = one.saturating_sub(x_sq);
        proof {
            let om = one_m(T::fb());
            lemma_pow2_pos(T::fb() as nat);
            lemma_pow2_pos((T::tb() - 1) as nat);
            vstd::arithmetic::power2::lemma_pow2_strictly_increases(
                T::fb() as nat,
                (T::tb() - 1) as nat,
            );
            assert(0 <= xv.bv() * xv.bv() <= om * om) by (nonlinear_arith)
                requires
                    -om <= xv.bv() <= om,
            ;
            vstd::arithmetic::div_mod::lemma_div_pos_is_pos(xv.bv() * xv.bv(), om);
            assert((om * om) / om == om) by {
                vstd::arithmetic::div_mod::lemma_div_multiples_vanish(om, om);
            };
            vstd::arithmetic::div_mod::lemma_div_is_ordered(xv.bv() * xv.bv(), om * om, om);
        }
        NonNegative { v: s }
    }

    /// Constructs from `x^2 - 1`, non-negative because `x >= 1`.
    pub fn square_minus_one(x: AtLeastOne<T>) -> (r: Self)
        requires
            T::tb() <= 64,
        ensures
            r.mv() == sat_m(
                sat_m(x.mv() * x.mv() / one_m(T::fb()), T::tb()) - one_m(T::fb()),
                T::tb(),
            ),
            r.mv() >= 0,
    {
        let fbits = T::frac_bits();
        let xv = x.get();
        let x_sq = xv.saturating_mul(xv);
        let one = T::one();
        let s = x_sq.saturating_sub(one);
        proof {
            let om = one_m(T::fb());
            lemma_pow2_pos(T::fb() as nat);
            lemma_pow2_pos((T::tb() - 1) as nat);
            vstd::arithmetic::power2::lemma_pow2_strictly_increases(
                T::fb() as nat,
                (T::tb() - 1) as nat,
            );
            lemma_pow2_adds(T::fb() as nat, 2);
            assert(om * om >= om * 1) by (nonlinear_arith)
                requires
                    om >= 1,
            ;
            assert(xv.bv() * xv.bv() >= om * om) by (nonlinear_arith)
                requires
                    xv.bv() >= om >= 1,
            ;
            assert((om * om) / om == om) by {
                vstd::arithmetic::div_mod::lemma_div_multiples_vanish(om, om);
            };
            vstd::arithmetic::div_mod::lemma_div_is_ordered(om * om, xv.bv() * xv.bv(), om);
        }
        NonNegative { v: s }
    }

    /// Returns the inner value.
    pub fn get(self) -> (r: T)
        ensures
            r.bv() == self.mv(),
            r.bv() >= 0,
    {
        proof {
            use_type_invariant(&self);
        }
        self.v
    }
}

/// A value guaranteed to lie in the closed interval `[-1, 1]`.
pub struct UnitInterval<T: CordicNumber> {
    v: T}

/// The wrapped value of a [`UnitInterval`] lies in `[-1, 1]`.
#[verifier::type_invariant]
pub closed spec fn unit_interval_inv<T: CordicNumber>(s: UnitInterval<T>) -> bool {
    -one_m(T::fb()) <= s.v.bv() <= one_m(T::fb())
}

impl<T: CordicNumber> UnitInterval<T> {
    /// The mantissa of the wrapped value.
    pub closed spec fn mv(self) -> int {
        self.v.bv()
    }

    /// Creates a `UnitInterval` value if the input lies in `[-1, 1]`, and
    /// nothing otherwise.
    pub fn new(value: T) -> (r: Option<Self>)
        ensures
            -one_m(T::fb()) <= value.bv() <= one_m(T::fb()) <==> r is Some,
            r matches Some(s) ==> s.mv() == value.bv(),
    {
        let fbits = T::frac_bits();
        let one = T::one();
        let neg_one = one.neg();
        proof {
            lemma_pow2_pos(T::fb() as nat);
            lemma_pow2_pos((T::tb() - 1) as nat);
            vstd::arithmetic::power2::lemma_pow2_strictly_increases(
                T::fb() as nat,
                (T::tb() - 1) as nat,
            );
            assert(neg_one.bv() == -one_m(T::fb()));
        }
        if value.ge(neg_one) && value.le(one) {
            Some(UnitInterval { v: value })
        } else {
            None
        }
    }

    /// Returns the inner value.
    pub fn get(self) -> (r: T)
        ensures
            r.bv() == self.mv(),
            -one_m(T::fb()) <= r.bv() <= one_m(T::fb()),
    {
        proof {
            use_type_invariant(&self);
        }
        self.v
    }
}

/// A value guaranteed to lie in the open interval `(-1, 1)`.
pub struct OpenUnitInterval<T: CordicNumber> {
    v: T}

/// The wrapped value of an [`OpenUnitInterval`] lies strictly inside
/// `(-1, 1)`.
#[verifier::type_invariant]
pub closed spec fn open_unit_interval_inv<T: CordicNumber>(s: OpenUnitInterval<T>) -> bool {
    -one_m(T::fb()) < s.v.bv() < one_m(T::fb())
}

impl<T: CordicNumber> OpenUnitInterval<T> {
    /// The mantissa of the wrapped value.
    pub closed spec fn mv(self) -> int {
        self.v.bv()
    }

    /// Creates an `OpenUnitInterval` value if the input lies strictly
    /// inside `(-1, 1)`, and nothing otherwise.
    pub fn new(value: T) -> (r: Option<Self>)
        ensures
            -one_m(T::fb()) < value.bv() < one_m(T::fb()) <==> r is Some,
            r matches Some(s) ==> s.mv() == value.bv(),
    {
        let fbits = T::frac_bits();
        let one = T::one();
        let neg_one = one.neg();
        proof {
            lemma_pow2_pos(T::fb() as nat);
            lemma_pow2_pos((T::tb() - 1) as nat);
            vstd::arithmetic::power2::lemma_pow2_strictly_increases(
                T::fb() as nat,
                (T::tb() - 1) as nat,
            );
            assert(neg_one.bv() == -one_m(T::fb()));
        }
        if value.gt(neg_one) && value.lt(one) {
            Some(OpenUnitInterval { v: value })
        } else {
            None
        }
    }

    /// Constructs from `x / sqrt(1 + x^2)`.  The identity makes the result
    /// lie in `(-1, 1)` whenever the divisor exceeds `|x|`, which
    /// `sqrt(1 + x^2)` always does.
    pub fn from_div_by_sqrt_one_plus_square(x: T, sqrt_one_plus_x_sq: T) -> (r: Self)
        requires
            T::tb() <= 64,
            sqrt_one_plus_x_sq.bv() > x.bv(),
            sqrt_one_plus_x_sq.bv() > -x.bv(),
        ensures
            r.mv() == sat_m(div_t(x.bv() * one_m(T::fb()), sqrt_one_plus_x_sq.bv()), T::tb()),
    {
        let q = x.div(sqrt_one_plus_x_sq);
        proof {
            lemma_pow2_pos(T::fb() as nat);
            lemma_pow2_pos((T::tb() - 1) as nat);
            lemma_quotient_in_unit(x.bv(), sqrt_one_plus_x_sq.bv(), one_m(T::fb()));
        }
        OpenUnitInterval { v: q }
    }

    /// Constructs from `sqrt(x^2 - 1) / x` for `x >= 1`.  The identity
    /// makes the result lie in `[0, 1)` whenever the numerator is
    /// non-negative and below `x`, which `sqrt(x^2 - 1)` always is.
    pub fn from_sqrt_square_minus_one_div(sqrt_x_sq_minus_one: T, x: AtLeastOne<T>) -> (r: Self)
        requires
            T::tb() <= 64,
            sqrt_x_sq_minus_one.bv() >= 0,
            sqrt_x_sq_minus_one.bv() < x.mv(),
        ensures
            r.mv() == sat_m(div_t(sqrt_x_sq_minus_one.bv() * one_m(T::fb()), x.mv()), T::tb()),
    {
        let xv = x.get();
        let q = sqrt_x_sq_minus_one.div(xv);
        proof {
            lemma_pow2_pos(T::fb() as nat);
            lemma_pow2_pos((T::tb() - 1) as nat);
            lemma_quotient_in_unit(sqrt_x_sq_minus_one.bv(), xv.bv(), one_m(T::fb()));
        }
        OpenUnitInterval { v: q }
    }

    /// Constructs from `(x - 1) / (x + 1)` for `x` in `[1/2, 2]`: the
    /// quotient lies in `(-1/3, 1/3)`, well inside `(-1, 1)`.
    pub fn from_normalized_ln_arg(x: NormalizedLnArg<T>) -> (r: Self)
        requires
            T::tb() <= 64,
        ensures
            r.mv() == sat_m(
                div_t((x.mv() - one_m(T::fb())) * one_m(T::fb()), x.mv() + one_m(T::fb())),
                T::tb(),
            ),
    {
        let fbits = T::frac_bits();
        let xv = x.get();
        let one = T::one();
        let x_minus_1 = xv.saturating_sub(one);
        let x_plus_1 = xv.saturating_add(one);
        proof {
            let om = one_m(T::fb());
            vstd::arithmetic::power2::lemma2_to64();
            lemma_pow2_pos(T::fb() as nat);
            lemma_pow2_pos((T::tb() - 1) as nat);
            lemma_pow2_adds(T::fb() as nat, 1);
            lemma_pow2_adds(T::fb() as nat, 2);
            crate::raw::lemma_pow2_increases((T::fb() + 2) as nat, (T::tb() - 1) as nat);
        }
        let q = x_minus_1.div(x_plus_1);
        proof {
            let om = one_m(T::fb());
            let num = x_minus_1.bv();
            let den = x_plus_1.bv();
            assert(-den < num < den);
            lemma_quotient_in_unit(num, den, om);
        }
        OpenUnitInterval { v: q }
    }

    /// Returns the inner value.
    pub fn get(self) -> (r: T)
        ensures
            r.bv() == self.mv(),
            -one_m(T::fb()) < r.bv() < one_m(T::fb()),
    {
        proof {
            use_type_invariant(&self);
        }
        self.v
    }
}

/// For a non-negative numerator strictly below a positive denominator,
/// the scaled floor quotient lies in `[0, om)`.
proof fn lemma_quotient_bound_nonneg(num: int, den: int, om: int)
    requires
        om >= 1,
        0 <= num < den,
    ensures
        0 <= (num * om) / den < om,
{
    assert(num * om >= 0) by (nonlinear_arith)
        requires
            num >= 0,
            om >= 1,
    ;
    vstd::arithmetic::div_mod::lemma_div_pos_is_pos(num * om, den);
    assert(num * om <= (den - 1) * om) by (nonlinear_arith)
        requires
            num <= den - 1,
            om >= 1,
    ;
    vstd::arithmetic::div_mod::lemma_div_is_ordered(num * om, (den - 1) * om, den);
    assert(((den - 1) * om) / den < om) by {
        assert((den - 1) * om <= om * den - 1) by (nonlinear_arith)
            requires
                om >= 1,
                den >= 1,
        ;
        vstd::arithmetic::div_mod::lemma_div_is_ordered((den - 1) * om, om * den - 1, den);
        assert((om * den - 1) / den == om - 1) by {
            assert(om * den - 1 == (om - 1) * den + (den - 1)) by (nonlinear_arith);
            vstd::arithmetic::div_mod::lemma_fundamental_div_mod_converse_div(
                om * den - 1,
                den,
                om - 1,
                den - 1,
            );
        };
    };
}

/// Truncating fixed-point division lands strictly inside `(-1, 1)` when
/// the divisor's magnitude strictly exceeds the numerator's.
pub proof fn lemma_quotient_in_unit(num: int, den: int, om: int)
    requires
        om >= 1,
        den > num && den > -num || -den > num && -den > -num,
    ensures
        -om < div_t(num * om, den) < om,
{
    let pn = if num >= 0 { num } else { -num };
    let pd = if den >= 0 { den } else { -den };
    lemma_quotient_bound_nonneg(pn, pd, om);
    assert((-num) * om == -(num * om)) by (nonlinear_arith);
    if num == 0 {
        assert(num * om == 0) by (nonlinear_arith)
            requires
                num == 0,
        ;
        vstd::arithmetic::div_mod::lemma_div_of0(pd);
        assert(div_t(0, den) == 0);
    } else if num > 0 && den > 0 {
        assert(div_t(num * om, den) == (num * om) / den);
    } else if num < 0 && den < 0 {
        assert(num * om < 0) by (nonlinear_arith)
            requires
                num < 0,
                om >= 1,
        ;
        assert(div_t(num * om, den) == ((num * om) * -1) / ((den) * -1));
        assert((num * om) * -1 == pn * om) by (nonlinear_arith)
            requires
                pn == -num,
        ;
        assert(den * -1 == pd);
    } else if num < 0 {
        assert(num * om < 0) by (nonlinear_arith)
            requires
                num < 0,
                om >= 1,
        ;
        assert(div_t(num * om, den) == (((num * om) * -1) / den) * -1);
        assert((num * om) * -1 == pn * om) by (nonlinear_arith)
            requires
                pn == -num,
        ;
    } else {
        assert(num * om > 0) by (nonlinear_arith)
            requires
                num > 0,
                om >= 1,
        ;
        assert(div_t(num * om, den) == ((num * om) / ((den) * -1)) * -1);
        assert(den * -1 == pd);
    }
}

/// A value guaranteed to be at least one.
pub struct AtLeastOne<T: CordicNumber> {
    v: T}

/// The wrapped value of an [`AtLeastOne`] is at least one.
#[verifier::type_invariant]
pub closed spec fn at_least_one_inv<T: CordicNumber>(s: AtLeastOne<T>) -> bool {
    s.v.bv() >= one_m(T::fb())
}

impl<T: CordicNumber> AtLeastOne<T> {
    /// The mantissa of the wrapped value.
    pub closed spec fn mv(self) -> int {
        self.v.bv()
    }

    /// Creates an `AtLeastOne` value if the input is at least one, and
    /// nothing otherwise.
    pub fn new(value: T) -> (r: Option<Self>)
        ensures
            value.bv() >= one_m(T::fb()) <==> r is Some,
            r matches Some(s) ==> s.mv() == value.bv(),
    {
        let one = T::one();
        if value.ge(one) {
            Some(AtLeastOne { v: value })
        } else {
            None
        }
    }

    /// Returns the inner value.
    pub fn get(self) -> (r: T)
        ensures
            r.bv() == self.mv(),
            r.bv() >= one_m(T::fb()),
    {
        proof {
            use_type_invariant(&self);
        }
        self.v
    }
}

/// A value guaranteed to lie in `[1/2, 2]`, the range that the logarithm's
/// normalization loop produces; it keeps `(x - 1) / (x + 1)` well inside
/// `(-1, 1)`.
pub struct NormalizedLnArg<T: CordicNumber> {
    v: T}

/// The wrapped value of a [`NormalizedLnArg`] lies in `[1/2, 2]`.
#[verifier::type_invariant]
pub closed spec fn normalized_ln_arg_inv<T: CordicNumber>(s: NormalizedLnArg<T>) -> bool {
    2 * s.v.bv() >= one_m(T::fb()) && s.v.bv() <= 2 * one_m(T::fb())
}

impl<T: CordicNumber> NormalizedLnArg<T> {
    /// The mantissa of the wrapped value.
    pub closed spec fn mv(self) -> int {
        self.v.bv()
    }

    /// Creates a `NormalizedLnArg` from the normalization loop's result,
    /// which is guaranteed to lie in `[1/2, 2]`.
    pub fn from_normalized(value: T) -> (r: Self)
        requires
            2 * value.bv() >= one_m(T::fb()),
            value.bv() <= 2 * one_m(T::fb()),
        ensures
            r.mv() == value.bv(),
    {
        NormalizedLnArg { v: value }
    }

    /// Returns the inner value.
    pub fn get(self) -> (r: T)
        ensures
            r.bv() == self.mv(),
            2 * r.bv() >= one_m(T::fb()),
            r.bv() <= 2 * one_m(T::fb()),
    {
        proof {
            use_type_invariant(&self);
        }
        self.v
    }
}

} // verus!
