//! Algebraic functions: the square root.
//!
//! The square root uses a bit-level initial estimate followed by
//! Newton-Raphson iteration, `guess = (guess + x/guess) / 2`, with an early
//! exit once successive guesses agree to a precision-scaled epsilon.

use vstd::prelude::*;

verus! {

use vstd::arithmetic::power2::{pow2, lemma_pow2_pos};
use crate::bounded::NonNegative;
use crate::error::Error;
use crate::raw::{pow2_i128, sat_m, div_t};
use crate::traits::{CordicNumber, one_m};

/// One pass of the power-of-two estimation: while the shrinking copy of
/// the input is at least four, quarter it and double the guess, up to 64
/// rounds.
pub open spec fn sqrt_guess_m(test: int, g: int, round: nat, fb: u32, tb: u32) -> int
    decreases 64 - round,
{
    let four = sat_m(4 * pow2(fb as nat) as int, tb);
    if !(test >= four) || round >= 64 {
        g
    } else {
        sqrt_guess_m(test / 4, sat_m(g + g, tb), round + 1, fb, tb)
    }
}

/// The Newton-Raphson iteration `g <- (g + x/g) / 2`, run for the given
/// number of rounds with an early exit once two successive guesses agree
/// to within `eps`; a zero guess answers zero.
pub open spec fn sqrt_newton_m(xm: int, g: int, round: nat, rounds: nat, eps: int, fb: u32, tb: u32) -> int
    decreases rounds - round,
{
    let om = pow2(fb as nat) as int;
    let hm = pow2((fb - 1) as nat) as int;
    if round >= rounds {
        g
    } else if g == 0 {
        0
    } else {
        let q = sat_m(div_t(xm * om, g), tb);
        let sum = sat_m(g + q, tb);
        let ng = sat_m(sum * hm / om, tb);
        let diff = if ng > g {
            sat_m(ng - g, tb)
        } else {
            sat_m(g - ng, tb)
        };
        if diff <= eps {
            ng
        } else {
            sqrt_newton_m(xm, ng, round + 1, rounds, eps, fb, tb)
        }
    }
}

/// The number of Newton rounds: half the fractional width, clamped to
/// `[8, 20]`.
pub open spec fn sqrt_rounds(fb: u32) -> nat {
    if fb / 2 < 8 {
        8
    } else if fb / 2 > 20 {
        20
    } else {
        (fb / 2) as nat
    }
}

/// The exact mantissa the square root computes for a non-negative
/// argument: zero and one answered exactly, a power-of-two initial
/// estimate refined by one averaging step for arguments above one, then
/// the Newton iteration.
pub open spec fn sqrt_m(xm: int, fb: u32, tb: u32) -> int {
    let om = pow2(fb as nat) as int;
    if xm <= 0 {
        0
    } else if xm == om {
        om
    } else {
        let g0 = if xm > om {
            let g = sqrt_guess_m(xm, om, 0, fb, tb);
            let g = if g == 0 {
                om
            } else {
                g
            };
            let q = sat_m(div_t(xm * om, g), tb);
            sat_m(g + q, tb) / 2
        } else {
            xm
        };
        sqrt_newton_m(xm, g0, 0, sqrt_rounds(fb), pow2((fb - fb / 2) as nat) as int, fb, tb)
    }
}

/// Computes the square root of a non-negative value.
///
/// Returns a domain error for negative inputs; zero and one are returned
/// exactly, and every result is non-negative.
pub fn sqrt<T: CordicNumber>(x: T) -> (r: Result<T, Error>)
    requires
        T::tb() <= 64,
    ensures
        x.bv() < 0 <==> r is Err,
        r == Err::<T, Error>(Error::DomainError {
            function: "sqrt",
            expected: "non-negative value" }) <==> x.bv() < 0,
        r matches Ok(v) ==> v.bv() >= 0,
        r matches Ok(v) ==> v.bv() == sqrt_m(x.bv(), T::fb(), T::tb()),
        x.bv() == 0 ==> (r matches Ok(v) && v.bv() == 0),
        x.bv() == one_m(T::fb()) ==> (r matches Ok(v) && v.bv() == one_m(T::fb())),
{
    let zero = T::zero();
    if x.lt(zero) {
        Err(Error::DomainError { function: "sqrt", expected: "non-negative value" })
    } else {
        Ok(sqrt_raw(x))
    }
}

/// Computes the square root of a value already proven non-negative.
///
/// The bounded type discharges the domain check, so this variant cannot
/// fail.
pub fn sqrt_non_negative<T: CordicNumber>(x: NonNegative<T>) -> (r: T)
    requires
        T::tb() <= 64,
    ensures
        r.bv() >= 0,
        r.bv() == sqrt_m(x.mv(), T::fb(), T::tb()),
        x.mv() == 0 ==> r.bv() == 0,
        x.mv() == one_m(T::fb()) ==> r.bv() == one_m(T::fb()),
{
    sqrt_raw(x.get())
}

/// Newton-Raphson square root of a non-negative value.
pub(crate) fn sqrt_raw<T: CordicNumber>(x: T) -> (r: T)
    requires
        T::tb() <= 64,
        x.bv() >= 0,
    ensures
        r.bv() >= 0,
        r.bv() == sqrt_m(x.bv(), T::fb(), T::tb()),
        x.bv() == 0 ==> r.bv() == 0,
        x.bv() == one_m(T::fb()) ==> r.bv() == one_m(T::fb()),
{
    let fbits = T::frac_bits();
    let zero = T::zero();
    let one = T::one();
    let half = T::half();

    if x.eq_v(zero) {
        return zero;
    }
    if x.eq_v(one) {
        return one;
    }

    proof {
        lemma_pow2_pos(T::fb() as nat);
        lemma_pow2_pos((T::tb() - 1) as nat);
        vstd::arithmetic::power2::lemma_pow2_strictly_increases(
            T::fb() as nat,
            (T::tb() - 1) as nat,
        );
    }

    // Initial guess: for large inputs, find a power of two near the root
    // by comparing against successive squarings; for small inputs the
    // value itself is a usable start, since sqrt(x) > x on (0, 1).
    let ghost xm = x.bv();
    let mut guess = if x.gt(one) {
        let two = T::two();
        let four = two.saturating_mul(two);
        proof {
            let om = one_m(T::fb());
            vstd::arithmetic::power2::lemma2_to64();
            assert((2 * om) * (2 * om) / om == 4 * om) by {
                vstd::arithmetic::div_mod::lemma_div_multiples_vanish(4 * om, om);
                assert((2 * om) * (2 * om) == om * (4 * om)) by (nonlinear_arith);
            };
        }
        let mut g = one;
        let mut test = x;
        let mut iter_guard: u32 = 0;
        while test.ge(four) && iter_guard < 64
            invariant
                g.bv() >= 1,
                iter_guard <= 64,
                4 <= T::fb(),
                T::fb() + 3 <= T::tb(),
                T::tb() <= 64,
                four.bv() == sat_m(4 * one_m(T::fb()), T::tb()),
                sqrt_guess_m(test.bv(), g.bv(), iter_guard as nat, T::fb(), T::tb())
                    == sqrt_guess_m(xm, one_m(T::fb()), 0, T::fb(), T::tb()),
            decreases 64 - iter_guard,
        {
            proof {
                lemma_pow2_pos((T::tb() - 1) as nat);
                vstd::arithmetic::power2::lemma_pow2_strictly_increases(0, (T::tb() - 1) as nat);
                vstd::arithmetic::power2::lemma2_to64();
            }
            test = test.shr(2);
            g = g.saturating_add(g);
            iter_guard = iter_guard + 1;
        }
        let quotient = x.div(g);
        proof {
            let om = one_m(T::fb());
            assert(x.bv() * om >= 0) by (nonlinear_arith)
                requires
                    x.bv() >= 0,
                    om >= 1,
            ;
            crate::raw::lemma_div_t_shrinks(x.bv() * om, g.bv());
        }
        let sum = g.saturating_add(quotient);
        proof {
            crate::raw::lemma_div_shrinks(sum.bv(), 2);
            vstd::arithmetic::power2::lemma2_to64();
        }
        sum.shr(1)
    } else {
        x
    };

    // Newton-Raphson iterations, with an early exit once two successive
    // guesses differ by less than 2^(-fb/2).
    let iterations: u32 = {
        let half_bits = fbits / 2;
        if half_bits < 8 {
            8
        } else if half_bits > 20 {
            20
        } else {
            half_bits
        }
    };
    let eps_raw = pow2_i128(fbits - fbits / 2);
    proof {
        lemma_pow2_pos((fbits - fbits / 2) as nat);
        crate::raw::lemma_pow2_increases((fbits - fbits / 2) as nat, T::fb() as nat);
    }
    let epsilon = T::from_raw(eps_raw);

    let ghost g0 = guess.bv();
    proof {
        assert(sqrt_newton_m(xm, g0, 0, iterations as nat, epsilon.bv(), T::fb(), T::tb())
            == sqrt_m(xm, T::fb(), T::tb()));
    }
    let mut i: u32 = 0;
    while i < iterations
        invariant
            guess.bv() >= 0,
            i <= iterations,
            T::tb() <= 64,
            4 <= T::fb(),
            T::fb() + 3 <= T::tb(),
            x.bv() > 0,
            x.bv() == xm,
            x.bv() != one_m(T::fb()),
            zero.bv() == 0,
            half.bv() == pow2((T::fb() - 1) as nat) as int,
            iterations as nat == sqrt_rounds(T::fb()),
            epsilon.bv() == pow2((T::fb() - T::fb() / 2) as nat) as int,
            sqrt_newton_m(xm, guess.bv(), i as nat, iterations as nat, epsilon.bv(), T::fb(), T::tb())
                == sqrt_m(xm, T::fb(), T::tb()),
        decreases iterations - i,
    {
        if guess.eq_v(zero) {
            return zero;
        }
        let quotient = x.div(guess);
        proof {
            let om = one_m(T::fb());
            lemma_pow2_pos(T::fb() as nat);
            lemma_pow2_pos((T::tb() - 1) as nat);
            assert(x.bv() * om >= 0) by (nonlinear_arith)
                requires
                    x.bv() >= 0,
                    om >= 1,
            ;
            crate::raw::lemma_div_t_shrinks(x.bv() * om, guess.bv());
        }
        let sum = guess.saturating_add(quotient);
        let new_guess = sum.saturating_mul(half);
        proof {
            let om = one_m(T::fb());
            let sv = sum.bv();
            let hv = half.bv();
            lemma_pow2_pos((T::fb() - 1) as nat);
            assert(sv * hv >= 0) by (nonlinear_arith)
                requires
                    sv >= 0,
                    hv >= 1,
            ;
            vstd::arithmetic::div_mod::lemma_div_pos_is_pos(sv * hv, om);
        }
        let diff = if new_guess.gt(guess) {
            new_guess.saturating_sub(guess)
        } else {
            guess.saturating_sub(new_guess)
        };
        if diff.le(epsilon) {
            return new_guess;
        }
        guess = new_guess;
        i = i + 1;
    }

    guess
}

} // verus!
