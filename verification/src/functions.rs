//! Numerical algorithms built on the arithmetic operators: square root by
//! Newton-Raphson, IEEE remainder by scaled subtraction, the constants pi
//! (arithmetic-geometric-mean iteration) and e (continued fraction), and
//! sine by range reduction, triple-angle reduction and a Taylor series.

use crate::float::Category;
use crate::float::Float;
use crate::float::RoundingMode;
use vstd::prelude::*;

verus! {

/// The running denominator of the sine Taylor series after `i` updates:
/// the factorial of `2 * i + 1`.
pub open spec fn taylor_denom(i: nat) -> nat
    decreases i,
{
    if i == 0 {
        1
    } else {
        taylor_denom((i - 1) as nat) * (2 * i) * (2 * i + 1)
    }
}

/// The concrete Taylor denominators, up to the last one the series uses.
proof fn lemma_taylor_denom_values()
    ensures
        taylor_denom(9) == 121645100408832000,
{
    reveal_with_fuel(taylor_denom, 11);
    assert(taylor_denom(0) == 1);
    assert(taylor_denom(1) == 6) by (nonlinear_arith)
        requires taylor_denom(1) == taylor_denom(0) * 2 * 3 && taylor_denom(0) == 1,
    ;
    assert(taylor_denom(2) == 120) by (nonlinear_arith)
        requires taylor_denom(2) == taylor_denom(1) * 4 * 5 && taylor_denom(1) == 6,
    ;
    assert(taylor_denom(3) == 5040) by (nonlinear_arith)
        requires taylor_denom(3) == taylor_denom(2) * 6 * 7 && taylor_denom(2) == 120,
    ;
    assert(taylor_denom(4) == 362880) by (nonlinear_arith)
        requires taylor_denom(4) == taylor_denom(3) * 8 * 9 && taylor_denom(3) == 5040,
    ;
    assert(taylor_denom(5) == 39916800) by (nonlinear_arith)
        requires taylor_denom(5) == taylor_denom(4) * 10 * 11 && taylor_denom(4) == 362880,
    ;
    assert(taylor_denom(6) == 6227020800) by (nonlinear_arith)
        requires taylor_denom(6) == taylor_denom(5) * 12 * 13 && taylor_denom(5) == 39916800,
    ;
    assert(taylor_denom(7) == 1307674368000) by (nonlinear_arith)
        requires taylor_denom(7) == taylor_denom(6) * 14 * 15 && taylor_denom(6) == 6227020800,
    ;
    assert(taylor_denom(8) == 355687428096000) by (nonlinear_arith)
        requires taylor_denom(8) == taylor_denom(7) * 16 * 17 && taylor_denom(7)
            == 1307674368000,
    ;
    assert(taylor_denom(9) == 121645100408832000) by (nonlinear_arith)
        requires taylor_denom(9) == taylor_denom(8) * 18 * 19 && taylor_denom(8)
            == 355687428096000,
    ;
}

/// The Taylor denominators grow monotonically.
proof fn lemma_taylor_denom_mono(a: nat, b: nat)
    requires
        a <= b,
    ensures
        taylor_denom(a) <= taylor_denom(b),
        taylor_denom(a) >= 1,
    decreases b,
{
    if a == b {
        if a == 0 {
        } else {
            lemma_taylor_denom_mono((a - 1) as nat, (a - 1) as nat);
            assert(taylor_denom(a) == taylor_denom((a - 1) as nat) * (2 * a) * (2 * a + 1));
            assert(taylor_denom((a - 1) as nat) * (2 * a) * (2 * a + 1) >= taylor_denom(
                (a - 1) as nat)) by (nonlinear_arith)
                requires a >= 1, taylor_denom((a - 1) as nat) >= 1,
            ;
        }
    } else {
        lemma_taylor_denom_mono(a, (b - 1) as nat);
        lemma_taylor_denom_mono((b - 1) as nat, (b - 1) as nat);
        assert(taylor_denom(b) == taylor_denom((b - 1) as nat) * (2 * b) * (2 * b + 1));
        assert(taylor_denom((b - 1) as nat) * (2 * b) * (2 * b + 1) >= taylor_denom(
            (b - 1) as nat)) by (nonlinear_arith)
            requires b >= 1, taylor_denom((b - 1) as nat) >= 1,
        ;
    }
}

impl<const EXPONENT: usize, const MANTISSA: usize> Float<EXPONENT, MANTISSA> {
    /// The scaling function: a value that is not an ordinary number passes
    /// through, any other has `scale` added to its exponent and is
    /// renormalized, which pins the overflow-to-infinity and
    /// underflow-to-subnormal outcomes.
    pub open spec fn scale_spec(x: Self, scale: int, rm: RoundingMode) -> Self {
        if x.category_spec() != Category::Normal {
            x
        } else {
            Self::normalize_spec(
                x.sign,
                x.eff_exp_spec() + scale,
                x.mantissa,
                crate::bigint::LossFraction::ExactlyZero,
                rm,
            )
        }
    }

    /// Whether the remainder loop keeps reducing: the dividend is neither
    /// below the divisor nor zero, and no NaN is involved.
    pub open spec fn rem_cond_spec(lhs: Self, rhs: Self) -> bool {
        !lhs.is_nan_spec() && !rhs.is_nan_spec() && !Self::lt_spec(lhs, rhs)
            && !lhs.is_zero_spec()
    }

    /// One remainder pass: the divisor is scaled by the difference of the
    /// operands' leading-bit exponents (stepping back one power of two on
    /// an overshoot) and subtracted from the dividend.
    pub open spec fn rem_step_spec(lhs: Self, rhs: Self) -> Self {
        let sc = Self::prenorm_exp_spec(lhs) - Self::prenorm_exp_spec(rhs);
        let d0 = Self::scale_spec(rhs, sc, RoundingMode::NearestTiesToEven);
        let diff = if Self::lt_spec(lhs, d0) {
            Self::scale_spec(rhs, sc - 1, RoundingMode::NearestTiesToEven)
        } else {
            d0
        };
        Self::sub_full_spec(lhs, diff)
    }

    /// The dividend after `n` remainder passes; a pass whose condition has
    /// gone false changes nothing.
    pub open spec fn rem_iter_spec(lhs0: Self, rhs: Self, n: nat) -> Self
        decreases n,
    {
        if n == 0 {
            lhs0
        } else {
            let p = Self::rem_iter_spec(lhs0, rhs, (n - 1) as nat);
            if Self::rem_cond_spec(p, rhs) {
                Self::rem_step_spec(p, rhs)
            } else {
                p
            }
        }
    }

    /// Once the remainder condition is false it stays false, so further
    /// passes change nothing.
    proof fn lemma_rem_iter_stable(lhs0: Self, rhs: Self, k1: nat, k2: nat)
        requires
            k1 <= k2,
            !Self::rem_cond_spec(Self::rem_iter_spec(lhs0, rhs, k1), rhs),
        ensures
            Self::rem_iter_spec(lhs0, rhs, k2) == Self::rem_iter_spec(lhs0, rhs, k1),
        decreases k2,
    {
        if k2 > k1 {
            Self::lemma_rem_iter_stable(lhs0, rhs, k1, (k2 - 1) as nat);
        }
    }

    /// The remainder in full: a NaN operand, an infinite dividend or a
    /// zero divisor give a quiet NaN of the dividend's sign, a zero
    /// dividend or an infinite divisor return the dividend, and otherwise
    /// the magnitude is reduced by the remainder passes and the dividend's
    /// sign is put back.
    pub open spec fn rem_full_spec(x: Self, y: Self) -> Self {
        if x.is_nan_spec() || y.is_nan_spec() || x.is_inf_spec() || y.is_zero_spec() {
            Self::nan_spec(x.sign)
        } else if x.is_zero_spec() || y.is_inf_spec() {
            x
        } else {
            Float {
                sign: x.sign,
                exp: Self::rem_iter_spec(
                    (Float { sign: false, exp: x.exp, mantissa: x.mantissa }),
                    (Float { sign: false, exp: y.exp, mantissa: y.mantissa }),
                    ((1u64 << (EXPONENT as u64)) + 512) as nat,
                ).exp,
                mantissa: Self::rem_iter_spec(
                    (Float { sign: false, exp: x.exp, mantissa: x.mantissa }),
                    (Float { sign: false, exp: y.exp, mantissa: y.mantissa }),
                    ((1u64 << (EXPONENT as u64)) + 512) as nat,
                ).mantissa,
            }
        }
    }

    /// The sine pipeline applied to the value of pi: the argument's
    /// magnitude is reduced into [0, 2 pi] by the remainder, folded into
    /// [0, pi] with a sign flip, reflected into [0, pi/2], passed through
    /// the triple-angle reduction, and given back the tracked sign.
    pub open spec fn sin_pipeline_spec(x: Self, pv: Self) -> Self {
        let v0 = Float { sign: false, exp: x.exp, mantissa: x.mantissa };
        let pi2 = Self::scale_spec(pv, 1, RoundingMode::Zero);
        let ph = Self::scale_spec(pv, -1, RoundingMode::Zero);
        let v1 = if Self::lt_spec(pi2, v0) {
            Self::rem_full_spec(v0, pi2)
        } else {
            v0
        };
        let flip = Self::lt_spec(pv, v1);
        let v2 = if flip {
            Self::sub_full_spec(v1, pv)
        } else {
            v1
        };
        let v3 = if Self::lt_spec(ph, v2) {
            Self::sub_full_spec(pv, v2)
        } else {
            v2
        };
        let res = Self::sin_reduce_spec(v3, 5);
        if x.sign != flip {
            Self::neg_spec(res)
        } else {
            res
        }
    }

    /// Sine is odd: flipping the argument's sign flips the result's sign,
    /// bit for bit, for any value of pi handed to the pipeline — the
    /// pipeline folds a negative argument to its magnitude and records the
    /// flip, so only the final sign differs.
    pub proof fn lemma_sin_odd(x: Self, pv: Self)
        ensures
            Self::sin_pipeline_spec(Self::neg_spec(x), pv) == Self::neg_spec(
                Self::sin_pipeline_spec(x, pv),
            ),
    {
    }

    /// The continued-fraction term of e, evaluated bottom-up from `top - 1`
    /// down to `j`.
    pub open spec fn e_term_spec(top: int, j: int) -> Self
        decreases top - j,
        when j <= top
    {
        if j >= top {
            Self::from_i64_spec(1)
        } else {
            let t = Self::e_term_spec(top, j + 1);
            let v = Self::from_i64_spec(j as i64);
            Self::add_full_spec(v, Self::div_full_spec(v, t))
        }
    }

    /// The Taylor-loop state of sine after `i` updates: the negation flag,
    /// the running power of the argument, the running factorial
    /// denominator, and the partial sum, each step evaluated with the
    /// type's own operations.
    pub open spec fn taylor_state_spec(x: Self, i: nat) -> (bool, Self, u64, Self)
        decreases i,
    {
        if i == 0 {
            (false, x, 1u64, Self::zero_spec(false))
        } else {
            let st = Self::taylor_state_spec(x, (i - 1) as nat);
            let elem = Self::div_full_spec(st.1, Self::from_u64_spec(st.2));
            let sum = if st.0 {
                Self::sub_full_spec(st.3, elem)
            } else {
                Self::add_full_spec(st.3, elem)
            };
            (
                !st.0,
                Self::mul_full_spec(st.1, Self::mul_full_spec(x, x)),
                ((st.2 * (i * 2)) * (i * 2 + 1)) as u64,
                sum,
            )
        }
    }

    /// The triple-angle reduction of sine: at depth zero the ten-term
    /// Taylor sum, otherwise `3 sin(x/3) - 4 sin(x/3)^3` over the
    /// recursive result.
    pub open spec fn sin_reduce_spec(x: Self, steps: nat) -> Self
        decreases steps,
    {
        if steps == 0 {
            Self::taylor_state_spec(x, 9).3
        } else {
            let sx = Self::sin_reduce_spec(
                Self::div_full_spec(x, Self::from_u64_spec(3)),
                (steps - 1) as nat,
            );
            Self::sub_full_spec(
                Self::mul_full_spec(Self::from_u64_spec(3), sx),
                Self::mul_full_spec(
                    Self::from_u64_spec(4),
                    Self::mul_full_spec(Self::mul_full_spec(sx, sx), sx),
                ),
            )
        }
    }

    /// The Newton search state after `n` steps from `p`: the flag marks
    /// that the iterate stopped decreasing, and the held value is then the
    /// result and stays frozen.
    pub open spec fn sqrt_state_spec(v: Self, p: Self, n: nat) -> (bool, Self)
        decreases n,
    {
        if n == 0 {
            (false, p)
        } else {
            let st = Self::sqrt_state_spec(v, p, (n - 1) as nat);
            if st.0 {
                st
            } else {
                let nx = Self::newton_step_spec(v, st.1);
                if Self::lt_spec(st.1, nx) || nx == st.1 {
                    (true, nx)
                } else {
                    (false, nx)
                }
            }
        }
    }

    /// An iteration budget that always outlasts the search: every
    /// continuing step strictly lowers the iterate's (exponent, mantissa)
    /// measure, so the measure of the starting point bounds the step
    /// count.
    pub open spec fn sqrt_fuel_spec(p: Self) -> nat {
        (p.exp * 0x100000000000000000000000000000000 + p.mantissa + 1) as nat
    }

    /// Once the search has stopped, its state is frozen.
    proof fn lemma_sqrt_state_stable(v: Self, p: Self, k1: nat, k2: nat)
        requires
            k1 <= k2,
            Self::sqrt_state_spec(v, p, k1).0,
        ensures
            Self::sqrt_state_spec(v, p, k2) == Self::sqrt_state_spec(v, p, k1),
        decreases k2,
    {
        if k2 > k1 {
            Self::lemma_sqrt_state_stable(v, p, k1, (k2 - 1) as nat);
        }
    }

    /// The Newton square-root search on a positive finite operand:
    /// starting at the greater of two and the operand, stepping until the
    /// iterate stops decreasing, and returning the final step's value.
    pub open spec fn sqrt_newton_spec(v: Self) -> Self {
        let two = Self::from_u64_spec(2);
        let start = if Self::lt_spec(v, two) {
            two
        } else {
            v
        };
        Self::sqrt_state_spec(v, start, Self::sqrt_fuel_spec(start)).1
    }

    /// The square root in full: a zero or a positive infinity passes
    /// through, a NaN or a negative operand gives a quiet NaN of its
    /// sign, and a positive finite operand takes the Newton search.
    pub open spec fn sqrt_full_spec(v: Self) -> Self {
        if v.is_zero_spec() {
            v
        } else if v.is_nan_spec() || v.sign_spec() {
            Self::nan_spec(v.sign_spec())
        } else if v.is_inf_spec() {
            v
        } else {
            Self::sqrt_newton_spec(v)
        }
    }

    /// One arithmetic-geometric-mean step of the pi iteration: the
    /// arithmetic mean, the square root of the product, the error update,
    /// and the doubled weight.
    pub open spec fn pi_step_spec(s: (Self, Self, Self, Self)) -> (Self, Self, Self, Self) {
        let two = Self::from_i64_spec(2);
        let a1 = Self::div_full_spec(Self::add_full_spec(s.0, s.1), two);
        let d = Self::sub_full_spec(a1, s.0);
        (
            a1,
            Self::sqrt_full_spec(Self::mul_full_spec(s.1, s.0)),
            Self::sub_full_spec(s.2, Self::mul_full_spec(s.3, Self::mul_full_spec(d, d))),
            Self::mul_full_spec(s.3, two),
        )
    }

    /// The pi loop state after `n` head checks, from the fixed starting
    /// point (1, 1/sqrt(2), 1/4, 1): the state freezes once the two means
    /// coincide.
    pub open spec fn pi_state_spec(n: nat) -> (bool, (Self, Self, Self, Self))
        decreases n,
    {
        if n == 0 {
            (
                false,
                (
                    Self::from_i64_spec(1),
                    Self::div_full_spec(
                        Self::from_i64_spec(1),
                        Self::sqrt_full_spec(Self::from_i64_spec(2)),
                    ),
                    Self::div_full_spec(Self::from_i64_spec(1), Self::from_i64_spec(4)),
                    Self::from_i64_spec(1),
                ),
            )
        } else {
            let st = Self::pi_state_spec((n - 1) as nat);
            if st.0 {
                st
            } else if st.1.0 == st.1.1 {
                (true, st.1)
            } else {
                (false, Self::pi_step_spec(st.1))
            }
        }
    }

    /// Once the two means have coincided, the pi state is frozen.
    proof fn lemma_pi_state_stable(k1: nat, k2: nat)
        requires
            k1 <= k2,
            Self::pi_state_spec(k1).0,
        ensures
            Self::pi_state_spec(k2) == Self::pi_state_spec(k1),
        decreases k2,
    {
        if k2 > k1 {
            Self::lemma_pi_state_stable(k1, (k2 - 1) as nat);
        }
    }

    /// The value of pi under this configuration: the square of the final
    /// arithmetic mean over the final error term, after the means have
    /// coincided or the iteration budget is spent.
    pub open spec fn pi_value_spec() -> Self {
        Self::div_full_spec(
            Self::mul_full_spec(Self::pi_state_spec(64).1.0, Self::pi_state_spec(64).1.0),
            Self::pi_state_spec(64).1.2,
        )
    }

    /// One Newton-Raphson step of the square-root search.
    pub open spec fn newton_step_spec(target: Self, p: Self) -> Self {
        Self::div_full_spec(
            Self::add_full_spec(p, Self::div_full_spec(target, p)),
            Self::from_u64_spec(2),
        )
    }

    /// Calculates the power of two: the value multiplied by itself.
    pub fn sqr(&self) -> (r: Self)
        requires
            Self::fmt_ok(),
            self.canonical(),
        ensures
            r == Self::mul_full_spec(*self, *self),
            r.canonical(),
            self.is_nan_spec() ==> r.is_nan_spec(),
            !r.is_nan_spec() ==> r.sign_spec() == false,
    {
        self.mul(*self)
    }

    /// Returns the absolute value of this float.
    pub fn abs(&self) -> (r: Self)
        ensures
            r.sign_spec() == false,
            r.exp_field_spec() == self.exp_field_spec(),
            r.mantissa_spec() == self.mantissa_spec(),
            self.canonical() ==> r.canonical(),
            r.category_spec() == self.category_spec(),
    {
        let mut x = *self;
        x.set_sign(false);
        x
    }

    /// Calculates the square root of the number using the Newton-Raphson
    /// method: the search starts at the greater of two and the operand and
    /// stops when the iterate stops decreasing, which `sqrt_full_spec`
    /// pins step by step. A zero is returned unchanged, a NaN or a
    /// negative number gives a NaN of the operand's sign, and a positive
    /// infinity is returned unchanged.
    pub fn sqrt(&self) -> (r: Self)
        requires
            Self::fmt_ok(),
            self.canonical(),
        ensures
            r.canonical(),
            self.is_zero_spec() ==> r == self,
            self.is_nan_spec() || (self.sign_spec() && !self.is_zero_spec()) ==> r
                == Self::nan_spec(self.sign_spec()),
            self.is_inf_spec() && !self.sign_spec() ==> r == self,
            !self.is_nan_spec() && !self.is_inf_spec() && !self.is_zero_spec()
                && !self.sign_spec() ==> !r.is_nan_spec() && !r.sign_spec(),
            r == Self::sqrt_full_spec(*self),
    {
        if self.is_zero() {
            return *self;
        }
        if self.is_nan() || self.is_negative() {
            return Self::nan(self.get_sign());
        }
        if self.is_inf() {
            return *self;
        }
        let target = *self;
        let two = Self::from_u64(2);
        proof {
            Self::lemma_bias_bounds();
            reveal_with_fuel(vstd::std_specs::bits::u64_leading_zeros, 4);
            assert(vstd::std_specs::bits::u64_leading_zeros(2) == 62);
        }
        let mut x = if target.lt(&two) {
            two
        } else {
            target
        };
        let ghost start = x;
        let ghost mut iters: nat = 0;
        let mut prev = x;
        loop
            invariant
                Self::fmt_ok(),
                x.canonical(),
                prev.canonical(),
                target.canonical(),
                two.canonical(),
                !target.is_nan_spec(),
                !target.is_inf_spec(),
                !target.is_zero_spec(),
                !target.sign_spec(),
                !self.is_zero_spec(),
                !self.is_nan_spec(),
                !self.sign_spec(),
                !self.is_inf_spec(),
                !two.is_nan_spec(),
                !two.is_inf_spec(),
                !two.is_zero_spec(),
                !two.sign_spec(),
                two == Self::from_u64_spec(2),
                target == *self,
                !x.is_nan_spec(),
                !x.sign_spec(),
                !prev.is_nan_spec(),
                !prev.sign_spec(),
                x == prev,
                start == (if Self::lt_spec(target, Self::from_u64_spec(2)) {
                    Self::from_u64_spec(2)
                } else {
                    target
                }),
                Self::sqrt_state_spec(target, start, iters) == (false, prev),
                iters + prev.exp * 0x100000000000000000000000000000000 + prev.mantissa
                    <= start.exp * 0x100000000000000000000000000000000 + start.mantissa,
            decreases prev.exp_field_spec(), prev.mantissa_spec(),
        {
            let next = x.add(target.div(x)).div(two);
            x = next;
            if prev.lt(&x) || x == prev {
                proof {
                    assert(Self::newton_step_spec(*self, prev) == x && (Self::lt_spec(prev, x)
                        || x == prev));
                    assert(Self::sqrt_state_spec(target, start, iters + 1) == (true, x));
                    Self::lemma_sqrt_state_stable(
                        target,
                        start,
                        iters + 1,
                        Self::sqrt_fuel_spec(start),
                    );
                    assert(x == Self::sqrt_newton_spec(target));
                }
                return x;
            }
            prev = x;
            proof {
                iters = iters + 1;
            }
        }
    }

    /// Returns the greater of `self` and `other` by the IEEE rules: a NaN
    /// operand is ignored in favor of the other operand, signed zeros are
    /// ordered by sign, and otherwise the numeric order decides.
    pub fn max(&self, other: Self) -> (r: Self)
        requires
            Self::fmt_ok(),
        ensures
            self.is_nan_spec() ==> r == other,
            !self.is_nan_spec() && other.is_nan_spec() ==> r == self,
            !self.is_nan_spec() && !other.is_nan_spec() && self.sign_spec() != other.sign_spec()
                ==> r == (if self.sign_spec() { other } else { *self }),
            !self.is_nan_spec() && !other.is_nan_spec() && self.sign_spec() == other.sign_spec()
                ==> r == (if Self::lt_spec(other, *self) { *self } else { other }),
    {
        if self.is_nan() {
            return other;
        }
        if other.is_nan() {
            return *self;
        }
        if self.get_sign() != other.get_sign() {
            return if self.get_sign() {
                other
            } else {
                *self
            };
        }
        if self.gt(&other) {
            *self
        } else {
            other
        }
    }

    /// Returns the smaller of `self` and `other` by the IEEE rules: a NaN
    /// operand is ignored in favor of the other operand, signed zeros are
    /// ordered by sign (negative zero below positive zero), and otherwise
    /// the numeric order decides.
    pub fn min(&self, other: Self) -> (r: Self)
        requires
            Self::fmt_ok(),
        ensures
            self.is_nan_spec() ==> r == other,
            !self.is_nan_spec() && other.is_nan_spec() ==> r == self,
            !self.is_nan_spec() && !other.is_nan_spec() && self.sign_spec() != other.sign_spec()
                ==> r == (if self.sign_spec() { *self } else { other }),
            !self.is_nan_spec() && !other.is_nan_spec() && self.sign_spec() == other.sign_spec()
                ==> r == (if Self::lt_spec(other, *self) { other } else { *self }),
    {
        if self.is_nan() {
            return other;
        }
        if other.is_nan() {
            return *self;
        }
        if self.get_sign() != other.get_sign() {
            return if self.get_sign() {
                *self
            } else {
                other
            };
        }
        if self.gt(&other) {
            other
        } else {
            *self
        }
    }

    /// Computes pi by the arithmetic-geometric-mean (Brent-Salamin)
    /// iteration: starting from (1, 1/sqrt(2), 1/4, 1), each step takes the
    /// arithmetic and geometric means and stops when they coincide under
    /// the working precision; the result is `a * a / t`, the one value
    /// `pi_value_spec` names for the configuration.
    pub fn pi() -> (r: Self)
        requires
            Self::fmt_ok(),
        ensures
            r == Self::pi_value_spec(),
            r.canonical(),
    {
        let one = Self::from_i64(1);
        let two = Self::from_i64(2);
        let four = Self::from_i64(4);

        let mut a = one;
        let s2 = two.sqrt();
        let mut b = one.div(s2);
        let mut t = one.div(four);
        let mut x = one;
        proof {
            assert(Self::pi_state_spec(0) == (false, (a, b, t, x)));
        }

        // The arithmetic-geometric mean converges quadratically, so the
        // number of steps grows with the logarithm of the working
        // precision: far below this margin for any accepted configuration.
        let mut iters: u64 = 0;
        while a != b && iters < 64
            invariant
                Self::fmt_ok(),
                a.canonical(),
                b.canonical(),
                t.canonical(),
                x.canonical(),
                two.canonical(),
                two == Self::from_i64_spec(2),
                iters <= 64,
                Self::pi_state_spec(iters as nat) == (false, (a, b, t, x)),
            decreases 64 - iters,
        {
            let ghost s0 = (a, b, t, x);
            let y = a;
            a = y.add(b).div(two);
            b = b.mul(y).sqrt();
            let d = a.sub(y);
            t = t.sub(x.mul(d.sqr()));
            x = x.mul(two);
            iters = iters + 1;
            proof {
                assert((a, b, t, x) == Self::pi_step_spec(s0));
                assert(Self::pi_state_spec(iters as nat) == (false, (a, b, t, x)));
            }
        }
        proof {
            if a == b && iters < 64 {
                assert(Self::pi_state_spec((iters + 1) as nat) == (true, (a, b, t, x)));
                Self::lemma_pi_state_stable((iters + 1) as nat, 64);
            }
            assert(Self::pi_state_spec(64).1 == (a, b, t, x));
        }
        a.mul(a).div(t)
    }

    /// Computes e from Euler's continued fraction, evaluated bottom-up for
    /// a number of terms proportional to the exponent width, and finally
    /// `2 + 1/term`.
    pub fn e() -> (r: Self)
        requires
            Self::fmt_ok(),
        ensures
            r == Self::add_full_spec(
                Self::from_i64_spec(2),
                Self::div_full_spec(
                    Self::from_i64_spec(1),
                    Self::e_term_spec(2 * EXPONENT, 1),
                ),
            ),
            r.canonical(),
    {
        let two = Self::from_i64(2);
        let one = Self::from_i64(1);
        let mut term = one;
        let iterations: i64 = (EXPONENT * 2) as i64;
        let mut i: i64 = iterations - 1;
        while i >= 1
            invariant
                Self::fmt_ok(),
                term.canonical(),
                1 <= iterations <= 40,
                iterations == 2 * EXPONENT,
                0 <= i <= iterations - 1,
                term == Self::e_term_spec(iterations as int, i + 1),
            decreases i,
        {
            let v = Self::from_i64(i);
            term = v.add(v.div(term));
            i = i - 1;
        }
        two.add(one.div(term))
    }

    /// Adds `scale` to the exponent of the number, scaling it by two to
    /// that power under the given rounding mode. Values that are not
    /// ordinary numbers are returned unchanged.
    pub fn scale(&self, scale: i64, rm: RoundingMode) -> (r: Self)
        requires
            Self::fmt_ok(),
            self.canonical(),
            -0x40000000 <= scale <= 0x40000000,
        ensures
            r == Self::scale_spec(*self, scale as int, rm),
            r.canonical(),
            self.category_spec() != Category::Normal ==> r == self,
            !self.is_nan_spec() ==> !r.is_nan_spec(),
            self.category_spec() == Category::NaN ==> r.is_nan_spec(),
            r.sign_spec() == self.sign_spec(),
            self.exp_field_spec() != 0 && self.exp_field_spec() != Self::field_mask_int()
                && Self::emin_int() <= self.eff_exp_spec() + scale <= Self::emax_int() ==> r
                == (Float::<EXPONENT, MANTISSA> {
                sign: self.sign,
                exp: (self.eff_exp_spec() + scale + Self::bias_int()) as u64,
                mantissa: self.mantissa,
            }),
    {
        let cat = self.get_category();
        if cat != Category::Normal {
            return *self;
        }
        proof {
            Self::lemma_bias_bounds();
            if self.exp != 0 {
                crate::float::lemma_msb_full(self.mantissa);
                crate::float::lemma_mantissa_basics(self.mantissa, Self::frac_shift());
            }
        }
        Self::normalize(
            self.get_sign(),
            self.eff_exp() + scale,
            self.get_mantissa(),
            crate::bigint::LossFraction::ExactlyZero,
            rm,
        )
    }

    /// Returns the remainder from a division of two floats, with the
    /// semantics of C `fmod`: the magnitude of the dividend is reduced by
    /// the largest power-of-two multiple of the divisor that does not
    /// overshoot it, until it falls below the divisor, and the dividend's
    /// sign is put back. A NaN operand, an infinite dividend or a zero
    /// divisor gives a NaN; a zero dividend or an infinite divisor returns
    /// the dividend.
    pub fn rem(&self, rhs: Self) -> (r: Self)
        requires
            Self::fmt_ok(),
            self.canonical(),
            rhs.canonical(),
        ensures
            r.canonical(),
            r.sign_spec() == self.sign_spec(),
            self.is_nan_spec() || rhs.is_nan_spec() || self.is_inf_spec() || rhs.is_zero_spec()
                ==> r == Self::nan_spec(self.sign_spec()),
            r == Self::rem_full_spec(*self, rhs),
            !self.is_nan_spec() && !rhs.is_nan_spec() && !self.is_inf_spec()
                && !rhs.is_zero_spec() && (self.is_zero_spec() || rhs.is_inf_spec()) ==> r
                == self,
            !self.is_nan_spec() && !rhs.is_nan_spec() && !self.is_inf_spec()
                && !rhs.is_zero_spec() && !self.is_zero_spec() && !rhs.is_inf_spec() ==> r
                == (Float::<EXPONENT, MANTISSA> {
                sign: self.sign,
                exp: Self::rem_iter_spec(
                    (Float::<EXPONENT, MANTISSA> {
                        sign: false,
                        exp: self.exp,
                        mantissa: self.mantissa,
                    }),
                    (Float::<EXPONENT, MANTISSA> {
                        sign: false,
                        exp: rhs.exp,
                        mantissa: rhs.mantissa,
                    }),
                    ((1u64 << (EXPONENT as u64)) + 512) as nat,
                ).exp,
                mantissa: Self::rem_iter_spec(
                    (Float::<EXPONENT, MANTISSA> {
                        sign: false,
                        exp: self.exp,
                        mantissa: self.mantissa,
                    }),
                    (Float::<EXPONENT, MANTISSA> {
                        sign: false,
                        exp: rhs.exp,
                        mantissa: rhs.mantissa,
                    }),
                    ((1u64 << (EXPONENT as u64)) + 512) as nat,
                ).mantissa,
            }),
    {
        if self.is_nan() || rhs.is_nan() || self.is_inf() || rhs.is_zero() {
            return Self::nan(self.get_sign());
        }
        if self.is_zero() || rhs.is_inf() {
            return *self;
        }
        proof {
            Self::lemma_bias_bounds();
        }
        let mut lhs = self.abs();
        let rhs_a = if rhs.is_negative() {
            rhs.neg()
        } else {
            rhs
        };
        // Each pass subtracts a power-of-two multiple of the divisor that
        // lies within a factor of two of the dividend, so the dividend
        // loses at least one exponent step per pass and the pass count is
        // bounded by the configuration's exponent range.
        let bound: u64 = (1u64 << EXPONENT) + 512;
        let ghost lhs0 = lhs;
        let mut steps: u64 = 0;
        while lhs.ge(&rhs_a) && !lhs.is_zero() && steps < bound
            invariant
                Self::fmt_ok(),
                lhs.canonical(),
                rhs_a.canonical(),
                steps <= bound,
                lhs == Self::rem_iter_spec(lhs0, rhs_a, steps as nat),
            decreases bound - steps,
        {
            proof {
                Self::lemma_bias_bounds();
            }
            // The exponent of the leading set bit, so that a subnormal
            // operand scales by its true magnitude.
            let la: i64 = 128 - crate::utils::next_msb128(lhs.get_mantissa()) as i64;
            let lb: i64 = 128 - crate::utils::next_msb128(rhs_a.get_mantissa()) as i64;
            let scale = (lhs.eff_exp() - la) - (rhs_a.eff_exp() - lb);
            let mut diff = rhs_a.scale(scale, RoundingMode::NearestTiesToEven);
            if diff.gt(&lhs) {
                diff = rhs_a.scale(scale - 1, RoundingMode::NearestTiesToEven);
            }
            lhs = lhs.sub(diff);
            steps = steps + 1;
        }
        proof {
            if steps < bound {
                Self::lemma_rem_iter_stable(lhs0, rhs_a, steps as nat, bound as nat);
            }
        }
        lhs.set_sign(self.get_sign());
        lhs
    }

    /// The truncated Taylor series of sine at a small argument:
    /// `x - x^3/3! + x^5/5! - ...`, ten terms.
    pub fn sin_taylor(x: Self) -> (r: Self)
        requires
            Self::fmt_ok(),
            x.canonical(),
        ensures
            r == Self::taylor_state_spec(x, 9).3,
            r.canonical(),
    {
        let mut neg = false;
        let mut top = x;
        let mut bottom: u64 = 1;
        let mut sum = Self::zero(false);
        let x2 = x.sqr();
        let mut i: u64 = 1;
        while i < 10
            invariant
                Self::fmt_ok(),
                x.canonical(),
                top.canonical(),
                sum.canonical(),
                x2.canonical(),
                1 <= i <= 10,
                bottom == taylor_denom((i - 1) as nat),
                x2 == Self::mul_full_spec(x, x),
                (neg, top, bottom, sum) == Self::taylor_state_spec(x, (i - 1) as nat),
            decreases 10 - i,
        {
            proof {
                lemma_taylor_denom_mono((i - 1) as nat, (i - 1) as nat);
                lemma_taylor_denom_mono(i as nat, 9);
                lemma_taylor_denom_values();
                assert(bottom * (i * 2) <= taylor_denom(i as nat) && bottom * (i * 2) * (i * 2
                    + 1) == taylor_denom(i as nat)) by (nonlinear_arith)
                    requires
                        1 <= i <= 9,
                        bottom == taylor_denom((i - 1) as nat),
                        taylor_denom(i as nat) == taylor_denom((i - 1) as nat) * (2 * i) * (2
                            * i + 1),
                ;
                assert(taylor_denom((i - 1) as nat) * (2 * i) * (2 * i + 1) == taylor_denom(
                    i as nat,
                ));
            }
            let elem = top.div(Self::from_u64(bottom));
            sum = if neg {
                sum.sub(elem)
            } else {
                sum.add(elem)
            };
            top = top.mul(x2);
            bottom = bottom * (i * 2) * (i * 2 + 1);
            neg = !neg;
            i = i + 1;
        }
        sum
    }

    /// Shrinks the argument of sine by the triple-angle identity
    /// `sin(3x) = 3 sin(x) - 4 sin(x)^3`, recursing a fixed number of
    /// steps before falling back to the Taylor series.
    pub fn sin_step4_reduction(x: Self, steps: usize) -> (r: Self)
        requires
            Self::fmt_ok(),
            x.canonical(),
        ensures
            r == Self::sin_reduce_spec(x, steps as nat),
            r.canonical(),
        decreases steps,
    {
        if steps == 0 {
            return Self::sin_taylor(x);
        }
        let three = Self::from_u64(3);
        let four = Self::from_u64(4);
        let x3 = x.div(three);
        let sx = Self::sin_step4_reduction(x3, steps - 1);
        three.mul(sx).sub(four.mul(sx.mul(sx).mul(sx)))
    }

    /// Returns the sine of the value: the argument is reduced into
    /// `[0, 2 pi]` by the remainder, folded into `[0, pi]` tracking a sign
    /// flip, reflected into `[0, pi/2]`, and then shrunk by the
    /// triple-angle identity before the Taylor series. A zero is returned
    /// unchanged; infinities and NaNs are excluded by contract, as the
    /// operation has no meaning for them.
    pub fn sin(&self) -> (r: Self)
        requires
            Self::fmt_ok(),
            self.canonical(),
            !self.is_nan_spec(),
            !self.is_inf_spec(),
        ensures
            r.canonical(),
            self.is_zero_spec() ==> r == self,
            !self.is_zero_spec() ==> r == Self::sin_pipeline_spec(*self, Self::pi_value_spec()),
    {
        if self.is_zero() {
            return *self;
        }
        let mut neg = false;
        let mut val = *self;
        if val.is_negative() {
            val = val.neg();
            neg = !neg;
        }
        let pi = Self::pi();
        let pi2 = pi.scale(1, RoundingMode::Zero);
        let pi_half = pi.scale(-1, RoundingMode::Zero);
        let ghost v0 = val;

        if val.gt(&pi2) {
            val = val.rem(pi2);
        }
        let ghost v1 = val;
        let ghost flip = Self::lt_spec(pi, v1);
        if val.gt(&pi) {
            val = val.sub(pi);
            neg = !neg;
        }
        if val.gt(&pi_half) {
            val = pi.sub(val);
        }
        let res = Self::sin_step4_reduction(val, 5);
        let result = if neg {
            res.neg()
        } else {
            res
        };
        proof {
            assert(neg == (self.sign != flip));
            assert(result == Self::sin_pipeline_spec(*self, pi));
        }
        result
    }
}

} // verus!
