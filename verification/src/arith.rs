//! The arithmetic operators: a shared mantissa-alignment and cancellation
//! core for addition and subtraction, multiplication over the double-width
//! product, long division, negation, and the IEEE comparison predicates.
//! Infinity and NaN handling lives in the caller-facing wrappers; the core
//! routines take finite operands and re-invoke the normalization engine.

use crate::bigint::LossFraction;
use crate::bigint::add_carry;
use crate::bigint::classify_loss;
use crate::bigint::mul_wide;
use crate::float::Category;
use crate::float::Float;
use crate::float::RoundingMode;
use crate::utils::next_msb128;
use vstd::prelude::*;

verus! {

impl<const EXPONENT: usize, const MANTISSA: usize> Float<EXPONENT, MANTISSA> {
    /// The exponent of the explicit-bit position: subnormals and zero share
    /// the smallest normal exponent.
    pub open spec fn eff_exp_spec(self) -> int {
        if self.exp == 0 {
            Self::emin_int()
        } else {
            self.exp - Self::bias_int()
        }
    }

    /// Returns the exponent of the explicit-bit position.
    pub fn eff_exp(&self) -> (r: i64)
        requires
            Self::fmt_ok(),
            self.exp_field_spec() <= Self::field_mask_int(),
        ensures
            r == self.eff_exp_spec(),
    {
        proof {
            Self::lemma_bias_bounds();
        }
        if self.is_normal() {
            self.get_exp()
        } else {
            1 - (Self::get_bias() as i64)
        }
    }

    /// The sign-flipped image of a value.
    pub open spec fn neg_spec(x: Self) -> Self {
        Float { sign: !x.sign, exp: x.exp, mantissa: x.mantissa }
    }

    /// The aligned addend: the smaller-exponent mantissa shifted under the
    /// larger operand by the exponent difference.
    pub open spec fn align_kept_spec(bm: u128, delta: int) -> u128 {
        if delta == 0 {
            bm
        } else if delta < 128 {
            bm >> ((delta as u64) as u64)
        } else {
            0u128
        }
    }

    /// The bits the alignment shift pushed out, kept as a 128-bit fraction
    /// word; a shift of the full width or more leaves a sticky unit when
    /// anything at all was lost.
    pub open spec fn align_lost_spec(bm: u128, delta: int) -> u128 {
        if delta == 0 {
            0u128
        } else if delta < 128 {
            bm << (((128 - delta) as u64) as u64)
        } else if bm == 0 {
            0u128
        } else {
            1u128
        }
    }

    /// The core addition of two finite nonzero operands, `a` holding the
    /// larger explicit-bit exponent: same-sign mantissas add (a carry out
    /// of the top raises the exponent and folds back in as the implicit
    /// bit), opposite signs subtract the smaller significand from the
    /// larger with the lost fraction borrowed through, an exact full
    /// cancellation is a positive zero, and the raw result is normalized
    /// under round-to-nearest-ties-to-even.
    pub open spec fn add_ordered_spec(a: Self, b: Self) -> Self {
        let delta = a.eff_exp_spec() - b.eff_exp_spec();
        let ea = a.eff_exp_spec();
        let bsh = Self::align_kept_spec(b.mantissa, delta);
        let frac = Self::align_lost_spec(b.mantissa, delta);
        if a.sign == b.sign {
            if a.mantissa + bsh >= 0x100000000000000000000000000000000int {
                let s = (a.mantissa + bsh - 0x100000000000000000000000000000000int) as u128;
                Self::normalize_spec(
                    a.sign,
                    ea + 1,
                    (1u128 << 127) | (s >> 1u128),
                    crate::bigint::classify_loss_spec(
                        ((s & 1) << 127u128) | (frac >> 1u128) | (frac & 1),
                        1u128 << 127,
                        LossFraction::ExactlyZero,
                    ),
                    RoundingMode::NearestTiesToEven,
                )
            } else {
                Self::normalize_spec(
                    a.sign,
                    ea,
                    (a.mantissa + bsh) as u128,
                    crate::bigint::classify_loss_spec(
                        frac,
                        1u128 << 127,
                        LossFraction::ExactlyZero,
                    ),
                    RoundingMode::NearestTiesToEven,
                )
            }
        } else {
            if delta == 0 && bsh == a.mantissa {
                Self::zero_spec(false)
            } else if delta == 0 && bsh > a.mantissa {
                Self::normalize_spec(
                    b.sign,
                    ea,
                    (bsh - a.mantissa) as u128,
                    LossFraction::ExactlyZero,
                    RoundingMode::NearestTiesToEven,
                )
            } else if frac == 0 {
                Self::normalize_spec(
                    a.sign,
                    ea,
                    (a.mantissa - bsh) as u128,
                    LossFraction::ExactlyZero,
                    RoundingMode::NearestTiesToEven,
                )
            } else {
                let lo = (0x100000000000000000000000000000000int - frac) as u128;
                let hi = (a.mantissa - bsh - 1) as u128;
                if hi >= (1u128 << 127) {
                    Self::normalize_spec(
                        a.sign,
                        ea,
                        hi,
                        crate::bigint::classify_loss_spec(
                            lo,
                            1u128 << 127,
                            LossFraction::ExactlyZero,
                        ),
                        RoundingMode::NearestTiesToEven,
                    )
                } else {
                    Self::normalize_spec(
                        a.sign,
                        ea - 1,
                        (hi << 1u128) | (lo >> 127u128),
                        crate::bigint::classify_loss_spec(
                            lo << 1u128,
                            1u128 << 127,
                            LossFraction::ExactlyZero,
                        ),
                        RoundingMode::NearestTiesToEven,
                    )
                }
            }
        }
    }

    /// The core addition of two finite operands: zeros resolve first (two
    /// zeros keep a negative sign only when both are negative), and
    /// otherwise the operand with the larger explicit-bit exponent leads.
    pub open spec fn add_finite_spec(x: Self, y: Self) -> Self {
        if x.is_zero_spec() && y.is_zero_spec() {
            Self::zero_spec(x.sign && y.sign)
        } else if x.is_zero_spec() {
            y
        } else if y.is_zero_spec() {
            x
        } else if y.eff_exp_spec() > x.eff_exp_spec() {
            Self::add_ordered_spec(y, x)
        } else {
            Self::add_ordered_spec(x, y)
        }
    }

    /// IEEE addition in full: NaNs pass through, opposite infinities give
    /// a quiet NaN, an infinity absorbs any finite operand, and finite
    /// operands take the core addition.
    pub open spec fn add_full_spec(x: Self, y: Self) -> Self {
        if x.is_nan_spec() {
            x
        } else if y.is_nan_spec() {
            y
        } else if x.is_inf_spec() && y.is_inf_spec() {
            if x.sign != y.sign {
                Self::nan_spec(x.sign)
            } else {
                x
            }
        } else if x.is_inf_spec() {
            x
        } else if y.is_inf_spec() {
            y
        } else {
            Self::add_finite_spec(x, y)
        }
    }

    /// IEEE subtraction: addition of the sign-flipped right operand.
    pub open spec fn sub_full_spec(x: Self, y: Self) -> Self {
        Self::add_full_spec(x, Self::neg_spec(y))
    }

    /// Addition commutativity: the full addition gives bit-identical
    /// results in either operand order, except between two NaNs (each
    /// order passes its left operand through) and between opposite
    /// infinities (the quiet NaN takes the left operand's sign).
    pub proof fn lemma_add_commutes(x: Self, y: Self)
        requires
            Self::fmt_ok(),
            x.canonical(),
            y.canonical(),
            !(x.is_nan_spec() && y.is_nan_spec()),
            !(x.is_inf_spec() && y.is_inf_spec() && x.sign != y.sign),
        ensures
            Self::add_full_spec(x, y) == Self::add_full_spec(y, x),
    {
        if x.is_nan_spec() || y.is_nan_spec() {
        } else if x.is_inf_spec() && y.is_inf_spec() {
            crate::float::lemma_mantissa_basics(x.mantissa, Self::frac_shift());
            crate::float::lemma_mantissa_basics(y.mantissa, Self::frac_shift());
            assert(x.mantissa == (1u128 << 127) && y.mantissa == (1u128 << 127));
            assert(Self::add_full_spec(x, y) == x && Self::add_full_spec(y, x) == y);
            assert(x == y);
        } else if x.is_inf_spec() || y.is_inf_spec() {
        } else if x.is_zero_spec() || y.is_zero_spec() {
        } else if x.eff_exp_spec() == y.eff_exp_spec() {
            assert(Self::add_full_spec(x, y) == Self::add_ordered_spec(x, y));
            assert(Self::add_full_spec(y, x) == Self::add_ordered_spec(y, x));
            if x.sign == y.sign {
                assert(x.mantissa + Self::align_kept_spec(y.mantissa, 0) == y.mantissa
                    + Self::align_kept_spec(x.mantissa, 0));
                assert(Self::add_ordered_spec(x, y) == Self::add_ordered_spec(y, x));
            } else {
                if x.mantissa == y.mantissa {
                    assert(Self::add_ordered_spec(x, y) == Self::zero_spec(false));
                    assert(Self::add_ordered_spec(y, x) == Self::zero_spec(false));
                } else if y.mantissa > x.mantissa {
                    assert(Self::add_ordered_spec(x, y) == Self::normalize_spec(
                        y.sign,
                        x.eff_exp_spec(),
                        (y.mantissa - x.mantissa) as u128,
                        LossFraction::ExactlyZero,
                        RoundingMode::NearestTiesToEven,
                    ));
                    assert(Self::add_ordered_spec(y, x) == Self::normalize_spec(
                        y.sign,
                        y.eff_exp_spec(),
                        (y.mantissa - x.mantissa) as u128,
                        LossFraction::ExactlyZero,
                        RoundingMode::NearestTiesToEven,
                    ));
                } else {
                    assert(Self::add_ordered_spec(x, y) == Self::normalize_spec(
                        x.sign,
                        x.eff_exp_spec(),
                        (x.mantissa - y.mantissa) as u128,
                        LossFraction::ExactlyZero,
                        RoundingMode::NearestTiesToEven,
                    ));
                    assert(Self::add_ordered_spec(y, x) == Self::normalize_spec(
                        x.sign,
                        y.eff_exp_spec(),
                        (x.mantissa - y.mantissa) as u128,
                        LossFraction::ExactlyZero,
                        RoundingMode::NearestTiesToEven,
                    ));
                }
            }
        } else {
        }
    }

    /// The exponent of the leading set bit of the value, below the
    /// explicit-bit exponent by the mantissa's leading zeros.
    pub open spec fn prenorm_exp_spec(x: Self) -> int {
        x.eff_exp_spec() - (128 - crate::utils::msb128_spec(x.mantissa))
    }

    /// The high word of the double-width product of two mantissas.
    pub open spec fn mul_hi_spec(am: u128, bm: u128) -> u128 {
        ((am * bm) / 0x100000000000000000000000000000000int) as u128
    }

    /// The low word of the double-width product of two mantissas.
    pub open spec fn mul_lo_spec(am: u128, bm: u128) -> u128 {
        ((am * bm) % 0x100000000000000000000000000000000int) as u128
    }

    /// The core multiplication of two finite nonzero operands: both
    /// mantissas are aligned to the top, the double-width product's high
    /// word becomes the raw mantissa (shifted up one bit when the product
    /// stayed below the top bit), the low word classifies the loss, and
    /// the sum of exponents is normalized under ties-to-even.
    pub open spec fn mul_finite_spec(x: Self, y: Self) -> Self {
        let am = Self::norm_shifted(x.mantissa);
        let bm = Self::norm_shifted(y.mantissa);
        let hi = Self::mul_hi_spec(am, bm);
        let lo = Self::mul_lo_spec(am, bm);
        let e = Self::prenorm_exp_spec(x) + Self::prenorm_exp_spec(y) + 1;
        if hi >= (1u128 << 127) {
            Self::normalize_spec(
                x.sign != y.sign,
                e,
                hi,
                crate::bigint::classify_loss_spec(lo, 1u128 << 127, LossFraction::ExactlyZero),
                RoundingMode::NearestTiesToEven,
            )
        } else {
            Self::normalize_spec(
                x.sign != y.sign,
                e - 1,
                (hi << 1u128) | (lo >> 127u128),
                crate::bigint::classify_loss_spec(
                    lo << 1u128,
                    1u128 << 127,
                    LossFraction::ExactlyZero,
                ),
                RoundingMode::NearestTiesToEven,
            )
        }
    }

    /// IEEE multiplication in full: NaNs pass through, an infinity times a
    /// zero is a quiet NaN, any other infinite operand gives an infinity,
    /// a zero operand gives a zero, always with the exclusive-or sign.
    pub open spec fn mul_full_spec(x: Self, y: Self) -> Self {
        if x.is_nan_spec() {
            x
        } else if y.is_nan_spec() {
            y
        } else if x.is_inf_spec() || y.is_inf_spec() {
            if x.is_zero_spec() || y.is_zero_spec() {
                Self::nan_spec(x.sign != y.sign)
            } else {
                Self::inf_spec(x.sign != y.sign)
            }
        } else if x.is_zero_spec() || y.is_zero_spec() {
            Self::zero_spec(x.sign != y.sign)
        } else {
            Self::mul_finite_spec(x, y)
        }
    }

    /// One restoring-division step: the remainder doubles, the divisor is
    /// subtracted when it fits, and the quotient takes the corresponding
    /// bit.
    pub open spec fn div_step_spec(st: (u128, u128), bm: u128) -> (u128, u128) {
        let q2 = st.0 << 1u128;
        if st.1 >> 127u128 == 1 {
            (q2 | 1, ((st.1 << 1u128) + ((u128::MAX - bm) + 1)) as u128)
        } else {
            if (st.1 << 1u128) >= bm {
                (q2 | 1, ((st.1 << 1u128) - bm) as u128)
            } else {
                (q2, st.1 << 1u128)
            }
        }
    }

    /// The quotient/remainder state after `n` restoring-division steps.
    pub open spec fn div_iter_spec(st: (u128, u128), bm: u128, n: nat) -> (u128, u128)
        decreases n,
    {
        if n == 0 {
            st
        } else {
            Self::div_step_spec(Self::div_iter_spec(st, bm, (n - 1) as nat), bm)
        }
    }

    /// The core division of two finite nonzero operands: both mantissas
    /// aligned to the top, a full word of quotient bits produced by
    /// restoring division, the remainder classified against half the
    /// divisor, and the exponent difference normalized under ties-to-even.
    pub open spec fn div_finite_spec(x: Self, y: Self) -> Self {
        let am = Self::norm_shifted(x.mantissa);
        let bm = Self::norm_shifted(y.mantissa);
        let e = Self::prenorm_exp_spec(x) - Self::prenorm_exp_spec(y) - (if am >= bm {
            0int
        } else {
            1int
        });
        let init = if am >= bm {
            (1u128, (am - bm) as u128)
        } else {
            (0u128, am)
        };
        let fin = Self::div_iter_spec(init, bm, if am >= bm {
            127nat
        } else {
            128nat
        });
        let loss = if fin.1 == 0 {
            LossFraction::ExactlyZero
        } else if fin.1 > (bm - fin.1) as u128 {
            LossFraction::MoreThanHalf
        } else if fin.1 == (bm - fin.1) as u128 {
            LossFraction::ExactlyHalf
        } else {
            LossFraction::LessThanHalf
        };
        Self::normalize_spec(
            x.sign != y.sign,
            e,
            fin.0,
            if fin.0 >= (1u128 << 127) {
                loss
            } else {
                LossFraction::ExactlyZero
            },
            RoundingMode::NearestTiesToEven,
        )
    }

    /// IEEE division in full: NaNs pass through, infinity over infinity
    /// and zero over zero are quiet NaNs, an infinite or zero-divided
    /// dividend keeps its category, division by zero is an infinity,
    /// always with the exclusive-or sign.
    pub open spec fn div_full_spec(x: Self, y: Self) -> Self {
        if x.is_nan_spec() {
            x
        } else if y.is_nan_spec() {
            y
        } else if x.is_inf_spec() {
            if y.is_inf_spec() {
                Self::nan_spec(x.sign != y.sign)
            } else {
                Self::inf_spec(x.sign != y.sign)
            }
        } else if y.is_inf_spec() {
            Self::zero_spec(x.sign != y.sign)
        } else if y.is_zero_spec() {
            if x.is_zero_spec() {
                Self::nan_spec(x.sign != y.sign)
            } else {
                Self::inf_spec(x.sign != y.sign)
            }
        } else if x.is_zero_spec() {
            Self::zero_spec(x.sign != y.sign)
        } else {
            Self::div_finite_spec(x, y)
        }
    }

    /// The IEEE less-than order: false on any NaN, zeros of both signs are
    /// equal, otherwise sign first and then the magnitude, which for
    /// canonical values is the lexicographic order on (exponent field,
    /// mantissa). Infinities take part as the largest magnitudes.
    pub open spec fn lt_spec(a: Self, b: Self) -> bool {
        if a.is_nan_spec() || b.is_nan_spec() {
            false
        } else if a.is_zero_spec() && b.is_zero_spec() {
            false
        } else if a.is_zero_spec() {
            !b.sign
        } else if b.is_zero_spec() {
            a.sign
        } else if a.sign != b.sign {
            a.sign
        } else if a.sign {
            b.exp < a.exp || (b.exp == a.exp && b.mantissa < a.mantissa)
        } else {
            a.exp < b.exp || (a.exp == b.exp && a.mantissa < b.mantissa)
        }
    }

    /// IEEE less-than.
    pub fn lt(&self, other: &Self) -> (r: bool)
        requires
            Self::fmt_ok(),
        ensures
            r == Self::lt_spec(*self, *other),
    {
        if self.is_nan() || other.is_nan() {
            false
        } else if self.is_zero() && other.is_zero() {
            false
        } else if self.is_zero() {
            !other.get_sign()
        } else if other.is_zero() {
            self.get_sign()
        } else if self.get_sign() != other.get_sign() {
            self.get_sign()
        } else if self.get_sign() {
            other.get_unbiased_exp() < self.get_unbiased_exp() || (other.get_unbiased_exp()
                == self.get_unbiased_exp() && other.mantissa < self.mantissa)
        } else {
            self.get_unbiased_exp() < other.get_unbiased_exp() || (self.get_unbiased_exp()
                == other.get_unbiased_exp() && self.mantissa < other.mantissa)
        }
    }

    /// IEEE greater-than.
    pub fn gt(&self, other: &Self) -> (r: bool)
        requires
            Self::fmt_ok(),
        ensures
            r == Self::lt_spec(*other, *self),
    {
        other.lt(self)
    }

    /// IEEE less-or-equal: false on any NaN.
    pub fn le(&self, other: &Self) -> (r: bool)
        requires
            Self::fmt_ok(),
        ensures
            r == (!self.is_nan_spec() && !other.is_nan_spec() && !Self::lt_spec(*other, *self)),
    {
        if self.is_nan() || other.is_nan() {
            false
        } else {
            !other.lt(self)
        }
    }

    /// IEEE greater-or-equal: false on any NaN.
    pub fn ge(&self, other: &Self) -> (r: bool)
        requires
            Self::fmt_ok(),
        ensures
            r == (!self.is_nan_spec() && !other.is_nan_spec() && !Self::lt_spec(*self, *other)),
    {
        if self.is_nan() || other.is_nan() {
            false
        } else {
            !self.lt(other)
        }
    }

    /// Returns this value with the sign flipped.
    pub fn neg(&self) -> (r: Self)
        ensures
            r == Self::neg_spec(*self),
            r.sign_spec() == !self.sign_spec(),
            r.exp_field_spec() == self.exp_field_spec(),
            r.mantissa_spec() == self.mantissa_spec(),
            self.canonical() ==> r.canonical(),
            r.category_spec() == self.category_spec(),
    {
        let mut x = *self;
        x.set_sign(!self.get_sign());
        x
    }

    /// IEEE addition: NaNs propagate, opposite infinities give a NaN, an
    /// infinity absorbs any finite operand, and finite operands go through
    /// the core alignment/cancellation routine followed by normalization,
    /// rounding to nearest-even.
    pub fn add(self, rhs: Self) -> (r: Self)
        requires
            Self::fmt_ok(),
            self.canonical(),
            rhs.canonical(),
        ensures
            r.canonical(),
            self.is_nan_spec() || rhs.is_nan_spec() ==> r.is_nan_spec(),
            self.is_inf_spec() && rhs.is_inf_spec() && self.sign_spec() != rhs.sign_spec() ==> r.is_nan_spec(),
            self.is_inf_spec() && rhs.is_inf_spec() && self.sign_spec() == rhs.sign_spec() ==> r
                == self,
            self.is_inf_spec() && !rhs.is_inf_spec() && !rhs.is_nan_spec() ==> r == self,
            rhs.is_inf_spec() && !self.is_inf_spec() && !self.is_nan_spec() ==> r == rhs,
            !self.is_nan_spec() && !rhs.is_nan_spec() && !self.is_inf_spec()
                && !rhs.is_inf_spec() ==> !r.is_nan_spec(),
            self.is_zero_spec() && !rhs.is_nan_spec() && !rhs.is_zero_spec() ==> r == rhs,
            rhs.is_zero_spec() && !self.is_nan_spec() && !self.is_zero_spec() ==> r == self,
            self.sign_spec() == rhs.sign_spec() ==> r.sign_spec() == self.sign_spec(),
            r == Self::add_full_spec(self, rhs),
    {
        if self.is_nan() {
            return self;
        }
        if rhs.is_nan() {
            return rhs;
        }
        if self.is_inf() && rhs.is_inf() {
            if self.get_sign() != rhs.get_sign() {
                return Self::nan(self.get_sign());
            }
            return self;
        }
        if self.is_inf() {
            return self;
        }
        if rhs.is_inf() {
            return rhs;
        }
        crate::arith::add(self, rhs)
    }

    /// IEEE subtraction: addition with the sign of the right operand
    /// flipped, so NaNs propagate and equal infinities give a NaN.
    pub fn sub(self, rhs: Self) -> (r: Self)
        requires
            Self::fmt_ok(),
            self.canonical(),
            rhs.canonical(),
        ensures
            r.canonical(),
            self.is_nan_spec() || rhs.is_nan_spec() ==> r.is_nan_spec(),
            self.is_inf_spec() && rhs.is_inf_spec() && self.sign_spec() == rhs.sign_spec() ==> r.is_nan_spec(),
            self.is_inf_spec() && !rhs.is_inf_spec() && !rhs.is_nan_spec() ==> r == self,
            rhs.is_inf_spec() && !self.is_inf_spec() && !self.is_nan_spec() ==> r
                == Self::neg_spec(rhs),
            r == Self::sub_full_spec(self, rhs),
    {
        self.add(rhs.neg())
    }

    /// IEEE multiplication: NaNs propagate, an infinity times a zero is a
    /// NaN, an infinity times anything else keeps the infinite magnitude,
    /// and the sign of every non-NaN result is the exclusive or of the
    /// operand signs. Finite operands multiply their mantissas into a
    /// double-width product and normalize, rounding to nearest-even.
    pub fn mul(self, rhs: Self) -> (r: Self)
        requires
            Self::fmt_ok(),
            self.canonical(),
            rhs.canonical(),
        ensures
            r.canonical(),
            self.is_nan_spec() || rhs.is_nan_spec() ==> r.is_nan_spec(),
            self.is_inf_spec() && rhs.is_zero_spec() ==> r.is_nan_spec(),
            self.is_zero_spec() && rhs.is_inf_spec() ==> r.is_nan_spec(),
            self.is_inf_spec() && !rhs.is_nan_spec() && !rhs.is_zero_spec() ==> r == Self::inf_spec(
                self.sign_spec() != rhs.sign_spec(),
            ),
            rhs.is_inf_spec() && !self.is_nan_spec() && !self.is_zero_spec() ==> r == Self::inf_spec(
                self.sign_spec() != rhs.sign_spec(),
            ),
            self.is_zero_spec() && !rhs.is_nan_spec() && !rhs.is_inf_spec() ==> r == Self::zero_spec(
                self.sign_spec() != rhs.sign_spec(),
            ),
            rhs.is_zero_spec() && !self.is_nan_spec() && !self.is_inf_spec() ==> r == Self::zero_spec(
                self.sign_spec() != rhs.sign_spec(),
            ),
            !r.is_nan_spec() ==> r.sign_spec() == (self.sign_spec() != rhs.sign_spec()),
            self.is_nan_spec() || rhs.is_nan_spec() || (self.is_inf_spec() && rhs.is_zero_spec())
                || (self.is_zero_spec() && rhs.is_inf_spec()) || !r.is_nan_spec(),
            r == Self::mul_full_spec(self, rhs),
    {
        let sign = self.get_sign() != rhs.get_sign();
        if self.is_nan() {
            return self;
        }
        if rhs.is_nan() {
            return rhs;
        }
        if self.is_inf() || rhs.is_inf() {
            if self.is_zero() || rhs.is_zero() {
                return Self::nan(sign);
            }
            return Self::inf(sign);
        }
        if self.is_zero() || rhs.is_zero() {
            return Self::zero(sign);
        }
        proof {
            Self::lemma_bias_bounds();
            lemma_pow_consts();
            assert(self.mantissa != 0 && rhs.mantissa != 0);
        }
        let na = next_msb128(self.get_mantissa());
        let nb = next_msb128(rhs.get_mantissa());
        let la: u64 = 128 - na;
        let lb: u64 = 128 - nb;
        proof {
            crate::float::lemma_norm_shift(self.mantissa, (na - 1) as u64, la);
            crate::float::lemma_norm_shift(rhs.mantissa, (nb - 1) as u64, lb);
        }
        let am: u128 = self.get_mantissa() << la;
        let bm: u128 = rhs.get_mantissa() << lb;
        let ea: i64 = self.eff_exp() - la as i64;
        let eb: i64 = rhs.eff_exp() - lb as i64;
        let wide = mul_wide(am, bm);
        let hi = wide.0;
        let lo = wide.1;
        proof {
            vstd::arithmetic::div_mod::lemma_fundamental_div_mod_converse(
                am as int * bm as int,
                0x100000000000000000000000000000000int,
                hi as int,
                lo as int,
            );
            assert(hi >= 0x40000000000000000000000000000000u128) by (nonlinear_arith)
                requires
                    am >= 0x80000000000000000000000000000000u128,
                    bm >= 0x80000000000000000000000000000000u128,
                    hi as nat * 0x100000000000000000000000000000000nat + lo as nat == am
                        as nat * bm as nat,
                    lo < 0x100000000000000000000000000000000nat,
            ;
        }
        let mut e: i64 = ea + eb + 1;
        let mut m: u128;
        let mut rest: u128;
        if hi >= 1u128 << 127 {
            m = hi;
            rest = lo;
        } else {
            proof {
                let l2: u128 = lo;
                assert((hi << 1u128) | (l2 >> 127u128) >= (1u128 << 127)) by (bit_vector)
                    requires
                        hi >= 0x40000000000000000000000000000000u128,
                        hi < 0x80000000000000000000000000000000u128,
                ;
            }
            m = (hi << 1) | (lo >> 127);
            rest = lo << 1;
            e = e - 1;
        }
        let loss = classify_loss(rest, 1u128 << 127, LossFraction::ExactlyZero);
        Self::normalize(sign, e, m, loss, RoundingMode::NearestTiesToEven)
    }

    /// IEEE division: NaNs propagate, infinity over infinity and zero over
    /// zero are NaNs, division by zero gives an infinity, dividing an
    /// infinity keeps it and dividing by one gives a zero magnitude; the
    /// sign of every non-NaN result is the exclusive or of the operand
    /// signs. Finite mantissas long-divide bit by bit and normalize,
    /// rounding to nearest-even.
    pub fn div(self, rhs: Self) -> (r: Self)
        requires
            Self::fmt_ok(),
            self.canonical(),
            rhs.canonical(),
        ensures
            r.canonical(),
            self.is_nan_spec() || rhs.is_nan_spec() ==> r.is_nan_spec(),
            self.is_inf_spec() && rhs.is_inf_spec() ==> r.is_nan_spec(),
            self.is_zero_spec() && rhs.is_zero_spec() ==> r.is_nan_spec(),
            self.is_inf_spec() && !rhs.is_nan_spec() && !rhs.is_inf_spec() ==> r == Self::inf_spec(
                self.sign_spec() != rhs.sign_spec(),
            ),
            rhs.is_inf_spec() && !self.is_nan_spec() && !self.is_inf_spec() ==> r == Self::zero_spec(
                self.sign_spec() != rhs.sign_spec(),
            ),
            rhs.is_zero_spec() && !self.is_nan_spec() && !self.is_zero_spec()
                && !self.is_inf_spec() ==> r == Self::inf_spec(
                self.sign_spec() != rhs.sign_spec(),
            ),
            self.is_zero_spec() && !rhs.is_nan_spec() && !rhs.is_zero_spec() ==> r == Self::zero_spec(
                self.sign_spec() != rhs.sign_spec(),
            ),
            !r.is_nan_spec() ==> r.sign_spec() == (self.sign_spec() != rhs.sign_spec()),
            !self.is_nan_spec() && !rhs.is_nan_spec() && !(self.is_inf_spec()
                && rhs.is_inf_spec()) && !(self.is_zero_spec() && rhs.is_zero_spec())
                ==> !r.is_nan_spec(),
            r == Self::div_full_spec(self, rhs),
    {
        let sign = self.get_sign() != rhs.get_sign();
        if self.is_nan() {
            return self;
        }
        if rhs.is_nan() {
            return rhs;
        }
        if self.is_inf() {
            if rhs.is_inf() {
                return Self::nan(sign);
            }
            return Self::inf(sign);
        }
        if rhs.is_inf() {
            return Self::zero(sign);
        }
        if rhs.is_zero() {
            if self.is_zero() {
                return Self::nan(sign);
            }
            return Self::inf(sign);
        }
        if self.is_zero() {
            return Self::zero(sign);
        }
        proof {
            Self::lemma_bias_bounds();
            lemma_pow_consts();
            assert(self.mantissa != 0 && rhs.mantissa != 0);
        }
        let na = next_msb128(self.get_mantissa());
        let nb = next_msb128(rhs.get_mantissa());
        let la: u64 = 128 - na;
        let lb: u64 = 128 - nb;
        proof {
            crate::float::lemma_norm_shift(self.mantissa, (na - 1) as u64, la);
            crate::float::lemma_norm_shift(rhs.mantissa, (nb - 1) as u64, lb);
        }
        let am: u128 = self.get_mantissa() << la;
        let bm: u128 = rhs.get_mantissa() << lb;
        let ea: i64 = self.eff_exp() - la as i64;
        let eb: i64 = rhs.eff_exp() - lb as i64;
        let mut e: i64 = ea - eb;
        let mut q: u128 = 0;
        let mut rem: u128;
        proof {
            assert(am <= u128::MAX);
        }
        if am >= bm {
            q = 1;
            rem = am - bm;
        } else {
            rem = am;
            e = e - 1;
        }
        let extra: u64 = if am >= bm {
            127
        } else {
            128
        };
        let ghost st0: (u128, u128) = (q, rem);
        let mut i: u64 = 0;
        while i < extra
            invariant
                rem < bm,
                bm >= 1u128 << 127,
                i <= extra,
                (q, rem) == Self::div_iter_spec(st0, bm, i as nat),
            decreases extra - i,
        {
            let top: u128 = rem >> 127;
            let rem2: u128 = rem << 1;
            q = q << 1;
            proof {
                lemma_div_step_facts(rem, bm);
            }
            if top == 1 {
                rem = rem2 + ((u128::MAX - bm) + 1);
                q = q | 1;
            } else {
                if rem2 >= bm {
                    rem = rem2 - bm;
                    q = q | 1;
                } else {
                    rem = rem2;
                }
            }
            i = i + 1;
        }
        let loss: LossFraction;
        if rem == 0 {
            loss = LossFraction::ExactlyZero;
        } else {
            let rest: u128 = bm - rem;
            if rem > rest {
                loss = LossFraction::MoreThanHalf;
            } else if rem == rest {
                loss = LossFraction::ExactlyHalf;
            } else {
                loss = LossFraction::LessThanHalf;
            }
        }
        let loss_n: LossFraction = if q >= (1u128 << 127) {
            loss
        } else {
            LossFraction::ExactlyZero
        };
        Self::normalize(sign, e, q, loss_n, RoundingMode::NearestTiesToEven)
    }
}

/// The core addition of two finite floats: the operand with the larger
/// exponent is kept, the other mantissa is aligned under it with the
/// shifted-out bits tracked as a loss fraction, the significands are added
/// or subtracted by sign, a full cancellation yields a positive zero, and
/// the raw result is normalized, rounding to nearest-even.
#[verifier::rlimit(100)]
pub fn add<const EXPONENT: usize, const MANTISSA: usize>(
    x: Float<EXPONENT, MANTISSA>,
    y: Float<EXPONENT, MANTISSA>,
) -> (r: Float<EXPONENT, MANTISSA>)
    requires
        Float::<EXPONENT, MANTISSA>::fmt_ok(),
        x.canonical(),
        y.canonical(),
        x.category_spec() != Category::Infinity,
        x.category_spec() != Category::NaN,
        y.category_spec() != Category::Infinity,
        y.category_spec() != Category::NaN,
    ensures
        r.canonical(),
        !r.is_nan_spec(),
        x.is_zero_spec() && y.is_zero_spec() ==> r == Float::<EXPONENT, MANTISSA>::zero_spec(
            x.sign_spec() && y.sign_spec(),
        ),
        x.is_zero_spec() && !y.is_zero_spec() ==> r == y,
        y.is_zero_spec() && !x.is_zero_spec() ==> r == x,
        x.sign_spec() == y.sign_spec() ==> r.sign_spec() == x.sign_spec(),
        r == Float::<EXPONENT, MANTISSA>::add_finite_spec(x, y),
        x.sign_spec() != y.sign_spec() && x.exp == y.exp && x.mantissa == y.mantissa
            && !x.is_zero_spec() ==> r == Float::<EXPONENT, MANTISSA>::zero_spec(false),
{
    if x.is_zero() && y.is_zero() {
        return Float::<EXPONENT, MANTISSA>::zero(x.get_sign() && y.get_sign());
    }
    if x.is_zero() {
        return y;
    }
    if y.is_zero() {
        return x;
    }
    proof {
        Float::<EXPONENT, MANTISSA>::lemma_bias_bounds();
    }
    let swap = y.eff_exp() > x.eff_exp();
    let a = if swap {
        y
    } else {
        x
    };
    let b = if swap {
        x
    } else {
        y
    };
    let delta64: i64 = a.eff_exp() - b.eff_exp();
    let ea: i64 = a.eff_exp();
    let bm: u128 = b.get_mantissa();
    let bsh: u128;
    let frac: u128;
    if delta64 == 0 {
        bsh = bm;
        frac = 0;
    } else if delta64 < 128 {
        let dd: u64 = delta64 as u64;
        bsh = bm >> dd;
        frac = bm << ((128 - dd) as u64);
    } else {
        bsh = 0;
        frac = if bm == 0 {
            0
        } else {
            1
        };
    }
    proof {
        lemma_pow_consts();
        if delta64 >= 1 {
            assert(a.exp != 0);
        }
    }
    if a.get_sign() == b.get_sign() {
        let s = add_carry(a.get_mantissa(), bsh);
        if s.1 {
            proof {
                lemma_carry_top(s.0);
            }
            let m: u128 = (1u128 << 127) | (s.0 >> 1);
            let f2: u128 = ((s.0 & 1) << 127) | (frac >> 1) | (frac & 1);
            let loss = classify_loss(f2, 1u128 << 127, LossFraction::ExactlyZero);
            Float::<EXPONENT, MANTISSA>::normalize(
                a.get_sign(),
                ea + 1,
                m,
                loss,
                RoundingMode::NearestTiesToEven,
            )
        } else {
            let loss = classify_loss(frac, 1u128 << 127, LossFraction::ExactlyZero);
            Float::<EXPONENT, MANTISSA>::normalize(
                a.get_sign(),
                ea,
                s.0,
                loss,
                RoundingMode::NearestTiesToEven,
            )
        }
    } else {
        if delta64 == 0 && bsh == a.get_mantissa() {
            return Float::<EXPONENT, MANTISSA>::zero(false);
        }
        if delta64 == 0 && bsh > a.get_mantissa() {
            let m = bsh - a.get_mantissa();
            return Float::<EXPONENT, MANTISSA>::normalize(
                b.get_sign(),
                ea,
                m,
                LossFraction::ExactlyZero,
                RoundingMode::NearestTiesToEven,
            );
        }
        if frac == 0 {
            proof {
                if delta64 >= 1 && delta64 <= 127 {
                    lemma_sub_bounds(a.mantissa, b.mantissa, delta64 as u64);
                }
            }
            let m = a.get_mantissa() - bsh;
            return Float::<EXPONENT, MANTISSA>::normalize(
                a.get_sign(),
                ea,
                m,
                LossFraction::ExactlyZero,
                RoundingMode::NearestTiesToEven,
            );
        }
        proof {
            let d = Float::<EXPONENT, MANTISSA>::frac_shift();
            if 1 <= delta64 <= 127 {
                lemma_sub_bounds(a.mantissa, b.mantissa, delta64 as u64);
                if delta64 <= d {
                    lemma_frac_zero_small_delta(b.mantissa, d, delta64 as u64);
                }
            }
        }
        let borrow: u128 = 1;
        let lo: u128 = 0u128.wrapping_sub(frac);
        let hi: u128 = a.get_mantissa() - bsh - borrow;
        if hi >= 1u128 << 127 {
            let loss = classify_loss(lo, 1u128 << 127, LossFraction::ExactlyZero);
            Float::<EXPONENT, MANTISSA>::normalize(
                a.get_sign(),
                ea,
                hi,
                loss,
                RoundingMode::NearestTiesToEven,
            )
        } else {
            proof {
                let h_ = hi;
                let l_ = lo;
                assert(((h_ << 1u128) | (l_ >> 127u128)) >= (1u128 << 127)) by (bit_vector)
                    requires
                        h_ >= 0x40000000000000000000000000000000u128,
                        h_ < 0x80000000000000000000000000000000u128,
                ;
            }
            let m: u128 = (hi << 1) | (lo >> 127);
            let l2: u128 = lo << 1;
            let loss = classify_loss(l2, 1u128 << 127, LossFraction::ExactlyZero);
            Float::<EXPONENT, MANTISSA>::normalize(
                a.get_sign(),
                ea - 1,
                m,
                loss,
                RoundingMode::NearestTiesToEven,
            )
        }
    }
}

/// After a carry out of the top bit, folding the carry back in as the new
/// implicit bit keeps the word's top bit set.
proof fn lemma_carry_top(s: u128)
    by (bit_vector)
    ensures
        (1u128 << 127) | (s >> 1u128) >= (1u128 << 127),
{
}

/// One restoring-division step is safe: the remainder's top bit is a
/// single bit, a clear top bit makes the doubling exact, and a set top
/// bit always subtracts the divisor and stays under it.
proof fn lemma_div_step_facts(r_: u128, b_: u128)
    by (bit_vector)
    ensures
        r_ >> 127u128 == 0 || r_ >> 127u128 == 1,
        r_ >> 127u128 == 0 ==> (r_ << 1u128) == r_ * 2,
        (r_ >> 127u128 == 1 && r_ < b_ && b_ >= (1u128 << 127)) ==> ((r_ << 1u128)
            <= u128::MAX - ((u128::MAX - b_) + 1) && (r_ << 1u128) + ((u128::MAX - b_) + 1)
            < b_),
{
}

/// The powers of two that the operator proofs compare against, as plain
/// literals.
pub proof fn lemma_pow_consts()
    by (bit_vector)
    ensures
        (1u128 << 127) == 0x80000000000000000000000000000000u128,
        (1u128 << 126) == 0x40000000000000000000000000000000u128,
{
}

/// A shift no longer than the clear low field drops nothing.
proof fn lemma_frac_zero_small_delta(bm: u128, d: u64, delta: u64)
    by (bit_vector)
    requires
        d <= 127,
        1 <= delta,
        delta <= d,
        (bm >> d) << d == bm,
    ensures
        bm << ((128 - delta) as u64) == 0,
{
}

/// In the borrowing subtraction the minuend dominates: with an alignment
/// shift of at least one, the shifted subtrahend stays under half the word
/// and the difference keeps a margin above a quarter when bits fell off.
proof fn lemma_sub_bounds(am: u128, bm: u128, delta: u64)
    by (bit_vector)
    requires
        am >= (1u128 << 127),
        1 <= delta,
    ensures
        delta <= 127 ==> (bm >> delta) < (1u128 << 127),
        delta >= 2 && delta <= 127 ==> (bm >> delta) <= (1u128 << 126) - 1,
{
}

} // verus!
