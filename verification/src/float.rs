//! The floating-point representation: a (sign, exponent, mantissa) triple,
//! generic over the exponent-field width and the mantissa-field width, with
//! the normalization/rounding engine that brings raw results into canonical
//! IEEE-754-style form.

use crate::bigint::LossFraction;
use crate::bigint::classify_loss;
use crate::bigint::shr128_loss;
use crate::utils::next_msb;
use crate::utils::next_msb128;
use vstd::prelude::*;

verus! {

/// The direction in which a result that cannot be represented exactly is
/// rounded.
#[derive(Debug, Clone, Copy, PartialEq, Eq, Structural)]
pub enum RoundingMode {
    /// Round to the nearest representable value; ties go to the value with
    /// an even least significant mantissa bit.
    NearestTiesToEven,
    /// Round toward zero: never round up in magnitude.
    Zero,
    /// Round toward positive infinity.
    Positive,
    /// Round toward negative infinity.
    Negative,
}

/// The sticky classification of a value as zero, an ordinary number, an
/// infinity, or not-a-number. Exactly one holds at any time; it is derived
/// from the exponent field and the mantissa.
#[derive(Debug, Clone, Copy, PartialEq, Eq, Structural)]
pub enum Category {
    /// A signed zero.
    Zero,
    /// A normal or subnormal number.
    Normal,
    /// A signed infinity.
    Infinity,
    /// Not a number.
    NaN,
}

/// A software floating-point value with `EXPONENT` exponent-field bits and
/// `MANTISSA` mantissa-field bits. The mantissa is stored left-aligned in a
/// 128-bit word with an explicit leading-bit slot: bit pattern `1.xxxx...`
/// for normal numbers, `0.xxxx...` for subnormals and zero, whatever the
/// configured precision. The exponent is stored as the biased field value.
#[derive(Debug, Clone, Copy)]
pub struct Float<const EXPONENT: usize, const MANTISSA: usize> {
    /// The sign bit.
    pub sign: bool,
    /// The biased exponent field.
    pub exp: u64,
    /// The significand, including the explicit leading bit, left-aligned.
    pub mantissa: u128,
}

impl<const EXPONENT: usize, const MANTISSA: usize> PartialEq for Float<EXPONENT, MANTISSA> {
    /// Representation equality: the same sign, exponent field, and mantissa.
    fn eq(&self, other: &Self) -> (r: bool) {
        self.sign == other.sign && self.exp == other.exp && self.mantissa == other.mantissa
    }
}

impl<const EXPONENT: usize, const MANTISSA: usize> vstd::std_specs::cmp::PartialEqSpecImpl
    for Float<EXPONENT, MANTISSA> {
    open spec fn obeys_eq_spec() -> bool {
        true
    }

    open spec fn eq_spec(&self, other: &Self) -> bool {
        self.sign == other.sign && self.exp == other.exp && self.mantissa == other.mantissa
    }
}

/// A 16-bit configuration: 5 exponent bits, 10 mantissa bits.
pub type FP16 = Float<5, 10>;

/// A 32-bit configuration: 8 exponent bits, 23 mantissa bits.
pub type FP32 = Float<8, 23>;

/// A 64-bit configuration: 11 exponent bits, 52 mantissa bits.
pub type FP64 = Float<11, 52>;

/// A 128-bit configuration: 15 exponent bits, 112 mantissa bits.
pub type FP128 = Float<15, 112>;

impl<const EXPONENT: usize, const MANTISSA: usize> Float<EXPONENT, MANTISSA> {
    /// The configurations this engine accepts: the exponent field keeps all
    /// derived arithmetic far from machine limits, and the mantissa field
    /// leaves room in the 128-bit word for the explicit leading bit.
    pub open spec fn fmt_ok() -> bool {
        &&& 2 <= EXPONENT <= 20
        &&& 1 <= MANTISSA <= 126
    }

    /// The exponent bias: `2^(EXPONENT-1) - 1`.
    pub open spec fn bias_int() -> int {
        (1u64 << ((EXPONENT - 1) as u64)) - 1
    }

    /// The smallest exponent of a normal number (also used by subnormals).
    pub open spec fn emin_int() -> int {
        1 - Self::bias_int()
    }

    /// The largest representable exponent.
    pub open spec fn emax_int() -> int {
        Self::bias_int()
    }

    /// The all-ones exponent field, reserved for infinities and NaNs.
    pub open spec fn field_mask_int() -> int {
        2 * Self::bias_int() + 1
    }

    /// The number of storage bits below the least mantissa bit.
    pub open spec fn frac_shift() -> u64 {
        (127 - MANTISSA) as u64
    }

    /// Well-formedness: the exponent field is in range and no bits sit
    /// below the configured precision.
    pub open spec fn wf(self) -> bool {
        &&& Self::fmt_ok()
        &&& self.exp <= Self::field_mask_int()
        &&& (self.mantissa >> Self::frac_shift()) << Self::frac_shift() == self.mantissa
    }

    /// Canonical form: a zero exponent field carries no leading bit, any
    /// other field carries one. The normalization engine and the
    /// constructors only produce canonical values.
    pub open spec fn canonical(self) -> bool {
        &&& self.wf()
        &&& (self.exp == 0 ==> self.mantissa < (1u128 << 127))
        &&& (self.exp != 0 ==> self.mantissa >= (1u128 << 127))
    }

    /// The spec-level sign.
    pub open spec fn sign_spec(self) -> bool {
        self.sign
    }

    /// The spec-level biased exponent field.
    pub open spec fn exp_field_spec(self) -> u64 {
        self.exp
    }

    /// The spec-level stored mantissa.
    pub open spec fn mantissa_spec(self) -> u128 {
        self.mantissa
    }

    /// The category derived from the representation.
    pub open spec fn category_spec(self) -> Category {
        if self.exp == Self::field_mask_int() {
            if (self.mantissa << 1u128) == 0 {
                Category::Infinity
            } else {
                Category::NaN
            }
        } else if self.exp == 0 && self.mantissa == 0 {
            Category::Zero
        } else {
            Category::Normal
        }
    }

    /// The canonical zero of the given sign.
    pub open spec fn zero_spec(sign: bool) -> Self {
        Float { sign, exp: 0u64, mantissa: 0u128 }
    }

    /// The canonical infinity of the given sign.
    pub open spec fn inf_spec(sign: bool) -> Self {
        Float { sign, exp: Self::field_mask_int() as u64, mantissa: 1u128 << 127 }
    }

    /// The canonical quiet NaN of the given sign.
    pub open spec fn nan_spec(sign: bool) -> Self {
        Float {
            sign,
            exp: Self::field_mask_int() as u64,
            mantissa: (1u128 << 127) | (1u128 << 126),
        }
    }

    /// Bounds on the powers of two that the bias arithmetic uses.
    pub proof fn lemma_bias_bounds()
        requires
            Self::fmt_ok(),
        ensures
            2 <= (1u64 << ((EXPONENT - 1) as u64)) <= 0x80000,
            (1u64 << (EXPONENT as u64)) == 2 * (1u64 << ((EXPONENT - 1) as u64)),
            1 <= Self::bias_int() <= 0x7ffff,
            Self::field_mask_int() == (1u64 << (EXPONENT as u64)) - 1,
    {
        let k: u64 = (EXPONENT - 1) as u64;
        assert(1 <= k <= 19 ==> (2 <= (1u64 << k) <= 0x80000 && (1u64 << ((k + 1) as u64))
            == 2 * (1u64 << k))) by (bit_vector);
    }

    /// Returns the bias of this configuration.
    pub fn get_bias() -> (r: u64)
        requires
            Self::fmt_ok(),
        ensures
            r == Self::bias_int(),
    {
        proof {
            Self::lemma_bias_bounds();
        }
        (1u64 << ((EXPONENT - 1) as u64)) - 1
    }

    /// Returns the lower and upper bounds of the biased exponent.
    pub fn get_exp_bounds() -> (r: (i64, i64))
        requires
            Self::fmt_ok(),
        ensures
            r.0 == -Self::bias_int(),
            r.1 == (1u64 << (EXPONENT as u64)) - Self::bias_int(),
            r.1 == Self::bias_int() + 2,
    {
        proof {
            Self::lemma_bias_bounds();
        }
        let bias = Self::get_bias();
        ((0 - (bias as i64)), ((1u64 << (EXPONENT as u64)) as i64 - bias as i64))
    }

    /// Constructs a value from a sign, a biased exponent, and a mantissa in
    /// the left-aligned storage format. The exponent must lie within the
    /// representable bounds of the configuration.
    pub fn new(sign: bool, exp: i64, sig: u128) -> (r: Self)
        requires
            Self::fmt_ok(),
            -Self::bias_int() <= exp <= Self::bias_int() + 1,
            (sig >> Self::frac_shift()) << Self::frac_shift() == sig,
        ensures
            r.sign_spec() == sign,
            r.exp_field_spec() == exp + Self::bias_int(),
            r.mantissa_spec() == sig,
            r.wf(),
    {
        let mut a = Self::raw_default();
        a.set_sign(sign);
        a.set_exp(exp);
        a.set_mantissa(sig);
        a
    }

    /// The all-zero value used as the starting point of the constructors.
    fn raw_default() -> (r: Self)
        requires
            Self::fmt_ok(),
        ensures
            r == Self::zero_spec(false),
            r.wf(),
    {
        let r = Float { sign: false, exp: 0u64, mantissa: 0u128 };
        proof {
            Self::lemma_bias_bounds();
            lemma_mantissa_basics(0u128, Self::frac_shift());
        }
        r
    }

    /// Returns a zero of the given sign.
    pub fn zero(sign: bool) -> (r: Self)
        requires
            Self::fmt_ok(),
        ensures
            r == Self::zero_spec(sign),
            r.canonical(),
            r.category_spec() == Category::Zero,
    {
        let mut a = Self::raw_default();
        a.set_sign(sign);
        a.set_unbiased_exp(0);
        a.set_mantissa(0);
        proof {
            lemma_mantissa_basics(0u128, Self::frac_shift());
            Self::lemma_bias_bounds();
        }
        a
    }

    /// Returns an infinity of the given sign.
    pub fn inf(sign: bool) -> (r: Self)
        requires
            Self::fmt_ok(),
        ensures
            r == Self::inf_spec(sign),
            r.canonical(),
            r.category_spec() == Category::Infinity,
            r.is_inf_spec() && !r.is_nan_spec(),
    {
        proof {
            Self::lemma_bias_bounds();
        }
        let mut a = Self::raw_default();
        a.set_sign(sign);
        a.set_unbiased_exp((1u64 << EXPONENT) - 1);
        proof {
            lemma_mantissa_basics(1u128 << 127, Self::frac_shift());
        }
        a.set_mantissa(1u128 << 127);
        a
    }

    /// Returns a quiet NaN of the given sign.
    pub fn nan(sign: bool) -> (r: Self)
        requires
            Self::fmt_ok(),
        ensures
            r == Self::nan_spec(sign),
            r.canonical(),
            r.category_spec() == Category::NaN,
            r.is_nan_spec() && !r.is_inf_spec(),
    {
        proof {
            Self::lemma_bias_bounds();
        }
        let mut a = Self::raw_default();
        a.set_sign(sign);
        a.set_unbiased_exp((1u64 << EXPONENT) - 1);
        proof {
            lemma_mantissa_basics((1u128 << 127) | (1u128 << 126), Self::frac_shift());
        }
        a.set_mantissa((1u128 << 127) | (1u128 << 126));
        a
    }

    /// True when the exponent field is the all-ones pattern reserved for
    /// infinities and NaNs.
    pub fn in_special_exp(&self) -> (r: bool)
        requires
            Self::fmt_ok(),
        ensures
            r == (self.exp_field_spec() == Self::field_mask_int()),
    {
        proof {
            Self::lemma_bias_bounds();
        }
        self.exp == (1u64 << EXPONENT) - 1
    }

    /// True for an infinity of either sign.
    pub open spec fn is_inf_spec(self) -> bool {
        self.category_spec() == Category::Infinity
    }

    /// True for a NaN of either sign.
    pub open spec fn is_nan_spec(self) -> bool {
        self.category_spec() == Category::NaN
    }

    /// True for a zero of either sign.
    pub open spec fn is_zero_spec(self) -> bool {
        self.category_spec() == Category::Zero
    }

    /// True when the value is negative.
    pub fn is_negative(&self) -> (r: bool)
        ensures
            r == self.sign_spec(),
    {
        self.sign
    }

    /// True for a positive or negative infinity.
    pub fn is_inf(&self) -> (r: bool)
        requires
            Self::fmt_ok(),
        ensures
            r == self.is_inf_spec(),
    {
        self.in_special_exp() && self.get_frac_mantissa() == 0
    }

    /// True for a positive or negative NaN.
    pub fn is_nan(&self) -> (r: bool)
        requires
            Self::fmt_ok(),
        ensures
            r == self.is_nan_spec(),
    {
        self.in_special_exp() && self.get_frac_mantissa() != 0
    }

    /// True for a positive or negative zero.
    pub fn is_zero(&self) -> (r: bool)
        requires
            Self::fmt_ok(),
        ensures
            r == self.is_zero_spec(),
    {
        proof {
            Self::lemma_bias_bounds();
            lemma_mantissa_basics(self.mantissa, Self::frac_shift());
        }
        self.exp == 0 && self.mantissa == 0
    }

    /// True when the exponent field is not the subnormal/zero encoding.
    pub fn is_normal(&self) -> (r: bool)
        ensures
            r == (self.exp_field_spec() != 0),
    {
        self.exp != 0
    }

    /// Returns the sign bit.
    pub fn get_sign(&self) -> (r: bool)
        ensures
            r == self.sign_spec(),
    {
        self.sign
    }

    /// Sets the sign to `s`.
    pub fn set_sign(&mut self, s: bool)
        ensures
            final(self).sign_spec() == s,
            final(self).exp_field_spec() == old(self).exp_field_spec(),
            final(self).mantissa_spec() == old(self).mantissa_spec(),
            old(self).wf() ==> final(self).wf(),
            old(self).canonical() ==> final(self).canonical(),
    {
        self.sign = s;
    }

    /// Returns the mantissa (including the explicit leading bit), with any
    /// bits below the configured precision cleared, so that a read never
    /// increases the accuracy of the number.
    pub fn get_mantissa(&self) -> (r: u128)
        requires
            Self::fmt_ok(),
        ensures
            r == (self.mantissa_spec() >> Self::frac_shift()) << Self::frac_shift(),
            self.wf() ==> r == self.mantissa_spec(),
    {
        let unused_bits: u64 = (127 - MANTISSA as u64) + 1 - 1;
        (self.mantissa >> unused_bits) << unused_bits
    }

    /// Returns the fractional part of the mantissa, without the leading
    /// integer bit: `[(0/1).xxxxxx]` becomes `[xxxxxx0]`.
    pub fn get_frac_mantissa(&self) -> (r: u128)
        ensures
            r == self.mantissa_spec() << 1u128,
    {
        self.mantissa << 1
    }

    /// Sets the mantissa to `sg` (including the explicit leading bit). A
    /// mantissa with bits below the configured precision is a caller
    /// defect and is excluded by contract; the storage mask makes the
    /// defect harmless for unverified callers.
    pub fn set_mantissa(&mut self, sg: u128)
        requires
            Self::fmt_ok(),
            (sg >> Self::frac_shift()) << Self::frac_shift() == sg,
        ensures
            final(self).mantissa_spec() == sg,
            final(self).sign_spec() == old(self).sign_spec(),
            final(self).exp_field_spec() == old(self).exp_field_spec(),
            old(self).exp_field_spec() <= Self::field_mask_int() ==> final(self).wf(),
    {
        let d: u64 = 127 - MANTISSA as u64;
        self.mantissa = (sg >> d) << d;
        proof {
            lemma_mantissa_basics(sg, d);
        }
    }

    /// Returns the raw (biased) exponent field.
    pub fn get_unbiased_exp(&self) -> (r: u64)
        ensures
            r == self.exp_field_spec(),
    {
        self.exp
    }

    /// Returns the exponent with the bias removed.
    pub fn get_exp(&self) -> (r: i64)
        requires
            Self::fmt_ok(),
            self.exp_field_spec() <= Self::field_mask_int(),
        ensures
            r == self.exp_field_spec() - Self::bias_int(),
    {
        proof {
            Self::lemma_bias_bounds();
        }
        self.exp as i64 - Self::get_bias() as i64
    }

    /// Sets the exponent to `new_exp`, given without the bias. The value
    /// must lie within the representable bounds of the configuration.
    pub fn set_exp(&mut self, new_exp: i64)
        requires
            Self::fmt_ok(),
            -Self::bias_int() <= new_exp <= Self::bias_int() + 1,
        ensures
            final(self).exp_field_spec() == new_exp + Self::bias_int(),
            final(self).sign_spec() == old(self).sign_spec(),
            final(self).mantissa_spec() == old(self).mantissa_spec(),
    {
        proof {
            Self::lemma_bias_bounds();
        }
        let bias = Self::get_bias();
        self.exp = (new_exp + bias as i64) as u64;
    }

    /// Sets the raw (biased) exponent field to `new_exp`, which must lie
    /// within the field's range.
    pub fn set_unbiased_exp(&mut self, new_exp: u64)
        requires
            Self::fmt_ok(),
            new_exp <= Self::field_mask_int(),
        ensures
            final(self).exp_field_spec() == new_exp,
            final(self).sign_spec() == old(self).sign_spec(),
            final(self).mantissa_spec() == old(self).mantissa_spec(),
    {
        self.exp = new_exp;
    }

    /// The mantissa aligned so that its leading set bit reaches the
    /// explicit-bit position.
    pub open spec fn norm_shifted(m: u128) -> u128 {
        m << (((128 - crate::utils::msb128_spec(m)) as u64) as u64)
    }

    /// True when no significant bit sits below the configured precision.
    pub open spec fn trailing_ok(m: u128) -> bool {
        (m >> Self::frac_shift()) << Self::frac_shift() == m
    }

    /// Whether the rounding mode rounds up in magnitude, given the loss
    /// classification and the least retained mantissa bit.
    pub open spec fn round_up_spec(rm: RoundingMode, sign: bool, l2: LossFraction, lsb: bool) -> bool {
        match rm {
            RoundingMode::NearestTiesToEven => l2 == LossFraction::MoreThanHalf || (l2
                == LossFraction::ExactlyHalf && lsb),
            RoundingMode::Zero => false,
            RoundingMode::Positive => !sign && l2 != LossFraction::ExactlyZero,
            RoundingMode::Negative => sign && l2 != LossFraction::ExactlyZero,
        }
    }

    /// The truncation, rounding and encoding stage of normalization, after
    /// the mantissa has been aligned and the exponent clamped to at least
    /// the minimum: the bits below the configured precision are classified
    /// against the rounding mode, one unit in the last place is added on a
    /// round-up, a carry out of the top bit raises the exponent and can
    /// overflow to infinity, and the exponent field is encoded as zero for
    /// a subnormal result.
    pub open spec fn round_encode_spec(
        sign: bool,
        e: int,
        m: u128,
        loss: LossFraction,
        rm: RoundingMode,
    ) -> Self {
        let d = Self::frac_shift();
        let kept = (m >> d) << d;
        let dv = (m - kept) as u128;
        let l2 = crate::bigint::classify_loss_spec(dv, 1u128 << ((d - 1) as u64), loss);
        let lsb = ((m >> d) & 1) == 1;
        let up = Self::round_up_spec(rm, sign, l2, lsb);
        let carry = up && kept > u128::MAX - (1u128 << d);
        let mf = if carry {
            1u128 << 127
        } else if up {
            (kept + (1u128 << d)) as u128
        } else {
            kept
        };
        let ef = if carry {
            e + 1
        } else {
            e
        };
        if carry && ef > Self::emax_int() {
            Self::inf_spec(sign)
        } else if mf == 0 {
            Self::zero_spec(sign)
        } else {
            Float {
                sign,
                exp: if mf >= (1u128 << 127) {
                    (ef + Self::bias_int()) as u64
                } else {
                    0u64
                },
                mantissa: mf,
            }
        }
    }

    /// The full normalization function: zero stays zero, the mantissa is
    /// aligned left as far as the exponent range allows (shifting right
    /// with an accumulated loss when the exponent starts below the
    /// minimum), an exponent above the maximum is an infinity, and the
    /// aligned value is rounded and encoded.
    pub open spec fn normalize_spec(
        sign: bool,
        e0: int,
        m0: u128,
        loss0: LossFraction,
        rm: RoundingMode,
    ) -> Self {
        if m0 == 0 {
            Self::zero_spec(sign)
        } else {
            let lz = 128 - crate::utils::msb128_spec(m0);
            if e0 - lz >= Self::emin_int() {
                if e0 - lz > Self::emax_int() {
                    Self::inf_spec(sign)
                } else {
                    Self::round_encode_spec(sign, e0 - lz, Self::norm_shifted(m0), loss0, rm)
                }
            } else if e0 >= Self::emin_int() {
                Self::round_encode_spec(
                    sign,
                    Self::emin_int(),
                    m0 << (((e0 - Self::emin_int()) as u64) as u64),
                    loss0,
                    rm,
                )
            } else {
                Self::round_encode_spec(
                    sign,
                    Self::emin_int(),
                    crate::bigint::shr128_val(m0, (Self::emin_int() - e0) as u64),
                    crate::bigint::shr128_lost(m0, (Self::emin_int() - e0) as u64, loss0),
                    rm,
                )
            }
        }
    }

    /// Brings a raw (sign, exponent, mantissa) triple into canonical
    /// representable form under the selected rounding mode. The exponent is
    /// the unbiased exponent of the explicit-bit position; `loss` classifies
    /// whatever was already discarded below the mantissa's lowest stored
    /// bit. Overflow becomes an infinity, underflow a subnormal or a zero;
    /// the result is never a NaN, and an exact in-range input is
    /// reproduced without change. The result is exactly the value of
    /// `normalize_spec` on the same arguments.
    pub fn normalize(sign: bool, e0: i64, m0: u128, loss0: LossFraction, rm: RoundingMode) -> (r:
        Self)
        requires
            Self::fmt_ok(),
            -0x10000000000 <= e0 <= 0x10000000000,
            m0 == 0 ==> loss0 == LossFraction::ExactlyZero,
            loss0 != LossFraction::ExactlyZero ==> m0 >= (1u128 << 127),
        ensures
            r == Self::normalize_spec(sign, e0 as int, m0, loss0, rm),
            r.canonical(),
            !r.is_nan_spec(),
            r.sign_spec() == sign,
            m0 == 0 ==> r == Self::zero_spec(sign),
            m0 != 0 && e0 - (128 - crate::utils::msb128_spec(m0)) > Self::emax_int() ==> r
                == Self::inf_spec(sign),
            m0 != 0 && loss0 == LossFraction::ExactlyZero && Self::emin_int() <= e0 - (128
                - crate::utils::msb128_spec(m0)) <= Self::emax_int() && Self::trailing_ok(
                Self::norm_shifted(m0)) ==> r == (Float::<EXPONENT, MANTISSA> {
                sign,
                exp: (e0 - (128 - crate::utils::msb128_spec(m0)) + Self::bias_int()) as u64,
                mantissa: Self::norm_shifted(m0),
            }),
            m0 != 0 && loss0 == LossFraction::ExactlyZero && e0 - (128
                - crate::utils::msb128_spec(m0)) < Self::emin_int() && e0 >= Self::emin_int()
                && Self::trailing_ok(m0 << (((e0 - Self::emin_int()) as u64) as u64)) ==> r
                == (Float::<EXPONENT, MANTISSA> {
                sign,
                exp: 0u64,
                mantissa: m0 << (((e0 - Self::emin_int()) as u64) as u64),
            }),
            m0 != 0 && loss0 == LossFraction::ExactlyZero && e0 < Self::emin_int()
                && Self::emin_int() - e0 <= 127 && (m0 >> (((Self::emin_int() - e0) as u64) as u64))
                << (((Self::emin_int() - e0) as u64) as u64) == m0 && Self::trailing_ok(m0 >> (((
            Self::emin_int() - e0) as u64) as u64)) ==> r == (Float::<EXPONENT, MANTISSA> {
                sign,
                exp: 0u64,
                mantissa: m0 >> (((Self::emin_int() - e0) as u64) as u64),
            }),
    {
        if m0 == 0 {
            return Self::zero(sign);
        }
        proof {
            Self::lemma_bias_bounds();
        }
        let bias_e = Self::get_bias() as i64;
        let emin: i64 = 1 - bias_e;
        let emax: i64 = bias_e;
        let n = next_msb128(m0);
        let lz: u64 = 128 - n;
        let ghost k: u64 = (n - 1) as u64;
        let mut e: i64;
        let mut m: u128;
        let mut loss = loss0;
        if e0 - (lz as i64) >= emin {
            proof {
                lemma_norm_shift(m0, k, lz);
            }
            m = m0 << lz;
            e = e0 - lz as i64;
        } else if e0 >= emin {
            let s: u64 = (e0 - emin) as u64;
            proof {
                lemma_shl_small(m0, k, s);
            }
            m = m0 << s;
            e = emin;
        } else {
            let s2: u64 = (emin - e0) as u64;
            let pr = shr128_loss(m0, s2, loss0);
            proof {
                if s2 <= 127 {
                    lemma_shr_clears_top(m0, s2);
                    lemma_trunc(m0, s2);
                }
            }
            m = pr.0;
            loss = pr.1;
            e = emin;
        }
        if e > emax {
            return Self::inf(sign);
        }
        let d: u64 = 127 - MANTISSA as u64;
        proof {
            lemma_trunc(m, d);
        }
        let kept: u128 = (m >> d) << d;
        let dv: u128 = m - kept;
        let half: u128 = 1u128 << (d - 1);
        let l2 = classify_loss(dv, half, loss);
        let lsb: bool = ((m >> d) & 1) == 1;
        let round_up: bool = match rm {
            RoundingMode::NearestTiesToEven => l2 == LossFraction::MoreThanHalf || (l2
                == LossFraction::ExactlyHalf && lsb),
            RoundingMode::Zero => false,
            RoundingMode::Positive => !sign && l2 != LossFraction::ExactlyZero,
            RoundingMode::Negative => sign && l2 != LossFraction::ExactlyZero,
        };
        let mut mf: u128 = kept;
        let mut ef: i64 = e;
        if round_up {
            if kept > u128::MAX - (1u128 << d) {
                mf = 1u128 << 127;
                ef = e + 1;
                if ef > emax {
                    return Self::inf(sign);
                }
                proof {
                    lemma_mantissa_basics(1u128 << 127, d);
                }
            } else {
                mf = kept + (1u128 << d);
                proof {
                    lemma_round_add(kept, d);
                }
            }
        }
        if mf == 0 {
            return Self::zero(sign);
        }
        let field: u64 = if mf >= (1u128 << 127) {
            (ef + bias_e) as u64
        } else {
            0
        };
        Float { sign, exp: field, mantissa: mf }
    }

    /// The value of an unsigned integer: zero stays zero; otherwise the
    /// integer is left-aligned in the wide word and normalized under
    /// round-to-nearest-ties-to-even, which pins every rounding and
    /// overflow outcome.
    pub open spec fn from_u64_spec(val: u64) -> Self {
        if val == 0 {
            Self::zero_spec(false)
        } else {
            Self::normalize_spec(
                false,
                63 - vstd::std_specs::bits::u64_leading_zeros(val),
                (val as u128) << (((64 + vstd::std_specs::bits::u64_leading_zeros(
                    val,
                )) as u64) as u64),
                LossFraction::ExactlyZero,
                RoundingMode::NearestTiesToEven,
            )
        }
    }

    /// The value of a signed integer: the magnitude converted as an
    /// unsigned integer, with the sign put back.
    pub open spec fn from_i64_spec(val: i64) -> Self {
        if val < 0 {
            Float {
                sign: true,
                exp: Self::from_u64_spec((-val) as u64).exp,
                mantissa: Self::from_u64_spec((-val) as u64).mantissa,
            }
        } else {
            Self::from_u64_spec(val as u64)
        }
    }

    /// Constructs the value of an unsigned 64-bit integer, rounding to
    /// nearest-even when the integer has more significant bits than the
    /// mantissa holds, and overflowing to infinity when it exceeds the
    /// representable exponent range.
    pub fn from_u64(val: u64) -> (r: Self)
        requires
            Self::fmt_ok(),
        ensures
            r == Self::from_u64_spec(val),
            r.canonical(),
            !r.is_nan_spec(),
            r.sign_spec() == false,
            val == 0 ==> r == Self::zero_spec(false),
            val != 0 && 64 - vstd::std_specs::bits::u64_leading_zeros(val) <= MANTISSA + 1 && 63
                - vstd::std_specs::bits::u64_leading_zeros(val) <= Self::emax_int() ==> r
                == (Float::<EXPONENT, MANTISSA> {
                sign: false,
                exp: (63 - vstd::std_specs::bits::u64_leading_zeros(val)
                    + Self::bias_int()) as u64,
                mantissa: (val as u128) << (((64 + vstd::std_specs::bits::u64_leading_zeros(
                    val,
                )) as u64) as u64),
            }),
            val != 0 && 63 - vstd::std_specs::bits::u64_leading_zeros(val) > Self::emax_int()
                ==> r == Self::inf_spec(false),
    {
        if val == 0 {
            return Self::zero(false);
        }
        let n = next_msb(val);
        let sh: u64 = 128 - n;
        let m: u128 = (val as u128) << sh;
        proof {
            Self::lemma_bias_bounds();
            lemma_widen_shift(val, (n - 1) as u64, sh);
            lemma_msb_full(m);
            lemma_mantissa_basics(m, Self::frac_shift());
            let d = Self::frac_shift();
            if n + d <= 128 {
                lemma_from_u64_trailing(val, n, sh, d);
            }
        }
        Self::normalize(
            false,
            (n as i64) - 1,
            m,
            LossFraction::ExactlyZero,
            RoundingMode::NearestTiesToEven,
        )
    }

    /// The magnitude of a signed 64-bit integer other than the smallest.
    pub open spec fn abs_i64(v: i64) -> u64 {
        if v < 0 {
            (-v) as u64
        } else {
            v as u64
        }
    }

    /// Constructs the value of a signed 64-bit integer: the magnitude is
    /// converted as an unsigned integer and the sign is put back.
    pub fn from_i64(val: i64) -> (r: Self)
        requires
            Self::fmt_ok(),
            val != i64::MIN,
        ensures
            r == Self::from_i64_spec(val),
            r.canonical(),
            !r.is_nan_spec(),
            val == 0 ==> r == Self::zero_spec(false),
            val != 0 ==> r.sign_spec() == (val < 0),
            val != 0 && 64 - vstd::std_specs::bits::u64_leading_zeros(Self::abs_i64(val))
                <= MANTISSA + 1 && 63 - vstd::std_specs::bits::u64_leading_zeros(Self::abs_i64(val))
                <= Self::emax_int() ==> r == (Float::<EXPONENT, MANTISSA> {
                sign: val < 0,
                exp: (63 - vstd::std_specs::bits::u64_leading_zeros(Self::abs_i64(val))
                    + Self::bias_int()) as u64,
                mantissa: (Self::abs_i64(val) as u128) << (((64
                    + vstd::std_specs::bits::u64_leading_zeros(Self::abs_i64(val))) as u64) as u64),
            }),
            val != 0 && 63 - vstd::std_specs::bits::u64_leading_zeros(Self::abs_i64(val))
                > Self::emax_int() ==> r == Self::inf_spec(val < 0),
    {
        if val < 0 {
            let mut a = Self::from_u64((-val) as u64);
            a.set_sign(true);
            return a;
        }
        Self::from_u64(val as u64)
    }
}


/// Basic facts about the special mantissa patterns and the storage mask:
/// the zero, lone-top-bit and quiet-NaN words survive the mask, the mask
/// is idempotent, and shifts by zero change nothing.
pub proof fn lemma_mantissa_basics(m: u128, d: u64)
    by (bit_vector)
    requires
        d <= 127,
    ensures
        (0u128 >> d) << d == 0u128,
        0u128 < (1u128 << 127),
        (0u128 << 1u128) == 0u128,
        ((1u128 << 127) >> d) << d == (1u128 << 127),
        ((1u128 << 127) << 1u128) == 0,
        d <= 126 ==> ((((1u128 << 127) | (1u128 << 126)) >> d) << d == ((1u128 << 127) | (1u128
            << 126)) && ((((1u128 << 127) | (1u128 << 126))) << 1u128 != 0) && (((1u128 << 127)
            | (1u128 << 126)) >= (1u128 << 127))),
        m == 0 ==> m << 1u128 == 0,
        (m << 1u128 == 0 && m >= (1u128 << 127)) ==> m == (1u128 << 127),
        m << 0u64 == m,
        m >> 0u64 == m,
        (((m >> d) << d) >> d) << d == (m >> d) << d,
{
}

/// Shifting a value so that its most significant set bit (at position `k`)
/// reaches the top of the word keeps the value intact and sets the top bit.
pub proof fn lemma_norm_shift(m: u128, k: u64, l: u64)
    by (bit_vector)
    requires
        k <= 127,
        l == 127 - k,
        m >> k == 1,
    ensures
        (m << l) >> l == m,
        m << l >= (1u128 << 127),
        m >= 1,
{
}

/// A left shift that stops short of the top bit keeps the value intact and
/// leaves the top bit clear.
pub proof fn lemma_shl_small(m: u128, k: u64, s: u64)
    by (bit_vector)
    requires
        k <= 127,
        m >> k == 1,
        s + k <= 126,
    ensures
        (m << s) >> s == m,
        m << s < (1u128 << 127),
        m << s >= 1,
{
}

/// A right shift by at least one bit clears the top bit.
proof fn lemma_shr_clears_top(m: u128, s: u64)
    by (bit_vector)
    requires
        1 <= s <= 127,
    ensures
        m >> s < (1u128 << 127),
{
}

/// Truncating the bits below position `d` splits the word into a kept part
/// with a clear low field and a remainder smaller than one unit.
#[verifier::rlimit(100)]
pub proof fn lemma_trunc(m: u128, d: u64)
    by (bit_vector)
    requires
        d <= 127,
    ensures
        (m >> d) << d <= m,
        (((m >> d) << d) >> d) << d == (m >> d) << d,
        ((m >> d) << d) + (m & (((1u128 << d) - 1) as u128)) == m,
        m - ((m >> d) << d) < (1u128 << d),
        ((m >> d) << d >= (1u128 << 127)) == (m >= (1u128 << 127)),
        1u128 << d >= 1,
        d >= 1 ==> (1u128 << d) == 2 * (1u128 << ((d - 1) as u64)),
{
}

/// Adding one unit in the last place to a truncated word keeps the low
/// field clear and never lowers the top bit.
proof fn lemma_round_add(m: u128, d: u64)
    by (bit_vector)
    requires
        d <= 127,
        (m >> d) << d == m,
        m <= u128::MAX - (1u128 << d),
    ensures
        ((((m + (1u128 << d)) as u128) >> d) << d) == (m + (1u128 << d)) as u128,
        m >= (1u128 << 127) ==> (m + (1u128 << d)) as u128 >= (1u128 << 127),
        (m + (1u128 << d)) as u128 >= 1,
{
}

/// Widening a 64-bit value and shifting its most significant set bit to the
/// top of the 128-bit word.
proof fn lemma_widen_shift(val: u64, k: u64, sh: u64)
    by (bit_vector)
    requires
        k <= 63,
        val >> k == 1,
        sh == 127 - k,
    ensures
        ((val as u128) << sh) >= (1u128 << 127),
        ((val as u128) << sh) >> sh == val as u128,
        ((val as u128) << sh) != 0,
{
}

/// A word with its top bit set has its most significant digit at the top.
pub proof fn lemma_msb_full(m: u128)
    requires
        m >= (1u128 << 127),
    ensures
        crate::utils::msb128_spec(m) == 128,
{
    let h: u64 = (m >> 64u128) as u64;
    assert(m >= (1u128 << 127) ==> ((m >> 64u128) as u64 >= 0x8000000000000000u64 && (m
        >> 64u128) != 0)) by (bit_vector);
    vstd::std_specs::bits::axiom_u64_leading_zeros(h);
    let lz = vstd::std_specs::bits::u64_leading_zeros(h);
    if lz >= 1 {
        let j: u64 = (64 - lz) as u64;
        assert(!(h >= 0x8000000000000000u64 && j <= 63 && h >> j == 0)) by (bit_vector);
    }
}

/// The aligned image of an integer has a clear low field exactly when the
/// integer's significant bits fit above it.
proof fn lemma_from_u64_trailing(val: u64, n: u64, sh: u64, d: u64)
    by (bit_vector)
    requires
        1 <= n <= 64,
        val >> ((n - 1) as u64) == 1,
        sh == 128 - n,
        d <= 127,
        n + d <= 128,
    ensures
        ((((val as u128) << sh) >> d) << d) == ((val as u128) << sh),
{
}

} // verus!
