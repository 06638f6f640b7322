//! The native conversion layer: bit-exact decoding and encoding of IEEE-754
//! bit patterns under an explicit (exponent-width, mantissa-width)
//! configuration, and re-casting between two differently-configured floats.

use crate::bigint::LossFraction;
use crate::float::Category;
use crate::float::Float;
use crate::float::RoundingMode;
use vstd::prelude::*;

verus! {

impl<const EXPONENT: usize, const MANTISSA: usize> Float<EXPONENT, MANTISSA> {
    /// The decoding of a raw bit pattern: sign bit on top, then the biased
    /// exponent field, then the mantissa field. A nonzero exponent field
    /// carries the implicit leading bit; the all-ones field keeps its
    /// payload, so infinities and NaNs decode with their bits intact.
    pub open spec fn from_bits_spec(b: u64) -> Self {
        Float {
            sign: ((b >> ((EXPONENT + MANTISSA) as u64)) & 1) == 1,
            exp: (b >> (MANTISSA as u64)) & (((1u64 << (EXPONENT as u64)) - 1) as u64),
            mantissa: (if ((b >> (MANTISSA as u64)) & (((1u64 << (EXPONENT as u64))
                - 1) as u64)) != 0 {
                1u128 << 127
            } else {
                0u128
            }) | (((b & (((1u64 << (MANTISSA as u64)) - 1) as u64)) as u128)
                << Self::frac_shift()),
        }
    }

    /// The encoding of a value as a raw bit pattern: the inverse of
    /// `from_bits_spec` on representable patterns. A subnormal encodes with
    /// a zero exponent field because that is how it is stored; the explicit
    /// leading bit is dropped by the mantissa-field mask.
    pub open spec fn to_bits_spec(x: Self) -> u64 {
        ((if x.sign {
            1u64
        } else {
            0u64
        }) << ((EXPONENT + MANTISSA) as u64)) | ((x.exp as u64) << (MANTISSA as u64)) | (((
        x.mantissa >> Self::frac_shift()) as u64) & (((1u64 << (MANTISSA as u64)) - 1) as u64))
    }

    /// Returns the category of this value, derived from the representation.
    pub fn get_category(&self) -> (c: Category)
        requires
            Self::fmt_ok(),
        ensures
            c == self.category_spec(),
    {
        if self.in_special_exp() {
            if self.get_frac_mantissa() == 0 {
                Category::Infinity
            } else {
                Category::NaN
            }
        } else if self.is_zero() {
            Category::Zero
        } else {
            Category::Normal
        }
    }

    /// Decodes a native-format bit pattern into the internal
    /// representation: an all-ones exponent field with a zero mantissa is
    /// an infinity, with a nonzero mantissa a NaN; a zero exponent field is
    /// a zero or a subnormal without the implicit leading bit; anything
    /// else is a normal number with the implicit leading bit set.
    pub fn from_bits(float: u64) -> (r: Self)
        requires
            Self::fmt_ok(),
            EXPONENT + MANTISSA <= 63,
        ensures
            r == Self::from_bits_spec(float),
            r.canonical(),
    {
        proof {
            Self::lemma_bias_bounds();
            let mm: u64 = MANTISSA as u64;
            assert(1u64 << mm >= 1 && (float & (((1u64 << mm) - 1) as u64)) <= ((1u64 << mm)
                - 1) as u64) by (bit_vector)
                requires mm <= 63,
            ;
        }
        let biased_exp: u64 = (float >> MANTISSA) & ((1u64 << EXPONENT) - 1);
        let sign: u64 = (float >> (EXPONENT + MANTISSA)) & 1;
        let payload: u64 = float & ((1u64 << MANTISSA) - 1);
        let d: u64 = 127 - MANTISSA as u64;
        let leading: u128 = if biased_exp != 0 {
            1u128 << 127
        } else {
            0
        };
        let mantissa: u128 = leading | ((payload as u128) << d);
        proof {
            let em: u64 = EXPONENT as u64;
            let mm: u64 = MANTISSA as u64;
            assert((float >> mm) & (((1u64 << em) - 1) as u64) <= ((1u64 << em)
                - 1) as u64) by (bit_vector)
                requires em <= 20,
            ;
            lemma_decoded_mantissa_wf(float & (((1u64 << mm) - 1) as u64), mm, d, leading);
        }
        Float { sign: sign == 1, exp: biased_exp, mantissa }
    }

    /// Encodes this value as a native-format bit pattern: the inverse of
    /// `from_bits`. An infinity leaves a zero mantissa field, a NaN keeps
    /// its payload, a subnormal gets the zero exponent field, and a normal
    /// number drops the implicit leading bit and keeps its fraction.
    pub fn as_native_float(&self) -> (bits: u64)
        requires
            Self::fmt_ok(),
            EXPONENT + MANTISSA <= 63,
        ensures
            bits == Self::to_bits_spec(*self),
    {
        proof {
            let mm: u64 = MANTISSA as u64;
            assert(1u64 << mm >= 1) by (bit_vector)
                requires mm <= 63,
            ;
        }
        let d: u64 = 127 - MANTISSA as u64;
        let frac: u64 = ((self.mantissa >> d) as u64) & ((1u64 << MANTISSA) - 1);
        let sbit: u64 = if self.get_sign() {
            1
        } else {
            0
        };
        (sbit << (EXPONENT + MANTISSA)) | (self.get_unbiased_exp() << MANTISSA) | frac
    }

    /// The re-cast of a value into another configuration: zeros and
    /// infinities keep category and sign, a NaN keeps as much payload as
    /// the target holds (falling back to the quiet NaN when none
    /// survives), and an ordinary number re-runs normalization under
    /// ties-to-even, which pins every widening, narrowing-with-rounding,
    /// subnormal and overflow outcome.
    pub open spec fn cast_spec<const E2: usize, const M2: usize>(x: Self) -> Float<E2, M2> {
        if x.category_spec() == Category::Zero {
            Float::<E2, M2>::zero_spec(x.sign)
        } else if x.category_spec() == Category::Infinity {
            Float::<E2, M2>::inf_spec(x.sign)
        } else if x.category_spec() == Category::NaN {
            if ((x.mantissa >> Float::<E2, M2>::frac_shift()) << Float::<E2, M2>::frac_shift())
                << 1u128 == 0 {
                Float::<E2, M2>::nan_spec(x.sign)
            } else {
                Float::<E2, M2> {
                    sign: x.sign,
                    exp: Float::<E2, M2>::field_mask_int() as u64,
                    mantissa: (x.mantissa >> Float::<E2, M2>::frac_shift()) << Float::<
                        E2,
                        M2,
                    >::frac_shift(),
                }
            }
        } else {
            Float::<E2, M2>::normalize_spec(
                x.sign,
                x.eff_exp_spec(),
                x.mantissa,
                LossFraction::ExactlyZero,
                RoundingMode::NearestTiesToEven,
            )
        }
    }

    /// Re-casts this value into another configuration by re-deriving the
    /// exponent and re-running normalization, which rounds when the target
    /// is narrower and is exact when it is wider. Infinities, NaNs and
    /// zeros keep their category and sign; a NaN keeps as much of its
    /// payload as the target precision holds.
    pub fn cast<const E2: usize, const M2: usize>(&self) -> (r: Float<E2, M2>)
        requires
            Self::fmt_ok(),
            Float::<E2, M2>::fmt_ok(),
            self.canonical(),
        ensures
            r == Self::cast_spec::<E2, M2>(*self),
            r.canonical(),
            r.sign_spec() == self.sign_spec(),
            self.is_zero_spec() ==> r == Float::<E2, M2>::zero_spec(self.sign_spec()),
            self.is_inf_spec() ==> r == Float::<E2, M2>::inf_spec(self.sign_spec()),
            self.is_nan_spec() ==> r.is_nan_spec(),
            self.is_nan_spec() && ((self.mantissa >> Float::<E2, M2>::frac_shift())
                << Float::<E2, M2>::frac_shift()) << 1u128 != 0 ==> r == (Float::<E2, M2> {
                sign: self.sign,
                exp: Float::<E2, M2>::field_mask_int() as u64,
                mantissa: (self.mantissa >> Float::<E2, M2>::frac_shift()) << Float::<
                    E2,
                    M2,
                >::frac_shift(),
            }),
            self.category_spec() == Category::Normal && self.exp != 0 && Float::<
                E2,
                M2,
            >::emin_int() <= self.exp - Self::bias_int() <= Float::<E2, M2>::emax_int() && (
            self.mantissa >> Float::<E2, M2>::frac_shift()) << Float::<E2, M2>::frac_shift()
                == self.mantissa ==> r == (Float::<E2, M2> {
                sign: self.sign,
                exp: (self.exp - Self::bias_int() + Float::<E2, M2>::bias_int()) as u64,
                mantissa: self.mantissa,
            }),
            self.category_spec() == Category::Normal && self.exp != 0 && self.exp
                - Self::bias_int() > Float::<E2, M2>::emax_int() ==> r == Float::<
                E2,
                M2,
            >::inf_spec(self.sign_spec()),
    {
        proof {
            Self::lemma_bias_bounds();
            Float::<E2, M2>::lemma_bias_bounds();
        }
        let cat = self.get_category();
        match cat {
            Category::Zero => Float::<E2, M2>::zero(self.get_sign()),
            Category::Infinity => Float::<E2, M2>::inf(self.get_sign()),
            Category::NaN => {
                let d2: u64 = 127 - M2 as u64;
                let payload: u128 = (self.get_mantissa() >> d2) << d2;
                proof {
                    lemma_nan_trunc(self.mantissa, d2);
                }
                let f = payload << 1;
                if f == 0 {
                    Float::<E2, M2>::nan(self.get_sign())
                } else {
                    let mut a = Float::<E2, M2>::nan(self.get_sign());
                    a.set_mantissa(payload);
                    a
                }
            },
            Category::Normal => {
                let eff: i64 = if self.is_normal() {
                    self.get_exp()
                } else {
                    1 - (Self::get_bias() as i64)
                };
                proof {
                    if self.exp != 0 {
                        crate::float::lemma_msb_full(self.mantissa);
                        crate::float::lemma_mantissa_basics(
                            self.mantissa,
                            Self::frac_shift(),
                        );
                    }
                }
                Float::<E2, M2>::normalize(
                    self.get_sign(),
                    eff,
                    self.get_mantissa(),
                    LossFraction::ExactlyZero,
                    RoundingMode::NearestTiesToEven,
                )
            },
        }
    }

    /// Round trip through the raw encoding: decoding any representable bit
    /// pattern and encoding it again reproduces the pattern exactly,
    /// NaN payloads included.
    pub proof fn lemma_bits_round_trip(b: u64)
        requires
            Self::fmt_ok(),
            EXPONENT + MANTISSA <= 63,
            b >> ((1 + EXPONENT + MANTISSA) as u64) == 0,
        ensures
            Self::to_bits_spec(Self::from_bits_spec(b)) == b,
    {
        let em: u64 = EXPONENT as u64;
        let mm: u64 = MANTISSA as u64;
        let d: u64 = (127 - MANTISSA) as u64;
        let f: u64 = (b >> mm) & (((1u64 << em) - 1) as u64);
        let p: u64 = b & (((1u64 << mm) - 1) as u64);
        let lead: u128 = if f != 0 {
            1u128 << 127
        } else {
            0u128
        };
        let mant: u128 = lead | ((p as u128) << d);
        let s: u64 = (b >> ((em + mm) as u64)) & 1;
        assert((((mant >> d) as u64) & (((1u64 << mm) - 1) as u64)) == p) by (bit_vector)
            requires
                2 <= em <= 20,
                1 <= mm,
                em + mm <= 63,
                d == 127 - mm,
                p == b & (((1u64 << mm) - 1) as u64),
                (lead == 1u128 << 127 || lead == 0),
                mant == lead | ((p as u128) << d),
        ;
        assert(((if s == 1 {
            1u64
        } else {
            0u64
        }) << ((em + mm) as u64)) | (f << mm) | p == b) by (bit_vector)
            requires
                2 <= em <= 20,
                1 <= mm,
                em + mm <= 63,
                b >> ((1 + em + mm) as u64) == 0,
                f == (b >> mm) & (((1u64 << em) - 1) as u64),
                p == b & (((1u64 << mm) - 1) as u64),
                s == (b >> ((em + mm) as u64)) & 1,
        ;
    }

    /// Cast idempotence: re-casting any canonical value — zero, infinity,
    /// NaN, normal or subnormal — into a wider (or equal) configuration
    /// and back yields the original value exactly, because the widening
    /// loses no precision and the narrowing returns every bit.
    pub proof fn lemma_cast_round_trip<const E2: usize, const M2: usize>(x: Self)
        requires
            Self::fmt_ok(),
            Float::<E2, M2>::fmt_ok(),
            EXPONENT <= E2,
            MANTISSA <= M2,
            x.canonical(),
        ensures
            Float::<E2, M2>::cast_spec::<EXPONENT, MANTISSA>(Self::cast_spec::<E2, M2>(x)) == x,
    {
        Self::lemma_bias_bounds();
        Float::<E2, M2>::lemma_bias_bounds();
        lemma_shl_mono((EXPONENT - 1) as u64, (E2 - 1) as u64);
        let d1 = Self::frac_shift();
        let d2 = Float::<E2, M2>::frac_shift();
        let m = x.mantissa;
        crate::float::lemma_mantissa_basics(m, d1);
        crate::float::lemma_mantissa_basics(m, d2);
        crate::float::lemma_trunc(m, d1);
        crate::float::lemma_trunc(m, (d1 - 1) as u64);
        crate::float::lemma_trunc(m, d2);
        if d2 >= 1 {
            crate::float::lemma_trunc(m, (d2 - 1) as u64);
        }
        if x.category_spec() == Category::Zero {
            crate::float::lemma_mantissa_basics(0u128, d2);
        } else if x.category_spec() == Category::Infinity {
            crate::float::lemma_mantissa_basics(1u128 << 127, d2);
        } else if x.category_spec() == Category::NaN {
            lemma_trailing_mono(m, d1, d2);
            let y = Self::cast_spec::<E2, M2>(x);
            assert(y == (Float::<E2, M2> {
                sign: x.sign,
                exp: Float::<E2, M2>::field_mask_int() as u64,
                mantissa: m,
            }));
            assert(y.category_spec() == Category::NaN);
        } else {
            lemma_trailing_mono(m, d1, d2);
            crate::utils::lemma_msb128_char(m);
            let n = crate::utils::msb128_spec(m);
            let lz: u64 = (128 - n) as u64;
            if x.exp != 0 {
                // A normal number widens exactly and narrows back exactly.
                crate::float::lemma_msb_full(m);
                let eff = x.exp - Self::bias_int();
                let y = Self::cast_spec::<E2, M2>(x);
                assert(y == (Float::<E2, M2> {
                    sign: x.sign,
                    exp: (eff + Float::<E2, M2>::bias_int()) as u64,
                    mantissa: m,
                }));
                crate::float::lemma_msb_full(y.mantissa);
                assert(Float::<E2, M2>::cast_spec::<EXPONENT, MANTISSA>(y) == x);
            } else {
                // A subnormal either normalizes fully in the wider format or
                // shifts part way; the narrowing shifts the same bits back.
                crate::float::lemma_norm_shift(m, (n - 1) as u64, lz);
                lemma_shl_low_clear(m, lz, d2);
                if Self::emin_int() - lz >= Float::<E2, M2>::emin_int() {
                    let y = Self::cast_spec::<E2, M2>(x);
                    assert(y == (Float::<E2, M2> {
                        sign: x.sign,
                        exp: (Self::emin_int() - lz + Float::<E2, M2>::bias_int()) as u64,
                        mantissa: m << lz,
                    }));
                    crate::float::lemma_msb_full(y.mantissa);
                    assert(Float::<E2, M2>::cast_spec::<EXPONENT, MANTISSA>(y) == x);
                } else {
                    let k: u64 = (Self::emin_int() - Float::<E2, M2>::emin_int()) as u64;
                    crate::float::lemma_shl_small(m, (n - 1) as u64, k);
                    lemma_shl_low_clear(m, k, d2);
                    let y = Self::cast_spec::<E2, M2>(x);
                    assert(y == (Float::<E2, M2> { sign: x.sign, exp: 0u64, mantissa: m << k }));
                    if k == 0 {
                        assert(Float::<E2, M2>::cast_spec::<EXPONENT, MANTISSA>(y) == x);
                    } else {
                        crate::utils::lemma_msb128_char(y.mantissa);
                        assert(Float::<E2, M2>::cast_spec::<EXPONENT, MANTISSA>(y) == x);
                    }
                }
            }
        }
    }
}

/// Shift monotonicity for the bias arithmetic of two configurations.
proof fn lemma_shl_mono(a: u64, b: u64)
    by (bit_vector)
    requires
        a <= b,
        b <= 63,
    ensures
        (1u64 << a) <= (1u64 << b),
{
}

/// Shifting a word left keeps its clear low field clear, and clears the
/// field the shift itself opened.
proof fn lemma_shl_low_clear(m: u128, l: u64, d: u64)
    by (bit_vector)
    requires
        l <= 127,
        d <= 127,
        (m >> d) << d == m,
    ensures
        (((m << l) >> d) << d) == (m << l),
        (m << l) & (((1u128 << l) - 1) as u128) == 0,
{
}

/// A word whose low `d1` bits are clear also has its low `d2 <= d1` bits
/// clear.
proof fn lemma_trailing_mono(m: u128, d1: u64, d2: u64)
    by (bit_vector)
    requires
        d2 <= d1,
        d1 <= 127,
        (m >> d1) << d1 == m,
    ensures
        (m >> d2) << d2 == m,
{
}

/// A decoded mantissa is well formed: the payload sits entirely above the
/// storage bits that lie below the configured precision, and the implicit
/// bit, when present, is the top bit.
proof fn lemma_decoded_mantissa_wf(p: u64, mm: u64, d: u64, leading: u128)
    by (bit_vector)
    requires
        1 <= mm <= 126,
        d == 127 - mm,
        p <= ((1u64 << mm) - 1) as u64,
        leading == (1u128 << 127) || leading == 0,
    ensures
        (((leading | ((p as u128) << d)) >> d) << d) == (leading | ((p as u128) << d)),
        leading == (1u128 << 127) ==> (leading | ((p as u128) << d)) >= (1u128 << 127),
        leading == 0 ==> (leading | ((p as u128) << d)) < (1u128 << 127),
{
}

/// Truncating a NaN mantissa to a narrower precision keeps the top bit.
proof fn lemma_nan_trunc(m: u128, d2: u64)
    by (bit_vector)
    requires
        d2 <= 127,
        m >= (1u128 << 127),
    ensures
        ((m >> d2) << d2) >= (1u128 << 127),
        (((m >> d2) << d2) >> d2) << d2 == (m >> d2) << d2,
{
}

} // verus!
