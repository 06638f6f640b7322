//! The wide-integer engine backing the mantissa: 128-bit unsigned words with
//! carry/borrow-observable addition and subtraction, shifts that report the
//! discarded low bits as a `LossFraction`, and a double-width multiply.

use vstd::prelude::*;

verus! {

/// Classification of the bits discarded during a right shift or a
/// truncation, relative to half of the least retained bit position.
/// It is what the rounding engine consumes to decide the rounding direction.
#[derive(Debug, Clone, Copy, PartialEq, Eq, Structural)]
pub enum LossFraction {
    /// Nothing was discarded.
    ExactlyZero,
    /// The discarded fraction lies strictly between zero and one half.
    LessThanHalf,
    /// The discarded fraction is exactly one half.
    ExactlyHalf,
    /// The discarded fraction lies strictly between one half and one.
    MoreThanHalf,
}

/// The classification of a discarded value `d` against `half` (half of one
/// unit of the retained position), refined by the classification `prev` of
/// whatever was already discarded below `d`.
pub open spec fn classify_loss_spec(d: u128, half: u128, prev: LossFraction) -> LossFraction {
    if d > half {
        LossFraction::MoreThanHalf
    } else if d == half {
        if prev == LossFraction::ExactlyZero {
            LossFraction::ExactlyHalf
        } else {
            LossFraction::MoreThanHalf
        }
    } else if d == 0 {
        if prev == LossFraction::ExactlyZero {
            LossFraction::ExactlyZero
        } else {
            LossFraction::LessThanHalf
        }
    } else {
        LossFraction::LessThanHalf
    }
}

/// The value kept by a right shift of `s` bits; a shift by the full width or
/// more yields zero.
pub open spec fn shr128_val(m: u128, s: u64) -> u128 {
    if s >= 128 {
        0
    } else {
        m >> s
    }
}

/// The classification of what a right shift of `s` bits discards, given the
/// classification `prev` of bits that were already below bit zero.
pub open spec fn shr128_lost(m: u128, s: u64, prev: LossFraction) -> LossFraction {
    if s == 0 {
        prev
    } else if s < 128 {
        classify_loss_spec(m & (((1u128 << s) - 1) as u128), 1u128 << ((s - 1) as u64), prev)
    } else if s == 128 {
        classify_loss_spec(m, 1u128 << 127u128, prev)
    } else {
        if m == 0 && prev == LossFraction::ExactlyZero {
            LossFraction::ExactlyZero
        } else {
            LossFraction::LessThanHalf
        }
    }
}

/// Compares a discarded value against half of the retained unit, folding in
/// the classification of what was discarded even lower.
pub fn classify_loss(d: u128, half: u128, prev: LossFraction) -> (r: LossFraction)
    ensures
        r == classify_loss_spec(d, half, prev),
{
    if d > half {
        LossFraction::MoreThanHalf
    } else if d == half {
        if prev == LossFraction::ExactlyZero {
            LossFraction::ExactlyHalf
        } else {
            LossFraction::MoreThanHalf
        }
    } else if d == 0 {
        if prev == LossFraction::ExactlyZero {
            LossFraction::ExactlyZero
        } else {
            LossFraction::LessThanHalf
        }
    } else {
        LossFraction::LessThanHalf
    }
}

/// Shifts `m` right by `s` bits, well-defined for any `s` including the full
/// width and beyond, and classifies the discarded low bits. `prev` is the
/// classification of bits already lost below bit zero.
pub fn shr128_loss(m: u128, s: u64, prev: LossFraction) -> (r: (u128, LossFraction))
    ensures
        r.0 == shr128_val(m, s),
        r.1 == shr128_lost(m, s, prev),
{
    if s == 0 {
        proof {
            assert(m >> s == m) by (bit_vector)
                requires s == 0u64,
            ;
        }
        (m, prev)
    } else if s < 128 {
        proof {
            assert(1u128 << s >= 1) by (bit_vector)
                requires 0 < s < 128,
            ;
        }
        let d = m & ((1u128 << s) - 1);
        let half = 1u128 << (s - 1);
        (m >> s, classify_loss(d, half, prev))
    } else if s == 128 {
        (0, classify_loss(m, 1u128 << 127, prev))
    } else {
        let l = if m == 0 && prev == LossFraction::ExactlyZero {
            LossFraction::ExactlyZero
        } else {
            LossFraction::LessThanHalf
        };
        (0, l)
    }
}

/// Shifts `m` left by `s` bits, well-defined for any `s`: a shift by the
/// full width or more yields zero rather than a fault.
pub fn shl128(m: u128, s: u64) -> (r: u128)
    ensures
        r == (if s >= 128 { 0u128 } else { m << s }),
{
    if s >= 128 {
        0
    } else {
        m << s
    }
}

/// Adds two 128-bit words; the boolean reports the carry out of the top bit,
/// so that no overflow is ever silently dropped.
pub fn add_carry(a: u128, b: u128) -> (r: (u128, bool))
    ensures
        r.0 as nat + (if r.1 { 0x100000000000000000000000000000000nat } else { 0nat }) == a
            as nat + b as nat,
{
    let s = a.wrapping_add(b);
    (s, s < a)
}

/// Subtracts `b` from `a`; the boolean reports the borrow, so that
/// underflow is observable by the caller.
pub fn sub_borrow(a: u128, b: u128) -> (r: (u128, bool))
    ensures
        r.0 as nat == a as nat + (if r.1 { 0x100000000000000000000000000000000nat } else { 0nat })
            - b as nat,
        r.1 == (b > a),
{
    let d = a.wrapping_sub(b);
    (d, b > a)
}

/// Multiplies two 128-bit words into an exact double-width result,
/// returned as (high word, low word).
pub fn mul_wide(a: u128, b: u128) -> (r: (u128, u128))
    ensures
        r.0 as nat * 0x100000000000000000000000000000000nat + r.1 as nat == a as nat * b as nat,
{
    let al: u128 = a & 0xffff_ffff_ffff_ffff;
    let ah: u128 = a >> 64;
    let bl: u128 = b & 0xffff_ffff_ffff_ffff;
    let bh: u128 = b >> 64;
    proof {
        assert(a & 0xffff_ffff_ffff_ffffu128 < 0x10000000000000000u128 && a >> 64u128
            < 0x10000000000000000u128 && (a & 0xffff_ffff_ffff_ffffu128) + (a
            >> 64u128) * 0x10000000000000000u128 == a) by (bit_vector);
        assert(b & 0xffff_ffff_ffff_ffffu128 < 0x10000000000000000u128 && b >> 64u128
            < 0x10000000000000000u128 && (b & 0xffff_ffff_ffff_ffffu128) + (b
            >> 64u128) * 0x10000000000000000u128 == b) by (bit_vector);
        lemma_small_products(al, bl);
        lemma_small_products(ah, bl);
        lemma_small_products(al, bh);
        lemma_small_products(ah, bh);
    }
    let lo0: u128 = al * bl;
    let m1: u128 = ah * bl;
    let m2: u128 = al * bh;
    let hh: u128 = ah * bh;
    proof {
        assert(lo0 >> 64u128 <= 0xfffffffffffffffeu128) by (bit_vector)
            requires lo0 <= 0xfffffffffffffffe0000000000000001u128,
        ;
        assert(m1 & 0xffff_ffff_ffff_ffffu128 <= 0xffff_ffff_ffff_ffffu128 && m2
            & 0xffff_ffff_ffff_ffffu128 <= 0xffff_ffff_ffff_ffffu128) by (bit_vector);
    }
    let t: u128 = (lo0 >> 64) + (m1 & 0xffff_ffff_ffff_ffff) + (m2 & 0xffff_ffff_ffff_ffff);
    let lo: u128 = (lo0 & 0xffff_ffff_ffff_ffff) | ((t & 0xffff_ffff_ffff_ffff) << 64);
    proof {
        assert(hh <= 0xfffffffffffffffe0000000000000001u128) by (nonlinear_arith)
            requires ah < 0x10000000000000000u128 && bh < 0x10000000000000000u128 && hh == ah * bh,
        ;
        assert((lo0 & 0xffff_ffff_ffff_ffffu128) | ((t & 0xffff_ffff_ffff_ffffu128)
            << 64u128) == (lo0 & 0xffff_ffff_ffff_ffffu128) + (t
            & 0xffff_ffff_ffff_ffffu128) * 0x10000000000000000u128) by (bit_vector);
    }
    proof {
        assert(m1 >> 64u128 <= 0xfffffffffffffffeu128) by (bit_vector)
            requires m1 <= 0xfffffffffffffffe0000000000000001u128,
        ;
        assert(m2 >> 64u128 <= 0xfffffffffffffffeu128) by (bit_vector)
            requires m2 <= 0xfffffffffffffffe0000000000000001u128,
        ;
        assert(t >> 64u128 <= 2u128) by (bit_vector)
            requires t <= 0x2fffffffffffffffcu128,
        ;
    }
    let hi: u128 = hh + (m1 >> 64) + (m2 >> 64) + (t >> 64);
    proof {
        lemma_mul_wide_identity(a, b, al, ah, bl, bh, lo0, m1, m2, hh, t, lo, hi);
    }
    (hi, lo)
}

/// The product of two values below 2^64 fits in a 128-bit word.
proof fn lemma_small_products(x: u128, y: u128)
    by (nonlinear_arith)
    requires
        x < 0x10000000000000000u128,
        y < 0x10000000000000000u128,
    ensures
        x as nat * y as nat <= 0xfffffffffffffffe0000000000000001nat,
{
}

/// Regrouping of the four partial products of a double-width multiply.
#[verifier::rlimit(100)]
proof fn lemma_mul_wide_identity(
    a: u128,
    b: u128,
    al: u128,
    ah: u128,
    bl: u128,
    bh: u128,
    lo0: u128,
    m1: u128,
    m2: u128,
    hh: u128,
    t: u128,
    lo: u128,
    hi: u128,
)
    requires
        al < 0x10000000000000000u128,
        ah < 0x10000000000000000u128,
        bl < 0x10000000000000000u128,
        bh < 0x10000000000000000u128,
        a == al + ah * 0x10000000000000000u128,
        b == bl + bh * 0x10000000000000000u128,
        lo0 == al as nat * bl as nat,
        m1 == ah as nat * bl as nat,
        m2 == al as nat * bh as nat,
        hh == ah as nat * bh as nat,
        t == (lo0 >> 64u128) as nat + (m1 & 0xffff_ffff_ffff_ffffu128) as nat + (m2
            & 0xffff_ffff_ffff_ffffu128) as nat,
        lo == (lo0 & 0xffff_ffff_ffff_ffffu128) as nat + (t
            & 0xffff_ffff_ffff_ffffu128) as nat * 0x10000000000000000nat,
        hi == hh as nat + (m1 >> 64u128) as nat + (m2 >> 64u128) as nat + (t >> 64u128) as nat,
    ensures
        hi as nat * 0x100000000000000000000000000000000nat + lo as nat == a as nat * b as nat,
{
    let w: nat = 0x10000000000000000nat;
    assert(lo0 == (lo0 & 0xffff_ffff_ffff_ffffu128) + (lo0 >> 64u128) * 0x10000000000000000u128
        && m1 == (m1 & 0xffff_ffff_ffff_ffffu128) + (m1 >> 64u128) * 0x10000000000000000u128
        && m2 == (m2 & 0xffff_ffff_ffff_ffffu128) + (m2 >> 64u128) * 0x10000000000000000u128
        && t == (t & 0xffff_ffff_ffff_ffffu128) + (t >> 64u128) * 0x10000000000000000u128)
        by (bit_vector);
    assert(a as nat * b as nat == (al + ah * w) * (bl + bh * w)) by (nonlinear_arith)
        requires
            a as nat == al as nat + ah as nat * w,
            b as nat == bl as nat + bh as nat * w,
            w == 0x10000000000000000nat,
    ;
    let an: nat = al as nat;
    let hn: nat = ah as nat;
    let bn: nat = bl as nat;
    let gn: nat = bh as nat;
    assert((an + hn * w) * (bn + gn * w) == an * bn + (hn * bn + an * gn) * w + (hn * gn) * (w
        * w)) by (nonlinear_arith);
    assert(lo0 as nat + (m1 as nat + m2 as nat) * w + hh as nat * (w * w) == hi as nat * (w
        * w) + lo as nat) by (nonlinear_arith)
        requires
            w == 0x10000000000000000nat,
            lo0 as nat == (lo0 & 0xffff_ffff_ffff_ffffu128) as nat + (lo0
                >> 64u128) as nat * w,
            m1 as nat == (m1 & 0xffff_ffff_ffff_ffffu128) as nat + (m1 >> 64u128) as nat * w,
            m2 as nat == (m2 & 0xffff_ffff_ffff_ffffu128) as nat + (m2 >> 64u128) as nat * w,
            t as nat == (t & 0xffff_ffff_ffff_ffffu128) as nat + (t >> 64u128) as nat * w,
            t as nat == (lo0 >> 64u128) as nat + (m1 & 0xffff_ffff_ffff_ffffu128) as nat + (m2
                & 0xffff_ffff_ffff_ffffu128) as nat,
            lo as nat == (lo0 & 0xffff_ffff_ffff_ffffu128) as nat + (t
                & 0xffff_ffff_ffff_ffffu128) as nat * w,
            hi as nat == hh as nat + (m1 >> 64u128) as nat + (m2 >> 64u128) as nat + (t
                >> 64u128) as nat,
    ;
    assert(0x100000000000000000000000000000000nat == w * w) by (nonlinear_arith)
        requires w == 0x10000000000000000nat,
    ;
}

} // verus!
