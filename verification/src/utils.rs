//! Small bit-manipulation helpers and the deterministic pseudo-random
//! generator that the test suite draws its values from.

use vstd::prelude::*;

verus! {

/// Returns a mask full of 1s, of `b` bits.
pub fn mask(b: usize) -> (r: usize)
    requires
        b < usize::BITS,
    ensures
        r == (1usize << b) - 1,
        r < 1usize << b,
{
    proof {
        assert(1usize << b >= 1) by (bit_vector)
            requires b < usize::BITS,
        ;
    }
    (1usize << b) - 1
}

/// Returns the bias of an IEEE-754 format with `exponent_bits` exponent bits.
pub fn compute_ieee745_bias(exponent_bits: usize) -> (r: usize)
    requires
        1 <= exponent_bits < usize::BITS,
    ensures
        r == (1usize << ((exponent_bits - 1) as usize)) - 1,
{
    let b: usize = exponent_bits - 1;
    proof {
        assert(1usize << b >= 1) by (bit_vector)
            requires b < usize::BITS,
        ;
    }
    (1usize << b) - 1
}

/// Returns the position of the first digit after the most significant set
/// bit, so that a value of zero reports zero.
pub fn next_msb(val: u64) -> (r: u64)
    ensures
        0 <= r <= 64,
        val == 0 <==> r == 0,
        r >= 1 ==> val >> ((r - 1) as u64) == 1,
        r == 64 - vstd::std_specs::bits::u64_leading_zeros(val),
{
    proof {
        vstd::std_specs::bits::axiom_u64_leading_zeros(val);
        let lz = vstd::std_specs::bits::u64_leading_zeros(val);
        if val != 0 {
            let k: u64 = (63 - lz) as u64;
            let j: u64 = (64 - lz) as u64;
            assert(((val >> k) & 1u64 != 0 && (k == 63 || val >> j == 0)) ==> val >> k
                == 1) by (bit_vector)
                requires k < 64 && j == k + 1,
            ;
        }
    }
    64 - val.leading_zeros() as u64
}

/// The position of the first digit after the most significant set bit of a
/// 128-bit value; zero for a value of zero.
pub open spec fn msb128_spec(v: u128) -> int {
    if (v >> 64u128) != 0 {
        128 - vstd::std_specs::bits::u64_leading_zeros((v >> 64u128) as u64)
    } else {
        64 - vstd::std_specs::bits::u64_leading_zeros(v as u64)
    }
}

/// The characterization of the most significant set bit: for a nonzero
/// value the reported position holds the leading one and nothing sits
/// above it.
pub proof fn lemma_msb128_char(val: u128)
    ensures
        0 <= msb128_spec(val) <= 128,
        val == 0 <==> msb128_spec(val) == 0,
        val != 0 ==> val >> (((msb128_spec(val) - 1) as u64) as u64) == 1,
{
    let hi: u64 = (val >> 64u128) as u64;
    let lo: u64 = val as u64;
    assert(hi == (val >> 64) as u64 && lo == val as u64);
    assert((hi == 0 && lo == 0 <==> val == 0) && hi as u128 == val >> 64u128 && lo as u128 == (
    val as u64) as u128) by (bit_vector)
        requires hi == (val >> 64) as u64 && lo == val as u64,
    ;
    if hi != 0 {
        vstd::std_specs::bits::axiom_u64_leading_zeros(hi);
        let lz = vstd::std_specs::bits::u64_leading_zeros(hi);
        let k: u64 = (63 - lz) as u64;
        let j: u64 = (64 - lz) as u64;
        assert(((hi >> k) & 1u64 != 0 && (k == 63 || hi >> j == 0)) ==> hi >> k
            == 1) by (bit_vector)
            requires k < 64 && j == k + 1,
        ;
        let r: u64 = (128 - lz) as u64;
        assert(val >> (((r - 1) as u64) as u64) == 1) by (bit_vector)
            requires
                hi == (val >> 64) as u64,
                65 <= r <= 128,
                hi >> ((r - 65) as u64) == 1,
        ;
    } else {
        vstd::std_specs::bits::axiom_u64_leading_zeros(lo);
        let lz = vstd::std_specs::bits::u64_leading_zeros(lo);
        if lo != 0 {
            let k: u64 = (63 - lz) as u64;
            let j: u64 = (64 - lz) as u64;
            assert(((lo >> k) & 1u64 != 0 && (k == 63 || lo >> j == 0)) ==> lo >> k
                == 1) by (bit_vector)
                requires k < 64 && j == k + 1,
            ;
            let r: u64 = (64 - lz) as u64;
            assert(val >> (((r - 1) as u64) as u64) == 1) by (bit_vector)
                requires
                    hi == (val >> 64) as u64,
                    lo == val as u64,
                    hi == 0,
                    1 <= r <= 64,
                    lo >> ((r - 1) as u64) == 1,
            ;
        }
    }
}

/// Returns the position of the first digit after the most significant set
/// bit of a 128-bit value, so that a value of zero reports zero.
pub fn next_msb128(val: u128) -> (r: u64)
    ensures
        0 <= r <= 128,
        val == 0 <==> r == 0,
        r >= 1 ==> val >> ((r - 1) as u128) == 1,
        r == msb128_spec(val),
{
    proof {
        lemma_msb128_char(val);
    }
    let hi: u64 = (val >> 64) as u64;
    let lo: u64 = val as u64;
    proof {
        assert(hi as u128 == val >> 64u128 && lo as u128 == (val as u64) as u128)
            by (bit_vector)
            requires hi == (val >> 64) as u64 && lo == val as u64,
        ;
    }
    if hi != 0 {
        64 + next_msb(hi)
    } else {
        next_msb(lo)
    }
}

/// Converts a mantissa in the implicit format (no possible leading 1 bit) to
/// the internal storage format of a 64-bit word. If `leading_1` is set then a
/// leading one is added (otherwise it is a subnormal).
/// Format: [1 IIIIII 00000000]
pub fn expand_mantissa_to_explicit<const FROM: usize>(input: u64, leading_1: bool) -> (r: u64)
    requires
        FROM <= 63,
    ensures
        r == (if leading_1 { 1u64 << 63 } else { 0u64 }) | (input << ((63 - FROM) as usize)),
{
    let value: u64 = if leading_1 { 1 << 63 } else { 0 };
    let shift: usize = 63 - FROM;
    value | (input << shift)
}

/// A linear-feedback shift register: the deterministic pseudo-random
/// 32/64-bit value stream used for property testing.
pub struct Lfsr {
    state: u32,
}

/// The successor state of the shift register.
pub open spec fn lfsr_step(s: u32) -> u32 {
    (s << 1u32) | (((s >> 24u32) ^ (s >> 23u32) ^ (s >> 22u32) ^ (s >> 17u32) ^ 1u32) & 1u32)
}

/// The state after `n` steps.
pub open spec fn lfsr_iter(s: u32, n: nat) -> u32
    decreases n,
{
    if n == 0 {
        s
    } else {
        lfsr_step(lfsr_iter(s, (n - 1) as nat))
    }
}

/// The word drawn by folding the low bit of each of `n` successor states
/// onto the accumulator `acc`.
pub open spec fn lfsr_word(acc: u32, s: u32, n: nat) -> u32
    decreases n,
{
    if n == 0 {
        acc
    } else {
        lfsr_word((acc << 1u32) ^ (lfsr_step(s) & 1u32), lfsr_step(s), (n - 1) as nat)
    }
}

impl Default for Lfsr {
    /// The register with the fixed starting seed, as `new` gives it.
    fn default() -> (r: Lfsr)
        ensures
            r@ == 0x13371337u32,
    {
        Lfsr::new()
    }
}

impl Lfsr {
    /// The state of the register.
    pub closed spec fn view(&self) -> u32 {
        self.state
    }

    /// A register seeded with the fixed starting value.
    pub fn new() -> (r: Lfsr)
        ensures
            r@ == 0x13371337u32,
    {
        Lfsr { state: 0x13371337 }
    }

    /// Advances the register by one step.
    pub fn next(&mut self)
        ensures
            final(self)@ == lfsr_step(old(self)@),
    {
        let a = (self.state >> 24) & 1;
        let b = (self.state >> 23) & 1;
        let c = (self.state >> 22) & 1;
        let d = (self.state >> 17) & 1;
        let n = a ^ b ^ c ^ d ^ 1;
        proof {
            let s = old(self)@;
            assert((s << 1u32) | ((((s >> 24u32) & 1) ^ ((s >> 23u32) & 1) ^ ((s >> 22u32)
                & 1) ^ ((s >> 17u32) & 1)) ^ 1) == lfsr_step(s)) by (bit_vector);
        }
        self.state = self.state << 1;
        self.state = self.state | n;
    }

    /// Draws 32 pseudo-random bits.
    pub fn get(&mut self) -> (r: u32)
        ensures
            final(self)@ == lfsr_iter(old(self)@, 32),
            r == lfsr_word(0, old(self)@, 32),
    {
        let mut res: u32 = 0;
        let mut i: u32 = 0;
        while i < 32
            invariant
                i <= 32,
                self@ == lfsr_iter(old(self)@, i as nat),
                lfsr_word(res, self@, (32 - i) as nat) == lfsr_word(0, old(self)@, 32),
            decreases 32 - i,
        {
            self.next();
            res = res << 1;
            res = res ^ (self.state & 0x1);
            i = i + 1;
        }
        res
    }

    /// Draws 64 pseudo-random bits.
    pub fn get64(&mut self) -> (r: u64)
        ensures
            final(self)@ == lfsr_iter(lfsr_iter(old(self)@, 32), 32),
            r == ((lfsr_word(0, old(self)@, 32) as u64) << 32u64) | (lfsr_word(0, lfsr_iter(
                old(self)@, 32), 32) as u64),
    {
        let a = self.get();
        let b = self.get();
        ((a as u64) << 32) | b as u64
    }
}

} // verus!
