//! Single-precision real numbers, held by their IEEE-754 bit patterns.
//!
//! A pattern is a sign bit, eight exponent bits and twenty-three fraction
//! bits. No arithmetic is done here: every function reads the pattern and
//! decides, or turns it into a whole number, by cutting the fractional part
//! away or by rounding it.

use vstd::prelude::*;
use vstd::arithmetic::power2::{pow2, lemma2_to64, lemma2_to64_rest, lemma_pow2_pos, lemma_pow2_strictly_increases, lemma_pow2_unfold};
use vstd::bits::{lemma_u64_shl_is_mul, lemma_u64_shr_is_div};

verus! {

/// The number of patterns below the sign bit.
pub const SIGN_BIT: u32 = 0x8000_0000;

/// The weight of the lowest exponent bit: two to the twenty-third.
pub const FRACTION_SPAN: u32 = 0x80_0000;

/// The exponent field of infinities and of values that are not numbers.
pub const EXPONENT_TOP: u32 = 255;

/// The exponent field at which a significand counts units: below it the
/// significand is divided by a power of two, from it on it is multiplied.
pub const EXPONENT_UNIT: u32 = 150;

/// The exponent field of the values from one up to, not including, two.
pub const EXPONENT_ONE: u32 = 127;

/// The exponent field of the values from a half up to, not including, one.
pub const EXPONENT_HALF: u32 = 126;

/// A binary32 number as its bit pattern.
#[derive(Clone, Copy, Debug, PartialEq, Eq, Structural)]
pub struct Scalar {
    pub bits: u32,
}

impl Scalar {
    /// Whether the sign bit is set.
    pub open spec fn sign(self) -> bool {
        self.bits >= SIGN_BIT
    }

    /// The exponent field, from 0 to 255.
    pub open spec fn exponent(self) -> nat {
        ((self.bits / FRACTION_SPAN) % 256) as nat
    }

    /// The fraction field, below two to the twenty-third.
    pub open spec fn fraction(self) -> nat {
        (self.bits % FRACTION_SPAN) as nat
    }

    /// The significand: the fraction, with the implied leading bit wherever
    /// the exponent field is not zero.
    pub open spec fn significand(self) -> nat {
        if self.exponent() == 0 {
            self.fraction()
        } else {
            self.fraction() + FRACTION_SPAN as nat
        }
    }

    /// Whether the pattern stands for no number at all.
    pub open spec fn nan(self) -> bool {
        self.exponent() == EXPONENT_TOP && self.fraction() != 0
    }

    /// Whether the pattern stands for a number that is not infinite.
    pub open spec fn finite(self) -> bool {
        self.exponent() < EXPONENT_TOP
    }

    /// Whether the pattern stands for zero, of either sign.
    pub open spec fn zero(self) -> bool {
        self.exponent() == 0 && self.fraction() == 0
    }

    /// Whether the pattern stands for a finite number that is not below
    /// zero: what can count as a position in a sequence of steps.
    pub open spec fn ordinal(self) -> bool {
        self.finite() && (!self.sign() || self.zero())
    }

    /// Whether the pattern stands for a finite number above zero.
    pub open spec fn positive(self) -> bool {
        self.finite() && !self.sign() && !self.zero()
    }

    /// Whether the pattern stands for exactly `numerator / denominator`.
    ///
    /// The number that a finite pattern stands for is its significand times
    /// two to the power of its exponent field less 150 (less 149 where the
    /// field is zero), negated where the sign bit is set.
    pub open spec fn represents(self, numerator: int, denominator: int) -> bool {
        let e = if self.exponent() == 0 { 1 } else { self.exponent() };
        let m = if self.sign() { -(self.significand() as int) } else { self.significand() as int };
        &&& denominator > 0
        &&& self.finite()
        &&& if e >= EXPONENT_UNIT {
            m * pow2((e - EXPONENT_UNIT) as nat) * denominator == numerator
        } else {
            m * denominator == numerator * pow2((EXPONENT_UNIT - e) as nat)
        }
    }

    /// The whole part of the magnitude of a pattern that is a number or an
    /// infinity, for which it is larger than any finite magnitude.
    pub open spec fn whole_part(self) -> nat {
        if self.exponent() >= EXPONENT_UNIT {
            self.significand() * pow2((self.exponent() - EXPONENT_UNIT) as nat)
        } else {
            self.significand() / pow2((EXPONENT_UNIT - self.exponent()) as nat)
        }
    }

    /// The number cut to a whole number from 0 to `limit`: the fractional
    /// part is dropped, what is below zero becomes 0, what is above `limit`
    /// becomes `limit`, and what is not a number becomes 0.
    pub open spec fn clamped(self, limit: nat) -> nat {
        if self.nan() || self.sign() {
            0
        } else if self.whole_part() > limit {
            limit
        } else {
            self.whole_part()
        }
    }

    /// The whole number nearest to the magnitude of a pattern that is a
    /// number or an infinity; a magnitude halfway between two whole numbers
    /// goes to the larger.
    pub open spec fn nearest_whole(self) -> nat {
        if self.exponent() >= EXPONENT_UNIT {
            self.significand() * pow2((self.exponent() - EXPONENT_UNIT) as nat)
        } else {
            (self.significand() + pow2((EXPONENT_UNIT - 1 - self.exponent()) as nat)) / pow2(
                (EXPONENT_UNIT - self.exponent()) as nat,
            )
        }
    }

    /// The number rounded to the nearest whole number from 0 to `limit`,
    /// halves away from zero: what is below zero becomes 0, what is above
    /// `limit` becomes `limit`, and what is not a number becomes 0.
    pub open spec fn rounded(self, limit: nat) -> nat {
        if self.nan() || self.sign() {
            0
        } else if self.nearest_whole() > limit {
            limit
        } else {
            self.nearest_whole()
        }
    }

    /// The exponent field.
    pub fn exponent_field(&self) -> (e: u32)
        ensures
            e == self.exponent(),
            e <= EXPONENT_TOP,
    {
        (self.bits / FRACTION_SPAN) % 256
    }

    /// The fraction field.
    pub fn fraction_field(&self) -> (f: u32)
        ensures
            f == self.fraction(),
            f < FRACTION_SPAN,
    {
        self.bits % FRACTION_SPAN
    }

    /// Whether the sign bit is set.
    pub fn is_sign_negative(&self) -> (b: bool)
        ensures
            b == self.sign(),
    {
        self.bits >= SIGN_BIT
    }

    /// Whether the pattern stands for no number at all.
    pub fn is_nan(&self) -> (b: bool)
        ensures
            b == self.nan(),
    {
        self.exponent_field() == EXPONENT_TOP && self.fraction_field() != 0
    }

    /// Whether the pattern stands for a number that is not infinite.
    pub fn is_finite(&self) -> (b: bool)
        ensures
            b == self.finite(),
    {
        self.exponent_field() < EXPONENT_TOP
    }

    /// Whether the pattern stands for a finite number that is not below zero.
    pub fn is_ordinal(&self) -> (b: bool)
        ensures
            b == self.ordinal(),
    {
        self.is_finite() && (!self.is_sign_negative() || (self.exponent_field() == 0
            && self.fraction_field() == 0))
    }

    /// Whether the pattern stands for a finite number above zero.
    pub fn is_positive(&self) -> (b: bool)
        ensures
            b == self.positive(),
    {
        self.is_finite() && !self.is_sign_negative() && !(self.exponent_field() == 0
            && self.fraction_field() == 0)
    }

    /// The number cut to a whole number from 0 to `limit`.
    pub fn clamp_to(&self, limit: u64) -> (n: u64)
        ensures
            n == self.clamped(limit as nat),
            n <= limit,
    {
        let e: u32 = self.exponent_field();
        let f: u32 = self.fraction_field();
        if (e == EXPONENT_TOP && f != 0) || self.is_sign_negative() {
            return 0;
        }
        if e < EXPONENT_ONE {
            proof {
                lemma_small_whole_part(*self);
            }
            return 0;
        }
        let m: u64 = (f + FRACTION_SPAN) as u64;
        if e >= EXPONENT_UNIT {
            let shift: u64 = (e - EXPONENT_UNIT) as u64;
            if shift > 40 {
                proof {
                    lemma_large_whole_part(*self);
                }
                return limit;
            }
            proof {
                if shift < 40 {
                    lemma_pow2_strictly_increases(shift as nat, 40);
                }
                lemma2_to64_rest();
                assert(m * pow2(shift as nat) <= u64::MAX) by (nonlinear_arith)
                    requires
                        m < 0x100_0000,
                        pow2(shift as nat) <= 0x100_0000_0000,
                ;
                lemma_u64_shl_is_mul(m, shift);
            }
            let whole: u64 = m << shift;
            if whole > limit {
                limit
            } else {
                whole
            }
        } else {
            let shift: u64 = (EXPONENT_UNIT - e) as u64;
            proof {
                lemma_u64_shr_is_div(m, shift);
            }
            let whole: u64 = m >> shift;
            if whole > limit {
                limit
            } else {
                whole
            }
        }
    }

    /// The number as a position in a sequence: cut to a whole number that
    /// fits in `usize`.
    pub fn to_index(&self) -> (n: usize)
        ensures
            n == self.clamped(usize::MAX as nat),
    {
        self.clamp_to(usize::MAX as u64) as usize
    }

    /// The number rounded to the nearest whole number from 0 to `limit`.
    pub fn round_to(&self, limit: u64) -> (n: u64)
        ensures
            n == self.rounded(limit as nat),
            n <= limit,
    {
        let e: u32 = self.exponent_field();
        let f: u32 = self.fraction_field();
        if e >= EXPONENT_UNIT {
            return self.clamp_to(limit);
        }
        if self.is_sign_negative() {
            return 0;
        }
        if e < EXPONENT_HALF {
            proof {
                lemma_small_nearest_whole(*self);
            }
            return 0;
        }
        let m: u64 = (f + FRACTION_SPAN) as u64;
        let shift: u64 = (EXPONENT_UNIT - e) as u64;
        proof {
            lemma2_to64();
            if shift < 24 {
                lemma_pow2_strictly_increases((shift - 1) as nat, 23);
            }
            lemma_u64_shl_is_mul(1, (shift - 1) as u64);
        }
        let half: u64 = 1u64 << (shift - 1);
        let sum: u64 = m + half;
        proof {
            lemma_u64_shr_is_div(sum, shift);
        }
        let nearest: u64 = sum >> shift;
        if nearest > limit {
            limit
        } else {
            nearest
        }
    }

    /// The number as the level of a colour channel: rounded to the nearest
    /// whole number from 0 to 255.
    pub fn to_channel(&self) -> (n: u8)
        ensures
            n == self.rounded(255),
    {
        self.round_to(255) as u8
    }
}

/// How to tell what a magnitude below two to the twenty-fourth rounds
/// to: with `scale` the power of two that its significand is divided by, it
/// rounds to `n` exactly when it lies within half a unit of `n`, the lower
/// end counted in.
pub proof fn lemma_nearest_whole_is(s: Scalar, scale: nat, n: nat)
    requires
        s.exponent() < EXPONENT_UNIT,
        scale == pow2((EXPONENT_UNIT - s.exponent()) as nat),
    ensures
        s.nearest_whole() == n <==> 2 * n * scale <= 2 * s.significand() + scale < 2 * (n + 1)
            * scale,
{
    let shift = (EXPONENT_UNIT - s.exponent()) as nat;
    lemma_pow2_unfold(shift);
    lemma_pow2_pos((shift - 1) as nat);
    let half = pow2((shift - 1) as nat);
    let sum = s.significand() + half;
    assert(scale == 2 * half);
    assert(sum / scale == n <==> n * scale <= sum < (n + 1) * scale) by (nonlinear_arith)
        requires
            scale > 0,
            sum >= 0,
    ;
    assert(n * scale <= sum < (n + 1) * scale <==> 2 * n * scale <= 2 * s.significand() + scale
        < 2 * (n + 1) * scale) by (nonlinear_arith)
        requires
            sum == s.significand() + half,
            scale == 2 * half,
    ;
}

/// A magnitude below a half rounds to zero.
pub proof fn lemma_small_nearest_whole(s: Scalar)
    requires
        s.exponent() < EXPONENT_HALF,
    ensures
        s.nearest_whole() == 0,
{
    let shift = (EXPONENT_UNIT - s.exponent()) as nat;
    lemma2_to64();
    if shift > 25 {
        lemma_pow2_strictly_increases(24, (shift - 1) as nat);
    }
    lemma_pow2_unfold(shift);
    let half = pow2((shift - 1) as nat);
    assert((s.significand() + half) / pow2(shift) == 0) by (nonlinear_arith)
        requires
            0 <= s.significand() < half,
            pow2(shift) == 2 * half,
    ;
}

/// A magnitude below one has no whole part.
pub proof fn lemma_small_whole_part(s: Scalar)
    requires
        s.exponent() < EXPONENT_ONE,
    ensures
        s.whole_part() == 0,
{
    let shift = (EXPONENT_UNIT - s.exponent()) as nat;
    lemma2_to64();
    if shift > 24 {
        lemma_pow2_strictly_increases(24, shift);
    }
    assert(s.significand() < pow2(shift));
    assert(s.significand() / pow2(shift) == 0) by (nonlinear_arith)
        requires
            0 <= s.significand() < pow2(shift),
    ;
}

/// From two to the sixty-fourth on, a magnitude exceeds every `u64`.
pub proof fn lemma_large_whole_part(s: Scalar)
    requires
        s.exponent() > EXPONENT_UNIT + 40,
    ensures
        s.whole_part() > u64::MAX,
{
    let shift = (s.exponent() - EXPONENT_UNIT) as nat;
    lemma2_to64_rest();
    if shift > 41 {
        lemma_pow2_strictly_increases(41, shift);
    }
    assert(s.significand() * pow2(shift) > u64::MAX) by (nonlinear_arith)
        requires
            s.significand() >= 0x80_0000,
            pow2(shift) >= 0x200_0000_0000,
    ;
}

} // verus!
