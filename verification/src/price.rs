//! Prices and quantities as IEEE 754 binary64 bit patterns.
//!
//! The wire records carry binary64 numbers.  Verified code never computes with
//! them: it looks at their bit patterns, which is enough to tell whether a
//! number is finite and which of two numbers is larger.

use vstd::arithmetic::mul::lemma_mul_strict_inequality;
use vstd::arithmetic::power2::{lemma2_to64, lemma_pow2_pos, lemma_pow2_unfold, pow2};
use vstd::prelude::*;

verus! {

/// Weight of the sign bit.
pub const SIGN_BIT: u64 = 0x8000_0000_0000_0000;

/// Magnitude bits of an infinity; larger magnitudes encode NaN.
pub const INFINITY_BITS: u64 = 0x7ff0_0000_0000_0000;

/// Number of distinct fraction fields.
pub const FRACTION_SPAN: u64 = 0x10_0000_0000_0000;

/// The number that the magnitude bits encode, in units of the smallest positive
/// number.  The pattern of infinity is given the power of two that
/// follows the largest finite number.
pub open spec fn scaled_magnitude(magnitude: nat) -> nat {
    let exponent = magnitude / (FRACTION_SPAN as nat);
    let fraction = magnitude % (FRACTION_SPAN as nat);
    if exponent == 0 {
        fraction
    } else {
        (FRACTION_SPAN as nat + fraction) * pow2((exponent - 1) as nat)
    }
}

/// A binary64 number held as its bit pattern.
#[derive(Clone, Copy, Debug, PartialEq, Eq, Structural)]
pub struct Price {
    /// Sign, exponent and fraction, as the number's own bit pattern.
    pub bits: u64,
}

impl Price {
    /// The sign bit is set.
    pub open spec fn negative(self) -> bool {
        self.bits >= SIGN_BIT
    }

    /// The bits below the sign bit.
    pub open spec fn magnitude(self) -> nat {
        (self.bits as nat) % (SIGN_BIT as nat)
    }

    /// The pattern is neither an infinity nor a NaN.
    pub open spec fn finite(self) -> bool {
        self.magnitude() < INFINITY_BITS
    }

    /// The pattern is a NaN.
    pub open spec fn nan(self) -> bool {
        self.magnitude() > INFINITY_BITS
    }

    /// The encoded number in units of the smallest positive number.
    pub open spec fn scaled(self) -> int {
        if self.negative() {
            -(scaled_magnitude(self.magnitude()) as int)
        } else {
            scaled_magnitude(self.magnitude()) as int
        }
    }

    /// `self >= other` as numbers; false as soon as one of them is a NaN.
    pub open spec fn reaches(self, other: Price) -> bool {
        !self.nan() && !other.nan() && self.scaled() >= other.scaled()
    }

    /// True unless the number is an infinity or a NaN.
    pub fn is_finite(self) -> (r: bool)
        ensures
            r == self.finite(),
    {
        self.bits % SIGN_BIT < INFINITY_BITS
    }

    /// The comparison `self >= other` of the two numbers.
    pub fn at_or_above(self, other: Price) -> (r: bool)
        ensures
            r == self.reaches(other),
    {
        let a: u64 = self.bits % SIGN_BIT;
        let b: u64 = other.bits % SIGN_BIT;
        if a > INFINITY_BITS || b > INFINITY_BITS {
            return false;
        }
        proof {
            lemma_scaled_magnitude_order(a as nat, b as nat);
            lemma_scaled_magnitude_order(b as nat, a as nat);
            lemma_scaled_magnitude_order(0, a as nat);
            lemma_scaled_magnitude_order(0, b as nat);
        }
        if self.bits >= SIGN_BIT {
            if other.bits >= SIGN_BIT {
                a <= b
            } else {
                a == 0 && b == 0
            }
        } else {
            other.bits >= SIGN_BIT || a >= b
        }
    }
}

/// One step up in the magnitude bits is one step up in the encoded number.
proof fn lemma_scaled_magnitude_step(magnitude: nat)
    ensures
        scaled_magnitude(magnitude) < scaled_magnitude(magnitude + 1),
{
    let span = FRACTION_SPAN as nat;
    let exponent = magnitude / span;
    let fraction = magnitude % span;
    if fraction + 1 < span {
        assert((magnitude + 1) / span == exponent && (magnitude + 1) % span == fraction + 1);
        if exponent > 0 {
            let weight = pow2((exponent - 1) as nat);
            lemma_pow2_pos((exponent - 1) as nat);
            lemma_mul_strict_inequality(
                (span + fraction) as int,
                (span + fraction + 1) as int,
                weight as int,
            );
        }
    } else {
        assert((magnitude + 1) / span == exponent + 1 && (magnitude + 1) % span == 0);
        if exponent == 0 {
            lemma2_to64();
            assert(scaled_magnitude(magnitude + 1) == span * pow2(0));
        } else {
            let weight = pow2((exponent - 1) as nat);
            lemma_pow2_pos((exponent - 1) as nat);
            lemma_pow2_unfold(exponent);
            assert(((exponent + 1) - 1) as nat == exponent);
            assert(scaled_magnitude(magnitude + 1) == span * pow2(exponent));
            assert(span * (2 * weight) == (2 * span) * weight) by (nonlinear_arith);
            lemma_mul_strict_inequality(
                (span + fraction) as int,
                (2 * span) as int,
                weight as int,
            );
        }
    }
}

/// The magnitude bits are ordered as the numbers that they encode.
pub proof fn lemma_scaled_magnitude_order(low: nat, high: nat)
    ensures
        low < high ==> scaled_magnitude(low) < scaled_magnitude(high),
    decreases high,
{
    if low < high {
        let below = (high - 1) as nat;
        lemma_scaled_magnitude_step(below);
        lemma_scaled_magnitude_order(low, below);
    }
}

/// How a bit pattern encodes a number.  The top bit is the sign, and setting it
/// negates the number.  Patterns below 2^53 count the smallest positive number.
/// From 2^52 on, one step in the exponent, which is 2^52 in the pattern, doubles
/// the number.  An exponent of all ones is no finite number, and with a fraction
/// other than zero it is no number at all.
pub proof fn law_price_encoding(price: Price, other: Price)
    ensures
        price.negative() == (price.bits >= 0x8000_0000_0000_0000),
        price.finite() == ((price.bits / 0x10_0000_0000_0000) % 2048 != 2047),
        price.nan() == ((price.bits / 0x10_0000_0000_0000) % 2048 == 2047 && price.bits
            % 0x10_0000_0000_0000 != 0),
        price.bits < 0x20_0000_0000_0000 ==> price.scaled() == price.bits,
        price.bits >= 0x10_0000_0000_0000 && other.bits == price.bits + 0x10_0000_0000_0000
            && other.bits < 0x8000_0000_0000_0000 ==> other.scaled() == 2 * price.scaled(),
        other.bits == price.bits + 0x8000_0000_0000_0000 ==> other.scaled() == -price.scaled(),
{
    let m = price.magnitude();
    let span = FRACTION_SPAN as nat;
    assert(m / span == (price.bits as nat / span) % 2048 && m % span == price.bits as nat % span)
        by {
        let bits = price.bits;
        assert(bits % 0x8000_0000_0000_0000 / 0x10_0000_0000_0000 == (bits / 0x10_0000_0000_0000)
            % 2048 && (bits % 0x8000_0000_0000_0000) % 0x10_0000_0000_0000 == bits
            % 0x10_0000_0000_0000) by (bit_vector);
    }
    lemma2_to64();
    let exponent = m / span;
    if price.bits >= 0x10_0000_0000_0000 && other.bits == price.bits + 0x10_0000_0000_0000
        && other.bits < 0x8000_0000_0000_0000 {
        assert((m + span) / span == exponent + 1 && (m + span) % span == m % span);
        assert(other.magnitude() == m + span);
        lemma_pow2_unfold(exponent);
        assert(((exponent + 1) - 1) as nat == exponent);
        let weight = pow2((exponent - 1) as nat);
        let significand = span + m % span;
        assert(significand * (2 * weight) == 2 * (significand * weight)) by (nonlinear_arith);
    }
    if price.bits < 0x20_0000_0000_0000 && exponent == 1 {
        assert(pow2(0) == 1);
        assert((span + m % span) * 1 == m);
    }
}

/// The comparison `>=` is that of the encoded numbers; a NaN is at or above
/// nothing, and nothing is at or above a NaN.
pub proof fn law_comparison_is_numeric(a: Price, b: Price)
    ensures
        !a.nan() && !b.nan() ==> a.reaches(b) == (a.scaled() >= b.scaled()),
        a.nan() || b.nan() ==> !a.reaches(b),
{
}

} // verus!
