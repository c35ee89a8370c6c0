//! Rotation angles, carried as the bit patterns of IEEE-754 doubles.
use vstd::prelude::*;

verus! {

/// The sign bit of an IEEE-754 double.
pub const SIGN_BIT: u64 = 0x8000_0000_0000_0000u64;

/// The bit pattern of the double nearest to pi.
pub const PI_BITS: u64 = 0x4009_21FB_5444_2D18u64;

/// One unit of the exponent field of an IEEE-754 double.
pub const EXPONENT_UNIT: u64 = 0x0010_0000_0000_0000u64;

/// An angle in radians, held as the bit pattern of the `f64` that gives it.
///
/// The arithmetic that gates need on angles is exact on bit patterns:
/// negating a double flips its sign bit, and halving a normal double
/// lowers its exponent field by one.
#[derive(Clone, Copy, Debug, PartialEq, Eq, Structural)]
pub struct Angle {
    pub bits: u64,
}

impl Angle {
    /// The angle whose double has the bit pattern `bits`.
    pub fn from_bits(bits: u64) -> (a: Angle)
        ensures
            a.bits == bits,
    {
        Angle { bits }
    }

    /// The bit pattern of the angle's double.
    pub fn to_bits(self) -> (bits: u64)
        ensures
            bits == self.bits,
    {
        self.bits
    }

    /// The opposite angle.
    pub open spec fn neg_spec(self) -> Angle {
        Angle { bits: self.bits ^ SIGN_BIT }
    }

    /// The angle pi / 2^n (`PI * 0.5.powi(n)`), exact while it stays a normal double.
    pub open spec fn pi_over_pow2_spec(n: nat) -> Angle {
        Angle { bits: (PI_BITS - n * EXPONENT_UNIT) as u64 }
    }

    /// Returns the opposite angle.
    pub fn neg(self) -> (a: Angle)
        ensures
            a == self.neg_spec(),
    {
        Angle { bits: self.bits ^ SIGN_BIT }
    }

    /// Returns the angle pi / 2^n. Up to this bound the result is a normal
    /// double, so that it is exact.
    pub fn pi_over_pow2(n: u32) -> (a: Angle)
        requires
            n <= 1023,
        ensures
            a == Angle::pi_over_pow2_spec(n as nat),
    {
        Angle { bits: PI_BITS - (n as u64) * EXPONENT_UNIT }
    }
}

/// Negating an angle twice gives it back.
pub proof fn lemma_neg_involutive(a: Angle)
    ensures
        a.neg_spec().neg_spec() == a,
{
    let b = a.bits;
    assert((b ^ 0x8000_0000_0000_0000u64) ^ 0x8000_0000_0000_0000u64 == b) by (bit_vector);
}

} // verus!
