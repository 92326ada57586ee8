//! Real numbers as the table and the record tree carry them.
//!
//! The transform never computes with a real number: it copies values between
//! the tree and the table and, where a value is absent, writes a marker in its
//! place. A value is therefore kept by its IEEE 754 bit pattern, which makes
//! "copied verbatim" a statement about integers.

use vstd::prelude::*;

verus! {

/// Bit pattern of the quiet not-a-number value that marks an absent component.
pub const NAN_BITS: u64 = 0x7ff8_0000_0000_0000;

/// Mask of the exponent field of a binary64 value.
pub const EXPONENT_MASK: u64 = 0x7ff0_0000_0000_0000;

/// Mask of the fraction field of a binary64 value.
pub const FRACTION_MASK: u64 = 0x000f_ffff_ffff_ffff;

/// An IEEE 754 binary64 value, held by its bit pattern.
#[derive(Clone, Copy, Debug, PartialEq, Eq, Structural)]
pub struct Double {
    pub bits: u64,
}

/// An IEEE 754 binary32 value, held by its bit pattern.
#[derive(Clone, Copy, Debug, PartialEq, Eq, Structural)]
pub struct Single {
    pub bits: u32,
}

impl Double {
    /// The marker written where a component is absent.
    pub open spec fn spec_nan() -> Double {
        Double { bits: NAN_BITS }
    }

    /// Positive zero.
    pub open spec fn spec_zero() -> Double {
        Double { bits: 0 }
    }

    /// Whether the value is a not-a-number: every exponent bit set and a
    /// fraction that is not zero.
    pub open spec fn spec_is_nan(self) -> bool {
        self.bits & EXPONENT_MASK == EXPONENT_MASK && self.bits & FRACTION_MASK != 0
    }

    #[verifier::when_used_as_spec(spec_nan)]
    pub fn nan() -> (d: Double)
        ensures
            d == Double::spec_nan(),
    {
        Double { bits: NAN_BITS }
    }

    #[verifier::when_used_as_spec(spec_zero)]
    pub fn zero() -> (d: Double)
        ensures
            d == Double::spec_zero(),
    {
        Double { bits: 0 }
    }

    pub fn from_bits(bits: u64) -> (d: Double)
        ensures
            d.bits == bits,
    {
        Double { bits }
    }

    pub fn to_bits(self) -> (bits: u64)
        ensures
            bits == self.bits,
    {
        self.bits
    }

    #[verifier::when_used_as_spec(spec_is_nan)]
    pub fn is_nan(self) -> (b: bool)
        ensures
            b == self.spec_is_nan(),
    {
        self.bits & EXPONENT_MASK == EXPONENT_MASK && self.bits & FRACTION_MASK != 0
    }

    /// The value of a table cell that may be null: the cell's value, or the
    /// marker where the cell is null.
    pub open spec fn spec_or_nan(cell: Option<Double>) -> Double {
        match cell {
            Some(d) => d,
            None => Double::spec_nan(),
        }
    }

    #[verifier::when_used_as_spec(spec_or_nan)]
    pub fn or_nan(cell: Option<Double>) -> (d: Double)
        ensures
            d == Double::spec_or_nan(cell),
    {
        match cell {
            Some(d) => d,
            None => Double::nan(),
        }
    }
}

impl Single {
    /// Positive zero.
    pub open spec fn spec_zero() -> Single {
        Single { bits: 0 }
    }

    #[verifier::when_used_as_spec(spec_zero)]
    pub fn zero() -> (s: Single)
        ensures
            s == Single::spec_zero(),
    {
        Single { bits: 0 }
    }

    pub fn from_bits(bits: u32) -> (s: Single)
        ensures
            s.bits == bits,
    {
        Single { bits }
    }

    pub fn to_bits(self) -> (bits: u32)
        ensures
            bits == self.bits,
    {
        self.bits
    }

    /// The value of a table cell that may be null: the cell's value, or zero
    /// where the cell is null.
    pub open spec fn spec_or_zero(cell: Option<Single>) -> Single {
        match cell {
            Some(s) => s,
            None => Single::spec_zero(),
        }
    }

    #[verifier::when_used_as_spec(spec_or_zero)]
    pub fn or_zero(cell: Option<Single>) -> (s: Single)
        ensures
            s == Single::spec_or_zero(cell),
    {
        match cell {
            Some(s) => s,
            None => Single::zero(),
        }
    }
}

/// The value of an integer cell that may be null: the cell's value, or zero
/// where the cell is null.
pub open spec fn spec_int_or_zero(cell: Option<i32>) -> i32 {
    match cell {
        Some(v) => v,
        None => 0,
    }
}

#[verifier::when_used_as_spec(spec_int_or_zero)]
pub fn int_or_zero(cell: Option<i32>) -> (v: i32)
    ensures
        v == spec_int_or_zero(cell),
{
    match cell {
        Some(v) => v,
        None => 0,
    }
}

/// The marker is a not-a-number, and a null cell reads as one.
pub proof fn lemma_marker_is_nan()
    ensures
        Double::spec_nan().spec_is_nan(),
        Double::spec_or_nan(None).spec_is_nan(),
{
    assert(NAN_BITS & EXPONENT_MASK == EXPONENT_MASK && NAN_BITS & FRACTION_MASK != 0) by (bit_vector);
}

} // verus!
