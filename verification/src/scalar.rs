//! Double-precision numbers carried by their IEEE 754 bit patterns.
//!
//! The engine never computes with these numbers: sums, products and roots are
//! the caller's business. What it does with them is compare, select and
//! arrange, and for that the bit pattern is enough: the order of two numbers
//! can be read off their patterns with integer arithmetic alone.

use vstd::prelude::*;

verus! {

/// The bit that holds the sign of a number.
pub const SIGN_BIT: u64 = 0x8000_0000_0000_0000;

/// The magnitude bits of the two infinities. A larger magnitude is not a number.
pub const INFINITY_MAGNITUDE: u64 = 0x7FF0_0000_0000_0000;

/// The pattern of positive zero.
pub const ZERO_BITS: u64 = 0;

/// The pattern of one.
pub const ONE_BITS: u64 = 0x3FF0_0000_0000_0000;

/// The pattern of positive infinity.
pub const INFINITY_BITS: u64 = 0x7FF0_0000_0000_0000;

/// The pattern of negative infinity.
pub const NEG_INFINITY_BITS: u64 = 0xFFF0_0000_0000_0000;

/// The pattern of the least finite number.
pub const LOWEST_BITS: u64 = 0xFFEF_FFFF_FFFF_FFFF;

/// A pattern that is not a number.
pub const NAN_BITS: u64 = 0x7FF8_0000_0000_0000;

/// The pattern of the tolerance `1e-6` within which a weight vector sums to one.
pub const TOLERANCE_BITS: u64 = 0x3EB0_C6F7_A0B5_ED8D;

/// A double-precision number, held by its bit pattern.
#[derive(Clone, Copy, Debug, PartialEq, Eq, Structural)]
pub struct Scalar {
    pub bits: u64,
}

impl Scalar {
    /// The pattern without its sign bit.
    pub open spec fn magnitude(self) -> int {
        if self.bits >= SIGN_BIT {
            self.bits - SIGN_BIT
        } else {
            self.bits as int
        }
    }

    /// Whether the pattern stands for no number at all.
    pub open spec fn spec_is_nan(self) -> bool {
        self.magnitude() > INFINITY_MAGNITUDE
    }

    /// An integer that orders the numbers as their values are ordered: of two
    /// numbers the smaller has the smaller rank, and the two zeros share rank 0.
    pub open spec fn rank(self) -> int {
        if self.bits >= SIGN_BIT {
            -self.magnitude()
        } else {
            self.magnitude()
        }
    }

    /// `self < other` as IEEE 754 defines it: false as soon as one side is
    /// not a number.
    pub open spec fn spec_lt(self, other: Scalar) -> bool {
        !self.spec_is_nan() && !other.spec_is_nan() && self.rank() < other.rank()
    }

    /// `self <= other` as IEEE 754 defines it.
    pub open spec fn spec_le(self, other: Scalar) -> bool {
        !self.spec_is_nan() && !other.spec_is_nan() && self.rank() <= other.rank()
    }

    /// `self > other` as IEEE 754 defines it.
    pub open spec fn spec_gt(self, other: Scalar) -> bool {
        other.spec_lt(self)
    }

    /// `self >= other` as IEEE 754 defines it.
    pub open spec fn spec_ge(self, other: Scalar) -> bool {
        other.spec_le(self)
    }

    /// The number with the given bit pattern.
    pub fn from_bits(bits: u64) -> (r: Scalar)
        ensures
            r.bits == bits,
    {
        Scalar { bits }
    }

    /// Positive zero.
    pub fn zero() -> (r: Scalar)
        ensures
            r.bits == ZERO_BITS,
            r.rank() == 0,
            !r.spec_is_nan(),
    {
        Scalar { bits: ZERO_BITS }
    }

    /// The tolerance `1e-6`.
    pub fn tolerance() -> (r: Scalar)
        ensures
            r.bits == TOLERANCE_BITS,
            !r.spec_is_nan(),
    {
        Scalar { bits: TOLERANCE_BITS }
    }

    /// One.
    pub fn one() -> (r: Scalar)
        ensures
            r.bits == ONE_BITS,
            !r.spec_is_nan(),
    {
        Scalar { bits: ONE_BITS }
    }

    /// The larger of two numbers. Where one of them is not a number, the
    /// other one; of two equal numbers, the first.
    pub open spec fn spec_larger(self, other: Scalar) -> Scalar {
        if self.spec_is_nan() {
            other
        } else if other.spec_is_nan() {
            self
        } else if self.rank() < other.rank() {
            other
        } else {
            self
        }
    }

    /// The smaller of two numbers. Where one of them is not a number, the
    /// other one; of two equal numbers, the first.
    pub open spec fn spec_smaller(self, other: Scalar) -> Scalar {
        if self.spec_is_nan() {
            other
        } else if other.spec_is_nan() {
            self
        } else if other.rank() < self.rank() {
            other
        } else {
            self
        }
    }

    #[verifier::when_used_as_spec(spec_is_nan)]
    pub fn is_nan(self) -> (r: bool)
        ensures
            r == self.spec_is_nan(),
    {
        if self.bits >= SIGN_BIT {
            self.bits - SIGN_BIT > INFINITY_MAGNITUDE
        } else {
            self.bits > INFINITY_MAGNITUDE
        }
    }

    /// The rank as a machine integer.
    pub fn rank_value(self) -> (r: i64)
        ensures
            r == self.rank(),
    {
        if self.bits >= SIGN_BIT {
            let magnitude: u64 = self.bits - SIGN_BIT;
            -(magnitude as i64)
        } else {
            self.bits as i64
        }
    }

    #[verifier::when_used_as_spec(spec_lt)]
    pub fn lt(self, other: Scalar) -> (r: bool)
        ensures
            r == self.spec_lt(other),
    {
        !self.is_nan() && !other.is_nan() && self.rank_value() < other.rank_value()
    }

    #[verifier::when_used_as_spec(spec_le)]
    pub fn le(self, other: Scalar) -> (r: bool)
        ensures
            r == self.spec_le(other),
    {
        !self.is_nan() && !other.is_nan() && self.rank_value() <= other.rank_value()
    }

    #[verifier::when_used_as_spec(spec_gt)]
    pub fn gt(self, other: Scalar) -> (r: bool)
        ensures
            r == self.spec_gt(other),
    {
        other.lt(self)
    }

    #[verifier::when_used_as_spec(spec_ge)]
    pub fn ge(self, other: Scalar) -> (r: bool)
        ensures
            r == self.spec_ge(other),
    {
        other.le(self)
    }

    #[verifier::when_used_as_spec(spec_larger)]
    pub fn larger(self, other: Scalar) -> (r: Scalar)
        ensures
            r == self.spec_larger(other),
    {
        if self.is_nan() {
            other
        } else if other.is_nan() {
            self
        } else if self.rank_value() < other.rank_value() {
            other
        } else {
            self
        }
    }

    #[verifier::when_used_as_spec(spec_smaller)]
    pub fn smaller(self, other: Scalar) -> (r: Scalar)
        ensures
            r == self.spec_smaller(other),
    {
        if self.is_nan() {
            other
        } else if other.is_nan() {
            self
        } else if other.rank_value() < self.rank_value() {
            other
        } else {
            self
        }
    }
}

/// Whether no entry of `values` is not-a-number.
pub open spec fn all_numbers(values: Seq<Scalar>) -> bool {
    forall|i: int| 0 <= i < values.len() ==> !(#[trigger] values[i]).spec_is_nan()
}

} // verus!
