//! Double-precision scalars held as bit patterns, and the comparisons the
//! library makes on them.

use vstd::prelude::*;

verus! {

/// Bit pattern whose only set bit is the sign bit.
pub const SIGN_BIT: u64 = 0x8000_0000_0000_0000;

/// Bit pattern of positive infinity; every larger magnitude is a NaN.
pub const INFINITY_BITS: u64 = 0x7ff0_0000_0000_0000;

/// Bit pattern of `1.0`.
pub const ONE_BITS: u64 = 0x3ff0_0000_0000_0000;

/// Bit pattern of `100.0`.
pub const HUNDRED_BITS: u64 = 0x4059_0000_0000_0000;

/// The four arithmetic primitives on scalars.
#[derive(Clone, Copy, Debug, PartialEq, Eq, Structural)]
pub enum Primitive {
    Sum,
    Difference,
    Product,
    Quotient,
}

/// A double-precision number, identified by its IEEE-754 bit pattern.
///
/// Derived equality is equality of bit patterns; numeric equality is
/// [`Scalar::same_number`].
#[derive(Clone, Copy, Debug, PartialEq, Eq, Structural)]
pub struct Scalar {
    pub bits: u64,
}

/// What an arithmetic unit may give: applied to a primitive, its two
/// operands and a result, it says whether the unit may give that result for
/// that primitive on those operands.
pub type Arithmetic = spec_fn(Primitive, Scalar, Scalar, Scalar) -> bool;

/// What the given unit may give: what its postcondition admits.
pub open spec fn arithmetic_of<U: Fn(Primitive, Scalar, Scalar) -> Scalar>(unit: U) -> Arithmetic {
    |p: Primitive, x: Scalar, y: Scalar, r: Scalar| unit.ensures((p, x, y), r)
}

/// The arithmetic unit can be called on every pair of scalars.
pub open spec fn total<U: Fn(Primitive, Scalar, Scalar) -> Scalar>(unit: U) -> bool {
    forall|p: Primitive, x: Scalar, y: Scalar| #[trigger] unit.requires((p, x, y))
}

impl Scalar {
    /// The bit pattern with the sign bit cleared.
    pub open spec fn magnitude(&self) -> u64 {
        if self.bits >= SIGN_BIT {
            (self.bits - SIGN_BIT) as u64
        } else {
            self.bits
        }
    }

    /// The sign bit is set.
    pub open spec fn sign(&self) -> bool {
        self.bits >= SIGN_BIT
    }

    /// Not a number.
    pub open spec fn spec_is_nan(&self) -> bool {
        self.magnitude() > INFINITY_BITS
    }

    /// Numerically zero, of either sign.
    pub open spec fn spec_is_zero(&self) -> bool {
        self.magnitude() == 0
    }

    /// Numerically greater than zero (positive infinity included, NaN excluded).
    pub open spec fn spec_is_positive(&self) -> bool {
        0 < self.bits <= INFINITY_BITS
    }

    /// Numerically less than or equal to zero (NaN excluded).
    pub open spec fn spec_at_most_zero(&self) -> bool {
        !self.spec_is_nan() && (self.spec_is_zero() || self.sign())
    }

    /// Numerically greater than or equal to one (NaN excluded).
    pub open spec fn spec_at_least_one(&self) -> bool {
        ONE_BITS <= self.bits <= INFINITY_BITS
    }

    /// Numeric equality: no NaN equals anything, and the two zeros are equal.
    pub open spec fn spec_same_number(&self, other: &Scalar) -> bool {
        &&& !self.spec_is_nan()
        &&& !other.spec_is_nan()
        &&& (self.bits == other.bits || (self.spec_is_zero() && other.spec_is_zero()))
    }

    /// The scalar with the given bit pattern.
    pub fn from_bits(bits: u64) -> (r: Scalar)
        ensures
            r.bits == bits,
    {
        Scalar { bits }
    }

    /// The bit pattern of this scalar.
    pub fn to_bits(&self) -> (r: u64)
        ensures
            r == self.bits,
    {
        self.bits
    }

    /// Positive zero.
    pub fn zero() -> (r: Scalar)
        ensures
            r.bits == 0,
    {
        Scalar { bits: 0 }
    }

    /// The number one.
    pub fn one() -> (r: Scalar)
        ensures
            r.bits == ONE_BITS,
    {
        Scalar { bits: ONE_BITS }
    }

    /// The number one hundred.
    pub fn hundred() -> (r: Scalar)
        ensures
            r.bits == HUNDRED_BITS,
    {
        Scalar { bits: HUNDRED_BITS }
    }

    fn magnitude_bits(&self) -> (r: u64)
        ensures
            r == self.magnitude(),
    {
        if self.bits >= SIGN_BIT {
            self.bits - SIGN_BIT
        } else {
            self.bits
        }
    }

    /// Whether the scalar is not a number.
    #[verifier::when_used_as_spec(spec_is_nan)]
    pub fn is_nan(&self) -> (r: bool)
        ensures
            r == self.spec_is_nan(),
    {
        self.magnitude_bits() > INFINITY_BITS
    }

    /// Whether the scalar is zero, of either sign.
    #[verifier::when_used_as_spec(spec_is_zero)]
    pub fn is_zero(&self) -> (r: bool)
        ensures
            r == self.spec_is_zero(),
    {
        self.magnitude_bits() == 0
    }

    /// Whether the scalar is greater than zero.
    #[verifier::when_used_as_spec(spec_is_positive)]
    pub fn is_positive(&self) -> (r: bool)
        ensures
            r == self.spec_is_positive(),
    {
        0 < self.bits && self.bits <= INFINITY_BITS
    }

    /// Whether the scalar is less than or equal to zero.
    #[verifier::when_used_as_spec(spec_at_most_zero)]
    pub fn at_most_zero(&self) -> (r: bool)
        ensures
            r == self.spec_at_most_zero(),
    {
        !self.is_nan() && (self.is_zero() || self.bits >= SIGN_BIT)
    }

    /// Whether the scalar is greater than or equal to one.
    #[verifier::when_used_as_spec(spec_at_least_one)]
    pub fn at_least_one(&self) -> (r: bool)
        ensures
            r == self.spec_at_least_one(),
    {
        ONE_BITS <= self.bits && self.bits <= INFINITY_BITS
    }

    /// Whether the two scalars are the same number.
    #[verifier::when_used_as_spec(spec_same_number)]
    pub fn same_number(&self, other: &Scalar) -> (r: bool)
        ensures
            r == self.spec_same_number(other),
    {
        !self.is_nan() && !other.is_nan() && (self.bits == other.bits || (self.is_zero()
            && other.is_zero()))
    }
}

} // verus!
