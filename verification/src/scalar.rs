//! The scalar type of the engine: an IEEE 754 binary64 value held by its bits.

use crate::ieee::{
    binary64_difference, binary64_product, binary64_quotient, binary64_sum, rounded_difference,
    rounded_product, rounded_quotient, rounded_sum,
};
use vstd::prelude::*;
use vstd::std_specs::cmp::PartialEqSpecImpl;

verus! {

/// The sign bit of a binary64 pattern.
pub const SIGN_BIT: u64 = 0x8000_0000_0000_0000;

/// The pattern of positive infinity; every magnitude above it is a NaN.
pub const INFINITY_BITS: u64 = 0x7ff0_0000_0000_0000;

/// The pattern of `1.0`.
pub const ONE_BITS: u64 = 0x3ff0_0000_0000_0000;

/// The pattern of `-1.0`.
pub const MINUS_ONE_BITS: u64 = 0xbff0_0000_0000_0000;

/// A binary64 value, identified with its 64-bit interchange encoding.
#[derive(Clone, Copy, Debug)]
pub struct Scalar {
    pub bits: u64,
}

impl Scalar {
    /// The encoding with its sign bit cleared.
    pub open spec fn magnitude(self) -> u64 {
        if self.bits >= SIGN_BIT {
            (self.bits - SIGN_BIT) as u64
        } else {
            self.bits
        }
    }

    /// Positive or negative zero.
    pub open spec fn spec_is_zero(self) -> bool {
        self.magnitude() == 0
    }

    /// Any NaN, quiet or signalling, whatever its payload.
    pub open spec fn spec_is_nan(self) -> bool {
        self.magnitude() > INFINITY_BITS
    }

    /// Numeric equality: no NaN equals anything, the two zeros are equal,
    /// and otherwise the encodings must coincide.
    pub open spec fn same_value(self, other: Scalar) -> bool {
        &&& !self.spec_is_nan()
        &&& !other.spec_is_nan()
        &&& (self.bits == other.bits || (self.spec_is_zero() && other.spec_is_zero()))
    }

    /// The value with its sign flipped.
    pub open spec fn spec_negate(self) -> Scalar {
        if self.bits >= SIGN_BIT {
            Scalar { bits: (self.bits - SIGN_BIT) as u64 }
        } else {
            Scalar { bits: (self.bits + SIGN_BIT) as u64 }
        }
    }

    /// The rounded sum `self + other`.
    pub open spec fn spec_plus(self, other: Scalar) -> Scalar {
        Scalar { bits: binary64_sum(self.bits, other.bits) }
    }

    /// The rounded difference `self - other`.
    pub open spec fn spec_minus(self, other: Scalar) -> Scalar {
        Scalar { bits: binary64_difference(self.bits, other.bits) }
    }

    /// The rounded product `self * other`.
    pub open spec fn spec_times(self, other: Scalar) -> Scalar {
        Scalar { bits: binary64_product(self.bits, other.bits) }
    }

    /// The rounded quotient `self / other`.
    pub open spec fn spec_over(self, other: Scalar) -> Scalar {
        Scalar { bits: binary64_quotient(self.bits, other.bits) }
    }

    /// Positive zero.
    pub open spec fn spec_zero() -> Scalar {
        Scalar { bits: 0 }
    }

    /// The value `1.0`.
    pub open spec fn spec_one() -> Scalar {
        Scalar { bits: ONE_BITS }
    }

    /// The scalar with the given encoding.
    pub fn from_bits(bits: u64) -> (r: Scalar)
        ensures
            r.bits == bits,
    {
        Scalar { bits }
    }

    /// The encoding of the scalar.
    pub fn to_bits(self) -> (r: u64)
        ensures
            r == self.bits,
    {
        self.bits
    }

    /// Positive zero.
    #[verifier::when_used_as_spec(spec_zero)]
    pub fn zero() -> (r: Scalar)
        ensures
            r == Scalar::spec_zero(),
    {
        Scalar { bits: 0 }
    }

    /// The value `1.0`.
    #[verifier::when_used_as_spec(spec_one)]
    pub fn one() -> (r: Scalar)
        ensures
            r == Scalar::spec_one(),
    {
        Scalar { bits: ONE_BITS }
    }

    /// Whether the value is positive or negative zero.
    #[verifier::when_used_as_spec(spec_is_zero)]
    pub fn is_zero(self) -> (r: bool)
        ensures
            r == self.spec_is_zero(),
    {
        self.bits == 0 || self.bits == SIGN_BIT
    }

    /// Whether the value is a NaN.
    #[verifier::when_used_as_spec(spec_is_nan)]
    pub fn is_nan(self) -> (r: bool)
        ensures
            r == self.spec_is_nan(),
    {
        if self.bits >= SIGN_BIT {
            self.bits - SIGN_BIT > INFINITY_BITS
        } else {
            self.bits > INFINITY_BITS
        }
    }

    /// Flips the sign. This is exact for every value, NaNs included.
    #[verifier::when_used_as_spec(spec_negate)]
    pub fn negate(self) -> (r: Scalar)
        ensures
            r == self.spec_negate(),
    {
        if self.bits >= SIGN_BIT {
            Scalar { bits: self.bits - SIGN_BIT }
        } else {
            Scalar { bits: self.bits + SIGN_BIT }
        }
    }

    /// `self + other`, rounded to nearest.
    #[verifier::when_used_as_spec(spec_plus)]
    pub fn plus(self, other: Scalar) -> (r: Scalar)
        ensures
            r == self.spec_plus(other),
    {
        Scalar { bits: rounded_sum(self.bits, other.bits) }
    }

    /// `self - other`, rounded to nearest.
    #[verifier::when_used_as_spec(spec_minus)]
    pub fn minus(self, other: Scalar) -> (r: Scalar)
        ensures
            r == self.spec_minus(other),
    {
        Scalar { bits: rounded_difference(self.bits, other.bits) }
    }

    /// `self * other`, rounded to nearest.
    #[verifier::when_used_as_spec(spec_times)]
    pub fn times(self, other: Scalar) -> (r: Scalar)
        ensures
            r == self.spec_times(other),
    {
        Scalar { bits: rounded_product(self.bits, other.bits) }
    }

    /// `self / other`, rounded to nearest. Dividing by zero is not an error:
    /// the quotient is then an infinity or a NaN.
    #[verifier::when_used_as_spec(spec_over)]
    pub fn over(self, other: Scalar) -> (r: Scalar)
        ensures
            r == self.spec_over(other),
    {
        Scalar { bits: rounded_quotient(self.bits, other.bits) }
    }
}

impl PartialEq for Scalar {
    fn eq(&self, other: &Scalar) -> (r: bool) {
        !self.is_nan() && !other.is_nan() && (self.bits == other.bits || (self.is_zero()
            && other.is_zero()))
    }
}

impl PartialEqSpecImpl for Scalar {
    open spec fn obeys_eq_spec() -> bool {
        true
    }

    open spec fn eq_spec(&self, other: &Scalar) -> bool {
        self.same_value(*other)
    }
}

} // verus!
