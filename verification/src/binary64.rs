//! IEEE 754 binary64 numbers held by their bit patterns.
//!
//! The order of two numbers can be read off their patterns: below the sign bit, a
//! larger pattern is a number of larger magnitude.

use vstd::prelude::*;

verus! {

/// The pattern that holds the sign bit alone.
pub const SIGN_BIT: u64 = 0x8000_0000_0000_0000;

/// The pattern of positive infinity; larger magnitudes are not numbers.
pub const INFINITY_BITS: u64 = 0x7ff0_0000_0000_0000;

/// The pattern of 1.
pub const ONE_BITS: u64 = 0x3ff0_0000_0000_0000;

/// A binary64 number.
#[derive(Debug, Clone, Copy, PartialEq, Eq, Structural)]
pub struct Binary64 {
    /// The bit pattern: sign, exponent, fraction.
    pub bits: u64,
}

impl Binary64 {
    /// The pattern without the sign bit.
    pub open spec fn magnitude(self) -> int {
        if self.bits >= SIGN_BIT {
            self.bits - SIGN_BIT
        } else {
            self.bits as int
        }
    }

    /// Whether the pattern is not a number.
    pub open spec fn is_nan_spec(self) -> bool {
        self.magnitude() > INFINITY_BITS
    }

    /// Whether the pattern is a finite number.
    pub open spec fn is_finite_spec(self) -> bool {
        self.magnitude() < INFINITY_BITS
    }

    /// The place of a number in the order of numbers; both zeros share one.
    pub open spec fn rank(self) -> int {
        if self.bits >= SIGN_BIT {
            -self.magnitude()
        } else {
            self.magnitude()
        }
    }

    /// Whether `self < other` as numbers; false when either is not a number.
    pub open spec fn below(self, other: Binary64) -> bool {
        !self.is_nan_spec() && !other.is_nan_spec() && self.rank() < other.rank()
    }

    /// Whether `self <= other` as numbers; false when either is not a number.
    pub open spec fn at_most(self, other: Binary64) -> bool {
        !self.is_nan_spec() && !other.is_nan_spec() && self.rank() <= other.rank()
    }

    /// The number 0.
    pub open spec fn zero_spec() -> Binary64 {
        Binary64 { bits: 0 }
    }

    /// The number 1.
    pub open spec fn one_spec() -> Binary64 {
        Binary64 { bits: ONE_BITS }
    }

    /// Whether the number is greater than 0.
    pub open spec fn positive(self) -> bool {
        Binary64::zero_spec().below(self)
    }

    /// Whether the number is in `[0, 1]`.
    pub open spec fn in_unit(self) -> bool {
        Binary64::zero_spec().at_most(self) && self.at_most(Binary64::one_spec())
    }

    /// The nearest number in `[0, 1]`; a pattern that is not a number stays.
    pub open spec fn clamped(self) -> Binary64 {
        if self.below(Binary64::zero_spec()) {
            Binary64::zero_spec()
        } else if Binary64::one_spec().below(self) {
            Binary64::one_spec()
        } else {
            self
        }
    }

    /// The number with the given pattern.
    pub fn from_bits(bits: u64) -> (r: Binary64)
        ensures
            r.bits == bits,
    {
        Binary64 { bits }
    }

    /// The number 0.
    pub fn zero() -> (r: Binary64)
        ensures
            r == Binary64::zero_spec(),
    {
        Binary64 { bits: 0 }
    }

    /// The number 1.
    pub fn one() -> (r: Binary64)
        ensures
            r == Binary64::one_spec(),
    {
        Binary64 { bits: ONE_BITS }
    }

    /// Whether the pattern is not a number.
    pub fn is_nan(self) -> (r: bool)
        ensures
            r == self.is_nan_spec(),
    {
        if self.bits >= SIGN_BIT {
            self.bits - SIGN_BIT > INFINITY_BITS
        } else {
            self.bits > INFINITY_BITS
        }
    }

    /// Whether the pattern is a finite number.
    pub fn is_finite(self) -> (r: bool)
        ensures
            r == self.is_finite_spec(),
    {
        if self.bits >= SIGN_BIT {
            self.bits - SIGN_BIT < INFINITY_BITS
        } else {
            self.bits < INFINITY_BITS
        }
    }

    /// Whether `self < other` as numbers.
    pub fn less_than(self, other: Binary64) -> (r: bool)
        ensures
            r == self.below(other),
    {
        if self.is_nan() || other.is_nan() {
            false
        } else if self.bits >= SIGN_BIT {
            if other.bits >= SIGN_BIT {
                self.bits > other.bits
            } else {
                self.bits > SIGN_BIT || other.bits > 0
            }
        } else {
            other.bits < SIGN_BIT && self.bits < other.bits
        }
    }

    /// Whether `self <= other` as numbers.
    pub fn no_more_than(self, other: Binary64) -> (r: bool)
        ensures
            r == self.at_most(other),
    {
        !self.is_nan() && !other.is_nan() && !other.less_than(self)
    }

    /// Whether the number is greater than 0.
    pub fn is_positive(self) -> (r: bool)
        ensures
            r == self.positive(),
    {
        Binary64::zero().less_than(self)
    }

    /// Whether the number is in `[0, 1]`.
    pub fn is_unit(self) -> (r: bool)
        ensures
            r == self.in_unit(),
    {
        Binary64::zero().no_more_than(self) && self.no_more_than(Binary64::one())
    }

    /// The nearest number in `[0, 1]`.
    pub fn clamp_unit(self) -> (r: Binary64)
        ensures
            r == self.clamped(),
    {
        if self.less_than(Binary64::zero()) {
            Binary64::zero()
        } else if Binary64::one().less_than(self) {
            Binary64::one()
        } else {
            self
        }
    }
}

/// Clamping gives a number in `[0, 1]`, keeps one that is there already, and
/// clamping again changes nothing.
pub proof fn law_clamped_is_unit(x: Binary64)
    requires
        !x.is_nan_spec(),
    ensures
        x.clamped().in_unit(),
        x.in_unit() ==> x.clamped() == x,
        x.clamped().clamped() == x.clamped(),
{
}

} // verus!
