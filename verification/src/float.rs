//! Binary64 numbers as bit patterns.
//!
//! The library never computes with such a number. It carries the pattern and
//! orders two of them, which needs integer comparisons only: the numbers that
//! are not NaN are ordered by sign and magnitude, and the two zeros are equal.

use vstd::prelude::*;

verus! {

/// The pattern of the sign bit.
pub const SIGN_BIT: u64 = 0x8000_0000_0000_0000;

/// The pattern of positive infinity: every magnitude above it is a NaN.
pub const INFINITY_BITS: u64 = 0x7ff0_0000_0000_0000;

/// A binary64 number, held as its 64 bits.
#[derive(Clone, Copy, Debug, PartialEq, Eq, Structural)]
pub struct Float {
    pub bits: u64,
}

impl Float {
    /// The pattern without its sign bit.
    pub open spec fn magnitude(self) -> int {
        if self.bits >= SIGN_BIT {
            self.bits - SIGN_BIT
        } else {
            self.bits as int
        }
    }

    /// Whether the sign bit is set.
    pub open spec fn negative(self) -> bool {
        self.bits >= SIGN_BIT
    }

    /// Whether the pattern is a NaN.
    pub open spec fn nan(self) -> bool {
        self.magnitude() > INFINITY_BITS
    }

    /// The place of a number that is no NaN among all such numbers: the
    /// magnitude, negated under a set sign bit.
    pub open spec fn rank(self) -> int {
        if self.negative() {
            -self.magnitude()
        } else {
            self.magnitude()
        }
    }

    /// Whether the number is zero, of either sign.
    pub open spec fn zero(self) -> bool {
        self.magnitude() == 0
    }

    /// Whether the number is above zero.
    pub open spec fn positive(self) -> bool {
        !self.nan() && self.rank() > 0
    }

    /// `self < other` as binary64 numbers.
    pub open spec fn below(self, other: Float) -> bool {
        !self.nan() && !other.nan() && self.rank() < other.rank()
    }

    /// `self <= other` as binary64 numbers.
    pub open spec fn at_most(self, other: Float) -> bool {
        !self.nan() && !other.nan() && self.rank() <= other.rank()
    }

    /// `self == other` as binary64 numbers.
    pub open spec fn same_number(self, other: Float) -> bool {
        !self.nan() && !other.nan() && self.rank() == other.rank()
    }

    /// The result of clipping `self` into `[min, max]`: first raised to
    /// `min`, then lowered to `max`. A NaN passes through.
    pub open spec fn clipped(self, min: Float, max: Float) -> Float {
        let raised = if self.below(min) {
            min
        } else {
            self
        };
        if max.below(raised) {
            max
        } else {
            raised
        }
    }

    pub fn from_bits(bits: u64) -> (r: Float)
        ensures
            r.bits == bits,
    {
        Float { bits }
    }

    pub fn to_bits(&self) -> (r: u64)
        ensures
            r == self.bits,
    {
        self.bits
    }

    fn magnitude_bits(&self) -> (r: u64)
        ensures
            r == self.magnitude(),
    {
        if self.bits >= SIGN_BIT {
            self.bits - SIGN_BIT
        } else {
            self.bits
        }
    }

    pub fn is_nan(&self) -> (r: bool)
        ensures
            r == self.nan(),
    {
        self.magnitude_bits() > INFINITY_BITS
    }

    /// Whether the number is zero, of either sign.
    pub fn is_zero(&self) -> (r: bool)
        ensures
            r == self.zero(),
    {
        self.magnitude_bits() == 0
    }

    /// Whether the number is above zero.
    pub fn is_positive(&self) -> (r: bool)
        ensures
            r == self.positive(),
    {
        !self.is_nan() && self.bits < SIGN_BIT && self.bits != 0
    }

    /// `self < other`, as the numbers compare.
    pub fn lt(&self, other: &Float) -> (r: bool)
        ensures
            r == self.below(*other),
    {
        if self.is_nan() || other.is_nan() {
            return false;
        }
        let a: u64 = self.magnitude_bits();
        let b: u64 = other.magnitude_bits();
        if self.bits >= SIGN_BIT {
            if other.bits >= SIGN_BIT {
                b < a
            } else {
                a != 0 || b != 0
            }
        } else {
            if other.bits >= SIGN_BIT {
                false
            } else {
                a < b
            }
        }
    }

    /// `self <= other`, as the numbers compare.
    pub fn le(&self, other: &Float) -> (r: bool)
        ensures
            r == self.at_most(*other),
    {
        if self.is_nan() || other.is_nan() {
            return false;
        }
        !other.lt(self)
    }

    /// `self > other`, as the numbers compare.
    pub fn gt(&self, other: &Float) -> (r: bool)
        ensures
            r == other.below(*self),
    {
        other.lt(self)
    }

    /// Clips `self` into `[min, max]`.
    pub fn clip(self, min: Float, max: Float) -> (r: Float)
        ensures
            r == self.clipped(min, max),
    {
        let raised = if self.lt(&min) {
            min
        } else {
            self
        };
        if max.lt(&raised) {
            max
        } else {
            raised
        }
    }
}

/// A clipped number lies in `[min, max]` whenever the three are numbers and
/// the bounds are in order.
pub proof fn lemma_clipped_within(x: Float, min: Float, max: Float)
    requires
        !x.nan(),
        min.at_most(max),
    ensures
        min.at_most(x.clipped(min, max)),
        x.clipped(min, max).at_most(max),
{
}

/// Clipping leaves a number alone that already lies in `[min, max]`.
pub proof fn lemma_clipped_fixed(x: Float, min: Float, max: Float)
    requires
        min.at_most(x),
        x.at_most(max),
    ensures
        x.clipped(min, max) == x,
{
}

} // verus!
