//! Numbers as they travel through the library: IEEE 754 double-precision bit
//! patterns.
//!
//! Prices, sizes and probabilities are stored, copied and compared here; the
//! arithmetic on them is the caller's. A [`Num`] therefore holds the bit
//! pattern, and the comparisons below are the IEEE comparisons stated over the
//! position of a pattern in the numeric order.
use vstd::prelude::*;

verus! {

/// A double-precision number, held by its bit pattern.
#[derive(Clone, Copy, Debug, PartialEq, Eq, Structural)]
pub struct Num {
    pub bits: u64,
}

pub const SIGN_BIT: u64 = 0x8000_0000_0000_0000;

/// Bit pattern of positive infinity: every exponent bit, no fraction bit.
pub const INFINITY_BITS: u64 = 0x7FF0_0000_0000_0000;

impl Num {
    /// The pattern without its sign.
    pub open spec fn magnitude(self) -> int {
        if self.bits >= SIGN_BIT {
            self.bits - SIGN_BIT
        } else {
            self.bits as int
        }
    }

    /// Not a number: every exponent bit and some fraction bit.
    pub open spec fn nan(self) -> bool {
        self.magnitude() > INFINITY_BITS
    }

    /// Neither an infinity nor not a number.
    pub open spec fn finite(self) -> bool {
        self.magnitude() < INFINITY_BITS
    }

    /// The position in the numeric order; both zeros stand at 0.
    pub open spec fn key(self) -> int {
        if self.bits >= SIGN_BIT {
            -(self.bits - SIGN_BIT)
        } else {
            self.bits as int
        }
    }

    /// `self <= other`, which is false where either is not a number.
    pub open spec fn at_most(self, other: Num) -> bool {
        !self.nan() && !other.nan() && self.key() <= other.key()
    }

    /// `self < other`, which is false where either is not a number.
    pub open spec fn below(self, other: Num) -> bool {
        !self.nan() && !other.nan() && self.key() < other.key()
    }

    /// The number with the given bit pattern.
    pub fn from_bits(bits: u64) -> (r: Num)
        ensures
            r.bits == bits,
    {
        Num { bits }
    }

    /// The number zero.
    pub fn zero() -> (r: Num)
        ensures
            r.bits == 0,
            r.key() == 0,
            !r.nan(),
    {
        Num { bits: 0 }
    }

    fn size(self) -> (r: u64)
        ensures
            r == self.magnitude(),
    {
        if self.bits >= SIGN_BIT {
            self.bits - SIGN_BIT
        } else {
            self.bits
        }
    }

    /// Whether the pattern is not a number.
    pub fn is_nan(self) -> (r: bool)
        ensures
            r == self.nan(),
    {
        self.size() > INFINITY_BITS
    }

    /// Whether the number is neither infinite nor not a number.
    pub fn is_finite(self) -> (r: bool)
        ensures
            r == self.finite(),
    {
        self.size() < INFINITY_BITS
    }

    /// `self < other`.
    pub fn lt(self, other: Num) -> (r: bool)
        ensures
            r == self.below(other),
    {
        if self.is_nan() || other.is_nan() {
            return false;
        }
        let a = self.size();
        let b = other.size();
        if self.bits >= SIGN_BIT {
            if other.bits >= SIGN_BIT {
                a > b
            } else {
                a > 0 || b > 0
            }
        } else if other.bits >= SIGN_BIT {
            false
        } else {
            a < b
        }
    }

    /// `self <= other`.
    pub fn le(self, other: Num) -> (r: bool)
        ensures
            r == self.at_most(other),
    {
        if self.is_nan() || other.is_nan() {
            return false;
        }
        !other.lt(self)
    }

    /// Whether the number is above zero.
    pub fn is_positive(self) -> (r: bool)
        ensures
            r == (!self.nan() && self.key() > 0),
    {
        Num::zero().lt(self)
    }

    /// The lesser of two numbers; where one is not a number, the other.
    pub fn min(self, other: Num) -> (r: Num)
        ensures
            r == self.lesser(other),
    {
        if self.is_nan() {
            other
        } else if other.lt(self) {
            other
        } else {
            self
        }
    }

    /// The greater of two numbers; where one is not a number, the other.
    pub fn max(self, other: Num) -> (r: Num)
        ensures
            r == self.greater(other),
    {
        if self.is_nan() {
            other
        } else if self.lt(other) {
            other
        } else {
            self
        }
    }

    /// The number, or the bound that it lies beyond.
    pub open spec fn held(self, low: Num, high: Num) -> Num {
        if self.below(low) {
            low
        } else if high.below(self) {
            high
        } else {
            self
        }
    }

    /// The number, or the bound that it lies beyond; what is not a number
    /// stays.
    pub fn clamp(self, low: Num, high: Num) -> (r: Num)
        requires
            low.at_most(high),
        ensures
            r == self.held(low, high),
    {
        if self.lt(low) {
            low
        } else if high.lt(self) {
            high
        } else {
            self
        }
    }

    /// The lesser of two numbers; where one is not a number, the other.
    pub open spec fn lesser(self, other: Num) -> Num {
        if self.nan() || other.below(self) {
            other
        } else {
            self
        }
    }

    /// The greater of two numbers; where one is not a number, the other.
    pub open spec fn greater(self, other: Num) -> Num {
        if self.nan() || self.below(other) {
            other
        } else {
            self
        }
    }
}

} // verus!
