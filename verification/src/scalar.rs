//! Real quantities as ordered codes.

use vstd::prelude::*;

verus! {

/// The code of the sign: codes at or above it stand for negative quantities.
pub const SIGN_BIT: u64 = 0x8000_0000_0000_0000;

/// The magnitude of infinity; every larger magnitude is not a number.
pub const INFINITY_BITS: u64 = 0x7FF0_0000_0000_0000;

/// The code of the quantity one.
pub const ONE_BITS: u64 = 0x3FF0_0000_0000_0000;

/// The code of the largest finite quantity.
pub const MAX_BITS: u64 = 0x7FEF_FFFF_FFFF_FFFF;

/// A real quantity, held as the 64-bit code of a binary64 number: one sign
/// bit above a 63-bit magnitude. Among the codes of one sign the magnitudes
/// are ordered as the quantities are, so that the library can compare, pick
/// and negate quantities exactly without computing with them.
#[derive(Clone, Copy, Debug, PartialEq, Eq, Structural)]
pub struct Scalar {
    pub bits: u64,
}

impl Scalar {
    /// Whether the sign bit is set.
    pub open spec fn negative(self) -> bool {
        self.bits >= SIGN_BIT
    }

    /// The code without its sign bit.
    pub open spec fn magnitude(self) -> int {
        if self.bits >= SIGN_BIT {
            self.bits - SIGN_BIT
        } else {
            self.bits as int
        }
    }

    /// Whether the code stands for no quantity at all.
    pub open spec fn nan(self) -> bool {
        self.magnitude() > INFINITY_BITS
    }

    /// The place of the quantity in the order of all quantities: the signed
    /// magnitude. Both zeros have rank 0.
    pub open spec fn rank(self) -> int {
        if self.negative() {
            -self.magnitude()
        } else {
            self.magnitude()
        }
    }

    /// `self < other`: false as soon as one side is not a number.
    pub open spec fn below(self, other: Scalar) -> bool {
        !self.nan() && !other.nan() && self.rank() < other.rank()
    }

    /// `self <= other`: false as soon as one side is not a number.
    pub open spec fn at_most(self, other: Scalar) -> bool {
        !self.nan() && !other.nan() && self.rank() <= other.rank()
    }

    /// The smaller of two quantities; where one is not a number, the other.
    pub open spec fn lesser(self, other: Scalar) -> Scalar {
        if self.nan() || other.below(self) {
            other
        } else {
            self
        }
    }

    /// The larger of two quantities; where one is not a number, the other.
    pub open spec fn greater(self, other: Scalar) -> Scalar {
        if self.nan() || self.below(other) {
            other
        } else {
            self
        }
    }

    /// The quantity with the opposite sign.
    pub open spec fn opposite(self) -> Scalar {
        if self.bits >= SIGN_BIT {
            Scalar { bits: (self.bits - SIGN_BIT) as u64 }
        } else {
            Scalar { bits: (self.bits + SIGN_BIT) as u64 }
        }
    }

    pub fn from_bits(bits: u64) -> (r: Scalar)
        ensures
            r.bits == bits,
    {
        Scalar { bits }
    }

    pub fn to_bits(self) -> (r: u64)
        ensures
            r == self.bits,
    {
        self.bits
    }

    pub fn zero() -> (r: Scalar)
        ensures
            r.bits == 0,
            r.rank() == 0,
            !r.nan(),
    {
        Scalar { bits: 0 }
    }

    pub fn one() -> (r: Scalar)
        ensures
            r.bits == ONE_BITS,
            !r.nan(),
    {
        Scalar { bits: ONE_BITS }
    }

    /// The largest finite quantity.
    pub fn max_value() -> (r: Scalar)
        ensures
            r.bits == MAX_BITS,
            !r.nan(),
            forall|s: Scalar| s.magnitude() < INFINITY_BITS ==> s.at_most(r),
    {
        Scalar { bits: MAX_BITS }
    }

    fn abs_bits(self) -> (r: u64)
        ensures
            r == self.magnitude(),
    {
        if self.bits >= SIGN_BIT {
            self.bits - SIGN_BIT
        } else {
            self.bits
        }
    }

    pub fn is_nan(self) -> (r: bool)
        ensures
            r == self.nan(),
    {
        self.abs_bits() > INFINITY_BITS
    }

    /// Whether the quantity is zero, of either sign.
    pub fn is_zero(self) -> (r: bool)
        ensures
            r == (self.rank() == 0),
    {
        self.abs_bits() == 0
    }

    pub fn lt(self, other: Scalar) -> (r: bool)
        ensures
            r == self.below(other),
    {
        if self.is_nan() || other.is_nan() {
            return false;
        }
        let a: u64 = self.abs_bits();
        let b: u64 = other.abs_bits();
        if self.bits >= SIGN_BIT {
            if other.bits >= SIGN_BIT {
                b < a
            } else {
                a != 0 || b != 0
            }
        } else {
            if other.bits >= SIGN_BIT {
                false
            } else {
                a < b
            }
        }
    }

    pub fn le(self, other: Scalar) -> (r: bool)
        ensures
            r == self.at_most(other),
    {
        if self.is_nan() || other.is_nan() {
            return false;
        }
        !other.lt(self)
    }

    pub fn gt(self, other: Scalar) -> (r: bool)
        ensures
            r == other.below(self),
    {
        other.lt(self)
    }

    pub fn ge(self, other: Scalar) -> (r: bool)
        ensures
            r == other.at_most(self),
    {
        other.le(self)
    }

    pub fn min(self, other: Scalar) -> (r: Scalar)
        ensures
            r == self.lesser(other),
    {
        if self.is_nan() || other.lt(self) {
            other
        } else {
            self
        }
    }

    pub fn max(self, other: Scalar) -> (r: Scalar)
        ensures
            r == self.greater(other),
    {
        if self.is_nan() || self.lt(other) {
            other
        } else {
            self
        }
    }

    pub fn neg(self) -> (r: Scalar)
        ensures
            r == self.opposite(),
    {
        if self.bits >= SIGN_BIT {
            Scalar { bits: self.bits - SIGN_BIT }
        } else {
            Scalar { bits: self.bits + SIGN_BIT }
        }
    }
}

/// Of two quantities the lesser is one of them, is at most either, and the
/// choice does not depend on the order in which they are given, up to the
/// sign of a zero.
pub proof fn lemma_lesser(a: Scalar, b: Scalar)
    requires
        !a.nan(),
        !b.nan(),
    ensures
        a.lesser(b) == a || a.lesser(b) == b,
        !a.lesser(b).nan(),
        a.lesser(b).rank() == if a.rank() <= b.rank() { a.rank() } else { b.rank() },
        a.lesser(b).rank() == b.lesser(a).rank(),
{
}

/// Of two quantities the greater is one of them, is at least either, and the
/// choice does not depend on the order in which they are given, up to the
/// sign of a zero.
pub proof fn lemma_greater(a: Scalar, b: Scalar)
    requires
        !a.nan(),
        !b.nan(),
    ensures
        a.greater(b) == a || a.greater(b) == b,
        !a.greater(b).nan(),
        a.greater(b).rank() == if a.rank() >= b.rank() { a.rank() } else { b.rank() },
        a.greater(b).rank() == b.greater(a).rank(),
{
}

/// Negation reverses the order and undoes itself.
pub proof fn lemma_opposite(a: Scalar, b: Scalar)
    ensures
        a.opposite().opposite() == a,
        a.opposite().rank() == -a.rank(),
        a.opposite().nan() == a.nan(),
        a.below(b) == b.opposite().below(a.opposite()),
{
}

} // verus!
