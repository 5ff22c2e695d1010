//! Triples of quantities: points, directions and colours.

use vstd::prelude::*;
use crate::scalar::Scalar;

verus! {

/// Three quantities, used alike as a point, a direction or a colour.
#[derive(Clone, Copy, Debug, PartialEq, Eq, Structural)]
pub struct Vec3 {
    pub x: Scalar,
    pub y: Scalar,
    pub z: Scalar,
}

impl Vec3 {
    /// The component on axis `i`: 0 is x, 1 is y, anything else is z.
    pub open spec fn axis(self, i: int) -> Scalar {
        if i == 0 {
            self.x
        } else if i == 1 {
            self.y
        } else {
            self.z
        }
    }

    /// The triple with the component on axis `i` replaced.
    pub open spec fn with_axis(self, i: int, value: Scalar) -> Vec3 {
        if i == 0 {
            Vec3 { x: value, ..self }
        } else if i == 1 {
            Vec3 { y: value, ..self }
        } else {
            Vec3 { z: value, ..self }
        }
    }

    /// Whether some component is not a number.
    pub open spec fn nan(self) -> bool {
        self.x.nan() || self.y.nan() || self.z.nan()
    }

    /// The triple of the opposite quantities.
    pub open spec fn opposite(self) -> Vec3 {
        Vec3 { x: self.x.opposite(), y: self.y.opposite(), z: self.z.opposite() }
    }

    /// Component by component, the lesser of the two.
    pub open spec fn lesser(self, other: Vec3) -> Vec3 {
        Vec3 {
            x: self.x.lesser(other.x),
            y: self.y.lesser(other.y),
            z: self.z.lesser(other.z),
        }
    }

    /// Component by component, the greater of the two.
    pub open spec fn greater(self, other: Vec3) -> Vec3 {
        Vec3 {
            x: self.x.greater(other.x),
            y: self.y.greater(other.y),
            z: self.z.greater(other.z),
        }
    }

    /// Whether every component of `self` is at most that of `other`.
    pub open spec fn all_at_most(self, other: Vec3) -> bool {
        self.x.at_most(other.x) && self.y.at_most(other.y) && self.z.at_most(other.z)
    }

    pub fn new(x: Scalar, y: Scalar, z: Scalar) -> (r: Vec3)
        ensures
            r == (Vec3 { x, y, z }),
    {
        Vec3 { x, y, z }
    }

    pub fn zero() -> (r: Vec3)
        ensures
            r == (Vec3 { x: Scalar { bits: 0 }, y: Scalar { bits: 0 }, z: Scalar { bits: 0 } }),
            !r.nan(),
    {
        Vec3 { x: Scalar::zero(), y: Scalar::zero(), z: Scalar::zero() }
    }

    pub fn one() -> (r: Vec3)
        ensures
            r.x.bits == crate::scalar::ONE_BITS,
            r.y == r.x,
            r.z == r.x,
            !r.nan(),
    {
        Vec3 { x: Scalar::one(), y: Scalar::one(), z: Scalar::one() }
    }

    /// The component on axis `i`.
    pub fn index(&self, i: usize) -> (r: Scalar)
        requires
            i < 3,
        ensures
            r == self.axis(i as int),
    {
        if i == 0 {
            self.x
        } else if i == 1 {
            self.y
        } else {
            self.z
        }
    }

    /// Replaces the component on axis `i`.
    pub fn set(&mut self, i: usize, value: Scalar)
        requires
            i < 3,
        ensures
            *final(self) == old(self).with_axis(i as int, value),
    {
        if i == 0 {
            self.x = value;
        } else if i == 1 {
            self.y = value;
        } else {
            self.z = value;
        }
    }

    pub fn is_nan(&self) -> (r: bool)
        ensures
            r == self.nan(),
    {
        self.x.is_nan() || self.y.is_nan() || self.z.is_nan()
    }

    /// The triple that points the other way.
    pub fn neg(&self) -> (r: Vec3)
        ensures
            r == self.opposite(),
    {
        Vec3 { x: self.x.neg(), y: self.y.neg(), z: self.z.neg() }
    }

    pub fn min(&self, other: &Vec3) -> (r: Vec3)
        ensures
            r == self.lesser(*other),
    {
        Vec3 { x: self.x.min(other.x), y: self.y.min(other.y), z: self.z.min(other.z) }
    }

    pub fn max(&self, other: &Vec3) -> (r: Vec3)
        ensures
            r == self.greater(*other),
    {
        Vec3 { x: self.x.max(other.x), y: self.y.max(other.y), z: self.z.max(other.z) }
    }
}

} // verus!
