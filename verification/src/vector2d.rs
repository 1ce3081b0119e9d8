//! 2D vector in fixed-point coordinates: each component counts
//! thousandths of a drawing unit.
use vstd::prelude::*;

verus! {

/// An immutable 2D value: operations return new vectors.
#[derive(Clone, Copy, Debug, PartialEq, Eq, Structural)]
pub struct Vector2D {
    /// Horizontal component, in thousandths of a unit.
    pub x: i64,
    /// Vertical component, in thousandths of a unit; larger is lower.
    pub y: i64,
}

impl Vector2D {
    /// Builds the vector with the given fixed-point components.
    pub fn new(x: i64, y: i64) -> (v: Vector2D)
        ensures
            v.x == x,
            v.y == y,
    {
        Vector2D { x, y }
    }

    /// Component-wise sum.
    pub fn add(self, rhs: Vector2D) -> (v: Vector2D)
        requires
            i64::MIN <= self.x + rhs.x <= i64::MAX,
            i64::MIN <= self.y + rhs.y <= i64::MAX,
        ensures
            v.x == self.x + rhs.x,
            v.y == self.y + rhs.y,
    {
        Vector2D { x: self.x + rhs.x, y: self.y + rhs.y }
    }

    /// Component-wise difference.
    pub fn sub(self, rhs: Vector2D) -> (v: Vector2D)
        requires
            i64::MIN <= self.x - rhs.x <= i64::MAX,
            i64::MIN <= self.y - rhs.y <= i64::MAX,
        ensures
            v.x == self.x - rhs.x,
            v.y == self.y - rhs.y,
    {
        Vector2D { x: self.x - rhs.x, y: self.y - rhs.y }
    }
}

} // verus!
