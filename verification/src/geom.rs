//! Plain geometric value types: integer points, rational points, bounding
//! boxes and probe results.

use vstd::prelude::*;
use crate::rat::Rat;

verus! {

/// Largest coordinate magnitude a segment endpoint may have (`2^20`), so that
/// every derived quantity fits in `i128`.
pub const COORD_LIMIT: i64 = 1048576;

/// A 2D point or vector with exact integer coordinates.
#[derive(Clone, Copy, Debug, PartialEq, Eq, Structural)]
pub struct V2 {
    pub x: i64,
    pub y: i64,
}

impl V2 {
    /// Both coordinates within the supported range.
    pub open spec fn in_range(self) -> bool {
        &&& -COORD_LIMIT <= self.x <= COORD_LIMIT
        &&& -COORD_LIMIT <= self.y <= COORD_LIMIT
    }

    pub fn new(x: i64, y: i64) -> (r: V2)
        ensures
            r.x == x,
            r.y == y,
    {
        V2 { x, y }
    }

    /// Component-wise sum.
    pub fn plus(self, other: V2) -> (r: V2)
        requires
            i64::MIN <= self.x + other.x <= i64::MAX,
            i64::MIN <= self.y + other.y <= i64::MAX,
        ensures
            r.x == self.x + other.x,
            r.y == self.y + other.y,
    {
        V2 { x: self.x + other.x, y: self.y + other.y }
    }

    /// Component-wise difference.
    pub fn minus(self, other: V2) -> (r: V2)
        requires
            i64::MIN <= self.x - other.x <= i64::MAX,
            i64::MIN <= self.y - other.y <= i64::MAX,
        ensures
            r.x == self.x - other.x,
            r.y == self.y - other.y,
    {
        V2 { x: self.x - other.x, y: self.y - other.y }
    }

    /// Scalar multiple.
    pub fn scale(self, k: i64) -> (r: V2)
        requires
            i64::MIN <= self.x * k <= i64::MAX,
            i64::MIN <= self.y * k <= i64::MAX,
        ensures
            r.x == self.x * k,
            r.y == self.y * k,
    {
        V2 { x: self.x * k, y: self.y * k }
    }

    /// Squared Euclidean norm, exact.
    pub fn norm_sq(self) -> (r: i128)
        requires
            self.in_range(),
        ensures
            r == self.x * self.x + self.y * self.y,
    {
        let x: i128 = self.x as i128;
        let y: i128 = self.y as i128;
        proof {
            crate::rat::lemma_mul_bound(x as int, x as int, COORD_LIMIT as int, COORD_LIMIT as int);
            crate::rat::lemma_mul_bound(y as int, y as int, COORD_LIMIT as int, COORD_LIMIT as int);
        }
        x * x + y * y
    }

    /// Squared Euclidean distance to `other`, exact.
    pub fn dist_sq(self, other: V2) -> (r: i128)
        requires
            self.in_range(),
            other.in_range(),
        ensures
            r == (self.x - other.x) * (self.x - other.x)
                + (self.y - other.y) * (self.y - other.y),
    {
        let dx: i128 = self.x as i128 - other.x as i128;
        let dy: i128 = self.y as i128 - other.y as i128;
        proof {
            crate::rat::lemma_mul_bound(dx as int, dx as int, 2 * COORD_LIMIT as int, 2 * COORD_LIMIT as int);
            crate::rat::lemma_mul_bound(dy as int, dy as int, 2 * COORD_LIMIT as int, 2 * COORD_LIMIT as int);
        }
        dx * dx + dy * dy
    }
}

/// A 2D point with exact rational coordinates, as returned by parametric
/// sampling.
#[derive(Clone, Copy, Debug, PartialEq, Eq, Structural)]
pub struct RatV2 {
    pub x: Rat,
    pub y: Rat,
}

/// Axis-aligned bounding box of a segment, with `left <= right` and
/// `bottom <= top` regardless of traversal direction.
#[derive(Clone, Copy, Debug, PartialEq, Eq, Structural)]
pub struct Bounds {
    pub left: i64,
    pub right: i64,
    pub top: i64,
    pub bottom: i64,
}

impl Bounds {
    /// The box is properly ordered.
    pub open spec fn wf(self) -> bool {
        &&& self.left <= self.right
        &&& self.bottom <= self.top
    }
}

/// The result of probing a curve at a fixed coordinate on one axis: the exact
/// coordinate on the other axis where the crossing occurs, and a parametric
/// position `t` in `[0, 1]` along the curve.
#[derive(Clone, Copy, Debug, PartialEq, Eq, Structural)]
pub struct Intersection {
    pub axis: Rat,
    pub t: Rat,
}

} // verus!
