//! Positions on the game plane, in centimetres.

use vstd::prelude::*;

verus! {

/// Position on the plane, in integer centimetres.
#[derive(Debug, Clone, Copy, PartialEq, Eq, Structural, Hash, Default)]
pub struct Position {
    pub x: i32,
    pub y: i32,
}

/// Squared distance between two points, saturated at `u64::MAX`.
pub open spec fn dist2(a: Position, b: Position) -> int {
    let dx = a.x - b.x;
    let dy = a.y - b.y;
    if dx * dx + dy * dy > u64::MAX { u64::MAX as int } else { dx * dx + dy * dy }
}

/// `b` lies within `radius` of `a`, bound included.
pub open spec fn within(a: Position, b: Position, radius: int) -> bool {
    dist2(a, b) <= radius * radius
}

impl Position {
    /// The origin of the plane.
    pub fn origin() -> (r: Self)
        ensures
            r.x == 0 && r.y == 0,
    {
        Self { x: 0, y: 0 }
    }

    pub fn new(x: i32, y: i32) -> (r: Self)
        ensures
            r.x == x && r.y == y,
    {
        Self { x, y }
    }

    /// Squared distance in cm², computed in `i128` and saturated at `u64::MAX`.
    pub fn distance_squared(self, other: Self) -> (r: u64)
        ensures
            r == dist2(self, other),
    {
        let dx: i128 = self.x as i128 - other.x as i128;
        let dy: i128 = self.y as i128 - other.y as i128;
        proof {
            assert(dx * dx <= 0x1_0000_0000i128 * 0x1_0000_0000i128) by (nonlinear_arith)
                requires -0x1_0000_0000i128 <= dx <= 0x1_0000_0000i128;
            assert(dy * dy <= 0x1_0000_0000i128 * 0x1_0000_0000i128) by (nonlinear_arith)
                requires -0x1_0000_0000i128 <= dy <= 0x1_0000_0000i128;
            assert(dx * dx >= 0) by (nonlinear_arith);
            assert(dy * dy >= 0) by (nonlinear_arith);
        }
        let sum: i128 = dx * dx + dy * dy;
        if sum > u64::MAX as i128 {
            u64::MAX
        } else {
            sum as u64
        }
    }

    /// Whether `other` lies within `radius_cm`, bound included.
    pub fn is_within(self, other: Self, radius_cm: u32) -> (r: bool)
        ensures
            r == within(self, other, radius_cm as int),
    {
        let radius: u64 = radius_cm as u64;
        proof {
            assert(radius * radius <= 0xffff_ffffu64 * 0xffff_ffffu64) by (nonlinear_arith)
                requires radius <= 0xffff_ffffu64;
        }
        self.distance_squared(other) <= radius * radius
    }
}

/// Distance does not depend on the direction of travel.
pub proof fn distance_is_symmetric(a: Position, b: Position)
    ensures
        dist2(a, b) == dist2(b, a),
{
    assert((a.x - b.x) * (a.x - b.x) == (b.x - a.x) * (b.x - a.x)) by (nonlinear_arith);
    assert((a.y - b.y) * (a.y - b.y) == (b.y - a.y) * (b.y - a.y)) by (nonlinear_arith);
}

/// A point is at distance zero from itself, and only from itself.
pub proof fn distance_zero_iff_same(a: Position, b: Position)
    ensures
        dist2(a, b) == 0 <==> a == b,
{
    assert((a.x - b.x) * (a.x - b.x) >= 0) by (nonlinear_arith);
    assert((a.y - b.y) * (a.y - b.y) >= 0) by (nonlinear_arith);
    if dist2(a, b) == 0 {
        assert((a.x - b.x) * (a.x - b.x) == 0);
        assert(a.x - b.x == 0) by (nonlinear_arith)
            requires (a.x - b.x) * (a.x - b.x) == 0;
        assert(a.y - b.y == 0) by (nonlinear_arith)
            requires (a.y - b.y) * (a.y - b.y) == 0;
    }
    if a == b {
        assert((a.x - b.x) * (a.x - b.x) == 0) by (nonlinear_arith)
            requires a.x == b.x;
        assert((a.y - b.y) * (a.y - b.y) == 0) by (nonlinear_arith)
            requires a.y == b.y;
    }
}

} // verus!
