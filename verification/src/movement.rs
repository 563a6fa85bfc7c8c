//! Server-side validation of the moves announced by clients.

use vstd::prelude::*;
use crate::arith::{is_isqrt, isqrt_u64, sat_mul_u64, saturating_mul_u64};
use crate::experience::sat_add_u64;
use crate::position::{Position, dist2};

verus! {

/// Movement speed, in centimetres per second.
#[derive(Debug, Clone, Copy, PartialEq, Eq, Structural, PartialOrd, Ord)]
pub struct MovementSpeed(u32);

impl View for MovementSpeed {
    type V = u32;

    closed spec fn view(&self) -> u32 {
        self.0
    }
}

impl MovementSpeed {
    /// Reference walking speed.
    pub fn walk() -> (r: Self)
        ensures
            r@ == 300,
    {
        Self(300)
    }

    /// Running speed.
    pub fn run() -> (r: Self)
        ensures
            r@ == 700,
    {
        Self(700)
    }

    pub fn new(cm_per_second: u32) -> (r: Self)
        ensures
            r@ == cm_per_second,
    {
        Self(cm_per_second)
    }

    pub fn cm_per_second(self) -> (r: u32)
        ensures
            r == self@,
    {
        self.0
    }
}

/// Verdict on a move announced by a client.
#[derive(Debug, Clone, Copy, PartialEq, Eq, Structural)]
pub enum MoveVerdict {
    /// Plausible move: the server adopts the new position.
    Accepted,
    /// Too fast for the elapsed time, with the observed values.
    TooFast { travelled_cm: u64, allowed_cm: u64 },
}

/// Movement policy of an entity: speed and a fixed tolerance.
#[derive(Debug, Clone, Copy, PartialEq, Eq, Structural)]
pub struct MovementRule {
    speed: MovementSpeed,
    tolerance_cm: u32,
}

/// Distance allowed in `elapsed_ms`: `speed * elapsed / 1000 + tolerance`,
/// the product and the sum saturating at `u64::MAX`.
pub open spec fn allowance(speed: int, tolerance: int, elapsed_ms: int) -> int {
    sat_add_u64(sat_mul_u64(speed, elapsed_ms) / 1000, tolerance)
}

impl MovementRule {
    /// Absolute margin granted to each move.
    pub const DEFAULT_TOLERANCE_CM: u32 = 50;

    /// Speed of the rule.
    pub closed spec fn pace(self) -> u32 {
        self.speed@
    }

    /// Tolerance of the rule.
    pub closed spec fn margin(self) -> u32 {
        self.tolerance_cm
    }

    pub fn new(speed: MovementSpeed, tolerance_cm: u32) -> (r: Self)
        ensures
            r.pace() == speed@ && r.margin() == tolerance_cm,
    {
        Self { speed, tolerance_cm }
    }

    pub fn walking() -> (r: Self)
        ensures
            r.pace() == 300 && r.margin() == Self::DEFAULT_TOLERANCE_CM,
    {
        Self::new(MovementSpeed::walk(), Self::DEFAULT_TOLERANCE_CM)
    }

    pub fn running() -> (r: Self)
        ensures
            r.pace() == 700 && r.margin() == Self::DEFAULT_TOLERANCE_CM,
    {
        Self::new(MovementSpeed::run(), Self::DEFAULT_TOLERANCE_CM)
    }

    pub fn speed(self) -> (r: MovementSpeed)
        ensures
            r@ == self.pace(),
    {
        self.speed
    }

    /// Largest distance coverable in `elapsed_ms`, margin included; saturates
    /// instead of wrapping.
    pub fn allowance_cm(self, elapsed_ms: u64) -> (r: u64)
        ensures
            r == allowance(self.pace() as int, self.margin() as int, elapsed_ms as int),
    {
        let travelled = saturating_mul_u64(self.speed.cm_per_second() as u64, elapsed_ms) / 1000;
        travelled.saturating_add(self.tolerance_cm as u64)
    }

    /// Checks an announced move, comparing squared distances exactly.
    pub fn verify(self, from: Position, to: Position, elapsed_ms: u64) -> (r: MoveVerdict)
        ensures
            ({
                let allowed = allowance(self.pace() as int, self.margin() as int, elapsed_ms as int);
                if dist2(from, to) <= sat_mul_u64(allowed, allowed) {
                    r == MoveVerdict::Accepted
                } else {
                    &&& r matches MoveVerdict::TooFast { travelled_cm, allowed_cm }
                    &&& allowed_cm == allowed
                    &&& is_isqrt(dist2(from, to), travelled_cm as int)
                }
            }),
    {
        let allowed_cm = self.allowance_cm(elapsed_ms);
        let travelled_squared = from.distance_squared(to);
        if travelled_squared <= saturating_mul_u64(allowed_cm, allowed_cm) {
            MoveVerdict::Accepted
        } else {
            MoveVerdict::TooFast { travelled_cm: isqrt_u64(travelled_squared), allowed_cm }
        }
    }
}

/// An accepted move never covers more than the allowance (whenever the
/// allowance is small enough for its square to be exact).
pub proof fn accepted_moves_stay_within_allowance(d2: int, allowed: int, travelled: int)
    requires
        0 <= allowed,
        allowed * allowed <= u64::MAX,
        d2 <= sat_mul_u64(allowed, allowed),
        is_isqrt(d2, travelled),
    ensures
        travelled <= allowed,
{
    if travelled > allowed {
        assert(travelled * travelled >= (allowed + 1) * (allowed + 1)) by (nonlinear_arith)
            requires travelled >= allowed + 1, allowed >= 0;
        assert((allowed + 1) * (allowed + 1) > allowed * allowed) by (nonlinear_arith)
            requires allowed >= 0;
    }
}


/// With no time elapsed only the tolerance is allowed; each further second
/// adds exactly the speed (while no bound is hit).
pub proof fn allowance_grows_by_speed(rule: MovementRule, seconds: u64)
    requires
        rule.pace() * seconds * 1000 + rule.margin() <= u64::MAX,
    ensures
        allowance(rule.pace() as int, rule.margin() as int, 0) == rule.margin(),
        allowance(rule.pace() as int, rule.margin() as int, seconds * 1000) == rule.pace() * seconds + rule.margin(),
{
    let p = rule.pace() as int;
    let n = seconds as int;
    assert(p * 0 == 0) by (nonlinear_arith);
    assert(p * (n * 1000) == (p * n) * 1000) by (nonlinear_arith);
    assert(p * n >= 0) by (nonlinear_arith)
        requires p >= 0, n >= 0;
    assert((p * n) * 1000 / 1000 == p * n) by (nonlinear_arith);
}

} // verus!
