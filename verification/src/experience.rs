//! Experience points and the progression curve.

use vstd::prelude::*;
use crate::level::{Level, MAX_LEVEL, level_in_range};

verus! {

/// Experience accumulated since the last level threshold.
#[derive(Debug, Clone, Copy, Default, PartialEq, Eq, Structural, PartialOrd, Ord)]
pub struct Experience(u64);

impl View for Experience {
    type V = u64;

    closed spec fn view(&self) -> u64 {
        self.0
    }
}

/// `a + b`, capped at `u64::MAX`.
pub open spec fn sat_add_u64(a: int, b: int) -> int {
    if a + b > u64::MAX { u64::MAX as int } else { a + b }
}

/// `a - b`, floored at zero.
pub open spec fn sat_sub(a: int, b: int) -> int {
    if a < b { 0 } else { a - b }
}

impl Experience {
    /// No experience at all.
    pub fn zero() -> (r: Self)
        ensures
            r@ == 0,
    {
        Self(0)
    }

    pub fn new(amount: u64) -> (r: Self)
        ensures
            r@ == amount,
    {
        Self(amount)
    }

    pub fn get(self) -> (r: u64)
        ensures
            r == self@,
    {
        self.0
    }

    /// Saturating addition: an absurd gain caps instead of wrapping to zero.
    pub fn saturating_add(self, other: Self) -> (r: Self)
        ensures
            r@ == sat_add_u64(self@ as int, other@ as int),
    {
        Self(self.0.saturating_add(other.0))
    }

    pub fn saturating_sub(self, other: Self) -> (r: Self)
        ensures
            r@ == sat_sub(self@ as int, other@ as int),
    {
        Self(self.0.saturating_sub(other.0))
    }
}

/// Progression curve `base * level^2 * (level + 10) / 10`, a domain datum.
#[derive(Debug, Clone, Copy, PartialEq, Eq, Structural)]
pub struct ProgressionCurve {
    base: u64,
}

/// Uncapped experience needed to leave `level` on a curve of parameter `base`.
pub open spec fn raw_requirement(base: int, level: int) -> int {
    base * level * level * (level + 10) / 10
}

/// Experience needed to leave `level`, saturated at `u64::MAX`.
pub open spec fn requirement(base: int, level: int) -> int {
    if raw_requirement(base, level) > u64::MAX {
        u64::MAX as int
    } else {
        raw_requirement(base, level)
    }
}

impl ProgressionCurve {
    #[verifier::type_invariant]
    spec fn positive(self) -> bool {
        self.base > 0
    }

    /// The curve's parameter.
    pub closed spec fn base(self) -> u64 {
        self.base
    }

    /// Experience needed to leave `level` on this curve.
    pub open spec fn required(self, level: int) -> int {
        requirement(self.base() as int, level)
    }

    /// Reference curve, with parameter 100.
    pub fn standard() -> (r: Self)
        ensures
            r.base() == 100,
    {
        Self { base: 100 }
    }

    /// `None` for a null parameter: a flat curve would make progression instant.
    pub fn new(base: u64) -> (r: Option<Self>)
        ensures
            r is Some <==> base != 0,
            r matches Some(c) ==> c.base() == base,
    {
        if base == 0 {
            None
        } else {
            Some(Self { base })
        }
    }

    /// Experience to accumulate to leave `level`; computed wide, then saturated.
    pub fn required_to_leave(self, level: Level) -> (r: Experience)
        ensures
            r@ == self.required(level@ as int),
            self.base() > 0,
    {
        proof {
            use_type_invariant(&self);
        }
        let l: u128 = level.get() as u128;
        let b: u128 = self.base as u128;
        proof {
            assert(b * l <= 0xffff_ffff_ffff_ffffu128 * 120) by (nonlinear_arith)
                requires b <= 0xffff_ffff_ffff_ffffu128, l <= 120;
            assert(b * l * l <= 0xffff_ffff_ffff_ffffu128 * 120 * 120) by (nonlinear_arith)
                requires b * l <= 0xffff_ffff_ffff_ffffu128 * 120, l <= 120;
            assert(b * l * l * (l + 10) <= 0xffff_ffff_ffff_ffffu128 * 120 * 120 * 130)
                by (nonlinear_arith)
                requires b * l * l <= 0xffff_ffff_ffff_ffffu128 * 120 * 120, l <= 120;
        }
        let raw: u128 = b * l * l * (l + 10) / 10;
        if raw > u64::MAX as u128 {
            Experience(u64::MAX)
        } else {
            Experience(raw as u64)
        }
    }
}

impl Default for ProgressionCurve {
    fn default() -> (r: Self)
        ensures
            r.base() == 100,
    {
        Self::standard()
    }
}

/// The requirement to leave any level is at least one point.
pub proof fn requirement_is_positive(base: int, level: int)
    requires
        base >= 1,
        level_in_range(level),
    ensures
        requirement(base, level) >= 1,
{
    assert(base * level * level * (level + 10) >= 11) by (nonlinear_arith)
        requires base >= 1, level >= 1;
}

/// Leaving a higher level never costs less; strictly more unless saturated.
pub proof fn requirement_increases(curve: ProgressionCurve, lower: int, higher: int)
    requires
        curve.base() > 0,
        level_in_range(lower),
        level_in_range(higher),
        lower < higher,
    ensures
        curve.required(lower) <= curve.required(higher),
        curve.required(lower) < u64::MAX ==> curve.required(lower) < curve.required(higher),
{
    let b = curve.base() as int;
    let n1 = b * (lower * lower * (lower + 10));
    let n2 = b * (higher * higher * (higher + 10));
    assert(b * lower * lower * (lower + 10) == n1) by (nonlinear_arith)
        requires n1 == b * (lower * lower * (lower + 10));
    assert(b * higher * higher * (higher + 10) == n2) by (nonlinear_arith)
        requires n2 == b * (higher * higher * (higher + 10));
    assert(lower * lower * (lower + 10) + 10 <= higher * higher * (higher + 10)) by (nonlinear_arith)
        requires 1 <= lower < higher;
    assert(n1 + 10 <= n2) by (nonlinear_arith)
        requires
            b >= 1,
            lower * lower * (lower + 10) + 10 <= higher * higher * (higher + 10),
            n1 == b * (lower * lower * (lower + 10)),
            n2 == b * (higher * higher * (higher + 10));
    assert(n1 / 10 < n2 / 10) by (nonlinear_arith)
        requires n1 + 10 <= n2, n1 >= 0;
}

} // verus!
