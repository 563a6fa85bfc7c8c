//! Out-of-combat health recovery.

use vstd::prelude::*;
use crate::arith::{sat_mul_u64, saturating_mul_u64};

verus! {

/// Recovery rule: points per second, after a quiet delay without being hit.
#[derive(Debug, Clone, Copy, PartialEq, Eq, Structural)]
pub struct RegenerationRule {
    per_second: u32,
    idle_delay_ms: u64,
}

/// Points recovered over `elapsed_ms` after `idle_ms` of quiet: nothing before
/// the delay, then `per_second * elapsed_ms / 1000` rounded down, the product
/// saturated at `u64::MAX` and the result capped at `u32::MAX`.
pub open spec fn regenerated(per_second: int, idle_delay_ms: int, idle_ms: int, elapsed_ms: int) -> int {
    if idle_ms < idle_delay_ms {
        0
    } else {
        let healed = sat_mul_u64(per_second, elapsed_ms) / 1000;
        if healed > u32::MAX { u32::MAX as int } else { healed }
    }
}

impl RegenerationRule {
    /// Points recovered per second at rest.
    pub const DEFAULT_PER_SECOND: u32 = 20;

    /// Quiet delay required before recovery starts.
    pub const DEFAULT_IDLE_DELAY_MS: u64 = 5_000;

    pub closed spec fn rate(self) -> u32 {
        self.per_second
    }

    pub closed spec fn delay(self) -> u64 {
        self.idle_delay_ms
    }

    pub fn new(per_second: u32, idle_delay_ms: u64) -> (r: Self)
        ensures
            r.rate() == per_second && r.delay() == idle_delay_ms,
    {
        Self { per_second, idle_delay_ms }
    }

    pub fn standard() -> (r: Self)
        ensures
            r.rate() == Self::DEFAULT_PER_SECOND && r.delay() == Self::DEFAULT_IDLE_DELAY_MS,
    {
        Self::new(Self::DEFAULT_PER_SECOND, Self::DEFAULT_IDLE_DELAY_MS)
    }

    /// Points recovered over `elapsed_ms`, after `idle_ms` without being hit.
    pub fn amount(self, idle_ms: u64, elapsed_ms: u64) -> (r: u32)
        ensures
            r == regenerated(self.rate() as int, self.delay() as int, idle_ms as int, elapsed_ms as int),
    {
        if idle_ms < self.idle_delay_ms {
            return 0;
        }
        let healed = saturating_mul_u64(self.per_second as u64, elapsed_ms) / 1000;
        if healed > u32::MAX as u64 {
            u32::MAX
        } else {
            healed as u32
        }
    }
}

impl Default for RegenerationRule {
    fn default() -> (r: Self)
        ensures
            r.rate() == Self::DEFAULT_PER_SECOND && r.delay() == Self::DEFAULT_IDLE_DELAY_MS,
    {
        Self::standard()
    }
}

/// Recovery grows with the time elapsed: a longer step never gives back less.
pub proof fn regeneration_grows_with_time(rule: RegenerationRule, idle_ms: u64, shorter: u64, longer: u64)
    requires
        shorter <= longer,
    ensures
        regenerated(rule.rate() as int, rule.delay() as int, idle_ms as int, shorter as int)
            <= regenerated(rule.rate() as int, rule.delay() as int, idle_ms as int, longer as int),
{
    let p = rule.rate() as int;
    assert(p * shorter <= p * longer) by (nonlinear_arith)
        requires p >= 0, shorter <= longer;
    let a = sat_mul_u64(p, shorter as int);
    let b = sat_mul_u64(p, longer as int);
    assert(a <= b);
    assert(a / 1000 <= b / 1000) by (nonlinear_arith)
        requires a <= b;
}


/// Nothing is recovered before the quiet delay has passed, however long the
/// step.
pub proof fn no_recovery_before_quiet_delay(rule: RegenerationRule, idle_ms: u64, elapsed_ms: u64)
    requires
        idle_ms < rule.delay(),
    ensures
        regenerated(rule.rate() as int, rule.delay() as int, idle_ms as int, elapsed_ms as int) == 0,
{
}

/// Once the quiet delay has passed, one second gives back exactly the rate,
/// and `n` whole seconds give back `n` times as much (while no bound is hit).
pub proof fn recovery_after_quiet_delay(rule: RegenerationRule, idle_ms: u64, seconds: u64)
    requires
        idle_ms >= rule.delay(),
        seconds * 1000 <= u64::MAX,
        rule.rate() * seconds * 1000 <= u32::MAX,
    ensures
        regenerated(rule.rate() as int, rule.delay() as int, idle_ms as int, 1000) == rule.rate(),
        regenerated(rule.rate() as int, rule.delay() as int, idle_ms as int, seconds * 1000) == rule.rate() * seconds,
{
    let p = rule.rate() as int;
    let n = seconds as int;
    assert(p * 1000 <= u64::MAX) by (nonlinear_arith)
        requires 0 <= p <= u32::MAX;
    assert(p * 1000 / 1000 == p) by (nonlinear_arith);
    assert(p * (n * 1000) == (p * n) * 1000) by (nonlinear_arith);
    assert(p * n * 1000 <= u32::MAX);
    assert((p * n) * 1000 / 1000 == p * n) by (nonlinear_arith);
}

} // verus!
