//! Whether an attack is admissible: range, cadence, state of both parties.

use vstd::prelude::*;
use crate::arith::{is_isqrt, isqrt_u64};
use crate::experience::Experience;
use crate::level::Level;
use crate::position::{Position, dist2, within};

verus! {

/// Why an attack is not admissible; each variant carries the observed values.
#[derive(Debug, Clone, Copy, PartialEq, Eq, Structural)]
pub enum AttackRejection {
    /// Target beyond reach.
    OutOfRange { distance_cm: u64, range_cm: u32 },
    /// Faster than the allowed cadence.
    TooSoon { elapsed_ms: u64, cooldown_ms: u64 },
    /// The attacker is dead.
    AttackerDown,
    /// The target is already dead.
    TargetDown,
    /// Targeting oneself.
    SelfTarget,
}

/// Engagement rule of an entity: reach and cadence.
#[derive(Debug, Clone, Copy, PartialEq, Eq, Structural)]
pub struct CombatRule {
    range_cm: u32,
    cooldown_ms: u64,
}

/// Situation submitted to [`CombatRule::authorize`].
#[derive(Debug, Clone, Copy, PartialEq, Eq, Structural)]
pub struct Engagement {
    pub attacker_at: Position,
    pub target_at: Position,
    pub attacker_alive: bool,
    pub target_alive: bool,
    pub same_entity: bool,
}

impl CombatRule {
    /// Melee reach: 2 m.
    pub const MELEE_RANGE_CM: u32 = 200;

    /// One attack per second.
    pub const DEFAULT_COOLDOWN_MS: u64 = 1_000;

    /// Reach of the rule.
    pub closed spec fn reach(self) -> u32 {
        self.range_cm
    }

    /// Minimum time between two attacks.
    pub closed spec fn cadence(self) -> u64 {
        self.cooldown_ms
    }

    pub fn new(range_cm: u32, cooldown_ms: u64) -> (r: Self)
        ensures
            r.reach() == range_cm && r.cadence() == cooldown_ms,
    {
        Self { range_cm, cooldown_ms }
    }

    pub fn melee() -> (r: Self)
        ensures
            r.reach() == Self::MELEE_RANGE_CM && r.cadence() == Self::DEFAULT_COOLDOWN_MS,
    {
        Self::new(Self::MELEE_RANGE_CM, Self::DEFAULT_COOLDOWN_MS)
    }

    pub fn range_cm(self) -> (r: u32)
        ensures
            r == self.reach(),
    {
        self.range_cm
    }

    /// Checks that an attack is admissible. Structural causes come first
    /// (self target, dead attacker, dead target), then range, then cadence.
    pub fn authorize(self, engagement: Engagement, elapsed_ms: u64) -> (r: Result<(), AttackRejection>)
        ensures
            engagement.same_entity ==> r == Err::<(), AttackRejection>(AttackRejection::SelfTarget),
            !engagement.same_entity && !engagement.attacker_alive ==> r == Err::<(), AttackRejection>(
                AttackRejection::AttackerDown,
            ),
            !engagement.same_entity && engagement.attacker_alive && !engagement.target_alive ==> r
                == Err::<(), AttackRejection>(AttackRejection::TargetDown),
            !engagement.same_entity && engagement.attacker_alive && engagement.target_alive && !within(
                engagement.attacker_at,
                engagement.target_at,
                self.reach() as int,
            ) ==> {
                &&& r matches Err(AttackRejection::OutOfRange { distance_cm, range_cm })
                &&& range_cm == self.reach()
                &&& is_isqrt(dist2(engagement.attacker_at, engagement.target_at), distance_cm as int)
            },
            !engagement.same_entity && engagement.attacker_alive && engagement.target_alive && within(
                engagement.attacker_at,
                engagement.target_at,
                self.reach() as int,
            ) ==> r == (if elapsed_ms < self.cadence() {
                Err(AttackRejection::TooSoon { elapsed_ms, cooldown_ms: self.cadence() })
            } else {
                Ok(())
            }),
    {
        if engagement.same_entity {
            return Err(AttackRejection::SelfTarget);
        }
        if !engagement.attacker_alive {
            return Err(AttackRejection::AttackerDown);
        }
        if !engagement.target_alive {
            return Err(AttackRejection::TargetDown);
        }
        if !engagement.attacker_at.is_within(engagement.target_at, self.range_cm) {
            return Err(
                AttackRejection::OutOfRange {
                    distance_cm: isqrt_u64(engagement.attacker_at.distance_squared(engagement.target_at)),
                    range_cm: self.range_cm,
                },
            );
        }
        if elapsed_ms < self.cooldown_ms {
            return Err(AttackRejection::TooSoon { elapsed_ms, cooldown_ms: self.cooldown_ms });
        }
        Ok(())
    }
}

/// Experience granted for defeating an entity of this level: `50 * level`.
pub fn experience_reward(victim_level: Level) -> (r: Experience)
    ensures
        r@ == 50 * victim_level@,
{
    let l = victim_level.get();
    Experience::new(50 * l as u64)
}

} // verus!
