//! Behaviour of non-player creatures: from a situation to an intent.

use vstd::prelude::*;
use crate::position::{Position, within};

verus! {

/// What the creature is pursuing right now.
#[derive(Debug, Clone, Copy, PartialEq, Eq, Structural, Default)]
pub enum Stance {
    /// At its post, without a target.
    #[default]
    Idle,
    /// Engaged on a target.
    Engaged,
    /// Going back to its post.
    Returning,
}

/// What a creature perceives of a potential target.
#[derive(Debug, Clone, Copy, PartialEq, Eq, Structural)]
pub struct Threat {
    pub position: Position,
    pub alive: bool,
}

/// Situation submitted to the rule.
#[derive(Debug, Clone, Copy, PartialEq, Eq, Structural)]
pub struct Situation {
    /// Where the creature stands.
    pub creature: Position,
    /// Its original post, where it spawned.
    pub anchor: Position,
    /// The nearest target, if it perceives one.
    pub nearest: Option<Threat>,
    pub stance: Stance,
}

/// What the creature wants to do.
#[derive(Debug, Clone, Copy, PartialEq, Eq, Structural)]
pub enum Intent {
    /// Do nothing.
    Hold,
    /// Move towards this point.
    Approach(Position),
    /// Hit the target: it is within reach.
    Strike,
    /// Go back to this point, without a target.
    ReturnTo(Position),
}

/// Aggressiveness policy of a creature; three distances measured from it.
#[derive(Debug, Clone, Copy, PartialEq, Eq, Structural)]
pub struct AggroRule {
    aggro_radius_cm: u32,
    leash_radius_cm: u32,
    strike_radius_cm: u32,
}

/// Going home: hold at the post, or head back to it.
pub open spec fn homeward(s: Situation) -> (Intent, Stance) {
    if s.creature == s.anchor {
        (Intent::Hold, Stance::Idle)
    } else {
        (Intent::ReturnTo(s.anchor), Stance::Returning)
    }
}

/// The decision of a creature with the given radii. The leash is measured
/// from the post, never from the target; an engaged creature keeps chasing
/// beyond its detection radius, within its leash.
pub open spec fn decision(aggro: int, leash: int, strike: int, s: Situation) -> (Intent, Stance) {
    if !within(s.creature, s.anchor, leash) {
        homeward(s)
    } else {
        match s.nearest {
            Some(t) => if !t.alive {
                homeward(s)
            } else if !(s.stance == Stance::Engaged || within(s.creature, t.position, aggro)) {
                homeward(s)
            } else if within(s.creature, t.position, strike) {
                (Intent::Strike, Stance::Engaged)
            } else {
                (Intent::Approach(t.position), Stance::Engaged)
            },
            None => homeward(s),
        }
    }
}

impl AggroRule {
    /// Distance at which a creature notices a player: 15 m.
    pub const DEFAULT_AGGRO_CM: u32 = 1_500;

    /// Greatest distance from its post before giving up: 30 m.
    pub const DEFAULT_LEASH_CM: u32 = 3_000;

    /// Detection radius.
    pub closed spec fn aggro(self) -> u32 {
        self.aggro_radius_cm
    }

    /// Leash radius.
    pub closed spec fn leash(self) -> u32 {
        self.leash_radius_cm
    }

    /// Reach of its blows.
    pub closed spec fn strike(self) -> u32 {
        self.strike_radius_cm
    }

    /// `None` when the leash is shorter than the detection radius: the
    /// creature would chase and give up at every other step.
    pub fn new(aggro_radius_cm: u32, leash_radius_cm: u32, strike_radius_cm: u32) -> (r: Option<Self>)
        ensures
            r is Some <==> leash_radius_cm >= aggro_radius_cm,
            r matches Some(a) ==> a.aggro() == aggro_radius_cm && a.leash() == leash_radius_cm
                && a.strike() == strike_radius_cm,
    {
        if leash_radius_cm < aggro_radius_cm {
            None
        } else {
            Some(Self { aggro_radius_cm, leash_radius_cm, strike_radius_cm })
        }
    }

    /// Reference policy, set on the melee reach.
    pub fn standard(strike_radius_cm: u32) -> (r: Self)
        ensures
            r.aggro() == Self::DEFAULT_AGGRO_CM,
            r.leash() == Self::DEFAULT_LEASH_CM,
            r.strike() == strike_radius_cm,
    {
        Self {
            aggro_radius_cm: Self::DEFAULT_AGGRO_CM,
            leash_radius_cm: Self::DEFAULT_LEASH_CM,
            strike_radius_cm,
        }
    }

    pub fn aggro_radius_cm(self) -> (r: u32)
        ensures
            r == self.aggro(),
    {
        self.aggro_radius_cm
    }

    /// Decides the intent, and the stance that follows from it.
    pub fn decide(self, situation: Situation) -> (r: (Intent, Stance))
        ensures
            r == decision(self.aggro() as int, self.leash() as int, self.strike() as int, situation),
    {
        let too_far_from_post = !situation.creature.is_within(situation.anchor, self.leash_radius_cm);
        if too_far_from_post {
            return Self::go_home(situation);
        }
        let threat = match situation.nearest {
            Some(t) => if t.alive {
                t
            } else {
                return Self::go_home(situation);
            },
            None => return Self::go_home(situation),
        };
        let noticed = match situation.stance {
            Stance::Engaged => true,
            Stance::Idle | Stance::Returning => situation.creature.is_within(
                threat.position,
                self.aggro_radius_cm,
            ),
        };
        if !noticed {
            return Self::go_home(situation);
        }
        if situation.creature.is_within(threat.position, self.strike_radius_cm) {
            (Intent::Strike, Stance::Engaged)
        } else {
            (Intent::Approach(threat.position), Stance::Engaged)
        }
    }

    /// Goes back to the post, or waits there.
    fn go_home(situation: Situation) -> (r: (Intent, Stance))
        ensures
            r == homeward(situation),
    {
        if situation.creature == situation.anchor {
            (Intent::Hold, Stance::Idle)
        } else {
            (Intent::ReturnTo(situation.anchor), Stance::Returning)
        }
    }
}

/// A creature that strayed beyond its leash always heads home, whatever the
/// target does: a player cannot drag it across the map.
pub proof fn leash_brings_home(rule: AggroRule, s: Situation)
    requires
        !within(s.creature, s.anchor, rule.leash() as int),
    ensures
        decision(rule.aggro() as int, rule.leash() as int, rule.strike() as int, s) == (
            Intent::ReturnTo(s.anchor),
            Stance::Returning,
        ),
{
    if s.creature == s.anchor {
        crate::position::distance_zero_iff_same(s.creature, s.anchor);
        assert(rule.leash() as int * rule.leash() as int >= 0) by (nonlinear_arith);
    }
}

/// A creature never strikes nor chases a dead target.
pub proof fn dead_targets_are_ignored(rule: AggroRule, s: Situation)
    requires
        s.nearest matches Some(t) && !t.alive,
    ensures
        decision(rule.aggro() as int, rule.leash() as int, rule.strike() as int, s) == homeward(s),
{
}


/// A creature that is not engaged (at rest, or heading home) only notices a
/// living target within its detection radius: one beyond it is neither
/// struck nor chased, whatever the leash, and the creature waits at its post
/// or heads back to it.
pub proof fn unnoticed_targets_are_ignored(rule: AggroRule, s: Situation)
    requires
        s.stance != Stance::Engaged,
        s.nearest matches Some(t) && t.alive && !within(s.creature, t.position, rule.aggro() as int),
    ensures
        s.creature == s.anchor ==> decision(rule.aggro() as int, rule.leash() as int, rule.strike() as int, s) == (
            Intent::Hold,
            Stance::Idle,
        ),
        s.creature != s.anchor ==> decision(rule.aggro() as int, rule.leash() as int, rule.strike() as int, s) == (
            Intent::ReturnTo(s.anchor),
            Stance::Returning,
        ),
{
}

/// Within its leash, a creature engages a living target it has noticed (any
/// target once engaged, one within its detection radius otherwise): it
/// strikes when the target is within reach, and moves towards it otherwise.
pub proof fn noticed_targets_are_engaged(rule: AggroRule, s: Situation)
    requires
        within(s.creature, s.anchor, rule.leash() as int),
        s.nearest matches Some(t) && t.alive && (s.stance == Stance::Engaged || within(
            s.creature,
            t.position,
            rule.aggro() as int,
        )),
    ensures
        ({
            let t = s.nearest->0;
            let d = decision(rule.aggro() as int, rule.leash() as int, rule.strike() as int, s);
            &&& d.1 == Stance::Engaged
            &&& within(s.creature, t.position, rule.strike() as int) ==> d.0 == Intent::Strike
            &&& !within(s.creature, t.position, rule.strike() as int) ==> d.0 == Intent::Approach(t.position)
        }),
{
}

} // verus!
