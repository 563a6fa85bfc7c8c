//! Character aggregate: identity, attributes, progression.

use vstd::prelude::*;
use crate::experience::{Experience, ProgressionCurve, requirement, requirement_is_positive, sat_add_u64};
use crate::level::{Level, MAX_LEVEL, level_in_range};
use crate::vitals::{Vitals, rescaled};

verus! {

/// Opaque identifier, given out by persistence.
#[derive(Debug, Clone, Copy, PartialEq, Eq, Structural, PartialOrd, Ord, Hash)]
pub struct CharacterId(u64);

impl View for CharacterId {
    type V = u64;

    closed spec fn view(&self) -> u64 {
        self.0
    }
}

impl CharacterId {
    pub fn new(value: u64) -> (r: Self)
        ensures
            r@ == value,
    {
        Self(value)
    }

    pub fn get(self) -> (r: u64)
        ensures
            r == self@,
    {
        self.0
    }
}

/// Primary attributes; every derived statistic is recomputed from them.
#[derive(Debug, Clone, Copy, PartialEq, Eq, Structural, Default)]
pub struct Attributes {
    pub strength: u16,
    pub dexterity: u16,
    pub vitality: u16,
    pub intellect: u16,
}

/// Maximum health for a vitality score at a level: `100 + 30 * vitality + 40 * (level - 1)`.
pub open spec fn max_health_of(vitality: int, level: int) -> int {
    100 + vitality * 30 + (level - 1) * 40
}

impl Attributes {
    /// Maximum health for these attributes at this level.
    pub fn max_health(self, level: Level) -> (r: u32)
        ensures
            r == max_health_of(self.vitality as int, level@ as int),
            r >= 100,
    {
        let l = level.get();
        100 + self.vitality as u32 * 30 + (l as u32 - 1) * 40
    }
}

/// Outcome of an experience gain.
#[derive(Debug, Clone, Copy, PartialEq, Eq, Structural)]
pub enum ProgressionOutcome {
    /// Experience accumulated, level unchanged.
    Accumulated,
    /// One or more levels crossed at once.
    LeveledUp { from: Level, to: Level },
    /// Terminal level: the gain is ignored.
    AtMaxLevel,
}

/// The level and leftover experience reached by spending `pool` from `level`
/// on a curve of parameter `base`: every threshold that the pool covers is
/// crossed; at the terminal level the surplus is cut to one point under the
/// threshold.
pub open spec fn climb(base: int, level: int, pool: int) -> (int, int)
    decreases MAX_LEVEL - level,
{
    if !level_in_range(level) {
        (level, pool)
    } else if pool < requirement(base, level) {
        (level, pool)
    } else if level >= MAX_LEVEL {
        (level, requirement(base, level) - 1)
    } else {
        climb(base, level + 1, pool - requirement(base, level))
    }
}

/// The spending loop never goes down, stays in range, and leaves less than
/// the threshold of the level it stops at.
pub proof fn climb_properties(base: int, level: int, pool: int)
    requires
        base >= 1,
        level_in_range(level),
        0 <= pool <= u64::MAX,
    ensures
        level <= climb(base, level, pool).0 <= MAX_LEVEL,
        0 <= climb(base, level, pool).1 <= pool,
        climb(base, level, pool).1 < requirement(base, climb(base, level, pool).0),
    decreases MAX_LEVEL - level,
{
    requirement_is_positive(base, level);
    if pool < requirement(base, level) {
    } else if level >= MAX_LEVEL {
    } else {
        climb_properties(base, level + 1, pool - requirement(base, level));
    }
}


/// A character after an experience gain of `amount`: at the terminal level
/// nothing changes; otherwise the levels paid for are crossed, and a level
/// change rescales health to the new ceiling.
pub open spec fn after_gain(c: CharacterView, amount: int) -> CharacterView {
    if c.level == MAX_LEVEL {
        c
    } else {
        let reached = climb(c.curve_base as int, c.level as int, sat_add_u64(c.experience as int, amount));
        if reached.0 == c.level {
            CharacterView { experience: reached.1 as u64, ..c }
        } else {
            let top = max_health_of(c.attributes.vitality as int, reached.0);
            CharacterView {
                level: reached.0 as u8,
                experience: reached.1 as u64,
                max_health: top as u32,
                health: rescaled(c.health as int, c.max_health as int, top) as u32,
                ..c
            }
        }
    }
}

/// Abstract state of a character.
pub struct CharacterView {
    pub id: u64,
    pub level: u8,
    pub experience: u64,
    pub attributes: Attributes,
    pub health: u32,
    pub max_health: u32,
    pub curve_base: u64,
}

/// A playable character. Transitions return a new value.
#[derive(Debug, Clone, Copy, PartialEq, Eq, Structural)]
pub struct Character {
    id: CharacterId,
    level: Level,
    experience: Experience,
    attributes: Attributes,
    vitals: Vitals,
    curve: ProgressionCurve,
}

impl View for Character {
    type V = CharacterView;

    closed spec fn view(&self) -> CharacterView {
        CharacterView {
            id: self.id@,
            level: self.level@,
            experience: self.experience@,
            attributes: self.attributes,
            health: self.vitals.level_now(),
            max_health: self.vitals.ceiling(),
            curve_base: self.curve.base(),
        }
    }
}

/// What every character satisfies: level in range, ceiling derived from the
/// attributes, and experience strictly below the threshold of its level.
pub open spec fn character_valid(c: CharacterView) -> bool {
    &&& level_in_range(c.level as int)
    &&& c.curve_base > 0
    &&& c.max_health == max_health_of(c.attributes.vitality as int, c.level as int)
    &&& c.health <= c.max_health
    &&& c.experience < requirement(c.curve_base as int, c.level as int)
}

impl Character {
    #[verifier::type_invariant]
    spec fn consistent(self) -> bool {
        character_valid(self@)
    }

    /// A level-1 character at full health.
    pub fn create(id: CharacterId, attributes: Attributes, curve: ProgressionCurve) -> (r: Self)
        ensures
            r@.id == id@,
            r@.level == 1,
            r@.experience == 0,
            r@.attributes == attributes,
            r@.max_health == max_health_of(attributes.vitality as int, 1),
            r@.health == r@.max_health,
            r@.curve_base == curve.base(),
    {
        let level = Level::first();
        let _threshold = curve.required_to_leave(level);
        proof {
            requirement_is_positive(curve.base() as int, 1);
        }
        let top = attributes.max_health(level);
        let vitals = Vitals::full(top).unwrap();
        Self { id, level, experience: Experience::zero(), attributes, vitals, curve }
    }

    /// Rebuilds a saved character, or `None` if the saved state breaks the
    /// character invariants (health above the ceiling, experience at or past
    /// the threshold of its level).
    pub fn restore(
        id: CharacterId,
        level: Level,
        experience: Experience,
        attributes: Attributes,
        current_health: u32,
        curve: ProgressionCurve,
    ) -> (r: Option<Self>)
        ensures
            r is Some <==> (current_health <= max_health_of(attributes.vitality as int, level@ as int)
                && experience@ < requirement(curve.base() as int, level@ as int)),
            r matches Some(c) ==> {
                &&& c@.id == id@
                &&& c@.level == level@
                &&& c@.experience == experience@
                &&& c@.attributes == attributes
                &&& c@.health == current_health
                &&& c@.max_health == max_health_of(attributes.vitality as int, level@ as int)
                &&& c@.curve_base == curve.base()
            },
    {
        let top = attributes.max_health(level);
        let threshold = curve.required_to_leave(level);
        let _ = level.get();
        if current_health > top || experience.get() >= threshold.get() {
            return None;
        }
        let full = match Vitals::full(top) {
            Some(v) => v,
            None => return None,
        };
        let vitals = full.damaged_by(top - current_health);
        Some(Self { id, level, experience, attributes, vitals, curve })
    }

    pub fn id(self) -> (r: CharacterId)
        ensures
            r@ == self@.id,
    {
        self.id
    }

    pub fn level(self) -> (r: Level)
        ensures
            r@ == self@.level,
            character_valid(self@),
    {
        proof {
            use_type_invariant(&self);
        }
        self.level
    }

    pub fn experience(self) -> (r: Experience)
        ensures
            r@ == self@.experience,
            character_valid(self@),
    {
        proof {
            use_type_invariant(&self);
        }
        self.experience
    }

    pub fn attributes(self) -> (r: Attributes)
        ensures
            r == self@.attributes,
    {
        self.attributes
    }

    pub fn vitals(self) -> (r: Vitals)
        ensures
            r.level_now() == self@.health,
            r.ceiling() == self@.max_health,
            character_valid(self@),
    {
        proof {
            use_type_invariant(&self);
        }
        self.vitals
    }

    pub fn is_alive(self) -> (r: bool)
        ensures
            r == (self@.health > 0),
    {
        !self.vitals.is_depleted()
    }

    /// Applies an experience gain and crosses as many levels as it pays for,
    /// in a single pass. At the terminal level the gain is ignored.
    pub fn gain_experience(self, amount: Experience) -> (r: (Self, ProgressionOutcome))
        ensures
            character_valid(r.0@),
            r.0@ == after_gain(self@, amount@ as int),
            r.0@.id == self@.id,
            r.0@.attributes == self@.attributes,
            r.0@.curve_base == self@.curve_base,
            self@.level == MAX_LEVEL ==> r.0 == self && r.1 == ProgressionOutcome::AtMaxLevel,
            self@.level < MAX_LEVEL ==> {
                let reached = climb(
                    self@.curve_base as int,
                    self@.level as int,
                    sat_add_u64(self@.experience as int, amount@ as int),
                );
                &&& r.0@.level == reached.0
                &&& r.0@.experience == reached.1
                &&& reached.0 == self@.level ==> {
                    &&& r.1 == ProgressionOutcome::Accumulated
                    &&& r.0@.health == self@.health
                    &&& r.0@.max_health == self@.max_health
                }
                &&& reached.0 != self@.level ==> {
                    &&& r.1 matches ProgressionOutcome::LeveledUp { from, to }
                    &&& from@ == self@.level
                    &&& to@ == reached.0
                    &&& r.0@.max_health == max_health_of(self@.attributes.vitality as int, reached.0)
                    &&& r.0@.health == rescaled(
                        self@.health as int,
                        self@.max_health as int,
                        r.0@.max_health as int,
                    )
                }
            },
    {
        proof {
            use_type_invariant(&self);
        }
        if self.level.is_max() {
            return (self, ProgressionOutcome::AtMaxLevel);
        }
        let ghost base = self.curve.base() as int;
        let ghost start = sat_add_u64(self.experience@ as int, amount@ as int);
        let mut level = self.level;
        let mut pool = self.experience.saturating_add(amount);
        loop
            invariant_except_break
                base == self.curve.base() as int,
                base >= 1,
                level_in_range(level@ as int),
                self.level@ <= level@,
                climb(base, level@ as int, pool@ as int) == climb(base, self.level@ as int, start),
            ensures
                level_in_range(level@ as int),
                self.level@ <= level@,
                (level@ as int, pool@ as int) == climb(base, self.level@ as int, start),
            decreases MAX_LEVEL - level@,
        {
            let needed = self.curve.required_to_leave(level);
            if pool.get() < needed.get() {
                break;
            }
            match level.next() {
                None => {
                    pool = needed.saturating_sub(Experience::new(1));
                    proof {
                        requirement_is_positive(base, level@ as int);
                    }
                    break;
                },
                Some(next) => {
                    pool = pool.saturating_sub(needed);
                    level = next;
                },
            }
        }
        proof {
            climb_properties(base, self.level@ as int, start);
        }
        if level.get() == self.level.get() {
            return (Self { experience: pool, ..self }, ProgressionOutcome::Accumulated);
        }
        let top = self.attributes.max_health(level);
        let vitals = match self.vitals.with_max(top) {
            Some(v) => v,
            None => self.vitals,
        };
        (
            Self { level, experience: pool, vitals, ..self },
            ProgressionOutcome::LeveledUp { from: self.level, to: level },
        )
    }

    /// Applies damage already resolved by the combat rules.
    pub fn take_damage(self, amount: u32) -> (r: Self)
        ensures
            r@ == (CharacterView {
                health: if self@.health < amount { 0 } else { (self@.health - amount) as u32 },
                ..self@
            }),
    {
        proof {
            use_type_invariant(&self);
        }
        Self { vitals: self.vitals.damaged_by(amount), ..self }
    }

    /// Brings the character back at full health, keeping level and experience.
    pub fn respawn(self) -> (r: Self)
        ensures
            r@ == (CharacterView { health: self@.max_health, ..self@ }),
    {
        proof {
            use_type_invariant(&self);
        }
        let top = self.attributes.max_health(self.level);
        let vitals = match Vitals::full(top) {
            Some(v) => v,
            None => self.vitals,
        };
        Self { vitals, ..self }
    }
}


/// Maximum health is 100 at level 1 without vitality; each point of vitality
/// adds exactly 30, and each level exactly 40.
pub proof fn max_health_steps(vitality: int, level: int)
    ensures
        max_health_of(0, 1) == 100,
        max_health_of(vitality + 1, level) == max_health_of(vitality, level) + 30,
        max_health_of(vitality, level + 1) == max_health_of(vitality, level) + 40,
{
}

} // verus!
