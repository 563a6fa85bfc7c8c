//! Character level, kept within `1..=MAX_LEVEL` by construction.

use vstd::prelude::*;

verus! {

/// Highest reachable level. A game-design constant, not a technical limit.
pub const MAX_LEVEL: u8 = 120;

/// Level of a character, always within `1..=MAX_LEVEL`.
#[derive(Debug, Clone, Copy, PartialEq, Eq, Structural, PartialOrd, Ord, Hash)]
pub struct Level(u8);

impl View for Level {
    type V = u8;

    closed spec fn view(&self) -> u8 {
        self.0
    }
}

/// Whether `value` is an acceptable level.
pub open spec fn level_in_range(value: int) -> bool {
    1 <= value <= MAX_LEVEL
}

impl Level {
    #[verifier::type_invariant]
    spec fn in_range(self) -> bool {
        level_in_range(self.0 as int)
    }

    /// Builds a level, or `None` outside `1..=MAX_LEVEL`.
    pub fn new(value: u8) -> (r: Option<Self>)
        ensures
            r is Some <==> level_in_range(value as int),
            r matches Some(l) ==> l@ == value,
    {
        if value >= 1 && value <= MAX_LEVEL {
            Some(Self(value))
        } else {
            None
        }
    }

    pub fn get(self) -> (r: u8)
        ensures
            r == self@,
            level_in_range(r as int),
    {
        proof {
            use_type_invariant(&self);
        }
        self.0
    }

    /// Next level, or `None` at the terminal level.
    pub fn next(self) -> (r: Option<Self>)
        ensures
            level_in_range(self@ as int),
            r is Some <==> self@ < MAX_LEVEL,
            r matches Some(l) ==> l@ == self@ + 1,
    {
        proof {
            use_type_invariant(&self);
        }
        Self::new(self.0 + 1)
    }

    pub fn is_max(self) -> (r: bool)
        ensures
            level_in_range(self@ as int),
            r == (self@ == MAX_LEVEL),
    {
        proof {
            use_type_invariant(&self);
        }
        self.0 == MAX_LEVEL
    }

    /// Starting level of every character.
    pub fn first() -> (r: Self)
        ensures
            r@ == 1,
    {
        Self(1)
    }

    /// Terminal level.
    pub fn last() -> (r: Self)
        ensures
            r@ == MAX_LEVEL,
    {
        Self(MAX_LEVEL)
    }
}

} // verus!
