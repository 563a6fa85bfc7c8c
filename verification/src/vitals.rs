//! Bounded gauge (health, energy) with `current <= max` and `max > 0`.

use vstd::prelude::*;

verus! {

/// A bounded gauge.
#[derive(Debug, Clone, Copy, PartialEq, Eq, Structural)]
pub struct Vitals {
    current: u32,
    max: u32,
}

/// Current value of a gauge after scaling from `max` to `new_max`, keeping the
/// proportion (rounded down) but never turning a living gauge into an empty one.
pub open spec fn rescaled(current: int, max: int, new_max: int) -> int {
    let ratio = current * new_max / max;
    if ratio == 0 && current > 0 { 1 } else { ratio }
}

impl Vitals {
    #[verifier::type_invariant]
    spec fn bounded(self) -> bool {
        0 < self.max && self.current <= self.max
    }

    /// Current value of the gauge.
    pub closed spec fn level_now(self) -> u32 {
        self.current
    }

    /// Ceiling of the gauge.
    pub closed spec fn ceiling(self) -> u32 {
        self.max
    }

    /// A full gauge. `None` for a null maximum: such an entity would be dead
    /// from birth.
    pub fn full(max: u32) -> (r: Option<Self>)
        ensures
            r is Some <==> max != 0,
            r matches Some(v) ==> v.level_now() == max && v.ceiling() == max,
    {
        if max == 0 {
            None
        } else {
            Some(Self { current: max, max })
        }
    }

    pub fn current(self) -> (r: u32)
        ensures
            r == self.level_now(),
            r <= self.ceiling(),
    {
        proof {
            use_type_invariant(&self);
        }
        self.current
    }

    pub fn max(self) -> (r: u32)
        ensures
            r == self.ceiling(),
            r > 0,
            self.level_now() <= r,
    {
        proof {
            use_type_invariant(&self);
        }
        self.max
    }

    pub fn is_depleted(self) -> (r: bool)
        ensures
            r == (self.level_now() == 0),
    {
        self.current == 0
    }

    /// Removes `amount`, floored at zero.
    pub fn damaged_by(self, amount: u32) -> (r: Self)
        ensures
            r.level_now() == (if self.level_now() < amount { 0 } else { self.level_now() - amount }),
            r.ceiling() == self.ceiling(),
            r.level_now() <= r.ceiling(),
    {
        proof {
            use_type_invariant(&self);
        }
        Self { current: self.current.saturating_sub(amount), max: self.max }
    }

    /// Adds `amount`, capped at the maximum. An empty gauge stays empty:
    /// coming back to life is a character transition, not a heal.
    pub fn healed_by(self, amount: u32) -> (r: Self)
        ensures
            r.ceiling() == self.ceiling(),
            r.level_now() <= r.ceiling(),
            r.level_now() == (if self.level_now() == 0 {
                0
            } else if self.level_now() + amount > self.ceiling() {
                self.ceiling() as int
            } else {
                self.level_now() + amount
            }),
    {
        proof {
            use_type_invariant(&self);
        }
        if self.is_depleted() {
            return self;
        }
        let raised = self.current.saturating_add(amount);
        Self { current: if raised > self.max { self.max } else { raised }, max: self.max }
    }

    /// Resizes the ceiling while keeping the current proportion.
    pub fn with_max(self, new_max: u32) -> (r: Option<Self>)
        ensures
            r is Some <==> new_max != 0,
            r matches Some(v) ==> {
                &&& v.ceiling() == new_max
                &&& v.level_now() <= v.ceiling()
                &&& v.level_now() == rescaled(
                    self.level_now() as int,
                    self.ceiling() as int,
                    new_max as int,
                )
                &&& (v.level_now() == 0 <==> self.level_now() == 0)
            },
    {
        proof {
            use_type_invariant(&self);
        }
        if new_max == 0 {
            return None;
        }
        let cur: u64 = self.current as u64;
        let top: u64 = self.max as u64;
        let target: u64 = new_max as u64;
        proof {
            assert(cur * target <= top * target) by (nonlinear_arith)
                requires cur <= top;
            assert(cur * target <= 0xffff_ffffu64 * 0xffff_ffffu64) by (nonlinear_arith)
                requires cur <= 0xffff_ffffu64, target <= 0xffff_ffffu64;
            assert((cur as int * target as int) / (top as int) <= target as int) by (nonlinear_arith)
                requires cur as int * target as int <= top as int * target as int, top > 0;
        }
        let ratio: u64 = cur * target / top;
        let scaled: u32 = ratio as u32;
        proof {
            if cur == 0 {
                assert(cur as int * target as int == 0) by (nonlinear_arith)
                    requires cur == 0;
            }
        }
        Some(Self { current: if scaled == 0 && self.current > 0 { 1 } else { scaled }, max: new_max })
    }
}

} // verus!
