//! Resolution of one attack: multiplicative, bounded mitigation.

use vstd::prelude::*;
use crate::level::{Level, level_in_range};

verus! {

/// Guaranteed minimum damage of a landed hit.
pub const MIN_DAMAGE: u32 = 1;

/// Armour calibration per defender level: at `ARMOR_SCALING * level` armour an
/// attack is halved.
pub const ARMOR_SCALING: u32 = 40;

/// Consolidated offensive power.
#[derive(Debug, Clone, Copy, PartialEq, Eq, Structural)]
pub struct AttackProfile {
    power: u32,
}

impl View for AttackProfile {
    type V = u32;

    closed spec fn view(&self) -> u32 {
        self.power
    }
}

impl AttackProfile {
    pub fn new(power: u32) -> (r: Self)
        ensures
            r@ == power,
    {
        Self { power }
    }

    pub fn power(self) -> (r: u32)
        ensures
            r == self@,
    {
        self.power
    }
}

/// Consolidated armour of the defender.
#[derive(Debug, Clone, Copy, PartialEq, Eq, Structural, Default)]
pub struct DefenseProfile {
    armor: u32,
}

impl View for DefenseProfile {
    type V = u32;

    closed spec fn view(&self) -> u32 {
        self.armor
    }
}

impl DefenseProfile {
    pub fn new(armor: u32) -> (r: Self)
        ensures
            r@ == armor,
    {
        Self { armor }
    }

    pub fn armor(self) -> (r: u32)
        ensures
            r == self@,
    {
        self.armor
    }
}

/// Elemental resistance in permille, capped at `MAX_PERMILLE` by the type.
#[derive(Debug, Clone, Copy, PartialEq, Eq, Structural, Default)]
pub struct Resistance(u16);

impl View for Resistance {
    type V = u16;

    closed spec fn view(&self) -> u16 {
        self.0
    }
}

impl Resistance {
    /// 90 %: beyond that, balance collapses.
    pub const MAX_PERMILLE: u16 = 900;

    #[verifier::type_invariant]
    spec fn capped(self) -> bool {
        self.0 <= Self::MAX_PERMILLE
    }

    /// No resistance.
    pub fn none() -> (r: Self)
        ensures
            r@ == 0,
    {
        Self(0)
    }

    /// Silently caps at `MAX_PERMILLE`: stacking past the cap is nominal.
    pub fn clamped(permille: u16) -> (r: Self)
        ensures
            r@ == (if permille > Self::MAX_PERMILLE { Self::MAX_PERMILLE } else { permille }),
    {
        Self(if permille > Self::MAX_PERMILLE { Self::MAX_PERMILLE } else { permille })
    }

    pub fn permille(self) -> (r: u16)
        ensures
            r == self@,
            r <= Self::MAX_PERMILLE,
    {
        proof {
            use_type_invariant(&self);
        }
        self.0
    }
}

/// Damage left after armour: `power * K / (armor + K)` with `K = 40 * level`.
pub open spec fn after_armor(power: int, armor: int, level: int) -> int {
    power * (ARMOR_SCALING * level) / (armor + ARMOR_SCALING * level)
}

/// Damage dealt: `power * K / (armor + K) * (1000 - resistance) / 1000`,
/// rounded down at each step, capped at `u32::MAX` and floored at `MIN_DAMAGE`.
pub open spec fn damage_of(power: int, armor: int, permille: int, level: int) -> int {
    let raw = after_armor(power, armor, level) * (1000 - permille) / 1000;
    let capped = if raw > u32::MAX { u32::MAX as int } else { raw };
    if capped < MIN_DAMAGE { MIN_DAMAGE as int } else { capped }
}

/// Computes the damage dealt; pure and deterministic.
pub fn resolve_attack(
    attack: AttackProfile,
    defense: DefenseProfile,
    resistance: Resistance,
    defender_level: Level,
) -> (r: u32)
    ensures
        r == damage_of(attack@ as int, defense@ as int, resistance@ as int, defender_level@ as int),
        r >= MIN_DAMAGE,
{
    let lvl = defender_level.get();
    let permille = resistance.permille();
    let power: u64 = attack.power() as u64;
    let armor: u64 = defense.armor() as u64;
    let scaling: u64 = ARMOR_SCALING as u64 * lvl as u64;
    proof {
        assert(scaling == 40 * lvl);
        assert(scaling <= 4800);
        assert(power * scaling <= 0xffff_ffffu64 * 4800) by (nonlinear_arith)
            requires power <= 0xffff_ffffu64, scaling <= 4800;
        assert((power * scaling) as int / ((armor + scaling) as int) <= power as int) by (nonlinear_arith)
            requires scaling > 0, armor >= 0, power >= 0;
    }
    let after: u64 = power * scaling / (armor + scaling);
    proof {
        assert(after * (1000 - permille as u64) <= 0xffff_ffffu64 * 1000) by (nonlinear_arith)
            requires after <= 0xffff_ffffu64, permille <= 900;
    }
    let reduced: u64 = after * (1000 - permille as u64) / 1000;
    let capped: u32 = if reduced > u32::MAX as u64 { u32::MAX } else { reduced as u32 };
    if capped < MIN_DAMAGE {
        MIN_DAMAGE
    } else {
        capped
    }
}

/// More armour never lets more damage through.
pub proof fn mitigation_is_monotone(power: u32, lighter: u32, heavier: u32, permille: u16, level: int)
    requires
        lighter <= heavier,
        permille <= Resistance::MAX_PERMILLE,
        level_in_range(level),
    ensures
        damage_of(power as int, heavier as int, permille as int, level) <= damage_of(
            power as int,
            lighter as int,
            permille as int,
            level,
        ),
{
    let k = ARMOR_SCALING * level;
    let n = power * k;
    assert(n >= 0) by (nonlinear_arith)
        requires n == power * k, power >= 0, k >= 0;
    vstd::arithmetic::div_mod::lemma_div_is_ordered_by_denominator(n, lighter + k, heavier + k);
    let a1 = after_armor(power as int, lighter as int, level);
    let a2 = after_armor(power as int, heavier as int, level);
    assert(a2 <= a1);
    let f = 1000 - permille;
    assert(a2 * f <= a1 * f) by (nonlinear_arith)
        requires a2 <= a1, f >= 0;
    vstd::arithmetic::div_mod::lemma_div_is_ordered(a2 * f, a1 * f, 1000);
}

/// More resistance never lets more damage through.
pub proof fn resistance_is_monotone(power: u32, armor: u32, weaker: u16, stronger: u16, level: int)
    requires
        weaker <= stronger,
        stronger <= Resistance::MAX_PERMILLE,
        level_in_range(level),
    ensures
        damage_of(power as int, armor as int, stronger as int, level) <= damage_of(
            power as int,
            armor as int,
            weaker as int,
            level,
        ),
{
    let k = ARMOR_SCALING * level;
    let n = power * k;
    assert(n >= 0) by (nonlinear_arith)
        requires n == power * k, power >= 0, k >= 0;
    vstd::arithmetic::div_mod::lemma_div_pos_is_pos(n, armor + k);
    let a = after_armor(power as int, armor as int, level);
    assert(a >= 0);
    let fs = 1000 - stronger;
    let fw = 1000 - weaker;
    assert(a * fs <= a * fw) by (nonlinear_arith)
        requires a >= 0, 0 <= fs <= fw;
    vstd::arithmetic::div_mod::lemma_div_is_ordered(a * fs, a * fw, 1000);
}

/// The same armour stops less at a higher defender level.
pub proof fn armor_weakens_with_level(power: u32, armor: u32, permille: u16, low: int, high: int)
    requires
        low <= high,
        level_in_range(low),
        level_in_range(high),
        permille <= Resistance::MAX_PERMILLE,
    ensures
        damage_of(power as int, armor as int, permille as int, low) <= damage_of(
            power as int,
            armor as int,
            permille as int,
            high,
        ),
{
    let k1 = ARMOR_SCALING * low;
    let k2 = ARMOR_SCALING * high;
    let p = power as int;
    let a = armor as int;
    let n1 = p * k1;
    let n2 = p * k2;
    let d1 = a + k1;
    let d2 = a + k2;
    assert(n1 * d2 <= n2 * d1) by (nonlinear_arith)
        requires n1 == p * k1, n2 == p * k2, d1 == a + k1, d2 == a + k2, p >= 0, a >= 0, 0 <= k1 <= k2;
    let q1 = n1 / d1;
    assert(q1 <= n2 / d2) by (nonlinear_arith)
        requires n1 * d2 <= n2 * d1, d1 > 0, d2 > 0, n1 >= 0, n2 >= 0, q1 == n1 / d1;
    let f = 1000 - permille;
    let q2 = n2 / d2;
    assert(q1 * f <= q2 * f) by (nonlinear_arith)
        requires q1 <= q2, f >= 0;
    vstd::arithmetic::div_mod::lemma_div_is_ordered(q1 * f, q2 * f, 1000);
}

/// Without armour nor resistance, a hit deals exactly its power (at least one point).
pub proof fn bare_hit_deals_power(power: u32, level: int)
    requires
        level_in_range(level),
    ensures
        damage_of(power as int, 0, 0, level) == (if power < MIN_DAMAGE { MIN_DAMAGE as int } else { power as int }),
{
    let k = ARMOR_SCALING * level;
    vstd::arithmetic::div_mod::lemma_div_by_multiple(power as int, k);
    assert(after_armor(power as int, 0, level) == power);
    vstd::arithmetic::div_mod::lemma_div_by_multiple(power as int, 1000);
}

/// Armour equal to the scaling factor `K = 40 * level` halves the blow
/// (rounded down, and never below one point).
pub proof fn armor_at_scaling_halves(power: u32, level: int)
    requires
        level_in_range(level),
    ensures
        damage_of(power as int, ARMOR_SCALING * level, 0, level) == (if power / 2 < MIN_DAMAGE { MIN_DAMAGE as int } else { (power / 2) as int }),
{
    let k = ARMOR_SCALING * level;
    assert(k > 0);
    assert(power * k / (k + k) == power / 2) by {
        assert(power * k == (power as int) * k);
        assert(k + k == 2 * k);
        vstd::arithmetic::div_mod::lemma_div_denominator(power * k, k, 2);
        assert(power * k / k == power as int) by {
            vstd::arithmetic::div_mod::lemma_div_by_multiple(power as int, k);
        }
        vstd::arithmetic::mul::lemma_mul_is_commutative(k, 2);
    }
    let half = power / 2;
    assert(half * 1000 / 1000 == half) by {
        vstd::arithmetic::div_mod::lemma_div_by_multiple(half as int, 1000);
    }
}

/// Armour has diminishing returns: on the armour ratio `K / (armor + K)`,
/// each further `step` of armour takes off less than the previous one.
/// Stated on the exact ratio, cross-multiplied: rounding the damage down can
/// make two successive gains equal.
pub proof fn armor_has_diminishing_returns(armor: int, step: int, level: int)
    requires
        level_in_range(level),
        armor >= 0,
        step > 0,
    ensures
        ({
            let k = ARMOR_SCALING * level;
            let (d0, d1, d2) = (armor + k, armor + step + k, armor + 2 * step + k);
            // first gain  = k / d0 - k / d1 = k * step / (d0 * d1)
            // second gain = k / d1 - k / d2 = k * step / (d1 * d2)
            k * step * (d1 * d2) > k * step * (d0 * d1)
        }),
{
    let k = ARMOR_SCALING * level;
    let d0 = armor + k;
    let d1 = armor + step + k;
    let d2 = armor + 2 * step + k;
    assert(k > 0);
    assert(d1 * d2 > d0 * d1) by (nonlinear_arith)
        requires
            d0 > 0,
            d1 > 0,
            d2 > d0;
    assert(k * step > 0) by (nonlinear_arith)
        requires
            k > 0,
            step > 0;
    assert(k * step * (d1 * d2) > k * step * (d0 * d1)) by (nonlinear_arith)
        requires
            k * step > 0,
            d1 * d2 > d0 * d1;
}

} // verus!
