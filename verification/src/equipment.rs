//! What a character wears: one item per slot, bonuses read from the catalog.

use vstd::prelude::*;
use crate::catalog::{Catalog, ItemDefinition, ItemId, Slot};
use crate::level::Level;

verus! {

/// Worn items, one per slot. Bonuses are not stored here: they are read from
/// the catalog at each computation, so a rebalance applies to worn items.
#[derive(Debug, Clone, Copy, PartialEq, Eq, Structural, Default)]
pub struct Equipment {
    weapon: Option<ItemId>,
    armor: Option<ItemId>,
}

/// Bonus that a worn item brings, read from the catalog; nothing for an empty
/// slot or an item the catalog no longer knows.
pub open spec fn bonus_of(catalog: Map<u32, ItemDefinition>, item: Option<ItemId>, attack: bool) -> int {
    match item {
        Some(i) => if catalog.contains_key(i@) {
            if attack { catalog[i@].attack_bonus as int } else { catalog[i@].defense_bonus as int }
        } else {
            0
        },
        None => 0,
    }
}

/// `a + b` capped at `u32::MAX`.
pub open spec fn sat_add_u32(a: int, b: int) -> int {
    if a + b > u32::MAX { u32::MAX as int } else { a + b }
}

impl Equipment {
    /// Item held in a slot.
    pub closed spec fn holds(self, slot: Slot) -> Option<ItemId> {
        match slot {
            Slot::Weapon => self.weapon,
            Slot::Armor => self.armor,
        }
    }

    /// Total bonus of the worn items, saturating.
    pub open spec fn total_bonus(self, catalog: Map<u32, ItemDefinition>, attack: bool) -> int {
        sat_add_u32(
            bonus_of(catalog, self.holds(Slot::Weapon), attack),
            bonus_of(catalog, self.holds(Slot::Armor), attack),
        )
    }

    /// `self` with `slot` holding `item`, the other slot unchanged.
    pub open spec fn with_slot(self, slot: Slot, item: Option<ItemId>, other: Self) -> bool {
        &&& other.holds(slot) == item
        &&& forall|s: Slot| s != slot ==> other.holds(s) == self.holds(s)
    }

    pub fn empty() -> (r: Self)
        ensures
            forall|s: Slot| r.holds(s) is None,
    {
        Self { weapon: None, armor: None }
    }

    pub fn at(self, slot: Slot) -> (r: Option<ItemId>)
        ensures
            r == self.holds(slot),
    {
        match slot {
            Slot::Weapon => self.weapon,
            Slot::Armor => self.armor,
        }
    }

    /// Equips an item and hands back the one it replaces. `None` if the item
    /// is unknown, cannot be equipped, or needs a higher level.
    pub fn equip(self, item: ItemId, catalog: &Catalog, level: Level) -> (r: Option<(Self, Option<ItemId>)>)
        ensures
            r is Some <==> (catalog@.contains_key(item@) && catalog@[item@].slot is Some
                && level@ >= catalog@[item@].required_level),
            r matches Some((e, previous)) ==> {
                let slot = catalog@[item@].slot->0;
                &&& previous == self.holds(slot)
                &&& self.with_slot(slot, Some(item), e)
            },
    {
        let definition = match catalog.definition(item) {
            Some(d) => d,
            None => return None,
        };
        let slot = match definition.slot {
            Some(s) => s,
            None => return None,
        };
        if level.get() < definition.required_level {
            return None;
        }
        let previous = self.at(slot);
        Some((self.set(slot, Some(item)), previous))
    }

    /// Empties a slot and hands back its item.
    pub fn unequip(self, slot: Slot) -> (r: (Self, Option<ItemId>))
        ensures
            r.1 == self.holds(slot),
            self.with_slot(slot, None, r.0),
    {
        (self.set(slot, None), self.at(slot))
    }

    /// Imposes the content of a slot without checking the catalog; meant for
    /// restoring saved state.
    pub fn forced(self, slot: Slot, item: Option<ItemId>) -> (r: Self)
        ensures
            self.with_slot(slot, item, r),
    {
        self.set(slot, item)
    }

    fn set(self, slot: Slot, item: Option<ItemId>) -> (r: Self)
        ensures
            self.with_slot(slot, item, r),
    {
        match slot {
            Slot::Weapon => Self { weapon: item, ..self },
            Slot::Armor => Self { armor: item, ..self },
        }
    }

    /// Attack bonus of the worn items; unknown items bring nothing.
    pub fn attack_bonus(self, catalog: &Catalog) -> (r: u32)
        ensures
            r == self.total_bonus(catalog@, true),
    {
        self.total(catalog, true)
    }

    /// Defence bonus of the worn items; unknown items bring nothing.
    pub fn defense_bonus(self, catalog: &Catalog) -> (r: u32)
        ensures
            r == self.total_bonus(catalog@, false),
    {
        self.total(catalog, false)
    }

    fn total(self, catalog: &Catalog, attack: bool) -> (r: u32)
        ensures
            r == self.total_bonus(catalog@, attack),
    {
        let weapon = Self::bonus(self.weapon, catalog, attack);
        let armor = Self::bonus(self.armor, catalog, attack);
        0u32.saturating_add(weapon).saturating_add(armor)
    }

    fn bonus(item: Option<ItemId>, catalog: &Catalog, attack: bool) -> (r: u32)
        ensures
            r == bonus_of(catalog@, item, attack),
    {
        match item {
            Some(i) => match catalog.definition(i) {
                Some(d) => if attack { d.attack_bonus } else { d.defense_bonus },
                None => 0,
            },
            None => 0,
        }
    }
}

/// Equipping an item into an empty slot, then emptying that slot, hands the
/// item back and leaves the equipment as it was.
pub proof fn unequip_undoes_equip(before: Equipment, slot: Slot, item: ItemId, equipped: Equipment, after: Equipment)
    requires
        before.holds(slot) is None,
        before.with_slot(slot, Some(item), equipped),
        equipped.with_slot(slot, None, after),
    ensures
        equipped.holds(slot) == Some(item),
        forall|s: Slot| after.holds(s) == before.holds(s),
{
}


/// Every worn item that the catalog knows counts in both bonuses, whatever
/// its slot: the attack and defence totals are each at least that item's
/// attack and defence bonus.
pub proof fn every_worn_item_counts(e: Equipment, catalog: Map<u32, ItemDefinition>, slot: Slot, item: ItemId)
    requires
        e.holds(slot) == Some(item),
        catalog.contains_key(item@),
    ensures
        e.total_bonus(catalog, true) >= catalog[item@].attack_bonus,
        e.total_bonus(catalog, false) >= catalog[item@].defense_bonus,
{
}

/// With an item known to the catalog in each slot, each bonus is the sum of
/// the two items' bonuses, capped at `u32::MAX`.
pub proof fn bonuses_sum_over_both_slots(e: Equipment, catalog: Map<u32, ItemDefinition>, weapon: ItemId, armor: ItemId)
    requires
        e.holds(Slot::Weapon) == Some(weapon),
        e.holds(Slot::Armor) == Some(armor),
        catalog.contains_key(weapon@),
        catalog.contains_key(armor@),
    ensures
        ({
            let a = catalog[weapon@].attack_bonus + catalog[armor@].attack_bonus;
            let d = catalog[weapon@].defense_bonus + catalog[armor@].defense_bonus;
            &&& e.total_bonus(catalog, true) == (if a > u32::MAX { u32::MAX as int } else { a })
            &&& e.total_bonus(catalog, false) == (if d > u32::MAX { u32::MAX as int } else { d })
        }),
{
}

/// With nothing worn, both bonuses are zero.
pub proof fn nothing_worn_gives_nothing(e: Equipment, catalog: Map<u32, ItemDefinition>)
    requires
        e.holds(Slot::Weapon) is None,
        e.holds(Slot::Armor) is None,
    ensures
        e.total_bonus(catalog, true) == 0,
        e.total_bonus(catalog, false) == 0,
{
}

} // verus!
