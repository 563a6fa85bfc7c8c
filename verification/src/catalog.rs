//! Catalog of item definitions, a datum supplied from outside.

use vstd::prelude::*;
use std::collections::HashMap;

verus! {

broadcast use vstd::std_specs::hash::group_hash_axioms;

/// Reference to an item of the catalog.
#[derive(Debug, Clone, Copy, PartialEq, Eq, Structural, PartialOrd, Ord, Hash)]
pub struct ItemId(u32);

impl View for ItemId {
    type V = u32;

    closed spec fn view(&self) -> u32 {
        self.0
    }
}

impl ItemId {
    pub fn new(value: u32) -> (r: Self)
        ensures
            r@ == value,
    {
        Self(value)
    }

    pub fn get(self) -> (r: u32)
        ensures
            r == self@,
    {
        self.0
    }
}

/// Equipment slot.
#[derive(Debug, Clone, Copy, PartialEq, Eq, Structural, PartialOrd, Ord, Hash)]
pub enum Slot {
    Weapon,
    Armor,
}

/// What an item brings.
#[derive(Debug, Clone, Copy, PartialEq, Eq, Structural, Default)]
pub struct ItemDefinition {
    /// `None` for an item that cannot be equipped.
    pub slot: Option<Slot>,
    pub attack_bonus: u32,
    pub defense_bonus: u32,
    /// Minimum level to equip it.
    pub required_level: u8,
}

/// Known items. An item unknown to the catalog does not exist.
#[derive(Debug)]
pub struct Catalog {
    definitions: HashMap<u32, ItemDefinition>,
}

impl View for Catalog {
    type V = Map<u32, ItemDefinition>;

    closed spec fn view(&self) -> Map<u32, ItemDefinition> {
        self.definitions@
    }
}

impl Catalog {
    pub fn new() -> (r: Self)
        ensures
            r@ == Map::<u32, ItemDefinition>::empty(),
            r@.dom().finite(),
    {
        Self { definitions: HashMap::new() }
    }

    /// Adds or replaces a definition.
    pub fn with(self, id: ItemId, definition: ItemDefinition) -> (r: Self)
        ensures
            r@ == self@.insert(id@, definition),
            r@.dom().finite(),
    {
        let mut definitions = self.definitions;
        definitions.insert(id.get(), definition);
        Self { definitions }
    }

    pub fn definition(&self, id: ItemId) -> (r: Option<ItemDefinition>)
        ensures
            r == (if self@.contains_key(id@) { Some(self@[id@]) } else { None::<ItemDefinition> }),
    {
        match self.definitions.get(&id.get()) {
            Some(d) => Some(*d),
            None => None,
        }
    }

    pub fn contains(&self, id: ItemId) -> (r: bool)
        ensures
            r == self@.contains_key(id@),
    {
        self.definitions.contains_key(&id.get())
    }

    pub fn len(&self) -> (r: usize)
        ensures
            r == self@.len(),
            self@.dom().finite(),
    {
        self.definitions.len()
    }

    pub fn is_empty(&self) -> (r: bool)
        ensures
            r == (self@.len() == 0),
    {
        proof {
            assert(self@.dom().finite());
            if self@.len() == 0 {
                assert(self@.dom() =~= Set::<u32>::empty());
            }
        }
        self.definitions.is_empty()
    }
}

impl Clone for Catalog {
    fn clone(&self) -> (r: Self)
        ensures
            r@ == self@,
    {
        Self { definitions: self.definitions.clone() }
    }
}

impl Default for Catalog {
    fn default() -> (r: Self)
        ensures
            r@ == Map::<u32, ItemDefinition>::empty(),
    {
        Self::new()
    }
}

} // verus!
