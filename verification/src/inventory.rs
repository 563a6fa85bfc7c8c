//! Fixed-capacity bag with stable slots.

use vstd::prelude::*;
use crate::catalog::ItemId;

verus! {

/// Why an inventory operation fails.
#[derive(Debug, Clone, Copy, PartialEq, Eq, Structural)]
pub enum InventoryError {
    /// No room left.
    Full,
    /// Missing or empty slot.
    NoSuchSlot,
}

/// Bag of a character. Slots are stable: removing an item leaves a hole.
#[derive(Debug, PartialEq, Eq)]
pub struct Inventory {
    slots: Vec<Option<ItemId>>,
}

/// Number of occupied slots.
pub open spec fn occupied(slots: Seq<Option<ItemId>>) -> nat
    decreases slots.len(),
{
    if slots.len() == 0 {
        0
    } else {
        occupied(slots.drop_last()) + if slots.last() is Some { 1nat } else { 0nat }
    }
}

/// Occupancy never exceeds the number of slots.
pub proof fn occupied_bounded(slots: Seq<Option<ItemId>>)
    ensures
        occupied(slots) <= slots.len(),
        occupied(slots) == 0 <==> forall|i: int| 0 <= i < slots.len() ==> slots[i] is None,
        occupied(slots) == slots.len() <==> forall|i: int| 0 <= i < slots.len() ==> slots[i] is Some,
    decreases slots.len(),
{
    if slots.len() > 0 {
        occupied_bounded(slots.drop_last());
        let d = slots.drop_last();
        assert forall|i: int| 0 <= i < d.len() implies d[i] == slots[i] by {}
        if forall|i: int| 0 <= i < slots.len() ==> slots[i] is None {
            assert forall|i: int| 0 <= i < d.len() implies d[i] is None by {
                assert(slots[i] is None);
            }
        }
        if forall|i: int| 0 <= i < slots.len() ==> slots[i] is Some {
            assert forall|i: int| 0 <= i < d.len() implies d[i] is Some by {
                assert(slots[i] is Some);
            }
        }
        if occupied(slots) == 0 {
            assert forall|i: int| 0 <= i < slots.len() implies slots[i] is None by {
                if i < d.len() {
                    assert(d[i] is None);
                }
            }
        }
        if occupied(slots) == slots.len() {
            assert forall|i: int| 0 <= i < slots.len() implies slots[i] is Some by {
                if i < d.len() {
                    assert(d[i] is Some);
                }
            }
        }
    }
}

/// Filling or emptying one slot changes the occupancy by exactly one.
pub proof fn occupied_update(slots: Seq<Option<ItemId>>, i: int, v: Option<ItemId>)
    requires
        0 <= i < slots.len(),
    ensures
        occupied(slots.update(i, v)) + (if slots[i] is Some { 1int } else { 0int }) == occupied(slots)
            + (if v is Some { 1int } else { 0int }),
    decreases slots.len(),
{
    let u = slots.update(i, v);
    if i == slots.len() - 1 {
        assert(u.drop_last() =~= slots.drop_last());
    } else {
        occupied_update(slots.drop_last(), i, v);
        assert(u.drop_last() =~= slots.drop_last().update(i, v));
    }
}

/// Taking out of its slot an item that was just stored there gives that item
/// back and leaves the bag as it was.
pub proof fn remove_undoes_add(
    before: Seq<Option<ItemId>>,
    index: int,
    item: ItemId,
    added: Seq<Option<ItemId>>,
    taken: ItemId,
    after: Seq<Option<ItemId>>,
)
    requires
        0 <= index < before.len(),
        before[index] is None,
        added == before.update(index, Some(item)),
        added[index] == Some(taken),
        after == added.update(index, None),
    ensures
        taken == item,
        after == before,
{
    assert(after =~= before);
}

impl View for Inventory {
    type V = Seq<Option<ItemId>>;

    closed spec fn view(&self) -> Seq<Option<ItemId>> {
        self.slots@
    }
}

impl Inventory {
    /// Reference capacity.
    pub const DEFAULT_CAPACITY: usize = 24;

    #[verifier::type_invariant]
    spec fn has_room(self) -> bool {
        self.slots@.len() > 0
    }

    fn empty_slots(capacity: usize) -> (r: Vec<Option<ItemId>>)
        ensures
            r@.len() == capacity,
            forall|i: int| 0 <= i < capacity ==> r@[i] is None,
    {
        let mut slots: Vec<Option<ItemId>> = Vec::new();
        let mut n: usize = 0;
        while n < capacity
            invariant
                n <= capacity,
                slots@.len() == n,
                forall|i: int| 0 <= i < n ==> slots@[i] is None,
            decreases capacity - n,
        {
            slots.push(None);
            n = n + 1;
        }
        slots
    }

    /// `None` for a null capacity: such a bag could never receive anything.
    pub fn with_capacity(capacity: usize) -> (r: Option<Self>)
        ensures
            r is Some <==> capacity != 0,
            r matches Some(bag) ==> bag@.len() == capacity && forall|i: int|
                0 <= i < capacity ==> bag@[i] is None,
    {
        if capacity == 0 {
            None
        } else {
            Some(Self { slots: Self::empty_slots(capacity) })
        }
    }

    pub fn capacity(&self) -> (r: usize)
        ensures
            r == self@.len(),
            r > 0,
    {
        proof {
            use_type_invariant(self);
        }
        self.slots.len()
    }

    /// Number of items carried.
    pub fn count(&self) -> (r: usize)
        ensures
            r == occupied(self@),
    {
        let mut n: usize = 0;
        let mut i: usize = 0;
        while i < self.slots.len()
            invariant
                i <= self.slots@.len(),
                n == occupied(self.slots@.take(i as int)),
                n <= i,
            decreases self.slots@.len() - i,
        {
            proof {
                assert(self.slots@.take(i + 1).drop_last() =~= self.slots@.take(i as int));
            }
            if self.slots[i].is_some() {
                n = n + 1;
            }
            i = i + 1;
        }
        proof {
            assert(self.slots@.take(i as int) =~= self.slots@);
        }
        n
    }

    pub fn is_full(&self) -> (r: bool)
        ensures
            r == (occupied(self@) == self@.len()),
            r <==> forall|i: int| 0 <= i < self@.len() ==> self@[i] is Some,
    {
        proof {
            occupied_bounded(self@);
        }
        self.count() == self.capacity()
    }

    pub fn is_empty(&self) -> (r: bool)
        ensures
            r == (occupied(self@) == 0),
            r <==> forall|i: int| 0 <= i < self@.len() ==> self@[i] is None,
    {
        proof {
            occupied_bounded(self@);
        }
        self.count() == 0
    }

    /// Item in a slot, `None` for an empty or missing slot.
    pub fn at(&self, index: usize) -> (r: Option<ItemId>)
        ensures
            r == (if index < self@.len() { self@[index as int] } else { None }),
    {
        if index < self.slots.len() {
            self.slots[index]
        } else {
            None
        }
    }

    /// Content, slot by slot, holes included.
    pub fn slots(&self) -> (r: Vec<(usize, Option<ItemId>)>)
        ensures
            r@.len() == self@.len(),
            forall|i: int| 0 <= i < r@.len() ==> r@[i] == (i as usize, self@[i]),
    {
        let mut listing: Vec<(usize, Option<ItemId>)> = Vec::new();
        let mut i: usize = 0;
        while i < self.slots.len()
            invariant
                i <= self.slots@.len(),
                listing@.len() == i,
                forall|j: int| 0 <= j < i ==> listing@[j] == (j as usize, self.slots@[j]),
            decreases self.slots@.len() - i,
        {
            listing.push((i, self.slots[i]));
            i = i + 1;
        }
        listing
    }

    fn copy_slots(&self) -> (r: Vec<Option<ItemId>>)
        ensures
            r@ == self@,
    {
        let mut out: Vec<Option<ItemId>> = Vec::new();
        let mut i: usize = 0;
        while i < self.slots.len()
            invariant
                i <= self.slots@.len(),
                out@ == self.slots@.take(i as int),
            decreases self.slots@.len() - i,
        {
            out.push(self.slots[i]);
            i = i + 1;
            proof {
                assert(out@ =~= self.slots@.take(i as int));
            }
        }
        proof {
            assert(self.slots@.take(i as int) =~= self.slots@);
        }
        out
    }

    /// Stores an item in the first free slot; returns the new bag and the slot.
    pub fn add(&self, item: ItemId) -> (r: Result<(Self, usize), InventoryError>)
        ensures
            r is Err <==> forall|i: int| 0 <= i < self@.len() ==> self@[i] is Some,
            r matches Err(e) ==> e == InventoryError::Full,
            r matches Ok((bag, index)) ==> {
                &&& index < self@.len()
                &&& self@[index as int] is None
                &&& forall|j: int| 0 <= j < index ==> self@[j] is Some
                &&& bag@ == self@.update(index as int, Some(item))
                &&& occupied(bag@) == occupied(self@) + 1
            },
    {
        proof {
            use_type_invariant(self);
        }
        let mut i: usize = 0;
        while i < self.slots.len()
            invariant_except_break
                i <= self.slots@.len(),
                forall|j: int| 0 <= j < i ==> self.slots@[j] is Some,
            ensures
                i <= self.slots@.len(),
                forall|j: int| 0 <= j < i ==> self.slots@[j] is Some,
                i < self.slots@.len() ==> self.slots@[i as int] is None,
            decreases self.slots@.len() - i,
        {
            if self.slots[i].is_none() {
                break;
            }
            i = i + 1;
        }
        if i == self.slots.len() {
            return Err(InventoryError::Full);
        }
        let mut next = self.copy_slots();
        next.set(i, Some(item));
        proof {
            occupied_update(self@, i as int, Some(item));
        }
        Ok((Self { slots: next }, i))
    }

    /// Puts an item at a given slot, overwriting it; a slot outside the bag is
    /// ignored. Meant for restoring saved state.
    pub fn placed(&self, index: usize, item: ItemId) -> (r: Self)
        ensures
            r@ == (if index < self@.len() { self@.update(index as int, Some(item)) } else { self@ }),
    {
        proof {
            use_type_invariant(self);
        }
        let mut next = self.copy_slots();
        if index < next.len() {
            next.set(index, Some(item));
        }
        Self { slots: next }
    }

    /// Takes the item out of a slot, leaving a hole.
    pub fn remove(&self, index: usize) -> (r: Result<(Self, ItemId), InventoryError>)
        ensures
            r is Err <==> (index >= self@.len() || self@[index as int] is None),
            r matches Err(e) ==> e == InventoryError::NoSuchSlot,
            r matches Ok((bag, item)) ==> {
                &&& self@[index as int] == Some(item)
                &&& bag@ == self@.update(index as int, None)
                &&& occupied(bag@) + 1 == occupied(self@)
            },
    {
        proof {
            use_type_invariant(self);
        }
        if index >= self.slots.len() {
            return Err(InventoryError::NoSuchSlot);
        }
        let item = match self.slots[index] {
            Some(item) => item,
            None => return Err(InventoryError::NoSuchSlot),
        };
        let mut next = self.copy_slots();
        next.set(index, None);
        proof {
            occupied_update(self@, index as int, None);
        }
        Ok((Self { slots: next }, item))
    }
}

impl Clone for Inventory {
    fn clone(&self) -> (r: Self)
        ensures
            r@ == self@,
    {
        proof {
            use_type_invariant(self);
        }
        Self { slots: self.copy_slots() }
    }
}

impl Default for Inventory {
    fn default() -> (r: Self)
        ensures
            r@.len() == Self::DEFAULT_CAPACITY,
            forall|i: int| 0 <= i < Self::DEFAULT_CAPACITY ==> r@[i] is None,
    {
        Self { slots: Self::empty_slots(Self::DEFAULT_CAPACITY) }
    }
}

} // verus!
