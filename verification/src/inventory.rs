//! The inventory subsystem: fixed-size slot arrays of item stacks, the
//! stacking arithmetic of adding and removing items (64 per stack), and
//! slot manipulation for the hotbar, moving and splitting.

use vstd::prelude::*;

verus! {

/// One stack of items sitting in a slot: an item, a count, opaque
/// metadata that the inventory carries but never inspects, and the
/// number of the slot it sits in.
#[derive(Debug)]
pub struct InventoryItem {
    pub id: u32,
    pub count: u32,
    pub metadata: Option<serde_json::Value>,
    pub slot: usize,
}

/// A fixed array of item slots; the first `hotbar_size` slots form the
/// hotbar, one of which is selected.
#[derive(Debug)]
pub struct Inventory {
    pub items: Vec<Option<InventoryItem>>,
    pub size: usize,
    pub hotbar_size: usize,
    pub selected_slot: usize,
}

/// What one slot contributes to the total of item `id`.
pub open spec fn slot_count(s: Option<InventoryItem>, id: u32) -> int {
    match s {
        Some(it) => if it.id == id {
            it.count as int
        } else {
            0int
        },
        None => 0int,
    }
}

/// The total number of item `id` held across all slots.
pub open spec fn total_count(inv: Seq<Option<InventoryItem>>, id: u32) -> int
    decreases inv.len(),
{
    if inv.len() == 0 {
        0
    } else {
        total_count(inv.drop_last(), id) + slot_count(inv.last(), id)
    }
}

/// What one slot can still absorb of item `id`: 64 for an empty slot,
/// the room up to 64 for a stack of the same item, nothing otherwise.
pub open spec fn slot_room(s: Option<InventoryItem>, id: u32) -> int {
    match s {
        Some(it) => if it.id == id && it.count < 64 {
            64 - it.count as int
        } else {
            0int
        },
        None => 64int,
    }
}

/// How much of item `id` the inventory can still absorb in total.
pub open spec fn free_room(inv: Seq<Option<InventoryItem>>, id: u32) -> int
    decreases inv.len(),
{
    if inv.len() == 0 {
        0
    } else {
        free_room(inv.drop_last(), id) + slot_room(inv.last(), id)
    }
}

/// Slot invariant: the array has its declared size and every occupied
/// slot records its own slot number.
pub open spec fn inv_wf(inv: Inventory) -> bool {
    &&& inv.items@.len() == inv.size
    &&& forall|j: int|
        0 <= j < inv.items@.len() ==> match #[trigger] inv.items@[j] {
            Some(it) => it.slot == j,
            None => true,
        }
}

/// Item totals are never negative.
proof fn lemma_total_nonneg(inv: Seq<Option<InventoryItem>>, id: u32)
    ensures
        total_count(inv, id) >= 0,
    decreases inv.len(),
{
    if inv.len() > 0 {
        lemma_total_nonneg(inv.drop_last(), id);
    }
}

/// Free room is never negative.
proof fn lemma_room_nonneg(inv: Seq<Option<InventoryItem>>, id: u32)
    ensures
        free_room(inv, id) >= 0,
    decreases inv.len(),
{
    if inv.len() > 0 {
        lemma_room_nonneg(inv.drop_last(), id);
    }
}

/// Replacing one slot changes a total by the difference of that slot's
/// contribution, and the free room likewise.
proof fn lemma_slot_update(inv: Seq<Option<InventoryItem>>, i: int, s: Option<InventoryItem>, id: u32)
    requires
        0 <= i < inv.len(),
    ensures
        total_count(inv.update(i, s), id) == total_count(inv, id) - slot_count(inv[i], id)
            + slot_count(s, id),
        free_room(inv.update(i, s), id) == free_room(inv, id) - slot_room(inv[i], id) + slot_room(
            s,
            id,
        ),
    decreases inv.len(),
{
    if i == inv.len() - 1 {
        assert(inv.update(i, s).drop_last() =~= inv.drop_last());
        assert(inv.update(i, s).last() == s);
    } else {
        assert(inv.update(i, s).drop_last() =~= inv.drop_last().update(i, s));
        assert(inv.update(i, s).last() == inv.last());
        lemma_slot_update(inv.drop_last(), i, s, id);
    }
}

/// If no slot can absorb item `id`, the free room is zero.
proof fn lemma_room_zero(inv: Seq<Option<InventoryItem>>, id: u32)
    requires
        forall|j: int| 0 <= j < inv.len() ==> slot_room(#[trigger] inv[j], id) == 0,
    ensures
        free_room(inv, id) == 0,
    decreases inv.len(),
{
    if inv.len() > 0 {
        assert forall|j: int| 0 <= j < inv.drop_last().len() implies slot_room(
            #[trigger] inv.drop_last()[j],
            id,
        ) == 0 by {
            assert(inv.drop_last()[j] == inv[j]);
        }
        lemma_room_zero(inv.drop_last(), id);
        assert(inv.last() == inv[inv.len() - 1]);
    }
}

/// If no slot holds item `id`, the total is zero.
proof fn lemma_total_zero(inv: Seq<Option<InventoryItem>>, id: u32)
    requires
        forall|j: int| 0 <= j < inv.len() ==> slot_count(#[trigger] inv[j], id) == 0,
    ensures
        total_count(inv, id) == 0,
    decreases inv.len(),
{
    if inv.len() > 0 {
        assert forall|j: int| 0 <= j < inv.drop_last().len() implies slot_count(
            #[trigger] inv.drop_last()[j],
            id,
        ) == 0 by {
            assert(inv.drop_last()[j] == inv[j]);
        }
        lemma_total_zero(inv.drop_last(), id);
        assert(inv.last() == inv[inv.len() - 1]);
    }
}

/// The slot-array bookkeeper. It holds no state of its own: every
/// operation acts on an inventory handed to it.
#[derive(Debug)]
pub struct InventorySystem;

impl InventorySystem {
    /// The bookkeeper.
    pub fn new() -> InventorySystem {
        InventorySystem
    }

    /// A fresh inventory of `size` empty slots with the first
    /// `hotbar_size` forming the hotbar and the first slot selected.
    pub fn create_inventory(size: usize, hotbar_size: usize) -> (r: Inventory)
        ensures
            inv_wf(r),
            r.size == size,
            r.hotbar_size == hotbar_size,
            r.selected_slot == 0,
            forall|j: int| 0 <= j < size ==> (#[trigger] r.items@[j]) is None,
    {
        let mut items: Vec<Option<InventoryItem>> = Vec::new();
        let mut i: usize = 0;
        while i < size
            invariant
                i <= size,
                items@.len() == i,
                forall|j: int| 0 <= j < i ==> (#[trigger] items@[j]) is None,
            decreases size - i,
        {
            items.push(None);
            i += 1;
        }
        Inventory { items, size, hotbar_size, selected_slot: 0 }
    }

    /// The total number of item `id` held in the inventory. The bound
    /// only keeps the total inside the counter's range.
    pub fn get_item_count(&self, inventory: &Inventory, item_id: u32) -> (n: u32)
        requires
            total_count(inventory.items@, item_id) <= u32::MAX,
        ensures
            n as int == total_count(inventory.items@, item_id),
    {
        let ghost inv = inventory.items@;
        let len = inventory.items.len();
        let mut n: u128 = 0;
        let mut i: usize = 0;
        while i < len
            invariant
                len == inv.len(),
                inventory.items@ == inv,
                i <= len,
                n as int == total_count(inv.subrange(0, i as int), item_id),
                n <= i * 0x1_0000_0000,
            decreases len - i,
        {
            proof {
                assert(inv.subrange(0, i as int + 1).drop_last() =~= inv.subrange(0, i as int));
                assert(inv.subrange(0, i as int + 1).last() == inv[i as int]);
                assert((i + 1) * 0x1_0000_0000 == i * 0x1_0000_0000 + 0x1_0000_0000)
                    by (nonlinear_arith);
            }
            match &inventory.items[i] {
                Some(it) => {
                    if it.id == item_id {
                        n += it.count as u128;
                    }
                },
                None => {},
            }
            i += 1;
        }
        proof {
            assert(inv.subrange(0, len as int) =~= inv);
        }
        n as u32
    }

    /// Whether the inventory holds at least `count` of item `id`.
    pub fn has_item(&self, inventory: &Inventory, item_id: u32, count: u32) -> (b: bool)
        requires
            total_count(inventory.items@, item_id) <= u32::MAX,
        ensures
            b == (total_count(inventory.items@, item_id) >= count),
    {
        self.get_item_count(inventory, item_id) >= count
    }
}


/// The worth of one item, by id: a fixed valuation table.
pub open spec fn item_value_spec(id: u32) -> int {
    if 1 <= id <= 5 {
        1
    } else if 17 <= id <= 21 {
        2
    } else if id == 263 {
        1
    } else if id == 264 {
        5
    } else if id == 265 {
        10
    } else if id == 266 {
        2
    } else if id == 267 {
        50
    } else if id == 268 {
        30
    } else {
        1
    }
}

/// What one slot contributes to the inventory's worth.
pub open spec fn slot_value(s: Option<InventoryItem>) -> int {
    match s {
        Some(it) => item_value_spec(it.id) * it.count as int,
        None => 0int,
    }
}

/// The worth of the whole inventory.
pub open spec fn total_value(inv: Seq<Option<InventoryItem>>) -> int
    decreases inv.len(),
{
    if inv.len() == 0 {
        0
    } else {
        total_value(inv.drop_last()) + slot_value(inv.last())
    }
}

/// The slot `s` with its recorded slot number set to `j`.
pub open spec fn with_slot(s: Option<InventoryItem>, j: usize) -> Option<InventoryItem> {
    match s {
        Some(it) => Some(InventoryItem { slot: j, ..it }),
        None => None,
    }
}

impl InventorySystem {
    /// A copy of opaque stack metadata.
    fn clone_metadata(m: &Option<serde_json::Value>) -> (r: Option<serde_json::Value>)
        ensures
            r == *m,
    {
        match m {
            Some(v) => Some(v.clone()),
            None => None,
        }
    }

    /// Adds `count` of an item: first stacked onto existing stacks of
    /// the same item up to 64 each, then into empty slots, 64 a slot.
    /// Returns how many could not be placed: none when the inventory
    /// had room for all, and exactly the overflow beyond the free room
    /// otherwise. Slot count and selection are untouched.
    pub fn add_item(
        &self,
        inventory: &mut Inventory,
        item_id: u32,
        count: u32,
        metadata: Option<serde_json::Value>,
    ) -> (r: Result<u32, String>)
        requires
            inv_wf(*old(inventory)),
        ensures
            inv_wf(*final(inventory)),
            final(inventory).size == old(inventory).size,
            final(inventory).hotbar_size == old(inventory).hotbar_size,
            final(inventory).selected_slot == old(inventory).selected_slot,
            final(inventory).items@.len() == old(inventory).items@.len(),
            match r {
                Ok(rem) => {
                    &&& rem <= count
                    &&& total_count(final(inventory).items@, item_id) == total_count(
                        old(inventory).items@,
                        item_id,
                    ) + count - rem
                    &&& forall|other: u32|
                        other != item_id ==> total_count(final(inventory).items@, other)
                            == total_count(old(inventory).items@, other)
                    &&& (free_room(old(inventory).items@, item_id) >= count ==> rem == 0)
                    &&& (free_room(old(inventory).items@, item_id) < count ==> rem as int == count
                        - free_room(old(inventory).items@, item_id))
                },
                Err(_) => false,
            },
    {
        let ghost inv0 = inventory.items@;
        let len = inventory.items.len();
        let mut remaining: u32 = count;
        let mut i: usize = 0;
        while i < len
            invariant
                len == inventory.items@.len(),
                len == inv0.len(),
                inventory.size == old(inventory).size,
                inventory.hotbar_size == old(inventory).hotbar_size,
                inventory.selected_slot == old(inventory).selected_slot,
                inv_wf(*inventory),
                len == inventory.size,
                i <= len,
                remaining <= count,
                total_count(inventory.items@, item_id) == total_count(inv0, item_id) + (count
                    - remaining),
                forall|other: u32|
                    other != item_id ==> total_count(inventory.items@, other) == total_count(
                        inv0,
                        other,
                    ),
                free_room(inventory.items@, item_id) == free_room(inv0, item_id) - (count
                    - remaining),
                remaining > 0 ==> forall|j: int|
                    0 <= j < i && (#[trigger] inventory.items@[j]) is Some ==> slot_room(
                        inventory.items@[j],
                        item_id,
                    ) == 0,
            decreases len - i,
        {
            if remaining > 0 {
                let mut is_match: bool = false;
                let mut cur_count: u32 = 0;
                match &inventory.items[i] {
                    Some(it) => {
                        if it.id == item_id && it.count < 64 {
                            is_match = true;
                            cur_count = it.count;
                        }
                    },
                    None => {},
                }
                if is_match {
                    let space: u32 = 64 - cur_count;
                    let to_add: u32 = if remaining < space {
                        remaining
                    } else {
                        space
                    };
                    let ghost before = inventory.items@;
                    match &mut inventory.items[i] {
                        Some(it) => {
                            it.count = cur_count + to_add;
                        },
                        None => {},
                    }
                    remaining = remaining - to_add;
                    proof {
                        let s = inventory.items@[i as int];
                        assert(inventory.items@ == before.update(i as int, s));
                        assert forall|o: u32| true implies total_count(inventory.items@, o)
                            == total_count(before, o) - slot_count(before[i as int], o)
                            + slot_count(s, o) by {
                            lemma_slot_update(before, i as int, s, o);
                        }
                        lemma_slot_update(before, i as int, s, item_id);
                    }
                }
            }
            i += 1;
        }
        let mut j: usize = 0;
        while j < len
            invariant
                len == inventory.items@.len(),
                len == inv0.len(),
                inventory.size == old(inventory).size,
                inventory.hotbar_size == old(inventory).hotbar_size,
                inventory.selected_slot == old(inventory).selected_slot,
                inv_wf(*inventory),
                len == inventory.size,
                j <= len,
                remaining <= count,
                total_count(inventory.items@, item_id) == total_count(inv0, item_id) + (count
                    - remaining),
                forall|other: u32|
                    other != item_id ==> total_count(inventory.items@, other) == total_count(
                        inv0,
                        other,
                    ),
                free_room(inventory.items@, item_id) == free_room(inv0, item_id) - (count
                    - remaining),
                remaining > 0 ==> forall|k: int|
                    0 <= k < len && (#[trigger] inventory.items@[k]) is Some ==> slot_room(
                        inventory.items@[k],
                        item_id,
                    ) == 0,
                remaining > 0 ==> forall|k: int|
                    0 <= k < j ==> (#[trigger] inventory.items@[k]) is Some,
            decreases len - j,
        {
            if remaining > 0 && inventory.items[j].is_none() {
                let to_add: u32 = if remaining < 64 {
                    remaining
                } else {
                    64
                };
                let ghost before = inventory.items@;
                inventory.items[j] = Some(
                    InventoryItem {
                        id: item_id,
                        count: to_add,
                        metadata: Self::clone_metadata(&metadata),
                        slot: j,
                    },
                );
                remaining = remaining - to_add;
                proof {
                    let s = inventory.items@[j as int];
                    assert(inventory.items@ == before.update(j as int, s));
                    assert forall|o: u32| true implies total_count(inventory.items@, o)
                        == total_count(before, o) - slot_count(before[j as int], o) + slot_count(
                        s,
                        o,
                    ) by {
                        lemma_slot_update(before, j as int, s, o);
                    }
                    lemma_slot_update(before, j as int, s, item_id);
                }
            }
            j += 1;
        }
        proof {
            if remaining > 0 {
                assert forall|k: int|
                    0 <= k < inventory.items@.len() implies slot_room(
                    #[trigger] inventory.items@[k],
                    item_id,
                ) == 0 by {
                    assert(inventory.items@[k] is Some);
                }
                lemma_room_zero(inventory.items@, item_id);
            } else {
                lemma_room_nonneg(inventory.items@, item_id);
            }
        }
        Ok(remaining)
    }

    /// Removes up to `count` of an item, draining stacks front to back
    /// and clearing emptied slots. Returns how many could not be
    /// removed: none when the inventory held enough, and exactly the
    /// shortfall otherwise.
    pub fn remove_item(&self, inventory: &mut Inventory, item_id: u32, count: u32) -> (r: Result<
        u32,
        String,
    >)
        requires
            inv_wf(*old(inventory)),
        ensures
            inv_wf(*final(inventory)),
            final(inventory).size == old(inventory).size,
            final(inventory).hotbar_size == old(inventory).hotbar_size,
            final(inventory).selected_slot == old(inventory).selected_slot,
            final(inventory).items@.len() == old(inventory).items@.len(),
            match r {
                Ok(rem) => {
                    &&& rem <= count
                    &&& total_count(final(inventory).items@, item_id) == total_count(
                        old(inventory).items@,
                        item_id,
                    ) - (count - rem)
                    &&& forall|other: u32|
                        other != item_id ==> total_count(final(inventory).items@, other)
                            == total_count(old(inventory).items@, other)
                    &&& (total_count(old(inventory).items@, item_id) >= count ==> rem == 0)
                    &&& (total_count(old(inventory).items@, item_id) < count ==> rem as int
                        == count - total_count(old(inventory).items@, item_id))
                },
                Err(_) => false,
            },
    {
        let ghost inv0 = inventory.items@;
        let len = inventory.items.len();
        let mut remaining: u32 = count;
        let mut i: usize = 0;
        while i < len
            invariant
                len == inventory.items@.len(),
                len == inv0.len(),
                inventory.size == old(inventory).size,
                inventory.hotbar_size == old(inventory).hotbar_size,
                inventory.selected_slot == old(inventory).selected_slot,
                inv_wf(*inventory),
                len == inventory.size,
                i <= len,
                remaining <= count,
                total_count(inventory.items@, item_id) == total_count(inv0, item_id) - (count
                    - remaining),
                forall|other: u32|
                    other != item_id ==> total_count(inventory.items@, other) == total_count(
                        inv0,
                        other,
                    ),
                remaining > 0 ==> forall|j: int|
                    0 <= j < i ==> slot_count(#[trigger] inventory.items@[j], item_id) == 0,
            decreases len - i,
        {
            if remaining > 0 {
                let mut is_match: bool = false;
                let mut cur_count: u32 = 0;
                match &inventory.items[i] {
                    Some(it) => {
                        if it.id == item_id {
                            is_match = true;
                            cur_count = it.count;
                        }
                    },
                    None => {},
                }
                if is_match {
                    let to_remove: u32 = if remaining < cur_count {
                        remaining
                    } else {
                        cur_count
                    };
                    let newc: u32 = cur_count - to_remove;
                    let ghost before = inventory.items@;
                    if newc == 0 {
                        inventory.items[i] = None;
                    } else {
                        match &mut inventory.items[i] {
                            Some(it) => {
                                it.count = newc;
                            },
                            None => {},
                        }
                    }
                    remaining = remaining - to_remove;
                    proof {
                        let s = inventory.items@[i as int];
                        assert(inventory.items@ == before.update(i as int, s));
                        assert forall|o: u32| true implies total_count(inventory.items@, o)
                            == total_count(before, o) - slot_count(before[i as int], o)
                            + slot_count(s, o) by {
                            lemma_slot_update(before, i as int, s, o);
                        }
                        lemma_slot_update(before, i as int, s, item_id);
                    }
                }
            }
            i += 1;
        }
        proof {
            if remaining > 0 {
                lemma_total_zero(inventory.items@, item_id);
            } else {
                lemma_total_nonneg(inventory.items@, item_id);
            }
            lemma_total_nonneg(inv0, item_id);
        }
        Ok(remaining)
    }

    /// The stack in the selected hotbar slot, if the selection is a
    /// valid hotbar slot and that slot is occupied.
    pub fn get_selected_item<'a>(&self, inventory: &'a Inventory) -> (r: Option<&'a InventoryItem>)
        ensures
            match r {
                Some(it) => {
                    &&& inventory.selected_slot < inventory.hotbar_size
                    &&& inventory.selected_slot < inventory.items@.len()
                    &&& inventory.items@[inventory.selected_slot as int] == Some(*it)
                },
                None => inventory.selected_slot >= inventory.hotbar_size
                    || inventory.selected_slot >= inventory.items@.len()
                    || inventory.items@[inventory.selected_slot as int] is None,
            },
    {
        if inventory.selected_slot < inventory.hotbar_size && inventory.selected_slot
            < inventory.items.len() {
            match &inventory.items[inventory.selected_slot] {
                Some(it) => Some(it),
                None => None,
            }
        } else {
            None
        }
    }

    /// Selects a hotbar slot; a slot beyond the hotbar is rejected and
    /// changes nothing.
    pub fn set_selected_slot(&self, inventory: &mut Inventory, slot: usize) -> (r: Result<
        (),
        String,
    >)
        ensures
            match r {
                Ok(()) => slot < old(inventory).hotbar_size && *final(inventory) == Inventory {
                    selected_slot: slot,
                    ..*old(inventory)
                },
                Err(_) => slot >= old(inventory).hotbar_size && *final(inventory) == *old(
                    inventory,
                ),
            },
    {
        if slot < inventory.hotbar_size {
            inventory.selected_slot = slot;
            Ok(())
        } else {
            Err("Invalid hotbar slot".to_string())
        }
    }

    /// Swaps the contents of two slots, renumbering the moved stacks;
    /// a slot beyond the inventory is rejected and changes nothing.
    pub fn move_item(&self, inventory: &mut Inventory, from_slot: usize, to_slot: usize) -> (r:
        Result<(), String>)
        requires
            inv_wf(*old(inventory)),
        ensures
            inv_wf(*final(inventory)),
            match r {
                Ok(()) => {
                    &&& from_slot < old(inventory).size
                    &&& to_slot < old(inventory).size
                    &&& final(inventory).items@ == old(inventory).items@.update(
                        from_slot as int,
                        with_slot(old(inventory).items@[to_slot as int], from_slot),
                    ).update(to_slot as int, with_slot(old(inventory).items@[from_slot as int], to_slot))
                    &&& final(inventory).size == old(inventory).size
                    &&& final(inventory).hotbar_size == old(inventory).hotbar_size
                    &&& final(inventory).selected_slot == old(inventory).selected_slot
                },
                Err(_) => (from_slot >= old(inventory).size || to_slot >= old(inventory).size)
                    && *final(inventory) == *old(inventory),
            },
    {
        if from_slot >= inventory.size || to_slot >= inventory.size {
            return Err("Invalid slot".to_string());
        }
        let ghost pre = inventory.items@;
        let temp = inventory.items[from_slot].take();
        let other = inventory.items[to_slot].take();
        let moved_to_from = match other {
            Some(it) => Some(InventoryItem { slot: from_slot, ..it }),
            None => None,
        };
        let moved_to_to = match temp {
            Some(it) => Some(InventoryItem { slot: to_slot, ..it }),
            None => None,
        };
        inventory.items[from_slot] = moved_to_from;
        inventory.items[to_slot] = moved_to_to;
        proof {
            assert(inventory.items@ =~= pre.update(
                from_slot as int,
                with_slot(pre[to_slot as int], from_slot),
            ).update(to_slot as int, with_slot(pre[from_slot as int], to_slot)));
            assert forall|j: int|
                0 <= j < inventory.items@.len() implies match #[trigger] inventory.items@[j] {
                Some(it) => it.slot == j,
                None => true,
            } by {
                if j != from_slot as int && j != to_slot as int {
                    assert(inventory.items@[j] == pre[j]);
                }
            }
        }
        Ok(())
    }

    /// Halves a stack: the lower half stays put and the upper half
    /// moves to the first empty slot. With a single item, or an empty
    /// slot, nothing happens; when no slot is free, the split half is
    /// dropped. A slot beyond the inventory is rejected.
    pub fn split_stack(&self, inventory: &mut Inventory, slot: usize) -> (r: Result<(), String>)
        requires
            inv_wf(*old(inventory)),
        ensures
            inv_wf(*final(inventory)),
            final(inventory).size == old(inventory).size,
            final(inventory).hotbar_size == old(inventory).hotbar_size,
            final(inventory).selected_slot == old(inventory).selected_slot,
            match r {
                Ok(()) => {
                    &&& slot < old(inventory).size
                    &&& match old(inventory).items@[slot as int] {
                        None => *final(inventory) == *old(inventory),
                        Some(it) => {
                            if it.count <= 1 {
                                *final(inventory) == *old(inventory)
                            } else {
                                {
                                    let half = (it.count / 2) as u32;
                                    let kept = Some(
                                        InventoryItem { count: (it.count - half) as u32, ..it },
                                    );
                                    if (exists|e: int|
                                        0 <= e < old(inventory).items@.len() && (
                                        #[trigger] old(inventory).items@[e]) is None) {
                                        exists|e: int|
                                            {
                                                &&& 0 <= e < old(inventory).items@.len()
                                                &&& (#[trigger] old(inventory).items@[e]) is None
                                                &&& final(inventory).items@ == old(
                                                    inventory,
                                                ).items@.update(slot as int, kept).update(
                                                    e,
                                                    Some(
                                                        InventoryItem {
                                                            id: it.id,
                                                            count: half,
                                                            metadata: it.metadata,
                                                            slot: e as usize,
                                                        },
                                                    ),
                                                )
                                            }
                                    } else {
                                        final(inventory).items@ == old(inventory).items@.update(
                                            slot as int,
                                            kept,
                                        )
                                    }
                                }
                            }
                        },
                    }
                },
                Err(_) => slot >= old(inventory).size && *final(inventory) == *old(inventory),
            },
    {
        if slot >= inventory.size {
            return Err("Invalid slot".to_string());
        }
        let mut found: bool = false;
        let mut it_id: u32 = 0;
        let mut it_count: u32 = 0;
        match &inventory.items[slot] {
            Some(it) => {
                if it.count > 1 {
                    found = true;
                    it_id = it.id;
                    it_count = it.count;
                }
            },
            None => {},
        }
        if !found {
            return Ok(());
        }
        let half: u32 = it_count / 2;
        let meta = match &inventory.items[slot] {
            Some(it) => Self::clone_metadata(&it.metadata),
            None => None,
        };
        let ghost pre = inventory.items@;
        match &mut inventory.items[slot] {
            Some(it) => {
                it.count = it_count - half;
            },
            None => {},
        }
        let ghost mid = inventory.items@;
        proof {
            assert(mid =~= pre.update(
                slot as int,
                Some(InventoryItem { count: (it_count - half) as u32, ..pre[slot as int]->0 }),
            ));
        }
        let len = inventory.items.len();
        let mut e: usize = 0;
        while e < len
            invariant
                inv_wf(*old(inventory)),
                pre == old(inventory).items@,
                len == inventory.items@.len(),
                len == pre.len(),
                inventory.size == old(inventory).size,
                inventory.hotbar_size == old(inventory).hotbar_size,
                inventory.selected_slot == old(inventory).selected_slot,
                len == inventory.size,
                e <= len,
                (slot as int) < len,
                pre[slot as int] is Some,
                pre[slot as int]->0.count > 1,
                it_id == pre[slot as int]->0.id,
                it_count == pre[slot as int]->0.count,
                half == it_count / 2,
                meta == pre[slot as int]->0.metadata,
                mid == pre.update(
                    slot as int,
                    Some(InventoryItem { count: (it_count - half) as u32, ..pre[slot as int]->0 }),
                ),
                inventory.items@ == mid,
                forall|k: int| 0 <= k < e ==> (#[trigger] mid[k]) is Some,
            decreases len - e,
        {
            if inventory.items[e].is_none() {
                proof {
                    assert(mid[e as int] is None);
                    assert(e as int != slot as int);
                    assert(pre[e as int] == mid[e as int]);
                }
                inventory.items[e] = Some(
                    InventoryItem { id: it_id, count: half, metadata: meta, slot: e },
                );
                proof {
                    assert(inventory.items@ == mid.update(
                        e as int,
                        Some(InventoryItem { id: it_id, count: half, metadata: meta, slot: e }),
                    ));
                    assert(inventory.items@ =~= pre.update(
                        slot as int,
                        Some(
                            InventoryItem {
                                count: (it_count - half) as u32,
                                ..pre[slot as int]->0
                            },
                        ),
                    ).update(
                        e as int,
                        Some(
                            InventoryItem {
                                id: pre[slot as int]->0.id,
                                count: half,
                                metadata: pre[slot as int]->0.metadata,
                                slot: e,
                            },
                        ),
                    ));
                    assert forall|j: int|
                        0 <= j < inventory.items@.len() implies match #[trigger] inventory.items@[j] {
                        Some(it) => it.slot == j,
                        None => true,
                    } by {
                        if j != slot as int && j != e as int {
                            assert(inventory.items@[j] == pre[j]);
                        } else if j == slot as int && j != e as int {
                            assert(inventory.items@[j] == mid[slot as int]);
                        }
                    }
                }
                return Ok(());
            }
            e += 1;
        }
        proof {
            assert forall|k: int| 0 <= k < pre.len() implies !((#[trigger] pre[k]) is None) by {
                if k != slot as int {
                    assert(pre[k] == mid[k]);
                }
            }
            assert forall|j: int|
                0 <= j < inventory.items@.len() implies match #[trigger] inventory.items@[j] {
                Some(it) => it.slot == j,
                None => true,
            } by {
                if j != slot as int {
                    assert(inventory.items@[j] == pre[j]);
                }
            }
        }
        Ok(())
    }

    /// The worth of one item, by the fixed valuation table.
    pub fn get_item_value(&self, item_id: u32) -> (v: u32)
        ensures
            v as int == item_value_spec(item_id),
    {
        if item_id >= 1 && item_id <= 5 {
            1
        } else if item_id >= 17 && item_id <= 21 {
            2
        } else if item_id == 263 {
            1
        } else if item_id == 264 {
            5
        } else if item_id == 265 {
            10
        } else if item_id == 266 {
            2
        } else if item_id == 267 {
            50
        } else if item_id == 268 {
            30
        } else {
            1
        }
    }

    /// The worth of the whole inventory, by the fixed valuation table.
    /// The bound only keeps the total inside the counter's range.
    pub fn get_inventory_value(&self, inventory: &Inventory) -> (v: u32)
        requires
            total_value(inventory.items@) <= u32::MAX,
        ensures
            v as int == total_value(inventory.items@),
    {
        let ghost inv = inventory.items@;
        let len = inventory.items.len();
        let mut n: u128 = 0;
        let mut i: usize = 0;
        while i < len
            invariant
                len == inv.len(),
                inventory.items@ == inv,
                i <= len,
                n as int == total_value(inv.subrange(0, i as int)),
                n <= i * 0x32_0000_0000,
            decreases len - i,
        {
            proof {
                assert(inv.subrange(0, i as int + 1).drop_last() =~= inv.subrange(0, i as int));
                assert(inv.subrange(0, i as int + 1).last() == inv[i as int]);
                assert((i + 1) * 0x32_0000_0000 == i * 0x32_0000_0000 + 0x32_0000_0000)
                    by (nonlinear_arith);
            }
            match &inventory.items[i] {
                Some(it) => {
                    let v = self.get_item_value(it.id);
                    proof {
                        assert(v as u128 * it.count as u128 == item_value_spec(it.id) * it.count)
                            by (nonlinear_arith)
                            requires v as int == item_value_spec(it.id) && 1 <= v <= 50;
                        assert(v as u128 * it.count as u128 <= 0x32_0000_0000)
                            by (nonlinear_arith)
                            requires 1 <= v <= 50 && it.count <= 0xFFFF_FFFF;
                    }
                    n += (v as u128) * (it.count as u128);
                },
                None => {},
            }
            i += 1;
        }
        proof {
            assert(inv.subrange(0, len as int) =~= inv);
        }
        n as u32
    }

    /// Empties every slot.
    pub fn clear_inventory(&self, inventory: &mut Inventory)
        ensures
            final(inventory).size == old(inventory).size,
            final(inventory).hotbar_size == old(inventory).hotbar_size,
            final(inventory).selected_slot == old(inventory).selected_slot,
            final(inventory).items@.len() == old(inventory).items@.len(),
            forall|j: int|
                0 <= j < final(inventory).items@.len() ==> (#[trigger] final(inventory).items@[j])
                    is None,
            inv_wf(*old(inventory)) ==> inv_wf(*final(inventory)),
    {
        let len = inventory.items.len();
        let mut i: usize = 0;
        while i < len
            invariant
                len == inventory.items@.len(),
                len == old(inventory).items@.len(),
                inventory.size == old(inventory).size,
                inventory.hotbar_size == old(inventory).hotbar_size,
                inventory.selected_slot == old(inventory).selected_slot,
                i <= len,
                forall|j: int| 0 <= j < i ==> (#[trigger] inventory.items@[j]) is None,
            decreases len - i,
        {
            inventory.items[i] = None;
            i += 1;
        }
    }
}

} // verus!
