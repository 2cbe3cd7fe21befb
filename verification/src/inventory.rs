//! The inventory store: stacks of items bound to the slots of their owners.

use crate::catalog::{catalog_wf, definition_of, Catalog, ItemDefinitionView};
use crate::error::Error;
use crate::identity::Identity;
use vstd::prelude::*;
use vstd::string::StringExecFns;

verus! {

/// The number of slots of one owner's inventory.
pub const SLOT_COUNT: u32 = 100;

/// One stack of an item in a slot of its owner's inventory.
#[derive(Debug)]
pub struct InventoryItem {
    pub entry_id: u64,
    pub owner_identity: Identity,
    pub item_id: String,
    pub quantity: u32,
    pub slot_index: u32,
}

/// An inventory entry as a mathematical value.
pub struct InventoryItemView {
    pub entry_id: u64,
    pub owner_identity: Identity,
    pub item_id: Seq<char>,
    pub quantity: u32,
    pub slot_index: u32,
}

impl View for InventoryItem {
    type V = InventoryItemView;

    open spec fn view(&self) -> InventoryItemView {
        InventoryItemView {
            entry_id: self.entry_id,
            owner_identity: self.owner_identity,
            item_id: self.item_id@,
            quantity: self.quantity,
            slot_index: self.slot_index,
        }
    }
}

impl Clone for InventoryItem {
    fn clone(&self) -> (copy: InventoryItem)
        ensures
            copy == *self,
    {
        InventoryItem {
            entry_id: self.entry_id,
            owner_identity: self.owner_identity,
            item_id: self.item_id.clone(),
            quantity: self.quantity,
            slot_index: self.slot_index,
        }
    }
}

impl InventoryItemView {
    /// The entry with another quantity.
    pub open spec fn with_quantity(self, quantity: u32) -> InventoryItemView {
        InventoryItemView { quantity, ..self }
    }

    /// The entry in another slot.
    pub open spec fn in_slot(self, slot_index: u32) -> InventoryItemView {
        InventoryItemView { slot_index, ..self }
    }
}

/// The inventory as a mathematical value: the entries in the order of their
/// creation, and the id the next new entry gets.
pub struct InventoryView {
    pub entries: Seq<InventoryItemView>,
    pub next_entry_id: u64,
}

/// The views of a vector of entries, in order.
pub open spec fn entries_view(rows: Seq<InventoryItem>) -> Seq<InventoryItemView> {
    rows.map_values(|row: InventoryItem| row@)
}

/// The entry is a stack of `item_id` that belongs to `owner`.
pub open spec fn holds(entry: InventoryItemView, owner: Identity, item_id: Seq<char>) -> bool {
    entry.owner_identity == owner && entry.item_id == item_id
}

/// `owner` has an entry of `item_id`.
pub open spec fn has_stack(
    entries: Seq<InventoryItemView>,
    owner: Identity,
    item_id: Seq<char>,
) -> bool {
    exists|i: int| 0 <= i < entries.len() && holds(#[trigger] entries[i], owner, item_id)
}

/// The place of an entry of `item_id` that belongs to `owner`.
pub open spec fn stack_index(
    entries: Seq<InventoryItemView>,
    owner: Identity,
    item_id: Seq<char>,
) -> int {
    choose|i: int| 0 <= i < entries.len() && holds(#[trigger] entries[i], owner, item_id)
}

/// The entry belongs to `owner` and sits in `slot`.
pub open spec fn occupies(entry: InventoryItemView, owner: Identity, slot: u32) -> bool {
    entry.owner_identity == owner && entry.slot_index == slot
}

/// One of `owner`'s entries sits in `slot`.
pub open spec fn slot_taken(entries: Seq<InventoryItemView>, owner: Identity, slot: u32) -> bool {
    exists|i: int| 0 <= i < entries.len() && occupies(#[trigger] entries[i], owner, slot)
}

/// The place of the entry of `owner` that sits in `slot`.
pub open spec fn occupant_index(
    entries: Seq<InventoryItemView>,
    owner: Identity,
    slot: u32,
) -> int {
    choose|i: int| 0 <= i < entries.len() && occupies(#[trigger] entries[i], owner, slot)
}

/// `slot` is free for `owner`, and every slot below it is taken.
pub open spec fn lowest_free(entries: Seq<InventoryItemView>, owner: Identity, slot: u32) -> bool {
    &&& slot < SLOT_COUNT
    &&& !slot_taken(entries, owner, slot)
    &&& forall|below: u32| below < slot ==> slot_taken(entries, owner, below)
}

/// `owner` has a slot left.
pub open spec fn has_free_slot(entries: Seq<InventoryItemView>, owner: Identity) -> bool {
    exists|slot: u32| slot < SLOT_COUNT && !slot_taken(entries, owner, slot)
}

/// The lowest slot that is free for `owner`.
pub open spec fn first_free_slot(entries: Seq<InventoryItemView>, owner: Identity) -> u32 {
    choose|slot: u32| lowest_free(entries, owner, slot)
}

/// Some entry has the id `entry_id`.
pub open spec fn has_entry(entries: Seq<InventoryItemView>, entry_id: u64) -> bool {
    exists|i: int| 0 <= i < entries.len() && (#[trigger] entries[i]).entry_id == entry_id
}

/// The place of the entry with the id `entry_id`.
pub open spec fn entry_index(entries: Seq<InventoryItemView>, entry_id: u64) -> int {
    choose|i: int| 0 <= i < entries.len() && (#[trigger] entries[i]).entry_id == entry_id
}

/// The entry names an item of the catalog, holds between one unit and the
/// item's stack limit, and sits in a slot of the inventory.
pub open spec fn entry_wf(entry: InventoryItemView, items: Seq<ItemDefinitionView>) -> bool {
    &&& entry.slot_index < SLOT_COUNT
    &&& definition_of(items, entry.item_id) is Some
    &&& 1 <= entry.quantity <= definition_of(items, entry.item_id)->0.max_stack
}

/// No two entries of one owner share a slot.
pub open spec fn slots_distinct(entries: Seq<InventoryItemView>) -> bool {
    forall|i: int, j: int|
        0 <= i < j < entries.len() && (#[trigger] entries[i]).owner_identity == (
        #[trigger] entries[j]).owner_identity ==> entries[i].slot_index != entries[j].slot_index
}

/// Two entries of one owner hold the same item only where the item does not
/// stack.
pub open spec fn stacks_merged(
    entries: Seq<InventoryItemView>,
    items: Seq<ItemDefinitionView>,
) -> bool {
    forall|i: int, j: int|
        0 <= i < j < entries.len() && (#[trigger] entries[i]).owner_identity == (
        #[trigger] entries[j]).owner_identity && entries[i].item_id == entries[j].item_id
            ==> definition_of(items, entries[i].item_id) is Some && definition_of(
            items,
            entries[i].item_id,
        )->0.max_stack == 1
}

/// The inventory's invariant with respect to the catalog `items`.
pub open spec fn inventory_wf(inventory: InventoryView, items: Seq<ItemDefinitionView>) -> bool {
    &&& forall|i: int|
        0 <= i < inventory.entries.len() ==> entry_wf(#[trigger] inventory.entries[i], items)
    &&& forall|i: int|
        0 <= i < inventory.entries.len() ==> (#[trigger] inventory.entries[i]).entry_id
            < inventory.next_entry_id
    &&& forall|i: int, j: int|
        0 <= i < j < inventory.entries.len() ==> (#[trigger] inventory.entries[i]).entry_id != (
        #[trigger] inventory.entries[j]).entry_id
    &&& slots_distinct(inventory.entries)
    &&& stacks_merged(inventory.entries, items)
}

/// What a stack holds after `added` units came to `held`, under the limit
/// `max_stack`: units beyond the limit are dropped.
pub open spec fn merged_quantity(held: u32, added: u32, max_stack: u32) -> u32 {
    if held + added > max_stack {
        max_stack
    } else {
        (held + added) as u32
    }
}

/// The entry to which added units of `item_id` go: the item stacks and
/// `owner` has a stack of it.
pub open spec fn merges(
    inventory: InventoryView,
    items: Seq<ItemDefinitionView>,
    owner: Identity,
    item_id: Seq<char>,
) -> bool {
    &&& definition_of(items, item_id) is Some
    &&& definition_of(items, item_id)->0.max_stack > 1
    &&& has_stack(inventory.entries, owner, item_id)
}

/// What `add_stack` returns: the id of the entry that took the units, or the
/// reason why nothing was added.
pub open spec fn add_stack_result(
    inventory: InventoryView,
    items: Seq<ItemDefinitionView>,
    owner: Identity,
    item_id: Seq<char>,
    quantity: u32,
) -> Result<u64, Error> {
    if definition_of(items, item_id) is None {
        Err(Error::UnknownItem)
    } else if quantity == 0 {
        Err(Error::InvalidQuantity)
    } else if merges(inventory, items, owner, item_id) {
        Ok(inventory.entries[stack_index(inventory.entries, owner, item_id)].entry_id)
    } else if !has_free_slot(inventory.entries, owner) {
        Err(Error::InventoryFull)
    } else if inventory.next_entry_id == u64::MAX {
        Err(Error::LimitReached)
    } else {
        Ok(inventory.next_entry_id)
    }
}

/// The inventory after `add_stack`: the owner's stack grown up to the item's
/// limit, or a new entry in the owner's lowest free slot; unchanged where
/// `add_stack` fails.
pub open spec fn add_stack_state(
    inventory: InventoryView,
    items: Seq<ItemDefinitionView>,
    owner: Identity,
    item_id: Seq<char>,
    quantity: u32,
) -> InventoryView {
    if add_stack_result(inventory, items, owner, item_id, quantity) is Err {
        inventory
    } else if merges(inventory, items, owner, item_id) {
        let k = stack_index(inventory.entries, owner, item_id);
        let limit = definition_of(items, item_id)->0.max_stack;
        InventoryView {
            entries: inventory.entries.update(
                k,
                inventory.entries[k].with_quantity(
                    merged_quantity(inventory.entries[k].quantity, quantity, limit),
                ),
            ),
            ..inventory
        }
    } else {
        let limit = definition_of(items, item_id)->0.max_stack;
        InventoryView {
            entries: inventory.entries.push(
                InventoryItemView {
                    entry_id: inventory.next_entry_id,
                    owner_identity: owner,
                    item_id,
                    quantity: merged_quantity(0, quantity, limit),
                    slot_index: first_free_slot(inventory.entries, owner),
                },
            ),
            next_entry_id: (inventory.next_entry_id + 1) as u64,
        }
    }
}

/// What `remove` returns.
pub open spec fn remove_result(
    inventory: InventoryView,
    entry_id: u64,
    quantity: u32,
    owner: Identity,
) -> Result<(), Error> {
    if !has_entry(inventory.entries, entry_id) {
        Err(Error::UnknownEntry)
    } else {
        let entry = inventory.entries[entry_index(inventory.entries, entry_id)];
        if entry.owner_identity != owner {
            Err(Error::NotOwner)
        } else if quantity > entry.quantity {
            Err(Error::InsufficientQuantity)
        } else {
            Ok(())
        }
    }
}

/// The inventory after `remove`: the entry is gone where all it held was
/// taken, and holds that much less otherwise; unchanged where `remove` fails.
pub open spec fn remove_state(
    inventory: InventoryView,
    entry_id: u64,
    quantity: u32,
    owner: Identity,
) -> InventoryView {
    if remove_result(inventory, entry_id, quantity, owner) is Err {
        inventory
    } else {
        let k = entry_index(inventory.entries, entry_id);
        let entry = inventory.entries[k];
        if quantity == entry.quantity {
            InventoryView { entries: inventory.entries.remove(k), ..inventory }
        } else {
            InventoryView {
                entries: inventory.entries.update(
                    k,
                    entry.with_quantity((entry.quantity - quantity) as u32),
                ),
                ..inventory
            }
        }
    }
}

/// What `move_slot` returns.
pub open spec fn move_slot_result(
    inventory: InventoryView,
    entry_id: u64,
    new_slot: u32,
    owner: Identity,
) -> Result<(), Error> {
    if !has_entry(inventory.entries, entry_id) {
        Err(Error::UnknownEntry)
    } else if inventory.entries[entry_index(inventory.entries, entry_id)].owner_identity != owner {
        Err(Error::NotOwner)
    } else if new_slot >= SLOT_COUNT {
        Err(Error::InvalidSlot)
    } else {
        Ok(())
    }
}

/// The inventory after `move_slot`: the entry sits in `new_slot`, and the
/// entry of the same owner that sat there before, if any, sits where the
/// moved entry was; unchanged where `move_slot` fails.
pub open spec fn move_slot_state(
    inventory: InventoryView,
    entry_id: u64,
    new_slot: u32,
    owner: Identity,
) -> InventoryView {
    if move_slot_result(inventory, entry_id, new_slot, owner) is Err {
        inventory
    } else {
        let k = entry_index(inventory.entries, entry_id);
        let entry = inventory.entries[k];
        if slot_taken(inventory.entries, owner, new_slot) {
            let other = occupant_index(inventory.entries, owner, new_slot);
            InventoryView {
                entries: inventory.entries.update(
                    other,
                    inventory.entries[other].in_slot(entry.slot_index),
                ).update(k, entry.in_slot(new_slot)),
                ..inventory
            }
        } else {
            InventoryView { entries: inventory.entries.update(k, entry.in_slot(new_slot)), ..inventory }
        }
    }
}

/// In a well-formed inventory an owner has at most one stack of an item that
/// stacks, so the stack found for the pair is any entry that holds it.
pub proof fn lemma_stack_unique(
    inventory: InventoryView,
    items: Seq<ItemDefinitionView>,
    owner: Identity,
    item_id: Seq<char>,
    k: int,
)
    requires
        inventory_wf(inventory, items),
        0 <= k < inventory.entries.len(),
        holds(inventory.entries[k], owner, item_id),
        definition_of(items, item_id) is Some,
        definition_of(items, item_id)->0.max_stack > 1,
    ensures
        has_stack(inventory.entries, owner, item_id),
        stack_index(inventory.entries, owner, item_id) == k,
{
    let entries = inventory.entries;
    assert(has_stack(entries, owner, item_id));
    let c = stack_index(entries, owner, item_id);
    assert(0 <= c < entries.len() && holds(entries[c], owner, item_id));
    if c < k {
        assert(entries[c].owner_identity == entries[k].owner_identity);
        assert(entries[c].item_id == entries[k].item_id);
    } else if k < c {
        assert(entries[k].owner_identity == entries[c].owner_identity);
        assert(entries[k].item_id == entries[c].item_id);
    }
}

/// In a well-formed inventory the entry found under an id is the only one
/// with that id.
pub proof fn lemma_entry_unique(
    inventory: InventoryView,
    items: Seq<ItemDefinitionView>,
    k: int,
)
    requires
        inventory_wf(inventory, items),
        0 <= k < inventory.entries.len(),
    ensures
        has_entry(inventory.entries, inventory.entries[k].entry_id),
        entry_index(inventory.entries, inventory.entries[k].entry_id) == k,
{
    let entries = inventory.entries;
    let id = entries[k].entry_id;
    assert(has_entry(entries, id));
    let c = entry_index(entries, id);
    assert(0 <= c < entries.len() && entries[c].entry_id == id);
    if c < k {
        assert(entries[c].entry_id != entries[k].entry_id);
    } else if k < c {
        assert(entries[k].entry_id != entries[c].entry_id);
    }
}

/// In a well-formed inventory the entry found in a slot of an owner is the
/// only one of that owner there.
pub proof fn lemma_occupant_unique(
    inventory: InventoryView,
    items: Seq<ItemDefinitionView>,
    owner: Identity,
    slot: u32,
    k: int,
)
    requires
        inventory_wf(inventory, items),
        0 <= k < inventory.entries.len(),
        occupies(inventory.entries[k], owner, slot),
    ensures
        slot_taken(inventory.entries, owner, slot),
        occupant_index(inventory.entries, owner, slot) == k,
{
    let entries = inventory.entries;
    assert(slot_taken(entries, owner, slot));
    let c = occupant_index(entries, owner, slot);
    assert(0 <= c < entries.len() && occupies(entries[c], owner, slot));
    if c < k {
        assert(entries[c].owner_identity == entries[k].owner_identity);
    } else if k < c {
        assert(entries[k].owner_identity == entries[c].owner_identity);
    }
}

/// There is one lowest free slot at most.
pub proof fn lemma_lowest_free_unique(entries: Seq<InventoryItemView>, owner: Identity, slot: u32)
    requires
        lowest_free(entries, owner, slot),
    ensures
        has_free_slot(entries, owner),
        first_free_slot(entries, owner) == slot,
{
    let c = first_free_slot(entries, owner);
    assert(lowest_free(entries, owner, c));
    if c < slot {
        assert(slot_taken(entries, owner, c));
    } else if slot < c {
        assert(slot_taken(entries, owner, slot));
    }
}

/// Where an owner has a free slot, the lowest one is free and lies below
/// every other free slot.
pub proof fn lemma_first_free_slot(entries: Seq<InventoryItemView>, owner: Identity)
    requires
        has_free_slot(entries, owner),
    ensures
        lowest_free(entries, owner, first_free_slot(entries, owner)),
{
    let free = choose|slot: u32| slot < SLOT_COUNT && !slot_taken(entries, owner, slot);
    lemma_lowest_free_below(entries, owner, free);
}

/// Below or at a free slot lies a lowest free slot.
proof fn lemma_lowest_free_below(entries: Seq<InventoryItemView>, owner: Identity, free: u32)
    requires
        free < SLOT_COUNT,
        !slot_taken(entries, owner, free),
    ensures
        exists|slot: u32| lowest_free(entries, owner, slot),
    decreases free,
{
    if forall|below: u32| below < free ==> slot_taken(entries, owner, below) {
        assert(lowest_free(entries, owner, free));
    } else {
        let below = choose|below: u32| below < free && !slot_taken(entries, owner, below);
        lemma_lowest_free_below(entries, owner, below);
    }
}

/// `add_stack` keeps the inventory well-formed.
pub proof fn lemma_add_stack_wf(
    inventory: InventoryView,
    items: Seq<ItemDefinitionView>,
    owner: Identity,
    item_id: Seq<char>,
    quantity: u32,
)
    requires
        catalog_wf(items),
        inventory_wf(inventory, items),
    ensures
        inventory_wf(add_stack_state(inventory, items, owner, item_id, quantity), items),
{
    let after = add_stack_state(inventory, items, owner, item_id, quantity);
    let entries = inventory.entries;
    if add_stack_result(inventory, items, owner, item_id, quantity) is Err {
    } else if merges(inventory, items, owner, item_id) {
        let k = stack_index(entries, owner, item_id);
        assert(0 <= k < entries.len() && holds(entries[k], owner, item_id));
        assert(entry_wf(entries[k], items));
        assert forall|i: int| 0 <= i < after.entries.len() implies entry_wf(
            #[trigger] after.entries[i],
            items,
        ) by {
            assert(entry_wf(entries[i], items));
        }
        assert forall|i: int, j: int|
            0 <= i < j < after.entries.len() && (#[trigger] after.entries[i]).owner_identity == (
            #[trigger] after.entries[j]).owner_identity implies after.entries[i].slot_index
            != after.entries[j].slot_index by {
            assert(entries[i].owner_identity == entries[j].owner_identity);
        }
        assert forall|i: int, j: int|
            0 <= i < j < after.entries.len() && (#[trigger] after.entries[i]).owner_identity == (
            #[trigger] after.entries[j]).owner_identity && after.entries[i].item_id
                == after.entries[j].item_id implies definition_of(items, after.entries[i].item_id)
            is Some && definition_of(items, after.entries[i].item_id)->0.max_stack == 1 by {
            assert(entries[i].owner_identity == entries[j].owner_identity);
            assert(entries[i].item_id == entries[j].item_id);
        }
        assert forall|i: int| 0 <= i < after.entries.len() implies (
        #[trigger] after.entries[i]).entry_id < after.next_entry_id by {
            assert(entries[i].entry_id < inventory.next_entry_id);
        }
        assert forall|i: int, j: int| 0 <= i < j < after.entries.len() implies (
        #[trigger] after.entries[i]).entry_id != (#[trigger] after.entries[j]).entry_id by {
            assert(entries[i].entry_id != entries[j].entry_id);
        }
    } else {
        lemma_first_free_slot(entries, owner);
        let slot = first_free_slot(entries, owner);
        let last = entries.len() as int;
        assert forall|i: int| 0 <= i < after.entries.len() implies entry_wf(
            #[trigger] after.entries[i],
            items,
        ) by {
            if i < last {
                assert(entry_wf(entries[i], items));
            }
        }
        assert forall|i: int| 0 <= i < after.entries.len() implies (
        #[trigger] after.entries[i]).entry_id < after.next_entry_id by {
            if i < last {
                assert(entries[i].entry_id < inventory.next_entry_id);
            }
        }
        assert forall|i: int, j: int| 0 <= i < j < after.entries.len() implies (
        #[trigger] after.entries[i]).entry_id != (#[trigger] after.entries[j]).entry_id by {
            assert(entries[i].entry_id < inventory.next_entry_id);
            if j < last {
                assert(entries[i].entry_id != entries[j].entry_id);
            }
        }
        assert forall|i: int, j: int|
            0 <= i < j < after.entries.len() && (#[trigger] after.entries[i]).owner_identity == (
            #[trigger] after.entries[j]).owner_identity implies after.entries[i].slot_index
            != after.entries[j].slot_index by {
            if j < last {
                assert(entries[i].owner_identity == entries[j].owner_identity);
            } else {
                if entries[i].slot_index == slot {
                    assert(occupies(entries[i], owner, slot));
                    assert(slot_taken(entries, owner, slot));
                }
            }
        }
        assert forall|i: int, j: int|
            0 <= i < j < after.entries.len() && (#[trigger] after.entries[i]).owner_identity == (
            #[trigger] after.entries[j]).owner_identity && after.entries[i].item_id
                == after.entries[j].item_id implies definition_of(items, after.entries[i].item_id)
            is Some && definition_of(items, after.entries[i].item_id)->0.max_stack == 1 by {
            if j < last {
                assert(entries[i].owner_identity == entries[j].owner_identity);
                assert(entries[i].item_id == entries[j].item_id);
            } else {
                assert(holds(entries[i], owner, item_id));
                assert(has_stack(entries, owner, item_id));
            }
        }
    }
}

/// `remove` keeps the inventory well-formed.
pub proof fn lemma_remove_wf(
    inventory: InventoryView,
    items: Seq<ItemDefinitionView>,
    entry_id: u64,
    quantity: u32,
    owner: Identity,
)
    requires
        inventory_wf(inventory, items),
    ensures
        inventory_wf(remove_state(inventory, entry_id, quantity, owner), items),
{
    let after = remove_state(inventory, entry_id, quantity, owner);
    let entries = inventory.entries;
    if remove_result(inventory, entry_id, quantity, owner) is Ok {
        let k = entry_index(entries, entry_id);
        assert(0 <= k < entries.len() && entries[k].entry_id == entry_id);
        assert(entry_wf(entries[k], items));
        if quantity == entries[k].quantity {
            assert forall|i: int| 0 <= i < after.entries.len() implies entry_wf(
                #[trigger] after.entries[i],
                items,
            ) && after.entries[i].entry_id < after.next_entry_id by {
                let from = if i < k { i } else { i + 1 };
                assert(after.entries[i] == entries[from]);
                assert(entry_wf(entries[from], items));
            }
            assert forall|i: int, j: int| 0 <= i < j < after.entries.len() implies ({
                &&& (#[trigger] after.entries[i]).entry_id != (#[trigger] after.entries[j]).entry_id
                &&& after.entries[i].owner_identity == after.entries[j].owner_identity
                    ==> after.entries[i].slot_index != after.entries[j].slot_index
                &&& after.entries[i].owner_identity == after.entries[j].owner_identity
                    && after.entries[i].item_id == after.entries[j].item_id ==> definition_of(
                    items,
                    after.entries[i].item_id,
                ) is Some && definition_of(items, after.entries[i].item_id)->0.max_stack == 1
            }) by {
                let from_i = if i < k { i } else { i + 1 };
                let from_j = if j < k { j } else { j + 1 };
                assert(after.entries[i] == entries[from_i]);
                assert(after.entries[j] == entries[from_j]);
                assert(entries[from_i].entry_id != entries[from_j].entry_id);
            }
        } else {
            assert forall|i: int| 0 <= i < after.entries.len() implies entry_wf(
                #[trigger] after.entries[i],
                items,
            ) && after.entries[i].entry_id < after.next_entry_id by {
                assert(entry_wf(entries[i], items));
            }
            assert forall|i: int, j: int| 0 <= i < j < after.entries.len() implies ({
                &&& (#[trigger] after.entries[i]).entry_id != (#[trigger] after.entries[j]).entry_id
                &&& after.entries[i].owner_identity == after.entries[j].owner_identity
                    ==> after.entries[i].slot_index != after.entries[j].slot_index
                &&& after.entries[i].owner_identity == after.entries[j].owner_identity
                    && after.entries[i].item_id == after.entries[j].item_id ==> definition_of(
                    items,
                    after.entries[i].item_id,
                ) is Some && definition_of(items, after.entries[i].item_id)->0.max_stack == 1
            }) by {
                assert(entries[i].entry_id != entries[j].entry_id);
            }
        }
    }
}

/// `move_slot` keeps the inventory well-formed.
pub proof fn lemma_move_slot_wf(
    inventory: InventoryView,
    items: Seq<ItemDefinitionView>,
    entry_id: u64,
    new_slot: u32,
    owner: Identity,
)
    requires
        inventory_wf(inventory, items),
    ensures
        inventory_wf(move_slot_state(inventory, entry_id, new_slot, owner), items),
{
    let after = move_slot_state(inventory, entry_id, new_slot, owner);
    let entries = inventory.entries;
    if move_slot_result(inventory, entry_id, new_slot, owner) is Ok {
        let k = entry_index(entries, entry_id);
        assert(0 <= k < entries.len() && entries[k].entry_id == entry_id);
        assert(entry_wf(entries[k], items));
        if slot_taken(entries, owner, new_slot) {
            let other = occupant_index(entries, owner, new_slot);
            assert(0 <= other < entries.len() && occupies(entries[other], owner, new_slot));
            assert(entry_wf(entries[other], items));
        }
        assert forall|i: int| 0 <= i < after.entries.len() implies entry_wf(
            #[trigger] after.entries[i],
            items,
        ) && after.entries[i].entry_id < after.next_entry_id by {
            assert(entry_wf(entries[i], items));
        }
        assert forall|i: int, j: int| 0 <= i < j < after.entries.len() implies ({
            &&& (#[trigger] after.entries[i]).entry_id != (#[trigger] after.entries[j]).entry_id
            &&& after.entries[i].owner_identity == after.entries[j].owner_identity
                ==> after.entries[i].slot_index != after.entries[j].slot_index
            &&& after.entries[i].owner_identity == after.entries[j].owner_identity
                && after.entries[i].item_id == after.entries[j].item_id ==> definition_of(
                items,
                after.entries[i].item_id,
            ) is Some && definition_of(items, after.entries[i].item_id)->0.max_stack == 1
        }) by {
            assert(entries[i].entry_id != entries[j].entry_id);
            if after.entries[i].owner_identity == after.entries[j].owner_identity {
                assert(entries[i].owner_identity == entries[j].owner_identity);
                assert(entries[i].slot_index != entries[j].slot_index);
                if slot_taken(entries, owner, new_slot) {
                    let other = occupant_index(entries, owner, new_slot);
                    lemma_occupant_unique(inventory, items, owner, new_slot, other);
                    if entries[i].owner_identity == owner {
                        if entries[i].slot_index == new_slot {
                            lemma_occupant_unique(inventory, items, owner, new_slot, i);
                        }
                        if entries[j].slot_index == new_slot {
                            lemma_occupant_unique(inventory, items, owner, new_slot, j);
                        }
                    }
                } else {
                    if entries[i].owner_identity == owner {
                        if entries[i].slot_index == new_slot {
                            assert(occupies(entries[i], owner, new_slot));
                        }
                        if entries[j].slot_index == new_slot {
                            assert(occupies(entries[j], owner, new_slot));
                        }
                    }
                }
            }
        }
    }
}

/// What `insert` returns: why an entry that comes with its id cannot join
/// the inventory, if it cannot.
pub open spec fn insert_result(
    inventory: InventoryView,
    items: Seq<ItemDefinitionView>,
    entry: InventoryItemView,
) -> Result<(), Error> {
    if has_entry(inventory.entries, entry.entry_id) {
        Err(Error::AlreadyExists)
    } else if entry.entry_id == u64::MAX {
        Err(Error::LimitReached)
    } else if definition_of(items, entry.item_id) is None {
        Err(Error::UnknownItem)
    } else if entry.quantity < 1 || entry.quantity > definition_of(
        items,
        entry.item_id,
    )->0.max_stack {
        Err(Error::InvalidQuantity)
    } else if entry.slot_index >= SLOT_COUNT || slot_taken(
        inventory.entries,
        entry.owner_identity,
        entry.slot_index,
    ) {
        Err(Error::InvalidSlot)
    } else if definition_of(items, entry.item_id)->0.max_stack > 1 && has_stack(
        inventory.entries,
        entry.owner_identity,
        entry.item_id,
    ) {
        Err(Error::AlreadyExists)
    } else {
        Ok(())
    }
}

/// The inventory after `insert`: the entry is the last one, and the next new
/// entry gets an id above its id; unchanged where `insert` fails.
pub open spec fn insert_state(
    inventory: InventoryView,
    items: Seq<ItemDefinitionView>,
    entry: InventoryItemView,
) -> InventoryView {
    if insert_result(inventory, items, entry) is Err {
        inventory
    } else {
        InventoryView {
            entries: inventory.entries.push(entry),
            next_entry_id: if entry.entry_id >= inventory.next_entry_id {
                (entry.entry_id + 1) as u64
            } else {
                inventory.next_entry_id
            },
        }
    }
}

/// `insert` keeps the inventory well-formed.
pub proof fn lemma_insert_wf(
    inventory: InventoryView,
    items: Seq<ItemDefinitionView>,
    entry: InventoryItemView,
)
    requires
        inventory_wf(inventory, items),
    ensures
        inventory_wf(insert_state(inventory, items, entry), items),
{
    let after = insert_state(inventory, items, entry);
    let entries = inventory.entries;
    if insert_result(inventory, items, entry) is Ok {
        let last = entries.len() as int;
        assert forall|i: int| 0 <= i < after.entries.len() implies entry_wf(
            #[trigger] after.entries[i],
            items,
        ) && after.entries[i].entry_id < after.next_entry_id by {
            if i < last {
                assert(entry_wf(entries[i], items));
            }
        }
        assert forall|i: int, j: int| 0 <= i < j < after.entries.len() implies ({
            &&& (#[trigger] after.entries[i]).entry_id != (#[trigger] after.entries[j]).entry_id
            &&& after.entries[i].owner_identity == after.entries[j].owner_identity
                ==> after.entries[i].slot_index != after.entries[j].slot_index
            &&& after.entries[i].owner_identity == after.entries[j].owner_identity
                && after.entries[i].item_id == after.entries[j].item_id ==> definition_of(
                items,
                after.entries[i].item_id,
            ) is Some && definition_of(items, after.entries[i].item_id)->0.max_stack == 1
        }) by {
            if j < last {
                assert(entries[i].entry_id != entries[j].entry_id);
            } else {
                assert(entries[i].entry_id != entry.entry_id);
                if entries[i].owner_identity == entry.owner_identity {
                    if entries[i].slot_index == entry.slot_index {
                        assert(occupies(entries[i], entry.owner_identity, entry.slot_index));
                    }
                    if entries[i].item_id == entry.item_id {
                        assert(holds(entries[i], entry.owner_identity, entry.item_id));
                    }
                }
            }
        }
    }
}

/// The inventory store.
pub struct Inventory {
    rows: Vec<InventoryItem>,
    next_entry_id: u64,
}

impl View for Inventory {
    type V = InventoryView;

    closed spec fn view(&self) -> InventoryView {
        InventoryView { entries: entries_view(self.rows@), next_entry_id: self.next_entry_id }
    }
}

impl Inventory {
    /// The inventory's invariant with respect to a catalog: see
    /// [`inventory_wf`].
    pub open spec fn wf(&self, items: Seq<ItemDefinitionView>) -> bool {
        inventory_wf(self@, items)
    }

    /// An inventory without entries, whose first entry gets the id 1.
    pub fn new() -> (inventory: Inventory)
        ensures
            inventory@.entries == Seq::<InventoryItemView>::empty(),
            inventory@.next_entry_id == 1,
            forall|items: Seq<ItemDefinitionView>| inventory.wf(items),
    {
        let inventory = Inventory { rows: Vec::new(), next_entry_id: 1 };
        assert(inventory@.entries =~= Seq::<InventoryItemView>::empty());
        inventory
    }

    /// The entries, in the order of their creation.
    pub fn entries(&self) -> (rows: &Vec<InventoryItem>)
        ensures
            entries_view(rows@) == self@.entries,
    {
        &self.rows
    }

    /// The id the next new entry gets.
    pub fn next_entry_id(&self) -> (next: u64)
        ensures
            next == self@.next_entry_id,
    {
        self.next_entry_id
    }

    /// A copy of the inventory.
    pub fn snapshot(&self) -> (copy: Inventory)
        ensures
            copy@ == self@,
    {
        let mut rows: Vec<InventoryItem> = Vec::new();
        let mut i: usize = 0;
        while i < self.rows.len()
            invariant
                i <= self.rows.len(),
                rows@ == self.rows@.subrange(0, i as int),
            decreases self.rows.len() - i,
        {
            rows.push(self.rows[i].clone());
            proof {
                assert(rows@ =~= self.rows@.subrange(0, i as int + 1));
            }
            i += 1;
        }
        proof {
            assert(rows@ =~= self.rows@);
        }
        Inventory { rows, next_entry_id: self.next_entry_id }
    }

    /// Finds the place of an entry of `item_id` that belongs to `owner`.
    fn find_stack(&self, owner: Identity, item_id: &String) -> (found: Option<usize>)
        ensures
            match found {
                Some(k) => k < self@.entries.len() && holds(
                    self@.entries[k as int],
                    owner,
                    item_id@,
                ),
                None => !has_stack(self@.entries, owner, item_id@),
            },
    {
        let mut i: usize = 0;
        while i < self.rows.len()
            invariant
                i <= self.rows.len(),
                forall|k: int| 0 <= k < i ==> !holds(#[trigger] self@.entries[k], owner, item_id@),
            decreases self.rows.len() - i,
        {
            assert(self@.entries[i as int] == self.rows[i as int]@);
            if self.rows[i].owner_identity == owner && self.rows[i].item_id == *item_id {
                return Some(i);
            }
            i += 1;
        }
        None
    }

    /// Finds the place of the entry with the id `entry_id`.
    fn find_entry(&self, entry_id: u64) -> (found: Option<usize>)
        ensures
            match found {
                Some(k) => k < self@.entries.len() && self@.entries[k as int].entry_id == entry_id,
                None => !has_entry(self@.entries, entry_id),
            },
    {
        let mut i: usize = 0;
        while i < self.rows.len()
            invariant
                i <= self.rows.len(),
                forall|k: int| 0 <= k < i ==> (#[trigger] self@.entries[k]).entry_id != entry_id,
            decreases self.rows.len() - i,
        {
            assert(self@.entries[i as int] == self.rows[i as int]@);
            if self.rows[i].entry_id == entry_id {
                return Some(i);
            }
            i += 1;
        }
        None
    }

    /// Finds the place of the entry of `owner` that sits in `slot`.
    fn find_occupant(&self, owner: Identity, slot: u32) -> (found: Option<usize>)
        ensures
            match found {
                Some(k) => k < self@.entries.len() && occupies(self@.entries[k as int], owner, slot),
                None => !slot_taken(self@.entries, owner, slot),
            },
    {
        let mut i: usize = 0;
        while i < self.rows.len()
            invariant
                i <= self.rows.len(),
                forall|k: int| 0 <= k < i ==> !occupies(#[trigger] self@.entries[k], owner, slot),
            decreases self.rows.len() - i,
        {
            assert(self@.entries[i as int] == self.rows[i as int]@);
            if self.rows[i].owner_identity == owner && self.rows[i].slot_index == slot {
                return Some(i);
            }
            i += 1;
        }
        None
    }

    /// Finds the lowest slot that is free for `owner`.
    fn find_free_slot(&self, owner: Identity) -> (found: Option<u32>)
        ensures
            match found {
                Some(slot) => lowest_free(self@.entries, owner, slot),
                None => !has_free_slot(self@.entries, owner),
            },
    {
        let mut slot: u32 = 0;
        while slot < SLOT_COUNT
            invariant
                slot <= SLOT_COUNT,
                forall|below: u32| below < slot ==> slot_taken(self@.entries, owner, below),
            decreases SLOT_COUNT - slot,
        {
            if self.find_occupant(owner, slot).is_none() {
                return Some(slot);
            }
            slot += 1;
        }
        None
    }

    /// The entry with the id `entry_id`.
    pub fn get(&self, entry_id: u64) -> (found: Option<&InventoryItem>)
        ensures
            match found {
                Some(entry) => entry.entry_id == entry_id && self@.entries.contains(entry@),
                None => !has_entry(self@.entries, entry_id),
            },
    {
        match self.find_entry(entry_id) {
            Some(k) => {
                assert(self@.entries[k as int] == self.rows[k as int]@);
                Some(&self.rows[k])
            },
            None => None,
        }
    }

    /// Whether `owner` has an entry of `item_id`.
    pub fn contains(&self, owner: Identity, item_id: &str) -> (present: bool)
        ensures
            present == has_stack(self@.entries, owner, item_id@),
    {
        let key = String::from_str(item_id);
        self.find_stack(owner, &key).is_some()
    }

    /// Adds `quantity` units of an item to `owner`'s inventory. Units of an
    /// item that stacks go to the owner's stack of it, which grows up to the
    /// item's limit; what lies beyond the limit is dropped. Otherwise a new
    /// entry takes the owner's lowest free slot. Returns the id of the entry
    /// that took the units.
    pub fn add_stack(
        &mut self,
        catalog: &Catalog,
        owner: Identity,
        item_id: String,
        quantity: u32,
    ) -> (result: Result<u64, Error>)
        requires
            catalog.wf(),
            old(self).wf(catalog@),
        ensures
            final(self).wf(catalog@),
            result == add_stack_result(old(self)@, catalog@, owner, item_id@, quantity),
            final(self)@ == add_stack_state(old(self)@, catalog@, owner, item_id@, quantity),
    {
        proof {
            lemma_add_stack_wf(self@, catalog@, owner, item_id@, quantity);
        }
        let limit = match catalog.lookup(item_id.as_str()) {
            Some(definition) => definition.max_stack,
            None => {
                return Err(Error::UnknownItem);
            },
        };
        if quantity == 0 {
            return Err(Error::InvalidQuantity);
        }
        if limit > 1 {
            if let Some(k) = self.find_stack(owner, &item_id) {
                proof {
                    lemma_stack_unique(self@, catalog@, owner, item_id@, k as int);
                    assert(self@.entries[k as int] == self.rows[k as int]@);
                }
                let held = self.rows[k].quantity;
                let merged = if quantity > limit - held {
                    limit
                } else {
                    held + quantity
                };
                let entry_id = self.rows[k].entry_id;
                self.rows[k].quantity = merged;
                proof {
                    assert(self@.entries =~= old(self)@.entries.update(
                        k as int,
                        old(self)@.entries[k as int].with_quantity(merged),
                    ));
                }
                return Ok(entry_id);
            }
        }
        let slot = match self.find_free_slot(owner) {
            Some(slot) => slot,
            None => {
                return Err(Error::InventoryFull);
            },
        };
        proof {
            lemma_lowest_free_unique(self@.entries, owner, slot);
        }
        if self.next_entry_id == u64::MAX {
            return Err(Error::LimitReached);
        }
        let entry_id = self.next_entry_id;
        let stored = if quantity > limit {
            limit
        } else {
            quantity
        };
        let entry = InventoryItem {
            entry_id,
            owner_identity: owner,
            item_id,
            quantity: stored,
            slot_index: slot,
        };
        self.rows.push(entry);
        self.next_entry_id = entry_id + 1;
        proof {
            assert(self@.entries =~= old(self)@.entries.push(entry@));
        }
        Ok(entry_id)
    }

    /// Takes in an entry that comes with its id, as when the store is filled
    /// from what was saved elsewhere. The entry must fit the catalog and the
    /// entries that are there: a new id, an item of the catalog, a quantity
    /// within the item's limit, a free slot, and no second stack of an item
    /// that stacks.
    pub fn insert(&mut self, catalog: &Catalog, entry: InventoryItem) -> (result: Result<(), Error>)
        requires
            catalog.wf(),
            old(self).wf(catalog@),
        ensures
            final(self).wf(catalog@),
            result == insert_result(old(self)@, catalog@, entry@),
            final(self)@ == insert_state(old(self)@, catalog@, entry@),
    {
        proof {
            lemma_insert_wf(self@, catalog@, entry@);
        }
        if self.find_entry(entry.entry_id).is_some() {
            return Err(Error::AlreadyExists);
        }
        if entry.entry_id == u64::MAX {
            return Err(Error::LimitReached);
        }
        let limit = match catalog.lookup(entry.item_id.as_str()) {
            Some(definition) => definition.max_stack,
            None => {
                return Err(Error::UnknownItem);
            },
        };
        if entry.quantity < 1 || entry.quantity > limit {
            return Err(Error::InvalidQuantity);
        }
        if entry.slot_index >= SLOT_COUNT || self.find_occupant(
            entry.owner_identity,
            entry.slot_index,
        ).is_some() {
            return Err(Error::InvalidSlot);
        }
        if limit > 1 && self.find_stack(entry.owner_identity, &entry.item_id).is_some() {
            return Err(Error::AlreadyExists);
        }
        if entry.entry_id >= self.next_entry_id {
            self.next_entry_id = entry.entry_id + 1;
        }
        self.rows.push(entry);
        proof {
            assert(self@.entries =~= old(self)@.entries.push(entry@));
        }
        Ok(())
    }

    /// Takes `quantity` units out of an entry of `owner`. The entry is
    /// deleted where all it held is taken.
    pub fn remove(&mut self, entry_id: u64, quantity: u32, owner: Identity) -> (result: Result<
        (),
        Error,
    >)
        ensures
            forall|items: Seq<ItemDefinitionView>|
                #![trigger old(self).wf(items)]
                #![trigger final(self).wf(items)]
                old(self).wf(items) ==> {
                    &&& result == remove_result(old(self)@, entry_id, quantity, owner)
                    &&& final(self)@ == remove_state(old(self)@, entry_id, quantity, owner)
                    &&& final(self).wf(items)
                },
    {
        let found = self.find_entry(entry_id);
        let k = match found {
            Some(k) => k,
            None => {
                return Err(Error::UnknownEntry);
            },
        };
        assert(self@.entries[k as int] == self.rows[k as int]@);
        let same_owner = self.rows[k].owner_identity == owner;
        let held = self.rows[k].quantity;
        let result = if !same_owner {
            Err(Error::NotOwner)
        } else if quantity > held {
            Err(Error::InsufficientQuantity)
        } else {
            Ok(())
        };
        if result.is_ok() {
            if quantity == held {
                self.rows.remove(k);
                proof {
                    assert(self@.entries =~= old(self)@.entries.remove(k as int));
                }
            } else {
                self.rows[k].quantity = held - quantity;
                proof {
                    assert(self@.entries =~= old(self)@.entries.update(
                        k as int,
                        old(self)@.entries[k as int].with_quantity((held - quantity) as u32),
                    ));
                }
            }
        }
        proof {
            assert forall|items: Seq<ItemDefinitionView>| #[trigger]
                old(self).wf(items) implies result == remove_result(
                old(self)@,
                entry_id,
                quantity,
                owner,
            ) && self@ == remove_state(old(self)@, entry_id, quantity, owner) && self.wf(items) by {
                lemma_entry_unique(old(self)@, items, k as int);
                lemma_remove_wf(old(self)@, items, entry_id, quantity, owner);
            }
        }
        result
    }

    /// Moves an entry of `owner` to another slot. Where another entry of the
    /// owner sits there, the two change places.
    pub fn move_slot(&mut self, entry_id: u64, new_slot: u32, owner: Identity) -> (result: Result<
        (),
        Error,
    >)
        ensures
            forall|items: Seq<ItemDefinitionView>|
                #![trigger old(self).wf(items)]
                #![trigger final(self).wf(items)]
                old(self).wf(items) ==> {
                    &&& result == move_slot_result(old(self)@, entry_id, new_slot, owner)
                    &&& final(self)@ == move_slot_state(old(self)@, entry_id, new_slot, owner)
                    &&& final(self).wf(items)
                },
    {
        let found = self.find_entry(entry_id);
        let k = match found {
            Some(k) => k,
            None => {
                return Err(Error::UnknownEntry);
            },
        };
        assert(self@.entries[k as int] == self.rows[k as int]@);
        let same_owner = self.rows[k].owner_identity == owner;
        let result = if !same_owner {
            Err(Error::NotOwner)
        } else if new_slot >= SLOT_COUNT {
            Err(Error::InvalidSlot)
        } else {
            Ok(())
        };
        let ghost mut other_place: int = 0;
        if result.is_ok() {
            let current = self.rows[k].slot_index;
            let occupant = self.find_occupant(owner, new_slot);
            if let Some(other) = occupant {
                assert(self@.entries[other as int] == self.rows[other as int]@);
                proof {
                    other_place = other as int;
                }
                self.rows[other].slot_index = current;
                self.rows[k].slot_index = new_slot;
                proof {
                    assert(self@.entries =~= old(self)@.entries.update(
                        other as int,
                        old(self)@.entries[other as int].in_slot(current),
                    ).update(k as int, old(self)@.entries[k as int].in_slot(new_slot)));
                }
            } else {
                self.rows[k].slot_index = new_slot;
                proof {
                    assert(self@.entries =~= old(self)@.entries.update(
                        k as int,
                        old(self)@.entries[k as int].in_slot(new_slot),
                    ));
                }
            }
        }
        proof {
            assert forall|items: Seq<ItemDefinitionView>| #[trigger]
                old(self).wf(items) implies result == move_slot_result(
                old(self)@,
                entry_id,
                new_slot,
                owner,
            ) && self@ == move_slot_state(old(self)@, entry_id, new_slot, owner) && self.wf(
                items,
            ) by {
                lemma_entry_unique(old(self)@, items, k as int);
                if result is Ok && slot_taken(old(self)@.entries, owner, new_slot) {
                    lemma_occupant_unique(old(self)@, items, owner, new_slot, other_place);
                }
                lemma_move_slot_wf(old(self)@, items, entry_id, new_slot, owner);
            }
        }
        result
    }
}

} // verus!
