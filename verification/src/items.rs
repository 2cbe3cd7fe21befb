//! What players do with items: add them, take them out, move them between
//! slots, consume them, pick them up and flip switches.

use crate::catalog::definition_of;
use crate::database::{Database, DatabaseView};
use crate::error::Error;
use crate::identity::ReducerContext;
use crate::inventory::{
    add_stack_result, add_stack_state, entry_index, has_entry, lemma_entry_unique,
    move_slot_result, move_slot_state, remove_result, remove_state,
};
use crate::session::has_player;
use crate::world::{has_interactable, pick_up_result, pick_up_state, toggle_state, world_item_index};
use vstd::prelude::*;
use vstd::string::StringExecFns;

verus! {

/// The health points a health potion restores.
pub const HEALTH_POTION_POINTS: u32 = 50;

/// What consuming an item does to the player, beyond using the item up.
#[derive(Clone, Copy, PartialEq, Eq, Structural, Debug)]
pub enum ConsumableEffect {
    /// Nothing.
    Nothing,
    /// The player's health rises by `points`, up to the player's full health.
    RestoreHealth { points: u32 },
}

/// The state after `add_item_to_inventory`.
pub open spec fn add_item_state(
    db: DatabaseView,
    ctx: ReducerContext,
    item_id: Seq<char>,
    quantity: u32,
) -> DatabaseView {
    DatabaseView {
        inventory: add_stack_state(db.inventory, db.items, ctx.sender, item_id, quantity),
        ..db
    }
}

/// The state after `remove_item_from_inventory`.
pub open spec fn remove_item_state(
    db: DatabaseView,
    ctx: ReducerContext,
    entry_id: u64,
    quantity: u32,
) -> DatabaseView {
    DatabaseView { inventory: remove_state(db.inventory, entry_id, quantity, ctx.sender), ..db }
}

/// The state after `move_inventory_item`.
pub open spec fn move_item_state(
    db: DatabaseView,
    ctx: ReducerContext,
    entry_id: u64,
    new_slot: u32,
) -> DatabaseView {
    DatabaseView { inventory: move_slot_state(db.inventory, entry_id, new_slot, ctx.sender), ..db }
}

/// The item type of what can be consumed.
pub open spec fn consumable_type() -> Seq<char> {
    "consumable"@
}

/// The item id of the health potion.
pub open spec fn health_potion() -> Seq<char> {
    "health_potion"@
}

/// What `use_consumable` returns: what the item does to the caller, or why
/// the entry cannot be consumed by the caller.
pub open spec fn consume_result(db: DatabaseView, ctx: ReducerContext, entry_id: u64) -> Result<
    ConsumableEffect,
    Error,
> {
    if !has_entry(db.inventory.entries, entry_id) {
        Err(Error::UnknownEntry)
    } else {
        let entry = db.inventory.entries[entry_index(db.inventory.entries, entry_id)];
        if entry.owner_identity != ctx.sender {
            Err(Error::NotOwner)
        } else if definition_of(db.items, entry.item_id) is None {
            Err(Error::UnknownItem)
        } else if definition_of(db.items, entry.item_id)->0.item_type != consumable_type() {
            Err(Error::NotConsumable)
        } else if entry.item_id == health_potion() && has_player(db.players, ctx.sender) {
            Ok(ConsumableEffect::RestoreHealth { points: HEALTH_POTION_POINTS })
        } else {
            Ok(ConsumableEffect::Nothing)
        }
    }
}

/// The state after `use_consumable`: the entry holds one unit less, and is
/// gone where it held one; unchanged where `use_consumable` fails.
pub open spec fn consume_state(db: DatabaseView, ctx: ReducerContext, entry_id: u64) -> DatabaseView {
    if consume_result(db, ctx, entry_id) is Err {
        db
    } else {
        DatabaseView { inventory: remove_state(db.inventory, entry_id, 1, ctx.sender), ..db }
    }
}

/// What `collect_world_item` returns: the id of the inventory entry that
/// took the units, or why the item was not picked up.
pub open spec fn collect_result(db: DatabaseView, ctx: ReducerContext, world_item_id: u64) -> Result<
    u64,
    Error,
> {
    match pick_up_result(db.world_items, world_item_id) {
        Err(error) => Err(error),
        Ok(_) => {
            let item = db.world_items.items[world_item_index(db.world_items.items, world_item_id)];
            add_stack_result(db.inventory, db.items, ctx.sender, item.item_id, item.quantity)
        },
    }
}

/// The state after `collect_world_item`: the world item is marked as
/// collected and its units lie in the caller's inventory; unchanged where
/// `collect_world_item` fails.
pub open spec fn collect_state(
    db: DatabaseView,
    ctx: ReducerContext,
    world_item_id: u64,
) -> DatabaseView {
    if collect_result(db, ctx, world_item_id) is Err {
        db
    } else {
        let item = db.world_items.items[world_item_index(db.world_items.items, world_item_id)];
        DatabaseView {
            world_items: pick_up_state(db.world_items, world_item_id),
            inventory: add_stack_state(
                db.inventory,
                db.items,
                ctx.sender,
                item.item_id,
                item.quantity,
            ),
            ..db
        }
    }
}

/// The state after `toggle_interactable`.
pub open spec fn toggle_interactable_state(
    db: DatabaseView,
    interactable_id: Seq<char>,
) -> DatabaseView {
    DatabaseView { interactables: toggle_state(db.interactables, interactable_id), ..db }
}

/// Adds `quantity` units of an item to the caller's inventory: to the
/// caller's stack of the item where the item stacks and the caller has one,
/// up to the item's limit, and to a new entry in the caller's lowest free
/// slot otherwise. Returns the id of the entry that took the units.
pub fn add_item_to_inventory(
    db: &mut Database,
    ctx: &ReducerContext,
    item_id: String,
    quantity: u32,
) -> (result: Result<u64, Error>)
    requires
        old(db).wf(),
    ensures
        final(db).wf(),
        result == add_stack_result(
            old(db)@.inventory,
            old(db)@.items,
            ctx.sender,
            item_id@,
            quantity,
        ),
        final(db)@ == add_item_state(old(db)@, *ctx, item_id@, quantity),
{
    db.inventory.add_stack(&db.catalog, ctx.sender, item_id, quantity)
}

/// Takes `quantity` units out of an entry of the caller's inventory. The
/// entry is deleted where all it held is taken.
pub fn remove_item_from_inventory(
    db: &mut Database,
    ctx: &ReducerContext,
    entry_id: u64,
    quantity: u32,
) -> (result: Result<(), Error>)
    requires
        old(db).wf(),
    ensures
        final(db).wf(),
        result == remove_result(old(db)@.inventory, entry_id, quantity, ctx.sender),
        final(db)@ == remove_item_state(old(db)@, *ctx, entry_id, quantity),
{
    assert(old(db).inventory.wf(old(db)@.items));
    db.inventory.remove(entry_id, quantity, ctx.sender)
}

/// Moves an entry of the caller's inventory to another slot. Where another
/// entry of the caller sits there, the two change places.
pub fn move_inventory_item(
    db: &mut Database,
    ctx: &ReducerContext,
    entry_id: u64,
    new_slot: u32,
) -> (result: Result<(), Error>)
    requires
        old(db).wf(),
    ensures
        final(db).wf(),
        result == move_slot_result(old(db)@.inventory, entry_id, new_slot, ctx.sender),
        final(db)@ == move_item_state(old(db)@, *ctx, entry_id, new_slot),
{
    assert(old(db).inventory.wf(old(db)@.items));
    db.inventory.move_slot(entry_id, new_slot, ctx.sender)
}

/// Consumes one unit of an entry of the caller's inventory, and says what
/// the item does to the caller.
pub fn use_consumable(db: &mut Database, ctx: &ReducerContext, entry_id: u64) -> (result: Result<
    ConsumableEffect,
    Error,
>)
    requires
        old(db).wf(),
    ensures
        final(db).wf(),
        result == consume_result(old(db)@, *ctx, entry_id),
        final(db)@ == consume_state(old(db)@, *ctx, entry_id),
{
    let effect = match db.inventory.get(entry_id) {
        None => {
            return Err(Error::UnknownEntry);
        },
        Some(entry) => {
            proof {
                let entries = db@.inventory.entries;
                let k = choose|k: int| 0 <= k < entries.len() && entries[k] == entry@;
                lemma_entry_unique(db@.inventory, db@.items, k);
            }
            if entry.owner_identity != ctx.sender {
                return Err(Error::NotOwner);
            }
            match db.catalog.lookup(entry.item_id.as_str()) {
                None => {
                    return Err(Error::UnknownItem);
                },
                Some(definition) => {
                    if definition.item_type != String::from_str("consumable") {
                        return Err(Error::NotConsumable);
                    }
                },
            }
            if entry.item_id == String::from_str("health_potion") && db.players.contains(
                ctx.sender,
            ) {
                ConsumableEffect::RestoreHealth { points: HEALTH_POTION_POINTS }
            } else {
                ConsumableEffect::Nothing
            }
        },
    };
    proof {
        let entries = db@.inventory.entries;
        let k = entry_index(entries, entry_id);
        assert(crate::inventory::entry_wf(entries[k], db@.items));
    }
    assert(old(db).inventory.wf(old(db)@.items));
    let removed = db.inventory.remove(entry_id, 1, ctx.sender);
    assert(removed is Ok);
    Ok(effect)
}

/// Picks up an item lying in the world: the item is marked as collected and
/// its units go to the caller's inventory as with `add_item_to_inventory`.
/// Returns the id of the inventory entry that took the units.
pub fn collect_world_item(db: &mut Database, ctx: &ReducerContext, world_item_id: u64) -> (result:
    Result<u64, Error>)
    requires
        old(db).wf(),
    ensures
        final(db).wf(),
        result == collect_result(old(db)@, *ctx, world_item_id),
        final(db)@ == collect_state(old(db)@, *ctx, world_item_id),
{
    let (item_id, quantity) = match db.world_items.get(world_item_id) {
        None => {
            return Err(Error::UnknownWorldItem);
        },
        Some(item) => {
            if item.is_collected {
                return Err(Error::AlreadyCollected);
            }
            (item.item_id.clone(), item.quantity)
        },
    };
    let entry_id = match db.inventory.add_stack(&db.catalog, ctx.sender, item_id, quantity) {
        Err(error) => {
            return Err(error);
        },
        Ok(entry_id) => entry_id,
    };
    let picked = db.world_items.pick_up(world_item_id);
    assert(picked is Ok);
    Ok(entry_id)
}

/// Switches an interactable: active becomes inactive and inactive active.
/// Returns whether there is an interactable with that id; nothing changes
/// where there is none.
pub fn toggle_interactable(db: &mut Database, interactable_id: String) -> (known: bool)
    requires
        old(db).wf(),
    ensures
        final(db).wf(),
        known == has_interactable(old(db)@.interactables, interactable_id@),
        final(db)@ == toggle_interactable_state(old(db)@, interactable_id@),
{
    db.interactables.toggle(interactable_id.as_str())
}

} // verus!
