//! What holds of the operations, whatever the state and the arguments.

use crate::catalog::{catalog_wf, definition_of, ItemDefinitionView};
use crate::database::{database_wf, DatabaseView};
use crate::economy::{
    delivered, gift_result, gift_state, grant_result, grant_state, lemma_reclaim_wf,
    purchase_result, purchase_state, reclaim_prefix, reclaim_state, restores, top_up_state,
};
use crate::items::{
    add_item_state, collect_state, consume_state, move_item_state, remove_item_state,
};
use crate::error::Error;
use crate::identity::{Identity, ReducerContext};
use crate::inventory::{
    add_stack_result, add_stack_state, entry_index, has_entry, has_free_slot, has_stack, holds,
    inventory_wf, lemma_add_stack_wf, lemma_entry_unique, lemma_first_free_slot,
    lemma_stack_unique, merges, move_slot_state, stack_index, InventoryItemView, InventoryView,
};
use crate::ownership::{has_owned, new_record, PremiumOwnershipView};
use crate::wallet::{balance_of, has_wallet, lemma_wallet_update, wallet_index};
use vstd::prelude::*;

verus! {

/// The units of `item_id` in `owner`'s stack of it, and none without a stack.
pub open spec fn held(entries: Seq<InventoryItemView>, owner: Identity, item_id: Seq<char>) -> nat {
    if has_stack(entries, owner, item_id) {
        entries[stack_index(entries, owner, item_id)].quantity as nat
    } else {
        0
    }
}

/// The sum of the quantities.
pub open spec fn total(quantities: Seq<u32>) -> nat
    decreases quantities.len(),
{
    if quantities.len() == 0 {
        0
    } else {
        total(quantities.drop_last()) + quantities.last() as nat
    }
}

/// The smaller of a number of units and a stack limit.
pub open spec fn capped(units: int, limit: u32) -> int {
    if units > limit {
        limit as int
    } else {
        units
    }
}

/// The inventory after `add_stack` was called for `owner` and `item_id` with
/// each of the quantities in turn.
pub open spec fn add_all(
    inventory: InventoryView,
    items: Seq<ItemDefinitionView>,
    owner: Identity,
    item_id: Seq<char>,
    quantities: Seq<u32>,
) -> InventoryView
    decreases quantities.len(),
{
    if quantities.len() == 0 {
        inventory
    } else {
        add_stack_state(
            add_all(inventory, items, owner, item_id, quantities.drop_last()),
            items,
            owner,
            item_id,
            quantities.last(),
        )
    }
}

/// The first unit of `item_id` finds a place with `owner`: the owner has a
/// stack of the item, or a free slot for a new entry that can still get an
/// id.
pub open spec fn has_room(inventory: InventoryView, owner: Identity, item_id: Seq<char>) -> bool {
    has_stack(inventory.entries, owner, item_id) || (has_free_slot(inventory.entries, owner)
        && inventory.next_entry_id < u64::MAX)
}

/// One call of `add_stack` for an item that stacks brings the owner's stack
/// to the sum of what it held and what was added, or to the item's limit
/// where the sum lies beyond it.
pub proof fn lemma_add_stack_held(
    inventory: InventoryView,
    items: Seq<ItemDefinitionView>,
    owner: Identity,
    item_id: Seq<char>,
    quantity: u32,
)
    requires
        catalog_wf(items),
        inventory_wf(inventory, items),
        definition_of(items, item_id) is Some,
        definition_of(items, item_id)->0.max_stack > 1,
        has_room(inventory, owner, item_id),
    ensures
        inventory_wf(add_stack_state(inventory, items, owner, item_id, quantity), items),
        has_room(add_stack_state(inventory, items, owner, item_id, quantity), owner, item_id),
        held(add_stack_state(inventory, items, owner, item_id, quantity).entries, owner, item_id)
            == capped(
            held(inventory.entries, owner, item_id) + quantity,
            definition_of(items, item_id)->0.max_stack,
        ),
{
    let after = add_stack_state(inventory, items, owner, item_id, quantity);
    let entries = inventory.entries;
    lemma_add_stack_wf(inventory, items, owner, item_id, quantity);
    if has_stack(entries, owner, item_id) {
        let k = stack_index(entries, owner, item_id);
        assert(0 <= k < entries.len() && holds(entries[k], owner, item_id));
        assert(crate::inventory::entry_wf(entries[k], items));
        if quantity > 0 {
            assert(merges(inventory, items, owner, item_id));
            assert(holds(after.entries[k], owner, item_id));
            lemma_stack_unique(after, items, owner, item_id, k);
        }
    } else if quantity > 0 {
        lemma_first_free_slot(entries, owner);
        let last = entries.len() as int;
        assert(add_stack_result(inventory, items, owner, item_id, quantity) is Ok);
        assert(holds(after.entries[last], owner, item_id));
        lemma_stack_unique(after, items, owner, item_id, last);
    }
}

/// Stacks saturate. For an item that stacks up to a limit: after any
/// sequence of `add_stack` calls for one owner and that item, the owner's
/// stack holds what it held before plus the sum of the quantities, or the
/// limit where that lies beyond it. The first unit must find a place: the
/// owner has a stack of the item already, or a free slot.
pub proof fn law_stack_saturates(
    inventory: InventoryView,
    items: Seq<ItemDefinitionView>,
    owner: Identity,
    item_id: Seq<char>,
    quantities: Seq<u32>,
)
    requires
        catalog_wf(items),
        inventory_wf(inventory, items),
        definition_of(items, item_id) is Some,
        definition_of(items, item_id)->0.max_stack > 1,
        has_room(inventory, owner, item_id),
    ensures
        inventory_wf(add_all(inventory, items, owner, item_id, quantities), items),
        has_room(add_all(inventory, items, owner, item_id, quantities), owner, item_id),
        held(add_all(inventory, items, owner, item_id, quantities).entries, owner, item_id)
            == capped(
            (held(inventory.entries, owner, item_id) + total(quantities)) as int,
            definition_of(items, item_id)->0.max_stack,
        ),
    decreases quantities.len(),
{
    if quantities.len() > 0 {
        law_stack_saturates(inventory, items, owner, item_id, quantities.drop_last());
        lemma_add_stack_held(
            add_all(inventory, items, owner, item_id, quantities.drop_last()),
            items,
            owner,
            item_id,
            quantities.last(),
        );
    } else {
        if has_stack(inventory.entries, owner, item_id) {
            let k = stack_index(inventory.entries, owner, item_id);
            assert(crate::inventory::entry_wf(inventory.entries[k], items));
        }
    }
}

/// Every entry of a well-formed inventory holds between one unit and the
/// stack limit of its item.
pub proof fn law_quantity_within_limit(
    inventory: InventoryView,
    items: Seq<ItemDefinitionView>,
    i: int,
)
    requires
        inventory_wf(inventory, items),
        0 <= i < inventory.entries.len(),
    ensures
        definition_of(items, inventory.entries[i].item_id) is Some,
        1 <= inventory.entries[i].quantity <= definition_of(
            items,
            inventory.entries[i].item_id,
        )->0.max_stack,
{
    assert(crate::inventory::entry_wf(inventory.entries[i], items));
}

/// Slots are not shared. In a well-formed state two different entries of
/// one owner sit in different slots. Every operation keeps the state
/// well-formed, so this holds at all times.
pub proof fn law_slots_distinct(db: DatabaseView, i: int, j: int)
    requires
        database_wf(db),
        0 <= i < db.inventory.entries.len(),
        0 <= j < db.inventory.entries.len(),
        i != j,
        db.inventory.entries[i].owner_identity == db.inventory.entries[j].owner_identity,
    ensures
        db.inventory.entries[i].slot_index != db.inventory.entries[j].slot_index,
{
    let entries = db.inventory.entries;
    if i < j {
        assert(entries[i].owner_identity == entries[j].owner_identity);
    } else {
        assert(entries[j].owner_identity == entries[i].owner_identity);
    }
}

/// An exclusive item is bought once. Buying an exclusive item that the
/// buyer acquired before fails and changes nothing; where the item is for
/// sale, the failure is `AlreadyOwned`.
pub proof fn law_owned_exclusive_is_not_sold_again(
    db: DatabaseView,
    ctx: ReducerContext,
    item_id: Seq<char>,
)
    requires
        database_wf(db),
        definition_of(db.items, item_id) is Some,
        definition_of(db.items, item_id)->0.is_exclusive,
        has_owned(db.ownership.records, ctx.sender, item_id),
    ensures
        purchase_result(db, ctx.sender, item_id) is Err,
        definition_of(db.items, item_id)->0.for_sale() ==> purchase_result(
            db,
            ctx.sender,
            item_id,
        ) == Err::<(), Error>(Error::AlreadyOwned),
        purchase_state(db, ctx, item_id) == db,
{
}

/// A gift is paid by the sender alone. Where a gift succeeds and the
/// sender's balance is the price, the sender's balance is zero afterwards,
/// the registry has exactly one record more, which names the recipient as
/// owner and the sender as giver, and the recipient's wallet is as it was.
pub proof fn law_gift_costs_the_sender(
    db: DatabaseView,
    ctx: ReducerContext,
    item_id: Seq<char>,
    recipient: Identity,
)
    requires
        database_wf(db),
        gift_result(db, ctx.sender, item_id, recipient) is Ok,
        balance_of(db.wallets, ctx.sender) == definition_of(
            db.items,
            item_id,
        )->0.premium_currency_price,
    ensures
        balance_of(gift_state(db, ctx, item_id, recipient).wallets, ctx.sender) == 0,
        gift_state(db, ctx, item_id, recipient).ownership.records == db.ownership.records.push(
            new_record(
                db.ownership,
                recipient,
                item_id,
                ctx.timestamp,
                crate::identity::reference_text("gift"@, ctx),
                Some(ctx.sender),
            ),
        ),
        has_wallet(gift_state(db, ctx, item_id, recipient).wallets, recipient) == has_wallet(
            db.wallets,
            recipient,
        ),
        has_wallet(db.wallets, recipient) ==> gift_state(
            db,
            ctx,
            item_id,
            recipient,
        ).wallets[wallet_index(gift_state(db, ctx, item_id, recipient).wallets, recipient)]
            == db.wallets[wallet_index(db.wallets, recipient)],
{
    let price = definition_of(db.items, item_id)->0.premium_currency_price;
    assert(price > 0);
    assert(has_wallet(db.wallets, ctx.sender));
    let k = wallet_index(db.wallets, ctx.sender);
    let paid = crate::wallet::PlayerWallet {
        premium_currency: (db.wallets[k].premium_currency - price) as u64,
        ..db.wallets[k]
    };
    lemma_wallet_update(db.wallets, k, paid);
}

/// The item is exclusive, and each unit of it takes a slot of its own.
pub open spec fn exclusive_unique(items: Seq<ItemDefinitionView>, item_id: Seq<char>) -> bool {
    &&& definition_of(items, item_id) is Some
    &&& definition_of(items, item_id)->0.is_exclusive
    &&& definition_of(items, item_id)->0.unique()
}

/// The entries of exclusive items that take a slot of their own, in order.
pub open spec fn exclusive_entries(
    entries: Seq<InventoryItemView>,
    items: Seq<ItemDefinitionView>,
) -> Seq<InventoryItemView> {
    entries.filter(|entry: InventoryItemView| exclusive_unique(items, entry.item_id))
}

/// `after` came from `before` without a change to an entry of an exclusive
/// item that takes a slot of its own: entries kept their place and item,
/// those of such items are as they were, and no entry of such an item was
/// added.
spec fn exclusive_kept(
    before: Seq<InventoryItemView>,
    after: Seq<InventoryItemView>,
    items: Seq<ItemDefinitionView>,
) -> bool {
    &&& before.len() <= after.len()
    &&& forall|i: int|
        0 <= i < before.len() ==> (#[trigger] after[i]).item_id == before[i].item_id
    &&& forall|i: int|
        0 <= i < before.len() && exclusive_unique(items, before[i].item_id) ==> #[trigger] after[i]
            == before[i]
    &&& forall|i: int|
        before.len() <= i < after.len() ==> !exclusive_unique(items, (#[trigger] after[i]).item_id)
}

/// Where no entry of an exclusive item that takes a slot of its own was
/// changed or added, the entries of such items are the same.
proof fn lemma_exclusive_entries_kept(
    before: Seq<InventoryItemView>,
    after: Seq<InventoryItemView>,
    items: Seq<ItemDefinitionView>,
)
    requires
        exclusive_kept(before, after, items),
    ensures
        exclusive_entries(after, items) == exclusive_entries(before, items),
    decreases after.len(),
{
    reveal(Seq::filter);
    let keep = |entry: InventoryItemView| exclusive_unique(items, entry.item_id);
    if after.len() == 0 {
        assert(before =~= after);
    } else if before.len() < after.len() {
        let rest = after.drop_last();
        assert(!exclusive_unique(items, after[after.len() - 1].item_id));
        assert(exclusive_kept(before, rest, items)) by {
            assert forall|i: int| 0 <= i < before.len() implies (#[trigger] rest[i]).item_id
                == before[i].item_id by {
                assert(after[i].item_id == before[i].item_id);
            }
            assert forall|i: int|
                0 <= i < before.len() && exclusive_unique(
                    items,
                    before[i].item_id,
                ) implies #[trigger] rest[i] == before[i] by {
                assert(after[i] == before[i]);
            }
            assert forall|i: int| before.len() <= i < rest.len() implies !exclusive_unique(
                items,
                (#[trigger] rest[i]).item_id,
            ) by {
                assert(!exclusive_unique(items, after[i].item_id));
            }
        }
        lemma_exclusive_entries_kept(before, rest, items);
        assert(after.filter(keep) == rest.filter(keep));
    } else {
        let rest_after = after.drop_last();
        let rest_before = before.drop_last();
        let last = after.len() - 1;
        assert(after[last].item_id == before[last].item_id);
        assert(exclusive_kept(rest_before, rest_after, items)) by {
            assert forall|i: int| 0 <= i < rest_before.len() implies (
            #[trigger] rest_after[i]).item_id == rest_before[i].item_id by {
                assert(after[i].item_id == before[i].item_id);
            }
            assert forall|i: int|
                0 <= i < rest_before.len() && exclusive_unique(
                    items,
                    rest_before[i].item_id,
                ) implies #[trigger] rest_after[i] == rest_before[i] by {
                assert(after[i] == before[i]);
            }
        }
        lemma_exclusive_entries_kept(rest_before, rest_after, items);
        if exclusive_unique(items, before[last].item_id) {
            assert(after[last] == before[last]);
        }
    }
}

/// `add_stack` takes no stack away.
proof fn lemma_add_stack_keeps_stacks(
    inventory: InventoryView,
    items: Seq<ItemDefinitionView>,
    owner: Identity,
    item_id: Seq<char>,
    quantity: u32,
    other_owner: Identity,
    other_item: Seq<char>,
)
    requires
        has_stack(inventory.entries, other_owner, other_item),
    ensures
        has_stack(
            add_stack_state(inventory, items, owner, item_id, quantity).entries,
            other_owner,
            other_item,
        ),
{
    let after = add_stack_state(inventory, items, owner, item_id, quantity);
    let k = stack_index(inventory.entries, other_owner, other_item);
    assert(0 <= k < inventory.entries.len() && holds(inventory.entries[k], other_owner, other_item));
    if add_stack_result(inventory, items, owner, item_id, quantity) is Ok {
        if merges(inventory, items, owner, item_id) {
            let at = stack_index(inventory.entries, owner, item_id);
            assert(0 <= at < inventory.entries.len() && holds(
                inventory.entries[at],
                owner,
                item_id,
            ));
        }
    }
    assert(holds(after.entries[k], other_owner, other_item));
}

/// After `add_stack` succeeded, the owner has a stack of the item.
proof fn lemma_add_stack_gives_stack(
    inventory: InventoryView,
    items: Seq<ItemDefinitionView>,
    owner: Identity,
    item_id: Seq<char>,
    quantity: u32,
)
    requires
        add_stack_result(inventory, items, owner, item_id, quantity) is Ok,
    ensures
        has_stack(add_stack_state(inventory, items, owner, item_id, quantity).entries, owner, item_id),
{
    let after = add_stack_state(inventory, items, owner, item_id, quantity);
    if merges(inventory, items, owner, item_id) {
        lemma_add_stack_keeps_stacks(inventory, items, owner, item_id, quantity, owner, item_id);
    } else {
        assert(holds(after.entries[inventory.entries.len() as int], owner, item_id));
    }
}

/// `add_stack` for an item that is not an exclusive one with a slot of its
/// own changes and adds no entry of such an item.
proof fn lemma_add_stack_keeps_exclusive(
    inventory: InventoryView,
    items: Seq<ItemDefinitionView>,
    owner: Identity,
    item_id: Seq<char>,
    quantity: u32,
)
    requires
        !exclusive_unique(items, item_id),
    ensures
        exclusive_kept(
            inventory.entries,
            add_stack_state(inventory, items, owner, item_id, quantity).entries,
            items,
        ),
{
    let after = add_stack_state(inventory, items, owner, item_id, quantity);
    if add_stack_result(inventory, items, owner, item_id, quantity) is Ok {
        if merges(inventory, items, owner, item_id) {
            let at = stack_index(inventory.entries, owner, item_id);
            assert(0 <= at < inventory.entries.len() && holds(
                inventory.entries[at],
                owner,
                item_id,
            ));
        }
    }
}

/// Every record among the first `n` that names `owner` and an exclusive
/// item with a slot of its own finds the item in the owner's inventory.
spec fn exclusive_present(
    inventory: InventoryView,
    items: Seq<ItemDefinitionView>,
    owner: Identity,
    records: Seq<PremiumOwnershipView>,
    n: nat,
) -> bool {
    forall|k: int|
        0 <= k < n && k < records.len() && (#[trigger] records[k]).owner_identity == owner
            && exclusive_unique(items, records[k].item_id) ==> has_stack(
            inventory.entries,
            owner,
            records[k].item_id,
        )
}

/// Going through the records takes no stack away.
proof fn lemma_reclaim_keeps_stacks(
    inventory: InventoryView,
    items: Seq<ItemDefinitionView>,
    owner: Identity,
    records: Seq<PremiumOwnershipView>,
    n: nat,
    other_owner: Identity,
    other_item: Seq<char>,
)
    requires
        n <= records.len(),
        has_stack(inventory.entries, other_owner, other_item),
        reclaim_prefix(inventory, items, owner, records, n) is Ok,
    ensures
        has_stack(
            reclaim_prefix(inventory, items, owner, records, n)->Ok_0.0.entries,
            other_owner,
            other_item,
        ),
    decreases n,
{
    if n > 0 {
        let earlier = reclaim_prefix(inventory, items, owner, records, (n - 1) as nat);
        assert(earlier is Ok);
        lemma_reclaim_keeps_stacks(
            inventory,
            items,
            owner,
            records,
            (n - 1) as nat,
            other_owner,
            other_item,
        );
        let current = earlier->Ok_0.0;
        lemma_add_stack_keeps_stacks(
            current,
            items,
            owner,
            records[n - 1].item_id,
            1,
            other_owner,
            other_item,
        );
    }
}

/// After the first `n` records were gone through, each exclusive item with
/// a slot of its own that they name for the owner lies in the inventory.
proof fn lemma_reclaim_restores_exclusive(
    inventory: InventoryView,
    items: Seq<ItemDefinitionView>,
    owner: Identity,
    records: Seq<PremiumOwnershipView>,
    n: nat,
)
    requires
        n <= records.len(),
        reclaim_prefix(inventory, items, owner, records, n) is Ok,
    ensures
        exclusive_present(
            reclaim_prefix(inventory, items, owner, records, n)->Ok_0.0,
            items,
            owner,
            records,
            n,
        ),
    decreases n,
{
    if n > 0 {
        let earlier = reclaim_prefix(inventory, items, owner, records, (n - 1) as nat);
        assert(earlier is Ok);
        lemma_reclaim_restores_exclusive(inventory, items, owner, records, (n - 1) as nat);
        let current = earlier->Ok_0.0;
        let record = records[n - 1];
        let after = reclaim_prefix(inventory, items, owner, records, n)->Ok_0.0;
        assert forall|k: int|
            0 <= k < n && k < records.len() && (#[trigger] records[k]).owner_identity == owner
                && exclusive_unique(items, records[k].item_id) implies has_stack(
            after.entries,
            owner,
            records[k].item_id,
        ) by {
            if k < n - 1 {
                assert(has_stack(current.entries, owner, records[k].item_id));
                lemma_add_stack_keeps_stacks(
                    current,
                    items,
                    owner,
                    record.item_id,
                    1,
                    owner,
                    records[k].item_id,
                );
            } else if restores(current, items, owner, record) {
                lemma_add_stack_gives_stack(current, items, owner, record.item_id, 1);
            }
        }
    }
}

/// Where each exclusive item with a slot of its own that the records name
/// for the owner lies in the inventory, going through the records changes
/// and adds no entry of such an item.
proof fn lemma_reclaim_keeps_exclusive(
    inventory: InventoryView,
    items: Seq<ItemDefinitionView>,
    owner: Identity,
    records: Seq<PremiumOwnershipView>,
    n: nat,
)
    requires
        n <= records.len(),
        exclusive_present(inventory, items, owner, records, records.len()),
        reclaim_prefix(inventory, items, owner, records, n) is Ok,
    ensures
        exclusive_kept(
            inventory.entries,
            reclaim_prefix(inventory, items, owner, records, n)->Ok_0.0.entries,
            items,
        ),
    decreases n,
{
    if n > 0 {
        let earlier = reclaim_prefix(inventory, items, owner, records, (n - 1) as nat);
        assert(earlier is Ok);
        lemma_reclaim_keeps_exclusive(inventory, items, owner, records, (n - 1) as nat);
        let current = earlier->Ok_0.0;
        let record = records[n - 1];
        let after = reclaim_prefix(inventory, items, owner, records, n)->Ok_0.0;
        if restores(current, items, owner, record) {
            if exclusive_unique(items, record.item_id) {
                assert(has_stack(inventory.entries, owner, record.item_id));
                lemma_reclaim_keeps_stacks(
                    inventory,
                    items,
                    owner,
                    records,
                    (n - 1) as nat,
                    owner,
                    record.item_id,
                );
            }
            lemma_add_stack_keeps_exclusive(current, items, owner, record.item_id, 1);
            let before = inventory.entries;
            assert forall|i: int| 0 <= i < before.len() implies (#[trigger] after.entries[i]).item_id
                == before[i].item_id by {
                assert(current.entries[i].item_id == before[i].item_id);
            }
            assert forall|i: int|
                0 <= i < before.len() && exclusive_unique(
                    items,
                    before[i].item_id,
                ) implies #[trigger] after.entries[i] == before[i] by {
                assert(current.entries[i] == before[i]);
            }
            assert forall|i: int| before.len() <= i < after.entries.len() implies !exclusive_unique(
                items,
                (#[trigger] after.entries[i]).item_id,
            ) by {
                if i < current.entries.len() {
                    assert(!exclusive_unique(items, current.entries[i].item_id));
                    assert(after.entries[i].item_id == current.entries[i].item_id);
                }
            }
        }
    }
}

/// Reclaiming twice is reclaiming once, for exclusive items. After
/// `reclaim_premium_items` was called for an owner, a second call leaves
/// the entries of exclusive items that take a slot of their own as the first
/// call left them: none is added, changed or removed.
pub proof fn law_reclaim_twice(db: DatabaseView, owner: Identity)
    requires
        database_wf(db),
    ensures
        exclusive_entries(
            reclaim_state(reclaim_state(db, owner), owner).inventory.entries,
            db.items,
        ) == exclusive_entries(reclaim_state(db, owner).inventory.entries, db.items),
{
    let records = db.ownership.records;
    let first = reclaim_prefix(db.inventory, db.items, owner, records, records.len());
    if first is Ok {
        let once = first->Ok_0.0;
        lemma_reclaim_restores_exclusive(db.inventory, db.items, owner, records, records.len());
        let second = reclaim_prefix(once, db.items, owner, records, records.len());
        if second is Ok {
            lemma_reclaim_keeps_exclusive(once, db.items, owner, records, records.len());
            lemma_exclusive_entries_kept(once.entries, second->Ok_0.0.entries, db.items);
        }
    }
}

/// Handing an item over keeps the state well-formed.
proof fn lemma_delivered_wf(
    db: DatabaseView,
    ctx: ReducerContext,
    payer: Identity,
    receiver: Identity,
    item_id: Seq<char>,
    price: u32,
    kind: Seq<char>,
    reference: Seq<char>,
    receipt: Seq<char>,
    gifted_by: Option<Identity>,
)
    requires
        database_wf(db),
    ensures
        database_wf(
            delivered(
                db,
                ctx,
                payer,
                receiver,
                item_id,
                price,
                kind,
                reference,
                receipt,
                gifted_by,
            ),
        ),
{
    crate::wallet::lemma_debit_wf(db.wallets, payer, price as u64);
    crate::ledger::lemma_append_wf(
        db.transactions,
        ctx.sender,
        item_id,
        price,
        kind,
        ctx.timestamp,
        receipt,
    );
    crate::ownership::lemma_record_wf(
        db.ownership,
        receiver,
        item_id,
        ctx.timestamp,
        reference,
        gifted_by,
    );
    lemma_add_stack_wf(db.inventory, db.items, receiver, item_id, 1);
}

/// The state stays well-formed. Each operation on items and on premium
/// currency takes a well-formed state to a well-formed state, whatever its
/// arguments and whether it succeeds or fails: so slots stay unshared,
/// quantities stay within their limits and keys stay distinct at all times.
pub proof fn law_state_stays_well_formed(
    db: DatabaseView,
    ctx: ReducerContext,
    other: Identity,
    item_id: Seq<char>,
    text: Seq<char>,
    amount: u64,
    quantity: u32,
    entry_id: u64,
    slot: u32,
    world_item_id: u64,
    authorized: bool,
)
    requires
        database_wf(db),
    ensures
        database_wf(add_item_state(db, ctx, item_id, quantity)),
        database_wf(remove_item_state(db, ctx, entry_id, quantity)),
        database_wf(move_item_state(db, ctx, entry_id, slot)),
        database_wf(consume_state(db, ctx, entry_id)),
        database_wf(collect_state(db, ctx, world_item_id)),
        database_wf(top_up_state(db, ctx, amount, text)),
        database_wf(purchase_state(db, ctx, item_id)),
        database_wf(gift_state(db, ctx, item_id, other)),
        database_wf(grant_state(db, ctx, other, item_id, text, authorized)),
        database_wf(reclaim_state(db, ctx.sender)),
{
    lemma_add_stack_wf(db.inventory, db.items, ctx.sender, item_id, quantity);
    crate::inventory::lemma_remove_wf(db.inventory, db.items, entry_id, quantity, ctx.sender);
    crate::inventory::lemma_move_slot_wf(db.inventory, db.items, entry_id, slot, ctx.sender);
    crate::inventory::lemma_remove_wf(db.inventory, db.items, entry_id, 1, ctx.sender);
    assert(database_wf(collect_state(db, ctx, world_item_id))) by {
        crate::world::lemma_pick_up_wf(db.world_items, world_item_id);
        if crate::world::pick_up_result(db.world_items, world_item_id) is Ok {
            let item = db.world_items.items[crate::world::world_item_index(
                db.world_items.items,
                world_item_id,
            )];
            lemma_add_stack_wf(db.inventory, db.items, ctx.sender, item.item_id, item.quantity);
        }
    }
    assert(database_wf(top_up_state(db, ctx, amount, text))) by {
        crate::wallet::lemma_credit_wf(db.wallets, ctx.sender, amount, ctx.timestamp);
        crate::ledger::lemma_append_wf(
            db.transactions,
            ctx.sender,
            crate::ledger::currency_item(),
            0,
            crate::ledger::kind_currency_add(),
            ctx.timestamp,
            text,
        );
    }
    assert(database_wf(purchase_state(db, ctx, item_id))) by {
        if purchase_result(db, ctx.sender, item_id) is Ok {
            lemma_delivered_wf(
                db,
                ctx,
                ctx.sender,
                ctx.sender,
                item_id,
                definition_of(db.items, item_id)->0.premium_currency_price,
                crate::ledger::kind_purchase(),
                crate::identity::reference_text("tx"@, ctx),
                crate::identity::reference_text("tx"@, ctx),
                None,
            );
        }
    }
    assert(database_wf(gift_state(db, ctx, item_id, other))) by {
        if gift_result(db, ctx.sender, item_id, other) is Ok {
            lemma_delivered_wf(
                db,
                ctx,
                ctx.sender,
                other,
                item_id,
                definition_of(db.items, item_id)->0.premium_currency_price,
                crate::ledger::kind_gift(),
                crate::identity::reference_text("gift"@, ctx),
                crate::identity::reference_text("gift"@, ctx),
                Some(ctx.sender),
            );
        }
    }
    assert(database_wf(grant_state(db, ctx, other, item_id, text, authorized))) by {
        if grant_result(db, other, item_id, authorized) is Ok {
            lemma_delivered_wf(
                db,
                ctx,
                ctx.sender,
                other,
                item_id,
                0,
                crate::ledger::kind_grant(),
                crate::identity::reference_text("grant"@, ctx),
                crate::economy::grant_receipt(crate::identity::reference_text("grant"@, ctx), text),
                None,
            );
        }
    }
    lemma_reclaim_wf(
        db.inventory,
        db.items,
        ctx.sender,
        db.ownership.records,
        db.ownership.records.len(),
    );
}

/// A purchase happens as a whole or not at all. Where a purchase succeeds,
/// the buyer's balance is lower by the price, the log has one record more,
/// of the purchase, and the registry has one record more, which names the
/// buyer as owner and nobody as giver. Where it fails, the state is as it
/// was.
pub proof fn law_purchase_is_whole(db: DatabaseView, ctx: ReducerContext, item_id: Seq<char>)
    requires
        database_wf(db),
    ensures
        purchase_result(db, ctx.sender, item_id) is Err ==> purchase_state(db, ctx, item_id) == db,
        purchase_result(db, ctx.sender, item_id) is Ok ==> {
            let after = purchase_state(db, ctx, item_id);
            let price = definition_of(db.items, item_id)->0.premium_currency_price;
            &&& balance_of(after.wallets, ctx.sender) == balance_of(db.wallets, ctx.sender) - price
            &&& after.transactions.records == db.transactions.records.push(
                crate::ledger::new_transaction(
                    db.transactions,
                    ctx.sender,
                    item_id,
                    price,
                    crate::ledger::kind_purchase(),
                    ctx.timestamp,
                    crate::identity::reference_text("tx"@, ctx),
                ),
            )
            &&& after.ownership.records == db.ownership.records.push(
                new_record(
                    db.ownership,
                    ctx.sender,
                    item_id,
                    ctx.timestamp,
                    crate::identity::reference_text("tx"@, ctx),
                    None,
                ),
            )
            &&& has_stack(after.inventory.entries, ctx.sender, item_id)
        },
{
    if purchase_result(db, ctx.sender, item_id) is Ok {
        let price = definition_of(db.items, item_id)->0.premium_currency_price;
        assert(has_wallet(db.wallets, ctx.sender));
        let k = wallet_index(db.wallets, ctx.sender);
        lemma_wallet_update(
            db.wallets,
            k,
            crate::wallet::PlayerWallet {
                premium_currency: (db.wallets[k].premium_currency - price) as u64,
                ..db.wallets[k]
            },
        );
        lemma_add_stack_gives_stack(db.inventory, db.items, ctx.sender, item_id, 1);
    }
}

/// An exclusive item is acquired once by purchase or gift. Where the
/// purchase or the gift of an exclusive item succeeds, its new owner had not
/// acquired the item before.
pub proof fn law_exclusive_is_acquired_once(
    db: DatabaseView,
    ctx: ReducerContext,
    item_id: Seq<char>,
    recipient: Identity,
)
    requires
        database_wf(db),
        definition_of(db.items, item_id) is Some,
        definition_of(db.items, item_id)->0.is_exclusive,
    ensures
        purchase_result(db, ctx.sender, item_id) is Ok ==> !has_owned(
            db.ownership.records,
            ctx.sender,
            item_id,
        ),
        gift_result(db, ctx.sender, item_id, recipient) is Ok ==> !has_owned(
            db.ownership.records,
            recipient,
            item_id,
        ),
{
}

/// What the entry with the id `entry_id` holds, and nothing where there is
/// no such entry.
pub open spec fn quantity_of(entries: Seq<InventoryItemView>, entry_id: u64) -> nat {
    if has_entry(entries, entry_id) {
        entries[entry_index(entries, entry_id)].quantity as nat
    } else {
        0
    }
}

/// Added units are counted up to the limit. Where `add_stack` succeeds, for
/// an item that stacks or for one that does not, the entry that it names
/// belongs to the owner, holds the item, and holds what it held before plus
/// the added quantity, or the item's limit where that lies beyond it.
pub proof fn law_added_units_are_capped(
    inventory: InventoryView,
    items: Seq<ItemDefinitionView>,
    owner: Identity,
    item_id: Seq<char>,
    quantity: u32,
)
    requires
        catalog_wf(items),
        inventory_wf(inventory, items),
        add_stack_result(inventory, items, owner, item_id, quantity) is Ok,
    ensures
        ({
            let entry_id = add_stack_result(inventory, items, owner, item_id, quantity)->Ok_0;
            let after = add_stack_state(inventory, items, owner, item_id, quantity).entries;
            &&& has_entry(after, entry_id)
            &&& holds(after[entry_index(after, entry_id)], owner, item_id)
            &&& quantity_of(after, entry_id) == capped(
                quantity_of(inventory.entries, entry_id) + quantity,
                definition_of(items, item_id)->0.max_stack,
            )
        }),
{
    let entry_id = add_stack_result(inventory, items, owner, item_id, quantity)->Ok_0;
    let after = add_stack_state(inventory, items, owner, item_id, quantity);
    let entries = inventory.entries;
    lemma_add_stack_wf(inventory, items, owner, item_id, quantity);
    if merges(inventory, items, owner, item_id) {
        let k = stack_index(entries, owner, item_id);
        assert(0 <= k < entries.len() && holds(entries[k], owner, item_id));
        assert(crate::inventory::entry_wf(entries[k], items));
        lemma_entry_unique(inventory, items, k);
        lemma_entry_unique(after, items, k);
    } else {
        let last = entries.len() as int;
        lemma_entry_unique(after, items, last);
        if has_entry(entries, entry_id) {
            let c = entry_index(entries, entry_id);
            assert(entries[c].entry_id < inventory.next_entry_id);
        }
    }
}

/// Moving loses nothing. After `move_slot`, whether it succeeds or fails,
/// the inventory has the entries it had, each with its id, owner, item and
/// quantity: only slots have changed.
pub proof fn law_move_keeps_items(
    inventory: InventoryView,
    entry_id: u64,
    new_slot: u32,
    owner: Identity,
)
    ensures
        move_slot_state(inventory, entry_id, new_slot, owner).next_entry_id
            == inventory.next_entry_id,
        move_slot_state(inventory, entry_id, new_slot, owner).entries.len()
            == inventory.entries.len(),
        forall|i: int|
            0 <= i < inventory.entries.len() ==> (#[trigger] move_slot_state(
                inventory,
                entry_id,
                new_slot,
                owner,
            ).entries[i]).in_slot(inventory.entries[i].slot_index) == inventory.entries[i],
{
}

} // verus!
