use eonserver::{
    add_item_to_inventory, init, move_inventory_item, remove_item_from_inventory, Database, Error,
    Identity, InventoryItem, ReducerContext, Timestamp, SLOT_COUNT,
};

fn player(n: u128) -> ReducerContext {
    ReducerContext {
        sender: Identity { hi: 0, lo: n },
        timestamp: Timestamp { micros_since_unix_epoch: 1_000 },
    }
}

fn seeded() -> Database {
    let mut db = Database::new();
    init(&mut db);
    db
}

fn entries_of(db: &Database, ctx: &ReducerContext) -> Vec<(u64, String, u32, u32)> {
    db.inventory()
        .entries()
        .iter()
        .filter(|e| e.owner_identity == ctx.sender)
        .map(|e| (e.entry_id, e.item_id.clone(), e.quantity, e.slot_index))
        .collect()
}

fn entry(db: &Database, entry_id: u64) -> InventoryItem {
    db.inventory().get(entry_id).unwrap().clone()
}

#[test]
fn seven_and_seven_potions_make_one_stack_of_ten() {
    let mut db = seeded();
    let p = player(1);
    let first = add_item_to_inventory(&mut db, &p, "health_potion".to_string(), 7);
    let second = add_item_to_inventory(&mut db, &p, "health_potion".to_string(), 7);
    assert_eq!(first, Ok(1));
    assert_eq!(second, Ok(1));
    assert_eq!(entries_of(&db, &p), vec![(1, "health_potion".to_string(), 10, 0)]);
}

#[test]
fn stack_grows_by_the_sum_below_the_limit() {
    let mut db = seeded();
    let p = player(1);
    add_item_to_inventory(&mut db, &p, "gold_coin".to_string(), 100).unwrap();
    add_item_to_inventory(&mut db, &p, "gold_coin".to_string(), 250).unwrap();
    add_item_to_inventory(&mut db, &p, "gold_coin".to_string(), 1).unwrap();
    assert_eq!(entries_of(&db, &p), vec![(1, "gold_coin".to_string(), 351, 0)]);
}

#[test]
fn a_sequence_of_additions_ends_at_the_smaller_of_sum_and_limit() {
    let quantities = [3u32, 1, 4, 1, 5, 9, 2, 6];
    let mut db = seeded();
    let p = player(1);
    let mut sum = 0u32;
    for q in quantities {
        add_item_to_inventory(&mut db, &p, "elixir_of_power".to_string(), q).unwrap();
        sum += q;
        let held = entries_of(&db, &p);
        assert_eq!(held.len(), 1);
        assert_eq!(held[0].2, sum.min(5));
    }
}

#[test]
fn a_first_addition_beyond_the_limit_is_cut_to_the_limit() {
    let mut db = seeded();
    let p = player(1);
    add_item_to_inventory(&mut db, &p, "health_potion".to_string(), 4_000_000_000).unwrap();
    assert_eq!(entries_of(&db, &p), vec![(1, "health_potion".to_string(), 10, 0)]);
    add_item_to_inventory(&mut db, &p, "health_potion".to_string(), u32::MAX).unwrap();
    assert_eq!(entries_of(&db, &p), vec![(1, "health_potion".to_string(), 10, 0)]);
}

#[test]
fn stacks_of_different_owners_are_apart() {
    let mut db = seeded();
    let a = player(1);
    let b = player(2);
    assert_eq!(add_item_to_inventory(&mut db, &a, "health_potion".to_string(), 3), Ok(1));
    assert_eq!(add_item_to_inventory(&mut db, &b, "health_potion".to_string(), 4), Ok(2));
    assert_eq!(add_item_to_inventory(&mut db, &a, "health_potion".to_string(), 3), Ok(1));
    assert_eq!(entries_of(&db, &a), vec![(1, "health_potion".to_string(), 6, 0)]);
    assert_eq!(entries_of(&db, &b), vec![(2, "health_potion".to_string(), 4, 0)]);
}

#[test]
fn items_that_do_not_stack_take_a_slot_each() {
    let mut db = seeded();
    let p = player(1);
    assert_eq!(add_item_to_inventory(&mut db, &p, "iron_sword".to_string(), 1), Ok(1));
    assert_eq!(add_item_to_inventory(&mut db, &p, "iron_sword".to_string(), 5), Ok(2));
    assert_eq!(
        entries_of(&db, &p),
        vec![(1, "iron_sword".to_string(), 1, 0), (2, "iron_sword".to_string(), 1, 1)]
    );
}

#[test]
fn an_unknown_item_is_refused() {
    let mut db = seeded();
    let p = player(1);
    assert_eq!(
        add_item_to_inventory(&mut db, &p, "excalibur".to_string(), 1),
        Err(Error::UnknownItem)
    );
    assert!(db.inventory().entries().is_empty());
}

#[test]
fn a_quantity_of_zero_is_refused() {
    let mut db = seeded();
    let p = player(1);
    assert_eq!(
        add_item_to_inventory(&mut db, &p, "health_potion".to_string(), 0),
        Err(Error::InvalidQuantity)
    );
    assert!(db.inventory().entries().is_empty());
}

#[test]
fn an_unknown_item_is_reported_before_a_quantity_of_zero() {
    let mut db = seeded();
    let p = player(1);
    assert_eq!(
        add_item_to_inventory(&mut db, &p, "excalibur".to_string(), 0),
        Err(Error::UnknownItem)
    );
}

#[test]
fn the_hundred_and_first_entry_finds_the_inventory_full() {
    let mut db = seeded();
    let p = player(1);
    for slot in 0..SLOT_COUNT {
        let id = add_item_to_inventory(&mut db, &p, "iron_sword".to_string(), 1).unwrap();
        assert_eq!(entry(&db, id).slot_index, slot);
    }
    assert_eq!(
        add_item_to_inventory(&mut db, &p, "iron_sword".to_string(), 1),
        Err(Error::InventoryFull)
    );
    assert_eq!(entries_of(&db, &p).len(), 100);
    assert_eq!(
        add_item_to_inventory(&mut db, &p, "health_potion".to_string(), 1),
        Err(Error::InventoryFull)
    );
    let other = player(2);
    assert!(add_item_to_inventory(&mut db, &other, "iron_sword".to_string(), 1).is_ok());
}

#[test]
fn a_full_inventory_still_takes_units_for_a_stack_it_has() {
    let mut db = seeded();
    let p = player(1);
    add_item_to_inventory(&mut db, &p, "health_potion".to_string(), 1).unwrap();
    for _ in 1..SLOT_COUNT {
        add_item_to_inventory(&mut db, &p, "iron_sword".to_string(), 1).unwrap();
    }
    assert_eq!(add_item_to_inventory(&mut db, &p, "health_potion".to_string(), 2), Ok(1));
    assert_eq!(entry(&db, 1).quantity, 3);
}

#[test]
fn a_new_entry_takes_the_lowest_free_slot() {
    let mut db = seeded();
    let p = player(1);
    for _ in 0..4 {
        add_item_to_inventory(&mut db, &p, "iron_sword".to_string(), 1).unwrap();
    }
    remove_item_from_inventory(&mut db, &p, 2, 1).unwrap();
    remove_item_from_inventory(&mut db, &p, 3, 1).unwrap();
    let id = add_item_to_inventory(&mut db, &p, "wooden_shield".to_string(), 1).unwrap();
    assert_eq!(id, 5);
    assert_eq!(entry(&db, id).slot_index, 1);
    let id = add_item_to_inventory(&mut db, &p, "wooden_shield".to_string(), 1).unwrap();
    assert_eq!(entry(&db, id).slot_index, 2);
    let id = add_item_to_inventory(&mut db, &p, "wooden_shield".to_string(), 1).unwrap();
    assert_eq!(entry(&db, id).slot_index, 4);
}

#[test]
fn slots_of_one_owner_are_pairwise_distinct_after_mixed_operations() {
    let mut db = seeded();
    let a = player(1);
    let b = player(2);
    let items = ["iron_sword", "health_potion", "wooden_shield", "gold_coin", "iron_sword"];
    for round in 0..6u32 {
        for item in items {
            add_item_to_inventory(&mut db, &a, item.to_string(), round + 1).unwrap();
            add_item_to_inventory(&mut db, &b, item.to_string(), 2).unwrap();
        }
        let _ = remove_item_from_inventory(&mut db, &a, u64::from(round) * 3 + 1, 1);
        let _ = move_inventory_item(&mut db, &a, u64::from(round) + 2, round * 7);
        let _ = move_inventory_item(&mut db, &b, u64::from(round) + 2, 99 - round);
    }
    let rows = db.inventory().entries();
    for i in 0..rows.len() {
        assert!(rows[i].slot_index < SLOT_COUNT);
        for j in 0..i {
            assert_ne!(rows[i].entry_id, rows[j].entry_id);
            if rows[i].owner_identity == rows[j].owner_identity {
                assert_ne!(rows[i].slot_index, rows[j].slot_index);
            }
        }
    }
}

#[test]
fn removing_part_of_a_stack_leaves_the_rest() {
    let mut db = seeded();
    let p = player(1);
    add_item_to_inventory(&mut db, &p, "health_potion".to_string(), 7).unwrap();
    assert_eq!(remove_item_from_inventory(&mut db, &p, 1, 3), Ok(()));
    assert_eq!(entries_of(&db, &p), vec![(1, "health_potion".to_string(), 4, 0)]);
}

#[test]
fn removing_all_of_a_stack_deletes_the_entry() {
    let mut db = seeded();
    let p = player(1);
    add_item_to_inventory(&mut db, &p, "health_potion".to_string(), 7).unwrap();
    add_item_to_inventory(&mut db, &p, "iron_sword".to_string(), 1).unwrap();
    assert_eq!(remove_item_from_inventory(&mut db, &p, 1, 7), Ok(()));
    assert_eq!(entries_of(&db, &p), vec![(2, "iron_sword".to_string(), 1, 1)]);
    assert!(db.inventory().get(1).is_none());
}

#[test]
fn removing_more_than_the_stack_holds_is_refused() {
    let mut db = seeded();
    let p = player(1);
    add_item_to_inventory(&mut db, &p, "health_potion".to_string(), 7).unwrap();
    assert_eq!(
        remove_item_from_inventory(&mut db, &p, 1, 8),
        Err(Error::InsufficientQuantity)
    );
    assert_eq!(entries_of(&db, &p), vec![(1, "health_potion".to_string(), 7, 0)]);
}

#[test]
fn removing_nothing_changes_nothing() {
    let mut db = seeded();
    let p = player(1);
    add_item_to_inventory(&mut db, &p, "health_potion".to_string(), 7).unwrap();
    assert_eq!(remove_item_from_inventory(&mut db, &p, 1, 0), Ok(()));
    assert_eq!(entries_of(&db, &p), vec![(1, "health_potion".to_string(), 7, 0)]);
}

#[test]
fn removing_from_another_players_entry_is_refused() {
    let mut db = seeded();
    let a = player(1);
    let b = player(2);
    add_item_to_inventory(&mut db, &a, "health_potion".to_string(), 7).unwrap();
    assert_eq!(remove_item_from_inventory(&mut db, &b, 1, 1), Err(Error::NotOwner));
    assert_eq!(remove_item_from_inventory(&mut db, &b, 1, 100), Err(Error::NotOwner));
    assert_eq!(entries_of(&db, &a), vec![(1, "health_potion".to_string(), 7, 0)]);
}

#[test]
fn removing_from_an_unknown_entry_is_refused() {
    let mut db = seeded();
    let p = player(1);
    assert_eq!(remove_item_from_inventory(&mut db, &p, 9, 1), Err(Error::UnknownEntry));
}

#[test]
fn entry_ids_are_not_used_again() {
    let mut db = seeded();
    let p = player(1);
    assert_eq!(add_item_to_inventory(&mut db, &p, "iron_sword".to_string(), 1), Ok(1));
    remove_item_from_inventory(&mut db, &p, 1, 1).unwrap();
    assert_eq!(add_item_to_inventory(&mut db, &p, "iron_sword".to_string(), 1), Ok(2));
    assert_eq!(db.inventory().next_entry_id(), 3);
}

#[test]
fn moving_to_a_free_slot_relocates_the_entry() {
    let mut db = seeded();
    let p = player(1);
    add_item_to_inventory(&mut db, &p, "iron_sword".to_string(), 1).unwrap();
    add_item_to_inventory(&mut db, &p, "health_potion".to_string(), 3).unwrap();
    assert_eq!(move_inventory_item(&mut db, &p, 1, 42), Ok(()));
    assert_eq!(
        entries_of(&db, &p),
        vec![(1, "iron_sword".to_string(), 1, 42), (2, "health_potion".to_string(), 3, 1)]
    );
}

#[test]
fn moving_to_a_taken_slot_swaps_the_two_entries() {
    let mut db = seeded();
    let p = player(1);
    add_item_to_inventory(&mut db, &p, "iron_sword".to_string(), 1).unwrap();
    add_item_to_inventory(&mut db, &p, "health_potion".to_string(), 3).unwrap();
    add_item_to_inventory(&mut db, &p, "gold_coin".to_string(), 9).unwrap();
    assert_eq!(move_inventory_item(&mut db, &p, 3, 0), Ok(()));
    assert_eq!(
        entries_of(&db, &p),
        vec![
            (1, "iron_sword".to_string(), 1, 2),
            (2, "health_potion".to_string(), 3, 1),
            (3, "gold_coin".to_string(), 9, 0),
        ]
    );
}

#[test]
fn moving_to_its_own_slot_changes_nothing() {
    let mut db = seeded();
    let p = player(1);
    add_item_to_inventory(&mut db, &p, "iron_sword".to_string(), 1).unwrap();
    add_item_to_inventory(&mut db, &p, "health_potion".to_string(), 3).unwrap();
    assert_eq!(move_inventory_item(&mut db, &p, 2, 1), Ok(()));
    assert_eq!(
        entries_of(&db, &p),
        vec![(1, "iron_sword".to_string(), 1, 0), (2, "health_potion".to_string(), 3, 1)]
    );
}

#[test]
fn a_slot_taken_by_another_owner_counts_as_free() {
    let mut db = seeded();
    let a = player(1);
    let b = player(2);
    add_item_to_inventory(&mut db, &a, "iron_sword".to_string(), 1).unwrap();
    add_item_to_inventory(&mut db, &a, "iron_sword".to_string(), 1).unwrap();
    add_item_to_inventory(&mut db, &b, "iron_sword".to_string(), 1).unwrap();
    assert_eq!(move_inventory_item(&mut db, &b, 3, 1), Ok(()));
    assert_eq!(entry(&db, 2).slot_index, 1);
    assert_eq!(entry(&db, 3).slot_index, 1);
}

#[test]
fn moving_beyond_the_last_slot_is_refused() {
    let mut db = seeded();
    let p = player(1);
    add_item_to_inventory(&mut db, &p, "iron_sword".to_string(), 1).unwrap();
    assert_eq!(move_inventory_item(&mut db, &p, 1, 99), Ok(()));
    assert_eq!(move_inventory_item(&mut db, &p, 1, 100), Err(Error::InvalidSlot));
    assert_eq!(move_inventory_item(&mut db, &p, 1, u32::MAX), Err(Error::InvalidSlot));
    assert_eq!(entry(&db, 1).slot_index, 99);
}

#[test]
fn moving_another_players_entry_is_refused() {
    let mut db = seeded();
    let a = player(1);
    let b = player(2);
    add_item_to_inventory(&mut db, &a, "iron_sword".to_string(), 1).unwrap();
    assert_eq!(move_inventory_item(&mut db, &b, 1, 5), Err(Error::NotOwner));
    assert_eq!(move_inventory_item(&mut db, &b, 1, 500), Err(Error::NotOwner));
    assert_eq!(entry(&db, 1).slot_index, 0);
}

#[test]
fn moving_an_unknown_entry_is_refused() {
    let mut db = seeded();
    let p = player(1);
    assert_eq!(move_inventory_item(&mut db, &p, 7, 5), Err(Error::UnknownEntry));
}

#[test]
fn contains_tells_whether_the_owner_holds_the_item() {
    let mut db = seeded();
    let a = player(1);
    let b = player(2);
    add_item_to_inventory(&mut db, &a, "iron_sword".to_string(), 1).unwrap();
    assert!(db.inventory().contains(a.sender, "iron_sword"));
    assert!(!db.inventory().contains(b.sender, "iron_sword"));
    assert!(!db.inventory().contains(a.sender, "wooden_shield"));
}

#[test]
fn a_snapshot_is_a_copy() {
    let mut db = seeded();
    let p = player(1);
    add_item_to_inventory(&mut db, &p, "iron_sword".to_string(), 1).unwrap();
    add_item_to_inventory(&mut db, &p, "gold_coin".to_string(), 12).unwrap();
    let copy = db.inventory().snapshot();
    assert_eq!(copy.next_entry_id(), 3);
    let rows: Vec<(u64, String, u32, u32)> = copy
        .entries()
        .iter()
        .map(|e| (e.entry_id, e.item_id.clone(), e.quantity, e.slot_index))
        .collect();
    assert_eq!(rows, entries_of(&db, &p));
}
