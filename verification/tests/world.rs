use eonserver::{
    add_item_to_inventory, collect_world_item, init, toggle_interactable, use_consumable,
    ConsumableEffect, Database, Error, Identity, InteractableState, ReducerContext, Timestamp,
    WorldItem, register_player,
};

fn id(n: u128) -> Identity {
    Identity { hi: 0, lo: n }
}

fn call(n: u128, micros: i64) -> ReducerContext {
    ReducerContext { sender: id(n), timestamp: Timestamp { micros_since_unix_epoch: micros } }
}

fn seeded() -> Database {
    let mut db = Database::new();
    init(&mut db);
    db
}

fn lying(world_item_id: u64, item_id: &str, quantity: u32) -> WorldItem {
    WorldItem {
        world_item_id,
        instance_id: 1,
        item_id: item_id.to_string(),
        quantity,
        position_x: 1.0f32.to_bits(),
        position_y: 2.0f32.to_bits(),
        position_z: 3.0f32.to_bits(),
        is_collected: false,
    }
}

fn switch(interactable_id: &str, is_active: bool) -> InteractableState {
    InteractableState {
        interactable_id: interactable_id.to_string(),
        instance_id: 1,
        is_active,
        state_data: "{}".to_string(),
    }
}

fn inventory_of(db: &Database, owner: Identity) -> Vec<(u64, String, u32, u32)> {
    db.inventory()
        .entries()
        .iter()
        .filter(|e| e.owner_identity == owner)
        .map(|e| (e.entry_id, e.item_id.clone(), e.quantity, e.slot_index))
        .collect()
}

#[test]
fn a_collected_item_goes_to_the_inventory_and_is_marked() {
    let mut db = seeded();
    assert_eq!(db.insert_world_item(lying(5, "gold_coin", 30)), Ok(()));
    let p = call(1, 10);
    assert_eq!(collect_world_item(&mut db, &p, 5), Ok(1));
    assert_eq!(inventory_of(&db, p.sender), vec![(1, "gold_coin".to_string(), 30, 0)]);
    let item = db.world_items().get(5).unwrap();
    assert!(item.is_collected);
    assert_eq!(item.quantity, 30);
    assert_eq!(f32::from_bits(item.position_z), 3.0);
}

#[test]
fn a_collected_item_joins_the_stack_up_to_the_limit() {
    let mut db = seeded();
    let p = call(1, 10);
    add_item_to_inventory(&mut db, &p, "health_potion".to_string(), 8).unwrap();
    db.insert_world_item(lying(1, "health_potion", 5)).unwrap();
    assert_eq!(collect_world_item(&mut db, &p, 1), Ok(1));
    assert_eq!(inventory_of(&db, p.sender), vec![(1, "health_potion".to_string(), 10, 0)]);
}

#[test]
fn an_item_is_collected_once() {
    let mut db = seeded();
    db.insert_world_item(lying(1, "gold_coin", 30)).unwrap();
    collect_world_item(&mut db, &call(1, 10), 1).unwrap();
    assert_eq!(collect_world_item(&mut db, &call(2, 11), 1), Err(Error::AlreadyCollected));
    assert_eq!(collect_world_item(&mut db, &call(1, 12), 1), Err(Error::AlreadyCollected));
    assert!(inventory_of(&db, id(2)).is_empty());
    assert_eq!(inventory_of(&db, id(1)), vec![(1, "gold_coin".to_string(), 30, 0)]);
}

#[test]
fn collecting_an_unknown_world_item_is_refused() {
    let mut db = seeded();
    assert_eq!(collect_world_item(&mut db, &call(1, 10), 1), Err(Error::UnknownWorldItem));
}

#[test]
fn an_item_that_cannot_be_added_stays_in_the_world() {
    let mut db = seeded();
    db.insert_world_item(lying(1, "excalibur", 1)).unwrap();
    db.insert_world_item(lying(2, "gold_coin", 0)).unwrap();
    db.insert_world_item(lying(3, "wooden_shield", 1)).unwrap();
    let p = call(1, 10);
    assert_eq!(collect_world_item(&mut db, &p, 1), Err(Error::UnknownItem));
    assert_eq!(collect_world_item(&mut db, &p, 2), Err(Error::InvalidQuantity));
    for _ in 0..100 {
        add_item_to_inventory(&mut db, &p, "iron_sword".to_string(), 1).unwrap();
    }
    assert_eq!(collect_world_item(&mut db, &p, 3), Err(Error::InventoryFull));
    for world_item_id in 1..=3 {
        assert!(!db.world_items().get(world_item_id).unwrap().is_collected);
    }
    assert_eq!(inventory_of(&db, p.sender).len(), 100);
}

#[test]
fn world_items_keep_their_ids() {
    let mut db = seeded();
    assert_eq!(db.insert_world_item(lying(7, "gold_coin", 1)), Ok(()));
    assert_eq!(db.insert_world_item(lying(7, "iron_sword", 1)), Err(Error::AlreadyExists));
    assert_eq!(db.insert_world_item(lying(u64::MAX, "iron_sword", 1)), Err(Error::LimitReached));
    assert_eq!(db.insert_world_item(lying(2, "iron_sword", 1)), Ok(()));
    let ids: Vec<u64> = db.world_items().items().iter().map(|w| w.world_item_id).collect();
    assert_eq!(ids, vec![7, 2]);
    assert_eq!(db.world_items().get(7).unwrap().item_id, "gold_coin");
}

#[test]
fn a_switch_flips_each_time() {
    let mut db = seeded();
    assert_eq!(db.insert_interactable(switch("door", false)), Ok(()));
    assert_eq!(db.insert_interactable(switch("lever", true)), Ok(()));
    assert!(toggle_interactable(&mut db, "door".to_string()));
    let states = db.interactables().states();
    assert!(states[0].is_active);
    assert!(states[1].is_active);
    assert_eq!(states[0].state_data, "{}");
    assert!(toggle_interactable(&mut db, "door".to_string()));
    assert!(toggle_interactable(&mut db, "lever".to_string()));
    let states = db.interactables().states();
    assert!(!states[0].is_active);
    assert!(!states[1].is_active);
}

#[test]
fn an_unknown_switch_is_ignored() {
    let mut db = seeded();
    db.insert_interactable(switch("door", false)).unwrap();
    assert!(!toggle_interactable(&mut db, "gate".to_string()));
    assert!(!db.interactables().states()[0].is_active);
    assert_eq!(db.interactables().states().len(), 1);
}

#[test]
fn a_second_switch_with_a_taken_id_is_refused() {
    let mut db = seeded();
    db.insert_interactable(switch("door", false)).unwrap();
    assert_eq!(db.insert_interactable(switch("door", true)), Err(Error::AlreadyExists));
    assert!(!db.interactables().states()[0].is_active);
}

#[test]
fn a_health_potion_restores_fifty_points_to_a_player() {
    let mut db = seeded();
    let p = call(1, 10);
    register_player(&mut db, &p, "ann".to_string()).unwrap();
    add_item_to_inventory(&mut db, &p, "health_potion".to_string(), 2).unwrap();
    assert_eq!(use_consumable(&mut db, &p, 1), Ok(ConsumableEffect::RestoreHealth { points: 50 }));
    assert_eq!(inventory_of(&db, p.sender), vec![(1, "health_potion".to_string(), 1, 0)]);
    assert_eq!(use_consumable(&mut db, &p, 1), Ok(ConsumableEffect::RestoreHealth { points: 50 }));
    assert!(inventory_of(&db, p.sender).is_empty());
    assert_eq!(use_consumable(&mut db, &p, 1), Err(Error::UnknownEntry));
}

#[test]
fn a_health_potion_does_nothing_for_a_caller_without_a_player_record() {
    let mut db = seeded();
    let p = call(1, 10);
    add_item_to_inventory(&mut db, &p, "health_potion".to_string(), 2).unwrap();
    assert_eq!(use_consumable(&mut db, &p, 1), Ok(ConsumableEffect::Nothing));
    assert_eq!(inventory_of(&db, p.sender), vec![(1, "health_potion".to_string(), 1, 0)]);
}

#[test]
fn other_consumables_are_used_up_without_an_effect() {
    let mut db = seeded();
    let p = call(1, 10);
    register_player(&mut db, &p, "ann".to_string()).unwrap();
    add_item_to_inventory(&mut db, &p, "mana_potion".to_string(), 3).unwrap();
    assert_eq!(use_consumable(&mut db, &p, 1), Ok(ConsumableEffect::Nothing));
    assert_eq!(inventory_of(&db, p.sender), vec![(1, "mana_potion".to_string(), 2, 0)]);
}

#[test]
fn what_is_not_a_consumable_cannot_be_consumed() {
    let mut db = seeded();
    let p = call(1, 10);
    add_item_to_inventory(&mut db, &p, "iron_sword".to_string(), 1).unwrap();
    add_item_to_inventory(&mut db, &p, "gold_coin".to_string(), 5).unwrap();
    assert_eq!(use_consumable(&mut db, &p, 1), Err(Error::NotConsumable));
    assert_eq!(use_consumable(&mut db, &p, 2), Err(Error::NotConsumable));
    assert_eq!(inventory_of(&db, p.sender).len(), 2);
}

#[test]
fn another_players_consumable_cannot_be_consumed() {
    let mut db = seeded();
    add_item_to_inventory(&mut db, &call(1, 10), "health_potion".to_string(), 2).unwrap();
    assert_eq!(use_consumable(&mut db, &call(2, 11), 1), Err(Error::NotOwner));
    assert_eq!(inventory_of(&db, id(1)), vec![(1, "health_potion".to_string(), 2, 0)]);
}
