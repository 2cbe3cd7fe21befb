use eonserver::{
    Catalog, Error, Identity, InstanceTable, Inventory, OwnershipRegistry, PlayerTable,
    Timestamp, TransactionLog, WorldItemTable, InteractableTable,
};

fn id(n: u128) -> Identity {
    Identity { hi: 0, lo: n }
}

fn at(micros: i64) -> Timestamp {
    Timestamp { micros_since_unix_epoch: micros }
}

fn seeded() -> Catalog {
    let mut catalog = Catalog::new();
    catalog.load_seed();
    catalog
}

#[test]
fn new_stores_are_empty_and_count_from_one() {
    assert!(Inventory::new().entries().is_empty());
    assert_eq!(Inventory::new().next_entry_id(), 1);
    assert!(OwnershipRegistry::new().records().is_empty());
    assert_eq!(OwnershipRegistry::new().next_ownership_id(), 1);
    assert!(TransactionLog::new().records().is_empty());
    assert_eq!(TransactionLog::new().next_transaction_id(), 1);
    assert!(InstanceTable::new().instances().is_empty());
    assert_eq!(InstanceTable::new().next_instance_id(), 1);
    assert!(PlayerTable::new().players().is_empty());
    assert!(WorldItemTable::new().items().is_empty());
    assert!(InteractableTable::new().states().is_empty());
}

#[test]
fn add_stack_merges_and_caps() {
    let catalog = seeded();
    let mut inventory = Inventory::new();
    assert_eq!(inventory.add_stack(&catalog, id(1), "scroll_of_resurrection".to_string(), 2), Ok(1));
    assert_eq!(inventory.add_stack(&catalog, id(1), "scroll_of_resurrection".to_string(), 2), Ok(1));
    let rows = inventory.entries();
    assert_eq!(rows.len(), 1);
    assert_eq!(rows[0].quantity, 3);
    assert_eq!(rows[0].slot_index, 0);
    assert_eq!(rows[0].owner_identity, id(1));
}

#[test]
fn add_stack_reports_why_it_fails() {
    let catalog = seeded();
    let mut inventory = Inventory::new();
    assert_eq!(
        inventory.add_stack(&catalog, id(1), "excalibur".to_string(), 2),
        Err(Error::UnknownItem)
    );
    assert_eq!(
        inventory.add_stack(&catalog, id(1), "gold_coin".to_string(), 0),
        Err(Error::InvalidQuantity)
    );
    assert!(inventory.entries().is_empty());
    assert_eq!(inventory.next_entry_id(), 1);
}

#[test]
fn remove_and_move_work_on_the_store() {
    let catalog = seeded();
    let mut inventory = Inventory::new();
    inventory.add_stack(&catalog, id(1), "gold_coin".to_string(), 20).unwrap();
    inventory.add_stack(&catalog, id(1), "iron_sword".to_string(), 1).unwrap();
    assert_eq!(inventory.move_slot(1, 1, id(1)), Ok(()));
    assert_eq!(inventory.get(1).unwrap().slot_index, 1);
    assert_eq!(inventory.get(2).unwrap().slot_index, 0);
    assert_eq!(inventory.remove(1, 5, id(1)), Ok(()));
    assert_eq!(inventory.get(1).unwrap().quantity, 15);
    assert_eq!(inventory.remove(1, 16, id(1)), Err(Error::InsufficientQuantity));
    assert_eq!(inventory.remove(1, 15, id(2)), Err(Error::NotOwner));
    assert_eq!(inventory.remove(1, 15, id(1)), Ok(()));
    assert!(inventory.get(1).is_none());
    assert_eq!(inventory.move_slot(1, 3, id(1)), Err(Error::UnknownEntry));
}

#[test]
fn the_registry_records_in_order_and_forgets_nothing() {
    let mut registry = OwnershipRegistry::new();
    assert_eq!(
        registry.record(id(1), "celestial_blade".to_string(), at(5), "tx_a".to_string(), None),
        Ok(1)
    );
    assert_eq!(
        registry.record(id(2), "celestial_blade".to_string(), at(6), "gift_b".to_string(), Some(id(1))),
        Ok(2)
    );
    let rows = registry.records();
    assert_eq!(rows.len(), 2);
    assert_eq!(rows[0].ownership_id, 1);
    assert_eq!(rows[0].owner_identity, id(1));
    assert_eq!(rows[0].item_id, "celestial_blade");
    assert_eq!(rows[0].acquired_at, at(5));
    assert_eq!(rows[0].transaction_id, "tx_a");
    assert!(!rows[0].is_gift);
    assert_eq!(rows[0].gifted_by, None);
    assert_eq!(rows[1].ownership_id, 2);
    assert!(rows[1].is_gift);
    assert_eq!(rows[1].gifted_by, Some(id(1)));
    assert!(registry.has_owned(id(1), "celestial_blade"));
    assert!(registry.has_owned(id(2), "celestial_blade"));
    assert!(!registry.has_owned(id(3), "celestial_blade"));
    assert!(!registry.has_owned(id(1), "celestial"));
}

#[test]
fn the_log_appends_in_order() {
    let mut log = TransactionLog::new();
    assert_eq!(
        log.append(id(1), "ring".to_string(), 2000, "purchase".to_string(), at(1), "tx_1".to_string()),
        Ok(1)
    );
    assert_eq!(
        log.append(id(2), "currency_purchase".to_string(), 0, "currency_add".to_string(), at(2), "r".to_string()),
        Ok(2)
    );
    let rows = log.records();
    assert_eq!(rows.len(), 2);
    assert_eq!(rows[0].transaction_id, 1);
    assert_eq!(rows[0].buyer_identity, id(1));
    assert_eq!(rows[0].item_id, "ring");
    assert_eq!(rows[0].currency_spent, 2000);
    assert_eq!(rows[0].transaction_type, "purchase");
    assert_eq!(rows[0].timestamp, at(1));
    assert_eq!(rows[0].receipt_id, "tx_1");
    assert_eq!(rows[1].transaction_id, 2);
    assert_eq!(log.next_transaction_id(), 3);
}

#[test]
fn instances_are_created_and_deleted_by_their_owner() {
    let mut table = InstanceTable::new();
    assert_eq!(table.create("arena".to_string(), 8, true, at(1), id(1)), Ok(1));
    assert_eq!(table.create("cave".to_string(), 2, false, at(2), id(2)), Ok(2));
    assert_eq!(table.get(2).unwrap().name, "cave");
    assert_eq!(table.delete(2, id(1)), Err(Error::NotOwner));
    assert_eq!(table.delete(3, id(1)), Err(Error::UnknownInstance));
    assert_eq!(table.delete(1, id(1)), Ok(()));
    assert!(table.get(1).is_none());
    assert_eq!(table.instances().len(), 1);
}
