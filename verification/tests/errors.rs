use eonserver::seed::define;
use eonserver::{
    init, Database, Error, ErrorKind, Identity, InventoryItem, OwnershipRegistry,
    PremiumOwnership, PremiumTransaction, Timestamp, TransactionLog,
};

fn id(n: u128) -> Identity {
    Identity { hi: 0, lo: n }
}

fn at(micros: i64) -> Timestamp {
    Timestamp { micros_since_unix_epoch: micros }
}

fn entry(entry_id: u64, owner: u128, item_id: &str, quantity: u32, slot_index: u32) -> InventoryItem {
    InventoryItem { entry_id, owner_identity: id(owner), item_id: item_id.to_string(), quantity, slot_index }
}

fn owned(ownership_id: u64) -> PremiumOwnership {
    PremiumOwnership {
        ownership_id,
        owner_identity: id(1),
        item_id: "celestial_blade".to_string(),
        acquired_at: at(1),
        transaction_id: "tx".to_string(),
        is_gift: false,
        gifted_by: None,
    }
}

fn logged(transaction_id: u64) -> PremiumTransaction {
    PremiumTransaction {
        transaction_id,
        buyer_identity: id(1),
        item_id: "celestial_blade".to_string(),
        currency_spent: 1500,
        transaction_type: "purchase".to_string(),
        timestamp: at(1),
        receipt_id: "tx".to_string(),
    }
}

#[test]
fn every_error_belongs_to_a_family() {
    let families = [
        (Error::UnknownItem, ErrorKind::NotFound),
        (Error::UnknownEntry, ErrorKind::NotFound),
        (Error::UnknownInstance, ErrorKind::NotFound),
        (Error::UnknownPlayer, ErrorKind::NotFound),
        (Error::UnknownRecipient, ErrorKind::NotFound),
        (Error::UnknownWorldItem, ErrorKind::NotFound),
        (Error::NotOwner, ErrorKind::Unauthorized),
        (Error::NotAuthorized, ErrorKind::Unauthorized),
        (Error::InvalidQuantity, ErrorKind::InvalidArgument),
        (Error::InvalidSlot, ErrorKind::InvalidArgument),
        (Error::SelfGift, ErrorKind::InvalidArgument),
        (Error::NotForSale, ErrorKind::InvalidArgument),
        (Error::NotPremium, ErrorKind::InvalidArgument),
        (Error::NotConsumable, ErrorKind::InvalidArgument),
        (Error::AlreadyExists, ErrorKind::Conflict),
        (Error::AlreadyCollected, ErrorKind::Conflict),
        (Error::InstanceFull, ErrorKind::Conflict),
        (Error::AlreadyOwned, ErrorKind::AlreadyOwned),
        (Error::InsufficientFunds, ErrorKind::InsufficientFunds),
        (Error::InsufficientQuantity, ErrorKind::InsufficientQuantity),
        (Error::InventoryFull, ErrorKind::InventoryFull),
        (Error::LimitReached, ErrorKind::LimitReached),
    ];
    for (error, kind) in families {
        assert_eq!(error.kind(), kind);
    }
}

#[test]
fn saved_entries_are_taken_in_where_they_fit() {
    let mut db = Database::new();
    init(&mut db);
    assert_eq!(db.insert_inventory_item(entry(10, 1, "health_potion", 4, 3)), Ok(()));
    assert_eq!(db.insert_inventory_item(entry(4, 1, "iron_sword", 1, 0)), Ok(()));
    assert_eq!(db.insert_inventory_item(entry(5, 1, "iron_sword", 1, 1)), Ok(()));
    assert_eq!(db.insert_inventory_item(entry(6, 2, "health_potion", 10, 3)), Ok(()));
    assert_eq!(db.inventory().next_entry_id(), 11);
    assert_eq!(db.inventory().entries().len(), 4);
}

#[test]
fn saved_entries_that_do_not_fit_are_refused() {
    let mut db = Database::new();
    init(&mut db);
    db.insert_inventory_item(entry(10, 1, "health_potion", 4, 3)).unwrap();
    let refused = [
        (entry(10, 2, "iron_sword", 1, 0), Error::AlreadyExists),
        (entry(u64::MAX, 2, "iron_sword", 1, 0), Error::LimitReached),
        (entry(11, 1, "excalibur", 1, 0), Error::UnknownItem),
        (entry(11, 1, "iron_sword", 0, 0), Error::InvalidQuantity),
        (entry(11, 1, "iron_sword", 2, 0), Error::InvalidQuantity),
        (entry(11, 1, "gold_coin", 1000, 0), Error::InvalidQuantity),
        (entry(11, 1, "iron_sword", 1, 100), Error::InvalidSlot),
        (entry(11, 1, "iron_sword", 1, 3), Error::InvalidSlot),
        (entry(11, 1, "health_potion", 1, 4), Error::AlreadyExists),
    ];
    for (row, error) in refused {
        assert_eq!(db.insert_inventory_item(row), Err(error));
    }
    assert_eq!(db.inventory().entries().len(), 1);
    assert_eq!(db.inventory().next_entry_id(), 11);
}

#[test]
fn saved_records_are_taken_in_with_their_ids() {
    let mut db = Database::new();
    assert_eq!(db.insert_ownership(owned(8)), Ok(()));
    assert_eq!(db.insert_ownership(owned(8)), Err(Error::AlreadyExists));
    assert_eq!(db.insert_ownership(owned(u64::MAX)), Err(Error::LimitReached));
    assert_eq!(db.insert_ownership(owned(3)), Ok(()));
    assert_eq!(db.ownership().next_ownership_id(), 9);
    assert_eq!(db.insert_transaction(logged(2)), Ok(()));
    assert_eq!(db.insert_transaction(logged(2)), Err(Error::AlreadyExists));
    assert_eq!(db.insert_transaction(logged(u64::MAX)), Err(Error::LimitReached));
    assert_eq!(db.transactions().next_transaction_id(), 3);
    assert_eq!(db.transactions().records().len(), 1);
}

#[test]
fn a_registry_whose_ids_have_run_out_takes_no_record() {
    let mut registry = OwnershipRegistry::new();
    assert!(!registry.is_full());
    registry.insert(owned(u64::MAX - 1)).unwrap();
    assert!(registry.is_full());
    assert_eq!(
        registry.record(id(1), "x".to_string(), at(1), "tx".to_string(), None),
        Err(Error::LimitReached)
    );
    assert_eq!(registry.len(), 1);
}

#[test]
fn a_log_whose_ids_have_run_out_takes_no_record() {
    let mut log = TransactionLog::new();
    assert!(!log.is_full());
    log.insert(logged(u64::MAX - 1)).unwrap();
    assert!(log.is_full());
    assert_eq!(
        log.append(id(1), "x".to_string(), 1, "purchase".to_string(), at(1), "r".to_string()),
        Err(Error::LimitReached)
    );
    assert_eq!(log.records().len(), 1);
}

#[test]
fn operations_fail_as_a_whole_when_the_ids_have_run_out() {
    let mut db = Database::new();
    init(&mut db);
    let p = eonserver::ReducerContext { sender: id(1), timestamp: at(5) };
    eonserver::add_premium_currency(&mut db, &p, 5000, "r".to_string()).unwrap();
    db.insert_ownership(owned(u64::MAX - 1)).unwrap();
    assert_eq!(
        eonserver::purchase_premium_item(&mut db, &p, "shadow_dagger".to_string()),
        Err(Error::LimitReached)
    );
    assert_eq!(
        eonserver::admin_grant_premium_item(&mut db, &p, id(2), "shadow_dagger".to_string(), "x".to_string(), true),
        Err(Error::LimitReached)
    );
    assert_eq!(db.wallets().balance(id(1)), 5000);
    assert_eq!(db.transactions().records().len(), 1);
    assert!(db.inventory().entries().is_empty());

    let mut db = Database::new();
    init(&mut db);
    db.insert_inventory_item(entry(u64::MAX - 1, 2, "iron_sword", 1, 0)).unwrap();
    assert_eq!(
        eonserver::add_item_to_inventory(&mut db, &p, "iron_sword".to_string(), 1),
        Err(Error::LimitReached)
    );
    db.insert_transaction(logged(u64::MAX - 1)).unwrap();
    assert_eq!(
        eonserver::add_premium_currency(&mut db, &p, 1, "r".to_string()),
        Err(Error::LimitReached)
    );
    assert_eq!(db.wallets().balance(id(1)), 0);
}

#[test]
fn definitions_are_built_field_by_field() {
    let d = define("rope", "Rope", "A rope.", "resource", 20, "/rope", true, 5, false, 2);
    assert_eq!(d.item_id, "rope");
    assert_eq!(d.display_name, "Rope");
    assert_eq!(d.description, "A rope.");
    assert_eq!(d.item_type, "resource");
    assert_eq!(d.max_stack, 20);
    assert_eq!(d.icon_path, "/rope");
    assert!(d.is_premium);
    assert_eq!(d.premium_currency_price, 5);
    assert!(!d.is_exclusive);
    assert_eq!(d.rarity, 2);
}
