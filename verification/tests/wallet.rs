use eonserver::{
    add_premium_currency, get_wallet_balance, init, Database, Error, Identity, PlayerWallet,
    ReducerContext, Timestamp, WalletLedger,
};

fn id(n: u128) -> Identity {
    Identity { hi: 0, lo: n }
}

fn at(micros: i64) -> Timestamp {
    Timestamp { micros_since_unix_epoch: micros }
}

fn call(n: u128, micros: i64) -> ReducerContext {
    ReducerContext { sender: id(n), timestamp: at(micros) }
}

#[test]
fn a_wallet_is_created_empty_on_first_use() {
    let mut ledger = WalletLedger::new();
    let wallet = ledger.get_or_create(id(1), at(5));
    assert_eq!(
        wallet,
        PlayerWallet { identity: id(1), premium_currency: 0, lifetime_purchased: 0, last_purchase_at: at(5) }
    );
    assert_eq!(ledger.wallets().len(), 1);
}

#[test]
fn an_existing_wallet_is_handed_out_as_it_is() {
    let mut ledger = WalletLedger::new();
    ledger.credit(id(1), 70, at(5)).unwrap();
    let wallet = ledger.get_or_create(id(1), at(9));
    assert_eq!(
        wallet,
        PlayerWallet { identity: id(1), premium_currency: 70, lifetime_purchased: 70, last_purchase_at: at(5) }
    );
    assert_eq!(ledger.wallets().len(), 1);
}

#[test]
fn credit_raises_balance_and_lifetime_total() {
    let mut ledger = WalletLedger::new();
    assert_eq!(ledger.credit(id(1), 2000, at(1)), Ok(()));
    assert_eq!(ledger.credit(id(1), 500, at(2)), Ok(()));
    assert_eq!(
        ledger.wallets()[0],
        PlayerWallet { identity: id(1), premium_currency: 2500, lifetime_purchased: 2500, last_purchase_at: at(2) }
    );
}

#[test]
fn credit_of_nothing_still_creates_the_wallet() {
    let mut ledger = WalletLedger::new();
    assert_eq!(ledger.credit(id(1), 0, at(1)), Ok(()));
    assert_eq!(ledger.wallets().len(), 1);
    assert_eq!(ledger.balance(id(1)), 0);
}

#[test]
fn debit_lowers_the_balance_and_keeps_the_lifetime_total() {
    let mut ledger = WalletLedger::new();
    ledger.credit(id(1), 2000, at(1)).unwrap();
    assert_eq!(ledger.debit(id(1), 1500), Ok(()));
    assert_eq!(
        ledger.wallets()[0],
        PlayerWallet { identity: id(1), premium_currency: 500, lifetime_purchased: 2000, last_purchase_at: at(1) }
    );
}

#[test]
fn debit_of_the_whole_balance_leaves_zero() {
    let mut ledger = WalletLedger::new();
    ledger.credit(id(1), 800, at(1)).unwrap();
    assert_eq!(ledger.debit(id(1), 800), Ok(()));
    assert_eq!(ledger.balance(id(1)), 0);
}

#[test]
fn debit_beyond_the_balance_is_refused() {
    let mut ledger = WalletLedger::new();
    ledger.credit(id(1), 800, at(1)).unwrap();
    assert_eq!(ledger.debit(id(1), 801), Err(Error::InsufficientFunds));
    assert_eq!(ledger.balance(id(1)), 800);
}

#[test]
fn debit_without_a_wallet_is_refused_and_creates_none() {
    let mut ledger = WalletLedger::new();
    assert_eq!(ledger.debit(id(1), 1), Err(Error::InsufficientFunds));
    assert_eq!(ledger.debit(id(1), 0), Ok(()));
    assert!(ledger.wallets().is_empty());
}

#[test]
fn wallets_of_different_players_are_apart() {
    let mut ledger = WalletLedger::new();
    ledger.credit(id(1), 100, at(1)).unwrap();
    ledger.credit(id(2), 30, at(2)).unwrap();
    ledger.debit(id(1), 60).unwrap();
    assert_eq!(ledger.balance(id(1)), 40);
    assert_eq!(ledger.balance(id(2)), 30);
    assert_eq!(ledger.balance(id(3)), 0);
}

#[test]
fn credit_beyond_the_largest_balance_is_refused() {
    let mut ledger = WalletLedger::new();
    ledger.credit(id(1), u64::MAX - 5, at(1)).unwrap();
    assert_eq!(ledger.credit(id(1), 6, at(2)), Err(Error::LimitReached));
    assert_eq!(ledger.balance(id(1)), u64::MAX - 5);
    assert_eq!(ledger.wallets()[0].last_purchase_at, at(1));
    assert_eq!(ledger.credit(id(1), 5, at(3)), Ok(()));
    assert_eq!(ledger.balance(id(1)), u64::MAX);
}

#[test]
fn credit_beyond_the_largest_lifetime_total_is_refused() {
    let mut ledger = WalletLedger::new();
    ledger.credit(id(1), u64::MAX, at(1)).unwrap();
    ledger.debit(id(1), u64::MAX).unwrap();
    assert_eq!(ledger.credit(id(1), 1, at(2)), Err(Error::LimitReached));
    assert_eq!(ledger.balance(id(1)), 0);
}

#[test]
fn insert_refuses_a_second_wallet_of_one_identity() {
    let mut ledger = WalletLedger::new();
    let wallet =
        PlayerWallet { identity: id(1), premium_currency: 7, lifetime_purchased: 9, last_purchase_at: at(3) };
    assert_eq!(ledger.insert(wallet), Ok(()));
    assert_eq!(ledger.insert(wallet), Err(Error::AlreadyExists));
    assert_eq!(ledger.wallets().len(), 1);
    assert_eq!(ledger.balance(id(1)), 7);
}

#[test]
fn top_up_credits_the_wallet_and_files_a_record() {
    let mut db = Database::new();
    init(&mut db);
    let p = call(1, 77);
    assert_eq!(add_premium_currency(&mut db, &p, 2000, "r1".to_string()), Ok(()));
    assert_eq!(db.wallets().balance(p.sender), 2000);
    assert_eq!(db.wallets().wallets()[0].lifetime_purchased, 2000);
    assert_eq!(db.wallets().wallets()[0].last_purchase_at, at(77));
    let log = db.transactions().records();
    assert_eq!(log.len(), 1);
    assert_eq!(log[0].transaction_id, 1);
    assert_eq!(log[0].buyer_identity, p.sender);
    assert_eq!(log[0].item_id, "currency_purchase");
    assert_eq!(log[0].currency_spent, 0);
    assert_eq!(log[0].transaction_type, "currency_add");
    assert_eq!(log[0].timestamp, at(77));
    assert_eq!(log[0].receipt_id, "r1");
    assert!(db.ownership().records().is_empty());
    assert!(db.inventory().entries().is_empty());
}

#[test]
fn a_top_up_that_would_overflow_changes_nothing() {
    let mut db = Database::new();
    let p = call(1, 77);
    add_premium_currency(&mut db, &p, u64::MAX, "r1".to_string()).unwrap();
    assert_eq!(
        add_premium_currency(&mut db, &p, 1, "r2".to_string()),
        Err(Error::LimitReached)
    );
    assert_eq!(db.wallets().balance(p.sender), u64::MAX);
    assert_eq!(db.transactions().records().len(), 1);
}

#[test]
fn asking_for_the_balance_creates_an_empty_wallet() {
    let mut db = Database::new();
    let p = call(1, 12);
    assert_eq!(get_wallet_balance(&mut db, &p), 0);
    assert_eq!(
        db.wallets().wallets()[0],
        PlayerWallet { identity: id(1), premium_currency: 0, lifetime_purchased: 0, last_purchase_at: at(12) }
    );
    add_premium_currency(&mut db, &p, 40, "r".to_string()).unwrap();
    assert_eq!(get_wallet_balance(&mut db, &call(1, 99)), 40);
    assert_eq!(db.wallets().wallets().len(), 1);
    assert!(db.transactions().records().len() == 1);
}
