//! The premium economy: currency top-ups, purchases, gifts, grants and the
//! recovery of what a player owns. Each operation either takes effect in
//! every store it touches, or fails and changes nothing.

use crate::catalog::{definition_of, ItemDefinitionView};
use crate::database::{database_wf, Database, DatabaseView};
use crate::error::Error;
use crate::identity::{reference_text, transaction_reference, Identity, ReducerContext};
use crate::inventory::{
    add_stack_result, add_stack_state, has_stack, lemma_add_stack_wf, inventory_wf, InventoryView,
};
use crate::ledger::{
    append_result, append_state, currency_item, kind_currency_add, kind_gift, kind_grant,
    kind_purchase,
};
use crate::ownership::{has_owned, record_result, record_state, PremiumOwnershipView};
use crate::session::has_player;
use crate::wallet::{balance_of, credit_result, credit_state, debit_state, opened};
use vstd::prelude::*;
use vstd::string::StringExecFns;

verus! {

/// Neither the transaction log nor the ownership registry can take another
/// record.
pub open spec fn records_full(db: DatabaseView) -> bool {
    append_result(db.transactions) is Err || record_result(db.ownership) is Err
}

/// What `add_premium_currency` returns.
pub open spec fn top_up_result(db: DatabaseView, owner: Identity, amount: u64) -> Result<(), Error> {
    if append_result(db.transactions) is Err {
        Err(Error::LimitReached)
    } else {
        credit_result(db.wallets, owner, amount)
    }
}

/// The state after `add_premium_currency`: the caller's wallet holds
/// `amount` more, and the log has a record of the top-up under the receipt;
/// unchanged where the operation fails.
pub open spec fn top_up_state(
    db: DatabaseView,
    ctx: ReducerContext,
    amount: u64,
    receipt_id: Seq<char>,
) -> DatabaseView {
    if top_up_result(db, ctx.sender, amount) is Err {
        db
    } else {
        DatabaseView {
            wallets: credit_state(db.wallets, ctx.sender, amount, ctx.timestamp),
            transactions: append_state(
                db.transactions,
                ctx.sender,
                currency_item(),
                0,
                kind_currency_add(),
                ctx.timestamp,
                receipt_id,
            ),
            ..db
        }
    }
}

/// The state after an item was paid for and handed over: `payer`'s wallet
/// holds `price` less, the log has a record of kind `kind` under the
/// reference `reference` and the receipt `receipt`, the registry has a
/// record for `receiver`, and `receiver`'s inventory has one unit more of
/// the item.
pub open spec fn delivered(
    db: DatabaseView,
    ctx: ReducerContext,
    payer: Identity,
    receiver: Identity,
    item_id: Seq<char>,
    price: u32,
    kind: Seq<char>,
    reference: Seq<char>,
    receipt: Seq<char>,
    gifted_by: Option<Identity>,
) -> DatabaseView {
    DatabaseView {
        wallets: debit_state(db.wallets, payer, price as u64),
        transactions: append_state(
            db.transactions,
            ctx.sender,
            item_id,
            price,
            kind,
            ctx.timestamp,
            receipt,
        ),
        ownership: record_state(
            db.ownership,
            receiver,
            item_id,
            ctx.timestamp,
            reference,
            gifted_by,
        ),
        inventory: add_stack_state(db.inventory, db.items, receiver, item_id, 1),
        ..db
    }
}

/// What `purchase_premium_item` returns.
pub open spec fn purchase_result(db: DatabaseView, buyer: Identity, item_id: Seq<char>) -> Result<
    (),
    Error,
> {
    match definition_of(db.items, item_id) {
        None => Err(Error::UnknownItem),
        Some(definition) => {
            if !definition.for_sale() {
                Err(Error::NotForSale)
            } else if definition.is_exclusive && has_owned(db.ownership.records, buyer, item_id) {
                Err(Error::AlreadyOwned)
            } else if balance_of(db.wallets, buyer) < definition.premium_currency_price {
                Err(Error::InsufficientFunds)
            } else if records_full(db) {
                Err(Error::LimitReached)
            } else {
                match add_stack_result(db.inventory, db.items, buyer, item_id, 1) {
                    Err(error) => Err(error),
                    Ok(_) => Ok(()),
                }
            }
        },
    }
}

/// The state after `purchase_premium_item`: the buyer paid the price, and
/// log, registry and inventory show the purchase; unchanged where the
/// purchase fails.
pub open spec fn purchase_state(
    db: DatabaseView,
    ctx: ReducerContext,
    item_id: Seq<char>,
) -> DatabaseView {
    if purchase_result(db, ctx.sender, item_id) is Err {
        db
    } else {
        delivered(
            db,
            ctx,
            ctx.sender,
            ctx.sender,
            item_id,
            definition_of(db.items, item_id)->0.premium_currency_price,
            kind_purchase(),
            reference_text("tx"@, ctx),
            reference_text("tx"@, ctx),
            None,
        )
    }
}

/// What `gift_premium_item` returns.
pub open spec fn gift_result(
    db: DatabaseView,
    sender: Identity,
    item_id: Seq<char>,
    recipient: Identity,
) -> Result<(), Error> {
    if recipient == sender {
        Err(Error::SelfGift)
    } else if !has_player(db.players, recipient) {
        Err(Error::UnknownRecipient)
    } else {
        match definition_of(db.items, item_id) {
            None => Err(Error::UnknownItem),
            Some(definition) => {
                if !definition.for_sale() {
                    Err(Error::NotForSale)
                } else if definition.is_exclusive && has_owned(
                    db.ownership.records,
                    recipient,
                    item_id,
                ) {
                    Err(Error::AlreadyOwned)
                } else if balance_of(db.wallets, sender) < definition.premium_currency_price {
                    Err(Error::InsufficientFunds)
                } else if records_full(db) {
                    Err(Error::LimitReached)
                } else {
                    match add_stack_result(db.inventory, db.items, recipient, item_id, 1) {
                        Err(error) => Err(error),
                        Ok(_) => Ok(()),
                    }
                }
            },
        }
    }
}

/// The state after `gift_premium_item`: the sender paid the price, the
/// registry names the recipient as owner and the sender as giver, and the
/// recipient's inventory has the item; unchanged where the gift fails.
pub open spec fn gift_state(
    db: DatabaseView,
    ctx: ReducerContext,
    item_id: Seq<char>,
    recipient: Identity,
) -> DatabaseView {
    if gift_result(db, ctx.sender, item_id, recipient) is Err {
        db
    } else {
        delivered(
            db,
            ctx,
            ctx.sender,
            recipient,
            item_id,
            definition_of(db.items, item_id)->0.premium_currency_price,
            kind_gift(),
            reference_text("gift"@, ctx),
            reference_text("gift"@, ctx),
            Some(ctx.sender),
        )
    }
}

/// What `admin_grant_premium_item` returns.
pub open spec fn grant_result(
    db: DatabaseView,
    recipient: Identity,
    item_id: Seq<char>,
    authorized: bool,
) -> Result<(), Error> {
    if !authorized {
        Err(Error::NotAuthorized)
    } else {
        match definition_of(db.items, item_id) {
            None => Err(Error::UnknownItem),
            Some(definition) => {
                if !definition.is_premium {
                    Err(Error::NotPremium)
                } else if records_full(db) {
                    Err(Error::LimitReached)
                } else {
                    match add_stack_result(db.inventory, db.items, recipient, item_id, 1) {
                        Err(error) => Err(error),
                        Ok(_) => Ok(()),
                    }
                }
            },
        }
    }
}

/// The receipt of a grant: its reference, a colon and the reason.
pub open spec fn grant_receipt(reference: Seq<char>, reason: Seq<char>) -> Seq<char> {
    reference + seq![':'] + reason
}

/// The state after `admin_grant_premium_item`: nothing is paid, the log has
/// a record of the grant by the caller, and registry and inventory show the
/// recipient's new item; unchanged where the grant fails.
pub open spec fn grant_state(
    db: DatabaseView,
    ctx: ReducerContext,
    recipient: Identity,
    item_id: Seq<char>,
    reason: Seq<char>,
    authorized: bool,
) -> DatabaseView {
    if grant_result(db, recipient, item_id, authorized) is Err {
        db
    } else {
        delivered(
            db,
            ctx,
            ctx.sender,
            recipient,
            item_id,
            0,
            kind_grant(),
            reference_text("grant"@, ctx),
            grant_receipt(reference_text("grant"@, ctx), reason),
            None,
        )
    }
}

/// The record gives `owner` a unit back: it is a record of `owner` for an
/// item of the catalog, and the item is not an exclusive one that takes a
/// slot of its own and already lies in the owner's inventory.
pub open spec fn restores(
    inventory: InventoryView,
    items: Seq<ItemDefinitionView>,
    owner: Identity,
    record: PremiumOwnershipView,
) -> bool {
    &&& record.owner_identity == owner
    &&& definition_of(items, record.item_id) is Some
    &&& !(definition_of(items, record.item_id)->0.is_exclusive && definition_of(
        items,
        record.item_id,
    )->0.unique() && has_stack(inventory.entries, owner, record.item_id))
}

/// The inventory after the first `n` records were gone through for `owner`,
/// with the number of units given back, or the reason why a unit could not
/// be given back.
pub open spec fn reclaim_prefix(
    inventory: InventoryView,
    items: Seq<ItemDefinitionView>,
    owner: Identity,
    records: Seq<PremiumOwnershipView>,
    n: nat,
) -> Result<(InventoryView, nat), Error>
    decreases n,
{
    if n == 0 {
        Ok((inventory, 0nat))
    } else {
        match reclaim_prefix(inventory, items, owner, records, (n - 1) as nat) {
            Err(error) => Err(error),
            Ok((current, count)) => {
                let record = records[n - 1];
                if !restores(current, items, owner, record) {
                    Ok((current, count))
                } else {
                    match add_stack_result(current, items, owner, record.item_id, 1) {
                        Err(error) => Err(error),
                        Ok(_) => Ok(
                            (add_stack_state(current, items, owner, record.item_id, 1), count + 1),
                        ),
                    }
                }
            },
        }
    }
}

/// What `reclaim_premium_items` returns: the number of units given back.
pub open spec fn reclaim_result(db: DatabaseView, owner: Identity) -> Result<nat, Error> {
    match reclaim_prefix(
        db.inventory,
        db.items,
        owner,
        db.ownership.records,
        db.ownership.records.len(),
    ) {
        Err(error) => Err(error),
        Ok((_, count)) => Ok(count),
    }
}

/// The state after `reclaim_premium_items`: every record of the owner, in
/// the order of the registry, gave a unit of its item back to the inventory,
/// but for exclusive items that take a slot of their own and lie in the
/// inventory already; unchanged where a unit found no room.
pub open spec fn reclaim_state(db: DatabaseView, owner: Identity) -> DatabaseView {
    match reclaim_prefix(
        db.inventory,
        db.items,
        owner,
        db.ownership.records,
        db.ownership.records.len(),
    ) {
        Err(_) => db,
        Ok((inventory, _)) => DatabaseView { inventory, ..db },
    }
}

/// Once a unit found no room, going through more records changes nothing.
pub proof fn lemma_reclaim_error_stays(
    inventory: InventoryView,
    items: Seq<ItemDefinitionView>,
    owner: Identity,
    records: Seq<PremiumOwnershipView>,
    m: nat,
    n: nat,
)
    requires
        m <= n,
        reclaim_prefix(inventory, items, owner, records, m) is Err,
    ensures
        reclaim_prefix(inventory, items, owner, records, n) == reclaim_prefix(
            inventory,
            items,
            owner,
            records,
            m,
        ),
    decreases n,
{
    if m < n {
        lemma_reclaim_error_stays(inventory, items, owner, records, m, (n - 1) as nat);
    }
}

/// Going through the records keeps the inventory well-formed.
pub proof fn lemma_reclaim_wf(
    inventory: InventoryView,
    items: Seq<ItemDefinitionView>,
    owner: Identity,
    records: Seq<PremiumOwnershipView>,
    n: nat,
)
    requires
        crate::catalog::catalog_wf(items),
        inventory_wf(inventory, items),
    ensures
        reclaim_prefix(inventory, items, owner, records, n) is Ok ==> inventory_wf(
            reclaim_prefix(inventory, items, owner, records, n)->Ok_0.0,
            items,
        ),
    decreases n,
{
    if n > 0 {
        lemma_reclaim_wf(inventory, items, owner, records, (n - 1) as nat);
        match reclaim_prefix(inventory, items, owner, records, (n - 1) as nat) {
            Err(_) => {},
            Ok((current, _)) => {
                lemma_add_stack_wf(current, items, owner, records[n - 1].item_id, 1);
            },
        }
    }
}

/// Pays premium currency into the caller's wallet, once the receipt of the
/// top-up has been verified, and files the top-up in the log.
pub fn add_premium_currency(
    db: &mut Database,
    ctx: &ReducerContext,
    amount: u64,
    receipt_id: String,
) -> (result: Result<(), Error>)
    requires
        old(db).wf(),
    ensures
        final(db).wf(),
        result == top_up_result(old(db)@, ctx.sender, amount),
        final(db)@ == top_up_state(old(db)@, *ctx, amount, receipt_id@),
{
    if db.transactions.is_full() {
        return Err(Error::LimitReached);
    }
    match db.wallets.credit(ctx.sender, amount, ctx.timestamp) {
        Err(error) => {
            return Err(error);
        },
        Ok(()) => {},
    }
    let appended = db.transactions.append(
        ctx.sender,
        String::from_str("currency_purchase"),
        0,
        String::from_str("currency_add"),
        ctx.timestamp,
        receipt_id,
    );
    assert(appended is Ok);
    Ok(())
}

/// The balance of the caller's wallet. A caller without a wallet gets an
/// empty one.
pub fn get_wallet_balance(db: &mut Database, ctx: &ReducerContext) -> (balance: u64)
    requires
        old(db).wf(),
    ensures
        final(db).wf(),
        balance == balance_of(old(db)@.wallets, ctx.sender),
        final(db)@ == (DatabaseView {
            wallets: opened(old(db)@.wallets, ctx.sender, ctx.timestamp),
            ..old(db)@
        }),
{
    let wallet = db.wallets.get_or_create(ctx.sender, ctx.timestamp);
    wallet.premium_currency
}

/// Hands one unit of an item to `receiver` at the cost of `price` to the
/// caller, and files the handover under `reference` and `receipt`. Nothing
/// is changed where the unit finds no room in the receiver's inventory.
fn deliver(
    db: &mut Database,
    ctx: &ReducerContext,
    receiver: Identity,
    item_id: String,
    price: u32,
    kind: &str,
    reference: String,
    receipt: String,
    gifted_by: Option<Identity>,
) -> (result: Result<(), Error>)
    requires
        old(db).wf(),
        !records_full(old(db)@),
        balance_of(old(db)@.wallets, ctx.sender) >= price,
    ensures
        final(db).wf(),
        result == match add_stack_result(
            old(db)@.inventory,
            old(db)@.items,
            receiver,
            item_id@,
            1,
        ) {
            Err(error) => Err::<(), Error>(error),
            Ok(_) => Ok::<(), Error>(()),
        },
        final(db)@ == if result is Err {
            old(db)@
        } else {
            delivered(
                old(db)@,
                *ctx,
                ctx.sender,
                receiver,
                item_id@,
                price,
                kind@,
                reference@,
                receipt@,
                gifted_by,
            )
        },
{
    let logged_item = item_id.clone();
    let owned_item = item_id.clone();
    match db.inventory.add_stack(&db.catalog, receiver, item_id, 1) {
        Err(error) => {
            return Err(error);
        },
        Ok(_) => {},
    }
    let paid = db.wallets.debit(ctx.sender, price as u64);
    assert(paid is Ok);
    let logged = db.transactions.append(
        ctx.sender,
        logged_item,
        price,
        String::from_str(kind),
        ctx.timestamp,
        receipt,
    );
    assert(logged is Ok);
    let recorded = db.ownership.record(receiver, owned_item, ctx.timestamp, reference, gifted_by);
    assert(recorded is Ok);
    Ok(())
}

/// Buys a premium item for the caller: the price leaves the caller's wallet,
/// the purchase is filed in the log and in the registry, and the item goes
/// to the caller's inventory.
pub fn purchase_premium_item(db: &mut Database, ctx: &ReducerContext, item_id: String) -> (result:
    Result<(), Error>)
    requires
        old(db).wf(),
    ensures
        final(db).wf(),
        result == purchase_result(old(db)@, ctx.sender, item_id@),
        final(db)@ == purchase_state(old(db)@, *ctx, item_id@),
{
    let (price, exclusive) = match db.catalog.lookup(item_id.as_str()) {
        None => {
            return Err(Error::UnknownItem);
        },
        Some(definition) => {
            if !(definition.is_premium && definition.premium_currency_price > 0) {
                return Err(Error::NotForSale);
            }
            (definition.premium_currency_price, definition.is_exclusive)
        },
    };
    if exclusive && db.ownership.has_owned(ctx.sender, item_id.as_str()) {
        return Err(Error::AlreadyOwned);
    }
    if db.wallets.balance(ctx.sender) < price as u64 {
        return Err(Error::InsufficientFunds);
    }
    if db.transactions.is_full() || db.ownership.is_full() {
        return Err(Error::LimitReached);
    }
    let reference = transaction_reference("tx", ctx);
    let receipt = reference.clone();
    deliver(db, ctx, ctx.sender, item_id, price, "purchase", reference, receipt, None)
}

/// Buys a premium item for another player: the price leaves the caller's
/// wallet, and registry and inventory show the recipient's new item.
pub fn gift_premium_item(
    db: &mut Database,
    ctx: &ReducerContext,
    item_id: String,
    recipient: Identity,
) -> (result: Result<(), Error>)
    requires
        old(db).wf(),
    ensures
        final(db).wf(),
        result == gift_result(old(db)@, ctx.sender, item_id@, recipient),
        final(db)@ == gift_state(old(db)@, *ctx, item_id@, recipient),
{
    if recipient == ctx.sender {
        return Err(Error::SelfGift);
    }
    if !db.players.contains(recipient) {
        return Err(Error::UnknownRecipient);
    }
    let (price, exclusive) = match db.catalog.lookup(item_id.as_str()) {
        None => {
            return Err(Error::UnknownItem);
        },
        Some(definition) => {
            if !(definition.is_premium && definition.premium_currency_price > 0) {
                return Err(Error::NotForSale);
            }
            (definition.premium_currency_price, definition.is_exclusive)
        },
    };
    if exclusive && db.ownership.has_owned(recipient, item_id.as_str()) {
        return Err(Error::AlreadyOwned);
    }
    if db.wallets.balance(ctx.sender) < price as u64 {
        return Err(Error::InsufficientFunds);
    }
    if db.transactions.is_full() || db.ownership.is_full() {
        return Err(Error::LimitReached);
    }
    let reference = transaction_reference("gift", ctx);
    let receipt = reference.clone();
    deliver(db, ctx, recipient, item_id, price, "gift", reference, receipt, Some(ctx.sender))
}

/// Gives a premium item to a player at no cost, for support and promotions.
/// The host says by `authorized` whether the caller may do so.
pub fn admin_grant_premium_item(
    db: &mut Database,
    ctx: &ReducerContext,
    recipient: Identity,
    item_id: String,
    reason: String,
    authorized: bool,
) -> (result: Result<(), Error>)
    requires
        old(db).wf(),
    ensures
        final(db).wf(),
        result == grant_result(old(db)@, recipient, item_id@, authorized),
        final(db)@ == grant_state(old(db)@, *ctx, recipient, item_id@, reason@, authorized),
{
    if !authorized {
        return Err(Error::NotAuthorized);
    }
    match db.catalog.lookup(item_id.as_str()) {
        None => {
            return Err(Error::UnknownItem);
        },
        Some(definition) => {
            if !definition.is_premium {
                return Err(Error::NotPremium);
            }
        },
    }
    if db.transactions.is_full() || db.ownership.is_full() {
        return Err(Error::LimitReached);
    }
    let reference = transaction_reference("grant", ctx);
    let mut receipt = reference.clone();
    receipt.append(":");
    receipt.append(reason.as_str());
    proof {
        reveal_strlit(":");
        assert(":"@ =~= seq![':']);
    }
    deliver(db, ctx, recipient, item_id, 0, "grant", reference, receipt, None)
}

/// Gives the caller back what the registry says the caller owns, after the
/// inventory was lost: one unit for each record, in the order of the
/// registry. An exclusive item that takes a slot of its own is given back
/// only where it does not lie in the inventory. Returns the number of units
/// given back.
pub fn reclaim_premium_items(db: &mut Database, ctx: &ReducerContext) -> (result: Result<
    usize,
    Error,
>)
    requires
        old(db).wf(),
    ensures
        final(db).wf(),
        match result {
            Ok(count) => reclaim_result(old(db)@, ctx.sender) == Ok::<nat, Error>(count as nat),
            Err(error) => reclaim_result(old(db)@, ctx.sender) == Err::<nat, Error>(error),
        },
        final(db)@ == reclaim_state(old(db)@, ctx.sender),
{
    let owner = ctx.sender;
    let saved = db.inventory.snapshot();
    let total = db.ownership.len();
    let ghost records = db@.ownership.records;
    let ghost items = db@.items;
    let ghost start = db@.inventory;
    let mut count: usize = 0;
    let mut i: usize = 0;
    while i < total
        invariant
            i <= total,
            count <= i,
            owner == ctx.sender,
            total == records.len(),
            saved@ == start,
            start == old(db)@.inventory,
            records == old(db)@.ownership.records,
            items == old(db)@.items,
            db@ == (DatabaseView { inventory: db@.inventory, ..old(db)@ }),
            database_wf(old(db)@),
            crate::catalog::catalog_wf(items),
            inventory_wf(db@.inventory, items),
            reclaim_prefix(start, items, owner, records, i as nat) == Ok::<
                (InventoryView, nat),
                Error,
            >((db@.inventory, count as nat)),
        decreases total - i,
    {
        let rows = db.ownership.records();
        assert(records[i as int] == rows[i as int]@);
        let record = &rows[i];
        let mut wanted = false;
        let mut item_id = String::new();
        if record.owner_identity == owner {
            match db.catalog.lookup(record.item_id.as_str()) {
                None => {},
                Some(definition) => {
                    let held = definition.is_exclusive && definition.max_stack == 1
                        && db.inventory.contains(owner, record.item_id.as_str());
                    if !held {
                        wanted = true;
                        item_id = record.item_id.clone();
                    }
                },
            }
        }
        assert(wanted == restores(db@.inventory, items, owner, records[i as int]));
        if wanted {
            assert(item_id@ == records[i as int].item_id);
            match db.inventory.add_stack(&db.catalog, owner, item_id, 1) {
                Err(error) => {
                    proof {
                        assert(reclaim_prefix(start, items, owner, records, (i + 1) as nat) == Err::<
                            (InventoryView, nat),
                            Error,
                        >(error));
                        lemma_reclaim_error_stays(
                            start,
                            items,
                            owner,
                            records,
                            (i + 1) as nat,
                            total as nat,
                        );
                    }
                    db.inventory = saved;
                    return Err(error);
                },
                Ok(_) => {
                    count += 1;
                },
            }
        }
        i += 1;
    }
    Ok(count)
}

} // verus!
