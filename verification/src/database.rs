//! The whole state: the catalog and the stores that depend on it.

use crate::catalog::{catalog_wf, defines, Catalog, ItemDefinition, ItemDefinitionView};
use crate::error::Error;
use crate::inventory::{inventory_wf, Inventory, InventoryItem, InventoryView};
use crate::ledger::{log_wf, LogView, PremiumTransaction, TransactionLog};
use crate::ownership::{ownership_wf, OwnershipRegistry, OwnershipView, PremiumOwnership};
use crate::seed::seed_items;
use crate::session::{
    instances_wf, players_wf, Instance, InstanceTable, InstancesView, Player, PlayerTable,
    PlayerView,
};
use crate::wallet::{wallets_wf, PlayerWallet, WalletLedger};
use crate::world::{
    interactables_wf, world_items_wf, InteractableState, InteractableStateView, InteractableTable,
    WorldItem, WorldItemTable, WorldItemsView,
};
use vstd::prelude::*;

verus! {

/// The state that every operation reads and changes.
pub struct Database {
    pub(crate) catalog: Catalog,
    pub(crate) inventory: Inventory,
    pub(crate) wallets: WalletLedger,
    pub(crate) ownership: OwnershipRegistry,
    pub(crate) transactions: TransactionLog,
    pub(crate) players: PlayerTable,
    pub(crate) instances: InstanceTable,
    pub(crate) world_items: WorldItemTable,
    pub(crate) interactables: InteractableTable,
}

/// The state as a mathematical value.
pub struct DatabaseView {
    pub items: Seq<ItemDefinitionView>,
    pub inventory: InventoryView,
    pub wallets: Seq<PlayerWallet>,
    pub ownership: OwnershipView,
    pub transactions: LogView,
    pub players: Seq<PlayerView>,
    pub instances: InstancesView,
    pub world_items: WorldItemsView,
    pub interactables: Seq<InteractableStateView>,
}

impl View for Database {
    type V = DatabaseView;

    open(crate) spec fn view(&self) -> DatabaseView {
        DatabaseView {
            items: self.catalog@,
            inventory: self.inventory@,
            wallets: self.wallets@,
            ownership: self.ownership@,
            transactions: self.transactions@,
            players: self.players@,
            instances: self.instances@,
            world_items: self.world_items@,
            interactables: self.interactables@,
        }
    }
}

/// The invariant of the state: each store is well-formed, the inventory with
/// respect to the catalog.
pub open spec fn database_wf(db: DatabaseView) -> bool {
    &&& catalog_wf(db.items)
    &&& inventory_wf(db.inventory, db.items)
    &&& wallets_wf(db.wallets)
    &&& ownership_wf(db.ownership)
    &&& log_wf(db.transactions)
    &&& players_wf(db.players)
    &&& instances_wf(db.instances)
    &&& world_items_wf(db.world_items)
    &&& interactables_wf(db.interactables)
}

/// The state in which nothing has happened yet.
pub open spec fn empty_database() -> DatabaseView {
    DatabaseView {
        items: Seq::empty(),
        inventory: InventoryView { entries: Seq::empty(), next_entry_id: 1 },
        wallets: Seq::empty(),
        ownership: OwnershipView { records: Seq::empty(), next_ownership_id: 1 },
        transactions: LogView { records: Seq::empty(), next_transaction_id: 1 },
        players: Seq::empty(),
        instances: InstancesView { instances: Seq::empty(), next_instance_id: 1 },
        world_items: WorldItemsView { items: Seq::empty(), next_world_item_id: 1 },
        interactables: Seq::empty(),
    }
}

/// The state after `init`: a catalog without definitions holds the seed
/// items; a catalog with any definition is left as it is, as is everything
/// else.
pub open spec fn init_state(db: DatabaseView) -> DatabaseView {
    if db.items.len() == 0 {
        DatabaseView { items: seed_items(), ..db }
    } else {
        db
    }
}

/// The state after a definition was added to the catalog: unchanged where
/// the id is taken or the item stacks to zero.
pub open spec fn define_state(db: DatabaseView, definition: ItemDefinitionView) -> DatabaseView {
    if defines(db.items, definition.item_id) || definition.max_stack < 1 {
        db
    } else {
        DatabaseView { items: db.items.push(definition), ..db }
    }
}

impl Database {
    /// The invariant of the state: see [`database_wf`].
    pub open spec fn wf(&self) -> bool {
        database_wf(self@)
    }

    /// The state in which nothing has happened yet.
    pub fn new() -> (db: Database)
        ensures
            db.wf(),
            db@ == empty_database(),
    {
        Database {
            catalog: Catalog::new(),
            inventory: Inventory::new(),
            wallets: WalletLedger::new(),
            ownership: OwnershipRegistry::new(),
            transactions: TransactionLog::new(),
            players: PlayerTable::new(),
            instances: InstanceTable::new(),
            world_items: WorldItemTable::new(),
            interactables: InteractableTable::new(),
        }
    }

    /// The item catalog.
    pub fn catalog(&self) -> (catalog: &Catalog)
        ensures
            catalog@ == self@.items,
    {
        &self.catalog
    }

    /// The inventory store.
    pub fn inventory(&self) -> (inventory: &Inventory)
        ensures
            inventory@ == self@.inventory,
    {
        &self.inventory
    }

    /// The wallet ledger.
    pub fn wallets(&self) -> (wallets: &WalletLedger)
        ensures
            wallets@ == self@.wallets,
    {
        &self.wallets
    }

    /// The ownership registry.
    pub fn ownership(&self) -> (ownership: &OwnershipRegistry)
        ensures
            ownership@ == self@.ownership,
    {
        &self.ownership
    }

    /// The transaction log.
    pub fn transactions(&self) -> (transactions: &TransactionLog)
        ensures
            transactions@ == self@.transactions,
    {
        &self.transactions
    }

    /// The table of players.
    pub fn players(&self) -> (players: &PlayerTable)
        ensures
            players@ == self@.players,
    {
        &self.players
    }

    /// The table of instances.
    pub fn instances(&self) -> (instances: &InstanceTable)
        ensures
            instances@ == self@.instances,
    {
        &self.instances
    }

    /// The table of world items.
    pub fn world_items(&self) -> (world_items: &WorldItemTable)
        ensures
            world_items@ == self@.world_items,
    {
        &self.world_items
    }

    /// The table of interactables.
    pub fn interactables(&self) -> (interactables: &InteractableTable)
        ensures
            interactables@ == self@.interactables,
    {
        &self.interactables
    }

    /// Adds a definition to the catalog, unless its id is taken or the item
    /// stacks to zero. Returns whether it was added.
    pub fn define_item(&mut self, definition: ItemDefinition) -> (added: bool)
        requires
            old(self).wf(),
        ensures
            final(self).wf(),
            added == (!defines(old(self)@.items, definition@.item_id) && definition.max_stack >= 1),
            final(self)@ == define_state(old(self)@, definition@),
    {
        let added = self.catalog.insert(definition);
        proof {
            if added {
                crate::catalog::lemma_definitions_kept(old(self)@.items, definition@);
                lemma_inventory_wf_kept(self@.inventory, old(self)@.items, self@.items);
            }
        }
        added
    }
    /// Takes in an inventory entry that comes with its id. The entry must fit
    /// the catalog and the entries that are there.
    pub fn insert_inventory_item(&mut self, entry: InventoryItem) -> (result: Result<(), Error>)
        requires
            old(self).wf(),
        ensures
            final(self).wf(),
            result == crate::inventory::insert_result(
                old(self)@.inventory,
                old(self)@.items,
                entry@,
            ),
            final(self)@ == (DatabaseView {
                inventory: crate::inventory::insert_state(
                    old(self)@.inventory,
                    old(self)@.items,
                    entry@,
                ),
                ..old(self)@
            }),
    {
        self.inventory.insert(&self.catalog, entry)
    }

    /// Takes in a wallet as it is, unless its identity has one already.
    pub fn insert_wallet(&mut self, wallet: PlayerWallet) -> (result: Result<(), Error>)
        requires
            old(self).wf(),
        ensures
            final(self).wf(),
            result == if crate::wallet::has_wallet(old(self)@.wallets, wallet.identity) {
                Err::<(), Error>(Error::AlreadyExists)
            } else {
                Ok::<(), Error>(())
            },
            final(self)@ == if result is Ok {
                DatabaseView { wallets: old(self)@.wallets.push(wallet), ..old(self)@ }
            } else {
                old(self)@
            },
    {
        self.wallets.insert(wallet)
    }

    /// Takes in an ownership record that comes with its id.
    pub fn insert_ownership(&mut self, record: PremiumOwnership) -> (result: Result<(), Error>)
        requires
            old(self).wf(),
        ensures
            final(self).wf(),
            result == crate::ownership::insert_result(old(self)@.ownership, record@),
            final(self)@ == (DatabaseView {
                ownership: crate::ownership::insert_state(old(self)@.ownership, record@),
                ..old(self)@
            }),
    {
        self.ownership.insert(record)
    }

    /// Takes in a transaction record that comes with its id.
    pub fn insert_transaction(&mut self, record: PremiumTransaction) -> (result: Result<(), Error>)
        requires
            old(self).wf(),
        ensures
            final(self).wf(),
            result == crate::ledger::insert_result(old(self)@.transactions, record@),
            final(self)@ == (DatabaseView {
                transactions: crate::ledger::insert_state(old(self)@.transactions, record@),
                ..old(self)@
            }),
    {
        self.transactions.insert(record)
    }

    /// Takes in a player as it is, unless the identity is taken.
    pub fn insert_player(&mut self, player: Player) -> (result: Result<(), Error>)
        requires
            old(self).wf(),
        ensures
            final(self).wf(),
            result == if crate::session::has_player(old(self)@.players, player.identity) {
                Err::<(), Error>(Error::AlreadyExists)
            } else {
                Ok::<(), Error>(())
            },
            final(self)@ == if result is Ok {
                DatabaseView { players: old(self)@.players.push(player@), ..old(self)@ }
            } else {
                old(self)@
            },
    {
        self.players.insert(player)
    }

    /// Takes in an instance that comes with its id.
    pub fn insert_instance(&mut self, instance: Instance) -> (result: Result<(), Error>)
        requires
            old(self).wf(),
        ensures
            final(self).wf(),
            result == crate::session::restore_result(old(self)@.instances, instance@),
            final(self)@ == (DatabaseView {
                instances: crate::session::restore_state(old(self)@.instances, instance@),
                ..old(self)@
            }),
    {
        self.instances.insert(instance)
    }

    /// Puts an item into the world under the id it carries.
    pub fn insert_world_item(&mut self, item: WorldItem) -> (result: Result<(), Error>)
        requires
            old(self).wf(),
        ensures
            final(self).wf(),
            result == crate::world::place_result(old(self)@.world_items, item@),
            final(self)@ == (DatabaseView {
                world_items: crate::world::place_state(old(self)@.world_items, item@),
                ..old(self)@
            }),
    {
        self.world_items.insert(item)
    }

    /// Adds an interactable, unless its id is taken.
    pub fn insert_interactable(&mut self, state: InteractableState) -> (result: Result<(), Error>)
        requires
            old(self).wf(),
        ensures
            final(self).wf(),
            result == if crate::world::has_interactable(
                old(self)@.interactables,
                state@.interactable_id,
            ) {
                Err::<(), Error>(Error::AlreadyExists)
            } else {
                Ok::<(), Error>(())
            },
            final(self)@ == if result is Ok {
                DatabaseView { interactables: old(self)@.interactables.push(state@), ..old(self)@ }
            } else {
                old(self)@
            },
    {
        self.interactables.insert(state)
    }
}

/// An inventory that is well-formed with respect to a catalog stays so with
/// respect to a catalog that defines every item of its entries as before.
pub proof fn lemma_inventory_wf_kept(
    inventory: InventoryView,
    before: Seq<ItemDefinitionView>,
    after: Seq<ItemDefinitionView>,
)
    requires
        inventory_wf(inventory, before),
        forall|item_id: Seq<char>|
            crate::catalog::definition_of(before, item_id) is Some
                ==> #[trigger] crate::catalog::definition_of(after, item_id)
                == crate::catalog::definition_of(before, item_id),
    ensures
        inventory_wf(inventory, after),
{
    assert forall|i: int| 0 <= i < inventory.entries.len() implies crate::inventory::entry_wf(
        #[trigger] inventory.entries[i],
        after,
    ) by {
        assert(crate::inventory::entry_wf(inventory.entries[i], before));
    }
}

/// Sets up the catalog: a catalog without definitions is filled with the seed
/// items, and a catalog that holds any definition is left as it is. Returns
/// whether the catalog was filled.
pub fn init(db: &mut Database) -> (seeded: bool)
    requires
        old(db).wf(),
    ensures
        final(db).wf(),
        seeded == (old(db)@.items.len() == 0),
        final(db)@ == init_state(old(db)@),
{
    let seeded = db.catalog.load_seed();
    proof {
        if seeded {
            if db@.inventory.entries.len() > 0 {
                assert(crate::inventory::entry_wf(db@.inventory.entries[0], old(db)@.items));
                assert(crate::catalog::defines(
                    old(db)@.items,
                    db@.inventory.entries[0].item_id,
                ));
            }
            crate::seed::lemma_seed_items_wf();
        }
    }
    seeded
}

} // verus!
