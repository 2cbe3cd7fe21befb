//! Authoritative state layer of a multiplayer game backend: the item catalog,
//! a slot-based inventory, the premium-currency wallet ledger, the permanent
//! ownership registry and the transaction log, together with the operations
//! that change them one atomic call at a time.
//!
//! The state is a [`Database`]. Every operation takes the state and the
//! [`ReducerContext`] of the call, and either takes effect as a whole or
//! fails with an [`Error`] and changes nothing.

pub mod catalog;
pub mod database;
pub mod economy;
pub mod error;
pub mod identity;
pub mod inventory;
pub mod items;
pub mod laws;
pub mod ledger;
pub mod ownership;
pub mod presence;
pub mod seed;
pub mod session;
pub mod wallet;
pub mod world;

pub use catalog::{Catalog, ItemDefinition};
pub use database::{init, Database};
pub use economy::{
    add_premium_currency, admin_grant_premium_item, get_wallet_balance, gift_premium_item,
    purchase_premium_item, reclaim_premium_items,
};
pub use error::{Error, ErrorKind};
pub use identity::{Identity, ReducerContext, Timestamp};
pub use inventory::{Inventory, InventoryItem, SLOT_COUNT};
pub use items::{
    add_item_to_inventory, collect_world_item, move_inventory_item, remove_item_from_inventory,
    toggle_interactable, use_consumable, ConsumableEffect,
};
pub use ledger::{PremiumTransaction, TransactionLog};
pub use ownership::{OwnershipRegistry, PremiumOwnership};
pub use presence::{
    client_disconnected, create_instance, delete_instance, join_instance, leave_instance,
    register_player, set_player_online, update_player_health, update_player_position,
};
pub use session::{Instance, InstanceTable, Player, PlayerTable, Transform};
pub use wallet::{PlayerWallet, WalletLedger};
pub use world::{InteractableState, InteractableTable, WorldItem, WorldItemTable};
