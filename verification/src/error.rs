//! Why an operation was refused.

use vstd::prelude::*;

verus! {

/// The reason an operation failed. A failed operation changes nothing.
#[derive(Clone, Copy, PartialEq, Eq, Structural, Debug)]
pub enum Error {
    /// No item definition has the given item id.
    UnknownItem,
    /// No inventory entry has the given entry id.
    UnknownEntry,
    /// No instance has the given instance id.
    UnknownInstance,
    /// The caller has no player record.
    UnknownPlayer,
    /// The recipient of a gift has no player record.
    UnknownRecipient,
    /// No world item has the given id.
    UnknownWorldItem,
    /// The entry or instance belongs to another identity.
    NotOwner,
    /// The host does not vouch for the caller's right to grant items.
    NotAuthorized,
    /// A quantity of zero was given.
    InvalidQuantity,
    /// The slot index lies outside the inventory.
    InvalidSlot,
    /// Sender and recipient of a gift are the same identity.
    SelfGift,
    /// The item is not premium, or has no price.
    NotForSale,
    /// The item is not premium.
    NotPremium,
    /// The item cannot be consumed.
    NotConsumable,
    /// The row's key is already present.
    AlreadyExists,
    /// The world item was picked up before.
    AlreadyCollected,
    /// The exclusive item was acquired by this player before.
    AlreadyOwned,
    /// The wallet holds less than the price.
    InsufficientFunds,
    /// The entry holds less than the quantity to remove.
    InsufficientQuantity,
    /// Every slot of the owner's inventory is taken.
    InventoryFull,
    /// The instance already holds as many online players as it admits.
    InstanceFull,
    /// A balance or an identifier counter would pass the largest number it can hold.
    LimitReached,
}

/// The family an error belongs to.
#[derive(Clone, Copy, PartialEq, Eq, Structural, Debug)]
pub enum ErrorKind {
    NotFound,
    Unauthorized,
    InvalidArgument,
    Conflict,
    AlreadyOwned,
    InsufficientFunds,
    InsufficientQuantity,
    InventoryFull,
    LimitReached,
}

impl Error {
    /// The family of this error.
    pub open spec fn spec_kind(self) -> ErrorKind {
        match self {
            Error::UnknownItem
            | Error::UnknownEntry
            | Error::UnknownInstance
            | Error::UnknownPlayer
            | Error::UnknownRecipient
            | Error::UnknownWorldItem => ErrorKind::NotFound,
            Error::NotOwner | Error::NotAuthorized => ErrorKind::Unauthorized,
            Error::InvalidQuantity
            | Error::InvalidSlot
            | Error::SelfGift
            | Error::NotForSale
            | Error::NotPremium
            | Error::NotConsumable => ErrorKind::InvalidArgument,
            Error::AlreadyExists | Error::AlreadyCollected | Error::InstanceFull => ErrorKind::Conflict,
            Error::AlreadyOwned => ErrorKind::AlreadyOwned,
            Error::InsufficientFunds => ErrorKind::InsufficientFunds,
            Error::InsufficientQuantity => ErrorKind::InsufficientQuantity,
            Error::InventoryFull => ErrorKind::InventoryFull,
            Error::LimitReached => ErrorKind::LimitReached,
        }
    }

    /// The family of this error.
    #[verifier::when_used_as_spec(spec_kind)]
    pub fn kind(self) -> (kind: ErrorKind)
        ensures
            kind == self.spec_kind(),
    {
        match self {
            Error::UnknownItem
            | Error::UnknownEntry
            | Error::UnknownInstance
            | Error::UnknownPlayer
            | Error::UnknownRecipient
            | Error::UnknownWorldItem => ErrorKind::NotFound,
            Error::NotOwner | Error::NotAuthorized => ErrorKind::Unauthorized,
            Error::InvalidQuantity
            | Error::InvalidSlot
            | Error::SelfGift
            | Error::NotForSale
            | Error::NotPremium
            | Error::NotConsumable => ErrorKind::InvalidArgument,
            Error::AlreadyExists | Error::AlreadyCollected | Error::InstanceFull => ErrorKind::Conflict,
            Error::AlreadyOwned => ErrorKind::AlreadyOwned,
            Error::InsufficientFunds => ErrorKind::InsufficientFunds,
            Error::InsufficientQuantity => ErrorKind::InsufficientQuantity,
            Error::InventoryFull => ErrorKind::InventoryFull,
            Error::LimitReached => ErrorKind::LimitReached,
        }
    }
}

} // verus!
