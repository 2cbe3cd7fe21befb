//! The wallet ledger: each player's balance of premium currency.

use crate::error::Error;
use crate::identity::{Identity, Timestamp};
use vstd::prelude::*;

verus! {

/// A player's premium-currency wallet.
#[derive(Clone, Copy, PartialEq, Eq, Structural, Debug)]
pub struct PlayerWallet {
    pub identity: Identity,
    pub premium_currency: u64,
    pub lifetime_purchased: u64,
    pub last_purchase_at: Timestamp,
}

/// The wallet a player starts with: nothing in it, nothing ever bought.
pub open spec fn fresh_wallet(owner: Identity, now: Timestamp) -> PlayerWallet {
    PlayerWallet { identity: owner, premium_currency: 0, lifetime_purchased: 0, last_purchase_at: now }
}

/// `owner` has a wallet.
pub open spec fn has_wallet(wallets: Seq<PlayerWallet>, owner: Identity) -> bool {
    exists|i: int| 0 <= i < wallets.len() && (#[trigger] wallets[i]).identity == owner
}

/// The place of `owner`'s wallet.
pub open spec fn wallet_index(wallets: Seq<PlayerWallet>, owner: Identity) -> int {
    choose|i: int| 0 <= i < wallets.len() && (#[trigger] wallets[i]).identity == owner
}

/// What `owner` can spend: the balance of the wallet, and nothing without one.
pub open spec fn balance_of(wallets: Seq<PlayerWallet>, owner: Identity) -> u64 {
    if has_wallet(wallets, owner) {
        wallets[wallet_index(wallets, owner)].premium_currency
    } else {
        0
    }
}

/// No two wallets belong to one identity.
pub open spec fn wallets_wf(wallets: Seq<PlayerWallet>) -> bool {
    forall|i: int, j: int|
        0 <= i < j < wallets.len() ==> (#[trigger] wallets[i]).identity != (
        #[trigger] wallets[j]).identity
}

/// The wallets after `owner`'s wallet was asked for: a fresh one is added
/// where the owner had none.
pub open spec fn opened(wallets: Seq<PlayerWallet>, owner: Identity, now: Timestamp) -> Seq<
    PlayerWallet,
> {
    if has_wallet(wallets, owner) {
        wallets
    } else {
        wallets.push(fresh_wallet(owner, now))
    }
}

/// `owner`'s wallet as `get_or_create` hands it out.
pub open spec fn wallet_or_fresh(
    wallets: Seq<PlayerWallet>,
    owner: Identity,
    now: Timestamp,
) -> PlayerWallet {
    if has_wallet(wallets, owner) {
        wallets[wallet_index(wallets, owner)]
    } else {
        fresh_wallet(owner, now)
    }
}

/// A wallet after `amount` was paid into it at `now`.
pub open spec fn credited(wallet: PlayerWallet, amount: u64, now: Timestamp) -> PlayerWallet {
    PlayerWallet {
        premium_currency: (wallet.premium_currency + amount) as u64,
        lifetime_purchased: (wallet.lifetime_purchased + amount) as u64,
        last_purchase_at: now,
        ..wallet
    }
}

/// What `credit` returns: it fails only where a counter of the wallet would
/// pass the largest number it can hold.
pub open spec fn credit_result(wallets: Seq<PlayerWallet>, owner: Identity, amount: u64) -> Result<
    (),
    Error,
> {
    if has_wallet(wallets, owner) && (wallets[wallet_index(wallets, owner)].premium_currency
        + amount > u64::MAX || wallets[wallet_index(wallets, owner)].lifetime_purchased + amount
        > u64::MAX) {
        Err(Error::LimitReached)
    } else {
        Ok(())
    }
}

/// The wallets after `credit`: the owner's wallet, created where there was
/// none, holds `amount` more; unchanged where `credit` fails.
pub open spec fn credit_state(
    wallets: Seq<PlayerWallet>,
    owner: Identity,
    amount: u64,
    now: Timestamp,
) -> Seq<PlayerWallet> {
    if credit_result(wallets, owner, amount) is Err {
        wallets
    } else if has_wallet(wallets, owner) {
        let k = wallet_index(wallets, owner);
        wallets.update(k, credited(wallets[k], amount, now))
    } else {
        wallets.push(credited(fresh_wallet(owner, now), amount, now))
    }
}

/// What `debit` returns.
pub open spec fn debit_result(wallets: Seq<PlayerWallet>, owner: Identity, amount: u64) -> Result<
    (),
    Error,
> {
    if balance_of(wallets, owner) < amount {
        Err(Error::InsufficientFunds)
    } else {
        Ok(())
    }
}

/// The wallets after `debit`: the owner's wallet holds `amount` less;
/// unchanged where `debit` fails or the owner has no wallet.
pub open spec fn debit_state(wallets: Seq<PlayerWallet>, owner: Identity, amount: u64) -> Seq<
    PlayerWallet,
> {
    if debit_result(wallets, owner, amount) is Err || !has_wallet(wallets, owner) {
        wallets
    } else {
        let k = wallet_index(wallets, owner);
        wallets.update(
            k,
            PlayerWallet {
                premium_currency: (wallets[k].premium_currency - amount) as u64,
                ..wallets[k]
            },
        )
    }
}

/// Among well-formed wallets the wallet found for an identity is the only
/// one of that identity.
pub proof fn lemma_wallet_unique(wallets: Seq<PlayerWallet>, k: int)
    requires
        wallets_wf(wallets),
        0 <= k < wallets.len(),
    ensures
        has_wallet(wallets, wallets[k].identity),
        wallet_index(wallets, wallets[k].identity) == k,
{
    let owner = wallets[k].identity;
    assert(has_wallet(wallets, owner));
    let c = wallet_index(wallets, owner);
    assert(0 <= c < wallets.len() && wallets[c].identity == owner);
    if c < k {
        assert(wallets[c].identity != wallets[k].identity);
    } else if k < c {
        assert(wallets[k].identity != wallets[c].identity);
    }
}

/// Changing the counters of a wallet keeps the wallets well-formed and
/// leaves every other identity's wallet as it was.
pub proof fn lemma_wallet_update(wallets: Seq<PlayerWallet>, k: int, wallet: PlayerWallet)
    requires
        wallets_wf(wallets),
        0 <= k < wallets.len(),
        wallet.identity == wallets[k].identity,
    ensures
        wallets_wf(wallets.update(k, wallet)),
        balance_of(wallets.update(k, wallet), wallet.identity) == wallet.premium_currency,
        forall|other: Identity|
            other != wallet.identity ==> {
                &&& has_wallet(wallets.update(k, wallet), other) == has_wallet(wallets, other)
                &&& has_wallet(wallets, other) ==> wallets.update(k, wallet)[wallet_index(
                    wallets.update(k, wallet),
                    other,
                )] == wallets[wallet_index(wallets, other)]
            },
{
    let after = wallets.update(k, wallet);
    assert forall|i: int, j: int| 0 <= i < j < after.len() implies (#[trigger] after[i]).identity
        != (#[trigger] after[j]).identity by {
        assert(wallets[i].identity != wallets[j].identity);
    }
    lemma_wallet_unique(after, k);
    assert forall|other: Identity| other != wallet.identity implies {
        &&& has_wallet(after, other) == has_wallet(wallets, other)
        &&& has_wallet(wallets, other) ==> after[wallet_index(after, other)]
            == wallets[wallet_index(wallets, other)]
    } by {
        if has_wallet(wallets, other) {
            let c = wallet_index(wallets, other);
            assert(after[c].identity == other);
            lemma_wallet_unique(after, c);
        }
        if has_wallet(after, other) {
            let c = wallet_index(after, other);
            assert(wallets[c].identity == other);
        }
    }
}

/// Adding the wallet of an identity that had none keeps the wallets
/// well-formed and leaves every other identity's wallet as it was.
pub proof fn lemma_wallet_push(wallets: Seq<PlayerWallet>, wallet: PlayerWallet)
    requires
        wallets_wf(wallets),
        !has_wallet(wallets, wallet.identity),
    ensures
        wallets_wf(wallets.push(wallet)),
        has_wallet(wallets.push(wallet), wallet.identity),
        wallet_index(wallets.push(wallet), wallet.identity) == wallets.len(),
        balance_of(wallets.push(wallet), wallet.identity) == wallet.premium_currency,
        forall|other: Identity|
            other != wallet.identity ==> {
                &&& has_wallet(wallets.push(wallet), other) == has_wallet(wallets, other)
                &&& has_wallet(wallets, other) ==> wallets.push(wallet)[wallet_index(
                    wallets.push(wallet),
                    other,
                )] == wallets[wallet_index(wallets, other)]
            },
{
    let after = wallets.push(wallet);
    let last = wallets.len() as int;
    assert forall|i: int, j: int| 0 <= i < j < after.len() implies (#[trigger] after[i]).identity
        != (#[trigger] after[j]).identity by {
        if j < last {
            assert(wallets[i].identity != wallets[j].identity);
        } else {
            assert(wallets[i].identity != wallet.identity);
        }
    }
    assert(after[last] == wallet);
    lemma_wallet_unique(after, last);
    assert forall|other: Identity| other != wallet.identity implies {
        &&& has_wallet(after, other) == has_wallet(wallets, other)
        &&& has_wallet(wallets, other) ==> after[wallet_index(after, other)]
            == wallets[wallet_index(wallets, other)]
    } by {
        if has_wallet(wallets, other) {
            let c = wallet_index(wallets, other);
            assert(after[c].identity == other);
            lemma_wallet_unique(after, c);
        }
        if has_wallet(after, other) {
            let c = wallet_index(after, other);
            assert(wallets[c].identity == other);
        }
    }
}

/// `credit` keeps the wallets well-formed.
pub proof fn lemma_credit_wf(wallets: Seq<PlayerWallet>, owner: Identity, amount: u64, now: Timestamp)
    requires
        wallets_wf(wallets),
    ensures
        wallets_wf(credit_state(wallets, owner, amount, now)),
{
    if credit_result(wallets, owner, amount) is Ok {
        if has_wallet(wallets, owner) {
            let k = wallet_index(wallets, owner);
            lemma_wallet_update(wallets, k, credited(wallets[k], amount, now));
        } else {
            lemma_wallet_push(wallets, credited(fresh_wallet(owner, now), amount, now));
        }
    }
}

/// `debit` keeps the wallets well-formed.
pub proof fn lemma_debit_wf(wallets: Seq<PlayerWallet>, owner: Identity, amount: u64)
    requires
        wallets_wf(wallets),
    ensures
        wallets_wf(debit_state(wallets, owner, amount)),
{
    if debit_result(wallets, owner, amount) is Ok && has_wallet(wallets, owner) {
        let k = wallet_index(wallets, owner);
        lemma_wallet_update(
            wallets,
            k,
            PlayerWallet {
                premium_currency: (wallets[k].premium_currency - amount) as u64,
                ..wallets[k]
            },
        );
    }
}

/// The wallet ledger.
pub struct WalletLedger {
    rows: Vec<PlayerWallet>,
}

impl View for WalletLedger {
    type V = Seq<PlayerWallet>;

    closed spec fn view(&self) -> Seq<PlayerWallet> {
        self.rows@
    }
}

impl WalletLedger {
    /// The ledger's invariant: see [`wallets_wf`].
    pub open spec fn wf(&self) -> bool {
        wallets_wf(self@)
    }

    /// A ledger without wallets.
    pub fn new() -> (ledger: WalletLedger)
        ensures
            ledger.wf(),
            ledger@ == Seq::<PlayerWallet>::empty(),
    {
        WalletLedger { rows: Vec::new() }
    }

    /// The wallets, in the order of their creation.
    pub fn wallets(&self) -> (rows: &Vec<PlayerWallet>)
        ensures
            rows@ == self@,
    {
        &self.rows
    }

    /// Finds the place of `owner`'s wallet.
    fn find(&self, owner: Identity) -> (found: Option<usize>)
        requires
            self.wf(),
        ensures
            match found {
                Some(k) => k < self@.len() && has_wallet(self@, owner) && wallet_index(
                    self@,
                    owner,
                ) == k,
                None => !has_wallet(self@, owner),
            },
    {
        let mut i: usize = 0;
        while i < self.rows.len()
            invariant
                self.wf(),
                i <= self.rows.len(),
                forall|k: int| 0 <= k < i ==> (#[trigger] self@[k]).identity != owner,
            decreases self.rows.len() - i,
        {
            if self.rows[i].identity == owner {
                proof {
                    lemma_wallet_unique(self@, i as int);
                }
                return Some(i);
            }
            i += 1;
        }
        None
    }

    /// Takes in a wallet as it is, unless its identity has one already.
    pub fn insert(&mut self, wallet: PlayerWallet) -> (result: Result<(), Error>)
        requires
            old(self).wf(),
        ensures
            final(self).wf(),
            result == if has_wallet(old(self)@, wallet.identity) {
                Err::<(), Error>(Error::AlreadyExists)
            } else {
                Ok::<(), Error>(())
            },
            final(self)@ == if result is Ok {
                old(self)@.push(wallet)
            } else {
                old(self)@
            },
    {
        if self.find(wallet.identity).is_some() {
            return Err(Error::AlreadyExists);
        }
        proof {
            lemma_wallet_push(self@, wallet);
        }
        self.rows.push(wallet);
        Ok(())
    }

    /// What `owner` can spend.
    pub fn balance(&self, owner: Identity) -> (balance: u64)
        requires
            self.wf(),
        ensures
            balance == balance_of(self@, owner),
    {
        match self.find(owner) {
            Some(k) => self.rows[k].premium_currency,
            None => 0,
        }
    }

    /// Hands out `owner`'s wallet, creating an empty one where there is none.
    pub fn get_or_create(&mut self, owner: Identity, now: Timestamp) -> (wallet: PlayerWallet)
        requires
            old(self).wf(),
        ensures
            final(self).wf(),
            final(self)@ == opened(old(self)@, owner, now),
            wallet == wallet_or_fresh(old(self)@, owner, now),
    {
        match self.find(owner) {
            Some(k) => self.rows[k],
            None => {
                let wallet = PlayerWallet {
                    identity: owner,
                    premium_currency: 0,
                    lifetime_purchased: 0,
                    last_purchase_at: now,
                };
                proof {
                    lemma_wallet_push(self@, wallet);
                }
                self.rows.push(wallet);
                wallet
            },
        }
    }

    /// Pays `amount` into `owner`'s wallet, creating the wallet where there is
    /// none: the balance and the lifetime total grow by `amount`.
    pub fn credit(&mut self, owner: Identity, amount: u64, now: Timestamp) -> (result: Result<
        (),
        Error,
    >)
        requires
            old(self).wf(),
        ensures
            final(self).wf(),
            result == credit_result(old(self)@, owner, amount),
            final(self)@ == credit_state(old(self)@, owner, amount, now),
    {
        match self.find(owner) {
            Some(k) => {
                let wallet = self.rows[k];
                if amount > u64::MAX - wallet.premium_currency || amount > u64::MAX
                    - wallet.lifetime_purchased {
                    return Err(Error::LimitReached);
                }
                let after = PlayerWallet {
                    identity: wallet.identity,
                    premium_currency: wallet.premium_currency + amount,
                    lifetime_purchased: wallet.lifetime_purchased + amount,
                    last_purchase_at: now,
                };
                proof {
                    lemma_wallet_update(self@, k as int, after);
                }
                self.rows[k] = after;
                Ok(())
            },
            None => {
                let wallet = PlayerWallet {
                    identity: owner,
                    premium_currency: amount,
                    lifetime_purchased: amount,
                    last_purchase_at: now,
                };
                proof {
                    lemma_wallet_push(self@, wallet);
                }
                self.rows.push(wallet);
                Ok(())
            },
        }
    }

    /// Takes `amount` out of `owner`'s wallet.
    pub fn debit(&mut self, owner: Identity, amount: u64) -> (result: Result<(), Error>)
        requires
            old(self).wf(),
        ensures
            final(self).wf(),
            result == debit_result(old(self)@, owner, amount),
            final(self)@ == debit_state(old(self)@, owner, amount),
    {
        match self.find(owner) {
            Some(k) => {
                let wallet = self.rows[k];
                if wallet.premium_currency < amount {
                    return Err(Error::InsufficientFunds);
                }
                let after = PlayerWallet {
                    identity: wallet.identity,
                    premium_currency: wallet.premium_currency - amount,
                    lifetime_purchased: wallet.lifetime_purchased,
                    last_purchase_at: wallet.last_purchase_at,
                };
                proof {
                    lemma_wallet_update(self@, k as int, after);
                }
                self.rows[k] = after;
                Ok(())
            },
            None => {
                if amount > 0 {
                    Err(Error::InsufficientFunds)
                } else {
                    Ok(())
                }
            },
        }
    }
}

} // verus!
