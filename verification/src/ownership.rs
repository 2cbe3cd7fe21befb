//! The ownership registry: the permanent record of who acquired which
//! premium item. Records are added and never changed or removed.

use crate::error::Error;
use crate::identity::{Identity, Timestamp};
use vstd::prelude::*;
use vstd::string::StringExecFns;

verus! {

/// The record of one acquisition of a premium item.
#[derive(Debug)]
pub struct PremiumOwnership {
    pub ownership_id: u64,
    pub owner_identity: Identity,
    pub item_id: String,
    pub acquired_at: Timestamp,
    pub transaction_id: String,
    pub is_gift: bool,
    pub gifted_by: Option<Identity>,
}

/// An ownership record as a mathematical value.
pub struct PremiumOwnershipView {
    pub ownership_id: u64,
    pub owner_identity: Identity,
    pub item_id: Seq<char>,
    pub acquired_at: Timestamp,
    pub transaction_id: Seq<char>,
    pub is_gift: bool,
    pub gifted_by: Option<Identity>,
}

impl View for PremiumOwnership {
    type V = PremiumOwnershipView;

    open spec fn view(&self) -> PremiumOwnershipView {
        PremiumOwnershipView {
            ownership_id: self.ownership_id,
            owner_identity: self.owner_identity,
            item_id: self.item_id@,
            acquired_at: self.acquired_at,
            transaction_id: self.transaction_id@,
            is_gift: self.is_gift,
            gifted_by: self.gifted_by,
        }
    }
}

impl Clone for PremiumOwnership {
    fn clone(&self) -> (copy: PremiumOwnership)
        ensures
            copy == *self,
    {
        PremiumOwnership {
            ownership_id: self.ownership_id,
            owner_identity: self.owner_identity,
            item_id: self.item_id.clone(),
            acquired_at: self.acquired_at,
            transaction_id: self.transaction_id.clone(),
            is_gift: self.is_gift,
            gifted_by: self.gifted_by,
        }
    }
}

/// The registry as a mathematical value: the records in the order in which
/// they were made, and the id the next record gets.
pub struct OwnershipView {
    pub records: Seq<PremiumOwnershipView>,
    pub next_ownership_id: u64,
}

/// The views of a vector of records, in order.
pub open spec fn ownerships_view(rows: Seq<PremiumOwnership>) -> Seq<PremiumOwnershipView> {
    rows.map_values(|row: PremiumOwnership| row@)
}

/// The record says that `owner` acquired `item_id`.
pub open spec fn records_acquisition(
    record: PremiumOwnershipView,
    owner: Identity,
    item_id: Seq<char>,
) -> bool {
    record.owner_identity == owner && record.item_id == item_id
}

/// `owner` acquired `item_id` at some time, by purchase, gift or grant.
pub open spec fn has_owned(
    records: Seq<PremiumOwnershipView>,
    owner: Identity,
    item_id: Seq<char>,
) -> bool {
    exists|i: int|
        0 <= i < records.len() && records_acquisition(#[trigger] records[i], owner, item_id)
}

/// The ids of the records differ and lie below the id of the next record.
pub open spec fn ownership_wf(registry: OwnershipView) -> bool {
    &&& forall|i: int|
        0 <= i < registry.records.len() ==> (#[trigger] registry.records[i]).ownership_id
            < registry.next_ownership_id
    &&& forall|i: int, j: int|
        0 <= i < j < registry.records.len() ==> (#[trigger] registry.records[i]).ownership_id != (
        #[trigger] registry.records[j]).ownership_id
}

/// What `record` returns: the id of the new record, unless the ids have run
/// out.
pub open spec fn record_result(registry: OwnershipView) -> Result<u64, Error> {
    if registry.next_ownership_id == u64::MAX {
        Err(Error::LimitReached)
    } else {
        Ok(registry.next_ownership_id)
    }
}

/// The record that `record` makes.
pub open spec fn new_record(
    registry: OwnershipView,
    owner: Identity,
    item_id: Seq<char>,
    acquired_at: Timestamp,
    transaction_id: Seq<char>,
    gifted_by: Option<Identity>,
) -> PremiumOwnershipView {
    PremiumOwnershipView {
        ownership_id: registry.next_ownership_id,
        owner_identity: owner,
        item_id,
        acquired_at,
        transaction_id,
        is_gift: gifted_by is Some,
        gifted_by,
    }
}

/// The registry after `record`: one record more, the earlier ones as they
/// were; unchanged where `record` fails.
pub open spec fn record_state(
    registry: OwnershipView,
    owner: Identity,
    item_id: Seq<char>,
    acquired_at: Timestamp,
    transaction_id: Seq<char>,
    gifted_by: Option<Identity>,
) -> OwnershipView {
    if record_result(registry) is Err {
        registry
    } else {
        OwnershipView {
            records: registry.records.push(
                new_record(registry, owner, item_id, acquired_at, transaction_id, gifted_by),
            ),
            next_ownership_id: (registry.next_ownership_id + 1) as u64,
        }
    }
}

/// `record` keeps the registry well-formed.
pub proof fn lemma_record_wf(
    registry: OwnershipView,
    owner: Identity,
    item_id: Seq<char>,
    acquired_at: Timestamp,
    transaction_id: Seq<char>,
    gifted_by: Option<Identity>,
)
    requires
        ownership_wf(registry),
    ensures
        ownership_wf(
            record_state(registry, owner, item_id, acquired_at, transaction_id, gifted_by),
        ),
{
    let after = record_state(registry, owner, item_id, acquired_at, transaction_id, gifted_by);
    if record_result(registry) is Ok {
        let last = registry.records.len() as int;
        assert forall|i: int| 0 <= i < after.records.len() implies (
        #[trigger] after.records[i]).ownership_id < after.next_ownership_id by {
            if i < last {
                assert(registry.records[i].ownership_id < registry.next_ownership_id);
            }
        }
        assert forall|i: int, j: int| 0 <= i < j < after.records.len() implies (
        #[trigger] after.records[i]).ownership_id != (#[trigger] after.records[j]).ownership_id by {
            assert(registry.records[i].ownership_id < registry.next_ownership_id);
            if j < last {
                assert(registry.records[i].ownership_id != registry.records[j].ownership_id);
            }
        }
    }
}

/// Some record has the id `ownership_id`.
pub open spec fn has_record(records: Seq<PremiumOwnershipView>, ownership_id: u64) -> bool {
    exists|i: int| 0 <= i < records.len() && (#[trigger] records[i]).ownership_id == ownership_id
}

/// What `insert` returns: a record that comes with its id joins unless the id
/// is taken or is the largest number there is.
pub open spec fn insert_result(table: OwnershipView, row: PremiumOwnershipView) -> Result<(), Error> {
    if has_record(table.records, row.ownership_id) {
        Err(Error::AlreadyExists)
    } else if row.ownership_id == u64::MAX {
        Err(Error::LimitReached)
    } else {
        Ok(())
    }
}

/// The state after `insert`: the record is the last one, and the next new one
/// gets an id above its id; unchanged where `insert` fails.
pub open spec fn insert_state(table: OwnershipView, row: PremiumOwnershipView) -> OwnershipView {
    if insert_result(table, row) is Err {
        table
    } else {
        OwnershipView {
            records: table.records.push(row),
            next_ownership_id: if row.ownership_id >= table.next_ownership_id {
                (row.ownership_id + 1) as u64
            } else {
                table.next_ownership_id
            },
        }
    }
}

/// The ownership registry.
pub struct OwnershipRegistry {
    rows: Vec<PremiumOwnership>,
    next_ownership_id: u64,
}

impl View for OwnershipRegistry {
    type V = OwnershipView;

    closed spec fn view(&self) -> OwnershipView {
        OwnershipView {
            records: ownerships_view(self.rows@),
            next_ownership_id: self.next_ownership_id,
        }
    }
}

impl OwnershipRegistry {
    /// The registry's invariant: see [`ownership_wf`].
    pub open spec fn wf(&self) -> bool {
        ownership_wf(self@)
    }

    /// A registry without records, whose first record gets the id 1.
    pub fn new() -> (registry: OwnershipRegistry)
        ensures
            registry.wf(),
            registry@.records == Seq::<PremiumOwnershipView>::empty(),
            registry@.next_ownership_id == 1,
    {
        let registry = OwnershipRegistry { rows: Vec::new(), next_ownership_id: 1 };
        assert(registry@.records =~= Seq::<PremiumOwnershipView>::empty());
        registry
    }

    /// The records, in the order in which they were made.
    pub fn records(&self) -> (rows: &Vec<PremiumOwnership>)
        ensures
            ownerships_view(rows@) == self@.records,
    {
        &self.rows
    }

    /// The number of records.
    pub fn len(&self) -> (count: usize)
        ensures
            count == self@.records.len(),
    {
        self.rows.len()
    }

    /// The id the next record gets.
    pub fn next_ownership_id(&self) -> (next: u64)
        ensures
            next == self@.next_ownership_id,
    {
        self.next_ownership_id
    }

    /// Takes in a record that comes with its id, as when the store is filled
    /// from what was saved elsewhere.
    pub fn insert(&mut self, row: PremiumOwnership) -> (result: Result<(), Error>)
        requires
            old(self).wf(),
        ensures
            final(self).wf(),
            result == insert_result(old(self)@, row@),
            final(self)@ == insert_state(old(self)@, row@),
    {
        let mut i: usize = 0;
        while i < self.rows.len()
            invariant
                self.wf(),
                *self == *old(self),
                i <= self.rows.len(),
                forall|k: int|
                    0 <= k < i ==> (#[trigger] self@.records[k]).ownership_id != row.ownership_id,
            decreases self.rows.len() - i,
        {
            assert(self@.records[i as int] == self.rows[i as int]@);
            if self.rows[i].ownership_id == row.ownership_id {
                return Err(Error::AlreadyExists);
            }
            i += 1;
        }
        if row.ownership_id == u64::MAX {
            return Err(Error::LimitReached);
        }
        if row.ownership_id >= self.next_ownership_id {
            self.next_ownership_id = row.ownership_id + 1;
        }
        self.rows.push(row);
        proof {
            let before = old(self)@;
            let after = self@;
            assert(after.records =~= before.records.push(row@));
            let last = before.records.len() as int;
            assert forall|i: int| 0 <= i < after.records.len() implies (
            #[trigger] after.records[i]).ownership_id < after.next_ownership_id by {
                if i < last {
                    assert(before.records[i].ownership_id < before.next_ownership_id);
                }
            }
            assert forall|i: int, j: int| 0 <= i < j < after.records.len() implies (
            #[trigger] after.records[i]).ownership_id != (
            #[trigger] after.records[j]).ownership_id by {
                if j < last {
                    assert(before.records[i].ownership_id != before.records[j].ownership_id);
                } else {
                    assert(before.records[i].ownership_id != row.ownership_id);
                }
            }
        }
        Ok(())
    }

    /// Whether the ids have run out, so that nothing more can be recorded.
    pub fn is_full(&self) -> (full: bool)
        ensures
            full == (record_result(self@) is Err),
    {
        self.next_ownership_id == u64::MAX
    }

    /// Whether `owner` ever acquired `item_id`, by purchase, gift or grant.
    pub fn has_owned(&self, owner: Identity, item_id: &str) -> (owned: bool)
        ensures
            owned == has_owned(self@.records, owner, item_id@),
    {
        let key = String::from_str(item_id);
        let mut i: usize = 0;
        while i < self.rows.len()
            invariant
                i <= self.rows.len(),
                key@ == item_id@,
                forall|k: int|
                    0 <= k < i ==> !records_acquisition(
                        #[trigger] self@.records[k],
                        owner,
                        item_id@,
                    ),
            decreases self.rows.len() - i,
        {
            assert(self@.records[i as int] == self.rows[i as int]@);
            if self.rows[i].owner_identity == owner && self.rows[i].item_id == key {
                return true;
            }
            i += 1;
        }
        false
    }

    /// Records that `owner` acquired `item_id` at `acquired_at` under the
    /// reference `transaction_id`, as a gift where `gifted_by` names the
    /// giver. Returns the id of the record.
    pub fn record(
        &mut self,
        owner: Identity,
        item_id: String,
        acquired_at: Timestamp,
        transaction_id: String,
        gifted_by: Option<Identity>,
    ) -> (result: Result<u64, Error>)
        requires
            old(self).wf(),
        ensures
            final(self).wf(),
            result == record_result(old(self)@),
            final(self)@ == record_state(
                old(self)@,
                owner,
                item_id@,
                acquired_at,
                transaction_id@,
                gifted_by,
            ),
    {
        proof {
            lemma_record_wf(self@, owner, item_id@, acquired_at, transaction_id@, gifted_by);
        }
        if self.next_ownership_id == u64::MAX {
            return Err(Error::LimitReached);
        }
        let ownership_id = self.next_ownership_id;
        let row = PremiumOwnership {
            ownership_id,
            owner_identity: owner,
            item_id,
            acquired_at,
            transaction_id,
            is_gift: gifted_by.is_some(),
            gifted_by,
        };
        self.rows.push(row);
        self.next_ownership_id = ownership_id + 1;
        proof {
            assert(self@.records =~= old(self)@.records.push(row@));
        }
        Ok(ownership_id)
    }
}

} // verus!
