//! The transaction log: the audit trail of every operation that touches
//! premium currency. Records are added and never changed or removed.

use crate::error::Error;
use crate::identity::{Identity, Timestamp};
use vstd::prelude::*;

verus! {

/// The record of one operation on premium currency.
#[derive(Debug)]
pub struct PremiumTransaction {
    pub transaction_id: u64,
    pub buyer_identity: Identity,
    pub item_id: String,
    pub currency_spent: u32,
    pub transaction_type: String,
    pub timestamp: Timestamp,
    pub receipt_id: String,
}

/// A transaction record as a mathematical value.
pub struct PremiumTransactionView {
    pub transaction_id: u64,
    pub buyer_identity: Identity,
    pub item_id: Seq<char>,
    pub currency_spent: u32,
    pub transaction_type: Seq<char>,
    pub timestamp: Timestamp,
    pub receipt_id: Seq<char>,
}

impl View for PremiumTransaction {
    type V = PremiumTransactionView;

    open spec fn view(&self) -> PremiumTransactionView {
        PremiumTransactionView {
            transaction_id: self.transaction_id,
            buyer_identity: self.buyer_identity,
            item_id: self.item_id@,
            currency_spent: self.currency_spent,
            transaction_type: self.transaction_type@,
            timestamp: self.timestamp,
            receipt_id: self.receipt_id@,
        }
    }
}

impl Clone for PremiumTransaction {
    fn clone(&self) -> (copy: PremiumTransaction)
        ensures
            copy == *self,
    {
        PremiumTransaction {
            transaction_id: self.transaction_id,
            buyer_identity: self.buyer_identity,
            item_id: self.item_id.clone(),
            currency_spent: self.currency_spent,
            transaction_type: self.transaction_type.clone(),
            timestamp: self.timestamp,
            receipt_id: self.receipt_id.clone(),
        }
    }
}

/// The log as a mathematical value: the records in the order in which they
/// were made, and the id the next record gets.
pub struct LogView {
    pub records: Seq<PremiumTransactionView>,
    pub next_transaction_id: u64,
}

/// The views of a vector of records, in order.
pub open spec fn transactions_view(rows: Seq<PremiumTransaction>) -> Seq<PremiumTransactionView> {
    rows.map_values(|row: PremiumTransaction| row@)
}

/// The kind of a purchase.
pub open spec fn kind_purchase() -> Seq<char> {
    "purchase"@
}

/// The kind of a gift.
pub open spec fn kind_gift() -> Seq<char> {
    "gift"@
}

/// The kind of a grant.
pub open spec fn kind_grant() -> Seq<char> {
    "grant"@
}

/// The kind of a currency top-up.
pub open spec fn kind_currency_add() -> Seq<char> {
    "currency_add"@
}

/// The item id under which currency top-ups are filed.
pub open spec fn currency_item() -> Seq<char> {
    "currency_purchase"@
}

/// The ids of the records differ and lie below the id of the next record.
pub open spec fn log_wf(log: LogView) -> bool {
    &&& forall|i: int|
        0 <= i < log.records.len() ==> (#[trigger] log.records[i]).transaction_id
            < log.next_transaction_id
    &&& forall|i: int, j: int|
        0 <= i < j < log.records.len() ==> (#[trigger] log.records[i]).transaction_id != (
        #[trigger] log.records[j]).transaction_id
}

/// What `append` returns: the id of the new record, unless the ids have run
/// out.
pub open spec fn append_result(log: LogView) -> Result<u64, Error> {
    if log.next_transaction_id == u64::MAX {
        Err(Error::LimitReached)
    } else {
        Ok(log.next_transaction_id)
    }
}

/// The record that `append` makes.
pub open spec fn new_transaction(
    log: LogView,
    buyer: Identity,
    item_id: Seq<char>,
    currency_spent: u32,
    transaction_type: Seq<char>,
    timestamp: Timestamp,
    receipt_id: Seq<char>,
) -> PremiumTransactionView {
    PremiumTransactionView {
        transaction_id: log.next_transaction_id,
        buyer_identity: buyer,
        item_id,
        currency_spent,
        transaction_type,
        timestamp,
        receipt_id,
    }
}

/// The log after `append`: one record more, the earlier ones as they were;
/// unchanged where `append` fails.
pub open spec fn append_state(
    log: LogView,
    buyer: Identity,
    item_id: Seq<char>,
    currency_spent: u32,
    transaction_type: Seq<char>,
    timestamp: Timestamp,
    receipt_id: Seq<char>,
) -> LogView {
    if append_result(log) is Err {
        log
    } else {
        LogView {
            records: log.records.push(
                new_transaction(
                    log,
                    buyer,
                    item_id,
                    currency_spent,
                    transaction_type,
                    timestamp,
                    receipt_id,
                ),
            ),
            next_transaction_id: (log.next_transaction_id + 1) as u64,
        }
    }
}

/// `append` keeps the log well-formed.
pub proof fn lemma_append_wf(
    log: LogView,
    buyer: Identity,
    item_id: Seq<char>,
    currency_spent: u32,
    transaction_type: Seq<char>,
    timestamp: Timestamp,
    receipt_id: Seq<char>,
)
    requires
        log_wf(log),
    ensures
        log_wf(
            append_state(
                log,
                buyer,
                item_id,
                currency_spent,
                transaction_type,
                timestamp,
                receipt_id,
            ),
        ),
{
    let after = append_state(
        log,
        buyer,
        item_id,
        currency_spent,
        transaction_type,
        timestamp,
        receipt_id,
    );
    if append_result(log) is Ok {
        let last = log.records.len() as int;
        assert forall|i: int| 0 <= i < after.records.len() implies (
        #[trigger] after.records[i]).transaction_id < after.next_transaction_id by {
            if i < last {
                assert(log.records[i].transaction_id < log.next_transaction_id);
            }
        }
        assert forall|i: int, j: int| 0 <= i < j < after.records.len() implies (
        #[trigger] after.records[i]).transaction_id != (
        #[trigger] after.records[j]).transaction_id by {
            assert(log.records[i].transaction_id < log.next_transaction_id);
            if j < last {
                assert(log.records[i].transaction_id != log.records[j].transaction_id);
            }
        }
    }
}

/// Some record has the id `transaction_id`.
pub open spec fn has_transaction(records: Seq<PremiumTransactionView>, transaction_id: u64) -> bool {
    exists|i: int| 0 <= i < records.len() && (#[trigger] records[i]).transaction_id == transaction_id
}

/// What `insert` returns: a record that comes with its id joins unless the id
/// is taken or is the largest number there is.
pub open spec fn insert_result(table: LogView, row: PremiumTransactionView) -> Result<(), Error> {
    if has_transaction(table.records, row.transaction_id) {
        Err(Error::AlreadyExists)
    } else if row.transaction_id == u64::MAX {
        Err(Error::LimitReached)
    } else {
        Ok(())
    }
}

/// The state after `insert`: the record is the last one, and the next new one
/// gets an id above its id; unchanged where `insert` fails.
pub open spec fn insert_state(table: LogView, row: PremiumTransactionView) -> LogView {
    if insert_result(table, row) is Err {
        table
    } else {
        LogView {
            records: table.records.push(row),
            next_transaction_id: if row.transaction_id >= table.next_transaction_id {
                (row.transaction_id + 1) as u64
            } else {
                table.next_transaction_id
            },
        }
    }
}

/// The transaction log.
pub struct TransactionLog {
    rows: Vec<PremiumTransaction>,
    next_transaction_id: u64,
}

impl View for TransactionLog {
    type V = LogView;

    closed spec fn view(&self) -> LogView {
        LogView {
            records: transactions_view(self.rows@),
            next_transaction_id: self.next_transaction_id,
        }
    }
}

impl TransactionLog {
    /// The log's invariant: see [`log_wf`].
    pub open spec fn wf(&self) -> bool {
        log_wf(self@)
    }

    /// A log without records, whose first record gets the id 1.
    pub fn new() -> (log: TransactionLog)
        ensures
            log.wf(),
            log@.records == Seq::<PremiumTransactionView>::empty(),
            log@.next_transaction_id == 1,
    {
        let log = TransactionLog { rows: Vec::new(), next_transaction_id: 1 };
        assert(log@.records =~= Seq::<PremiumTransactionView>::empty());
        log
    }

    /// The records, in the order in which they were made.
    pub fn records(&self) -> (rows: &Vec<PremiumTransaction>)
        ensures
            transactions_view(rows@) == self@.records,
    {
        &self.rows
    }

    /// The id the next record gets.
    pub fn next_transaction_id(&self) -> (next: u64)
        ensures
            next == self@.next_transaction_id,
    {
        self.next_transaction_id
    }

    /// Takes in a record that comes with its id, as when the store is filled
    /// from what was saved elsewhere.
    pub fn insert(&mut self, row: PremiumTransaction) -> (result: Result<(), Error>)
        requires
            old(self).wf(),
        ensures
            final(self).wf(),
            result == insert_result(old(self)@, row@),
            final(self)@ == insert_state(old(self)@, row@),
    {
        let mut i: usize = 0;
        while i < self.rows.len()
            invariant
                self.wf(),
                *self == *old(self),
                i <= self.rows.len(),
                forall|k: int|
                    0 <= k < i ==> (#[trigger] self@.records[k]).transaction_id != row.transaction_id,
            decreases self.rows.len() - i,
        {
            assert(self@.records[i as int] == self.rows[i as int]@);
            if self.rows[i].transaction_id == row.transaction_id {
                return Err(Error::AlreadyExists);
            }
            i += 1;
        }
        if row.transaction_id == u64::MAX {
            return Err(Error::LimitReached);
        }
        if row.transaction_id >= self.next_transaction_id {
            self.next_transaction_id = row.transaction_id + 1;
        }
        self.rows.push(row);
        proof {
            let before = old(self)@;
            let after = self@;
            assert(after.records =~= before.records.push(row@));
            let last = before.records.len() as int;
            assert forall|i: int| 0 <= i < after.records.len() implies (
            #[trigger] after.records[i]).transaction_id < after.next_transaction_id by {
                if i < last {
                    assert(before.records[i].transaction_id < before.next_transaction_id);
                }
            }
            assert forall|i: int, j: int| 0 <= i < j < after.records.len() implies (
            #[trigger] after.records[i]).transaction_id != (
            #[trigger] after.records[j]).transaction_id by {
                if j < last {
                    assert(before.records[i].transaction_id != before.records[j].transaction_id);
                } else {
                    assert(before.records[i].transaction_id != row.transaction_id);
                }
            }
        }
        Ok(())
    }

    /// Whether the ids have run out, so that nothing more can be recorded.
    pub fn is_full(&self) -> (full: bool)
        ensures
            full == (append_result(self@) is Err),
    {
        self.next_transaction_id == u64::MAX
    }

    /// Adds a record to the log and returns its id.
    pub fn append(
        &mut self,
        buyer: Identity,
        item_id: String,
        currency_spent: u32,
        transaction_type: String,
        timestamp: Timestamp,
        receipt_id: String,
    ) -> (result: Result<u64, Error>)
        requires
            old(self).wf(),
        ensures
            final(self).wf(),
            result == append_result(old(self)@),
            final(self)@ == append_state(
                old(self)@,
                buyer,
                item_id@,
                currency_spent,
                transaction_type@,
                timestamp,
                receipt_id@,
            ),
    {
        proof {
            lemma_append_wf(
                self@,
                buyer,
                item_id@,
                currency_spent,
                transaction_type@,
                timestamp,
                receipt_id@,
            );
        }
        if self.next_transaction_id == u64::MAX {
            return Err(Error::LimitReached);
        }
        let transaction_id = self.next_transaction_id;
        let row = PremiumTransaction {
            transaction_id,
            buyer_identity: buyer,
            item_id,
            currency_spent,
            transaction_type,
            timestamp,
            receipt_id,
        };
        self.rows.push(row);
        self.next_transaction_id = transaction_id + 1;
        proof {
            assert(self@.records =~= old(self)@.records.push(row@));
        }
        Ok(transaction_id)
    }
}

} // verus!
