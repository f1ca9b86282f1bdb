//! The store as the pipeline relies on it: a table that holds one record
//! under each pair of hash key and sort key, where a write replaces what was
//! there. The laws of this module say what bulk writes leave in such a table.

use vstd::prelude::*;
use vstd::seq_lib::lemma_flatten_concat;
use crate::model::ReportView;

verus! {

/// The records of a table, each under its hash key and sort key.
pub struct Table {
    pub items: Map<(Seq<char>, Seq<char>), ReportView>,
}

/// The last record of `records` that has the key `key`.
pub open spec fn last_under(records: Seq<ReportView>, key: (Seq<char>, Seq<char>)) -> Option<
    ReportView,
>
    decreases records.len(),
{
    if records.len() == 0 {
        None
    } else if records.last().key() == key {
        Some(records.last())
    } else {
        last_under(records.drop_last(), key)
    }
}

impl Table {
    /// The table after a write of `record`.
    pub open spec fn put(self, record: ReportView) -> Table {
        Table { items: self.items.insert(record.key(), record) }
    }

    /// The table after writes of `records`, one after the other.
    pub open spec fn put_all(self, records: Seq<ReportView>) -> Table
        decreases records.len(),
    {
        if records.len() == 0 {
            self
        } else {
            self.put_all(records.drop_last()).put(records.last())
        }
    }

    /// The table after the bulk writes `batches`, one after the other, where
    /// the store takes every item.
    pub open spec fn write_batches(self, batches: Seq<Seq<ReportView>>) -> Table
        decreases batches.len(),
    {
        if batches.len() == 0 {
            self
        } else {
            self.write_batches(batches.drop_last()).put_all(batches.last())
        }
    }

    /// What a table holds under a key after writes: the last record written
    /// under that key, or what it held before where none was.
    pub proof fn lemma_put_all_holds(self, records: Seq<ReportView>, key: (Seq<char>, Seq<char>))
        ensures
            match last_under(records, key) {
                Some(record) => self.put_all(records).items.contains_key(key) && self.put_all(
                    records,
                ).items[key] == record,
                None => self.put_all(records).items.contains_key(key) == self.items.contains_key(
                    key,
                ) && (self.items.contains_key(key) ==> self.put_all(records).items[key]
                    == self.items[key]),
            },
        decreases records.len(),
    {
        if records.len() > 0 {
            self.lemma_put_all_holds(records.drop_last(), key);
        }
    }

    /// Writing `first` and then `second` is writing `first + second`.
    pub proof fn lemma_put_all_concat(self, first: Seq<ReportView>, second: Seq<ReportView>)
        ensures
            self.put_all(first + second) == self.put_all(first).put_all(second),
        decreases second.len(),
    {
        if second.len() == 0 {
            assert(first + second == first);
        } else {
            assert((first + second).drop_last() == first + second.drop_last());
            assert((first + second).last() == second.last());
            self.lemma_put_all_concat(first, second.drop_last());
        }
    }

    /// Where the batches lie does not matter: bulk writes leave what writes
    /// of their records in order leave.
    pub proof fn lemma_write_batches_flat(self, batches: Seq<Seq<ReportView>>)
        ensures
            self.write_batches(batches) == self.put_all(batches.flatten()),
        decreases batches.len(),
    {
        if batches.len() == 0 {
            assert(batches.flatten() == Seq::<ReportView>::empty());
        } else {
            self.lemma_write_batches_flat(batches.drop_last());
            lemma_flatten_concat(batches.drop_last(), seq![batches.last()]);
            seq![batches.last()].lemma_flatten_one_element();
            assert(batches.drop_last() + seq![batches.last()] == batches);
            self.lemma_put_all_concat(batches.drop_last().flatten(), batches.last());
        }
    }

    /// Writing the same records once more changes nothing.
    pub proof fn lemma_put_all_again(self, records: Seq<ReportView>)
        ensures
            self.put_all(records).put_all(records) == self.put_all(records),
    {
        let once = self.put_all(records);
        let twice = once.put_all(records);
        assert forall|key: (Seq<char>, Seq<char>)|
            #[trigger] twice.items.dom().contains(key) == once.items.dom().contains(key) && (
            once.items.dom().contains(key) ==> twice.items[key] == once.items[key]) by {
            self.lemma_put_all_holds(records, key);
            once.lemma_put_all_holds(records, key);
        }
        assert(twice.items =~= once.items);
    }

    /// Ingesting an archive again leaves the table as the first ingestion
    /// left it: the same records, in whatever batches they are written the
    /// second time, replace themselves.
    pub proof fn lemma_reingestion_is_idempotent(
        self,
        first: Seq<Seq<ReportView>>,
        second: Seq<Seq<ReportView>>,
    )
        requires
            first.flatten() == second.flatten(),
        ensures
            self.write_batches(first).write_batches(second) == self.write_batches(first),
    {
        self.lemma_write_batches_flat(first);
        self.write_batches(first).lemma_write_batches_flat(second);
        self.lemma_put_all_again(first.flatten());
    }
}

} // verus!
