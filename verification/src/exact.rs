//! The exact-match side: records of an address and a type, kept in the same
//! container with their value bytes zero.

use vstd::prelude::*;
use crate::item::{FuzzySearchResultItem, ItemModel, models};
use crate::store::FuzzySearchResultManager;
use crate::types::{StoreError, ValueType};

verus! {

/// One hit of an exact search: where a value was found, and as what.
#[derive(Clone, Copy, Debug, PartialEq, Eq, Structural)]
pub struct ExactSearchResultItem {
    pub address: u64,
    pub value_type: ValueType,
}

impl ExactSearchResultItem {
    /// The record that stands for this hit in a store.
    pub open spec fn model(self) -> ItemModel {
        ItemModel {
            address: self.address,
            value: Seq::new(8, |i: int| 0u8),
            value_type: self.value_type,
        }
    }

    /// The hit that a record stands for.
    pub open spec fn of(m: ItemModel) -> ExactSearchResultItem {
        ExactSearchResultItem { address: m.address, value_type: m.value_type }
    }

    pub fn new(address: u64, value_type: ValueType) -> (r: Self)
        ensures
            r == (ExactSearchResultItem { address, value_type }),
    {
        ExactSearchResultItem { address, value_type }
    }

    /// The record with this address and type and a value of zero.
    pub fn to_record(&self) -> (r: FuzzySearchResultItem)
        ensures
            r@ == self.model(),
    {
        let r = FuzzySearchResultItem::from_bytes(self.address, &[], self.value_type);
        assert(r@.value =~= self.model().value);
        r
    }

    /// The address and type of a record.
    pub fn from_record(record: &FuzzySearchResultItem) -> (r: Self)
        ensures
            r == Self::of(record@),
    {
        ExactSearchResultItem { address: record.address, value_type: record.value_type }
    }
}

impl From<(u64, ValueType)> for ExactSearchResultItem {
    fn from(pair: (u64, ValueType)) -> (r: Self) {
        ExactSearchResultItem { address: pair.0, value_type: pair.1 }
    }
}

impl vstd::std_specs::convert::FromSpecImpl<(u64, ValueType)> for ExactSearchResultItem {
    open spec fn obeys_from_spec() -> bool {
        true
    }

    open spec fn from_spec(pair: (u64, ValueType)) -> Self {
        ExactSearchResultItem { address: pair.0, value_type: pair.1 }
    }
}

/// A store of exact hits. It is the hybrid container itself, reached through
/// `records`; what differs is the form in which hits go in and come out.
pub struct ExactSearchResultManager {
    pub records: FuzzySearchResultManager,
}

impl ExactSearchResultManager {
    /// The hits, by position.
    pub open spec fn view(&self) -> Seq<ExactSearchResultItem> {
        self.records@.map_values(|m: ItemModel| ExactSearchResultItem::of(m))
    }

    pub fn new(memory_buffer_size: usize) -> (r: Self)
        ensures
            r.records.wf(),
            r.records@ == Seq::<ItemModel>::empty(),
            r.records.spec_capacity() == memory_buffer_size / 17,
            r.records.spec_spill() is None,
    {
        ExactSearchResultManager { records: FuzzySearchResultManager::new(memory_buffer_size) }
    }

    /// Adds a hit, as the container adds its record.
    pub fn add_result(&mut self, item: ExactSearchResultItem) -> (r: Result<(), StoreError>)
        requires
            old(self).records.wf(),
        ensures
            final(self).records.wf(),
            final(self).records.same_shape(&old(self).records),
            r is Ok <==> old(self).records.has_room(),
            r is Ok ==> final(self).records@ == old(self).records@.insert(
                old(self).records.append_position(),
                item.model(),
            ),
            r is Err ==> r == Err::<(), StoreError>(StoreError::IoFailure) && final(self).records@
                == old(self).records@,
    {
        self.records.add_result(item.to_record())
    }

    /// The hits at the positions from `start` up to `start + size`, as far as
    /// there are any.
    pub fn get_results(&self, start: usize, size: usize) -> (r: Result<
        Vec<ExactSearchResultItem>,
        StoreError,
    >)
        requires
            self.records.wf(),
        ensures
            r is Ok,
            start >= self@.len() ==> r->Ok_0@.len() == 0,
            start < self@.len() ==> r->Ok_0@ == self@.subrange(
                start as int,
                if start + size <= self@.len() {
                    start + size
                } else {
                    self@.len() as int
                },
            ),
    {
        let records = match self.records.get_results(start, size) {
            Ok(v) => v,
            Err(e) => {
                return Err(e);
            },
        };
        let mut out: Vec<ExactSearchResultItem> = Vec::new();
        let mut i: usize = 0;
        while i < records.len()
            invariant
                i <= records@.len(),
                out@ == models(records@).take(i as int).map_values(
                    |m: ItemModel| ExactSearchResultItem::of(m),
                ),
            decreases records@.len() - i,
        {
            out.push(ExactSearchResultItem::from_record(&records[i]));
            i += 1;
            assert(out@ =~= models(records@).take(i as int).map_values(
                |m: ItemModel| ExactSearchResultItem::of(m),
            ));
        }
        proof {
            assert(models(records@).take(i as int) =~= models(records@));
            if start < self@.len() {
                let end = if start + size <= self@.len() {
                    start + size
                } else {
                    self@.len() as int
                };
                assert(out@ =~= self@.subrange(start as int, end));
            }
        }
        Ok(out)
    }

    /// All hits, by position.
    pub fn get_all_results(&self) -> (r: Result<Vec<ExactSearchResultItem>, StoreError>)
        requires
            self.records.wf(),
        ensures
            r is Ok,
            r->Ok_0@ == self@,
    {
        let n = self.records.total_count();
        let r = self.get_results(0, n);
        proof {
            if self@.len() > 0 {
                assert(self@.subrange(0, self@.len() as int) =~= self@);
            } else {
                assert(r->Ok_0@ =~= self@);
            }
        }
        r
    }
}

} // verus!
