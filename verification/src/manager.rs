//! The manager of a search session: one store of exact hits, one of fuzzy
//! hits, and the mode that says which of the two is active.

use vstd::prelude::*;
use memmap2::MmapMut;
use crate::compact::{ascending, gather, index_set, survivors};
use crate::exact::{ExactSearchResultItem, ExactSearchResultManager};
use crate::item::{FuzzySearchResultItem, ItemModel, models, padded};
use crate::spill::mapped_bytes;
use crate::store::{FuzzySearchResultManager, SpillRequest};
use crate::types::{StoreError, ValueType};

verus! {

/// Which of the two stores is active.
#[derive(Clone, Copy, Debug, PartialEq, Eq, Structural)]
pub enum SearchResultMode {
    Exact,
    Fuzzy,
}

/// A hit of either kind.
#[derive(Clone, Copy, Debug)]
pub enum SearchResultItem {
    Exact(ExactSearchResultItem),
    Fuzzy(FuzzySearchResultItem),
}

impl SearchResultItem {
    /// The mode that a hit belongs to.
    pub open spec fn mode(self) -> SearchResultMode {
        match self {
            SearchResultItem::Exact(_) => SearchResultMode::Exact,
            SearchResultItem::Fuzzy(_) => SearchResultMode::Fuzzy,
        }
    }

    /// The record that stands for a hit in its store.
    pub open spec fn model(self) -> ItemModel {
        match self {
            SearchResultItem::Exact(e) => e.model(),
            SearchResultItem::Fuzzy(f) => f@,
        }
    }

    /// Whether this hit is what reading the record `m` gives.
    pub open spec fn stands_for(self, m: ItemModel) -> bool {
        match self {
            SearchResultItem::Exact(e) => e == ExactSearchResultItem::of(m),
            SearchResultItem::Fuzzy(f) => f@ == m,
        }
    }

    pub fn new_exact(address: u64, value_type: ValueType) -> (r: Self)
        ensures
            r == SearchResultItem::Exact(ExactSearchResultItem { address, value_type }),
    {
        SearchResultItem::Exact(ExactSearchResultItem::new(address, value_type))
    }

    pub fn new_fuzzy(address: u64, value: [u8; 8], value_type: ValueType) -> (r: Self)
        ensures
            r == SearchResultItem::Fuzzy(FuzzySearchResultItem { address, value, value_type }),
    {
        SearchResultItem::Fuzzy(FuzzySearchResultItem::new(address, value, value_type))
    }

    pub fn new_fuzzy_from_bytes(address: u64, bytes: &[u8], value_type: ValueType) -> (r: Self)
        ensures
            r is Fuzzy,
            r.model() == (ItemModel { address, value: padded(bytes@), value_type }),
    {
        SearchResultItem::Fuzzy(FuzzySearchResultItem::from_bytes(address, bytes, value_type))
    }
}

impl From<(u64, ValueType)> for SearchResultItem {
    fn from(pair: (u64, ValueType)) -> (r: Self) {
        SearchResultItem::Exact(ExactSearchResultItem { address: pair.0, value_type: pair.1 })
    }
}

impl vstd::std_specs::convert::FromSpecImpl<(u64, ValueType)> for SearchResultItem {
    open spec fn obeys_from_spec() -> bool {
        true
    }

    open spec fn from_spec(pair: (u64, ValueType)) -> Self {
        SearchResultItem::Exact(ExactSearchResultItem { address: pair.0, value_type: pair.1 })
    }
}

/// How many hits at the start of `items` belong to `mode`.
pub open spec fn matching_prefix(mode: SearchResultMode, items: Seq<SearchResultItem>) -> nat
    decreases items.len(),
{
    if items.len() == 0 {
        0
    } else {
        let before = matching_prefix(mode, items.drop_last());
        if before == items.len() - 1 && items.last().mode() == mode {
            before + 1
        } else {
            before
        }
    }
}

/// The records of a sequence of hits.
pub open spec fn hit_models(items: Seq<SearchResultItem>) -> Seq<ItemModel> {
    items.map_values(|x: SearchResultItem| x.model())
}

pub struct SearchResultManager {
    current_mode: SearchResultMode,
    exact: ExactSearchResultManager,
    fuzzy: FuzzySearchResultManager,
}

impl SearchResultManager {
    pub closed spec fn spec_mode(&self) -> SearchResultMode {
        self.current_mode
    }

    /// The container of the exact store.
    pub closed spec fn spec_exact(&self) -> FuzzySearchResultManager {
        self.exact.records
    }

    /// The fuzzy store.
    pub closed spec fn spec_fuzzy(&self) -> FuzzySearchResultManager {
        self.fuzzy
    }

    /// The store that operations go to.
    pub open spec fn active(&self) -> FuzzySearchResultManager {
        match self.spec_mode() {
            SearchResultMode::Exact => self.spec_exact(),
            SearchResultMode::Fuzzy => self.spec_fuzzy(),
        }
    }

    /// The other store.
    pub open spec fn idle(&self) -> FuzzySearchResultManager {
        match self.spec_mode() {
            SearchResultMode::Exact => self.spec_fuzzy(),
            SearchResultMode::Fuzzy => self.spec_exact(),
        }
    }

    pub open spec fn wf(&self) -> bool {
        self.spec_exact().wf() && self.spec_fuzzy().wf()
    }

    /// The mode is as before and the idle store untouched.
    pub open spec fn same_mode(&self, other: &Self) -> bool {
        &&& self.spec_mode() == other.spec_mode()
        &&& self.idle() == other.idle()
        &&& self.active().same_shape(&other.active())
    }

    /// Two empty stores, each with the given budget of RAM; exact mode.
    pub fn new(memory_buffer_size: usize) -> (r: Self)
        ensures
            r.wf(),
            r.spec_mode() == SearchResultMode::Exact,
            r.spec_exact()@ == Seq::<ItemModel>::empty(),
            r.spec_fuzzy()@ == Seq::<ItemModel>::empty(),
            r.spec_exact().spec_capacity() == memory_buffer_size / 17,
            r.spec_fuzzy().spec_capacity() == memory_buffer_size / 17,
            r.spec_exact().spec_spill() is None,
            r.spec_fuzzy().spec_spill() is None,
    {
        SearchResultManager {
            current_mode: SearchResultMode::Exact,
            exact: ExactSearchResultManager::new(memory_buffer_size),
            fuzzy: FuzzySearchResultManager::new(memory_buffer_size),
        }
    }

    pub fn get_mode(&self) -> (m: SearchResultMode)
        ensures
            m == self.spec_mode(),
    {
        self.current_mode
    }

    /// Number of records in the active store.
    pub fn total_count(&self) -> (n: usize)
        requires
            self.wf(),
        ensures
            n == self.active()@.len(),
    {
        match self.current_mode {
            SearchResultMode::Exact => self.exact.records.total_count(),
            SearchResultMode::Fuzzy => self.fuzzy.total_count(),
        }
    }

    /// Empties the active store.
    pub fn clear(&mut self) -> (r: Result<(), StoreError>)
        requires
            old(self).wf(),
        ensures
            r is Ok,
            final(self).wf(),
            final(self).same_mode(old(self)),
            final(self).active()@ == Seq::<ItemModel>::empty(),
            final(self).active().spec_spill() == old(self).active().spec_spill(),
    {
        match self.current_mode {
            SearchResultMode::Exact => self.exact.records.clear(),
            SearchResultMode::Fuzzy => self.fuzzy.clear(),
        }
    }

    /// Switches to `mode`. Switching to the mode that is active changes
    /// nothing. Else the store that was active is emptied and its spill
    /// region detached; its mapping is handed out for the caller to release.
    pub fn set_mode(&mut self, mode: SearchResultMode) -> (r: Result<Option<MmapMut>, StoreError>)
        requires
            old(self).wf(),
        ensures
            r is Ok,
            final(self).wf(),
            final(self).spec_mode() == mode,
            mode == old(self).spec_mode() ==> r->Ok_0 is None && final(self).spec_exact() == old(
                self).spec_exact() && final(self).spec_fuzzy() == old(self).spec_fuzzy(),
            mode != old(self).spec_mode() ==> final(self).active() == old(self).idle() && final(
                self).idle()@ == Seq::<ItemModel>::empty() && final(self).idle().spec_spill() is None
                && final(self).idle().spec_capacity() == old(self).active().spec_capacity()
                && match old(self).active().spec_spill() {
                Some(s) => r->Ok_0 is Some && mapped_bytes(r->Ok_0->0) == s.bytes(),
                None => r->Ok_0 is None,
            },
    {
        if mode == self.current_mode {
            return Ok(None);
        }
        let detached = match self.current_mode {
            SearchResultMode::Exact => {
                let _ = self.exact.records.clear();
                self.exact.records.clear_disk()
            },
            SearchResultMode::Fuzzy => {
                let _ = self.fuzzy.clear();
                self.fuzzy.clear_disk()
            },
        };
        self.current_mode = mode;
        Ok(detached)
    }

    /// What the spill file of the active store needs before the next record.
    pub fn spill_request(&self) -> (r: SpillRequest)
        requires
            self.wf(),
        ensures
            r == self.active().spec_spill_request(),
    {
        match self.current_mode {
            SearchResultMode::Exact => self.exact.records.spill_request(),
            SearchResultMode::Fuzzy => self.fuzzy.spill_request(),
        }
    }

    /// Attaches a mapping to the active store, as
    /// [`FuzzySearchResultManager::attach_spill`] does.
    pub fn attach_spill(&mut self, map: MmapMut) -> (r: Result<Option<MmapMut>, MmapMut>)
        requires
            old(self).wf(),
        ensures
            final(self).wf(),
            final(self).spec_mode() == old(self).spec_mode(),
            final(self).idle() == old(self).idle(),
            final(self).active().memory_view() == old(self).active().memory_view(),
            final(self).active().spec_disk_count() == old(self).active().spec_disk_count(),
            r is Ok <==> old(self).active().spec_disk_count() <= mapped_bytes(map).len() / 17,
            r is Ok ==> final(self).active().spec_spill() is Some && final(
                self).active().spec_spill()->0.bytes() == mapped_bytes(map) && match old(
                self).active().spec_spill() {
                Some(s) => r->Ok_0 is Some && mapped_bytes(r->Ok_0->0) == s.bytes(),
                None => r->Ok_0 is None,
            },
            r is Err ==> mapped_bytes(r->Err_0) == mapped_bytes(map) && final(
                self).active().spec_spill() == old(self).active().spec_spill(),
    {
        match self.current_mode {
            SearchResultMode::Exact => self.exact.records.attach_spill(map),
            SearchResultMode::Fuzzy => self.fuzzy.attach_spill(map),
        }
    }

    /// Adds a hit to the active store. A hit of the other kind is refused.
    pub fn add_result(&mut self, item: SearchResultItem) -> (r: Result<(), StoreError>)
        requires
            old(self).wf(),
        ensures
            final(self).wf(),
            final(self).same_mode(old(self)),
            r is Ok <==> item.mode() == old(self).spec_mode() && old(self).active().has_room(),
            r is Ok ==> final(self).active()@ == old(self).active()@.insert(
                old(self).active().append_position(),
                item.model(),
            ),
            r is Err ==> final(self).active()@ == old(self).active()@ && r->Err_0 == (if item.mode()
                != old(self).spec_mode() {
                StoreError::ModeMismatch
            } else {
                StoreError::IoFailure
            }),
    {
        match item {
            SearchResultItem::Exact(exact_item) => {
                match self.current_mode {
                    SearchResultMode::Exact => self.exact.add_result(exact_item),
                    SearchResultMode::Fuzzy => Err(StoreError::ModeMismatch),
                }
            },
            SearchResultItem::Fuzzy(fuzzy_item) => {
                match self.current_mode {
                    SearchResultMode::Fuzzy => self.fuzzy.add_result(fuzzy_item),
                    SearchResultMode::Exact => Err(StoreError::ModeMismatch),
                }
            },
        }
    }

    /// Adds hits one by one until one is refused: those at the start of
    /// `results` that belong to the active mode, as far as the store has
    /// room for them. The first hit of the other kind ends the run with
    /// `ModeMismatch`, a full store with `IoFailure`.
    pub fn add_results_batch(&mut self, results: Vec<SearchResultItem>) -> (r: Result<
        (),
        StoreError,
    >)
        requires
            old(self).wf(),
        ensures
            final(self).wf(),
            final(self).same_mode(old(self)),
            ({
                let before = old(self).active();
                let n = matching_prefix(old(self).spec_mode(), results@);
                let records = hit_models(results@).take(n as int);
                let k = before.ram_share(n);
                let j = before.disk_share(n);
                &&& final(self).active().memory_view() == before.memory_view() + records.subrange(
                    0,
                    k as int,
                )
                &&& final(self).active().disk_view() == before.disk_view() + records.subrange(
                    k as int,
                    (k + j) as int,
                )
                &&& (r is Ok <==> k + j == n && n == results@.len())
                &&& (r is Err ==> r->Err_0 == (if k + j < n {
                    StoreError::IoFailure
                } else {
                    StoreError::ModeMismatch
                }))
            }),
    {
        let mode = self.current_mode;
        let mut records: Vec<FuzzySearchResultItem> = Vec::new();
        let mut i: usize = 0;
        assert(results@.take(0) =~= Seq::<SearchResultItem>::empty());
        assert(models(records@) =~= hit_models(results@).take(0));
        while i < results.len()
            invariant
                i <= results@.len(),
                records@.len() <= i,
                records@.len() == matching_prefix(mode, results@.take(i as int)),
                models(records@) == hit_models(results@).take(records@.len() as int),
            decreases results@.len() - i,
        {
            let ghost prev = records@;
            proof {
                assert(results@.take(i as int + 1).drop_last() =~= results@.take(i as int));
                assert(results@.take(i as int + 1).last() == results@[i as int]);
            }
            if records.len() == i {
                match results[i] {
                    SearchResultItem::Exact(e) => {
                        if mode == SearchResultMode::Exact {
                            records.push(e.to_record());
                        }
                    },
                    SearchResultItem::Fuzzy(f) => {
                        if mode == SearchResultMode::Fuzzy {
                            records.push(f);
                        }
                    },
                }
            }
            proof {
                if records@.len() > prev.len() {
                    assert(models(records@) =~= models(prev).push(results@[i as int].model()));
                    assert(models(records@) =~= hit_models(results@).take(records@.len() as int));
                }
            }
            i += 1;
        }
        assert(results@.take(i as int) =~= results@);
        let added = match self.current_mode {
            SearchResultMode::Exact => self.exact.records.add_results(&records),
            SearchResultMode::Fuzzy => self.fuzzy.add_results(&records),
        };
        match added {
            Err(e) => Err(StoreError::IoFailure),
            Ok(()) => {
                if records.len() < results.len() {
                    Err(StoreError::ModeMismatch)
                } else {
                    Ok(())
                }
            },
        }
    }

    /// The hits of the active store at the positions from `start` up to
    /// `start + size`, as far as there are any.
    pub fn get_results(&self, start: usize, size: usize) -> (r: Result<
        Vec<SearchResultItem>,
        StoreError,
    >)
        requires
            self.wf(),
        ensures
            r is Ok,
            start >= self.active()@.len() ==> r->Ok_0@.len() == 0,
            start < self.active()@.len() ==> r->Ok_0@.len() == (if start + size
                <= self.active()@.len() {
                size as int
            } else {
                self.active()@.len() - start
            }),
            forall|k: int|
                0 <= k < r->Ok_0@.len() ==> (#[trigger] r->Ok_0@[k]).mode() == self.spec_mode()
                    && r->Ok_0@[k].stands_for(self.active()@[start + k]),
    {
        let mut out: Vec<SearchResultItem> = Vec::new();
        match self.current_mode {
            SearchResultMode::Exact => {
                let hits = match self.exact.get_results(start, size) {
                    Ok(v) => v,
                    Err(e) => {
                        return Ok(out);
                    },
                };
                let mut i: usize = 0;
                while i < hits.len()
                    invariant
                        i <= hits@.len(),
                        out@.len() == i,
                        forall|k: int|
                            0 <= k < i ==> (#[trigger] out@[k]) == SearchResultItem::Exact(hits@[k]),
                    decreases hits@.len() - i,
                {
                    out.push(SearchResultItem::Exact(hits[i]));
                    i += 1;
                }
            },
            SearchResultMode::Fuzzy => {
                let hits = match self.fuzzy.get_results(start, size) {
                    Ok(v) => v,
                    Err(e) => {
                        return Ok(out);
                    },
                };
                let mut i: usize = 0;
                while i < hits.len()
                    invariant
                        i <= hits@.len(),
                        out@.len() == i,
                        forall|k: int|
                            0 <= k < i ==> (#[trigger] out@[k]) == SearchResultItem::Fuzzy(hits@[k]),
                    decreases hits@.len() - i,
                {
                    out.push(SearchResultItem::Fuzzy(hits[i]));
                    i += 1;
                }
                assert(models(hits@).len() == hits@.len());
                assert forall|k: int| 0 <= k < out@.len() implies (#[trigger] out@[k]).stands_for(
                    self.active()@[start + k],
                ) by {
                    assert(models(hits@)[k] == hits@[k]@);
                }
            },
        }
        Ok(out)
    }

    /// Adds a fuzzy hit; refused outside fuzzy mode.
    pub fn add_fuzzy_result(&mut self, item: FuzzySearchResultItem) -> (r: Result<(), StoreError>)
        requires
            old(self).wf(),
        ensures
            final(self).wf(),
            final(self).same_mode(old(self)),
            r is Ok <==> old(self).spec_mode() == SearchResultMode::Fuzzy && old(
                self).active().has_room(),
            r is Ok ==> final(self).active()@ == old(self).active()@.insert(
                old(self).active().append_position(),
                item@,
            ),
            r is Err ==> final(self).active()@ == old(self).active()@ && r->Err_0 == (if old(
                self).spec_mode() != SearchResultMode::Fuzzy {
                StoreError::ModeMismatch
            } else {
                StoreError::IoFailure
            }),
    {
        match self.current_mode {
            SearchResultMode::Fuzzy => self.fuzzy.add_result(item),
            SearchResultMode::Exact => Err(StoreError::ModeMismatch),
        }
    }

    /// Adds fuzzy hits one by one; refused outside fuzzy mode.
    pub fn add_fuzzy_results_batch(&mut self, results: Vec<FuzzySearchResultItem>) -> (r: Result<
        (),
        StoreError,
    >)
        requires
            old(self).wf(),
        ensures
            final(self).wf(),
            final(self).same_mode(old(self)),
            old(self).spec_mode() != SearchResultMode::Fuzzy ==> r == Err::<(), StoreError>(
                StoreError::ModeMismatch,
            ) && final(self).active() == old(self).active(),
            old(self).spec_mode() == SearchResultMode::Fuzzy ==> {
                let before = old(self).active();
                let k = before.ram_share(results@.len());
                let j = before.disk_share(results@.len());
                &&& final(self).active().memory_view() == before.memory_view() + models(
                    results@,
                ).subrange(0, k as int)
                &&& final(self).active().disk_view() == before.disk_view() + models(
                    results@,
                ).subrange(k as int, (k + j) as int)
                &&& (r is Ok <==> k + j == results@.len())
                &&& (r is Err ==> r == Err::<(), StoreError>(StoreError::IoFailure))
            },
    {
        match self.current_mode {
            SearchResultMode::Fuzzy => self.fuzzy.add_results(&results),
            SearchResultMode::Exact => Err(StoreError::ModeMismatch),
        }
    }

    /// Puts `results` in the place of all fuzzy hits; refused outside fuzzy
    /// mode.
    pub fn replace_all_fuzzy_results(&mut self, results: Vec<FuzzySearchResultItem>) -> (r: Result<
        (),
        StoreError,
    >)
        requires
            old(self).wf(),
        ensures
            final(self).wf(),
            final(self).same_mode(old(self)),
            old(self).spec_mode() != SearchResultMode::Fuzzy ==> r == Err::<(), StoreError>(
                StoreError::ModeMismatch,
            ) && final(self).active() == old(self).active(),
            old(self).spec_mode() == SearchResultMode::Fuzzy ==> {
                let room = old(self).active().spec_capacity() + old(self).active().spill_slots();
                &&& results@.len() <= room ==> r is Ok && final(self).active()@ == models(results@)
                &&& results@.len() > room ==> r == Err::<(), StoreError>(StoreError::IoFailure)
                    && final(self).active()@ == models(results@).take(room as int)
            },
    {
        match self.current_mode {
            SearchResultMode::Fuzzy => self.fuzzy.replace_all(results),
            SearchResultMode::Exact => Err(StoreError::ModeMismatch),
        }
    }

    /// All exact hits; refused outside exact mode.
    pub fn get_all_exact_results(&self) -> (r: Result<Vec<ExactSearchResultItem>, StoreError>)
        requires
            self.wf(),
        ensures
            self.spec_mode() == SearchResultMode::Exact ==> r is Ok && r->Ok_0@
                == self.active()@.map_values(|m: ItemModel| ExactSearchResultItem::of(m)),
            self.spec_mode() != SearchResultMode::Exact ==> r == Err::<
                Vec<ExactSearchResultItem>,
                StoreError,
            >(StoreError::ModeMismatch),
    {
        match self.current_mode {
            SearchResultMode::Exact => self.exact.get_all_results(),
            SearchResultMode::Fuzzy => Err(StoreError::ModeMismatch),
        }
    }

    /// All fuzzy hits; refused outside fuzzy mode.
    pub fn get_all_fuzzy_results(&self) -> (r: Result<Vec<FuzzySearchResultItem>, StoreError>)
        requires
            self.wf(),
        ensures
            self.spec_mode() == SearchResultMode::Fuzzy ==> r is Ok && models(r->Ok_0@)
                == self.active()@,
            self.spec_mode() != SearchResultMode::Fuzzy ==> r == Err::<
                Vec<FuzzySearchResultItem>,
                StoreError,
            >(StoreError::ModeMismatch),
    {
        match self.current_mode {
            SearchResultMode::Exact => Err(StoreError::ModeMismatch),
            SearchResultMode::Fuzzy => self.fuzzy.get_all_results(),
        }
    }

    /// Takes the record at position `index` of the active store out.
    pub fn remove_result(&mut self, index: usize) -> (r: Result<(), StoreError>)
        requires
            old(self).wf(),
        ensures
            final(self).wf(),
            final(self).same_mode(old(self)),
            index < old(self).active()@.len() ==> r is Ok && final(self).active()@ == old(
                self).active()@.remove(index as int),
            index >= old(self).active()@.len() ==> r == Err::<(), StoreError>(
                StoreError::OutOfRange { index, count: old(self).active()@.len() as usize },
            ) && final(self).active()@ == old(self).active()@,
    {
        match self.current_mode {
            SearchResultMode::Exact => self.exact.records.remove_result(index),
            SearchResultMode::Fuzzy => self.fuzzy.remove_result(index),
        }
    }

    /// Takes the records at the listed positions of the active store out.
    pub fn remove_results_batch(&mut self, indices: Vec<usize>) -> (r: Result<(), StoreError>)
        requires
            old(self).wf(),
        ensures
            r is Ok,
            final(self).wf(),
            final(self).same_mode(old(self)),
            final(self).active()@ == survivors(old(self).active()@, index_set(indices@)),
    {
        match self.current_mode {
            SearchResultMode::Exact => self.exact.records.remove_results_batch(indices),
            SearchResultMode::Fuzzy => self.fuzzy.remove_results_batch(indices),
        }
    }

    /// Shrinks the active store to the records at the listed positions, as
    /// [`FuzzySearchResultManager::keep_only_results`] does.
    pub fn keep_only_results(&mut self, keep_indices: Vec<usize>) -> (r: Result<(), StoreError>)
        requires
            old(self).wf(),
        ensures
            r is Ok,
            final(self).wf(),
            final(self).same_mode(old(self)),
            keep_indices@.len() == 0 ==> final(self).active()@ == Seq::<ItemModel>::empty(),
            keep_indices@.len() > 0 && FuzzySearchResultManager::keeps_by_deleting(
                keep_indices@.len(),
                old(self).active()@.len(),
            ) ==> final(self).active()@ == survivors(
                old(self).active()@,
                Set::new(|i: int| !index_set(keep_indices@).contains(i)),
            ),
            keep_indices@.len() > 0 && !FuzzySearchResultManager::keeps_by_deleting(
                keep_indices@.len(),
                old(self).active()@.len(),
            ) ==> exists|order: Seq<usize>|
                ascending(order) && order.to_multiset() == keep_indices@.to_multiset() && final(
                    self).active()@ == gather(old(self).active()@, order),
    {
        match self.current_mode {
            SearchResultMode::Exact => self.exact.records.keep_only_results(keep_indices),
            SearchResultMode::Fuzzy => self.fuzzy.keep_only_results(keep_indices),
        }
    }
}

} // verus!
