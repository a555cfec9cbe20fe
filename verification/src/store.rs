//! The hybrid store: a bounded run of records in RAM, followed by a run of
//! records in the spill region.

use vstd::prelude::*;
use memmap2::MmapMut;
use crate::compact::{ascending, complement_indices, gather, index_set, lemma_gather_step,
    lemma_survivors_agree, lemma_survivors_concat, lemma_survivors_keep, lemma_survivors_len,
    lemma_survivors_skip, lemma_survivors_untouched, normalized_indices, sorted_indices,
    strictly_ascending, survivors};
use crate::item::{FuzzySearchResultItem, ItemModel, models};
use crate::spill::{mapped_bytes, Spill};
use crate::types::StoreError;

verus! {

/// Length that a new spill file is given, and the step by which it grows.
pub const SPILL_STEP: usize = 0x800_0000;

/// What has to be done to the spill file before the next record can be added.
#[derive(Clone, Copy, Debug, PartialEq, Eq, Structural)]
pub enum SpillRequest {
    /// Nothing: the next record has a place.
    Ready,
    /// Create the file with this length and map it.
    Create { len: usize },
    /// Extend the file to this length and map it anew.
    Grow { len: usize },
}

/// Records in the order of their positions: first those in RAM, then those in
/// the spill region.
pub struct FuzzySearchResultManager {
    memory_buffer: Vec<FuzzySearchResultItem>,
    memory_buffer_capacity: usize,
    spill: Option<Spill>,
    disk_count: usize,
    total_count: usize,
}

impl FuzzySearchResultManager {
    pub closed spec fn spec_memory(&self) -> Seq<FuzzySearchResultItem> {
        self.memory_buffer@
    }

    /// How many records RAM may hold.
    pub closed spec fn spec_capacity(&self) -> nat {
        self.memory_buffer_capacity as nat
    }

    pub closed spec fn spec_spill(&self) -> Option<Spill> {
        self.spill
    }

    pub closed spec fn spec_disk_count(&self) -> nat {
        self.disk_count as nat
    }

    pub closed spec fn spec_total_count(&self) -> nat {
        self.total_count as nat
    }

    /// How many records the spill region has room for; none while it is absent.
    pub open spec fn spill_slots(&self) -> nat {
        match self.spec_spill() {
            Some(s) => s.slot_count(),
            None => 0,
        }
    }

    /// The records in RAM.
    pub open spec fn memory_view(&self) -> Seq<ItemModel> {
        models(self.spec_memory())
    }

    /// The records in the spill region.
    pub open spec fn disk_view(&self) -> Seq<ItemModel> {
        match self.spec_spill() {
            Some(s) => s.slots().take(self.spec_disk_count() as int),
            None => Seq::empty(),
        }
    }

    /// All records, by position.
    pub open spec fn view(&self) -> Seq<ItemModel> {
        self.memory_view() + self.disk_view()
    }

    /// The counters agree with the contents, and the contents fit.
    pub open spec fn wf(&self) -> bool {
        &&& self.spec_memory().len() <= self.spec_capacity()
        &&& self.spec_capacity() <= usize::MAX / 17
        &&& self.spec_disk_count() <= self.spill_slots()
        &&& self.spec_disk_count() <= usize::MAX / 17
        &&& self.spec_total_count() == self.spec_memory().len() + self.spec_disk_count()
    }

    /// The next record goes to RAM.
    pub open spec fn ram_has_room(&self) -> bool {
        self.spec_memory().len() < self.spec_capacity()
    }

    /// The spill region can take one more record.
    pub open spec fn spill_has_room(&self) -> bool {
        self.spec_disk_count() < self.spill_slots()
    }

    /// RAM or the spill region can take one more record.
    pub open spec fn has_room(&self) -> bool {
        self.ram_has_room() || self.spill_has_room()
    }

    /// Where the next record comes to stand: behind the records in RAM while
    /// RAM has room, else behind all records.
    pub open spec fn append_position(&self) -> int {
        if self.ram_has_room() {
            self.memory_view().len() as int
        } else {
            self@.len() as int
        }
    }

    /// Same capacity and same spill length as `other`.
    pub open spec fn same_shape(&self, other: &Self) -> bool {
        &&& self.spec_capacity() == other.spec_capacity()
        &&& self.spill_slots() == other.spill_slots()
        &&& (self.spec_spill() is Some <==> other.spec_spill() is Some)
    }

    /// An empty store whose RAM part holds as many records as fit into
    /// `memory_buffer_size` bytes. With a budget of zero every record goes to
    /// the spill region.
    pub fn new(memory_buffer_size: usize) -> (r: Self)
        ensures
            r.wf(),
            r@ == Seq::<ItemModel>::empty(),
            r.spec_capacity() == memory_buffer_size / 17,
            r.spec_spill() is None,
            r.spec_total_count() == 0,
    {
        let capacity = memory_buffer_size / 17;
        let r = FuzzySearchResultManager {
            memory_buffer: Vec::new(),
            memory_buffer_capacity: capacity,
            spill: None,
            disk_count: 0,
            total_count: 0,
        };
        assert(r.view() =~= Seq::<ItemModel>::empty());
        r
    }

    pub fn total_count(&self) -> (n: usize)
        requires
            self.wf(),
        ensures
            n == self@.len(),
            n == self.spec_total_count(),
    {
        self.total_count
    }

    pub fn memory_count(&self) -> (n: usize)
        ensures
            n == self.memory_view().len(),
    {
        self.memory_buffer.len()
    }

    pub fn disk_count(&self) -> (n: usize)
        requires
            self.wf(),
        ensures
            n == self.disk_view().len(),
            n == self.spec_disk_count(),
    {
        self.disk_count
    }

    /// Empties the store. The spill region stays attached, to be written
    /// over from its start.
    pub fn clear(&mut self) -> (r: Result<(), StoreError>)
        requires
            old(self).wf(),
        ensures
            r is Ok,
            final(self).wf(),
            final(self).same_shape(old(self)),
            final(self)@ == Seq::<ItemModel>::empty(),
            final(self).spec_spill() == old(self).spec_spill(),
    {
        self.memory_buffer.clear();
        self.total_count = 0;
        self.disk_count = 0;
        assert(self.view() =~= Seq::<ItemModel>::empty());
        Ok(())
    }

    /// Detaches the spill region and hands its mapping out, so that the
    /// caller can release it and remove the file. The records that stood in
    /// it are gone; those in RAM stay.
    pub fn clear_disk(&mut self) -> (r: Option<MmapMut>)
        requires
            old(self).wf(),
        ensures
            final(self).wf(),
            final(self).spec_spill() is None,
            final(self).spec_capacity() == old(self).spec_capacity(),
            final(self).memory_view() == old(self).memory_view(),
            final(self)@ == old(self).memory_view(),
            match old(self).spec_spill() {
                Some(s) => r is Some && mapped_bytes(r->0) == s.bytes(),
                None => r is None,
            },
    {
        self.disk_count = 0;
        self.total_count = self.memory_buffer.len();
        let spill = self.spill.take();
        assert(self.view() =~= self.memory_view());
        match spill {
            Some(s) => Some(s.into_map()),
            None => None,
        }
    }

    /// Nothing is left: no record, nothing in RAM, no spill region.
    pub open spec fn is_destroyed(&self) -> bool {
        &&& self.wf()
        &&& self@.len() == 0
        &&& self.spec_memory().len() == 0
        &&& self.spec_spill() is None
    }

    /// Empties the store, gives up its RAM and detaches the spill region,
    /// whose mapping is handed out as by [`Self::clear_disk`]. On a store
    /// that was destroyed before there is nothing to hand out, and nothing
    /// changes.
    pub fn destroy(&mut self) -> (r: Option<MmapMut>)
        requires
            old(self).wf(),
        ensures
            final(self).is_destroyed(),
            old(self).is_destroyed() ==> r is None && final(self).spec_memory() == old(
                self).spec_memory() && final(self).spec_spill() == old(self).spec_spill()
                && final(self)@ == old(self)@,
            final(self).wf(),
            final(self).spec_spill() is None,
            final(self).spec_capacity() == old(self).spec_capacity(),
            final(self)@ == Seq::<ItemModel>::empty(),
            final(self).spec_memory() == Seq::<FuzzySearchResultItem>::empty(),
            match old(self).spec_spill() {
                Some(s) => r is Some && mapped_bytes(r->0) == s.bytes(),
                None => r is None,
            },
    {
        self.memory_buffer = Vec::new();
        self.total_count = 0;
        self.disk_count = 0;
        let spill = self.spill.take();
        assert(self.view() =~= Seq::<ItemModel>::empty());
        match spill {
            Some(s) => Some(s.into_map()),
            None => None,
        }
    }

    /// What the spill file needs before the next record can be added: nothing
    /// while RAM or the mapping has room for it, else a file of the initial
    /// length, or one step more than the mapping covers now (at most what a
    /// length can say).
    pub open spec fn spec_spill_request(&self) -> SpillRequest {
        if self.has_room() {
            SpillRequest::Ready
        } else {
            match self.spec_spill() {
                None => SpillRequest::Create { len: SPILL_STEP },
                Some(s) => SpillRequest::Grow {
                    len: if s.bytes().len() + SPILL_STEP <= usize::MAX {
                        (s.bytes().len() + SPILL_STEP) as usize
                    } else {
                        usize::MAX
                    },
                },
            }
        }
    }

    /// Says what the spill file needs before the next record can be added.
    pub fn spill_request(&self) -> (r: SpillRequest)
        requires
            self.wf(),
        ensures
            r == self.spec_spill_request(),
    {
        if self.memory_buffer.len() < self.memory_buffer_capacity {
            return SpillRequest::Ready;
        }
        match &self.spill {
            None => SpillRequest::Create { len: SPILL_STEP },
            Some(s) => {
                if self.disk_count < s.capacity() {
                    SpillRequest::Ready
                } else {
                    let len = s.byte_len();
                    if len <= usize::MAX - SPILL_STEP {
                        SpillRequest::Grow { len: len + SPILL_STEP }
                    } else {
                        SpillRequest::Grow { len: usize::MAX }
                    }
                }
            },
        }
    }

    /// Attaches a mapping as the spill region and hands out the one that was
    /// attached before. A mapping too short for the records that the spill
    /// region holds is refused and handed back. The records on disk are from
    /// then on read from the new mapping.
    pub fn attach_spill(&mut self, map: MmapMut) -> (r: Result<Option<MmapMut>, MmapMut>)
        requires
            old(self).wf(),
        ensures
            final(self).wf(),
            final(self).spec_capacity() == old(self).spec_capacity(),
            final(self).spec_memory() == old(self).spec_memory(),
            final(self).spec_disk_count() == old(self).spec_disk_count(),
            r is Ok <==> old(self).spec_disk_count() <= mapped_bytes(map).len() / 17,
            r is Ok ==> final(self).spec_spill() is Some && final(self).spec_spill()->0.bytes()
                == mapped_bytes(map) && match old(self).spec_spill() {
                Some(s) => r->Ok_0 is Some && mapped_bytes(r->Ok_0->0) == s.bytes(),
                None => r->Ok_0 is None,
            },
            r is Err ==> mapped_bytes(r->Err_0) == mapped_bytes(map)
                && final(self).spec_spill() == old(self).spec_spill(),
    {
        let fresh = Spill::new(map);
        if fresh.capacity() < self.disk_count {
            return Err(fresh.into_map());
        }
        let before = self.spill.take();
        self.spill = Some(fresh);
        match before {
            Some(s) => Ok(Some(s.into_map())),
            None => Ok(None),
        }
    }

    /// Adds a record: to RAM while RAM has room, else to the spill region.
    /// In RAM it comes after the records that RAM holds, on disk after all
    /// records. Where neither has room the record is refused and nothing
    /// changes.
    pub fn add_result(&mut self, item: FuzzySearchResultItem) -> (r: Result<(), StoreError>)
        requires
            old(self).wf(),
        ensures
            final(self).wf(),
            final(self).same_shape(old(self)),
            old(self).ram_has_room() ==> r is Ok
                && final(self).memory_view() == old(self).memory_view().push(item@)
                && final(self).disk_view() == old(self).disk_view(),
            !old(self).ram_has_room() && old(self).spill_has_room() ==> r is Ok
                && final(self).memory_view() == old(self).memory_view()
                && final(self).disk_view() == old(self).disk_view().push(item@),
            !old(self).ram_has_room() && !old(self).spill_has_room() ==> r == Err::<
                (),
                StoreError,
            >(StoreError::IoFailure) && final(self).memory_view() == old(self).memory_view()
                && final(self).disk_view() == old(self).disk_view() && final(self).spec_spill()
                == old(self).spec_spill(),
            r is Ok <==> old(self).has_room(),
            r is Ok ==> final(self)@ == old(self)@.insert(old(self).append_position(), item@),
            r is Err ==> r == Err::<(), StoreError>(StoreError::IoFailure) && final(self)@ == old(
                self)@,
            r is Ok && (old(self).disk_view().len() == 0 || !old(self).ram_has_room())
                ==> final(self)@ == old(self)@.push(item@),
    {
        if self.memory_buffer.len() < self.memory_buffer_capacity {
            self.memory_buffer.push(item);
            self.total_count += 1;
            assert(self.memory_view() =~= old(self).memory_view().push(item@));
            assert(self@ =~= old(self)@.insert(old(self).memory_view().len() as int, item@));
            return Ok(());
        }
        let r = self.write_to_disk(&item);
        proof {
            if r is Ok {
                assert(self@ =~= old(self)@.push(item@));
                assert(self@ =~= old(self)@.insert(old(self)@.len() as int, item@));
            }
        }
        r
    }

    /// Puts a record behind the last one in the spill region, if the region
    /// has a slot left.
    fn write_to_disk(&mut self, item: &FuzzySearchResultItem) -> (r: Result<(), StoreError>)
        requires
            old(self).wf(),
        ensures
            final(self).wf(),
            final(self).same_shape(old(self)),
            final(self).spec_memory() == old(self).spec_memory(),
            old(self).spill_has_room() ==> r is Ok && final(self).disk_view() == old(
                self).disk_view().push(item@),
            !old(self).spill_has_room() ==> r == Err::<(), StoreError>(StoreError::IoFailure)
                && final(self).disk_view() == old(self).disk_view() && final(self).spec_spill()
                == old(self).spec_spill(),
    {
        let n = self.disk_count;
        if n < self.disk_capacity() {
            self.disk_write(n, item);
            self.disk_count = n + 1;
            self.total_count += 1;
            assert(self.disk_view() =~= old(self).disk_view().push(item@));
            Ok(())
        } else {
            Err(StoreError::IoFailure)
        }
    }

    /// The record at position `i`, wherever it is kept.
    fn item_at(&self, i: usize) -> (r: FuzzySearchResultItem)
        requires
            self.wf(),
            i < self@.len(),
        ensures
            r@ == self@[i as int],
    {
        if i < self.memory_buffer.len() {
            self.memory_buffer[i]
        } else {
            self.disk_read(i - self.memory_buffer.len())
        }
    }

    /// The records at the positions from `start` up to `start + size`, as far
    /// as there are any; none where `start` is past the end.
    pub fn get_results(&self, start: usize, size: usize) -> (r: Result<
        Vec<FuzzySearchResultItem>,
        StoreError,
    >)
        requires
            self.wf(),
        ensures
            r is Ok,
            start >= self@.len() ==> r->Ok_0@.len() == 0,
            start < self@.len() ==> models(r->Ok_0@) == self@.subrange(
                start as int,
                if start + size <= self@.len() {
                    start + size
                } else {
                    self@.len() as int
                },
            ),
    {
        let mut results: Vec<FuzzySearchResultItem> = Vec::new();
        if start >= self.total_count {
            return Ok(results);
        }
        let end = if size <= self.total_count - start {
            start + size
        } else {
            self.total_count
        };
        let mut i = start;
        while i < end
            invariant
                self.wf(),
                start <= i <= end <= self@.len(),
                models(results@) == self@.subrange(start as int, i as int),
            decreases end - i,
        {
            let item = self.item_at(i);
            let ghost prev = results@;
            results.push(item);
            i += 1;
            assert(models(results@) =~= models(prev).push(item@));
            assert(models(results@) =~= self@.subrange(start as int, i as int));
        }
        Ok(results)
    }

    /// All records, by position.
    pub fn get_all_results(&self) -> (r: Result<Vec<FuzzySearchResultItem>, StoreError>)
        requires
            self.wf(),
        ensures
            r is Ok,
            models(r->Ok_0@) == self@,
    {
        let r = self.get_results(0, self.total_count);
        proof {
            let v = r->Ok_0@;
            if self@.len() > 0 {
                assert(self@.subrange(0, self@.len() as int) =~= self@);
            } else {
                assert(models(v) =~= self@);
            }
        }
        r
    }

    /// Puts `item` in the place of the record at position `index`.
    pub fn update_result(&mut self, index: usize, item: FuzzySearchResultItem) -> (r: Result<
        (),
        StoreError,
    >)
        requires
            old(self).wf(),
        ensures
            final(self).wf(),
            final(self).same_shape(old(self)),
            final(self).memory_view().len() == old(self).memory_view().len(),
            final(self).disk_view().len() == old(self).disk_view().len(),
            index < old(self)@.len() ==> r is Ok && final(self)@ == old(self)@.update(
                index as int,
                item@,
            ),
            index >= old(self)@.len() ==> r == Err::<(), StoreError>(
                StoreError::OutOfRange { index, count: old(self)@.len() as usize },
            ) && final(self)@ == old(self)@,
    {
        if index >= self.total_count {
            return Err(StoreError::OutOfRange { index, count: self.total_count });
        }
        if index < self.memory_buffer.len() {
            self.memory_buffer.set(index, item);
            assert(self.memory_view() =~= old(self).memory_view().update(index as int, item@));
            assert(self.view() =~= old(self).view().update(index as int, item@));
        } else {
            let disk_index = index - self.memory_buffer.len();
            self.disk_write(disk_index, &item);
            assert(self.disk_view() =~= old(self).disk_view().update(disk_index as int, item@));
            assert(self.view() =~= old(self).view().update(index as int, item@));
        }
        Ok(())
    }

    /// Takes the record at position `disk_index` of the spill region out and
    /// moves the records behind it one slot down.
    fn remove_disk_item(&mut self, disk_index: usize) -> (r: Result<(), StoreError>)
        requires
            old(self).wf(),
        ensures
            final(self).wf(),
            final(self).same_shape(old(self)),
            final(self).spec_memory() == old(self).spec_memory(),
            disk_index < old(self).disk_view().len() ==> r is Ok && final(self).disk_view() == old(
                self).disk_view().remove(disk_index as int) && final(self).spec_total_count()
                == old(self).spec_total_count() - 1,
            disk_index >= old(self).disk_view().len() ==> r == Err::<(), StoreError>(
                StoreError::OutOfRange { index: disk_index, count: old(self).disk_view().len() as usize },
            ) && final(self).disk_view() == old(self).disk_view() && final(self).spec_total_count()
                == old(self).spec_total_count(),
    {
        if disk_index >= self.disk_count {
            return Err(StoreError::OutOfRange { index: disk_index, count: self.disk_count });
        }
        let n = self.disk_count;
        self.disk_move(disk_index + 1, n, disk_index);
        self.disk_count = n - 1;
        self.total_count = self.total_count - 1;
        assert(self.disk_view() =~= old(self).disk_view().remove(disk_index as int));
        Ok(())
    }

    /// Takes the record at position `index` out; the records behind it move
    /// one position down, each within RAM or within the spill region.
    pub fn remove_result(&mut self, index: usize) -> (r: Result<(), StoreError>)
        requires
            old(self).wf(),
        ensures
            final(self).wf(),
            final(self).same_shape(old(self)),
            index < old(self)@.len() ==> r is Ok && final(self)@ == old(self)@.remove(index as int),
            index < old(self).memory_view().len() ==> final(self).memory_view() == old(
                self).memory_view().remove(index as int) && final(self).disk_view() == old(
                self).disk_view(),
            old(self).memory_view().len() <= index < old(self)@.len() ==> final(self).memory_view()
                == old(self).memory_view() && final(self).disk_view() == old(self).disk_view().remove(
                index - old(self).memory_view().len(),
            ),
            index >= old(self)@.len() ==> r == Err::<(), StoreError>(
                StoreError::OutOfRange { index, count: old(self)@.len() as usize },
            ) && final(self).memory_view() == old(self).memory_view() && final(self).disk_view()
                == old(self).disk_view(),
    {
        if index >= self.total_count {
            return Err(StoreError::OutOfRange { index, count: self.total_count });
        }
        if index < self.memory_buffer.len() {
            self.memory_buffer.remove(index);
            self.total_count = self.total_count - 1;
            assert(self.memory_view() =~= old(self).memory_view().remove(index as int));
            assert(self.view() =~= old(self).view().remove(index as int));
            Ok(())
        } else {
            let disk_index = index - self.memory_buffer.len();
            let r = self.remove_disk_item(disk_index);
            assert(self.view() =~= old(self).view().remove(index as int));
            r
        }
    }

    /// How many of `count` records to be added go to RAM.
    pub open spec fn ram_share(&self, count: nat) -> nat {
        let room = (self.spec_capacity() - self.memory_view().len()) as nat;
        if count <= room {
            count
        } else {
            room
        }
    }

    /// How many of `count` records to be added go to the spill region: what
    /// RAM does not take, as far as the region has room.
    pub open spec fn disk_share(&self, count: nat) -> nat {
        let rest = (count - self.ram_share(count)) as nat;
        let room = (self.spill_slots() - self.disk_view().len()) as nat;
        if rest <= room {
            rest
        } else {
            room
        }
    }

    /// Adds `items` one by one, as [`Self::add_result`] does. The first of
    /// them fill RAM and come after the records that RAM holds; the others
    /// come last in the spill region. Where the region gets full, the rest is
    /// refused.
    pub fn add_results(&mut self, items: &Vec<FuzzySearchResultItem>) -> (r: Result<
        (),
        StoreError,
    >)
        requires
            old(self).wf(),
        ensures
            final(self).wf(),
            final(self).same_shape(old(self)),
            final(self).memory_view() == old(self).memory_view() + models(items@).subrange(
                0,
                old(self).ram_share(items@.len()) as int,
            ),
            final(self).disk_view() == old(self).disk_view() + models(items@).subrange(
                old(self).ram_share(items@.len()) as int,
                (old(self).ram_share(items@.len()) + old(self).disk_share(items@.len())) as int,
            ),
            r is Ok <==> old(self).ram_share(items@.len()) + old(self).disk_share(items@.len())
                == items@.len(),
            r is Err ==> r == Err::<(), StoreError>(StoreError::IoFailure),
    {
        let ghost om = self.memory_view();
        let ghost od = self.disk_view();
        let ghost mi = models(items@);
        let ghost k = self.ram_share(items@.len()) as int;
        let ghost j = self.disk_share(items@.len()) as int;
        let mut i: usize = 0;
        assert(self.memory_view() =~= om + mi.subrange(0, 0));
        assert(self.disk_view() =~= od + mi.subrange(k, k));
        while i < items.len()
            invariant
                self.wf(),
                self.same_shape(old(self)),
                i <= items@.len(),
                mi == models(items@),
                om == old(self).memory_view(),
                od == old(self).disk_view(),
                k == old(self).ram_share(items@.len()),
                j == old(self).disk_share(items@.len()),
                self.memory_view() == om + mi.subrange(0, if i <= k { i as int } else { k }),
                self.disk_view() == od + mi.subrange(k, if i <= k { k } else { i as int }),
            decreases items@.len() - i,
        {
            let ghost mem = self.memory_view();
            let ghost disk = self.disk_view();
            match self.add_result(items[i]) {
                Ok(()) => {},
                Err(e) => {
                    return Err(StoreError::IoFailure);
                },
            }
            proof {
                if old(self).spec_capacity() > mem.len() {
                    assert(self.memory_view() =~= om + mi.subrange(0, i + 1));
                } else {
                    assert(self.disk_view() =~= od + mi.subrange(k, i + 1));
                }
            }
            i += 1;
        }
        Ok(())
    }

    /// Empties the store and adds `results` one by one. Where RAM and the
    /// spill region together are too short, the records that fit are kept
    /// and the rest is refused.
    pub fn replace_all(&mut self, results: Vec<FuzzySearchResultItem>) -> (r: Result<
        (),
        StoreError,
    >)
        requires
            old(self).wf(),
        ensures
            final(self).wf(),
            final(self).same_shape(old(self)),
            results@.len() <= old(self).spec_capacity() + old(self).spill_slots() ==> r is Ok
                && final(self)@ == models(results@),
            results@.len() > old(self).spec_capacity() + old(self).spill_slots() ==> r == Err::<
                (),
                StoreError,
            >(StoreError::IoFailure) && final(self)@ == models(results@).take(
                (old(self).spec_capacity() + old(self).spill_slots()) as int,
            ),
            final(self).memory_view() == final(self)@.take(
                if final(self)@.len() <= old(self).spec_capacity() {
                    final(self)@.len() as int
                } else {
                    old(self).spec_capacity() as int
                },
            ),
    {
        let _ = self.clear();
        let r = self.refill(&results);
        r
    }

    /// Adds `items` one by one to an empty store.
    fn refill(&mut self, items: &Vec<FuzzySearchResultItem>) -> (r: Result<(), StoreError>)
        requires
            old(self).wf(),
            old(self)@.len() == 0,
        ensures
            final(self).wf(),
            final(self).same_shape(old(self)),
            items@.len() <= old(self).spec_capacity() + old(self).spill_slots() ==> r is Ok
                && final(self)@ == models(items@),
            items@.len() > old(self).spec_capacity() + old(self).spill_slots() ==> r == Err::<
                (),
                StoreError,
            >(StoreError::IoFailure) && final(self)@ == models(items@).take(
                (old(self).spec_capacity() + old(self).spill_slots()) as int,
            ),
            final(self).memory_view() == final(self)@.take(
                if final(self)@.len() <= old(self).spec_capacity() {
                    final(self)@.len() as int
                } else {
                    old(self).spec_capacity() as int
                },
            ),
    {
        let ghost k = self.ram_share(items@.len()) as int;
        let ghost j = self.disk_share(items@.len()) as int;
        let ghost mi = models(items@);
        let r = self.add_results(items);
        proof {
            assert(old(self).memory_view() =~= Seq::<ItemModel>::empty());
            assert(old(self).disk_view() =~= Seq::<ItemModel>::empty());
            assert(self.memory_view() =~= mi.subrange(0, k));
            assert(self.disk_view() =~= mi.subrange(k, k + j));
            assert(self@ =~= mi.take(k + j));
            assert(self.memory_view() =~= self@.take(k));
            if r is Ok {
                assert(mi.take(k + j) =~= mi);
            }
        }
        r
    }

    /// Compacts the RAM part: the records at the positions that `dels` lists
    /// go, the others close up in order. `dels` is strictly ascending;
    /// positions past the RAM part are left for the disk pass. Returns how
    /// many entries of `dels` fell into the RAM part.
    fn remove_memory_batch(&mut self, dels: &Vec<usize>) -> (p: usize)
        requires
            old(self).wf(),
            strictly_ascending(dels@),
        ensures
            final(self).wf(),
            final(self).same_shape(old(self)),
            final(self).spec_spill() == old(self).spec_spill(),
            final(self).spec_disk_count() == old(self).spec_disk_count(),
            final(self).memory_view() == survivors(old(self).memory_view(), index_set(dels@)),
            p <= dels@.len(),
            forall|k: int| 0 <= k < p ==> dels@[k] < old(self).memory_view().len(),
            forall|k: int| p <= k < dels@.len() ==> dels@[k] >= old(self).memory_view().len(),
    {
        let n = self.memory_buffer.len();
        let ghost orig = self.memory_view();
        let ghost gone = index_set(dels@);
        if dels.len() == 0 || dels[0] >= n {
            proof {
                lemma_survivors_untouched(orig, gone, n as int);
                assert(orig.take(n as int) =~= orig);
            }
            return 0;
        }
        let first = dels[0];
        let mut write = first;
        let mut read = first;
        let mut p: usize = 0;
        proof {
            lemma_survivors_untouched(orig, gone, first as int);
        }
        while read < n
            invariant
                first <= write <= read <= n,
                p <= dels@.len(),
                write + p == read,
                n == orig.len(),
                n == self.memory_buffer@.len(),
                gone == index_set(dels@),
                strictly_ascending(dels@),
                orig == old(self).memory_view(),
                forall|k: int| 0 <= k < p ==> dels@[k] < read,
                forall|k: int| p <= k < dels@.len() ==> dels@[k] >= read,
                forall|j: int| read <= j < n ==> self.memory_view()[j] == orig[j],
                self.memory_view().take(write as int) == survivors(orig.take(read as int), gone),
                self.spill == old(self).spill,
                self.disk_count == old(self).disk_count,
                self.total_count == old(self).total_count,
                self.memory_buffer_capacity == old(self).memory_buffer_capacity,
            decreases n - read,
        {
            let ghost cur = self.memory_view();
            if p < dels.len() && dels[p] == read {
                proof {
                    assert(gone.contains(read as int));
                    lemma_survivors_skip(orig, gone, read as int);
                }
                p += 1;
            } else {
                proof {
                    if gone.contains(read as int) {
                        let k = choose|k: int| 0 <= k < dels@.len() && dels@[k] == read as int;
                        if k > p {
                            assert(dels@[p as int] < dels@[k]);
                        }
                        assert(false);
                    }
                    lemma_survivors_keep(orig, gone, read as int);
                }
                if write != read {
                    let item = self.memory_buffer[read];
                    self.memory_buffer.set(write, item);
                }
                proof {
                    assert(self.memory_view().take(write as int + 1) =~= cur.take(write as int).push(
                        orig[read as int],
                    ));
                }
                write += 1;
            }
            read += 1;
        }
        proof {
            assert(orig.take(n as int) =~= orig);
            lemma_survivors_len(orig, gone);
        }
        let ghost full = self.memory_view();
        self.memory_buffer.truncate(write);
        self.total_count = self.total_count - p;
        assert(self.memory_view() =~= full.take(write as int));
        p
    }

    /// Compacts the spill part in the same way. The entries of `dels` from
    /// `from` on lie in the spill part, once `base` is taken off each.
    fn remove_disk_batch(&mut self, dels: &Vec<usize>, from: usize, base: usize)
        requires
            old(self).wf(),
            strictly_ascending(dels@),
            from <= dels@.len(),
            forall|k: int| 0 <= k < from ==> dels@[k] < base,
            forall|k: int|
                from <= k < dels@.len() ==> #[trigger] dels@[k] >= base && dels@[k] < base + old(
                    self).disk_view().len(),
        ensures
            final(self).wf(),
            final(self).same_shape(old(self)),
            final(self).spec_memory() == old(self).spec_memory(),
            final(self).disk_view() == survivors(
                old(self).disk_view(),
                Set::new(|i: int| index_set(dels@).contains(i + base)),
            ),
    {
        let n = self.disk_count;
        let ghost orig = self.disk_view();
        let ghost gone = Set::new(|i: int| index_set(dels@).contains(i + base));
        if from >= dels.len() {
            proof {
                assert forall|i: int| 0 <= i < n implies !gone.contains(i) by {
                    if gone.contains(i) {
                        let k = choose|k: int| 0 <= k < dels@.len() && dels@[k] == i + base;
                        assert(false);
                    }
                }
                lemma_survivors_untouched(orig, gone, n as int);
                assert(orig.take(n as int) =~= orig);
            }
            return ;
        }
        let first = dels[from] - base;
        let mut write = first;
        let mut read = first;
        let mut p: usize = from;
        proof {
            assert forall|i: int| 0 <= i < first implies !gone.contains(i) by {
                if gone.contains(i) {
                    let k = choose|k: int| 0 <= k < dels@.len() && dels@[k] == i + base;
                    if k > from {
                        assert(dels@[from as int] < dels@[k]);
                    }
                    assert(false);
                }
            }
            lemma_survivors_untouched(orig, gone, first as int);
            assert(self.slots().take(first as int) =~= orig.take(first as int));
        }
        while read < n
            invariant
                first <= write <= read <= n,
                from <= p <= dels@.len(),
                write + (p - from) == read,
                n == orig.len(),
                n <= self.slots().len(),
                n == old(self).disk_count,
                gone == Set::new(|i: int| index_set(dels@).contains(i + base)),
                strictly_ascending(dels@),
                forall|k: int| 0 <= k < from ==> dels@[k] < base,
                forall|k: int| from <= k < p ==> dels@[k] < base + read,
                forall|k: int| p <= k < dels@.len() ==> dels@[k] >= base + read,
                forall|j: int| read <= j < n ==> self.slots()[j] == orig[j],
                self.slots().take(write as int) == survivors(orig.take(read as int), gone),
                self.same_but_slots(old(self)),
            decreases n - read,
        {
            let ghost cur = self.slots();
            if p < dels.len() && dels[p] - base == read {
                proof {
                    assert(index_set(dels@).contains(read + base));
                    assert(gone.contains(read as int));
                    lemma_survivors_skip(orig, gone, read as int);
                }
                p += 1;
            } else {
                proof {
                    if gone.contains(read as int) {
                        let k = choose|k: int| 0 <= k < dels@.len() && dels@[k] == read + base;
                        if k > p {
                            assert(dels@[p as int] < dels@[k]);
                        }
                        assert(false);
                    }
                    lemma_survivors_keep(orig, gone, read as int);
                }
                if write != read {
                    self.disk_move(read, read + 1, write);
                }
                proof {
                    assert(self.slots().take(write as int + 1) =~= cur.take(write as int).push(
                        orig[read as int],
                    ));
                }
                write += 1;
            }
            read += 1;
        }
        proof {
            assert(orig.take(n as int) =~= orig);
        }
        self.disk_count = write;
        self.total_count = self.total_count - (p - from);
    }

    /// Takes out the records at the positions that `indices` lists, in any
    /// order, with repetitions and with positions that do not exist. The
    /// other records close up in order, each within RAM or within the spill
    /// region.
    pub fn remove_results_batch(&mut self, indices: Vec<usize>) -> (r: Result<(), StoreError>)
        requires
            old(self).wf(),
        ensures
            r is Ok,
            final(self).wf(),
            final(self).same_shape(old(self)),
            final(self)@ == survivors(old(self)@, index_set(indices@)),
            final(self).memory_view() == survivors(old(self).memory_view(), index_set(indices@)),
            final(self).disk_view() == survivors(
                old(self).disk_view(),
                Set::new(|i: int| index_set(indices@).contains(i + old(self).memory_view().len())),
            ),
    {
        let dels = normalized_indices(indices, self.total_count);
        let ghost gone = index_set(indices@);
        let ghost mem = self.memory_view();
        let ghost disk = self.disk_view();
        let ghost shifted = Set::new(|i: int| gone.contains(i + mem.len()));
        let memory_len = self.memory_buffer.len();
        let p = self.remove_memory_batch(&dels);
        self.remove_disk_batch(&dels, p, memory_len);
        proof {
            let gone_n = index_set(dels@);
            let shifted_n = Set::new(|i: int| gone_n.contains(i + mem.len()));
            assert forall|i: int| 0 <= i < mem.len() + disk.len() implies (gone_n.contains(i)
                <==> gone.contains(i)) by {
                if gone_n.contains(i) {
                    let k = choose|k: int| 0 <= k < dels@.len() && dels@[k] == i;
                    assert(dels@.contains(dels@[k]));
                    assert(indices@.contains(i as usize));
                    let w = choose|w: int| 0 <= w < indices@.len() && indices@[w] == i as usize;
                    assert(indices@[w] == i);
                }
                if gone.contains(i) {
                    let w = choose|w: int| 0 <= w < indices@.len() && indices@[w] == i;
                    assert(indices@.contains(i as usize));
                    assert(dels@.contains(i as usize));
                    let k = choose|k: int| 0 <= k < dels@.len() && dels@[k] == i as usize;
                    assert(dels@[k] == i);
                }
            }
            lemma_survivors_agree(mem, gone_n, gone);
            assert forall|i: int| 0 <= i < disk.len() implies (shifted_n.contains(i)
                <==> shifted.contains(i)) by {
                assert(gone_n.contains(i + mem.len()) <==> gone.contains(i + mem.len()));
            }
            lemma_survivors_agree(disk, shifted_n, shifted);
            lemma_survivors_concat(mem, disk, gone, shifted);
        }
        Ok(())
    }

    /// Whether a refinement that keeps `keep_count` of `total` records deletes
    /// the others in place, rather than setting the kept ones aside and
    /// building the store anew: it does where more are kept than go.
    pub open spec fn keeps_by_deleting(keep_count: nat, total: nat) -> bool {
        keep_count > (if total >= keep_count {
            total - keep_count
        } else {
            0
        })
    }

    /// Shrinks the store to the records at the positions that `keep_indices`
    /// lists. Positions that do not exist are passed over. With no position
    /// the store is emptied. Where more records are kept than go, the others
    /// are deleted, so each kept record stays once. Else the kept records are
    /// read in ascending order of the listed positions, a position listed
    /// twice giving its record twice, and the store is filled anew with them.
    pub fn keep_only_results(&mut self, keep_indices: Vec<usize>) -> (r: Result<(), StoreError>)
        requires
            old(self).wf(),
        ensures
            r is Ok,
            final(self).wf(),
            final(self).same_shape(old(self)),
            keep_indices@.len() == 0 ==> final(self)@ == Seq::<ItemModel>::empty(),
            keep_indices@.len() > 0 && Self::keeps_by_deleting(
                keep_indices@.len(),
                old(self)@.len(),
            ) ==> final(self)@ == survivors(
                old(self)@,
                Set::new(|i: int| !index_set(keep_indices@).contains(i)),
            ),
            keep_indices@.len() > 0 && !Self::keeps_by_deleting(
                keep_indices@.len(),
                old(self)@.len(),
            ) ==> exists|order: Seq<usize>|
                ascending(order) && order.to_multiset() == keep_indices@.to_multiset()
                    && final(self)@ == gather(old(self)@, order),
            keep_indices@.len() > 0 && Self::keeps_by_deleting(
                keep_indices@.len(),
                old(self)@.len(),
            ) ==> final(self).memory_view() == survivors(
                old(self).memory_view(),
                Set::new(|i: int| !index_set(keep_indices@).contains(i)),
            ),
            keep_indices@.len() > 0 && !Self::keeps_by_deleting(
                keep_indices@.len(),
                old(self)@.len(),
            ) ==> final(self).memory_view() == final(self)@.take(
                if final(self)@.len() <= old(self).spec_capacity() {
                    final(self)@.len() as int
                } else {
                    old(self).spec_capacity() as int
                },
            ),
    {
        if keep_indices.len() == 0 {
            let r = self.clear();
            return r;
        }
        let keep_count = keep_indices.len();
        let remove_count = if self.total_count >= keep_count {
            self.total_count - keep_count
        } else {
            0
        };
        let ghost orig = self@;
        if keep_count <= remove_count {
            let sorted = sorted_indices(keep_indices);
            let mut kept_items: Vec<FuzzySearchResultItem> = Vec::new();
            let mut i: usize = 0;
            assert(sorted@.take(0) =~= Seq::<usize>::empty());
            while i < sorted.len()
                invariant
                    i <= sorted@.len(),
                    self.wf(),
                    self@ == orig,
                    models(kept_items@) == gather(orig, sorted@.take(i as int)),
                    kept_items@.len() <= i,
                decreases sorted@.len() - i,
            {
                let idx = sorted[i];
                proof {
                    lemma_gather_step(orig, sorted@, i as int);
                }
                if idx < self.total_count {
                    let item = self.item_at(idx);
                    let ghost prev = kept_items@;
                    kept_items.push(item);
                    assert(models(kept_items@) =~= models(prev).push(item@));
                }
                i += 1;
            }
            assert(sorted@.take(i as int) =~= sorted@);
            let _ = self.clear();
            let r = self.refill(&kept_items);
            r
        } else {
            let kept = normalized_indices(keep_indices, self.total_count);
            let remove_indices = complement_indices(&kept, self.total_count);
            let r = self.remove_results_batch(remove_indices);
            proof {
                let want = Set::new(|i: int| !index_set(keep_indices@).contains(i));
                assert forall|i: int| 0 <= i < orig.len() implies (index_set(
                    remove_indices@,
                ).contains(i) <==> want.contains(i)) by {
                    if index_set(kept@).contains(i) {
                        let k = choose|k: int| 0 <= k < kept@.len() && kept@[k] == i;
                        assert(kept@.contains(kept@[k]));
                        assert(keep_indices@.contains(i as usize));
                        let w = choose|w: int|
                            0 <= w < keep_indices@.len() && keep_indices@[w] == i as usize;
                        assert(keep_indices@[w] == i);
                    }
                    if index_set(keep_indices@).contains(i) {
                        let w = choose|w: int| 0 <= w < keep_indices@.len() && keep_indices@[w] == i;
                        assert(keep_indices@.contains(i as usize));
                        assert(kept@.contains(i as usize));
                        let k = choose|k: int| 0 <= k < kept@.len() && kept@[k] == i as usize;
                        assert(kept@[k] == i);
                    }
                }
                lemma_survivors_agree(orig, index_set(remove_indices@), want);
                lemma_survivors_agree(
                    old(self).memory_view(),
                    index_set(remove_indices@),
                    want,
                );
            }
            r
        }
    }

    /// The total is the number of records, and that is the number in RAM plus
    /// the number in the spill region.
    pub proof fn lemma_count_identity(&self)
        requires
            self.wf(),
        ensures
            self.spec_total_count() == self@.len(),
            self@.len() == self.memory_view().len() + self.disk_view().len(),
            self.memory_view().len() <= self.spec_capacity(),
            self.disk_view().len() == self.spec_disk_count(),
    {
    }

    /// A position below the number of records in RAM is read from RAM, any
    /// other from the spill region, counted from the end of RAM.
    pub proof fn lemma_position_mapping(&self, i: int)
        requires
            self.wf(),
            0 <= i < self@.len(),
        ensures
            i < self.memory_view().len() ==> self@[i] == self.memory_view()[i],
            i >= self.memory_view().len() ==> self@[i] == self.disk_view()[i
                - self.memory_view().len()],
    {
    }

    /// The seam does not show: stores of any capacity that hold the same
    /// records hold the same record at every position, in RAM or on disk.
    pub proof fn lemma_seam_transparency(&self, other: &Self, i: int)
        requires
            self.wf(),
            other.wf(),
            self@ == other@,
            0 <= i < self@.len(),
        ensures
            self@[i] == other@[i],
            self@[i] == (if i < self.memory_view().len() {
                self.memory_view()[i]
            } else {
                self.disk_view()[i - self.memory_view().len()]
            }),
            other@[i] == (if i < other.memory_view().len() {
                other.memory_view()[i]
            } else {
                other.disk_view()[i - other.memory_view().len()]
            }),
    {
    }

    /// Everything but the contents of the spill region is as in `other`.
    pub closed spec fn same_but_slots(&self, other: &Self) -> bool {
        &&& self.memory_buffer == other.memory_buffer
        &&& self.memory_buffer_capacity == other.memory_buffer_capacity
        &&& self.disk_count == other.disk_count
        &&& self.total_count == other.total_count
        &&& (self.spill is Some <==> other.spill is Some)
        &&& self.spill_slots() == other.spill_slots()
    }

    /// The slots of the spill region; none while it is absent.
    pub open spec fn slots(&self) -> Seq<ItemModel> {
        match self.spec_spill() {
            Some(s) => s.slots(),
            None => Seq::empty(),
        }
    }

    fn disk_capacity(&self) -> (n: usize)
        ensures
            n == self.spill_slots(),
            n == self.slots().len(),
            n <= usize::MAX / 17,
    {
        match &self.spill {
            Some(s) => s.capacity(),
            None => 0,
        }
    }

    fn disk_read(&self, i: usize) -> (r: FuzzySearchResultItem)
        requires
            i < self.spill_slots(),
        ensures
            r@ == self.slots()[i as int],
    {
        self.spill.as_ref().unwrap().read(i)
    }

    fn disk_write(&mut self, i: usize, item: &FuzzySearchResultItem)
        requires
            i < old(self).spill_slots(),
        ensures
            final(self).same_but_slots(old(self)),
            final(self).slots() == old(self).slots().update(i as int, item@),
    {
        let mut s = self.spill.take().unwrap();
        s.write(i, item);
        self.spill = Some(s);
    }

    fn disk_move(&mut self, start: usize, end: usize, dest: usize)
        requires
            start <= end <= old(self).spill_slots(),
            dest + (end - start) <= old(self).spill_slots(),
        ensures
            final(self).same_but_slots(old(self)),
            final(self).slots() == Seq::new(
                old(self).slots().len(),
                |j: int|
                    if dest <= j < dest + (end - start) {
                        old(self).slots()[j - dest + start]
                    } else {
                        old(self).slots()[j]
                    },
            ),
    {
        match self.spill.take() {
            Some(mut s) => {
                s.move_slots(start, end, dest);
                self.spill = Some(s);
            },
            None => {
                assert(self.slots() =~= Seq::new(
                    old(self).slots().len(),
                    |j: int|
                        if dest <= j < dest + (end - start) {
                            old(self).slots()[j - dest + start]
                        } else {
                            old(self).slots()[j]
                        },
                ));
            },
        }
    }
}

} // verus!
