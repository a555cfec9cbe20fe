//! The spill region: a writable memory mapping read as an array of packed
//! records.

use vstd::prelude::*;
use memmap2::MmapMut;
use crate::codec::{decode_record, decode_slot, encode, lemma_decode_encode};
use crate::item::{FuzzySearchResultItem, ItemModel};

verus! {

#[verifier::external_type_specification]
#[verifier::external_body]
pub struct ExMmapMut(memmap2::MmapMut);

/// The bytes that a mapping covers, in order. The mapping is taken to be its
/// owner's alone: nothing else writes to what it maps while it lives.
pub uninterp spec fn mapped_bytes(m: MmapMut) -> Seq<u8>;

/// `<[u8]>::len` on the mapping, which `memmap2::MmapMut` dereferences to:
/// the number of bytes it covers.
#[verifier::external_body]
fn mapped_len(m: &MmapMut) -> (n: usize)
    ensures
        n == mapped_bytes(*m).len(),
{
    m.len()
}

/// Indexing the mapping by a range and copying the bytes out with
/// `<[u8]>::to_vec`: the result is the bytes from `start` up to `end`.
#[verifier::external_body]
fn mapped_read(m: &MmapMut, start: usize, end: usize) -> (r: Vec<u8>)
    requires
        start <= end <= mapped_bytes(*m).len(),
    ensures
        r@ == mapped_bytes(*m).subrange(start as int, end as int),
{
    m[start..end].to_vec()
}

/// `<[u8]>::copy_from_slice` on a range of the mapping: the bytes from `start`
/// up to `end` become `data`, all others stay.
#[verifier::external_body]
fn mapped_write(m: &mut MmapMut, start: usize, end: usize, data: &[u8])
    requires
        start <= end <= mapped_bytes(*old(m)).len(),
        data@.len() == end - start,
    ensures
        mapped_bytes(*final(m)) == mapped_bytes(*old(m)).subrange(0, start as int) + data@
            + mapped_bytes(*old(m)).subrange(end as int, mapped_bytes(*old(m)).len() as int),
{
    m[start..end].copy_from_slice(data)
}

/// `<[u8]>::copy_within` on the mapping: the bytes that stood from `start` up
/// to `end` now also stand from `dest` on, as by `memmove`; all others stay.
#[verifier::external_body]
fn mapped_move(m: &mut MmapMut, start: usize, end: usize, dest: usize)
    requires
        start <= end <= mapped_bytes(*old(m)).len(),
        dest + (end - start) <= mapped_bytes(*old(m)).len(),
    ensures
        mapped_bytes(*final(m)) == mapped_bytes(*old(m)).subrange(0, dest as int) + mapped_bytes(
            *old(m),
        ).subrange(start as int, end as int) + mapped_bytes(*old(m)).subrange(
            dest + (end - start),
            mapped_bytes(*old(m)).len() as int,
        ),
{
    m.copy_within(start..end, dest)
}

/// A mapping seen as slots of seventeen bytes, each one packed record. Bytes
/// past the last whole slot are never touched.
pub struct Spill {
    map: MmapMut,
}

impl Spill {
    /// The bytes of the mapping.
    pub closed spec fn bytes(&self) -> Seq<u8> {
        mapped_bytes(self.map)
    }

    /// Number of whole slots.
    pub open spec fn slot_count(&self) -> nat {
        (self.bytes().len() / 17) as nat
    }

    /// The record that slot `i` spells.
    pub open spec fn slot(&self, i: int) -> ItemModel {
        decode_record(self.bytes().subrange(17 * i, 17 * i + 17))
    }

    /// All slots, in order.
    pub open spec fn slots(&self) -> Seq<ItemModel> {
        Seq::new(self.slot_count(), |i: int| self.slot(i))
    }

    /// Takes over a mapping.
    pub fn new(map: MmapMut) -> (r: Spill)
        ensures
            r.bytes() == mapped_bytes(map),
    {
        Spill { map }
    }

    /// Gives the mapping back.
    pub fn into_map(self) -> (m: MmapMut)
        ensures
            mapped_bytes(m) == self.bytes(),
    {
        self.map
    }

    /// Number of bytes the mapping covers.
    pub fn byte_len(&self) -> (n: usize)
        ensures
            n == self.bytes().len(),
    {
        mapped_len(&self.map)
    }

    /// Number of whole slots.
    pub fn capacity(&self) -> (n: usize)
        ensures
            n == self.slot_count(),
            n == self.slots().len(),
            n <= usize::MAX / 17,
    {
        mapped_len(&self.map) / 17
    }

    /// Reads the record in slot `i`.
    pub fn read(&self, i: usize) -> (r: FuzzySearchResultItem)
        requires
            i < self.slot_count(),
        ensures
            r@ == self.slots()[i as int],
    {
        let len = mapped_len(&self.map);
        assert(17 * i + 17 <= len);
        let raw = mapped_read(&self.map, 17 * i, 17 * i + 17);
        decode_slot(raw.as_slice())
    }

    /// Writes `item` into slot `i`; every other slot keeps its record.
    pub fn write(&mut self, i: usize, item: &FuzzySearchResultItem)
        requires
            i < old(self).slot_count(),
        ensures
            final(self).slots() == old(self).slots().update(i as int, item@),
            final(self).bytes().len() == old(self).bytes().len(),
    {
        let raw = encode(item);
        let ghost before = self.bytes();
        let len = mapped_len(&self.map);
        assert(17 * i + 17 <= len);
        mapped_write(&mut self.map, 17 * i, 17 * i + 17, raw.as_slice());
        proof {
            let after = self.bytes();
            lemma_decode_encode(item@);
            assert(after.len() == before.len());
            assert forall|j: int| 0 <= j < self.slot_count() implies #[trigger] self.slot(j)
                == old(self).slots().update(i as int, item@)[j] by {
                if j == i {
                    assert(after.subrange(17 * j, 17 * j + 17) =~= raw@);
                } else {
                    assert(after.subrange(17 * j, 17 * j + 17) =~= before.subrange(
                        17 * j,
                        17 * j + 17,
                    ));
                }
            }
            assert(self.slots() =~= old(self).slots().update(i as int, item@));
        }
    }

    /// Copies the records of the slots from `start` up to `end` to the slots
    /// from `dest` on. The two ranges may overlap: what is copied is what
    /// stood there before the call.
    pub fn move_slots(&mut self, start: usize, end: usize, dest: usize)
        requires
            start <= end <= old(self).slot_count(),
            dest + (end - start) <= old(self).slot_count(),
        ensures
            final(self).bytes().len() == old(self).bytes().len(),
            final(self).slots() == Seq::new(
                old(self).slot_count(),
                |j: int|
                    if dest <= j < dest + (end - start) {
                        old(self).slots()[j - dest + start]
                    } else {
                        old(self).slots()[j]
                    },
            ),
    {
        let ghost before = self.bytes();
        let len = mapped_len(&self.map);
        assert(17 * end <= len && 17 * dest + (17 * end - 17 * start) <= len);
        mapped_move(&mut self.map, 17 * start, 17 * end, 17 * dest);
        proof {
            let after = self.bytes();
            assert(after.len() == before.len());
            let want = Seq::new(
                old(self).slot_count(),
                |j: int|
                    if dest <= j < dest + (end - start) {
                        old(self).slots()[j - dest + start]
                    } else {
                        old(self).slots()[j]
                    },
            );
            assert forall|j: int| 0 <= j < self.slot_count() implies #[trigger] self.slot(j)
                == want[j] by {
                if dest <= j < dest + (end - start) {
                    let k = j - dest + start;
                    assert(after.subrange(17 * j, 17 * j + 17) =~= before.subrange(
                        17 * k,
                        17 * k + 17,
                    ));
                } else {
                    assert(after.subrange(17 * j, 17 * j + 17) =~= before.subrange(
                        17 * j,
                        17 * j + 17,
                    ));
                }
            }
            assert(self.slots() =~= want);
        }
    }
}

} // verus!
