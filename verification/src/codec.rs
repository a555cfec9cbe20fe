//! The packed form of a record: eight address bytes in little-endian order,
//! the eight value bytes as they are, one type tag. No padding.

use vstd::prelude::*;
use vstd::bytes::{
    lemma_auto_spec_u64_to_from_le_bytes, spec_u64_from_le_bytes, spec_u64_to_le_bytes,
    u64_from_le_bytes, u64_to_le_bytes,
};
use vstd::slice::slice_subrange;
use crate::item::{FuzzySearchResultItem, ItemModel, padded};
use crate::types::ValueType;

verus! {

/// The packed bytes of a record.
pub open spec fn encode_record(m: ItemModel) -> Seq<u8> {
    spec_u64_to_le_bytes(m.address) + m.value + seq![m.value_type.spec_tag()]
}

/// The record that seventeen bytes spell. A tag byte outside the table reads
/// as `Dword`.
pub open spec fn decode_record(b: Seq<u8>) -> ItemModel {
    ItemModel {
        address: spec_u64_from_le_bytes(b.subrange(0, 8)),
        value: b.subrange(8, 16),
        value_type: ValueType::spec_from_tag_lossy(b[16]),
    }
}

/// Packing a record and reading it back gives the record.
pub proof fn lemma_decode_encode(m: ItemModel)
    requires
        m.value.len() == 8,
    ensures
        encode_record(m).len() == 17,
        decode_record(encode_record(m)) == m,
{
    lemma_auto_spec_u64_to_from_le_bytes();
    let e = encode_record(m);
    assert(spec_u64_to_le_bytes(m.address).len() == 8);
    assert(e.subrange(0, 8) =~= spec_u64_to_le_bytes(m.address));
    assert(e.subrange(8, 16) =~= m.value);
    assert(e[16] == m.value_type.spec_tag());
}

/// Packs a record.
pub fn encode(item: &FuzzySearchResultItem) -> (out: Vec<u8>)
    ensures
        out@ == encode_record(item@),
        out@.len() == 17,
{
    proof {
        lemma_auto_spec_u64_to_from_le_bytes();
    }
    let mut out = u64_to_le_bytes(item.address);
    let ghost head = out@;
    let mut i: usize = 0;
    while i < 8
        invariant
            i <= 8,
            head.len() == 8,
            out@ == head + item.value@.take(i as int),
        decreases 8 - i,
    {
        out.push(item.value[i]);
        i += 1;
        assert(out@ =~= head + item.value@.take(i as int));
    }
    assert(item.value@.take(8) =~= item.value@);
    out.push(item.value_type.tag());
    assert(out@ =~= encode_record(item@));
    out
}

/// Reads a packed record; `None` unless there are exactly seventeen bytes.
pub fn decode(bytes: &[u8]) -> (r: Option<FuzzySearchResultItem>)
    ensures
        r is Some <==> bytes@.len() == 17,
        r is Some ==> r->0@ == decode_record(bytes@),
{
    if bytes.len() != 17 {
        return None;
    }
    Some(decode_slot(bytes))
}

/// Reads the packed record that one slot holds.
pub(crate) fn decode_slot(bytes: &[u8]) -> (item: FuzzySearchResultItem)
    requires
        bytes@.len() == 17,
    ensures
        item@ == decode_record(bytes@),
{
    let address = u64_from_le_bytes(slice_subrange(bytes, 0, 8));
    let value_type = ValueType::from_tag_lossy(bytes[16]);
    let item = FuzzySearchResultItem::from_bytes(address, slice_subrange(bytes, 8, 16), value_type);
    assert(padded(bytes@.subrange(8, 16)) =~= bytes@.subrange(8, 16));
    item
}

} // verus!
