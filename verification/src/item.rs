//! The record of one hit: where it was found, what was read there, and as what.

use vstd::prelude::*;
use vstd::arithmetic::power2::{
    lemma2_to64, lemma2_to64_rest, lemma_pow2_strictly_increases, pow2,
};
use vstd::bits::{lemma_u64_shl_is_mul, lemma_u64_shr_is_div};
use crate::types::{FuzzyCondition, ValueType};

verus! {

/// Width of the value field of a record, in bytes.
pub const VALUE_WIDTH: usize = 8;

/// Width of a packed record: address, value, type tag.
pub const RECORD_SIZE: usize = 17;

/// What a record is, mathematically.
pub ghost struct ItemModel {
    pub address: u64,
    pub value: Seq<u8>,
    pub value_type: ValueType,
}

/// One hit of a scan: the address, the last eight bytes sampled there in
/// little-endian order, and the type they are read as.
#[derive(Clone, Copy, Debug)]
pub struct FuzzySearchResultItem {
    pub address: u64,
    pub value: [u8; 8],
    pub value_type: ValueType,
}

impl View for FuzzySearchResultItem {
    type V = ItemModel;

    open spec fn view(&self) -> ItemModel {
        ItemModel { address: self.address, value: self.value@, value_type: self.value_type }
    }
}

/// The records that a sequence of items stands for.
pub open spec fn models(s: Seq<FuzzySearchResultItem>) -> Seq<ItemModel> {
    s.map_values(|x: FuzzySearchResultItem| x@)
}

/// The first eight bytes of `bytes`, with zeros where it is shorter.
pub open spec fn padded(bytes: Seq<u8>) -> Seq<u8> {
    Seq::new(8, |i: int| if i < bytes.len() { bytes[i] } else { 0u8 })
}

/// A record built from a sample starts with the sample, as far as the sample
/// and the eight bytes go, and is zero behind it.
pub proof fn lemma_padded_round_trip(bytes: Seq<u8>, n: int)
    requires
        0 <= n <= 8,
        n <= bytes.len(),
    ensures
        padded(bytes).len() == 8,
        padded(bytes).take(n) == bytes.take(n),
        forall|i: int| bytes.len() <= i < 8 ==> padded(bytes)[i] == 0,
{
    assert(padded(bytes).take(n) =~= bytes.take(n));
}

/// The unsigned number that the first `n` bytes of `v` spell in little-endian
/// order, for the widths 1, 2, 4 and 8.
pub open spec fn unsigned_le(v: Seq<u8>, n: nat) -> int {
    if n == 1 {
        v[0] as int
    } else if n == 2 {
        v[0] + 0x100 * v[1]
    } else if n == 4 {
        v[0] + 0x100 * v[1] + 0x1_0000 * v[2] + 0x100_0000 * v[3]
    } else {
        v[0] + 0x100 * v[1] + 0x1_0000 * v[2] + 0x100_0000 * v[3] + 0x1_0000_0000 * v[4]
            + 0x100_0000_0000 * v[5] + 0x1_0000_0000_0000 * v[6] + 0x100_0000_0000_0000 * v[7]
    }
}

/// The two's-complement reading of `u`, where `half` is the weight of the sign bit.
pub open spec fn twos_complement(u: int, half: int) -> int {
    if u >= half {
        u - 2 * half
    } else {
        u
    }
}

/// `x` reduced into the range of `i64` by adding or subtracting 2^64 once.
pub open spec fn wrap_i64(x: int) -> int {
    if x > i64::MAX {
        x - 2 * 0x8000_0000_0000_0000
    } else if x < i64::MIN {
        x + 2 * 0x8000_0000_0000_0000
    } else {
        x
    }
}

/// The number with the single-precision bit pattern `bits`, cut off toward
/// zero. Not-a-number gives 0; what lies beyond the range of `i64` gives the
/// nearest end of it.
pub open spec fn f32_bits_truncated(bits: u32) -> i64 {
    let negative = (bits >> 31) == 1;
    let exponent = (bits >> 23) & 0xff;
    let fraction = bits & 0x7f_ffff;
    let significand = (fraction | 0x80_0000) as u64;
    if exponent == 0xff && fraction != 0 {
        0
    } else if exponent < 127 {
        0
    } else if exponent >= 190 {
        if negative { i64::MIN } else { i64::MAX }
    } else {
        let magnitude = if exponent <= 150 {
            significand >> ((150 - exponent) as u64)
        } else {
            significand << ((exponent - 150) as u64)
        };
        if negative { (0 - magnitude) as i64 } else { magnitude as i64 }
    }
}

/// The number with the double-precision bit pattern `bits`, cut off toward
/// zero, with the same conventions as for single precision.
pub open spec fn f64_bits_truncated(bits: u64) -> i64 {
    let negative = (bits >> 63) == 1;
    let exponent = (bits >> 52) & 0x7ff;
    let fraction = bits & 0xf_ffff_ffff_ffff;
    let significand = fraction | 0x10_0000_0000_0000;
    if exponent == 0x7ff && fraction != 0 {
        0
    } else if exponent < 1023 {
        0
    } else if exponent >= 1086 {
        if negative { i64::MIN } else { i64::MAX }
    } else {
        let magnitude = if exponent <= 1075 {
            significand >> ((1075 - exponent) as u64)
        } else {
            significand << ((exponent - 1075) as u64)
        };
        if negative { (0 - magnitude) as i64 } else { magnitude as i64 }
    }
}

/// Between one and the end of the range of `i64` the cut-off number is the
/// significand scaled by a power of two: divided where the exponent leaves
/// fraction bits behind the point, multiplied where it does not.
pub proof fn lemma_f64_truncation_scales(bits: u64)
    requires
        1023 <= (bits >> 52) & 0x7ff < 1086,
    ensures
        ({
            let exponent = ((bits >> 52) & 0x7ff) as int;
            let significand = ((bits & 0xf_ffff_ffff_ffff) | 0x10_0000_0000_0000) as int;
            let magnitude = if exponent <= 1075 {
                significand / (pow2((1075 - exponent) as nat) as int)
            } else {
                significand * pow2((exponent - 1075) as nat)
            };
            f64_bits_truncated(bits) == (if (bits >> 63) == 1 {
                -magnitude
            } else {
                magnitude
            })
        }),
{
    let exponent: u64 = (bits >> 52) & 0x7ff;
    let significand: u64 = (bits & 0xf_ffff_ffff_ffff) | 0x10_0000_0000_0000;
    assert(((bits & 0xf_ffff_ffff_ffff) | 0x10_0000_0000_0000) < 0x20_0000_0000_0000)
        by (bit_vector);
    if exponent <= 1075 {
        let k: u64 = (1075 - exponent) as u64;
        lemma_u64_shr_is_div(significand, k);
        assert(significand < 0x20_0000_0000_0000 && k < 64 ==> (significand >> k)
            < 0x20_0000_0000_0000) by (bit_vector);
    } else {
        let k: u64 = (exponent - 1075) as u64;
        lemma2_to64();
        if k < 10 {
            lemma_pow2_strictly_increases(k as nat, 10);
        }
        assert(significand * pow2(k as nat) <= 0x20_0000_0000_0000 * 0x400) by (nonlinear_arith)
            requires
                significand < 0x20_0000_0000_0000,
                pow2(k as nat) <= 0x400,
        ;
        lemma_u64_shl_is_mul(significand, k);
        assert(significand < 0x20_0000_0000_0000 && k <= 10 ==> (significand << k)
            < 0x8000_0000_0000_0000) by (bit_vector);
    }
}

/// The same for single precision.
pub proof fn lemma_f32_truncation_scales(bits: u32)
    requires
        127 <= (bits >> 23) & 0xff < 190,
    ensures
        ({
            let exponent = ((bits >> 23) & 0xff) as int;
            let significand = ((bits & 0x7f_ffff) | 0x80_0000) as int;
            let magnitude = if exponent <= 150 {
                significand / (pow2((150 - exponent) as nat) as int)
            } else {
                significand * pow2((exponent - 150) as nat)
            };
            f32_bits_truncated(bits) == (if (bits >> 31) == 1 {
                -magnitude
            } else {
                magnitude
            })
        }),
{
    let exponent: u32 = (bits >> 23) & 0xff;
    let significand: u64 = ((bits & 0x7f_ffff) | 0x80_0000) as u64;
    assert(((bits & 0x7f_ffff) | 0x80_0000) < 0x100_0000) by (bit_vector);
    if exponent <= 150 {
        let k: u64 = (150 - exponent) as u64;
        lemma_u64_shr_is_div(significand, k);
        assert(significand < 0x100_0000 && k < 64 ==> (significand >> k) < 0x100_0000)
            by (bit_vector);
    } else {
        let k: u64 = (exponent - 150) as u64;
        lemma2_to64();
        lemma2_to64_rest();
        if k < 39 {
            lemma_pow2_strictly_increases(k as nat, 39);
        }
        assert(significand * pow2(k as nat) <= 0x100_0000 * 0x80_0000_0000) by (nonlinear_arith)
            requires
                significand < 0x100_0000,
                pow2(k as nat) <= 0x80_0000_0000,
        ;
        lemma_u64_shl_is_mul(significand, k);
        assert(significand < 0x100_0000 && k <= 39 ==> (significand << k)
            < 0x8000_0000_0000_0000) by (bit_vector);
    }
}

pub fn truncate_f32_bits(bits: u32) -> (r: i64)
    ensures
        r == f32_bits_truncated(bits),
{
    let negative = (bits >> 31) == 1;
    let exponent: u32 = (bits >> 23) & 0xff;
    let fraction: u32 = bits & 0x7f_ffff;
    let significand: u64 = (fraction | 0x80_0000) as u64;
    assert((bits >> 23) & 0xff <= 0xff) by (bit_vector);
    assert(((bits & 0x7f_ffff) | 0x80_0000) < 0x100_0000) by (bit_vector);
    if exponent == 0xff && fraction != 0 {
        0
    } else if exponent < 127 {
        0
    } else if exponent >= 190 {
        if negative { i64::MIN } else { i64::MAX }
    } else {
        let magnitude: u64 = if exponent <= 150 {
            let k: u64 = (150 - exponent) as u64;
            assert(significand < 0x100_0000 && k < 64 ==> (significand >> k) < 0x100_0000)
                by (bit_vector);
            significand >> k
        } else {
            let k: u64 = (exponent - 150) as u64;
            assert(significand < 0x100_0000 && k <= 39 ==> (significand << k)
                < 0x8000_0000_0000_0000) by (bit_vector);
            significand << k
        };
        if negative { 0 - (magnitude as i64) } else { magnitude as i64 }
    }
}

pub fn truncate_f64_bits(bits: u64) -> (r: i64)
    ensures
        r == f64_bits_truncated(bits),
{
    let negative = (bits >> 63) == 1;
    let exponent: u64 = (bits >> 52) & 0x7ff;
    let fraction: u64 = bits & 0xf_ffff_ffff_ffff;
    let significand: u64 = fraction | 0x10_0000_0000_0000;
    assert((bits >> 52) & 0x7ff <= 0x7ff) by (bit_vector);
    assert(((bits & 0xf_ffff_ffff_ffff) | 0x10_0000_0000_0000) < 0x20_0000_0000_0000)
        by (bit_vector);
    if exponent == 0x7ff && fraction != 0 {
        0
    } else if exponent < 1023 {
        0
    } else if exponent >= 1086 {
        if negative { i64::MIN } else { i64::MAX }
    } else {
        let magnitude: u64 = if exponent <= 1075 {
            let k: u64 = 1075 - exponent;
            assert(significand < 0x20_0000_0000_0000 && k < 64 ==> (significand >> k)
                < 0x20_0000_0000_0000) by (bit_vector);
            significand >> k
        } else {
            let k: u64 = exponent - 1075;
            assert(significand < 0x20_0000_0000_0000 && k <= 10 ==> (significand << k)
                < 0x8000_0000_0000_0000) by (bit_vector);
            significand << k
        };
        if negative { 0 - (magnitude as i64) } else { magnitude as i64 }
    }
}

impl ItemModel {
    /// The value read as a signed integer of the type's width; for the two
    /// floating-point types, the number cut off toward zero.
    pub open spec fn as_i64(self) -> i64 {
        match self.value_type {
            ValueType::Byte => twos_complement(unsigned_le(self.value, 1), 0x80) as i64,
            ValueType::Word => twos_complement(unsigned_le(self.value, 2), 0x8000) as i64,
            ValueType::Qword => twos_complement(
                unsigned_le(self.value, 8),
                0x8000_0000_0000_0000,
            ) as i64,
            ValueType::Float => f32_bits_truncated(unsigned_le(self.value, 4) as u32),
            ValueType::Double => f64_bits_truncated(unsigned_le(self.value, 8) as u64),
            _ => twos_complement(unsigned_le(self.value, 4), 0x8000_0000) as i64,
        }
    }

    /// The record that keeps this one's address and type and holds `bytes`.
    pub open spec fn with_value(self, bytes: Seq<u8>) -> ItemModel {
        ItemModel { address: self.address, value: padded(bytes), value_type: self.value_type }
    }
}

/// The integer comparison of an old and a new sample, where it needs no
/// floating-point arithmetic. The difference wraps around. A percent
/// condition on a non-zero old value is left open.
pub open spec fn int_verdict(old_val: i64, new_val: i64, condition: FuzzyCondition) -> Option<bool> {
    let diff = wrap_i64(new_val - old_val);
    match condition {
        FuzzyCondition::Initial => Some(true),
        FuzzyCondition::Unchanged => Some(old_val == new_val),
        FuzzyCondition::Changed => Some(old_val != new_val),
        FuzzyCondition::Increased => Some(new_val > old_val),
        FuzzyCondition::Decreased => Some(new_val < old_val),
        FuzzyCondition::IncreasedBy(amount) => Some(diff == amount),
        FuzzyCondition::DecreasedBy(amount) => Some(diff == wrap_i64(-amount)),
        FuzzyCondition::IncreasedByRange(lo, hi) => Some(lo <= diff <= hi),
        FuzzyCondition::DecreasedByRange(lo, hi) => Some(lo <= wrap_i64(-diff) <= hi),
        FuzzyCondition::IncreasedByPercent(_) => if old_val == 0 {
            Some(new_val > 0)
        } else {
            None
        },
        FuzzyCondition::DecreasedByPercent(_) => if old_val == 0 {
            Some(new_val < 0)
        } else {
            None
        },
    }
}

/// The integer comparison with the scaled old value at hand: a percent
/// condition on a non-zero old value compares the new value with `threshold`.
pub open spec fn int_verdict_scaled(
    old_val: i64,
    new_val: i64,
    condition: FuzzyCondition,
    threshold: i64,
) -> bool {
    match int_verdict(old_val, new_val, condition) {
        Some(b) => b,
        None => if condition is IncreasedByPercent {
            new_val >= threshold
        } else {
            new_val <= threshold
        },
    }
}

/// What is known of a match without floating-point arithmetic: for a
/// floating-point type only that `Initial` always holds, else the integer
/// comparison of the stored value with the fresh bytes.
pub open spec fn verdict(stored: ItemModel, new_bytes: Seq<u8>, condition: FuzzyCondition) -> Option<bool> {
    if stored.value_type.spec_is_float_type() {
        if condition is Initial {
            Some(true)
        } else {
            None
        }
    } else {
        int_verdict(stored.as_i64(), stored.with_value(new_bytes).as_i64(), condition)
    }
}

fn wrapping_difference(a: i64, b: i64) -> (d: i64)
    ensures
        d == wrap_i64(a - b),
{
    let wide: i128 = a as i128 - b as i128;
    if wide > 0x7fff_ffff_ffff_ffff {
        (wide - 0x1_0000_0000_0000_0000) as i64
    } else if wide < -0x8000_0000_0000_0000 {
        (wide + 0x1_0000_0000_0000_0000) as i64
    } else {
        wide as i64
    }
}

impl FuzzySearchResultItem {
    pub fn new(address: u64, value: [u8; 8], value_type: ValueType) -> (r: Self)
        ensures
            r.address == address,
            r.value == value,
            r.value_type == value_type,
    {
        FuzzySearchResultItem { address, value, value_type }
    }

    /// Builds a record from a sample of any length: the first eight bytes are
    /// kept, a shorter sample is filled up with zeros.
    pub fn from_bytes(address: u64, bytes: &[u8], value_type: ValueType) -> (r: Self)
        ensures
            r@ == (ItemModel { address, value: padded(bytes@), value_type }),
            r.address == address,
            r.value_type == value_type,
            forall|i: int| 0 <= i < 8 && i < bytes@.len() ==> r.value@[i] == bytes@[i],
            forall|i: int| bytes@.len() <= i < 8 ==> r.value@[i] == 0,
    {
        let mut value: [u8; 8] = [0u8; 8];
        let mut i: usize = 0;
        while i < 8 && i < bytes.len()
            invariant
                i <= 8,
                i <= bytes@.len(),
                forall|j: int| 0 <= j < i ==> value@[j] == bytes@[j],
                forall|j: int| i <= j < 8 ==> value@[j] == 0,
            decreases 8 - i,
        {
            value[i] = bytes[i];
            i += 1;
        }
        assert(value@ =~= padded(bytes@));
        FuzzySearchResultItem { address, value, value_type }
    }

    /// Number of significant bytes of the value.
    pub fn value_size(&self) -> (n: usize)
        ensures
            n == self.value_type.spec_size(),
    {
        self.value_type.size()
    }

    fn unsigned(&self, n: usize) -> (u: u64)
        requires
            n == 1 || n == 2 || n == 4 || n == 8,
        ensures
            u == unsigned_le(self.value@, n as nat),
    {
        let v = &self.value;
        let low: u64 = v[0] as u64;
        if n == 1 {
            low
        } else if n == 2 {
            low + 0x100 * (v[1] as u64)
        } else {
            let word: u64 = low + 0x100 * (v[1] as u64) + 0x1_0000 * (v[2] as u64) + 0x100_0000 * (
            v[3] as u64);
            if n == 4 {
                word
            } else {
                let high: u64 = (v[4] as u64) + 0x100 * (v[5] as u64) + 0x1_0000 * (v[6] as u64)
                    + 0x100_0000 * (v[7] as u64);
                word + 0x1_0000_0000 * high
            }
        }
    }

    /// Reads the value as a signed integer; see [`ItemModel::as_i64`].
    pub fn as_i64(&self) -> (r: i64)
        ensures
            r == self@.as_i64(),
    {
        match self.value_type {
            ValueType::Byte => {
                let u = self.unsigned(1);
                if u >= 0x80 { u as i64 - 0x100 } else { u as i64 }
            },
            ValueType::Word => {
                let u = self.unsigned(2);
                if u >= 0x8000 { u as i64 - 0x1_0000 } else { u as i64 }
            },
            ValueType::Qword => {
                let u = self.unsigned(8);
                if u >= 0x8000_0000_0000_0000 {
                    ((u - 0x8000_0000_0000_0000) as i64) + i64::MIN
                } else {
                    u as i64
                }
            },
            ValueType::Float => truncate_f32_bits(self.unsigned(4) as u32),
            ValueType::Double => truncate_f64_bits(self.unsigned(8)),
            _ => {
                let u = self.unsigned(4);
                if u >= 0x8000_0000 { u as i64 - 0x1_0000_0000 } else { u as i64 }
            },
        }
    }

    /// Integer comparison of this record with a fresh one. `threshold` stands
    /// for the old value scaled by the percent condition's factor and cut off
    /// toward zero; it is read only for a percent condition on a non-zero old
    /// value.
    pub fn matches_condition_int(
        &self,
        new_item: &FuzzySearchResultItem,
        condition: FuzzyCondition,
        threshold: i64,
    ) -> (b: bool)
        ensures
            b == int_verdict_scaled(self@.as_i64(), new_item@.as_i64(), condition, threshold),
    {
        let old_val = self.as_i64();
        let new_val = new_item.as_i64();
        let diff = wrapping_difference(new_val, old_val);
        match condition {
            FuzzyCondition::Initial => true,
            FuzzyCondition::Unchanged => old_val == new_val,
            FuzzyCondition::Changed => old_val != new_val,
            FuzzyCondition::Increased => new_val > old_val,
            FuzzyCondition::Decreased => new_val < old_val,
            FuzzyCondition::IncreasedBy(amount) => diff == amount,
            FuzzyCondition::DecreasedBy(amount) => diff == wrapping_difference(0, amount),
            FuzzyCondition::IncreasedByRange(lo, hi) => diff >= lo && diff <= hi,
            FuzzyCondition::DecreasedByRange(lo, hi) => {
                let neg_diff = wrapping_difference(0, diff);
                neg_diff >= lo && neg_diff <= hi
            },
            FuzzyCondition::IncreasedByPercent(_) => {
                if old_val == 0 {
                    new_val > 0
                } else {
                    new_val >= threshold
                }
            },
            FuzzyCondition::DecreasedByPercent(_) => {
                if old_val == 0 {
                    new_val < 0
                } else {
                    new_val <= threshold
                }
            },
        }
    }

    /// Comparison of two samples of a floating-point type, as far as it is
    /// settled without floating-point arithmetic: `Initial` always holds.
    pub fn matches_condition_float(
        &self,
        new_item: &FuzzySearchResultItem,
        condition: FuzzyCondition,
    ) -> (r: Option<bool>)
        ensures
            r == (if condition is Initial { Some(true) } else { None::<bool> }),
    {
        match condition {
            FuzzyCondition::Initial => Some(true),
            _ => None,
        }
    }

    /// Tells whether fresh bytes sampled at this record's address satisfy
    /// `condition`, or `None` where only floating-point arithmetic can tell.
    pub fn matches_condition(&self, new_bytes: &[u8], condition: FuzzyCondition) -> (r: Option<bool>)
        ensures
            r == verdict(self@, new_bytes@, condition),
    {
        let new_item = FuzzySearchResultItem::from_bytes(self.address, new_bytes, self.value_type);
        if self.value_type.is_float_type() {
            self.matches_condition_float(&new_item, condition)
        } else if condition.is_percent() && self.as_i64() != 0 {
            None
        } else {
            Some(self.matches_condition_int(&new_item, condition, 0))
        }
    }

    /// The record with the same address and type and a fresh value.
    pub fn with_new_value(&self, new_bytes: &[u8]) -> (r: Self)
        ensures
            r@ == self@.with_value(new_bytes@),
    {
        FuzzySearchResultItem::from_bytes(self.address, new_bytes, self.value_type)
    }
}

} // verus!
