use fuzzy_store::codec::{decode, encode};
use fuzzy_store::item::{truncate_f32_bits, truncate_f64_bits, FuzzySearchResultItem};
use fuzzy_store::types::{FuzzyCondition, ValueType};

fn dword(address: u64, v: i32) -> FuzzySearchResultItem {
    FuzzySearchResultItem::from_bytes(address, &v.to_le_bytes(), ValueType::Dword)
}

fn scaled(old: i64, factor: f64) -> i64 {
    (old as f64 * factor) as i64
}

#[test]
fn value_type_sizes() {
    assert_eq!(ValueType::Byte.size(), 1);
    assert_eq!(ValueType::Word.size(), 2);
    assert_eq!(ValueType::Dword.size(), 4);
    assert_eq!(ValueType::Qword.size(), 8);
    assert_eq!(ValueType::Float.size(), 4);
    assert_eq!(ValueType::Double.size(), 8);
    assert_eq!(ValueType::Auto.size(), 4);
    assert_eq!(ValueType::Xor.size(), 4);
}

#[test]
fn value_type_tags_round_trip() {
    let all = [
        ValueType::Byte,
        ValueType::Word,
        ValueType::Dword,
        ValueType::Qword,
        ValueType::Float,
        ValueType::Double,
        ValueType::Auto,
        ValueType::Xor,
    ];
    for (i, t) in all.iter().enumerate() {
        assert_eq!(t.tag() as usize, i);
        assert_eq!(ValueType::from_tag(i as u8), Some(*t));
        assert_eq!(ValueType::from_tag_lossy(i as u8), *t);
    }
    assert_eq!(ValueType::from_tag(8), None);
    assert_eq!(ValueType::from_tag(255), None);
    assert_eq!(ValueType::from_tag_lossy(200), ValueType::Dword);
}

#[test]
fn float_types_are_told_apart() {
    assert!(ValueType::Float.is_float_type());
    assert!(ValueType::Double.is_float_type());
    assert!(!ValueType::Dword.is_float_type());
    assert!(!ValueType::Qword.is_float_type());
}

#[test]
fn from_bytes_pads_short_samples() {
    let item = FuzzySearchResultItem::from_bytes(0x10, &[1, 2, 3], ValueType::Dword);
    assert_eq!(item.address, 0x10);
    assert_eq!(item.value, [1, 2, 3, 0, 0, 0, 0, 0]);
    assert_eq!(item.value_type, ValueType::Dword);
    assert_eq!(item.value_size(), 4);
}

#[test]
fn from_bytes_truncates_long_samples() {
    let item = FuzzySearchResultItem::from_bytes(1, &[1, 2, 3, 4, 5, 6, 7, 8, 9, 10], ValueType::Qword);
    assert_eq!(item.value, [1, 2, 3, 4, 5, 6, 7, 8]);
}

#[test]
fn from_bytes_of_nothing_is_zero() {
    let item = FuzzySearchResultItem::from_bytes(1, &[], ValueType::Byte);
    assert_eq!(item.value, [0u8; 8]);
}

#[test]
fn from_bytes_round_trip_prefix() {
    let sample = [0xde, 0xad, 0xbe, 0xef];
    let item = FuzzySearchResultItem::from_bytes(7, &sample, ValueType::Float);
    assert_eq!(&item.value[..item.value_size()], &sample[..4]);
    assert_eq!(&item.value[4..], &[0u8; 4]);
}

#[test]
fn new_keeps_its_arguments() {
    let item = FuzzySearchResultItem::new(0xabc, [9, 8, 7, 6, 5, 4, 3, 2], ValueType::Word);
    assert_eq!(item.address, 0xabc);
    assert_eq!(item.value, [9, 8, 7, 6, 5, 4, 3, 2]);
    assert_eq!(item.value_type, ValueType::Word);
    assert_eq!(item.value_size(), 2);
}

#[test]
fn as_i64_sign_extends_each_width() {
    let b = FuzzySearchResultItem::from_bytes(0, &[0xff, 0x7f], ValueType::Byte);
    assert_eq!(b.as_i64(), -1);
    let w = FuzzySearchResultItem::from_bytes(0, &(-2i16).to_le_bytes(), ValueType::Word);
    assert_eq!(w.as_i64(), -2);
    let w2 = FuzzySearchResultItem::from_bytes(0, &[0x34, 0x12, 0xff], ValueType::Word);
    assert_eq!(w2.as_i64(), 0x1234);
    let d = FuzzySearchResultItem::from_bytes(0, &i32::MIN.to_le_bytes(), ValueType::Dword);
    assert_eq!(d.as_i64(), i32::MIN as i64);
    let a = FuzzySearchResultItem::from_bytes(0, &123456i32.to_le_bytes(), ValueType::Auto);
    assert_eq!(a.as_i64(), 123456);
    let x = FuzzySearchResultItem::from_bytes(0, &(-5i32).to_le_bytes(), ValueType::Xor);
    assert_eq!(x.as_i64(), -5);
    let q = FuzzySearchResultItem::from_bytes(0, &i64::MIN.to_le_bytes(), ValueType::Qword);
    assert_eq!(q.as_i64(), i64::MIN);
    let q2 = FuzzySearchResultItem::from_bytes(0, &i64::MAX.to_le_bytes(), ValueType::Qword);
    assert_eq!(q2.as_i64(), i64::MAX);
    let q3 = FuzzySearchResultItem::from_bytes(0, &(-1i64).to_le_bytes(), ValueType::Qword);
    assert_eq!(q3.as_i64(), -1);
}

#[test]
fn as_i64_truncates_floats_toward_zero() {
    let f = FuzzySearchResultItem::from_bytes(0, &3.99f32.to_le_bytes(), ValueType::Float);
    assert_eq!(f.as_i64(), 3);
    let g = FuzzySearchResultItem::from_bytes(0, &(-3.99f32).to_le_bytes(), ValueType::Float);
    assert_eq!(g.as_i64(), -3);
    let h = FuzzySearchResultItem::from_bytes(0, &123456789.75f64.to_le_bytes(), ValueType::Double);
    assert_eq!(h.as_i64(), 123456789);
    let z = FuzzySearchResultItem::from_bytes(0, &0.5f64.to_le_bytes(), ValueType::Double);
    assert_eq!(z.as_i64(), 0);
}

#[test]
fn float_truncation_agrees_with_the_machine() {
    let singles = [
        0.0f32, -0.0, 0.4, 0.999, 1.0, -1.0, 1.5, 2.0, 7.75, -7.75, 1e6, 16777216.0, 16777218.0,
        -1e9, 3.0e18, 9.0e18, 9.3e18, -9.3e18, 1e30, -1e30, f32::MAX, f32::MIN, f32::MIN_POSITIVE,
        1e-40, f32::INFINITY, f32::NEG_INFINITY, f32::NAN,
    ];
    for x in singles {
        assert_eq!(truncate_f32_bits(x.to_bits()), x as i64, "single {}", x);
    }
    let doubles = [
        0.0f64, -0.0, 0.4, 0.999, 1.0, -1.0, 1.5, 2.0, 7.75, -7.75, 1e6, 4503599627370496.0,
        4503599627370497.0, 9007199254740993.0, -1e15, 9.2e18, 9223372036854775807.0,
        -9223372036854775808.0, 1e19, -1e19, 1e300, -1e300, f64::MAX, f64::MIN, f64::MIN_POSITIVE,
        5e-324, f64::INFINITY, f64::NEG_INFINITY, f64::NAN,
    ];
    for x in doubles {
        assert_eq!(truncate_f64_bits(x.to_bits()), x as i64, "double {}", x);
    }
}

#[test]
fn predicate_matching_integer() {
    let rec = dword(0, 100);
    assert_eq!(rec.matches_condition(&110i32.to_le_bytes(), FuzzyCondition::IncreasedBy(10)), Some(true));
    assert_eq!(rec.matches_condition(&111i32.to_le_bytes(), FuzzyCondition::IncreasedBy(10)), Some(false));
    let half = FuzzyCondition::DecreasedByPercent(0.5f32.to_bits());
    assert_eq!(rec.matches_condition(&50i32.to_le_bytes(), half), None);
    let threshold = scaled(rec.as_i64(), 1.0 - 0.5f32 as f64);
    assert_eq!(threshold, 50);
    assert!(rec.matches_condition_int(&dword(0, 50), half, threshold));
    assert!(!rec.matches_condition_int(&dword(0, 51), half, threshold));
}

#[test]
fn increased_by_percent_uses_the_threshold() {
    let rec = dword(0, 200);
    let cond = FuzzyCondition::IncreasedByPercent(0.25f32.to_bits());
    let threshold = scaled(200, 1.0 + 0.25f32 as f64);
    assert_eq!(threshold, 250);
    assert!(rec.matches_condition_int(&dword(0, 250), cond, threshold));
    assert!(rec.matches_condition_int(&dword(0, 400), cond, threshold));
    assert!(!rec.matches_condition_int(&dword(0, 249), cond, threshold));
}

#[test]
fn percent_conditions_on_zero_need_no_threshold() {
    let zero = dword(0, 0);
    let up = FuzzyCondition::IncreasedByPercent(0.1f32.to_bits());
    let down = FuzzyCondition::DecreasedByPercent(0.1f32.to_bits());
    assert_eq!(zero.matches_condition(&1i32.to_le_bytes(), up), Some(true));
    assert_eq!(zero.matches_condition(&0i32.to_le_bytes(), up), Some(false));
    assert_eq!(zero.matches_condition(&(-1i32).to_le_bytes(), down), Some(true));
    assert_eq!(zero.matches_condition(&1i32.to_le_bytes(), down), Some(false));
}

#[test]
fn simple_integer_conditions() {
    let rec = dword(0, 10);
    let same = 10i32.to_le_bytes();
    let more = 15i32.to_le_bytes();
    let less = 4i32.to_le_bytes();
    assert_eq!(rec.matches_condition(&less, FuzzyCondition::Initial), Some(true));
    assert_eq!(rec.matches_condition(&same, FuzzyCondition::Unchanged), Some(true));
    assert_eq!(rec.matches_condition(&more, FuzzyCondition::Unchanged), Some(false));
    assert_eq!(rec.matches_condition(&more, FuzzyCondition::Changed), Some(true));
    assert_eq!(rec.matches_condition(&same, FuzzyCondition::Changed), Some(false));
    assert_eq!(rec.matches_condition(&more, FuzzyCondition::Increased), Some(true));
    assert_eq!(rec.matches_condition(&same, FuzzyCondition::Increased), Some(false));
    assert_eq!(rec.matches_condition(&less, FuzzyCondition::Decreased), Some(true));
    assert_eq!(rec.matches_condition(&more, FuzzyCondition::Decreased), Some(false));
    assert_eq!(rec.matches_condition(&less, FuzzyCondition::DecreasedBy(6)), Some(true));
    assert_eq!(rec.matches_condition(&less, FuzzyCondition::DecreasedBy(5)), Some(false));
    assert_eq!(rec.matches_condition(&more, FuzzyCondition::IncreasedByRange(5, 7)), Some(true));
    assert_eq!(rec.matches_condition(&more, FuzzyCondition::IncreasedByRange(6, 7)), Some(false));
    assert_eq!(rec.matches_condition(&less, FuzzyCondition::DecreasedByRange(1, 6)), Some(true));
    assert_eq!(rec.matches_condition(&less, FuzzyCondition::DecreasedByRange(7, 9)), Some(false));
}

#[test]
fn integer_difference_wraps_around() {
    let old = FuzzySearchResultItem::from_bytes(0, &i64::MIN.to_le_bytes(), ValueType::Qword);
    let new = i64::MAX.to_le_bytes();
    assert_eq!(old.matches_condition(&new, FuzzyCondition::IncreasedBy(-1)), Some(true));
    assert_eq!(old.matches_condition(&new, FuzzyCondition::DecreasedBy(1)), Some(true));
    assert_eq!(old.matches_condition(&new, FuzzyCondition::DecreasedBy(i64::MIN)), Some(false));
    let zero = FuzzySearchResultItem::from_bytes(0, &0i64.to_le_bytes(), ValueType::Qword);
    let min = i64::MIN.to_le_bytes();
    assert_eq!(zero.matches_condition(&min, FuzzyCondition::DecreasedBy(i64::MIN)), Some(true));
    assert_eq!(
        zero.matches_condition(&min, FuzzyCondition::DecreasedByRange(i64::MIN, i64::MIN)),
        Some(true)
    );
}

#[test]
fn float_records_leave_the_comparison_open() {
    let rec = FuzzySearchResultItem::from_bytes(0, &1.0f32.to_le_bytes(), ValueType::Float);
    let fresh = 1.1f32.to_le_bytes();
    assert_eq!(rec.matches_condition(&fresh, FuzzyCondition::Initial), Some(true));
    assert_eq!(rec.matches_condition(&fresh, FuzzyCondition::Increased), None);
    assert_eq!(rec.matches_condition(&fresh, FuzzyCondition::Unchanged), None);
    let other = FuzzySearchResultItem::from_bytes(0, &fresh, ValueType::Float);
    assert_eq!(rec.matches_condition_float(&other, FuzzyCondition::Initial), Some(true));
    assert_eq!(rec.matches_condition_float(&other, FuzzyCondition::Changed), None);
}

#[test]
fn with_new_value_keeps_address_and_type() {
    let rec = FuzzySearchResultItem::from_bytes(0x77, &[1, 1, 1, 1], ValueType::Dword);
    let next = rec.with_new_value(&[5, 6]);
    assert_eq!(next.address, 0x77);
    assert_eq!(next.value_type, ValueType::Dword);
    assert_eq!(next.value, [5, 6, 0, 0, 0, 0, 0, 0]);
}

#[test]
fn packed_record_layout() {
    let rec = FuzzySearchResultItem::new(0x0102030405060708, [10, 11, 12, 13, 14, 15, 16, 17], ValueType::Double);
    let bytes = encode(&rec);
    assert_eq!(bytes, vec![8, 7, 6, 5, 4, 3, 2, 1, 10, 11, 12, 13, 14, 15, 16, 17, 5]);
    let back = decode(&bytes).unwrap();
    assert_eq!(back.address, rec.address);
    assert_eq!(back.value, rec.value);
    assert_eq!(back.value_type, rec.value_type);
}

#[test]
fn decode_wants_seventeen_bytes() {
    assert!(decode(&[0u8; 16]).is_none());
    assert!(decode(&[0u8; 18]).is_none());
    assert!(decode(&[]).is_none());
    let odd = decode(&[0xffu8; 17]).unwrap();
    assert_eq!(odd.address, u64::MAX);
    assert_eq!(odd.value_type, ValueType::Dword);
}
