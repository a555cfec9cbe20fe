use fuzzy_store::exact::{ExactSearchResultItem, ExactSearchResultManager};
use fuzzy_store::item::FuzzySearchResultItem;
use fuzzy_store::manager::{SearchResultItem, SearchResultManager, SearchResultMode};
use fuzzy_store::store::{SpillRequest, SPILL_STEP};
use fuzzy_store::types::{StoreError, ValueType};
use memmap2::MmapMut;
use std::cmp::Ordering;

fn region(slots: usize) -> MmapMut {
    MmapMut::map_anon(slots * 17).unwrap()
}

fn fuzzy(n: u64) -> FuzzySearchResultItem {
    FuzzySearchResultItem::from_bytes(0x100 + n, &(n as u32).to_le_bytes(), ValueType::Dword)
}

fn fuzzy_manager(capacity: usize, slots: usize) -> SearchResultManager {
    let mut m = SearchResultManager::new(capacity * 17);
    assert!(m.set_mode(SearchResultMode::Fuzzy).unwrap().is_none());
    assert!(m.attach_spill(region(slots)).is_ok());
    m
}

fn fuzzy_addresses(m: &SearchResultManager) -> Vec<u64> {
    m.get_all_fuzzy_results().unwrap().iter().map(|r| r.address).collect()
}

#[test]
fn item_constructors() {
    match SearchResultItem::new_exact(5, ValueType::Word) {
        SearchResultItem::Exact(e) => {
            assert_eq!(e, ExactSearchResultItem { address: 5, value_type: ValueType::Word });
        }
        SearchResultItem::Fuzzy(_) => panic!("exact expected"),
    }
    match SearchResultItem::new_fuzzy(6, [1, 2, 3, 4, 5, 6, 7, 8], ValueType::Qword) {
        SearchResultItem::Fuzzy(f) => {
            assert_eq!(f.address, 6);
            assert_eq!(f.value, [1, 2, 3, 4, 5, 6, 7, 8]);
            assert_eq!(f.value_type, ValueType::Qword);
        }
        SearchResultItem::Exact(_) => panic!("fuzzy expected"),
    }
    match SearchResultItem::new_fuzzy_from_bytes(7, &[9], ValueType::Byte) {
        SearchResultItem::Fuzzy(f) => {
            assert_eq!(f.address, 7);
            assert_eq!(f.value, [9, 0, 0, 0, 0, 0, 0, 0]);
            assert_eq!(f.value_type, ValueType::Byte);
        }
        SearchResultItem::Exact(_) => panic!("fuzzy expected"),
    }
    match SearchResultItem::from((8u64, ValueType::Float)) {
        SearchResultItem::Exact(e) => {
            assert_eq!(e, ExactSearchResultItem::from((8u64, ValueType::Float)));
            assert_eq!(e, ExactSearchResultItem::new(8, ValueType::Float));
        }
        SearchResultItem::Fuzzy(_) => panic!("exact expected"),
    }
}

#[test]
fn fuzzy_hits_compare_by_address() {
    let a = FuzzySearchResultItem::from_bytes(10, &[1], ValueType::Byte);
    let b = FuzzySearchResultItem::from_bytes(10, &[2, 2], ValueType::Word);
    let c = FuzzySearchResultItem::from_bytes(11, &[1], ValueType::Byte);
    assert!(a == b);
    assert!(a != c);
    assert!(a < c);
    assert!(c > b);
    assert_eq!(a.partial_cmp(&b), Some(Ordering::Equal));
    assert_eq!(a.partial_cmp(&c), Some(Ordering::Less));
    assert_eq!(c.partial_cmp(&a), Some(Ordering::Greater));
}

#[test]
fn a_new_manager_is_in_exact_mode() {
    let m = SearchResultManager::new(1024);
    assert_eq!(m.get_mode(), SearchResultMode::Exact);
    assert_eq!(m.total_count(), 0);
    assert!(m.get_all_exact_results().unwrap().is_empty());
    assert_eq!(m.get_all_fuzzy_results().unwrap_err(), StoreError::ModeMismatch);
}

#[test]
fn hits_of_the_other_kind_are_refused() {
    let mut m = SearchResultManager::new(4 * 17);
    assert_eq!(m.add_result(SearchResultItem::Fuzzy(fuzzy(1))), Err(StoreError::ModeMismatch));
    assert_eq!(m.add_fuzzy_result(fuzzy(1)), Err(StoreError::ModeMismatch));
    assert_eq!(m.add_fuzzy_results_batch(vec![fuzzy(1)]), Err(StoreError::ModeMismatch));
    assert_eq!(m.replace_all_fuzzy_results(vec![fuzzy(1)]), Err(StoreError::ModeMismatch));
    assert_eq!(m.total_count(), 0);
    m.add_result(SearchResultItem::new_exact(1, ValueType::Dword)).unwrap();
    m.set_mode(SearchResultMode::Fuzzy).unwrap();
    assert_eq!(
        m.add_result(SearchResultItem::new_exact(1, ValueType::Dword)),
        Err(StoreError::ModeMismatch)
    );
    assert_eq!(m.get_all_exact_results().unwrap_err(), StoreError::ModeMismatch);
    m.add_fuzzy_result(fuzzy(2)).unwrap();
    assert_eq!(fuzzy_addresses(&m), vec![0x102]);
}

#[test]
fn exact_hits_come_back_in_order() {
    let mut m = SearchResultManager::new(2 * 17);
    assert!(m.attach_spill(region(3)).is_ok());
    for n in 0..5u64 {
        m.add_result(SearchResultItem::from((n, ValueType::Word))).unwrap();
    }
    assert_eq!(m.total_count(), 5);
    let all = m.get_all_exact_results().unwrap();
    assert_eq!(all.len(), 5);
    for (n, e) in all.iter().enumerate() {
        assert_eq!(*e, ExactSearchResultItem { address: n as u64, value_type: ValueType::Word });
    }
    let some = m.get_results(3, 10).unwrap();
    assert_eq!(some.len(), 2);
    match some[1] {
        SearchResultItem::Exact(e) => assert_eq!(e.address, 4),
        SearchResultItem::Fuzzy(_) => panic!("exact expected"),
    }
    assert_eq!(
        m.add_result(SearchResultItem::from((9, ValueType::Word))),
        Err(StoreError::IoFailure)
    );
}

#[test]
fn switching_mode_wipes_the_store_left_behind() {
    let mut m = fuzzy_manager(1, 4);
    for n in 0..3 {
        m.add_fuzzy_result(fuzzy(n)).unwrap();
    }
    assert_eq!(m.total_count(), 3);
    assert!(m.set_mode(SearchResultMode::Fuzzy).unwrap().is_none());
    assert_eq!(m.total_count(), 3);
    let map = m.set_mode(SearchResultMode::Exact).unwrap();
    assert_eq!(map.unwrap().len(), 4 * 17);
    assert_eq!(m.get_mode(), SearchResultMode::Exact);
    assert_eq!(m.total_count(), 0);
    assert!(m.set_mode(SearchResultMode::Fuzzy).unwrap().is_none());
    assert_eq!(m.total_count(), 0);
    assert_eq!(m.spill_request(), SpillRequest::Ready);
    m.add_fuzzy_result(fuzzy(7)).unwrap();
    assert_eq!(m.spill_request(), SpillRequest::Create { len: SPILL_STEP });
    assert_eq!(m.add_fuzzy_result(fuzzy(8)), Err(StoreError::IoFailure));
}

#[test]
fn operations_go_to_the_active_store() {
    let mut m = fuzzy_manager(2, 8);
    let batch: Vec<FuzzySearchResultItem> = (0..8).map(fuzzy).collect();
    m.add_fuzzy_results_batch(batch).unwrap();
    assert_eq!(m.total_count(), 8);
    m.remove_result(0).unwrap();
    assert_eq!(fuzzy_addresses(&m), vec![0x101, 0x102, 0x103, 0x104, 0x105, 0x106, 0x107]);
    assert_eq!(m.remove_result(7), Err(StoreError::OutOfRange { index: 7, count: 7 }));
    m.remove_results_batch(vec![6, 0, 6, 99]).unwrap();
    assert_eq!(fuzzy_addresses(&m), vec![0x102, 0x103, 0x104, 0x105, 0x106]);
    m.keep_only_results(vec![4, 1]).unwrap();
    assert_eq!(fuzzy_addresses(&m), vec![0x103, 0x106]);
    m.replace_all_fuzzy_results(vec![fuzzy(20), fuzzy(21), fuzzy(22)]).unwrap();
    assert_eq!(fuzzy_addresses(&m), vec![0x114, 0x115, 0x116]);
    let got = m.get_results(1, 1).unwrap();
    assert_eq!(got.len(), 1);
    match got[0] {
        SearchResultItem::Fuzzy(f) => {
            assert_eq!(f.address, 0x115);
            assert_eq!(f.value, [21, 0, 0, 0, 0, 0, 0, 0]);
        }
        SearchResultItem::Exact(_) => panic!("fuzzy expected"),
    }
    m.clear().unwrap();
    assert_eq!(m.total_count(), 0);
}

#[test]
fn a_mixed_batch_stops_at_the_first_stranger() {
    let mut m = fuzzy_manager(2, 8);
    let batch = vec![
        SearchResultItem::Fuzzy(fuzzy(1)),
        SearchResultItem::Fuzzy(fuzzy(2)),
        SearchResultItem::new_exact(3, ValueType::Dword),
        SearchResultItem::Fuzzy(fuzzy(4)),
    ];
    assert_eq!(m.add_results_batch(batch), Err(StoreError::ModeMismatch));
    assert_eq!(fuzzy_addresses(&m), vec![0x101, 0x102]);
    let good = vec![SearchResultItem::Fuzzy(fuzzy(5)), SearchResultItem::Fuzzy(fuzzy(6))];
    m.add_results_batch(good).unwrap();
    assert_eq!(fuzzy_addresses(&m), vec![0x101, 0x102, 0x105, 0x106]);
}

#[test]
fn a_batch_too_long_for_the_store_is_cut() {
    let mut m = fuzzy_manager(1, 2);
    let batch: Vec<SearchResultItem> = (0..5).map(|n| SearchResultItem::Fuzzy(fuzzy(n))).collect();
    assert_eq!(m.add_results_batch(batch), Err(StoreError::IoFailure));
    assert_eq!(fuzzy_addresses(&m), vec![0x100, 0x101, 0x102]);
    let more: Vec<FuzzySearchResultItem> = (5..7).map(fuzzy).collect();
    assert_eq!(m.add_fuzzy_results_batch(more), Err(StoreError::IoFailure));
    assert_eq!(m.total_count(), 3);
}

#[test]
fn the_exact_store_keeps_address_and_type() {
    let mut store = ExactSearchResultManager::new(17);
    assert!(store.records.attach_spill(region(2)).is_ok());
    store.add_result(ExactSearchResultItem::new(1, ValueType::Byte)).unwrap();
    store.add_result(ExactSearchResultItem::new(2, ValueType::Double)).unwrap();
    store.add_result(ExactSearchResultItem::new(3, ValueType::Xor)).unwrap();
    assert_eq!(store.add_result(ExactSearchResultItem::new(4, ValueType::Xor)), Err(StoreError::IoFailure));
    assert_eq!(
        store.get_all_results().unwrap(),
        vec![
            ExactSearchResultItem { address: 1, value_type: ValueType::Byte },
            ExactSearchResultItem { address: 2, value_type: ValueType::Double },
            ExactSearchResultItem { address: 3, value_type: ValueType::Xor },
        ]
    );
    assert_eq!(
        store.get_results(2, 5).unwrap(),
        vec![ExactSearchResultItem { address: 3, value_type: ValueType::Xor }]
    );
    assert!(store.get_results(3, 5).unwrap().is_empty());
    let raw = store.records.get_results(0, 1).unwrap();
    assert_eq!(raw[0].value, [0u8; 8]);
    assert_eq!(ExactSearchResultItem::from_record(&raw[0]), ExactSearchResultItem::new(1, ValueType::Byte));
    assert_eq!(ExactSearchResultItem::new(5, ValueType::Word).to_record().address, 5);
}
