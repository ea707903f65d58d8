use mc_http::gen_vec::U16GenVec;

#[test]
fn insert_then_get_returns_item() {
    let mut v: U16GenVec<&str> = U16GenVec::new();
    let a = v.insert("a");
    let b = v.insert("b");
    assert_eq!(v.get(&a), Some(&"a"));
    assert_eq!(v.get(&b), Some(&"b"));
}

#[test]
fn remove_returns_item_once() {
    let mut v: U16GenVec<String> = U16GenVec::new();
    let a = v.insert("a".to_string());
    assert_eq!(v.remove(&a), Some("a".to_string()));
    assert_eq!(v.remove(&a), None);
    assert_eq!(v.get(&a), None);
}

#[test]
fn stale_index_does_not_resolve_after_slot_reuse() {
    let mut v: U16GenVec<u32> = U16GenVec::new();
    let a = v.insert(1);
    let b = v.insert(2);
    assert_eq!(v.remove(&a), Some(1));
    // the freed slot is reused, under a new generation
    let c = v.insert(3);
    assert_eq!(v.get(&a), None);
    assert_eq!(v.remove(&a), None);
    assert_eq!(v.get(&c), Some(&3));
    assert_eq!(v.get(&b), Some(&2));
}

#[test]
fn freed_slots_are_reused_last_freed_first() {
    let mut v: U16GenVec<u32> = U16GenVec::new();
    let a = v.insert(10);
    let b = v.insert(20);
    let _c = v.insert(30);
    assert_eq!(v.remove(&a), Some(10));
    assert_eq!(v.remove(&b), Some(20));
    let d = v.insert(40);
    let e = v.insert(50);
    // d took b's slot and e took a's: the old indices stay dead, the new ones live
    assert_eq!(v.get(&a), None);
    assert_eq!(v.get(&b), None);
    assert_eq!(v.get(&d), Some(&40));
    assert_eq!(v.get(&e), Some(&50));
    assert_eq!(v.remove(&d), Some(40));
    assert_eq!(v.get(&e), Some(&50));
}

#[test]
fn removing_other_entries_keeps_live_ones() {
    let mut v: U16GenVec<u8> = U16GenVec::new();
    let idxs: Vec<_> = (0..10u8).map(|i| v.insert(i)).collect();
    for i in (0..10).step_by(2) {
        assert_eq!(v.remove(&idxs[i]), Some(i as u8));
    }
    for i in 0..10 {
        if i % 2 == 0 {
            assert_eq!(v.get(&idxs[i]), None);
        } else {
            assert_eq!(v.get(&idxs[i]), Some(&(i as u8)));
        }
    }
}

#[test]
fn can_insert_until_every_u16_index_is_taken() {
    let mut v: U16GenVec<()> = U16GenVec::new();
    for _ in 0..65536u32 {
        assert!(v.can_insert());
        v.insert(());
    }
    assert!(!v.can_insert());
}

#[test]
fn freeing_a_slot_in_a_full_vector_allows_an_insert() {
    let mut v: U16GenVec<u32> = U16GenVec::new();
    let mut last = None;
    for i in 0..65536u32 {
        last = Some(v.insert(i));
    }
    let last = last.unwrap();
    assert!(!v.can_insert());
    assert_eq!(v.remove(&last), Some(65535));
    assert!(v.can_insert());
    let again = v.insert(7);
    assert_eq!(v.get(&again), Some(&7));
    assert_eq!(v.get(&last), None);
}

#[test]
fn handles_over_a_run_are_distinct_and_removed_ones_stay_dead() {
    let mut v: U16GenVec<u32> = U16GenVec::new();
    let mut removed = Vec::new();
    let mut live = Vec::new();
    for round in 0..50u32 {
        let h = v.insert(round);
        live.push((h, round));
        if round % 3 == 0 {
            let (h, x) = live.remove(0);
            assert_eq!(v.remove(&h), Some(x));
            removed.push(h);
        }
        for h in &removed {
            assert_eq!(v.get(h), None);
        }
        for (h, x) in &live {
            assert_eq!(v.get(h), Some(x));
        }
    }
}
