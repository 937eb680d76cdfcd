use registry::map::InsertMap;

#[test]
fn empty_map_holds_nothing() {
    let m = InsertMap::new();
    assert_eq!(m.len(), 0);
    assert_eq!(m.get(0), None);
    assert_eq!(m.get(42), None);
    assert_eq!(m.get(u64::MAX), None);
}

#[test]
fn first_insert_finds_nothing_in_its_way() {
    let mut m = InsertMap::with_capacity(4);
    assert_eq!(m.insert(42, 7), None);
    assert_eq!(m.len(), 1);
    assert_eq!(m.get(42), Some(7));
    assert_eq!(m.get(41), None);
    assert_eq!(m.get(43), None);
}

#[test]
fn distinct_keys_give_their_values() {
    let keys: [u64; 9] = [50, 20, 80, 10, 30, 70, 90, 0, u64::MAX];
    let mut m = InsertMap::new();
    let mut i: usize = 0;
    while i < keys.len() {
        assert_eq!(m.insert(keys[i], (i as u16) + 100), None);
        i += 1;
    }
    assert_eq!(m.len(), 9);
    i = 0;
    while i < keys.len() {
        assert_eq!(m.get(keys[i]), Some((i as u16) + 100));
        i += 1;
    }
    assert_eq!(m.get(1), None);
    assert_eq!(m.get(25), None);
    assert_eq!(m.get(60), None);
    assert_eq!(m.get(85), None);
    assert_eq!(m.get(u64::MAX - 1), None);
}

#[test]
fn present_key_keeps_its_value() {
    let mut m = InsertMap::new();
    assert_eq!(m.insert(5, 1), None);
    assert_eq!(m.insert(9, 2), None);
    assert_eq!(m.insert(3, 3), None);
    assert_eq!(m.insert(9, 77), Some(2));
    assert_eq!(m.insert(5, 78), Some(1));
    assert_eq!(m.insert(3, 79), Some(3));
    assert_eq!(m.len(), 3);
    assert_eq!(m.get(9), Some(2));
    assert_eq!(m.get(5), Some(1));
    assert_eq!(m.get(3), Some(3));
}

#[test]
fn ascending_keys_form_a_chain() {
    let mut m = InsertMap::new();
    let mut k: u64 = 0;
    while k < 500 {
        assert_eq!(m.insert(k * 3, k as u16), None);
        k += 1;
    }
    k = 0;
    while k < 500 {
        assert_eq!(m.get(k * 3), Some(k as u16));
        assert_eq!(m.get(k * 3 + 1), None);
        k += 1;
    }
    assert_eq!(m.len(), 500);
}

#[test]
fn descending_keys_form_a_chain() {
    let mut m = InsertMap::new();
    let mut k: u64 = 500;
    while k > 0 {
        assert_eq!(m.insert(k * 2, k as u16), None);
        k -= 1;
    }
    k = 500;
    while k > 0 {
        assert_eq!(m.get(k * 2), Some(k as u16));
        assert_eq!(m.get(k * 2 - 1), None);
        k -= 1;
    }
}
