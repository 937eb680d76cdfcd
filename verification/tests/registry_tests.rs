use registry::{Entry, GlobalKey, LocalKey, Registry, RegistryError, MAX_ENTRIES};
use std::collections::HashSet;

fn seven() -> Registry<i32> {
    let mut reg = Registry::<i32>::new();
    assert!(reg.add("item:a", 0).is_ok());
    assert!(reg.add("item:b", 1).is_ok());
    assert!(reg.add("item:c", 2).is_ok());
    assert!(reg.add("item:d", 3).is_ok());
    assert!(reg.add("item:e", 4).is_ok());
    assert!(reg.add("item:f", 5).is_ok());
    assert!(reg.add("item:g", 6).is_ok());
    reg
}

#[test]
#[should_panic]
fn duplication() {
    let mut reg = Registry::<i32>::new();
    if reg.add("a", 0).is_err() {
        panic!("the first entry was refused");
    }
    if reg.add("a", 1).is_err() {
        panic!("the second entry was refused");
    }
}

#[test]
fn add_similar() {
    let mut reg = Registry::<i32>::new();
    assert!(reg.add("item:a", 0).is_ok());
    assert!(reg.add("item:b", 1).is_ok());
    assert!(reg.add("item:c", 2).is_ok());
    assert!(reg.add("item:d", 3).is_ok());
    assert!(reg.add("item:e", 4).is_ok());
    assert!(reg.add("item:f", 5).is_ok());
    assert!(reg.add("item:g", 6).is_ok());
}

#[test]
fn search_global() {
    let mut reg = Registry::<i32>::new();
    assert!(reg.add("item:a", 0).is_ok());
    assert!(reg.add("item:b", 1).is_ok());
    assert!(reg.add("item:c", 2).is_ok());
    assert!(reg.add("item:d", 3).is_ok());
    assert!(reg.add("item:e", 4).is_ok());
    assert!(reg.add("item:f", 5).is_ok());
    assert!(reg.add("item:g", 6).is_ok());

    assert!(reg
        .search(GlobalKey::new("item:f"))
        .is_some_and(|en| en.ident() == "item:f"));
}

#[test]
fn search_local() {
    let mut reg = Registry::<i32>::new();
    assert!(reg.add("item:a", 0).is_ok());
    assert!(reg.add("item:b", 1).is_ok());
    assert!(reg.add("item:c", 2).is_ok());
    assert!(reg.add("item:d", 3).is_ok());
    assert!(reg.add("item:e", 4).is_ok());
    assert!(reg.add("item:f", 5).is_ok());
    assert!(reg.add("item:g", 6).is_ok());

    let global = GlobalKey::new("item:f");
    let local = reg.search(global).unwrap().local_key();

    assert!(reg[local].ident() == "item:f")
}

#[test]
fn search_finds_payload_and_local_key_leads_back() {
    let reg = seven();
    let found = reg.search(GlobalKey::new("item:f")).unwrap();
    assert_eq!(found.ident(), "item:f");
    assert_eq!(found.item, 5);
    assert_eq!(**found, 5);
    let local = found.local_key();
    assert_eq!(local.index(), 5);
    let again = &reg[local];
    assert!(std::ptr::eq(found, again));
}

#[test]
fn every_inserted_identifier_is_found() {
    let reg = seven();
    let idents = ["item:a", "item:b", "item:c", "item:d", "item:e", "item:f", "item:g"];
    let mut i: usize = 0;
    while i < idents.len() {
        let e = reg.search(GlobalKey::new(idents[i])).unwrap();
        assert_eq!(e.ident(), idents[i]);
        assert_eq!(e.item, i as i32);
        assert_eq!(e.local_key().index() as usize, i);
        assert!(e.global_key() == GlobalKey::new(idents[i]));
        i += 1;
    }
    assert!(reg.search(GlobalKey::new("item:h")).is_none());
    assert!(reg.search(GlobalKey::new("")).is_none());
}

#[test]
fn add_returns_entry_at_next_position() {
    let mut reg = Registry::<String>::with_capacity(2);
    let names = ["zero", "one", "two", "three"];
    let mut i: usize = 0;
    while i < names.len() {
        let (index, hash) = {
            let e = reg.add(names[i], names[i].to_uppercase()).ok().unwrap();
            assert_eq!(e.ident(), names[i]);
            assert_eq!(e.item, names[i].to_uppercase());
            (e.local_key().index(), e.global_key().serialize())
        };
        assert_eq!(index as usize, i);
        assert_eq!(hash, GlobalKey::<String>::new(names[i]).serialize());
        assert_eq!(reg.len(), i + 1);
        i += 1;
    }
    let key = reg.search(GlobalKey::new("two")).unwrap().local_key();
    assert_eq!(reg[key].ident(), "two");
}

#[test]
fn duplicate_is_refused_and_changes_nothing() {
    let mut reg = seven();
    match reg.add("item:c", 99) {
        Err(RegistryError::Uniqueness { ident, existing }) => {
            assert_eq!(ident, "item:c");
            assert_eq!(existing, "item:c");
        }
        _ => panic!("a duplicate identifier was not refused"),
    }
    assert_eq!(reg.len(), 7);
    let idents = ["item:a", "item:b", "item:c", "item:d", "item:e", "item:f", "item:g"];
    let mut i: usize = 0;
    for e in reg.iter() {
        assert_eq!(e.ident(), idents[i]);
        assert_eq!(e.item, i as i32);
        assert_eq!(e.local_key().index() as usize, i);
        i += 1;
    }
    assert_eq!(i, 7);
    let mut seen: usize = 0;
    for e in &reg {
        assert_eq!(e.local_key().index() as usize, seen);
        seen += 1;
    }
    assert_eq!(seen, 7);
    for e in &mut reg {
        e.item += 0;
    }
    assert!(reg.add("item:h", 7).is_ok());
    assert_eq!(reg.len(), 8);
}

#[test]
fn full_registry_refuses_another_entry() {
    let mut reg = Registry::<u32>::with_capacity(MAX_ENTRIES);
    let mut i: u32 = 0;
    while (i as usize) < MAX_ENTRIES {
        let name = format!("entry:{}", i);
        assert!(reg.add(&name, i).is_ok());
        i += 1;
    }
    assert_eq!(reg.len(), 65535);
    match reg.add("entry:65535", 65535) {
        Err(RegistryError::CapacityExceeded { ident }) => assert_eq!(ident, "entry:65535"),
        _ => panic!("a full registry took another entry"),
    }
    assert_eq!(reg.len(), 65535);
    let last = reg.search(GlobalKey::new("entry:65534")).unwrap();
    assert_eq!(last.local_key().index(), 65534);
    assert_eq!(last.item, 65534);
    match reg.add("entry:0", 0) {
        Err(RegistryError::CapacityExceeded { ident }) => assert_eq!(ident, "entry:0"),
        _ => panic!("a full registry reported something other than its capacity"),
    }
}

#[test]
fn empty_registry_finds_nothing() {
    let reg = Registry::<i32>::new();
    assert_eq!(reg.len(), 0);
    assert!(reg.search(GlobalKey::new("item:a")).is_none());
    assert!(reg.search(GlobalKey::from_hash(0)).is_none());
    assert_eq!(reg.iter().count(), 0);
}

#[test]
fn reserve_keeps_contents() {
    let mut reg = seven();
    reg.reserve(1000);
    assert_eq!(reg.len(), 7);
    assert_eq!(reg.search(GlobalKey::new("item:b")).unwrap().item, 1);
}

#[test]
fn items_change_in_place() {
    let mut reg = seven();
    {
        let e = reg.search_mut(GlobalKey::new("item:d")).unwrap();
        e.item = 30;
    }
    assert_eq!(reg.search(GlobalKey::new("item:d")).unwrap().item, 30);
    assert!(reg.search_mut(GlobalKey::new("item:z")).is_none());

    let key: LocalKey<i32> = reg.search(GlobalKey::new("item:e")).unwrap().local_key();
    *reg[key] += 100;
    assert_eq!(reg[key].item, 104);
    reg[key].set_item(-1);
    assert_eq!(reg[key].item, -1);
    assert_eq!(reg[key].ident(), "item:e");
    reg[key].item = -2;
    assert_eq!(*reg[key], -2);
    reg[key].set_item(-1);

    for e in reg.iter_mut() {
        e.item = e.item * 2;
    }
    let doubled: Vec<i32> = reg.iter().map(|e: &Entry<i32>| e.item).collect();
    assert_eq!(doubled, vec![0, 2, 4, 60, -2, 10, 12]);
    let idents: Vec<&str> = reg.iter().map(|e: &Entry<i32>| e.ident()).collect();
    assert_eq!(idents, vec!["item:a", "item:b", "item:c", "item:d", "item:e", "item:f", "item:g"]);
}

#[test]
fn keys_compare_by_value() {
    let reg = seven();
    let a = reg.search(GlobalKey::new("item:a")).unwrap().local_key();
    let b = reg.search(GlobalKey::new("item:b")).unwrap().local_key();
    let a2 = reg[a].local_key();
    assert!(a == a2);
    assert!(a != b);
    assert!(a.clone() == a);

    let g = GlobalKey::<i32>::new("item:a");
    assert!(g == reg[a].global_key());
    assert!(g != GlobalKey::<i32>::new("item:b"));
    assert!(g.clone() == g);

    let mut set: HashSet<GlobalKey<i32>> = HashSet::new();
    assert!(set.insert(g));
    assert!(!set.insert(GlobalKey::new("item:a")));
    assert!(set.insert(GlobalKey::new("item:b")));
    assert_eq!(set.len(), 2);
}

#[test]
fn given_hashes_are_kept() {
    let mut reg = Registry::<i32>::new();
    assert_eq!(reg.add_with_hash("a", 5, 0).unwrap().global_key().serialize(), 5);
    assert_eq!(reg.add_with_hash("b", 7, 1).unwrap().local_key().index(), 1);
    assert_eq!(reg.add_with_hash("c", 3, 2).unwrap().ident(), "c");
    match reg.add_with_hash("d", 5, 3) {
        Err(RegistryError::Uniqueness { ident, existing }) => {
            assert_eq!(ident, "d");
            assert_eq!(existing, "a");
        }
        _ => panic!("a hash that was taken was not refused"),
    }
    match reg.add_with_hash("e", 3, 4) {
        Err(RegistryError::Uniqueness { ident, existing }) => {
            assert_eq!(ident, "e");
            assert_eq!(existing, "c");
        }
        _ => panic!("a hash that was taken was not refused"),
    }
    assert_eq!(reg.len(), 3);
    let found = reg.search(GlobalKey::from_hash(7)).unwrap();
    assert_eq!(found.ident(), "b");
    assert_eq!(found.item, 1);
    assert!(reg.search(GlobalKey::from_hash(9)).is_none());
}

#[test]
fn add_is_add_with_the_identifier_hash() {
    let mut by_name = Registry::<i32>::new();
    let mut by_hash = Registry::<i32>::new();
    assert!(by_name.add("item:f", 5).is_ok());
    assert!(by_hash.add_with_hash("item:f", 5120795294420496498, 5).is_ok());
    let a = by_name.search(GlobalKey::new("item:f")).unwrap();
    let b = by_hash.search(GlobalKey::new("item:f")).unwrap();
    assert_eq!(a.ident(), b.ident());
    assert_eq!(a.global_key().serialize(), 5120795294420496498);
    assert!(a.global_key() == b.global_key());
    assert!(by_hash.add("item:f", 6).is_err());
}
