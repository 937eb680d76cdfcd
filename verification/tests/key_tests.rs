use registry::hash::{hash_ident, HASH_SEED};
use registry::key::WireValue;
use registry::GlobalKey;

#[test]
fn seed_is_fixed() {
    assert_eq!(HASH_SEED, 123456789123456789);
}

#[test]
fn identifier_hash_has_known_values() {
    assert_eq!(hash_ident("item:a"), 2421070716668582730);
    assert_eq!(hash_ident("item:f"), 5120795294420496498);
    assert_eq!(hash_ident("a"), 1058146618061071063);
    assert_eq!(hash_ident(""), 124487633087976470);
    assert_eq!(
        hash_ident("a longer identifier that runs past thirty-two bytes: item:z"),
        7878507278268035559
    );
}

#[test]
fn global_key_is_hash_of_identifier() {
    let key = GlobalKey::<i32>::new("item:f");
    assert_eq!(key.serialize(), 5120795294420496498);
    assert_eq!(key.hash_value(), 5120795294420496498);
    assert!(key == GlobalKey::<i32>::new("item:f"));
    assert_eq!(GlobalKey::<i32>::from_hash(17).serialize(), 17);
}

#[test]
fn stored_key_reads_back() {
    let key = GlobalKey::<i32>::new("item:f");
    let raw = key.serialize();
    assert_eq!(raw, 5120795294420496498);
    let back = GlobalKey::<i32>::deserialize(&WireValue::U64(raw));
    assert!(back == key);
    let named = GlobalKey::<i32>::deserialize(&WireValue::Text(String::from("item:f")));
    assert!(named == key);
    assert_eq!(named.serialize(), raw);
}

#[test]
fn narrow_integers_are_widened() {
    assert_eq!(GlobalKey::<i32>::deserialize(&WireValue::U8(200)).serialize(), 200);
    assert_eq!(GlobalKey::<i32>::deserialize(&WireValue::U16(60000)).serialize(), 60000);
    assert_eq!(GlobalKey::<i32>::deserialize(&WireValue::U32(4000000000)).serialize(), 4000000000);
    assert_eq!(GlobalKey::<i32>::deserialize(&WireValue::U64(u64::MAX)).serialize(), u64::MAX);
    assert_eq!(GlobalKey::<i32>::deserialize(&WireValue::U8(0)).serialize(), 0);
}

#[test]
fn text_of_digits_is_hashed_not_parsed() {
    let key = GlobalKey::<i32>::deserialize(&WireValue::Text(String::from("17")));
    assert_eq!(key.serialize(), hash_ident("17"));
    assert!(key != GlobalKey::<i32>::from_hash(17));
}
