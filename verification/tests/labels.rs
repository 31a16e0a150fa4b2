use seer::db::LabelDatabase;
use seer::heuristics::{record_airdrop_farming, FlowThrough};

#[test]
fn insert_then_get() {
    let mut db = LabelDatabase::new();
    db.insert("0xabc", "sybil");
    db.insert("0xdef", "clean");
    assert_eq!(db.get("0xabc"), Some("sybil".to_string()));
    assert_eq!(db.get("0xdef"), Some("clean".to_string()));
    assert_eq!(db.get("0xab"), None);
    assert_eq!(db.get("0xabcd"), None);
}

#[test]
fn insert_replaces_value() {
    let mut db = LabelDatabase::new();
    db.insert("key", "first");
    db.insert("key", "second");
    assert_eq!(db.get("key"), Some("second".to_string()));
}

#[test]
fn empty_key_is_never_found() {
    let mut db = LabelDatabase::new();
    db.insert("a", "x");
    assert_eq!(db.get(""), None);
}

#[test]
fn verify_always_passes() {
    let db = LabelDatabase::new();
    assert!(db.verify());
}

#[test]
fn serialize_layout() {
    let mut db = LabelDatabase::new();
    db.insert("ab", "é");
    let bytes = db.serialize();
    assert_eq!(
        bytes,
        vec![0, 0, 0, 0, 0, 0, 0, 2, b'a', b'b', 0, 0, 0, 0, 0, 0, 0, 2, 0xc3, 0xa9]
    );
}

#[test]
fn serialize_then_deserialize_round_trip() {
    let mut db = LabelDatabase::new();
    db.insert("alpha", "1");
    db.insert("alp", "2");
    db.insert("beta", "three");
    let bytes = db.serialize();
    let back = LabelDatabase::deserialize(&bytes).expect("valid bytes");
    assert_eq!(back.get("alpha"), Some("1".to_string()));
    assert_eq!(back.get("alp"), Some("2".to_string()));
    assert_eq!(back.get("beta"), Some("three".to_string()));
    assert_eq!(back.get("al"), None);
    assert_eq!(back.serialize(), bytes);
}

#[test]
fn deserialize_empty_bytes_gives_empty_database() {
    let db = LabelDatabase::deserialize(&[]).expect("empty list");
    assert_eq!(db.get("x"), None);
    assert_eq!(db.serialize(), Vec::<u8>::new());
}

#[test]
fn deserialize_rejects_malformed_bytes() {
    assert!(LabelDatabase::deserialize(&[0, 0, 0]).is_none());
    // empty key
    assert!(LabelDatabase::deserialize(&[0, 0, 0, 0, 0, 0, 0, 0, 0, 0, 0, 0, 0, 0, 0, 0]).is_none());
    // key runs past the end
    assert!(LabelDatabase::deserialize(&[0, 0, 0, 0, 0, 0, 0, 9, b'a']).is_none());
    // value is not UTF-8
    assert!(LabelDatabase::deserialize(&[0, 0, 0, 0, 0, 0, 0, 1, b'a', 0, 0, 0, 0, 0, 0, 0, 1, 0xff]).is_none());
    // huge key length
    assert!(LabelDatabase::deserialize(&[0xff; 20]).is_none());
}

#[test]
fn flow_through_records_its_label() {
    let mut db = LabelDatabase::new();
    FlowThrough.apply(&mut db);
    assert_eq!(db.get("flow_through_key"), Some("flow_through_value".to_string()));
}

#[test]
fn airdrop_farming_records_its_label() {
    let mut db = LabelDatabase::new();
    record_airdrop_farming(&mut db);
    assert_eq!(db.get("airdrop_farming_key"), Some("airdrop_farming_value".to_string()));
}

#[test]
fn serialize_lists_keys_in_lexicographic_order() {
    let mut db = LabelDatabase::new();
    db.insert("b", "2");
    db.insert("ab", "3");
    db.insert("a", "1");
    let bytes = db.serialize();
    let mut expected = Vec::new();
    for (k, v) in [("a", "1"), ("ab", "3"), ("b", "2")] {
        expected.extend_from_slice(&(k.len() as u64).to_be_bytes());
        expected.extend_from_slice(k.as_bytes());
        expected.extend_from_slice(&(v.len() as u64).to_be_bytes());
        expected.extend_from_slice(v.as_bytes());
    }
    assert_eq!(bytes, expected);
}

#[test]
fn last_insert_wins_over_a_sequence() {
    let mut db = LabelDatabase::new();
    for (k, v) in [("a", "1"), ("b", "2"), ("a", "3"), ("c", "4"), ("b", "5")] {
        db.insert(k, v);
    }
    assert_eq!(db.get("a"), Some("3".to_string()));
    assert_eq!(db.get("b"), Some("5".to_string()));
    assert_eq!(db.get("c"), Some("4".to_string()));
    assert_eq!(db.get("d"), None);
    let copy = db.get("a");
    db.insert("a", "6");
    assert_eq!(copy, Some("3".to_string()));
}
