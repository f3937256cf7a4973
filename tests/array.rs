use ext_php_rs::numeric::{decimal_string, parse_numeric_key};
use ext_php_rs::{ArrayKey, Error, ZendHashTable, Zval};

#[test]
fn push_insert_and_lookup() {
    let mut ht = ZendHashTable::new();
    assert!(ht.push(1).is_ok());
    assert!(ht.push("Hello").is_ok());
    assert!(ht.insert("Like", "Hashtable").is_ok());
    assert_eq!(ht.len(), 3);
    assert_eq!(ht.get_index(0).and_then(|zv| zv.long()), Some(1));
    assert_eq!(ht.get_index(1).and_then(|zv| zv.str()), Some("Hello"));
    assert_eq!(ht.get("Like").and_then(|zv| zv.str()), Some("Hashtable"));
}

#[test]
fn insert_at_index_overrides() {
    let mut ht = ZendHashTable::new();
    assert!(ht.insert_at_index(0, "A").is_ok());
    assert!(ht.insert_at_index(5, "B").is_ok());
    assert!(ht.insert_at_index(0, "C").is_ok());
    assert_eq!(ht.len(), 2);
    assert_eq!(ht.get_index(0).and_then(|zv| zv.str()), Some("C"));
    assert_eq!(ht.get_index(5).and_then(|zv| zv.str()), Some("B"));
}

#[test]
fn numerical_and_sequential_keys() {
    let mut ht = ZendHashTable::new();
    assert!(ht.push(0).is_ok());
    assert!(ht.push(3).is_ok());
    assert!(ht.push(9).is_ok());
    assert!(ht.has_numerical_keys());
    assert!(ht.has_sequential_keys());
    assert!(ht.insert_at_index(90, 10).is_ok());
    assert!(ht.has_numerical_keys());
    assert!(!ht.has_sequential_keys());
    assert!(ht.insert("x", 10).is_ok());
    assert!(!ht.has_numerical_keys());
}

#[test]
fn empty_table_has_sequential_keys() {
    let ht = ZendHashTable::new();
    assert!(ht.is_empty());
    assert!(ht.has_sequential_keys());
    assert!(ht.has_numerical_keys());
}

#[test]
fn insert_then_get_finds_value() {
    let mut ht = ZendHashTable::new();
    assert!(ht.insert("name", 42).is_ok());
    assert_eq!(ht.get("name").and_then(|zv| zv.long()), Some(42));
    assert!(ht.insert(7i64, true).is_ok());
    assert_eq!(ht.get(7i64).and_then(|zv| zv.bool()), Some(true));
    assert!(ht.insert("name", "again").is_ok());
    assert_eq!(ht.len(), 2);
    assert_eq!(ht.get("name").and_then(|zv| zv.str()), Some("again"));
}

#[test]
fn numeric_string_key_is_integer_key() {
    let mut ht = ZendHashTable::new();
    assert!(ht.insert("12", "twelve").is_ok());
    assert_eq!(ht.get_index(12).and_then(|zv| zv.str()), Some("twelve"));
    assert_eq!(ht.get("12").and_then(|zv| zv.str()), Some("twelve"));
    assert!(ht.insert("-5", "minus five").is_ok());
    assert_eq!(ht.get_index(-5).and_then(|zv| zv.str()), Some("minus five"));
    assert!(ht.has_numerical_keys());
    // The next push goes after the largest integer key.
    assert!(ht.push("next").is_ok());
    assert_eq!(ht.get_index(13).and_then(|zv| zv.str()), Some("next"));
}

#[test]
fn non_canonical_numbers_stay_strings() {
    let mut ht = ZendHashTable::new();
    assert!(ht.insert("007", 1).is_ok());
    assert!(ht.insert("+1", 2).is_ok());
    assert!(ht.insert("-0", 3).is_ok());
    assert!(ht.insert(" 1", 4).is_ok());
    assert!(!ht.has_numerical_keys());
    assert!(ht.get_index(7).is_none());
    assert!(ht.get_index(1).is_none());
    assert!(ht.get_index(0).is_none());
    assert_eq!(ht.get("007").and_then(|zv| zv.long()), Some(1));
    assert_eq!(ht.len(), 4);
}

#[test]
fn parse_numeric_key_edges() {
    assert_eq!(parse_numeric_key("0"), Some(0));
    assert_eq!(parse_numeric_key("42"), Some(42));
    assert_eq!(parse_numeric_key("-42"), Some(-42));
    assert_eq!(parse_numeric_key("9223372036854775807"), Some(i64::MAX));
    assert_eq!(parse_numeric_key("-9223372036854775808"), Some(i64::MIN));
    assert_eq!(parse_numeric_key("9223372036854775808"), None);
    assert_eq!(parse_numeric_key("-9223372036854775809"), None);
    assert_eq!(parse_numeric_key(""), None);
    assert_eq!(parse_numeric_key("-"), None);
    assert_eq!(parse_numeric_key("-0"), None);
    assert_eq!(parse_numeric_key("01"), None);
    assert_eq!(parse_numeric_key("1a"), None);
    assert_eq!(parse_numeric_key("+3"), None);
}

#[test]
fn decimal_string_forms() {
    assert_eq!(decimal_string(0), "0");
    assert_eq!(decimal_string(1234), "1234");
    assert_eq!(decimal_string(-77), "-77");
    assert_eq!(decimal_string(i64::MIN), "-9223372036854775808");
    assert_eq!(decimal_string(i64::MAX), "9223372036854775807");
}

#[test]
fn nul_in_key_is_rejected() {
    let mut ht = ZendHashTable::new();
    assert_eq!(ht.insert("a\0b", 1), Err(Error::InvalidKey));
    assert!(ht.is_empty());
    assert!(ht.get("a\0b").is_none());
}

#[test]
fn value_conversion_failure_leaves_table() {
    let mut ht = ZendHashTable::new();
    assert_eq!(ht.push(u64::MAX), Err(Error::IntegerOverflow));
    assert_eq!(ht.insert("k", u64::MAX), Err(Error::IntegerOverflow));
    assert_eq!(ht.insert_at_index(3, u64::MAX), Err(Error::IntegerOverflow));
    assert!(ht.is_empty());
    assert!(ht.push(5u64).is_ok());
    assert_eq!(ht.get_index(0).and_then(|zv| zv.long()), Some(5));
}

#[test]
fn push_at_largest_key_fails() {
    let mut ht = ZendHashTable::new();
    assert!(ht.insert_at_index(i64::MAX, 1).is_ok());
    assert_eq!(ht.push(2), Err(Error::IntegerOverflow));
    assert_eq!(ht.len(), 1);
}

#[test]
fn remove_and_clear() {
    let mut ht = ZendHashTable::new();
    assert!(ht.insert("test", "hello world").is_ok());
    assert!(ht.push("x").is_ok());
    assert_eq!(ht.len(), 2);
    assert_eq!(ht.remove("test"), Some(()));
    assert_eq!(ht.remove("test"), None);
    assert_eq!(ht.len(), 1);
    assert_eq!(ht.remove_index(0), Some(()));
    assert_eq!(ht.remove_index(0), None);
    assert!(ht.is_empty());
    assert!(ht.push("a").is_ok());
    // The removed index is not reused.
    assert_eq!(ht.get_index(1).and_then(|zv| zv.str()), Some("a"));
    ht.clear();
    assert!(ht.is_empty());
    assert!(ht.push("b").is_ok());
    assert_eq!(ht.get_index(0).and_then(|zv| zv.str()), Some("b"));
}

#[test]
fn remove_by_numeric_string() {
    let mut ht = ZendHashTable::new();
    assert!(ht.push("zero").is_ok());
    assert_eq!(ht.remove("0"), Some(()));
    assert!(ht.is_empty());
}

#[test]
fn get_mut_changes_value() {
    let mut ht = ZendHashTable::new();
    assert!(ht.insert("k", 1).is_ok());
    if let Some(zv) = ht.get_mut("k") {
        zv.set_long(99);
    }
    assert_eq!(ht.get("k").and_then(|zv| zv.long()), Some(99));
    assert!(ht.push(1).is_ok());
    if let Some(zv) = ht.get_index_mut(0) {
        zv.set_string("s".to_string());
    }
    assert_eq!(ht.get_index(0).and_then(|zv| zv.str()), Some("s"));
    assert!(ht.get_mut("missing").is_none());
}

#[test]
fn iteration_forward_and_back() {
    let mut ht = ZendHashTable::new();
    assert!(ht.push(10).is_ok());
    assert!(ht.insert("k", 20).is_ok());
    assert!(ht.push(30).is_ok());
    assert_eq!(ht.iter().count(), ht.len());
    let mut it = ht.iter();
    assert_eq!(it.len(), 3);
    let mut forward = Vec::new();
    while let Some((k, v)) = it.next() {
        forward.push((k, v.long().unwrap()));
    }
    assert_eq!(
        forward,
        vec![
            (ArrayKey::Long(0), 10),
            (ArrayKey::String("k".to_string()), 20),
            (ArrayKey::Long(1), 30)
        ]
    );
    let mut it = ht.iter();
    let mut backward = Vec::new();
    while let Some((k, v)) = it.next_back() {
        backward.push((k, v.long().unwrap()));
    }
    forward.reverse();
    assert_eq!(backward, forward);
}

#[test]
fn iteration_from_both_ends_meets() {
    let mut ht = ZendHashTable::new();
    assert!(ht.push(1).is_ok());
    assert!(ht.push(2).is_ok());
    assert!(ht.push(3).is_ok());
    let mut it = ht.iter();
    assert_eq!(it.next().map(|(_, v)| v.long()), Some(Some(1)));
    assert_eq!(it.next_back().map(|(_, v)| v.long()), Some(Some(3)));
    assert_eq!(it.len(), 1);
    assert_eq!(it.next().map(|(_, v)| v.long()), Some(Some(2)));
    assert!(it.next().is_none());
    assert!(it.next_back().is_none());
}

#[test]
fn next_zval_hands_out_keys_as_values() {
    let mut ht = ZendHashTable::new();
    assert!(ht.insert("name", 1).is_ok());
    assert!(ht.push(2).is_ok());
    let mut it = ht.iter();
    let (k, v) = it.next_zval().unwrap();
    assert_eq!(k.str(), Some("name"));
    assert_eq!(v.long(), Some(1));
    let (k, v) = it.next_zval().unwrap();
    assert_eq!(k.long(), Some(0));
    assert_eq!(v.long(), Some(2));
    assert!(it.next_zval().is_none());
}

#[test]
fn values_walk() {
    let mut ht = ZendHashTable::new();
    assert!(ht.insert("a", 1).is_ok());
    assert!(ht.insert("b", 2).is_ok());
    let mut vals = ht.values();
    assert_eq!(vals.len(), 2);
    assert_eq!(vals.next_back().and_then(|v| v.long()), Some(2));
    assert_eq!(vals.next().and_then(|v| v.long()), Some(1));
    assert!(vals.next().is_none());
    assert_eq!(ht.values().count(), 2);
}

#[test]
fn owned_copy_is_independent() {
    let mut ht = ZendHashTable::new();
    assert!(ht.insert("a", 1).is_ok());
    let mut copy = ht.clone();
    assert!(copy.insert("b", 2).is_ok());
    assert_eq!(ht.len(), 1);
    assert_eq!(copy.len(), 2);
    assert_eq!(copy.get("a").and_then(|zv| zv.long()), Some(1));
    let other = ht.to_owned();
    assert_eq!(other.get("a").and_then(|zv| zv.long()), Some(1));
}

#[test]
fn array_key_is_long() {
    assert!(ArrayKey::Long(3).is_long());
    assert!(!ArrayKey::Str("3").is_long());
    assert!(!ArrayKey::String("x".to_string()).is_long());
}

#[test]
fn zval_accessors() {
    let mut z = Zval::new();
    assert!(z.is_null());
    z.set_bool(true);
    assert_eq!(z.bool(), Some(true));
    assert_eq!(z.long(), None);
    z.set_string("s".to_string());
    assert!(z.is_string());
    assert_eq!(z.string(), Some("s".to_string()));
    z.set_null();
    assert!(z.is_null());
}
