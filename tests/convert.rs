use ext_php_rs::{DataType, Error, ZendHashTable};

#[test]
fn vec_round_trip() {
    let v: Vec<i64> = vec![5, -3, 8];
    let ht = ZendHashTable::from_vec(v.clone()).unwrap();
    assert_eq!(ht.len(), 3);
    assert!(ht.has_sequential_keys());
    assert_eq!(ht.get_index(2).and_then(|zv| zv.long()), Some(8));
    let back: Vec<i64> = ht.to_vec().unwrap();
    assert_eq!(back, v);
}

#[test]
fn vec_of_strings_round_trip() {
    let v = vec!["a".to_string(), "b".to_string()];
    let ht = ZendHashTable::from_vec(v.clone()).unwrap();
    let back: Vec<String> = ht.to_vec().unwrap();
    assert_eq!(back, v);
}

#[test]
fn empty_vec_round_trip() {
    let v: Vec<bool> = Vec::new();
    let ht = ZendHashTable::from_vec(v).unwrap();
    assert!(ht.is_empty());
    let back: Vec<bool> = ht.to_vec().unwrap();
    assert!(back.is_empty());
}

#[test]
fn vec_conversion_failures() {
    assert_eq!(
        ZendHashTable::from_vec(vec![1u64, u64::MAX]).err(),
        Some(Error::IntegerOverflow)
    );
    let mut ht = ZendHashTable::new();
    assert!(ht.push(1).is_ok());
    assert!(ht.push("two").is_ok());
    let r: Result<Vec<i64>, Error> = ht.to_vec();
    assert_eq!(r, Err(Error::ValueConversion(DataType::String)));
}

#[test]
fn pairs_round_trip() {
    let pairs = vec![
        ("first".to_string(), 1i64),
        ("second".to_string(), 2i64),
        ("third".to_string(), 3i64),
    ];
    let ht = ZendHashTable::from_pairs(pairs.clone()).unwrap();
    assert_eq!(ht.len(), 3);
    assert_eq!(ht.get("second").and_then(|zv| zv.long()), Some(2));
    let back: Vec<(String, i64)> = ht.to_pairs().unwrap();
    assert_eq!(back, pairs);
}

#[test]
fn pairs_with_numeric_keys_are_coerced() {
    let pairs = vec![("10".to_string(), true), ("x".to_string(), false)];
    let ht = ZendHashTable::from_pairs(pairs).unwrap();
    assert_eq!(ht.get_index(10).and_then(|zv| zv.bool()), Some(true));
    let back: Vec<(String, bool)> = ht.to_pairs().unwrap();
    assert_eq!(back, vec![("10".to_string(), true), ("x".to_string(), false)]);
}

#[test]
fn integer_keys_read_as_decimal_strings() {
    let mut ht = ZendHashTable::new();
    assert!(ht.insert_at_index(-12, "a").is_ok());
    assert!(ht.push("b").is_ok());
    let back: Vec<(String, String)> = ht.to_pairs().unwrap();
    assert_eq!(
        back,
        vec![("-12".to_string(), "a".to_string()), ("0".to_string(), "b".to_string())]
    );
}

#[test]
fn pairs_conversion_failures() {
    let bad_key = vec![("a\0".to_string(), 1i64)];
    assert_eq!(ZendHashTable::from_pairs(bad_key).err(), Some(Error::InvalidKey));
    let mut ht = ZendHashTable::new();
    assert!(ht.insert("k", true).is_ok());
    let r: Result<Vec<(String, i64)>, Error> = ht.to_pairs();
    assert_eq!(r, Err(Error::ValueConversion(DataType::Bool)));
}
