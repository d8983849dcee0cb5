//! The store exercised from outside, against a simulated disk: every action
//! list the engine hands back is applied to an in-memory tree, and reopening
//! reads that tree back as a scan listing.

use std::collections::{HashMap, HashSet};

use kvstore::codec::{decode_bool, decode_i64, decode_str, decode_u64, encode_bool, encode_i64, encode_str, encode_u64};
use kvstore::{FsAction, KVStore, ScanFile};

type Disk = (HashSet<Vec<u8>>, HashMap<(Vec<u8>, Vec<u8>), Vec<u8>>);

fn apply_actions(disk: &mut Disk, acts: Vec<FsAction>) {
    for a in acts {
        match a {
            FsAction::CreateDir { dir } => {
                disk.0.insert(dir);
            }
            FsAction::WriteFile { dir, name, data } => {
                assert!(disk.0.contains(&dir));
                disk.1.insert((dir, name), data);
            }
            FsAction::RemoveFile { dir, name } => {
                assert!(disk.1.remove(&(dir, name)).is_some());
            }
            FsAction::RemoveDir { dir } => {
                assert!(!disk.1.keys().any(|k| k.0 == dir));
                assert!(disk.0.remove(&dir));
            }
        }
    }
}

fn listing_of(disk: &Disk) -> Vec<ScanFile> {
    disk.1
        .iter()
        .map(|((dir, name), data)| ScanFile {
            dir: dir.clone(),
            name: name.clone(),
            data: data.clone(),
        })
        .collect()
}

#[test]
fn it_works() {
    assert_eq!(2 + 2, 4);
}

// Create a new store. Test that it has 0 entries.
#[test]
fn test1() {
    let kvs = KVStore::new("test_stores/test1", &Vec::new());
    assert_eq!(0, kvs.size());
}

// Set kvs to an already existing, but empty store and add a pair to it.
#[test]
fn test2() {
    let mut kvs = KVStore::new("test_stores/test2", &Vec::new());
    match kvs.insert(&encode_str("Key"), &encode_str("Value")) {
        Ok(_) => (),
        Err(e) => println!("{:?}", e),
    }
    assert_eq!(1, kvs.size());
}

// Set kvs to an already existing non-empty store and check its size.
#[test]
fn test3() {
    let mut disk: Disk = (HashSet::new(), HashMap::new());
    let mut kvs = KVStore::new("test_stores/test3", &Vec::new());
    match kvs.insert(&encode_str("Key"), &encode_str("Value")) {
        Ok(acts) => apply_actions(&mut disk, acts),
        Err(e) => println!("{:?}", e),
    }
    let kvs2 = KVStore::new("test_stores/test3", &listing_of(&disk));
    assert_eq!(1, kvs2.size());
}

// Testing for lookup.
#[test]
fn test4() {
    let mut kvs = KVStore::new("test_stores/test4", &Vec::new());
    let key = encode_str("Key");
    let value = encode_str("Value");
    match kvs.insert(&key, &value) {
        Ok(_) => (),
        Err(e) => println!("{:?}", e),
    }
    let looked_up = decode_str(&kvs.lookup(&encode_str("Key")).unwrap()).unwrap();
    assert_eq!(looked_up, String::from("Value"));
}

// More testing for lookup.
#[test]
fn test5() {
    let mut kvs = KVStore::new("test_stores/test5", &Vec::new());
    let key = 2 as u32;
    let value = 5 as u64;
    match kvs.insert(&encode_u64(key as u64), &encode_u64(value)) {
        Ok(_) => (),
        Err(e) => println!("{:?}", e),
    }
    let looked_up = decode_u64(&kvs.lookup(&encode_u64(key as u64)).unwrap()).unwrap();
    assert_eq!(looked_up, value);
}

// Retrieving a value from an already existing store.
#[test]
fn test6() {
    let mut disk: Disk = (HashSet::new(), HashMap::new());
    let mut kvs = KVStore::new("test_stores/test6", &Vec::new());
    let key = 2 as i32;
    let value = 5 as u32;
    match kvs.insert(&encode_i64(key as i64), &encode_u64(value as u64)) {
        Ok(acts) => apply_actions(&mut disk, acts),
        Err(e) => println!("{:?}", e),
    }
    let kvs2 = KVStore::new("test_stores/test6", &listing_of(&disk));
    let looked_up = decode_u64(&kvs2.lookup(&encode_i64(key as i64)).unwrap()).unwrap();
    assert_eq!(looked_up, value as u64);
}

// Inserting / Retrieving structured values: the store holds whatever bytes
// the serialization capability produces, here a JSON object built by calls.
#[test]
fn test7() {
    let mut kvs = KVStore::new("test_stores/test7", &Vec::new());
    let key = serde_json::to_vec(&(1 as u64)).unwrap();
    let mut car = serde_json::Map::new();
    car.insert("color".to_string(), serde_json::Value::from("Red".to_string()));
    car.insert("wheels".to_string(), serde_json::Value::from(3 as u64));
    let value = serde_json::to_vec(&serde_json::Value::Object(car.clone())).unwrap();
    match kvs.insert(&key, &value) {
        Ok(_) => (),
        Err(e) => println!("{:?}", e),
    }
    let looked_up: serde_json::Value =
        serde_json::from_slice(&kvs.lookup(&key).unwrap()).unwrap();
    assert_eq!(looked_up, serde_json::Value::Object(car));
}

// Removing from the store, with a floating-point key encoded by the
// serialization capability.
#[test]
fn test8() {
    let mut kvs = KVStore::new("test_stores/test8", &Vec::new());
    let key = serde_json::to_vec(&(1 as f64)).unwrap();
    let value = encode_str("Hi");
    match kvs.insert(&key, &value) {
        Ok(_) => (),
        Err(e) => println!("{:?}", e),
    }
    let (looked_up, _acts) = kvs.remove(&key).unwrap();
    assert_eq!(decode_str(&looked_up).unwrap(), "Hi");

    assert_eq!(kvs.size(), 0);
}

#[test]
fn insert_val_int_test() {
    let mut kvs = KVStore::new("./database/instance_1", &Vec::new());
    assert_eq!(kvs.size(), 0);

    let key = encode_str("testkey_123");
    kvs.insert(&key, &encode_i64(45 as i64)).unwrap();
    let lookup_val = decode_i64(&kvs.lookup(&key).unwrap()).unwrap();
    assert_eq!(lookup_val, 45 as i64);
    // Cleanup
    let (cleanup_val, _acts) = kvs.remove(&key).unwrap();
    assert_eq!(decode_i64(&cleanup_val).unwrap(), 45 as i64);
    assert_eq!(kvs.size(), 0);
}

#[test]
fn insert_val_string_test() {
    let mut kvs = KVStore::new("./database/instance_1", &Vec::new());
    assert_eq!(kvs.size(), 0);

    let key = encode_str("testkey_123");
    kvs.insert(&key, &encode_str("value_string")).unwrap();
    let lookup_val = decode_str(&kvs.lookup(&key).unwrap()).unwrap();
    assert_eq!(lookup_val, String::from("value_string"));
    // Cleanup
    let (cleanup_val, _acts) = kvs.remove(&key).unwrap();
    assert_eq!(decode_str(&cleanup_val).unwrap(), String::from("value_string"));
    assert_eq!(kvs.size(), 0);
}

#[test]
fn insert_val_bool_test() {
    let mut kvs = KVStore::new("./database/instance_1", &Vec::new());
    assert_eq!(kvs.size(), 0);

    let key = encode_str("testkey_123");
    kvs.insert(&key, &encode_bool(true)).unwrap();
    let lookup_val = decode_bool(&kvs.lookup(&key).unwrap()).unwrap();
    assert_eq!(lookup_val, true);
    // Cleanup
    let (cleanup_val, _acts) = kvs.remove(&key).unwrap();
    assert_eq!(decode_bool(&cleanup_val).unwrap(), true);
    assert_eq!(kvs.size(), 0);
}

#[test]
fn remove_key_test() {
    let mut kvs = KVStore::new("./database/instance_1", &Vec::new());
    assert_eq!(kvs.size(), 0);

    let key = encode_str("testkey_123");
    kvs.insert(&key, &encode_i64(45 as i64)).unwrap();
    let (rem_val, _acts) = kvs.remove(&key).unwrap();
    assert_eq!(decode_i64(&rem_val).unwrap(), 45 as i64);
    // Cleanup
    assert_eq!(kvs.size(), 0);
}

#[test]
fn insert_existing_key_err() {
    let mut kvs = KVStore::new("./database/instance_1", &Vec::new());
    assert_eq!(kvs.size(), 0);

    let key = encode_str("testkey_123");
    kvs.insert(&key, &encode_i64(45 as i64)).unwrap();

    let duplicate_result = kvs.insert(&key, &encode_i64(45 as i64)).unwrap_err();
    assert_eq!(kvstore::KVError::AlreadyExists, duplicate_result);

    // Cleanup
    let (cleanup_val, _acts) = kvs.remove(&key).unwrap();
    assert_eq!(decode_i64(&cleanup_val).unwrap(), 45 as i64);
    assert_eq!(kvs.size(), 0);
}

#[test]
fn remove_nonexisting_key_err() {
    let mut kvs = KVStore::new("./database/instance_1", &Vec::new());
    assert_eq!(kvs.size(), 0);

    let remove_result = kvs.remove(&encode_str("testkey_123")).unwrap_err();
    assert_eq!(kvstore::KVError::NotFound, remove_result);

    // Cleanup
    assert_eq!(kvs.size(), 0);
}

#[test]
fn lookup_nonexisting_key_err() {
    let kvs = KVStore::new("./database/instance_1", &Vec::new());
    assert_eq!(kvs.size(), 0);

    let lookup_result = kvs.lookup(&encode_str("testkey_123")).unwrap_err();
    assert_eq!(kvstore::KVError::NotFound, lookup_result);

    // Cleanup
    assert_eq!(kvs.size(), 0);
}

#[test]
fn check_size_after_remove() {
    let mut kvs = KVStore::new("./database/instance_1", &Vec::new());
    assert_eq!(kvs.size(), 0);

    kvs.insert(&encode_str("testkey_123"), &encode_i64(123 as i64)).unwrap();
    kvs.insert(&encode_str("testkey_234"), &encode_i64(234 as i64)).unwrap();
    kvs.insert(&encode_str("testkey_567"), &encode_i64(567 as i64)).unwrap();
    kvs.remove(&encode_str("testkey_123")).unwrap();
    assert_eq!(kvs.size(), 2);

    // Cleanup
    kvs.remove(&encode_str("testkey_234")).unwrap();
    kvs.remove(&encode_str("testkey_567")).unwrap();
    assert_eq!(kvs.size(), 0);
}

#[test]
fn check_size_after_insert() {
    let mut kvs = KVStore::new("./database/instance_1", &Vec::new());
    assert_eq!(kvs.size(), 0);

    kvs.insert(&encode_str("testkey_123"), &encode_i64(123 as i64)).unwrap();
    kvs.insert(&encode_str("testkey_234"), &encode_i64(234 as i64)).unwrap();
    kvs.insert(&encode_str("testkey_567"), &encode_i64(567 as i64)).unwrap();
    assert_eq!(kvs.size(), 3);

    // Cleanup
    kvs.remove(&encode_str("testkey_123")).unwrap();
    kvs.remove(&encode_str("testkey_234")).unwrap();
    kvs.remove(&encode_str("testkey_567")).unwrap();
    assert_eq!(kvs.size(), 0);
}
