//! Exercises the store's contracts on concrete values: the
//! round trip, size accounting, duplicate-key rejection, not-found symmetry,
//! shard-directory cleanup, reopening from a scan, the exact codec texts, and
//! the digest-based file naming.

use std::collections::{HashMap, HashSet};

use kvstore::KVError;
use kvstore::codec::{
    decode_bool, decode_i64, decode_record, decode_str, decode_u64, decode_vec_i64, encode_bool,
    encode_i64, encode_record, encode_str, encode_u64, encode_vec_i64, int_to_string,
};
use kvstore::scan::{calc_num_of_pairs, count_keys};
use kvstore::{FsAction, KVStore, KVStore2, Record, ScanFile, TypeToStr};

type Disk = (HashSet<Vec<u8>>, HashMap<(Vec<u8>, Vec<u8>), Vec<u8>>);

fn apply_actions(disk: &mut Disk, acts: Vec<FsAction>) {
    for a in acts {
        match a {
            FsAction::CreateDir { dir } => {
                disk.0.insert(dir);
            }
            FsAction::WriteFile { dir, name, data } => {
                assert!(disk.0.contains(&dir));
                disk.1.insert((dir, name), data);
            }
            FsAction::RemoveFile { dir, name } => {
                assert!(disk.1.remove(&(dir, name)).is_some());
            }
            FsAction::RemoveDir { dir } => {
                assert!(!disk.1.keys().any(|k| k.0 == dir));
                assert!(disk.0.remove(&dir));
            }
        }
    }
}

fn listing_of(disk: &Disk) -> Vec<ScanFile> {
    disk.1
        .iter()
        .map(|((dir, name), data)| ScanFile {
            dir: dir.clone(),
            name: name.clone(),
            data: data.clone(),
        })
        .collect()
}

// The concrete scenario: open, insert, look up, reject the duplicate, remove,
// and find nothing afterwards.
#[test]
fn full_scenario() {
    let mut kvs = KVStore::new("S", &Vec::new());
    assert_eq!(kvs.size(), 0);
    let ka = encode_str("a");
    kvs.insert(&ka, &encode_str("1")).unwrap();
    assert_eq!(kvs.size(), 1);
    assert_eq!(decode_str(&kvs.lookup(&ka).unwrap()).unwrap(), "1");
    assert_eq!(kvs.insert(&ka, &encode_str("2")).unwrap_err(), KVError::AlreadyExists);
    assert_eq!(kvs.size(), 1);
    assert_eq!(decode_str(&kvs.lookup(&ka).unwrap()).unwrap(), "1");
    let (removed, _acts) = kvs.remove(&ka).unwrap();
    assert_eq!(decode_str(&removed).unwrap(), "1");
    assert_eq!(kvs.size(), 0);
    assert_eq!(kvs.lookup(&ka).unwrap_err(), KVError::NotFound);
}

// Removing the last entry of a shard removes the shard directory itself.
#[test]
fn shard_dir_removed_with_last_entry() {
    let mut disk: Disk = (HashSet::new(), HashMap::new());
    let mut kvs = KVStore::new("test_stores/cleanup", &Vec::new());
    let key = encode_str("solo");
    let acts = kvs.insert(&key, &encode_str("v")).unwrap();
    apply_actions(&mut disk, acts);
    assert_eq!(disk.0.len(), 1);
    assert_eq!(disk.1.len(), 2);
    let (_v, acts) = kvs.remove(&key).unwrap();
    assert_eq!(acts.len(), 3);
    assert!(matches!(acts[2], FsAction::RemoveDir { .. }));
    apply_actions(&mut disk, acts);
    assert!(disk.0.is_empty());
    assert!(disk.1.is_empty());
}

// A shard directory holding a second entry pair survives a remove.
#[test]
fn shard_dir_kept_while_entries_remain() {
    let mut kvs = KVStore::new("test_stores/keep", &Vec::new());
    // both keys land in distinct shards with overwhelming probability, so
    // removing one keeps the other's directory; check via the disk instead
    let mut disk: Disk = (HashSet::new(), HashMap::new());
    let k1 = encode_str("first");
    let k2 = encode_str("second");
    apply_actions(&mut disk, kvs.insert(&k1, &encode_str("1")).unwrap());
    apply_actions(&mut disk, kvs.insert(&k2, &encode_str("2")).unwrap());
    assert_eq!(disk.1.len(), 4);
    let (_v, acts) = kvs.remove(&k1).unwrap();
    apply_actions(&mut disk, acts);
    assert_eq!(disk.1.len(), 2);
    assert_eq!(kvs.size(), 1);
    assert_eq!(decode_str(&kvs.lookup(&k2).unwrap()).unwrap(), "2");
}

// Reopening a store from a scan of its disk state reconstructs its size.
#[test]
fn reopen_counts_key_files() {
    let mut disk: Disk = (HashSet::new(), HashMap::new());
    let mut kvs = KVStore::new("./database/reopen", &Vec::new());
    apply_actions(&mut disk, kvs.insert(&encode_str("a"), &encode_i64(1)).unwrap());
    apply_actions(&mut disk, kvs.insert(&encode_str("b"), &encode_i64(2)).unwrap());
    apply_actions(&mut disk, kvs.insert(&encode_str("c"), &encode_i64(3)).unwrap());
    let reopened = KVStore::new("./database/reopen", &listing_of(&disk));
    assert_eq!(reopened.size(), 3);
    let (_v, acts) = kvs.remove(&encode_str("b")).unwrap();
    apply_actions(&mut disk, acts);
    let reopened = KVStore::new("./database/reopen", &listing_of(&disk));
    assert_eq!(reopened.size(), 2);
    assert_eq!(decode_i64(&reopened.lookup(&encode_str("c")).unwrap()).unwrap(), 3);
    assert_eq!(reopened.lookup(&encode_str("b")).unwrap_err(), KVError::NotFound);
}

// The digest wrapper really computes SHA-256: the file names an insert emits
// match an independent digest of the encoded key.
#[test]
fn digest_names_match_sha256() {
    let mut kvs = KVStore::new("test_stores/digest", &Vec::new());
    let key = encode_str("hello");
    let acts = kvs.insert(&key, &encode_str("world")).unwrap();
    let expected = sha256::digest(key.as_slice());
    assert_eq!(expected.len(), 64);
    match &acts[0] {
        FsAction::CreateDir { dir } => assert_eq!(dir, &expected.as_bytes()[..10].to_vec()),
        _ => panic!("expected a CreateDir action"),
    }
    match &acts[1] {
        FsAction::WriteFile { dir, name, data } => {
            assert_eq!(dir, &expected.as_bytes()[..10].to_vec());
            assert_eq!(name, &format!("{}.key", expected).into_bytes());
            assert_eq!(data, &key);
        }
        _ => panic!("expected the key file write"),
    }
    match &acts[2] {
        FsAction::WriteFile { name, .. } => {
            assert_eq!(name, &format!("{}.value", expected).into_bytes());
        }
        _ => panic!("expected the value file write"),
    }
}

// The codec produces the exact JSON texts, decodes them back, and rejects
// garbage.
#[test]
fn codec_exact_texts() {
    assert_eq!(encode_str("a"), b"\"a\"".to_vec());
    assert_eq!(encode_i64(45), b"45".to_vec());
    assert_eq!(encode_i64(-7), b"-7".to_vec());
    assert_eq!(encode_u64(5), b"5".to_vec());
    assert_eq!(encode_bool(true), b"true".to_vec());
    assert_eq!(encode_bool(false), b"false".to_vec());
    assert_eq!(encode_vec_i64(&vec![1, 2, 3]), b"[1,2,3]".to_vec());
    assert_eq!(encode_record(&Record { x: 9 }), b"{\"x\":9}".to_vec());
    assert_eq!(int_to_string(45), "45");
    assert_eq!(int_to_string(-3), "-3");
    assert_eq!(decode_str(&b"\"a\"".to_vec()).unwrap(), "a");
    assert_eq!(decode_i64(&b"45".to_vec()).unwrap(), 45);
    assert_eq!(decode_u64(&b"5".to_vec()).unwrap(), 5);
    assert_eq!(decode_bool(&b"true".to_vec()).unwrap(), true);
    assert_eq!(decode_vec_i64(&b"[1,2]".to_vec()).unwrap(), vec![1i64, 2]);
    assert_eq!(decode_record(&b"{\"x\":9}".to_vec()).unwrap().x, 9);
    assert_eq!(decode_i64(&b"xyz".to_vec()).unwrap_err(), KVError::DecodingFailure);
    assert_eq!(decode_str(&b"45".to_vec()).unwrap_err(), KVError::DecodingFailure);
    assert_eq!(decode_bool(&b"yes".to_vec()).unwrap_err(), KVError::DecodingFailure);
    assert_eq!(decode_record(&b"{\"y\":9}".to_vec()).unwrap_err(), KVError::DecodingFailure);
}

// A stored value that is not valid JSON comes back from lookup as raw bytes
// and fails only at the decoding step.
#[test]
fn lookup_surfaces_decoding_failure() {
    let mut kvs = KVStore::new("test_stores/garbage", &Vec::new());
    let key = encode_str("k");
    kvs.insert(&key, &b"not json".to_vec()).unwrap();
    let raw = kvs.lookup(&key).unwrap();
    assert_eq!(raw, b"not json".to_vec());
    assert_eq!(decode_i64(&raw).unwrap_err(), KVError::DecodingFailure);
}

// A value file whose key sibling is missing: lookup still succeeds, but
// remove fails, since deleting the key file cannot succeed.
#[test]
fn remove_with_dangling_value_fails_io() {
    let key = encode_str("dangling");
    let digest = sha256::digest(key.as_slice());
    let listing = vec![ScanFile {
        dir: digest.as_bytes()[..10].to_vec(),
        name: format!("{}.value", digest).into_bytes(),
        data: b"\"v\"".to_vec(),
    }];
    let mut kvs = KVStore::new("test_stores/dangling", &listing);
    assert_eq!(kvs.size(), 0);
    assert_eq!(decode_str(&kvs.lookup(&key).unwrap()).unwrap(), "v");
    assert_eq!(kvs.remove(&key).unwrap_err(), KVError::IoFailure);
    assert_eq!(kvs.size(), 0);
}

// The counting helpers over a scan listing.
#[test]
fn counting_scan_files() {
    let listing = vec![
        ScanFile { dir: b"ab".to_vec(), name: b"x.key".to_vec(), data: b"k".to_vec() },
        ScanFile { dir: b"ab".to_vec(), name: b"x.value".to_vec(), data: b"v".to_vec() },
        ScanFile { dir: b"cd".to_vec(), name: b"y.key".to_vec(), data: b"k".to_vec() },
        ScanFile { dir: Vec::new(), name: b"readme".to_vec(), data: Vec::new() },
    ];
    assert_eq!(count_keys(&listing), 2);
    assert_eq!(calc_num_of_pairs(&listing), 1);
    assert_eq!(count_keys(&Vec::new()), 0);
    assert_eq!(calc_num_of_pairs(&Vec::new()), 0);
    let kvs = KVStore::new("test_stores/counted", &listing);
    assert_eq!(kvs.size(), 2);
}

// The second store flavour shards by the first nine digest characters.
#[test]
fn kvstore2_shards_by_nine() {
    let mut kvs = KVStore2::new("test_stores/two", &Vec::new());
    assert_eq!(kvs.size(), 0);
    let key = encode_str("Key");
    let acts = kvs.insert(&key, &encode_str("Value")).unwrap();
    let expected = sha256::digest(key.as_slice());
    match &acts[0] {
        FsAction::CreateDir { dir } => assert_eq!(dir, &expected.as_bytes()[..9].to_vec()),
        _ => panic!("expected a CreateDir action"),
    }
    assert_eq!(kvs.size(), 1);
    assert_eq!(decode_str(&kvs.lookup(&key).unwrap()).unwrap(), "Value");
    kvs.remove(&key).unwrap();
    assert_eq!(kvs.size(), 0);
}

// Both flavours name themselves.
#[test]
fn type_names() {
    let a = KVStore::new("test_stores/names", &Vec::new());
    let b = KVStore2::new("test_stores/names", &Vec::new());
    assert_eq!(a.get_type(), "KVStore");
    assert_eq!(b.get_type(), "KVStore2");
    assert_eq!(a.root(), "test_stores/names");
}

// The verified walkthrough scenarios run as well.
#[test]
fn scenario_cycles() {
    kvstore::scenarios::test_1(45);
    kvstore::scenarios::test_2(45);
    kvstore::scenarios::test_3(-45);
}
