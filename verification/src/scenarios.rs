//! Fully verified walkthroughs of one store session each: a fresh store is
//! opened, an entry is inserted, looked up, decoded and removed, and every
//! step is proved to succeed with the expected result. They double as
//! executable smoke scenarios over the codec's concrete types.

use vstd::prelude::*;

use crate::codec::{
    Record,
    decode_i64,
    decode_record,
    decode_vec_i64,
    encode_i64,
    encode_record,
    encode_str,
    encode_vec_i64,
    int_to_string,
};
use crate::scan::ScanFile;
use crate::store::KVStore;

verus! {

/// One full insert/lookup/remove cycle on a fresh store, with an integer key
/// and the same integer as value.
pub fn test_1(data: i32)
{
    let empty: Vec<ScanFile> = Vec::new();
    let mut kvs = KVStore::new(".", &empty);
    let key = encode_i64(data as i64);
    let value = encode_i64(data as i64);
    let ins = kvs.insert(&key, &value);
    assert(ins.is_ok());
    let found = kvs.lookup(&key);
    assert(found.is_ok());
    let got = found.unwrap();
    assert(got@ == value@);
    let back = decode_i64(&got);
    assert(back.is_ok());
    let n = back.unwrap();
    assert(n == data as i64);
    let removed = kvs.remove(&key);
    assert(removed.is_ok());
    let (old_value, _acts) = removed.unwrap();
    assert(old_value@ == value@);
    assert(kvs.size_spec() == 0);
}

/// One full cycle with the decimal rendering of the integer as key and a
/// one-element integer sequence as value.
pub fn test_2(data: i32)
{
    let empty: Vec<ScanFile> = Vec::new();
    let mut kvs = KVStore::new(".", &empty);
    let key_text = int_to_string(data as i64);
    let key = encode_str(key_text.as_str());
    let mut items: Vec<i64> = Vec::new();
    items.push(data as i64);
    let value = encode_vec_i64(&items);
    let ins = kvs.insert(&key, &value);
    assert(ins.is_ok());
    let found = kvs.lookup(&key);
    assert(found.is_ok());
    let got = found.unwrap();
    let back = decode_vec_i64(&got);
    assert(back.is_ok());
    let items_back = back.unwrap();
    assert(items_back@ == items@);
    let removed = kvs.remove(&key);
    assert(removed.is_ok());
}

/// One full cycle with the decimal rendering of the integer as key and a
/// structured record as value.
pub fn test_3(data: i32)
{
    let empty: Vec<ScanFile> = Vec::new();
    let mut kvs = KVStore::new(".", &empty);
    let key_text = int_to_string(data as i64);
    let key = encode_str(key_text.as_str());
    let value = encode_record(&Record { x: data as i64 });
    let ins = kvs.insert(&key, &value);
    assert(ins.is_ok());
    let found = kvs.lookup(&key);
    assert(found.is_ok());
    let got = found.unwrap();
    let back = decode_record(&got);
    assert(back.is_ok());
    let rec = back.unwrap();
    assert(rec.x == data as i64);
    let removed = kvs.remove(&key);
    assert(removed.is_ok());
}

} // verus!
