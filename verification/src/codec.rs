//! Entry codec: keys and values are persisted as JSON text produced and
//! parsed by serde_json. The verified engine treats encoded entries as opaque
//! bytes; the declarations here name what the codec returns for the concrete
//! types the store is used with, and record the round-trip facts the
//! library's laws rest on.
//!
//! Encoding a string, an integer, a boolean, an integer sequence or a
//! [`Record`] cannot fail under serde_json (only map keys that are not
//! strings, or a failing `Serialize` implementation, can make it error), so
//! the encoders return the bytes directly. Decoding genuinely can fail and
//! surfaces [`KVError::DecodingFailure`].

use vstd::prelude::*;

use crate::KVError;

verus! {

/// A small structured value: one record with a single integer field, showing
/// that structured values travel through the store like primitive ones.
#[derive(Debug)]
pub struct Record {
    pub x: i64,
}

/// The JSON text of a string value.
pub uninterp spec fn json_of_str(s: Seq<char>) -> Seq<u8>;

/// What serde_json parses out of the bytes when a string is requested.
pub uninterp spec fn json_to_str(b: Seq<u8>) -> Option<Seq<char>>;

/// The JSON text of a 64-bit signed integer.
pub uninterp spec fn json_of_i64(n: i64) -> Seq<u8>;

/// What serde_json parses out of the bytes when an `i64` is requested.
pub uninterp spec fn json_to_i64(b: Seq<u8>) -> Option<i64>;

/// The JSON text of a 64-bit unsigned integer.
pub uninterp spec fn json_of_u64(n: u64) -> Seq<u8>;

/// What serde_json parses out of the bytes when a `u64` is requested.
pub uninterp spec fn json_to_u64(b: Seq<u8>) -> Option<u64>;

/// What serde_json parses out of the bytes when a `bool` is requested.
pub uninterp spec fn json_to_bool(b: Seq<u8>) -> Option<bool>;

/// The JSON text of a sequence of 64-bit integers.
pub uninterp spec fn json_of_vec_i64(s: Seq<i64>) -> Seq<u8>;

/// What serde_json parses out of the bytes when a `Vec<i64>` is requested.
pub uninterp spec fn json_to_vec_i64(b: Seq<u8>) -> Option<Seq<i64>>;

/// The JSON text of a [`Record`] with the given field.
pub uninterp spec fn json_of_record(x: i64) -> Seq<u8>;

/// The field recovered from the bytes when a [`Record`] is requested.
pub uninterp spec fn json_to_record(b: Seq<u8>) -> Option<i64>;

/// The decimal rendering of a 64-bit integer.
pub uninterp spec fn decimal_of(n: i64) -> Seq<char>;

/// Relies on serde_json::to_vec for `&str`: the JSON text is a function of
/// the characters alone, and serde_json::from_slice parses it back.
#[verifier::external_body]
pub fn encode_str(s: &str) -> (r: Vec<u8>)
    ensures
        r@ == json_of_str(s@),
        json_to_str(r@) == Some(s@),
{
    serde_json::to_vec(s).unwrap()
}

/// Relies on serde_json::from_slice for `String`: the result depends on the
/// input bytes alone.
#[verifier::external_body]
pub fn decode_str(b: &Vec<u8>) -> (r: Result<String, KVError>)
    ensures
        r is Ok <==> json_to_str(b@) is Some,
        r matches Ok(s) ==> json_to_str(b@) == Some(s@),
        r matches Err(e) ==> e == KVError::DecodingFailure,
{
    match serde_json::from_slice::<String>(b) {
        Ok(s) => Ok(s),
        Err(_) => Err(KVError::DecodingFailure),
    }
}

/// Relies on serde_json::to_vec for `i64`: the JSON text is a function of the
/// value alone, and serde_json::from_slice parses it back.
#[verifier::external_body]
pub fn encode_i64(n: i64) -> (r: Vec<u8>)
    ensures
        r@ == json_of_i64(n),
        json_to_i64(r@) == Some(n),
{
    serde_json::to_vec(&n).unwrap()
}

/// Relies on serde_json::from_slice for `i64`: the result depends on the
/// input bytes alone.
#[verifier::external_body]
pub fn decode_i64(b: &Vec<u8>) -> (r: Result<i64, KVError>)
    ensures
        r is Ok <==> json_to_i64(b@) is Some,
        r matches Ok(n) ==> json_to_i64(b@) == Some(n),
        r matches Err(e) ==> e == KVError::DecodingFailure,
{
    match serde_json::from_slice::<i64>(b) {
        Ok(n) => Ok(n),
        Err(_) => Err(KVError::DecodingFailure),
    }
}

/// Relies on serde_json::to_vec for `u64`: the JSON text is a function of the
/// value alone, and serde_json::from_slice parses it back.
#[verifier::external_body]
pub fn encode_u64(n: u64) -> (r: Vec<u8>)
    ensures
        r@ == json_of_u64(n),
        json_to_u64(r@) == Some(n),
{
    serde_json::to_vec(&n).unwrap()
}

/// Relies on serde_json::from_slice for `u64`: the result depends on the
/// input bytes alone.
#[verifier::external_body]
pub fn decode_u64(b: &Vec<u8>) -> (r: Result<u64, KVError>)
    ensures
        r is Ok <==> json_to_u64(b@) is Some,
        r matches Ok(n) ==> json_to_u64(b@) == Some(n),
        r matches Err(e) ==> e == KVError::DecodingFailure,
{
    match serde_json::from_slice::<u64>(b) {
        Ok(n) => Ok(n),
        Err(_) => Err(KVError::DecodingFailure),
    }
}

/// Relies on serde_json::to_vec for `bool`: a boolean is printed as the JSON
/// literal `true` or `false`.
#[verifier::external_body]
pub fn encode_bool(v: bool) -> (r: Vec<u8>)
    ensures
        r@ == (if v {
            seq![116u8, 114u8, 117u8, 101u8]
        } else {
            seq![102u8, 97u8, 108u8, 115u8, 101u8]
        }),
        json_to_bool(r@) == Some(v),
{
    serde_json::to_vec(&v).unwrap()
}

/// Relies on serde_json::from_slice for `bool`: the result depends on the
/// input bytes alone.
#[verifier::external_body]
pub fn decode_bool(b: &Vec<u8>) -> (r: Result<bool, KVError>)
    ensures
        r is Ok <==> json_to_bool(b@) is Some,
        r matches Ok(v) ==> json_to_bool(b@) == Some(v),
        r matches Err(e) ==> e == KVError::DecodingFailure,
{
    match serde_json::from_slice::<bool>(b) {
        Ok(v) => Ok(v),
        Err(_) => Err(KVError::DecodingFailure),
    }
}

/// Relies on serde_json::to_vec for `Vec<i64>`: the JSON array text is a
/// function of the elements alone, and serde_json::from_slice parses it back.
#[verifier::external_body]
pub fn encode_vec_i64(v: &Vec<i64>) -> (r: Vec<u8>)
    ensures
        r@ == json_of_vec_i64(v@),
        json_to_vec_i64(r@) == Some(v@),
{
    serde_json::to_vec(v).unwrap()
}

/// Relies on serde_json::from_slice for `Vec<i64>`: the result depends on the
/// input bytes alone.
#[verifier::external_body]
pub fn decode_vec_i64(b: &Vec<u8>) -> (r: Result<Vec<i64>, KVError>)
    ensures
        r is Ok <==> json_to_vec_i64(b@) is Some,
        r matches Ok(v) ==> json_to_vec_i64(b@) == Some(v@),
        r matches Err(e) ==> e == KVError::DecodingFailure,
{
    match serde_json::from_slice::<Vec<i64>>(b) {
        Ok(v) => Ok(v),
        Err(_) => Err(KVError::DecodingFailure),
    }
}

/// Relies on serde_json::Map, serde_json::Value and serde_json::to_vec: a
/// [`Record`] is printed as the JSON object holding its field under the key
/// `x`, a function of the field alone, and the decoder below parses it back.
#[verifier::external_body]
pub fn encode_record(r: &Record) -> (res: Vec<u8>)
    ensures
        res@ == json_of_record(r.x),
        json_to_record(res@) == Some(r.x),
{
    let mut m = serde_json::Map::new();
    m.insert("x".to_string(), serde_json::Value::from(r.x));
    serde_json::to_vec(&serde_json::Value::Object(m)).unwrap()
}

/// Relies on serde_json::from_slice for serde_json::Value together with
/// Value::get and Value::as_i64: the field recovered depends on the input
/// bytes alone.
#[verifier::external_body]
pub fn decode_record(b: &Vec<u8>) -> (r: Result<Record, KVError>)
    ensures
        r is Ok <==> json_to_record(b@) is Some,
        r matches Ok(rec) ==> json_to_record(b@) == Some(rec.x),
        r matches Err(e) ==> e == KVError::DecodingFailure,
{
    let v: serde_json::Value = match serde_json::from_slice(b) {
        Ok(v) => v,
        Err(_) => return Err(KVError::DecodingFailure),
    };
    match v.get("x").and_then(serde_json::Value::as_i64) {
        Some(n) => Ok(Record { x: n }),
        None => Err(KVError::DecodingFailure),
    }
}

/// Relies on i64's Display implementation through ToString: the decimal
/// rendering of the value, a function of the value alone.
#[verifier::external_body]
pub fn int_to_string(n: i64) -> (r: String)
    ensures
        r@ == decimal_of(n),
{
    n.to_string()
}

} // verus!
