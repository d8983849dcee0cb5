//! Key digest: an encoded key is located on disk through the SHA-256 digest
//! of its bytes, rendered as lowercase hexadecimal. The digest is computed by
//! an outside crate; the engine only relies on it being a fixed-length,
//! file-name-safe function of the input bytes.

use vstd::prelude::*;

verus! {

/// The SHA-256 digest of the given bytes, as 64 lowercase hex characters
/// (one byte per character).
pub uninterp spec fn sha256_hex_of(data: Seq<u8>) -> Seq<u8>;

/// True when the byte is an ASCII lowercase hexadecimal digit.
pub open spec fn is_hex_byte(b: u8) -> bool {
    (48 <= b <= 57) || (97 <= b <= 102)
}

/// Relies on sha256::digest: the SHA-256 digest of the input bytes as a
/// 64-character lowercase hexadecimal string, a function of the input alone.
#[verifier::external_body]
pub fn sha256_hex(data: &Vec<u8>) -> (r: Vec<u8>)
    ensures
        r@ == sha256_hex_of(data@),
        r@.len() == 64,
        forall|i: int| 0 <= i < r@.len() ==> is_hex_byte(r@[i]),
{
    sha256::digest(data).into_bytes()
}

} // verus!
