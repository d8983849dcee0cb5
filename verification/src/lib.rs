//! A file-system-backed, hash-sharded key-value store.
//!
//! The engine keeps an in-memory mirror of the directory subtree that backs
//! the store and decides every operation against that mirror; each mutating
//! operation hands back the list of file-system actions that realises it on
//! disk, so an unverified shell can apply them with ordinary I/O.

use vstd::prelude::*;

pub mod bytes;
pub mod mirror;
pub mod codec;
pub mod digest;
pub mod scan;
pub mod scenarios;
pub mod store;
pub mod store2;

pub use crate::codec::Record;
pub use crate::scan::ScanFile;
pub use crate::store::{FsAction, KVStore};
pub use crate::store2::{KVStore2, TypeToStr};

verus! {

/// The error kinds an operation of the store or of the codec can surface.
#[derive(Debug, Clone, Copy, PartialEq, Eq, Structural)]
pub enum KVError {
    /// A file or directory operation failed underneath the engine.
    IoFailure,
    /// An insert found a key file for the same digest already present.
    AlreadyExists,
    /// A lookup or a remove found no value file for the digest.
    NotFound,
    /// A key or value could not be encoded. The encoders this crate ships
    /// cannot fail, so the store's own operations never surface it; it
    /// completes the codec's error taxonomy for codecs that can.
    EncodingFailure,
    /// Stored bytes could not be decoded back into the requested type.
    DecodingFailure,
}

} // verus!
