//! A second flavour of the store that names its shard directories by the
//! first nine digest characters instead of ten, together with the small
//! naming trait both flavours implement. Everything else — layout, contracts,
//! and actions — is the engine of [`KVStore`].

use vstd::prelude::*;

use crate::KVError;
use crate::scan::{ScanFile, distinct_scan, scan_has, scan_has_dir, scan_key_count};
use crate::store::{FsAction, KVStore, insert_actions, insert_ok, remove_actions, remove_ok};

verus! {

/// Names the concrete flavour of a store.
pub trait TypeToStr {
    fn get_type(&self) -> String;
}

impl TypeToStr for KVStore {
    fn get_type(&self) -> String {
        "KVStore".to_owned()
    }
}

/// A struct that represents a key-value store; it differs from [`KVStore`]
/// only in its shard-prefix length.
pub struct KVStore2 {
    store: KVStore,
}

impl TypeToStr for KVStore2 {
    fn get_type(&self) -> String {
        "KVStore2".to_owned()
    }
}

impl KVStore2 {
    /// The engine under this flavour; its spec functions say everything about
    /// this store's state.
    pub closed spec fn s(&self) -> KVStore {
        self.store
    }

    /// Initializes a store over the directory at `path` from one recursive
    /// scan of it, exactly as [`KVStore::new`] does, with a nine-character
    /// shard prefix.
    pub fn new(path: &str, listing: &Vec<ScanFile>) -> (r: KVStore2)
        requires
            distinct_scan(listing@),
        ensures
            r.s().wf(),
            r.s().root_spec() == path@,
            r.s().prefix_len_spec() == 9,
            r.s().size_spec() == scan_key_count(listing@),
            forall|d: Seq<u8>, n: Seq<u8>| #[trigger]
                r.s().has_file(d, n) <==> scan_has(listing@, d, n),
            forall|k: int|
                0 <= k < listing@.len() ==> #[trigger] r.s().file_data(
                    listing@[k].dir@,
                    listing@[k].name@,
                ) == listing@[k].data@,
            forall|d: Seq<u8>| #[trigger] r.s().has_dir(d) <==> scan_has_dir(listing@, d),
    {
        KVStore2 { store: KVStore::with_prefix_len(path, 9, listing) }
    }

    /// The number of key-value mappings currently stored.
    pub fn size(&self) -> (r: usize)
        ensures
            r as int == self.s().size_spec(),
    {
        self.store.size()
    }

    /// Inserts a new key-value mapping; see [`KVStore::insert`].
    pub fn insert(&mut self, key: &Vec<u8>, value: &Vec<u8>) -> (r: Result<Vec<FsAction>, KVError>)
        requires
            old(self).s().wf(),
            old(self).s().size_spec() < usize::MAX,
        ensures
            final (self).s().wf(),
            match r {
                Ok(acts) => insert_ok(old(self).s(), final (self).s(), key@, value@)
                    && insert_actions(old(self).s(), key@, value@, acts@),
                Err(e) => Some(e) == old(self).s().insert_err_spec(key@) && final (self).s() == old(
                    self,
                ).s(),
            },
            r is Err <==> old(self).s().insert_err_spec(key@) is Some,
    {
        self.store.insert(key, value)
    }

    /// Returns a previously inserted value; see [`KVStore::lookup`].
    pub fn lookup(&self, key: &Vec<u8>) -> (r: Result<Vec<u8>, KVError>)
        requires
            self.s().wf(),
        ensures
            match r {
                Ok(v) => self.s().contains_value_file(key@) && v@ == self.s().value_of(key@),
                Err(e) => !self.s().contains_value_file(key@) && e == KVError::NotFound,
            },
            r is Ok <==> self.s().lookup_spec(key@) is Ok,
    {
        self.store.lookup(key)
    }

    /// Removes a previously inserted mapping; see [`KVStore::remove`].
    pub fn remove(&mut self, key: &Vec<u8>) -> (r: Result<(Vec<u8>, Vec<FsAction>), KVError>)
        requires
            old(self).s().wf(),
        ensures
            final (self).s().wf(),
            match r {
                Ok(p) => {
                    &&& p.0@ == old(self).s().value_of(key@)
                    &&& remove_ok(old(self).s(), final (self).s(), key@)
                    &&& remove_actions(old(self).s(), key@, p.1@)
                },
                Err(e) => Some(e) == old(self).s().remove_err_spec(key@) && final (self).s() == old(
                    self,
                ).s(),
            },
            r is Err <==> old(self).s().remove_err_spec(key@) is Some,
    {
        self.store.remove(key)
    }
}

} // verus!
