//! The store: a file-system-backed, hash-sharded key-value engine.
//!
//! Every mapping is persisted as a pair of sibling files, located through the
//! SHA-256 digest of the encoded key: `<dir>/<digest>.key` holds the encoded
//! key and `<dir>/<digest>.value` the encoded value, where `<dir>` is named
//! by a fixed-length prefix of the digest. The engine decides every operation
//! against its in-memory mirror of that subtree and hands back the list of
//! file-system actions that realises the operation on disk; an unverified
//! shell applies them with ordinary I/O and, on open, feeds the engine one
//! recursive scan of the root directory.

use vstd::prelude::*;

use crate::KVError;
use crate::bytes::{clone_bytes, concat_bytes, prefix_bytes};
use crate::digest::{sha256_hex, sha256_hex_of};
use crate::mirror::{
    Shard,
    find_file,
    find_shard,
    lemma_dir_at_is,
    lemma_name_at_is,
    lemma_total_nonneg,
    mirror_data,
    mirror_dir_count,
    mirror_drop,
    mirror_has,
    mirror_has_dir,
    mirror_put,
    mirror_wf,
    total_key_count,
};
use crate::scan::{
    ScanFile,
    count_keys,
    distinct_scan,
    is_key_name,
    is_value_name,
    key_suffix,
    key_suffix_vec,
    scan_has,
    scan_has_dir,
    scan_key_count,
    value_suffix,
    value_suffix_vec,
};

verus! {

/// The name of the key file of a digest.
pub open spec fn key_name(digest: Seq<u8>) -> Seq<u8> {
    digest + key_suffix()
}

/// The name of the value file of a digest.
pub open spec fn value_name(digest: Seq<u8>) -> Seq<u8> {
    digest + value_suffix()
}

/// The two file names of one digest never collide, and only the `.key` one
/// counts as a key file.
pub proof fn lemma_entry_names(d: Seq<u8>)
    ensures
        key_name(d) != value_name(d),
        is_key_name(key_name(d)),
        !is_key_name(value_name(d)),
        is_value_name(value_name(d)),
{
    let kn = key_name(d);
    let vn = value_name(d);
    assert(kn.len() == d.len() + 4);
    assert(vn.len() == d.len() + 6);
    assert(kn.skip(kn.len() - 4) =~= key_suffix());
    assert(vn.skip(vn.len() - 6) =~= value_suffix());
    if is_key_name(vn) {
        assert(vn.skip(vn.len() - 4)[0] == vn[vn.len() - 4]);
        assert(vn[vn.len() - 4] == value_suffix()[2]);
        assert(key_suffix()[0] == 46u8);
        assert(value_suffix()[2] == 97u8);
        assert(false);
    }
}

/// One file-system edit the engine asks its caller to apply on disk. All
/// paths are relative to the store's root directory.
#[derive(Debug)]
pub enum FsAction {
    /// Create the shard directory.
    CreateDir { dir: Vec<u8> },
    /// Write a file with the given contents, replacing any previous one.
    WriteFile { dir: Vec<u8>, name: Vec<u8>, data: Vec<u8> },
    /// Delete a file.
    RemoveFile { dir: Vec<u8>, name: Vec<u8> },
    /// Delete the now-empty shard directory.
    RemoveDir { dir: Vec<u8> },
}

pub open spec fn is_create_dir(a: FsAction, dir: Seq<u8>) -> bool {
    a matches FsAction::CreateDir { dir: d } && d@ == dir
}

pub open spec fn is_write_file(a: FsAction, dir: Seq<u8>, name: Seq<u8>, data: Seq<u8>) -> bool {
    a matches FsAction::WriteFile { dir: d, name: n, data: c } && d@ == dir && n@ == name && c@
        == data
}

pub open spec fn is_remove_file(a: FsAction, dir: Seq<u8>, name: Seq<u8>) -> bool {
    a matches FsAction::RemoveFile { dir: d, name: n } && d@ == dir && n@ == name
}

pub open spec fn is_remove_dir(a: FsAction, dir: Seq<u8>) -> bool {
    a matches FsAction::RemoveDir { dir: d } && d@ == dir
}

/// A struct that represents a key-value store.
pub struct KVStore {
    /// The number of key-value mappings currently stored.
    size: usize,
    /// The location of the file system where key-value mappings are stored.
    path: String,
    /// How many leading digest characters name a shard directory.
    prefix_len: usize,
    /// The mirror of the on-disk subtree under `path`.
    shards: Vec<Shard>,
}

impl KVStore {
    /// Well-formedness: the mirror is well-formed and `size` equals the
    /// number of `.key` files it holds.
    pub closed spec fn wf(&self) -> bool {
        &&& mirror_wf(self.shards@)
        &&& self.size as int == total_key_count(self.shards@)
        &&& 1 <= self.prefix_len <= 64
    }

    /// The number of live mappings.
    pub closed spec fn size_spec(&self) -> int {
        self.size as int
    }

    /// The store's root directory.
    pub closed spec fn root_spec(&self) -> Seq<char> {
        self.path@
    }

    /// The configured shard-prefix length.
    pub closed spec fn prefix_len_spec(&self) -> int {
        self.prefix_len as int
    }

    /// True when the mirrored subtree holds that directory.
    pub closed spec fn has_dir(&self, dir: Seq<u8>) -> bool {
        mirror_has_dir(self.shards@, dir)
    }

    /// True when the mirrored subtree holds that file.
    pub closed spec fn has_file(&self, dir: Seq<u8>, name: Seq<u8>) -> bool {
        mirror_has(self.shards@, dir, name)
    }

    /// The contents of that file.
    pub closed spec fn file_data(&self, dir: Seq<u8>, name: Seq<u8>) -> Seq<u8> {
        mirror_data(self.shards@, dir, name)
    }

    /// How many files that directory holds; zero when it is absent.
    pub closed spec fn dir_file_count(&self, dir: Seq<u8>) -> int {
        mirror_dir_count(self.shards@, dir)
    }

    /// The shard directory an encoded key is filed under.
    pub open spec fn shard_dir_of(&self, key: Seq<u8>) -> Seq<u8> {
        sha256_hex_of(key).take(self.prefix_len_spec())
    }

    /// True when the key file for this encoded key exists.
    pub open spec fn contains_key_file(&self, key: Seq<u8>) -> bool {
        self.has_file(self.shard_dir_of(key), key_name(sha256_hex_of(key)))
    }

    /// True when the value file for this encoded key exists.
    pub open spec fn contains_value_file(&self, key: Seq<u8>) -> bool {
        self.has_file(self.shard_dir_of(key), value_name(sha256_hex_of(key)))
    }

    /// The stored encoded value of this encoded key.
    pub open spec fn value_of(&self, key: Seq<u8>) -> Seq<u8> {
        self.file_data(self.shard_dir_of(key), value_name(sha256_hex_of(key)))
    }

    /// What a lookup of this encoded key returns.
    pub open spec fn lookup_spec(&self, key: Seq<u8>) -> Result<Seq<u8>, KVError> {
        if self.contains_value_file(key) {
            Ok(self.value_of(key))
        } else {
            Err(KVError::NotFound)
        }
    }

    /// The error an insert of this encoded key fails with, if any.
    pub open spec fn insert_err_spec(&self, key: Seq<u8>) -> Option<KVError> {
        if self.contains_key_file(key) {
            Some(KVError::AlreadyExists)
        } else {
            None
        }
    }

    /// The error a remove of this encoded key fails with, if any: no value
    /// file means the mapping is absent, and a value file without its key
    /// sibling makes the key-file deletion fail.
    pub open spec fn remove_err_spec(&self, key: Seq<u8>) -> Option<KVError> {
        if !self.contains_value_file(key) {
            Some(KVError::NotFound)
        } else if !self.contains_key_file(key) {
            Some(KVError::IoFailure)
        } else {
            None
        }
    }
}

/// What a successful insert of `key` with `value` does to a store: both entry
/// files now exist with the encoded key and value as contents, the size grew
/// by exactly one, and nothing else changed.
pub open spec fn insert_ok(pre: KVStore, post: KVStore, key: Seq<u8>, value: Seq<u8>) -> bool {
    let dir = pre.shard_dir_of(key);
    let kn = key_name(sha256_hex_of(key));
    let vn = value_name(sha256_hex_of(key));
    &&& pre.insert_err_spec(key) is None
    &&& post.wf()
    &&& post.root_spec() == pre.root_spec()
    &&& post.prefix_len_spec() == pre.prefix_len_spec()
    &&& post.size_spec() == pre.size_spec() + 1
    &&& post.has_file(dir, kn)
    &&& post.file_data(dir, kn) == key
    &&& post.has_file(dir, vn)
    &&& post.file_data(dir, vn) == value
    &&& forall|d: Seq<u8>, n: Seq<u8>|
        !(d == dir && (n == kn || n == vn)) ==> (#[trigger] post.has_file(d, n) <==> pre.has_file(
            d,
            n,
        ))
    &&& forall|d: Seq<u8>, n: Seq<u8>|
        pre.has_file(d, n) && !(d == dir && (n == kn || n == vn)) ==> #[trigger] post.file_data(
            d,
            n,
        ) == pre.file_data(d, n)
    &&& forall|d: Seq<u8>| #[trigger] post.has_dir(d) <==> pre.has_dir(d) || d == dir
}

/// What a successful remove of `key` does to a store: both entry files are
/// gone, the size shrank by exactly one, the shard directory is gone exactly
/// when the pair was all it held, and nothing else changed.
pub open spec fn remove_ok(pre: KVStore, post: KVStore, key: Seq<u8>) -> bool {
    let dir = pre.shard_dir_of(key);
    let kn = key_name(sha256_hex_of(key));
    let vn = value_name(sha256_hex_of(key));
    &&& pre.remove_err_spec(key) is None
    &&& post.wf()
    &&& post.root_spec() == pre.root_spec()
    &&& post.prefix_len_spec() == pre.prefix_len_spec()
    &&& post.size_spec() == pre.size_spec() - 1
    &&& !post.has_file(dir, kn)
    &&& !post.has_file(dir, vn)
    &&& forall|d: Seq<u8>, n: Seq<u8>|
        !(d == dir && (n == kn || n == vn)) ==> (#[trigger] post.has_file(d, n) <==> pre.has_file(
            d,
            n,
        ))
    &&& forall|d: Seq<u8>, n: Seq<u8>|
        post.has_file(d, n) ==> #[trigger] post.file_data(d, n) == pre.file_data(d, n)
    &&& (post.has_dir(dir) <==> pre.dir_file_count(dir) > 2)
    &&& forall|d: Seq<u8>| d != dir ==> (#[trigger] post.has_dir(d) <==> pre.has_dir(d))
}

/// The actions a successful insert hands back: the shard directory is created
/// when it did not exist, then the key file and the value file are written.
pub open spec fn insert_actions(
    pre: KVStore,
    key: Seq<u8>,
    value: Seq<u8>,
    acts: Seq<FsAction>,
) -> bool {
    let dir = pre.shard_dir_of(key);
    let kn = key_name(sha256_hex_of(key));
    let vn = value_name(sha256_hex_of(key));
    if pre.has_dir(dir) {
        &&& acts.len() == 2
        &&& is_write_file(acts[0], dir, kn, key)
        &&& is_write_file(acts[1], dir, vn, value)
    } else {
        &&& acts.len() == 3
        &&& is_create_dir(acts[0], dir)
        &&& is_write_file(acts[1], dir, kn, key)
        &&& is_write_file(acts[2], dir, vn, value)
    }
}

/// The actions a successful remove hands back: both entry files are deleted,
/// and the shard directory too when the pair was all it held.
pub open spec fn remove_actions(pre: KVStore, key: Seq<u8>, acts: Seq<FsAction>) -> bool {
    let dir = pre.shard_dir_of(key);
    let kn = key_name(sha256_hex_of(key));
    let vn = value_name(sha256_hex_of(key));
    if pre.dir_file_count(dir) == 2 {
        &&& acts.len() == 3
        &&& is_remove_file(acts[0], dir, kn)
        &&& is_remove_file(acts[1], dir, vn)
        &&& is_remove_dir(acts[2], dir)
    } else {
        &&& acts.len() == 2
        &&& is_remove_file(acts[0], dir, kn)
        &&& is_remove_file(acts[1], dir, vn)
    }
}

impl KVStore {
    /// Builds a store over the given root from one recursive scan of it, with
    /// the given shard-prefix length.
    pub(crate) fn with_prefix_len(path: &str, prefix_len: usize, listing: &Vec<ScanFile>) -> (r:
        KVStore)
        requires
            1 <= prefix_len <= 64,
            distinct_scan(listing@),
        ensures
            r.wf(),
            r.root_spec() == path@,
            r.prefix_len_spec() == prefix_len as int,
            r.size_spec() == scan_key_count(listing@),
            forall|d: Seq<u8>, n: Seq<u8>| #[trigger]
                r.has_file(d, n) <==> scan_has(listing@, d, n),
            forall|k: int|
                0 <= k < listing@.len() ==> #[trigger] r.file_data(
                    listing@[k].dir@,
                    listing@[k].name@,
                ) == listing@[k].data@,
            forall|d: Seq<u8>| #[trigger] r.has_dir(d) <==> scan_has_dir(listing@, d),
    {
        let size = count_keys(listing);
        let mut shards: Vec<Shard> = Vec::new();
        let mut i: usize = 0;
        while i < listing.len()
            invariant
                i <= listing.len(),
                distinct_scan(listing@),
                mirror_wf(shards@),
                total_key_count(shards@) == scan_key_count(listing@.take(i as int)),
                forall|d: Seq<u8>, n: Seq<u8>| #[trigger]
                    mirror_has(shards@, d, n) <==> scan_has(listing@.take(i as int), d, n),
                forall|k: int|
                    0 <= k < i ==> #[trigger] mirror_data(
                        shards@,
                        listing@[k].dir@,
                        listing@[k].name@,
                    ) == listing@[k].data@,
                forall|d: Seq<u8>| #[trigger]
                    mirror_has_dir(shards@, d) <==> scan_has_dir(listing@.take(i as int), d),
            decreases listing.len() - i,
        {
            let ghost pre = shards@;
            let ghost ii = i as int;
            let f = &listing[i];
            let name = clone_bytes(&f.name);
            let data = clone_bytes(&f.data);
            proof {
                assert(!scan_has(listing@.take(ii), f.dir@, f.name@)) by {
                    if scan_has(listing@.take(ii), f.dir@, f.name@) {
                        let k = choose|k: int|
                            #![trigger listing@.take(ii)[k]]
                            0 <= k < listing@.take(ii).len() && listing@.take(ii)[k].dir@ == f.dir@
                                && listing@.take(ii)[k].name@ == f.name@;
                        assert(listing@[k].dir@ == listing@[ii].dir@ && listing@[k].name@
                            == listing@[ii].name@);
                        assert(false);
                    }
                }
                assert(listing@.take(ii + 1).drop_last() =~= listing@.take(ii));
                assert(listing@.take(ii + 1).last() == listing@[ii]);
            }
            mirror_put(&mut shards, &f.dir, name, data);
            proof {
                assert forall|d: Seq<u8>, n: Seq<u8>| #[trigger]
                    mirror_has(shards@, d, n) <==> scan_has(listing@.take(ii + 1), d, n) by {
                    if scan_has(listing@.take(ii + 1), d, n) {
                        let k = choose|k: int|
                            #![trigger listing@.take(ii + 1)[k]]
                            0 <= k < listing@.take(ii + 1).len() && listing@.take(ii + 1)[k].dir@
                                == d && listing@.take(ii + 1)[k].name@ == n;
                        if k < ii {
                            assert(scan_has(listing@.take(ii), d, n)) by {
                                assert(listing@.take(ii)[k].dir@ == d && listing@.take(ii)[k].name@
                                    == n);
                            }
                        } else {
                            assert(d == f.dir@ && n == f.name@);
                        }
                    }
                    if mirror_has(shards@, d, n) {
                        if mirror_has(pre, d, n) {
                            let k = choose|k: int|
                                #![trigger listing@.take(ii)[k]]
                                0 <= k < listing@.take(ii).len() && listing@.take(ii)[k].dir@ == d
                                    && listing@.take(ii)[k].name@ == n;
                            assert(listing@.take(ii + 1)[k].dir@ == d && listing@.take(
                                ii + 1,
                            )[k].name@ == n);
                        } else {
                            assert(listing@.take(ii + 1)[ii].dir@ == d && listing@.take(
                                ii + 1,
                            )[ii].name@ == n);
                        }
                    }
                }
                assert forall|d: Seq<u8>| #[trigger]
                    mirror_has_dir(shards@, d) <==> scan_has_dir(listing@.take(ii + 1), d) by {
                    if scan_has_dir(listing@.take(ii + 1), d) {
                        let k = choose|k: int|
                            #![trigger listing@.take(ii + 1)[k]]
                            0 <= k < listing@.take(ii + 1).len() && listing@.take(ii + 1)[k].dir@
                                == d;
                        if k < ii {
                            assert(scan_has_dir(listing@.take(ii), d)) by {
                                assert(listing@.take(ii)[k].dir@ == d);
                            }
                        } else {
                            assert(d == f.dir@);
                        }
                    }
                    if mirror_has_dir(shards@, d) {
                        if mirror_has_dir(pre, d) {
                            let k = choose|k: int|
                                #![trigger listing@.take(ii)[k]]
                                0 <= k < listing@.take(ii).len() && listing@.take(ii)[k].dir@ == d;
                            assert(listing@.take(ii + 1)[k].dir@ == d);
                        } else {
                            assert(listing@.take(ii + 1)[ii].dir@ == d);
                        }
                    }
                }
                assert forall|k: int| 0 <= k < ii + 1 implies #[trigger] mirror_data(
                    shards@,
                    listing@[k].dir@,
                    listing@[k].name@,
                ) == listing@[k].data@ by {
                    if k < ii {
                        if listing@[k].dir@ == f.dir@ && listing@[k].name@ == f.name@ {
                            assert(false);
                        }
                        assert(mirror_has(pre, listing@[k].dir@, listing@[k].name@)) by {
                            assert(listing@.take(ii)[k].dir@ == listing@[k].dir@ && listing@.take(
                                ii,
                            )[k].name@ == listing@[k].name@);
                        }
                    }
                }
            }
            i += 1;
        }
        proof {
            assert(listing@.take(listing@.len() as int) =~= listing@);
        }
        KVStore { size, path: path.to_owned(), prefix_len, shards }
    }

    /// Initializes a store over the directory at `path` from one recursive
    /// scan of it: an empty or freshly created directory yields size zero,
    /// and a directory already holding entries yields their count. The caller
    /// is expected to have created the directory and produced the scan; the
    /// listing of one real walk names no file twice.
    pub fn new(path: &str, listing: &Vec<ScanFile>) -> (r: KVStore)
        requires
            distinct_scan(listing@),
        ensures
            r.wf(),
            r.root_spec() == path@,
            r.prefix_len_spec() == 10,
            r.size_spec() == scan_key_count(listing@),
            forall|d: Seq<u8>, n: Seq<u8>| #[trigger]
                r.has_file(d, n) <==> scan_has(listing@, d, n),
            forall|k: int|
                0 <= k < listing@.len() ==> #[trigger] r.file_data(
                    listing@[k].dir@,
                    listing@[k].name@,
                ) == listing@[k].data@,
            forall|d: Seq<u8>| #[trigger] r.has_dir(d) <==> scan_has_dir(listing@, d),
    {
        Self::with_prefix_len(path, 10, listing)
    }

    /// The number of key-value mappings currently stored; never touches the
    /// mirror, let alone the disk.
    pub fn size(&self) -> (r: usize)
        ensures
            r as int == self.size_spec(),
    {
        self.size
    }

    /// The store's root directory, as it was given at construction.
    pub fn root(&self) -> (r: &String)
        ensures
            r@ == self.root_spec(),
    {
        &self.path
    }

    /// Inserts a new key-value mapping, both already encoded. Fails with
    /// `AlreadyExists` when a key file for the same digest is present, and
    /// otherwise writes the entry pair and grows the size by one. The actions
    /// returned realise the insert on disk.
    pub fn insert(&mut self, key: &Vec<u8>, value: &Vec<u8>) -> (r: Result<Vec<FsAction>, KVError>)
        requires
            old(self).wf(),
            old(self).size_spec() < usize::MAX,
        ensures
            final (self).wf(),
            match r {
                Ok(acts) => insert_ok(*old(self), *final (self), key@, value@) && insert_actions(
                    *old(self),
                    key@,
                    value@,
                    acts@,
                ),
                Err(e) => Some(e) == old(self).insert_err_spec(key@) && *final (self) == *old(
                    self,
                ),
            },
            r is Err <==> old(self).insert_err_spec(key@) is Some,
    {
        let ghost pre = self.shards@;
        let digest = sha256_hex(key);
        let dir = prefix_bytes(&digest, self.prefix_len);
        let ksuf = key_suffix_vec();
        let vsuf = value_suffix_vec();
        let kname = concat_bytes(&digest, &ksuf);
        let vname = concat_bytes(&digest, &vsuf);
        proof {
            lemma_entry_names(digest@);
        }
        let shard_idx = find_shard(&self.shards, &dir);
        let exists_key = match shard_idx {
            Some(si) => {
                proof {
                    lemma_dir_at_is(pre, si as int);
                }
                find_file(&self.shards[si].files, &kname).is_some()
            },
            None => false,
        };
        proof {
            assert(exists_key <==> old(self).contains_key_file(key@));
        }
        if exists_key {
            return Err(KVError::AlreadyExists);
        }
        let mut acts: Vec<FsAction> = Vec::new();
        if shard_idx.is_none() {
            acts.push(FsAction::CreateDir { dir: clone_bytes(&dir) });
        }
        acts.push(
            FsAction::WriteFile {
                dir: clone_bytes(&dir),
                name: clone_bytes(&kname),
                data: clone_bytes(key),
            },
        );
        acts.push(
            FsAction::WriteFile {
                dir: clone_bytes(&dir),
                name: clone_bytes(&vname),
                data: clone_bytes(value),
            },
        );
        let ghost kn = kname@;
        let ghost vn = vname@;
        mirror_put(&mut self.shards, &dir, kname, clone_bytes(key));
        let ghost mid = self.shards@;
        mirror_put(&mut self.shards, &dir, vname, clone_bytes(value));
        self.size = self.size + 1;
        proof {
            let post = self.shards@;
            assert(total_key_count(post) == total_key_count(pre) + 1);
            assert forall|d: Seq<u8>, n: Seq<u8>| !(d == dir@ && (n == kn || n == vn)) implies (
            #[trigger] mirror_has(post, d, n) <==> mirror_has(pre, d, n)) by {}
            assert forall|d: Seq<u8>, n: Seq<u8>|
                mirror_has(pre, d, n) && !(d == dir@ && (n == kn || n == vn)) implies #[trigger]
                mirror_data(post, d, n) == mirror_data(pre, d, n) by {
                assert(mirror_has(mid, d, n));
                assert(mirror_data(mid, d, n) == mirror_data(pre, d, n));
            }
            assert(mirror_has(post, dir@, kn));
            assert(mirror_data(post, dir@, kn) == key@) by {
                assert(mirror_data(mid, dir@, kn) == key@);
                assert(mirror_has(mid, dir@, kn));
            }
            assert(mirror_has(post, dir@, vn) && mirror_data(post, dir@, vn) == value@);
            assert(insert_ok(*old(self), *self, key@, value@));
            assert(insert_actions(*old(self), key@, value@, acts@));
        }
        Ok(acts)
    }

    /// Returns the stored encoded value of the encoded key. Fails with
    /// `NotFound` when no value file for the digest exists; reads nothing
    /// else and changes nothing.
    pub fn lookup(&self, key: &Vec<u8>) -> (r: Result<Vec<u8>, KVError>)
        requires
            self.wf(),
        ensures
            match r {
                Ok(v) => self.contains_value_file(key@) && v@ == self.value_of(key@),
                Err(e) => !self.contains_value_file(key@) && e == KVError::NotFound,
            },
            r is Ok <==> self.lookup_spec(key@) is Ok,
    {
        let digest = sha256_hex(key);
        let dir = prefix_bytes(&digest, self.prefix_len);
        let vsuf = value_suffix_vec();
        let vname = concat_bytes(&digest, &vsuf);
        match find_shard(&self.shards, &dir) {
            None => Err(KVError::NotFound),
            Some(si) => {
                proof {
                    lemma_dir_at_is(self.shards@, si as int);
                }
                match find_file(&self.shards[si].files, &vname) {
                    None => Err(KVError::NotFound),
                    Some(fi) => {
                        proof {
                            lemma_name_at_is(self.shards@[si as int].files@, fi as int);
                        }
                        Ok(clone_bytes(&self.shards[si].files[fi].data))
                    },
                }
            },
        }
    }

    /// Removes a previously inserted mapping and returns its stored encoded
    /// value. Fails with `NotFound` when no value file for the digest exists,
    /// and with `IoFailure` when the value file is present but its key
    /// sibling is not, so that deleting the pair cannot succeed. On success
    /// both files leave the mirror, the size shrinks by one, and the shard
    /// directory is dropped when the pair was all it held. The actions
    /// returned realise the remove on disk.
    pub fn remove(&mut self, key: &Vec<u8>) -> (r: Result<(Vec<u8>, Vec<FsAction>), KVError>)
        requires
            old(self).wf(),
        ensures
            final (self).wf(),
            match r {
                Ok(p) => {
                    &&& p.0@ == old(self).value_of(key@)
                    &&& remove_ok(*old(self), *final (self), key@)
                    &&& remove_actions(*old(self), key@, p.1@)
                },
                Err(e) => Some(e) == old(self).remove_err_spec(key@) && *final (self) == *old(
                    self,
                ),
            },
            r is Err <==> old(self).remove_err_spec(key@) is Some,
    {
        let ghost pre = self.shards@;
        let digest = sha256_hex(key);
        let dir = prefix_bytes(&digest, self.prefix_len);
        let ksuf = key_suffix_vec();
        let vsuf = value_suffix_vec();
        let kname = concat_bytes(&digest, &ksuf);
        let vname = concat_bytes(&digest, &vsuf);
        proof {
            lemma_entry_names(digest@);
        }
        let si = match find_shard(&self.shards, &dir) {
            None => {
                return Err(KVError::NotFound);
            },
            Some(si) => si,
        };
        proof {
            lemma_dir_at_is(pre, si as int);
        }
        let vi = match find_file(&self.shards[si].files, &vname) {
            None => {
                return Err(KVError::NotFound);
            },
            Some(vi) => vi,
        };
        proof {
            lemma_name_at_is(pre[si as int].files@, vi as int);
        }
        let value = clone_bytes(&self.shards[si].files[vi].data);
        let ki = find_file(&self.shards[si].files, &kname);
        if ki.is_none() {
            return Err(KVError::IoFailure);
        }
        let last_pair = self.shards[si].files.len() == 2;
        let mut acts: Vec<FsAction> = Vec::new();
        acts.push(FsAction::RemoveFile { dir: clone_bytes(&dir), name: clone_bytes(&kname) });
        acts.push(FsAction::RemoveFile { dir: clone_bytes(&dir), name: clone_bytes(&vname) });
        if last_pair {
            acts.push(FsAction::RemoveDir { dir: clone_bytes(&dir) });
        }
        proof {
            // the key and value files are two distinct files of the shard
            assert(mirror_dir_count(pre, dir@) == pre[si as int].files@.len());
            let j = choose|j: int|
                0 <= j < pre[si as int].files@.len() && pre[si as int].files@[j].name@ == kname@;
            assert(j != vi as int);
            assert(pre[si as int].files@.len() >= 2);
        }
        mirror_drop(&mut self.shards, &dir, &kname);
        let ghost mid = self.shards@;
        proof {
            assert(mirror_has(mid, dir@, vname@));
        }
        mirror_drop(&mut self.shards, &dir, &vname);
        proof {
            lemma_total_nonneg(self.shards@);
            assert(self.size >= 1);
        }
        self.size = self.size - 1;
        proof {
            let post = self.shards@;
            assert forall|d: Seq<u8>, n: Seq<u8>| !(d == dir@ && (n == kname@ || n == vname@))
                implies (#[trigger] mirror_has(post, d, n) <==> mirror_has(pre, d, n)) by {}
            assert forall|d: Seq<u8>, n: Seq<u8>| mirror_has(post, d, n) implies #[trigger]
                mirror_data(post, d, n) == mirror_data(pre, d, n) by {
                assert(mirror_has(mid, d, n));
            }
            assert(mirror_dir_count(pre, dir@) >= 2);
            assert(mirror_has_dir(post, dir@) <==> mirror_dir_count(pre, dir@) > 2) by {
                assert(mirror_dir_count(mid, dir@) == mirror_dir_count(pre, dir@) - 1);
                assert(mirror_has_dir(mid, dir@));
            }
            assert forall|d: Seq<u8>| d != dir@ implies (#[trigger] mirror_has_dir(post, d)
                <==> mirror_has_dir(pre, d)) by {}
            assert(remove_ok(*old(self), *self, key@));
            assert(remove_actions(*old(self), key@, acts@));
        }
        Ok((value, acts))
    }
}

/// Round trip: after a successful insert of a key with a value, a lookup of
/// the same key is owed, and it returns exactly the value bytes that were
/// inserted.
pub proof fn lemma_round_trip(pre: KVStore, post: KVStore, key: Seq<u8>, value: Seq<u8>)
    requires
        insert_ok(pre, post, key, value),
    ensures
        post.lookup_spec(key) matches Ok(v) && v == value,
{
}

/// No duplicate keys: after a successful insert of a key, a second insert of
/// the same key must fail with `AlreadyExists` — and, by insert's contract, a
/// failing insert leaves the store and its size unchanged.
pub proof fn lemma_no_duplicate(pre: KVStore, post: KVStore, key: Seq<u8>, value: Seq<u8>)
    requires
        insert_ok(pre, post, key, value),
    ensures
        post.insert_err_spec(key) == Some(KVError::AlreadyExists),
{
}

/// Not-found symmetry: on a key whose value file is absent — as for any key
/// never successfully inserted — lookup and remove both fail with `NotFound`.
pub proof fn lemma_not_found_symmetry(s: KVStore, key: Seq<u8>)
    requires
        !s.contains_value_file(key),
    ensures
        s.lookup_spec(key) matches Err(e) && e == KVError::NotFound,
        s.remove_err_spec(key) == Some(KVError::NotFound),
{
}

/// Idempotent reopen: a scan that lists exactly the files of a store, each
/// once — as one walk of a real directory tree does — counts exactly `size`
/// key files, so the store a fresh open builds from that scan reconstructs
/// the same size.
pub proof fn lemma_reopen_size(s: KVStore, l: Seq<ScanFile>)
    requires
        s.wf(),
        distinct_scan(l),
        forall|d: Seq<u8>, n: Seq<u8>| #[trigger] scan_has(l, d, n) <==> s.has_file(d, n),
    ensures
        scan_key_count(l) == s.size_spec(),
{
    crate::scan::lemma_scan_key_count_is_card(l);
    crate::mirror::lemma_total_is_card(s.shards@);
    assert(crate::scan::scan_key_pairs(l) =~= crate::mirror::mirror_key_pairs(s.shards@)) by {
        assert forall|p: (Seq<u8>, Seq<u8>)|
            crate::scan::scan_key_pairs(l).contains(p) <==> crate::mirror::mirror_key_pairs(
                s.shards@,
            ).contains(p) by {
            crate::scan::lemma_scan_key_pairs_membership(l, p.0, p.1);
            crate::mirror::lemma_mirror_key_pairs_membership(s.shards@, p.0, p.1);
            assert(scan_has(l, p.0, p.1) <==> s.has_file(p.0, p.1));
        }
    }
}

/// Directory cleanup: removing the last entry pair of a shard directory
/// leaves no such directory behind.
pub proof fn lemma_directory_cleanup(pre: KVStore, post: KVStore, key: Seq<u8>)
    requires
        remove_ok(pre, post, key),
        pre.dir_file_count(pre.shard_dir_of(key)) == 2,
    ensures
        !post.has_dir(pre.shard_dir_of(key)),
{
}

} // verus!
