//! Scan listings: what one recursive walk of the store's root directory hands
//! the engine when a store is opened, and the verified counting that
//! initializes a store's size from such a listing.

use vstd::prelude::*;

use crate::bytes::ends_with;

verus! {

/// One file found under the store's root: the directory it sits in (relative
/// to the root, empty for the root itself), its file name, and its contents.
#[derive(Debug)]
pub struct ScanFile {
    pub dir: Vec<u8>,
    pub name: Vec<u8>,
    pub data: Vec<u8>,
}

/// The byte suffix `.key` that marks a key file.
pub open spec fn key_suffix() -> Seq<u8> {
    seq![46u8, 107u8, 101u8, 121u8]
}

/// The byte suffix `.value` that marks a value file.
pub open spec fn value_suffix() -> Seq<u8> {
    seq![46u8, 118u8, 97u8, 108u8, 117u8, 101u8]
}

/// True when `name` ends in `suffix`.
pub open spec fn has_suffix(name: Seq<u8>, suffix: Seq<u8>) -> bool {
    name.len() >= suffix.len() && name.skip(name.len() - suffix.len()) == suffix
}

/// True when the file name marks a key file.
pub open spec fn is_key_name(name: Seq<u8>) -> bool {
    has_suffix(name, key_suffix())
}

/// True when the file name marks a value file.
pub open spec fn is_value_name(name: Seq<u8>) -> bool {
    has_suffix(name, value_suffix())
}

/// How many `.key` files a listing holds.
pub open spec fn scan_key_count(l: Seq<ScanFile>) -> int
    decreases l.len(),
{
    if l.len() == 0 {
        0
    } else {
        scan_key_count(l.drop_last()) + if is_key_name(l.last().name@) {
            1int
        } else {
            0int
        }
    }
}

/// How many `.key` or `.value` files a listing holds.
pub open spec fn scan_entry_file_count(l: Seq<ScanFile>) -> int
    decreases l.len(),
{
    if l.len() == 0 {
        0
    } else {
        scan_entry_file_count(l.drop_last()) + if is_key_name(l.last().name@) || is_value_name(
            l.last().name@,
        ) {
            1int
        } else {
            0int
        }
    }
}

/// True when the listing holds a file of that name in that directory.
pub open spec fn scan_has(l: Seq<ScanFile>, dir: Seq<u8>, name: Seq<u8>) -> bool {
    exists|i: int| 0 <= i < l.len() && l[i].dir@ == dir && l[i].name@ == name
}

/// True when the listing holds some file in that directory.
pub open spec fn scan_has_dir(l: Seq<ScanFile>, dir: Seq<u8>) -> bool {
    exists|i: int| 0 <= i < l.len() && l[i].dir@ == dir
}

/// True when no two listing entries name the same file of the same directory,
/// as holds of any listing produced by one walk of a real directory tree.
pub open spec fn distinct_scan(l: Seq<ScanFile>) -> bool {
    forall|i: int, j: int|
        0 <= i < j < l.len() ==> !(l[i].dir@ == l[j].dir@ && l[i].name@ == l[j].name@)
}

/// The set of key-file locations a listing names.
pub open spec fn scan_key_pairs(l: Seq<ScanFile>) -> Set<(Seq<u8>, Seq<u8>)>
    decreases l.len(),
{
    if l.len() == 0 {
        Set::empty()
    } else if is_key_name(l.last().name@) {
        scan_key_pairs(l.drop_last()).insert((l.last().dir@, l.last().name@))
    } else {
        scan_key_pairs(l.drop_last())
    }
}

pub proof fn lemma_scan_key_pairs_membership(l: Seq<ScanFile>, d: Seq<u8>, n: Seq<u8>)
    ensures
        scan_key_pairs(l).contains((d, n)) <==> scan_has(l, d, n) && is_key_name(n),
    decreases l.len(),
{
    broadcast use vstd::set::group_set_axioms;

    if l.len() > 0 {
        let rest = l.drop_last();
        let m = l.len() - 1;
        lemma_scan_key_pairs_membership(rest, d, n);
        if scan_has(rest, d, n) {
            let k = choose|k: int|
                #![trigger rest[k]]
                0 <= k < rest.len() && rest[k].dir@ == d && rest[k].name@ == n;
            assert(l[k].dir@ == d && l[k].name@ == n);
        }
        if scan_has(l, d, n) && !(l[m].dir@ == d && l[m].name@ == n) {
            let k = choose|k: int|
                #![trigger l[k]]
                0 <= k < l.len() && l[k].dir@ == d && l[k].name@ == n;
            assert(k < m);
            assert(rest[k].dir@ == d && rest[k].name@ == n);
        }
        if l[m].dir@ == d && l[m].name@ == n {
            assert(scan_has(l, d, n));
        }
    }
}

pub proof fn lemma_scan_key_count_is_card(l: Seq<ScanFile>)
    requires
        distinct_scan(l),
    ensures
        scan_key_pairs(l).finite(),
        scan_key_pairs(l).len() == scan_key_count(l),
    decreases l.len(),
{
    broadcast use vstd::set::group_set_axioms;

    if l.len() == 0 {
    } else {
        let rest = l.drop_last();
        let m = l.len() - 1;
        assert(distinct_scan(rest)) by {
            assert(forall|k: int| 0 <= k < rest.len() ==> rest[k] == l[k]);
        }
        lemma_scan_key_count_is_card(rest);
        if is_key_name(l[m].name@) {
            let pair = (l[m].dir@, l[m].name@);
            lemma_scan_key_pairs_membership(rest, l[m].dir@, l[m].name@);
            assert(!scan_has(rest, l[m].dir@, l[m].name@)) by {
                if scan_has(rest, l[m].dir@, l[m].name@) {
                    let k = choose|k: int|
                        #![trigger rest[k]]
                        0 <= k < rest.len() && rest[k].dir@ == l[m].dir@ && rest[k].name@
                            == l[m].name@;
                    assert(l[k].dir@ == l[m].dir@ && l[k].name@ == l[m].name@);
                    assert(false);
                }
            }
            vstd::set::axiom_set_insert_len(scan_key_pairs(rest), pair);
        }
    }
}

/// An executable copy of the `.key` suffix.
pub fn key_suffix_vec() -> (r: Vec<u8>)
    ensures
        r@ == key_suffix(),
{
    let mut r: Vec<u8> = Vec::new();
    r.push(46);
    r.push(107);
    r.push(101);
    r.push(121);
    proof {
        assert(r@ =~= key_suffix());
    }
    r
}

/// An executable copy of the `.value` suffix.
pub fn value_suffix_vec() -> (r: Vec<u8>)
    ensures
        r@ == value_suffix(),
{
    let mut r: Vec<u8> = Vec::new();
    r.push(46);
    r.push(118);
    r.push(97);
    r.push(108);
    r.push(117);
    r.push(101);
    proof {
        assert(r@ =~= value_suffix());
    }
    r
}

/// Recursively visited files are handed in as a listing; this counts the
/// number of `.key` files among them, which is what a store's size is
/// initialized to.
pub fn count_keys(files: &Vec<ScanFile>) -> (r: usize)
    ensures
        r as int == scan_key_count(files@),
{
    let suffix = key_suffix_vec();
    let mut count: usize = 0;
    let mut i: usize = 0;
    while i < files.len()
        invariant
            i <= files.len(),
            count <= i,
            suffix@ == key_suffix(),
            count as int == scan_key_count(files@.take(i as int)),
        decreases files.len() - i,
    {
        proof {
            assert(files@.take(i as int + 1).drop_last() =~= files@.take(i as int));
            assert(files@.take(i as int + 1).last() == files@[i as int]);
        }
        if ends_with(&files[i].name, &suffix) {
            count += 1;
        }
        i += 1;
    }
    proof {
        assert(files@.take(files@.len() as int) =~= files@);
    }
    count
}

/// Given the files found under an existing directory, the number of entry
/// pairs they amount to: the number of `.key` and `.value` files, divided by
/// two.
pub fn calc_num_of_pairs(files: &Vec<ScanFile>) -> (r: usize)
    ensures
        r as int == scan_entry_file_count(files@) / 2,
{
    let key_suffix = key_suffix_vec();
    let value_suffix = value_suffix_vec();
    let mut count: usize = 0;
    let mut i: usize = 0;
    while i < files.len()
        invariant
            i <= files.len(),
            count <= i,
            key_suffix@ == crate::scan::key_suffix(),
            value_suffix@ == crate::scan::value_suffix(),
            count as int == scan_entry_file_count(files@.take(i as int)),
        decreases files.len() - i,
    {
        proof {
            assert(files@.take(i as int + 1).drop_last() =~= files@.take(i as int));
            assert(files@.take(i as int + 1).last() == files@[i as int]);
        }
        if ends_with(&files[i].name, &key_suffix) || ends_with(&files[i].name, &value_suffix) {
            count += 1;
        }
        i += 1;
    }
    proof {
        assert(files@.take(files@.len() as int) =~= files@);
    }
    count / 2
}

} // verus!
