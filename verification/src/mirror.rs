//! The engine's in-memory mirror of the on-disk subtree backing a store: a
//! sequence of shard directories, each holding the files that directory holds
//! on disk. The spec functions here say what the mirror contains, and the
//! verified mutators keep that view in step with the edits the engine makes.

use vstd::prelude::*;

use crate::bytes::{bytes_eq, clone_bytes};
use crate::scan::is_key_name;

verus! {

/// One file of a shard directory: its name and its contents.
pub struct FileEntry {
    pub name: Vec<u8>,
    pub data: Vec<u8>,
}

/// One shard directory and the files it holds.
pub struct Shard {
    pub dir: Vec<u8>,
    pub files: Vec<FileEntry>,
}

/// True when some file of `files` is called `name`.
pub open spec fn has_name(files: Seq<FileEntry>, name: Seq<u8>) -> bool {
    exists|j: int| 0 <= j < files.len() && files[j].name@ == name
}

/// The index of the file called `name`.
pub open spec fn name_at(files: Seq<FileEntry>, name: Seq<u8>) -> int {
    choose|j: int| 0 <= j < files.len() && files[j].name@ == name
}

/// The contents of the file called `name`.
pub open spec fn data_of(files: Seq<FileEntry>, name: Seq<u8>) -> Seq<u8> {
    files[name_at(files, name)].data@
}

/// True when no two files of the sequence share a name.
pub open spec fn distinct_names(files: Seq<FileEntry>) -> bool {
    forall|i: int, j: int| 0 <= i < j < files.len() ==> files[i].name@ != files[j].name@
}

/// How many `.key` files the sequence holds.
pub open spec fn key_count(files: Seq<FileEntry>) -> int
    decreases files.len(),
{
    if files.len() == 0 {
        0
    } else {
        key_count(files.drop_last()) + if is_key_name(files.last().name@) {
            1int
        } else {
            0int
        }
    }
}

/// True when the mirror holds a shard directory of that name.
pub open spec fn mirror_has_dir(shards: Seq<Shard>, dir: Seq<u8>) -> bool {
    exists|i: int| 0 <= i < shards.len() && shards[i].dir@ == dir
}

/// The index of the shard directory of that name.
pub open spec fn dir_at(shards: Seq<Shard>, dir: Seq<u8>) -> int {
    choose|i: int| 0 <= i < shards.len() && shards[i].dir@ == dir
}

/// True when the mirror holds a file of that name in that directory.
pub open spec fn mirror_has(shards: Seq<Shard>, dir: Seq<u8>, name: Seq<u8>) -> bool {
    mirror_has_dir(shards, dir) && has_name(shards[dir_at(shards, dir)].files@, name)
}

/// The contents of the file of that name in that directory.
pub open spec fn mirror_data(shards: Seq<Shard>, dir: Seq<u8>, name: Seq<u8>) -> Seq<u8> {
    data_of(shards[dir_at(shards, dir)].files@, name)
}

/// How many files that directory holds; zero when it is absent.
pub open spec fn mirror_dir_count(shards: Seq<Shard>, dir: Seq<u8>) -> int {
    if mirror_has_dir(shards, dir) {
        shards[dir_at(shards, dir)].files@.len() as int
    } else {
        0
    }
}

/// True when no two shards share a directory name.
pub open spec fn distinct_dirs(shards: Seq<Shard>) -> bool {
    forall|i: int, j: int| 0 <= i < j < shards.len() ==> shards[i].dir@ != shards[j].dir@
}

/// Well-formedness of a mirror: directory names are distinct, file names are
/// distinct within each directory, and no directory is empty.
pub open spec fn mirror_wf(shards: Seq<Shard>) -> bool {
    &&& distinct_dirs(shards)
    &&& forall|i: int| 0 <= i < shards.len() ==> distinct_names(#[trigger] shards[i].files@)
    &&& forall|i: int| 0 <= i < shards.len() ==> (#[trigger] shards[i].files@).len() > 0
}

/// How many `.key` files the whole mirror holds.
pub open spec fn total_key_count(shards: Seq<Shard>) -> int
    decreases shards.len(),
{
    if shards.len() == 0 {
        0
    } else {
        total_key_count(shards.drop_last()) + key_count(shards.last().files@)
    }
}

pub proof fn lemma_name_at_is(files: Seq<FileEntry>, j: int)
    requires
        distinct_names(files),
        0 <= j < files.len(),
    ensures
        has_name(files, files[j].name@),
        name_at(files, files[j].name@) == j,
        data_of(files, files[j].name@) == files[j].data@,
{
    assert(has_name(files, files[j].name@));
    let j2 = name_at(files, files[j].name@);
    assert(0 <= j2 < files.len() && files[j2].name@ == files[j].name@);
    if j2 != j {
        assert(false);
    }
}

pub proof fn lemma_dir_at_is(shards: Seq<Shard>, i: int)
    requires
        distinct_dirs(shards),
        0 <= i < shards.len(),
    ensures
        mirror_has_dir(shards, shards[i].dir@),
        dir_at(shards, shards[i].dir@) == i,
{
    assert(mirror_has_dir(shards, shards[i].dir@));
    let i2 = dir_at(shards, shards[i].dir@);
    assert(0 <= i2 < shards.len() && shards[i2].dir@ == shards[i].dir@);
    if i2 != i {
        assert(false);
    }
}

pub proof fn lemma_key_count_nonneg(files: Seq<FileEntry>)
    ensures
        0 <= key_count(files),
    decreases files.len(),
{
    if files.len() > 0 {
        lemma_key_count_nonneg(files.drop_last());
    }
}

pub proof fn lemma_key_count_push(files: Seq<FileEntry>, f: FileEntry)
    ensures
        key_count(files.push(f)) == key_count(files) + if is_key_name(f.name@) {
            1int
        } else {
            0int
        },
{
    assert(files.push(f).drop_last() =~= files);
    assert(files.push(f).last() == f);
}

pub proof fn lemma_key_count_update(files: Seq<FileEntry>, j: int, f: FileEntry)
    requires
        0 <= j < files.len(),
        f.name@ == files[j].name@,
    ensures
        key_count(files.update(j, f)) == key_count(files),
    decreases files.len(),
{
    let u = files.update(j, f);
    if j == files.len() - 1 {
        assert(u.drop_last() =~= files.drop_last());
        assert(u.last() == f);
    } else {
        assert(u.drop_last() =~= files.drop_last().update(j, f));
        lemma_key_count_update(files.drop_last(), j, f);
        assert(u.last() == files.last());
    }
}

pub proof fn lemma_key_count_remove(files: Seq<FileEntry>, j: int)
    requires
        0 <= j < files.len(),
    ensures
        key_count(files.remove(j)) == key_count(files) - if is_key_name(files[j].name@) {
            1int
        } else {
            0int
        },
    decreases files.len(),
{
    let r = files.remove(j);
    if j == files.len() - 1 {
        assert(r =~= files.drop_last());
    } else {
        assert(r.drop_last() =~= files.drop_last().remove(j));
        lemma_key_count_remove(files.drop_last(), j);
        assert(r.last() == files.last());
    }
}

pub proof fn lemma_total_nonneg(shards: Seq<Shard>)
    ensures
        0 <= total_key_count(shards),
    decreases shards.len(),
{
    if shards.len() > 0 {
        lemma_total_nonneg(shards.drop_last());
        lemma_key_count_nonneg(shards.last().files@);
    }
}

pub proof fn lemma_total_push(shards: Seq<Shard>, sh: Shard)
    ensures
        total_key_count(shards.push(sh)) == total_key_count(shards) + key_count(sh.files@),
{
    assert(shards.push(sh).drop_last() =~= shards);
    assert(shards.push(sh).last() == sh);
}

pub proof fn lemma_total_update(shards: Seq<Shard>, i: int, sh: Shard)
    requires
        0 <= i < shards.len(),
    ensures
        total_key_count(shards.update(i, sh)) == total_key_count(shards) - key_count(
            shards[i].files@,
        ) + key_count(sh.files@),
    decreases shards.len(),
{
    let u = shards.update(i, sh);
    if i == shards.len() - 1 {
        assert(u.drop_last() =~= shards.drop_last());
        assert(u.last() == sh);
    } else {
        assert(u.drop_last() =~= shards.drop_last().update(i, sh));
        lemma_total_update(shards.drop_last(), i, sh);
        assert(u.last() == shards.last());
    }
}

pub proof fn lemma_total_remove(shards: Seq<Shard>, i: int)
    requires
        0 <= i < shards.len(),
    ensures
        total_key_count(shards.remove(i)) == total_key_count(shards) - key_count(
            shards[i].files@,
        ),
    decreases shards.len(),
{
    let r = shards.remove(i);
    if i == shards.len() - 1 {
        assert(r =~= shards.drop_last());
    } else {
        assert(r.drop_last() =~= shards.drop_last().remove(i));
        lemma_total_remove(shards.drop_last(), i);
        assert(r.last() == shards.last());
    }
}

pub proof fn lemma_files_push(files: Seq<FileEntry>, f: FileEntry)
    requires
        distinct_names(files),
        !has_name(files, f.name@),
    ensures
        distinct_names(files.push(f)),
        forall|n: Seq<u8>| #[trigger]
            has_name(files.push(f), n) <==> has_name(files, n) || n == f.name@,
        forall|n: Seq<u8>|
            has_name(files, n) ==> #[trigger] data_of(files.push(f), n) == data_of(files, n),
        data_of(files.push(f), f.name@) == f.data@,
{
    let p = files.push(f);
    let m = files.len() as int;
    assert forall|i: int, j: int| 0 <= i < j < p.len() implies p[i].name@ != p[j].name@ by {
        if j == m {
            if p[i].name@ == f.name@ {
                assert(has_name(files, f.name@));
            }
        }
    }
    assert forall|n: Seq<u8>| #[trigger]
        has_name(p, n) implies has_name(files, n) || n == f.name@ by {
        let j = choose|j: int| 0 <= j < p.len() && p[j].name@ == n;
        if j < m {
            assert(files[j].name@ == n);
        }
    }
    assert forall|n: Seq<u8>| has_name(files, n) || n == f.name@ implies #[trigger] has_name(
        p,
        n,
    ) by {
        if has_name(files, n) {
            let j = choose|j: int| 0 <= j < files.len() && files[j].name@ == n;
            assert(p[j].name@ == n);
        } else {
            assert(p[m].name@ == n);
        }
    }
    assert forall|n: Seq<u8>| has_name(files, n) implies #[trigger] data_of(p, n) == data_of(
        files,
        n,
    ) by {
        let j1 = name_at(files, n);
        assert(0 <= j1 < files.len() && files[j1].name@ == n);
        lemma_name_at_is(files, j1);
        assert(p[j1].name@ == n);
        lemma_name_at_is(p, j1);
    }
    lemma_name_at_is(p, m);
}

pub proof fn lemma_files_update(files: Seq<FileEntry>, j: int, f: FileEntry)
    requires
        distinct_names(files),
        0 <= j < files.len(),
        f.name@ == files[j].name@,
    ensures
        distinct_names(files.update(j, f)),
        forall|n: Seq<u8>| #[trigger] has_name(files.update(j, f), n) <==> has_name(files, n),
        forall|n: Seq<u8>|
            has_name(files, n) && n != f.name@ ==> #[trigger] data_of(files.update(j, f), n)
                == data_of(files, n),
        data_of(files.update(j, f), f.name@) == f.data@,
{
    let u = files.update(j, f);
    assert forall|i1: int, i2: int| 0 <= i1 < i2 < u.len() implies u[i1].name@ != u[i2].name@ by {
        assert(u[i1].name@ == files[i1].name@);
        assert(u[i2].name@ == files[i2].name@);
    }
    assert forall|n: Seq<u8>| #[trigger] has_name(u, n) <==> has_name(files, n) by {
        if has_name(u, n) {
            let k = choose|k: int| 0 <= k < u.len() && u[k].name@ == n;
            assert(files[k].name@ == n);
        }
        if has_name(files, n) {
            let k = choose|k: int| 0 <= k < files.len() && files[k].name@ == n;
            assert(u[k].name@ == n);
        }
    }
    assert forall|n: Seq<u8>| has_name(files, n) && n != f.name@ implies #[trigger] data_of(
        u,
        n,
    ) == data_of(files, n) by {
        let j1 = name_at(files, n);
        assert(0 <= j1 < files.len() && files[j1].name@ == n);
        lemma_name_at_is(files, j1);
        assert(j1 != j);
        assert(u[j1].name@ == n);
        lemma_name_at_is(u, j1);
    }
    lemma_name_at_is(u, j);
}

pub proof fn lemma_files_remove(files: Seq<FileEntry>, j: int)
    requires
        distinct_names(files),
        0 <= j < files.len(),
    ensures
        distinct_names(files.remove(j)),
        forall|n: Seq<u8>| #[trigger]
            has_name(files.remove(j), n) <==> has_name(files, n) && n != files[j].name@,
        forall|n: Seq<u8>|
            has_name(files.remove(j), n) ==> #[trigger] data_of(files.remove(j), n) == data_of(
                files,
                n,
            ),
{
    let r = files.remove(j);
    assert forall|i1: int, i2: int| 0 <= i1 < i2 < r.len() implies r[i1].name@ != r[i2].name@ by {
        let o1: int = if i1 < j {
            i1
        } else {
            i1 + 1
        };
        let o2: int = if i2 < j {
            i2
        } else {
            i2 + 1
        };
        assert(r[i1] == files[o1]);
        assert(r[i2] == files[o2]);
    }
    assert forall|n: Seq<u8>| #[trigger] has_name(r, n) implies has_name(files, n) && n
        != files[j].name@ by {
        let k = choose|k: int| 0 <= k < r.len() && r[k].name@ == n;
        let o: int = if k < j {
            k
        } else {
            k + 1
        };
        assert(files[o].name@ == n);
        assert(o != j);
    }
    assert forall|n: Seq<u8>| has_name(files, n) && n != files[j].name@ implies #[trigger]
        has_name(r, n) by {
        let k = choose|k: int| 0 <= k < files.len() && files[k].name@ == n;
        assert(k != j);
        let k2: int = if k < j {
            k
        } else {
            k - 1
        };
        assert(r[k2].name@ == n);
    }
    assert forall|n: Seq<u8>| has_name(r, n) implies #[trigger] data_of(r, n) == data_of(
        files,
        n,
    ) by {
        let k = name_at(r, n);
        assert(0 <= k < r.len() && r[k].name@ == n);
        lemma_name_at_is(r, k);
        let o: int = if k < j {
            k
        } else {
            k + 1
        };
        assert(r[k] == files[o]);
        lemma_name_at_is(files, o);
    }
}

/// The set of key-file locations one shard contributes.
pub open spec fn shard_key_pairs(dir: Seq<u8>, files: Seq<FileEntry>) -> Set<(Seq<u8>, Seq<u8>)>
    decreases files.len(),
{
    if files.len() == 0 {
        Set::empty()
    } else if is_key_name(files.last().name@) {
        shard_key_pairs(dir, files.drop_last()).insert((dir, files.last().name@))
    } else {
        shard_key_pairs(dir, files.drop_last())
    }
}

/// The set of key-file locations the whole mirror holds.
pub open spec fn mirror_key_pairs(shards: Seq<Shard>) -> Set<(Seq<u8>, Seq<u8>)>
    decreases shards.len(),
{
    if shards.len() == 0 {
        Set::empty()
    } else {
        mirror_key_pairs(shards.drop_last()).union(
            shard_key_pairs(shards.last().dir@, shards.last().files@),
        )
    }
}

pub proof fn lemma_shard_key_pairs_membership(
    dir: Seq<u8>,
    files: Seq<FileEntry>,
    d: Seq<u8>,
    n: Seq<u8>,
)
    ensures
        shard_key_pairs(dir, files).contains((d, n)) <==> d == dir && has_name(files, n)
            && is_key_name(n),
    decreases files.len(),
{
    broadcast use vstd::set::group_set_axioms;

    if files.len() > 0 {
        let rest = files.drop_last();
        let m = files.len() - 1;
        lemma_shard_key_pairs_membership(dir, rest, d, n);
        if has_name(rest, n) {
            let k = choose|k: int|
                #![trigger rest[k]]
                0 <= k < rest.len() && rest[k].name@ == n;
            assert(files[k].name@ == n);
        }
        if has_name(files, n) && files[m].name@ != n {
            let k = choose|k: int|
                #![trigger files[k]]
                0 <= k < files.len() && files[k].name@ == n;
            assert(k < m);
            assert(rest[k].name@ == n);
        }
        if files[m].name@ == n {
            assert(has_name(files, n));
        }
    }
}

pub proof fn lemma_shard_card(x: Set<(Seq<u8>, Seq<u8>)>, dir: Seq<u8>, files: Seq<FileEntry>)
    requires
        x.finite(),
        distinct_names(files),
        forall|n: Seq<u8>| !x.contains((dir, n)),
    ensures
        x.union(shard_key_pairs(dir, files)).finite(),
        x.union(shard_key_pairs(dir, files)).len() == x.len() + key_count(files),
    decreases files.len(),
{
    broadcast use vstd::set::group_set_axioms;

    if files.len() == 0 {
        assert(x.union(shard_key_pairs(dir, files)) =~= x);
    } else {
        let rest = files.drop_last();
        let m = files.len() - 1;
        assert(distinct_names(rest)) by {
            assert(forall|k: int| 0 <= k < rest.len() ==> rest[k] == files[k]);
        }
        lemma_shard_card(x, dir, rest);
        if is_key_name(files[m].name@) {
            let pair = (dir, files[m].name@);
            lemma_shard_key_pairs_membership(dir, rest, dir, files[m].name@);
            assert(!has_name(rest, files[m].name@)) by {
                if has_name(rest, files[m].name@) {
                    let k = choose|k: int|
                        #![trigger rest[k]]
                        0 <= k < rest.len() && rest[k].name@ == files[m].name@;
                    assert(files[k].name@ == files[m].name@);
                    assert(false);
                }
            }
            assert(!x.union(shard_key_pairs(dir, rest)).contains(pair));
            assert(x.union(shard_key_pairs(dir, files)) =~= x.union(
                shard_key_pairs(dir, rest),
            ).insert(pair));
            vstd::set::axiom_set_insert_len(x.union(shard_key_pairs(dir, rest)), pair);
        } else {
            assert(x.union(shard_key_pairs(dir, files)) =~= x.union(shard_key_pairs(dir, rest)));
        }
    }
}

pub proof fn lemma_mirror_key_pairs_membership(shards: Seq<Shard>, d: Seq<u8>, n: Seq<u8>)
    requires
        distinct_dirs(shards),
    ensures
        mirror_key_pairs(shards).contains((d, n)) <==> mirror_has(shards, d, n) && is_key_name(n),
    decreases shards.len(),
{
    broadcast use vstd::set::group_set_axioms;

    if shards.len() > 0 {
        let rest = shards.drop_last();
        let m = shards.len() - 1;
        assert(distinct_dirs(rest)) by {
            assert(forall|k: int| 0 <= k < rest.len() ==> rest[k] == shards[k]);
        }
        lemma_mirror_key_pairs_membership(rest, d, n);
        lemma_shard_key_pairs_membership(shards[m].dir@, shards[m].files@, d, n);
        if d == shards[m].dir@ {
            lemma_dir_at_is(shards, m);
            assert(!mirror_has_dir(rest, d)) by {
                if mirror_has_dir(rest, d) {
                    let k = choose|k: int|
                        #![trigger rest[k]]
                        0 <= k < rest.len() && rest[k].dir@ == d;
                    assert(shards[k].dir@ == d);
                    assert(false);
                }
            }
            assert(mirror_has(shards, d, n) <==> has_name(shards[m].files@, n));
        } else {
            if mirror_has_dir(rest, d) {
                let k = dir_at(rest, d);
                assert(0 <= k < rest.len() && rest[k].dir@ == d);
                lemma_dir_at_is(rest, k);
                lemma_dir_at_is(shards, k);
                assert(shards[k] == rest[k]);
                assert(mirror_has(shards, d, n) <==> mirror_has(rest, d, n));
            } else {
                assert(!mirror_has_dir(shards, d)) by {
                    if mirror_has_dir(shards, d) {
                        let k = choose|k: int|
                            #![trigger shards[k]]
                            0 <= k < shards.len() && shards[k].dir@ == d;
                        assert(k != m);
                        assert(rest[k].dir@ == d);
                        assert(false);
                    }
                }
            }
        }
    }
}

pub proof fn lemma_total_is_card(shards: Seq<Shard>)
    requires
        mirror_wf(shards),
    ensures
        mirror_key_pairs(shards).finite(),
        mirror_key_pairs(shards).len() == total_key_count(shards),
    decreases shards.len(),
{
    broadcast use vstd::set::group_set_axioms;

    if shards.len() > 0 {
        let rest = shards.drop_last();
        let m = shards.len() - 1;
        assert(mirror_wf(rest)) by {
            assert(forall|k: int| 0 <= k < rest.len() ==> rest[k] == shards[k]);
        }
        lemma_total_is_card(rest);
        assert forall|n: Seq<u8>| !mirror_key_pairs(rest).contains((shards[m].dir@, n)) by {
            lemma_mirror_key_pairs_membership(rest, shards[m].dir@, n);
            if mirror_has(rest, shards[m].dir@, n) {
                let k = dir_at(rest, shards[m].dir@);
                assert(0 <= k < rest.len() && rest[k].dir@ == shards[m].dir@);
                assert(shards[k].dir@ == shards[m].dir@);
                assert(false);
            }
        }
        lemma_shard_card(mirror_key_pairs(rest), shards[m].dir@, shards[m].files@);
    }
}

/// Finds the shard of the given directory name.
pub fn find_shard(shards: &Vec<Shard>, dir: &Vec<u8>) -> (r: Option<usize>)
    ensures
        match r {
            Some(i) => i < shards@.len() && shards@[i as int].dir@ == dir@,
            None => !mirror_has_dir(shards@, dir@),
        },
{
    let mut i: usize = 0;
    while i < shards.len()
        invariant
            i <= shards.len(),
            forall|k: int| 0 <= k < i ==> shards@[k].dir@ != dir@,
        decreases shards.len() - i,
    {
        if bytes_eq(&shards[i].dir, dir) {
            return Some(i);
        }
        i += 1;
    }
    None
}

/// Finds the file of the given name.
pub fn find_file(files: &Vec<FileEntry>, name: &Vec<u8>) -> (r: Option<usize>)
    ensures
        match r {
            Some(j) => j < files@.len() && files@[j as int].name@ == name@,
            None => !has_name(files@, name@),
        },
{
    let mut j: usize = 0;
    while j < files.len()
        invariant
            j <= files.len(),
            forall|k: int| 0 <= k < j ==> files@[k].name@ != name@,
        decreases files.len() - j,
    {
        if bytes_eq(&files[j].name, name) {
            return Some(j);
        }
        j += 1;
    }
    None
}

/// Writes a file into the mirror: creates the shard directory if it is
/// absent, overwrites the contents if the name is already present.
pub fn mirror_put(shards: &mut Vec<Shard>, dir: &Vec<u8>, name: Vec<u8>, data: Vec<u8>)
    requires
        mirror_wf(old(shards)@),
    ensures
        mirror_wf(final(shards)@),
        forall|d: Seq<u8>| #[trigger]
            mirror_has_dir(final(shards)@, d) <==> mirror_has_dir(old(shards)@, d) || d == dir@,
        forall|d: Seq<u8>, n: Seq<u8>| #[trigger]
            mirror_has(final(shards)@, d, n) <==> mirror_has(old(shards)@, d, n) || (d == dir@ && n
                == name@),
        mirror_data(final(shards)@, dir@, name@) == data@,
        forall|d: Seq<u8>, n: Seq<u8>|
            mirror_has(old(shards)@, d, n) && !(d == dir@ && n == name@) ==> #[trigger] mirror_data(
                final(shards)@,
                d,
                n,
            ) == mirror_data(old(shards)@, d, n),
        total_key_count(final(shards)@) == total_key_count(old(shards)@) + if is_key_name(name@)
            && !mirror_has(old(shards)@, dir@, name@) {
            1int
        } else {
            0int
        },
{
    let ghost pre = shards@;
    match find_shard(shards, dir) {
        None => {
            let mut files: Vec<FileEntry> = Vec::new();
            files.push(FileEntry { name, data });
            let sh = Shard { dir: clone_bytes(dir), files };
            proof {
                assert(sh.files@ =~= Seq::<FileEntry>::empty().push(sh.files@[0]));
                assert(distinct_names(sh.files@));
                assert(!mirror_has(pre, dir@, name@));
            }
            shards.push(sh);
            proof {
                let post = shards@;
                let m = pre.len() as int;
                lemma_total_push(pre, sh);
                assert(sh.files@.drop_last() =~= Seq::<FileEntry>::empty());
                assert(key_count(Seq::<FileEntry>::empty()) == 0);
                assert(key_count(sh.files@) == if is_key_name(name@) {
                    1int
                } else {
                    0int
                });
                assert forall|i: int, j: int| 0 <= i < j < post.len() implies post[i].dir@
                    != post[j].dir@ by {
                    if j == m {
                        if post[i].dir@ == dir@ {
                            assert(mirror_has_dir(pre, dir@));
                        }
                    }
                }
                assert(mirror_wf(post));
                lemma_dir_at_is(post, m);
                lemma_name_at_is(sh.files@, 0);
                assert forall|d: Seq<u8>| #[trigger]
                    mirror_has_dir(post, d) implies mirror_has_dir(pre, d) || d == dir@ by {
                    let i = choose|i: int| 0 <= i < post.len() && post[i].dir@ == d;
                    if i < m {
                        assert(pre[i].dir@ == d);
                    }
                }
                assert forall|d: Seq<u8>| mirror_has_dir(pre, d) implies #[trigger] mirror_has_dir(
                    post,
                    d,
                ) by {
                    let i = dir_at(pre, d);
                    assert(0 <= i < pre.len() && pre[i].dir@ == d);
                    assert(post[i].dir@ == d);
                }
                assert forall|d: Seq<u8>, n: Seq<u8>|
                    true implies (#[trigger] mirror_has(post, d, n) <==> mirror_has(pre, d, n) || (
                d == dir@ && n == name@)) by {
                    if d == dir@ {
                        assert(!mirror_has_dir(pre, d));
                        assert(mirror_has(post, d, n) <==> has_name(sh.files@, n));
                        assert(has_name(sh.files@, n) <==> n == name@) by {
                            if has_name(sh.files@, n) {
                                let j = choose|j: int|
                                    0 <= j < sh.files@.len() && sh.files@[j].name@ == n;
                                assert(j == 0);
                            }
                        }
                    } else {
                        if mirror_has_dir(pre, d) {
                            let i = dir_at(pre, d);
                            assert(0 <= i < pre.len() && pre[i].dir@ == d);
                            lemma_dir_at_is(pre, i);
                            lemma_dir_at_is(post, i);
                            assert(post[i] == pre[i]);
                        } else {
                            assert(!mirror_has_dir(post, d));
                        }
                    }
                }
                assert(mirror_data(post, dir@, name@) == data@);
                assert forall|d: Seq<u8>, n: Seq<u8>|
                    mirror_has(pre, d, n) && !(d == dir@ && n == name@) implies #[trigger]
                    mirror_data(post, d, n) == mirror_data(pre, d, n) by {
                    let i = dir_at(pre, d);
                    assert(0 <= i < pre.len() && pre[i].dir@ == d);
                    lemma_dir_at_is(pre, i);
                    lemma_dir_at_is(post, i);
                    assert(post[i] == pre[i]);
                }
            }
        },
        Some(si) => {
            let ghost i = si as int;
            let mut sh = shards.remove(si);
            let ghost shpre = sh;
            match find_file(&sh.files, &name) {
                None => {
                    let ghost fpre = sh.files@;
                    sh.files.push(FileEntry { name, data });
                    proof {
                        lemma_files_push(fpre, sh.files@.last());
                        lemma_key_count_push(fpre, sh.files@.last());
                        assert(!mirror_has(pre, dir@, name@)) by {
                            lemma_dir_at_is(pre, i);
                        }
                    }
                },
                Some(fi) => {
                    let ghost fpre = sh.files@;
                    let ghost j = fi as int;
                    let mut fe = sh.files.remove(fi);
                    fe.data = data;
                    sh.files.insert(fi, fe);
                    proof {
                        assert(sh.files@ =~= fpre.update(j, sh.files@[j]));
                        lemma_files_update(fpre, j, sh.files@[j]);
                        lemma_key_count_update(fpre, j, sh.files@[j]);
                        assert(mirror_has(pre, dir@, name@)) by {
                            lemma_dir_at_is(pre, i);
                        }
                    }
                },
            }
            shards.insert(si, sh);
            proof {
                let post = shards@;
                let fpre = shpre.files@;
                let fpost = sh.files@;
                assert(post =~= pre.update(i, sh));
                lemma_dir_at_is(pre, i);
                lemma_total_update(pre, i, sh);
                // well-formedness
                assert forall|i1: int, i2: int| 0 <= i1 < i2 < post.len() implies post[i1].dir@
                    != post[i2].dir@ by {
                    assert(post[i1].dir@ == pre[i1].dir@);
                    assert(post[i2].dir@ == pre[i2].dir@);
                }
                assert(mirror_wf(post));
                lemma_dir_at_is(post, i);
                // directories are unchanged
                assert forall|d: Seq<u8>| #[trigger]
                    mirror_has_dir(post, d) <==> mirror_has_dir(pre, d) || d == dir@ by {
                    if mirror_has_dir(post, d) {
                        let k = choose|k: int| 0 <= k < post.len() && post[k].dir@ == d;
                        assert(pre[k].dir@ == d);
                    }
                    if mirror_has_dir(pre, d) {
                        let k = dir_at(pre, d);
                        assert(0 <= k < pre.len() && pre[k].dir@ == d);
                        assert(post[k].dir@ == d);
                    }
                    if d == dir@ {
                        assert(post[i].dir@ == d);
                    }
                }
                // contents
                assert forall|d: Seq<u8>, n: Seq<u8>|
                    true implies (#[trigger] mirror_has(post, d, n) <==> mirror_has(pre, d, n) || (
                d == dir@ && n == name@)) by {
                    if d == dir@ {
                        assert(mirror_has(post, d, n) <==> has_name(fpost, n));
                        assert(mirror_has(pre, d, n) <==> has_name(fpre, n));
                    } else {
                        if mirror_has_dir(pre, d) {
                            let k = dir_at(pre, d);
                            assert(0 <= k < pre.len() && pre[k].dir@ == d);
                            lemma_dir_at_is(pre, k);
                            lemma_dir_at_is(post, k);
                            assert(k != i);
                            assert(post[k] == pre[k]);
                        } else {
                            assert(!mirror_has_dir(post, d));
                        }
                    }
                }
                assert(mirror_data(post, dir@, name@) == data@);
                assert forall|d: Seq<u8>, n: Seq<u8>|
                    mirror_has(pre, d, n) && !(d == dir@ && n == name@) implies #[trigger]
                    mirror_data(post, d, n) == mirror_data(pre, d, n) by {
                    if d == dir@ {
                        assert(mirror_data(post, d, n) == data_of(fpost, n));
                        assert(mirror_data(pre, d, n) == data_of(fpre, n));
                    } else {
                        let k = dir_at(pre, d);
                        assert(0 <= k < pre.len() && pre[k].dir@ == d);
                        lemma_dir_at_is(pre, k);
                        lemma_dir_at_is(post, k);
                        assert(k != i);
                        assert(post[k] == pre[k]);
                    }
                }
            }
        },
    }
}

/// Deletes a file from the mirror; a shard directory left empty is dropped.
pub fn mirror_drop(shards: &mut Vec<Shard>, dir: &Vec<u8>, name: &Vec<u8>)
    requires
        mirror_wf(old(shards)@),
        mirror_has(old(shards)@, dir@, name@),
    ensures
        mirror_wf(final(shards)@),
        forall|d: Seq<u8>| #[trigger]
            mirror_has_dir(final(shards)@, d) <==> mirror_has_dir(old(shards)@, d) && !(d == dir@
                && mirror_dir_count(old(shards)@, dir@) == 1),
        forall|d: Seq<u8>, n: Seq<u8>| #[trigger]
            mirror_has(final(shards)@, d, n) <==> mirror_has(old(shards)@, d, n) && !(d == dir@ && n
                == name@),
        forall|d: Seq<u8>, n: Seq<u8>|
            mirror_has(final(shards)@, d, n) ==> #[trigger] mirror_data(final(shards)@, d, n)
                == mirror_data(old(shards)@, d, n),
        total_key_count(final(shards)@) == total_key_count(old(shards)@) - if is_key_name(name@) {
            1int
        } else {
            0int
        },
        mirror_dir_count(final(shards)@, dir@) == mirror_dir_count(old(shards)@, dir@) - 1,
{
    let ghost pre = shards@;
    let found = find_shard(shards, dir);
    proof {
        if found is None {
            assert(false);
        }
    }
    let si = found.unwrap();
    let ghost i = si as int;
    proof {
        lemma_dir_at_is(pre, i);
    }
    let mut sh = shards.remove(si);
    let ghost fpre = sh.files@;
    let foundf = find_file(&sh.files, name);
    proof {
        if foundf is None {
            assert(false);
        }
    }
    let fi = foundf.unwrap();
    let ghost j = fi as int;
    let _dropped = sh.files.remove(fi);
    proof {
        lemma_files_remove(fpre, j);
        lemma_key_count_remove(fpre, j);
    }
    if sh.files.len() > 0 {
        shards.insert(si, sh);
        proof {
            let post = shards@;
            let fpost = sh.files@;
            assert(post =~= pre.update(i, sh));
            lemma_total_update(pre, i, sh);
            assert forall|i1: int, i2: int| 0 <= i1 < i2 < post.len() implies post[i1].dir@
                != post[i2].dir@ by {
                assert(post[i1].dir@ == pre[i1].dir@);
                assert(post[i2].dir@ == pre[i2].dir@);
            }
            assert(mirror_wf(post));
            lemma_dir_at_is(post, i);
            assert forall|d: Seq<u8>| #[trigger]
                mirror_has_dir(post, d) <==> mirror_has_dir(pre, d) && !(d == dir@
                    && mirror_dir_count(pre, dir@) == 1) by {
                if mirror_has_dir(post, d) {
                    let k = choose|k: int| 0 <= k < post.len() && post[k].dir@ == d;
                    assert(pre[k].dir@ == d);
                }
                if mirror_has_dir(pre, d) {
                    let k = dir_at(pre, d);
                    assert(0 <= k < pre.len() && pre[k].dir@ == d);
                    assert(post[k].dir@ == d);
                }
            }
            assert forall|d: Seq<u8>, n: Seq<u8>|
                true implies (#[trigger] mirror_has(post, d, n) <==> mirror_has(pre, d, n) && !(d
                == dir@ && n == name@)) by {
                if d == dir@ {
                    assert(mirror_has(post, d, n) <==> has_name(fpost, n));
                    assert(mirror_has(pre, d, n) <==> has_name(fpre, n));
                } else {
                    if mirror_has_dir(pre, d) {
                        let k = dir_at(pre, d);
                        assert(0 <= k < pre.len() && pre[k].dir@ == d);
                        lemma_dir_at_is(pre, k);
                        lemma_dir_at_is(post, k);
                        assert(k != i);
                        assert(post[k] == pre[k]);
                    } else {
                        assert(!mirror_has_dir(post, d));
                    }
                }
            }
            assert forall|d: Seq<u8>, n: Seq<u8>| mirror_has(post, d, n) implies #[trigger]
                mirror_data(post, d, n) == mirror_data(pre, d, n) by {
                if d == dir@ {
                    assert(mirror_data(post, d, n) == data_of(fpost, n));
                    assert(mirror_data(pre, d, n) == data_of(fpre, n));
                } else {
                    let k = dir_at(pre, d);
                    assert(0 <= k < pre.len() && pre[k].dir@ == d);
                    lemma_dir_at_is(pre, k);
                    lemma_dir_at_is(post, k);
                    assert(k != i);
                    assert(post[k] == pre[k]);
                }
            }
        }
    } else {
        proof {
            let post = shards@;
            assert(post =~= pre.remove(i));
            lemma_total_remove(pre, i);
            assert(fpre.len() == 1);
            assert(fpre[0].name@ == name@);
            assert(key_count(fpre) == if is_key_name(name@) {
                1int
            } else {
                0int
            }) by {
                assert(fpre.drop_last() =~= Seq::<FileEntry>::empty());
            }
            assert forall|i1: int, i2: int| 0 <= i1 < i2 < post.len() implies post[i1].dir@
                != post[i2].dir@ by {
                let o1: int = if i1 < i {
                    i1
                } else {
                    i1 + 1
                };
                let o2: int = if i2 < i {
                    i2
                } else {
                    i2 + 1
                };
                assert(post[i1] == pre[o1]);
                assert(post[i2] == pre[o2]);
            }
            assert forall|k: int| 0 <= k < post.len() implies distinct_names(
                #[trigger] post[k].files@,
            ) && post[k].files@.len() > 0 by {
                let o: int = if k < i {
                    k
                } else {
                    k + 1
                };
                assert(post[k] == pre[o]);
            }
            assert(mirror_wf(post));
            assert forall|d: Seq<u8>| #[trigger]
                mirror_has_dir(post, d) <==> mirror_has_dir(pre, d) && !(d == dir@
                    && mirror_dir_count(pre, dir@) == 1) by {
                if mirror_has_dir(post, d) {
                    let k = choose|k: int| 0 <= k < post.len() && post[k].dir@ == d;
                    let o: int = if k < i {
                        k
                    } else {
                        k + 1
                    };
                    assert(pre[o].dir@ == d);
                    assert(o != i ==> d != dir@);
                }
                if mirror_has_dir(pre, d) && d != dir@ {
                    let k = dir_at(pre, d);
                    assert(0 <= k < pre.len() && pre[k].dir@ == d);
                    assert(k != i);
                    let k2: int = if k < i {
                        k
                    } else {
                        k - 1
                    };
                    assert(post[k2].dir@ == d);
                }
            }
            assert forall|d: Seq<u8>, n: Seq<u8>|
                true implies (#[trigger] mirror_has(post, d, n) <==> mirror_has(pre, d, n) && !(d
                == dir@ && n == name@)) by {
                if d == dir@ {
                    assert(!mirror_has_dir(post, d));
                    if mirror_has(pre, d, n) {
                        assert(has_name(fpre, n));
                        let k = choose|k: int| 0 <= k < fpre.len() && fpre[k].name@ == n;
                        assert(k == 0);
                        assert(n == name@);
                    }
                } else {
                    if mirror_has_dir(pre, d) {
                        let k = dir_at(pre, d);
                        assert(0 <= k < pre.len() && pre[k].dir@ == d);
                        lemma_dir_at_is(pre, k);
                        assert(k != i);
                        let k2: int = if k < i {
                            k
                        } else {
                            k - 1
                        };
                        assert(post[k2] == pre[k]);
                        lemma_dir_at_is(post, k2);
                    } else {
                        assert(!mirror_has_dir(post, d));
                    }
                }
            }
            assert forall|d: Seq<u8>, n: Seq<u8>| mirror_has(post, d, n) implies #[trigger]
                mirror_data(post, d, n) == mirror_data(pre, d, n) by {
                let k = dir_at(pre, d);
                assert(0 <= k < pre.len() && pre[k].dir@ == d);
                lemma_dir_at_is(pre, k);
                assert(k != i);
                let k2: int = if k < i {
                    k
                } else {
                    k - 1
                };
                assert(post[k2] == pre[k]);
                lemma_dir_at_is(post, k2);
            }
        }
    }
}

} // verus!
