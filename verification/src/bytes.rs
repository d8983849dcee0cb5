//! Verified helpers over byte vectors: comparison, concatenation, prefix
//! extraction, suffix tests, and cloning. Digests, file names and file
//! contents are all carried as bytes, so these are the only string-like
//! operations the engine needs.

use vstd::prelude::*;

verus! {

/// True exactly when the two byte vectors hold the same bytes.
pub fn bytes_eq(a: &Vec<u8>, b: &Vec<u8>) -> (r: bool)
    ensures
        r <==> a@ == b@,
{
    if a.len() != b.len() {
        return false;
    }
    let mut i: usize = 0;
    while i < a.len()
        invariant
            i <= a.len(),
            a@.len() == b@.len(),
            forall|k: int| 0 <= k < i ==> a@[k] == b@[k],
        decreases a.len() - i,
    {
        if a[i] != b[i] {
            return false;
        }
        i += 1;
    }
    proof {
        assert(a@ =~= b@);
    }
    true
}

/// The concatenation of two byte vectors.
pub fn concat_bytes(a: &Vec<u8>, b: &Vec<u8>) -> (r: Vec<u8>)
    ensures
        r@ == a@ + b@,
{
    let mut r: Vec<u8> = Vec::new();
    let mut i: usize = 0;
    while i < a.len()
        invariant
            i <= a.len(),
            r@ == a@.take(i as int),
        decreases a.len() - i,
    {
        r.push(a[i]);
        proof {
            assert(a@.take(i as int + 1) =~= a@.take(i as int).push(a@[i as int]));
        }
        i += 1;
    }
    let mut j: usize = 0;
    while j < b.len()
        invariant
            j <= b.len(),
            r@ == a@ + b@.take(j as int),
        decreases b.len() - j,
    {
        r.push(b[j]);
        proof {
            assert(a@ + b@.take(j as int + 1) =~= (a@ + b@.take(j as int)).push(b@[j as int]));
        }
        j += 1;
    }
    proof {
        assert(a@.take(a@.len() as int) =~= a@);
        assert(b@.take(b@.len() as int) =~= b@);
    }
    r
}

/// The first `n` bytes of a vector.
pub fn prefix_bytes(a: &Vec<u8>, n: usize) -> (r: Vec<u8>)
    requires
        n <= a.len(),
    ensures
        r@ == a@.take(n as int),
{
    let mut r: Vec<u8> = Vec::new();
    let mut i: usize = 0;
    while i < n
        invariant
            i <= n <= a.len(),
            r@ == a@.take(i as int),
        decreases n - i,
    {
        r.push(a[i]);
        proof {
            assert(a@.take(i as int + 1) =~= a@.take(i as int).push(a@[i as int]));
        }
        i += 1;
    }
    r
}

/// True exactly when `name` ends in `suffix`.
pub fn ends_with(name: &Vec<u8>, suffix: &Vec<u8>) -> (r: bool)
    ensures
        r <==> (name@.len() >= suffix@.len() && name@.skip(name@.len() - suffix@.len())
            == suffix@),
{
    if name.len() < suffix.len() {
        return false;
    }
    let nlen = name.len();
    let off = nlen - suffix.len();
    let mut i: usize = 0;
    while i < suffix.len()
        invariant
            i <= suffix.len(),
            nlen == name@.len(),
            off == name@.len() - suffix@.len(),
            forall|k: int| 0 <= k < i ==> name@[off + k] == suffix@[k],
        decreases suffix.len() - i,
    {
        proof {
            assert(off + i < nlen);
        }
        if name[off + i] != suffix[i] {
            proof {
                assert(name@.skip(off as int)[i as int] == name@[off + i]);
            }
            return false;
        }
        i += 1;
    }
    proof {
        assert(name@.skip(off as int) =~= suffix@);
    }
    true
}

/// A copy of the byte vector holding the same bytes.
pub fn clone_bytes(v: &Vec<u8>) -> (r: Vec<u8>)
    ensures
        r@ == v@,
{
    let r = v.clone();
    proof {
        assert forall|i: int| 0 <= i < v@.len() implies r@[i] == v@[i] by {
            assert(cloned::<u8>(v[i], r[i]));
        }
        assert(r@ =~= v@);
    }
    r
}

} // verus!
