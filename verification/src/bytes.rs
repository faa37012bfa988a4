//! Small helpers on byte vectors that the codec and the store share.

use vstd::prelude::*;

verus! {

/// Byte-for-byte equality of two byte vectors.
pub fn bytes_eq(a: &Vec<u8>, b: &Vec<u8>) -> (r: bool)
    ensures
        r == (a@ == b@),
{
    if a.len() != b.len() {
        proof {
            assert(a@ != b@);
        }
        return false;
    }
    let mut i: usize = 0;
    while i < a.len()
        invariant
            i <= a.len(),
            a.len() == b.len(),
            forall|j: int| 0 <= j < i ==> a@[j] == b@[j],
        decreases a.len() - i,
    {
        if a[i] != b[i] {
            return false;
        }
        i = i + 1;
    }
    proof {
        assert(a@ =~= b@);
    }
    true
}

/// Appends every byte of `src` to `dst`.
pub fn push_all(dst: &mut Vec<u8>, src: &Vec<u8>)
    ensures
        final(dst)@ == old(dst)@ + src@,
{
    let mut i: usize = 0;
    while i < src.len()
        invariant
            i <= src.len(),
            dst@ == old(dst)@ + src@.take(i as int),
        decreases src.len() - i,
    {
        dst.push(src[i]);
        i = i + 1;
        proof {
            assert(dst@ =~= old(dst)@ + src@.take(i as int));
        }
    }
    proof {
        assert(old(dst)@ + src@.take(src@.len() as int) =~= old(dst)@ + src@);
    }
}

/// A fresh vector holding the same bytes.
pub fn copy_bytes(src: &Vec<u8>) -> (r: Vec<u8>)
    ensures
        r@ == src@,
{
    let mut out: Vec<u8> = Vec::new();
    push_all(&mut out, src);
    out
}

/// True when `a` begins with `p`.
pub fn starts_with(a: &Vec<u8>, p: &Vec<u8>) -> (r: bool)
    ensures
        r == (a@.len() >= p@.len() && a@.subrange(0, p@.len() as int) == p@),
{
    if a.len() < p.len() {
        return false;
    }
    let mut i: usize = 0;
    while i < p.len()
        invariant
            i <= p.len(),
            p.len() <= a.len(),
            forall|j: int| 0 <= j < i ==> a@[j] == p@[j],
        decreases p.len() - i,
    {
        if a[i] != p[i] {
            proof {
                assert(a@.subrange(0, p@.len() as int)[i as int] != p@[i as int]);
            }
            return false;
        }
        i = i + 1;
    }
    proof {
        assert(a@.subrange(0, p@.len() as int) =~= p@);
    }
    true
}

} // verus!
