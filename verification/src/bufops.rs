//! Small verified operations on owned byte buffers.

use vstd::prelude::*;

verus! {

/// A zero-filled buffer of `n` bytes.
pub fn zero_vec(n: usize) -> (r: Vec<u8>)
    ensures
        r@.len() == n,
        forall|i: int| 0 <= i < n ==> r@[i] == 0u8,
{
    let mut out: Vec<u8> = Vec::new();
    let mut i: usize = 0;
    while i < n
        invariant
            i <= n,
            out@.len() == i,
            forall|j: int| 0 <= j < i ==> out@[j] == 0u8,
        decreases n - i,
    {
        out.push(0u8);
        i = i + 1;
    }
    out
}

/// A copy of `src[from..to]`.
pub fn copy_range(src: &Vec<u8>, from: usize, to: usize) -> (r: Vec<u8>)
    requires
        from <= to <= src@.len(),
    ensures
        r@ == src@.subrange(from as int, to as int),
{
    let mut out: Vec<u8> = Vec::new();
    let mut i: usize = from;
    while i < to
        invariant
            from <= i <= to <= src@.len(),
            out@ == src@.subrange(from as int, i as int),
        decreases to - i,
    {
        out.push(src[i]);
        proof {
            assert(src@.subrange(from as int, i + 1 as int)
                =~= src@.subrange(from as int, i as int).push(src@[i as int]));
        }
        i = i + 1;
    }
    out
}

/// Overwrites `dst[offset .. offset + src.len()]` with the bytes of `src`;
/// the rest of `dst` is untouched.
pub fn write_at(dst: &mut Vec<u8>, offset: usize, src: &Vec<u8>)
    requires
        offset + src@.len() <= old(dst)@.len(),
    ensures
        final(dst)@.len() == old(dst)@.len(),
        forall|i: int|
            0 <= i < old(dst)@.len() ==> final(dst)@[i] == (if offset <= i < offset + src@.len() {
                src@[i - offset]
            } else {
                old(dst)@[i]
            }),
{
    let n = src.len();
    let dlen = dst.len();
    let mut i: usize = 0;
    while i < n
        invariant
            i <= n,
            n == src@.len(),
            dlen == dst@.len(),
            offset + n <= dlen,
            dst@.len() == old(dst)@.len(),
            forall|j: int|
                0 <= j < dst@.len() ==> dst@[j] == (if offset <= j < offset + i {
                    src@[j - offset]
                } else {
                    old(dst)@[j]
                }),
        decreases n - i,
    {
        dst.set(offset + i, src[i]);
        i = i + 1;
    }
}

} // verus!
