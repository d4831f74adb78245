//! Little-endian encoding of unsigned integers into byte sequences.
//!
//! The RemVSP wire format lays every numeric field out as fixed-width
//! little-endian bytes; these functions are the reference encoding and its
//! inverse, proved to round-trip.

use vstd::prelude::*;

verus! {

/// 256 to the power `n`: the number of values `n` bytes can hold.
pub open spec fn pow256(n: nat) -> nat
    decreases n,
{
    if n == 0 {
        1
    } else {
        256 * pow256((n - 1) as nat)
    }
}

/// The `n` low-order bytes of `v`, least significant first.
pub open spec fn le_bytes(v: nat, n: nat) -> Seq<u8>
    decreases n,
{
    if n == 0 {
        Seq::empty()
    } else {
        seq![(v % 256) as u8] + le_bytes(v / 256, (n - 1) as nat)
    }
}

/// The value a little-endian byte sequence denotes.
pub open spec fn le_value(s: Seq<u8>) -> nat
    decreases s.len(),
{
    if s.len() == 0 {
        0
    } else {
        (s[0] + 256 * le_value(s.drop_first())) as nat
    }
}

pub proof fn lemma_le_bytes_len(v: nat, n: nat)
    ensures
        le_bytes(v, n).len() == n,
    decreases n,
{
    if n > 0 {
        lemma_le_bytes_len(v / 256, (n - 1) as nat);
    }
}

/// A sequence of `n` bytes denotes a value below `256^n`.
pub proof fn lemma_le_value_bound(s: Seq<u8>)
    ensures
        le_value(s) < pow256(s.len()),
    decreases s.len(),
{
    if s.len() > 0 {
        lemma_le_value_bound(s.drop_first());
        assert(le_value(s) == s[0] + 256 * le_value(s.drop_first()));
        assert(256 * le_value(s.drop_first()) <= 256 * (pow256(s.drop_first().len()) - 1))
            by (nonlinear_arith)
            requires
                le_value(s.drop_first()) <= pow256(s.drop_first().len()) - 1,
        ;
    }
}

/// Encoding then decoding returns the value, provided it fits in `n` bytes.
pub proof fn lemma_le_round_trip(v: nat, n: nat)
    requires
        v < pow256(n),
    ensures
        le_value(le_bytes(v, n)) == v,
    decreases n,
{
    if n > 0 {
        assert(v / 256 < pow256((n - 1) as nat)) by (nonlinear_arith)
            requires
                v < pow256(n),
                pow256(n) == 256 * pow256((n - 1) as nat),
        ;
        lemma_le_round_trip(v / 256, (n - 1) as nat);
        lemma_le_bytes_len(v / 256, (n - 1) as nat);
        let s = le_bytes(v, n);
        assert(s.drop_first() =~= le_bytes(v / 256, (n - 1) as nat));
        assert(v % 256 + 256 * (v / 256) == v) by (nonlinear_arith);
    } else {
        assert(v == 0);
    }
}

/// Appends the `n` low-order bytes of `v` to `out`, least significant first.
pub fn push_le_bytes(out: &mut Vec<u8>, v: u128, n: usize)
    ensures
        final(out)@ == old(out)@ + le_bytes(v as nat, n as nat),
{
    let mut cur: u128 = v;
    let mut i: usize = 0;
    while i < n
        invariant
            i <= n,
            out@ + le_bytes(cur as nat, (n - i) as nat) == old(out)@ + le_bytes(v as nat, n as nat),
        decreases n - i,
    {
        let ghost pre = out@;
        let b: u8 = (cur % 256) as u8;
        out.push(b);
        proof {
            assert(le_bytes(cur as nat, (n - i) as nat)
                == seq![b] + le_bytes(cur as nat / 256, (n - i - 1) as nat));
            assert(pre.push(b) + le_bytes(cur as nat / 256, (n - i - 1) as nat)
                =~= pre + le_bytes(cur as nat, (n - i) as nat));
        }
        cur = cur / 256;
        i = i + 1;
    }
    proof {
        assert(le_bytes(cur as nat, 0) =~= Seq::<u8>::empty());
        assert(out@ =~= out@ + le_bytes(cur as nat, 0));
    }
}

/// Decodes the `n` bytes of `buf` starting at `start` as a little-endian
/// value. At most sixteen bytes fit the result type.
pub fn read_le_bytes(buf: &Vec<u8>, start: usize, n: usize) -> (r: u128)
    requires
        n <= 16,
        start + n <= buf@.len(),
    ensures
        r == le_value(buf@.subrange(start as int, start + n)),
{
    let ghost full = buf@.subrange(start as int, start + n);
    let len = buf.len();
    let mut acc: u128 = 0;
    let mut j: usize = n;
    while j > 0
        invariant
            j <= n,
            n <= 16,
            len == buf@.len(),
            start + n <= len,
            full == buf@.subrange(start as int, start + n),
            acc == le_value(full.skip(j as int)),
        decreases j,
    {
        proof {
            let tail = full.skip(j as int);
            let tail1 = full.skip(j as int - 1);
            lemma_le_value_bound(tail);
            lemma_pow256_monotonic(tail.len() as nat, 15);
            assert(pow256(15) == 0x1000000000000000000000000000000) by {
                reveal_with_fuel(pow256, 17);
            }
            assert(tail1.drop_first() =~= tail);
            assert(tail1[0] == buf@[start + j - 1]);
        }
        acc = acc * 256 + (buf[start + j - 1] as u128);
        j = j - 1;
    }
    proof {
        assert(full.skip(0) =~= full);
    }
    acc
}

/// Larger byte counts can hold every value smaller ones can.
pub proof fn lemma_pow256_monotonic(a: nat, b: nat)
    requires
        a <= b,
    ensures
        pow256(a) <= pow256(b),
    decreases b,
{
    if a < b && b > 0 {
        lemma_pow256_monotonic(a, (b - 1) as nat);
        assert(pow256(b) == 256 * pow256((b - 1) as nat));
        assert(pow256((b - 1) as nat) <= 256 * pow256((b - 1) as nat)) by (nonlinear_arith)
            requires
                pow256((b - 1) as nat) >= 0,
        ;
    }
}

} // verus!
