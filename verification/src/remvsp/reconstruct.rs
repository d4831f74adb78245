//! Per-frame reassembly state: the fragments received so far and the header
//! they share.

use vstd::prelude::*;

use crate::bufops::write_at;
use crate::remvsp::wire::{FragmentView, RemVSPFrameFragment, RemVSPFrameHeader};
use vstd::arithmetic::div_mod::{lemma_fundamental_div_mod, lemma_fundamental_div_mod_converse};

verus! {

/// Mathematical model of one frame's reassembly state.
pub struct ReconstructionView {
    pub frame_header: Option<RemVSPFrameHeader>,
    pub fragments: Map<u16, Seq<u8>>,
    pub first_reception: u128,
}

/// The map denoted by a fragment table.
pub open spec fn fragments_map(s: Seq<(u16, Vec<u8>)>) -> Map<u16, Seq<u8>>
    decreases s.len(),
{
    if s.len() == 0 {
        Map::empty()
    } else {
        fragments_map(s.drop_last()).insert(s.last().0, s.last().1@)
    }
}

/// All fragment ids of the table are pairwise distinct.
pub open spec fn distinct_fragment_ids(s: Seq<(u16, Vec<u8>)>) -> bool {
    forall|i: int, j: int| 0 <= i < j < s.len() ==> s[i].0 != s[j].0
}

/// The domain of the denoted map is exactly the set of ids in the table.
pub proof fn lemma_fragments_map_dom(s: Seq<(u16, Vec<u8>)>, k: u16)
    ensures
        fragments_map(s).dom().contains(k) <==> exists|i: int| 0 <= i < s.len() && s[i].0 == k,
    decreases s.len(),
{
    if s.len() > 0 {
        lemma_fragments_map_dom(s.drop_last(), k);
        if s.last().0 != k && fragments_map(s).dom().contains(k) {
            let i = choose|i: int| 0 <= i < s.drop_last().len() && s.drop_last()[i].0 == k;
            assert(s[i].0 == k);
        }
        if exists|i: int| 0 <= i < s.len() && s[i].0 == k {
            let i = choose|i: int| 0 <= i < s.len() && s[i].0 == k;
            if i < s.len() - 1 {
                assert(s.drop_last()[i].0 == k);
            }
        }
    }
}

/// With distinct ids, the denoted map sends each id of the table to the
/// payload stored beside it.
pub proof fn lemma_fragments_map_index(s: Seq<(u16, Vec<u8>)>, i: int)
    requires
        distinct_fragment_ids(s),
        0 <= i < s.len(),
    ensures
        fragments_map(s).dom().contains(s[i].0),
        fragments_map(s)[s[i].0] == s[i].1@,
    decreases s.len(),
{
    lemma_fragments_map_dom(s, s[i].0);
    if i < s.len() - 1 {
        assert(s.drop_last()[i] == s[i]);
        lemma_fragments_map_index(s.drop_last(), i);
        assert(s.last().0 != s[i].0);
    }
}

/// With distinct ids, the table and the denoted map have the same size.
pub proof fn lemma_fragments_map_len(s: Seq<(u16, Vec<u8>)>)
    requires
        distinct_fragment_ids(s),
    ensures
        fragments_map(s).dom().finite(),
        fragments_map(s).dom().len() == s.len(),
    decreases s.len(),
{
    broadcast use vstd::set::axiom_set_insert_len;

    if s.len() > 0 {
        lemma_fragments_map_len(s.drop_last());
        lemma_fragments_map_dom(s.drop_last(), s.last().0);
    }
}

/// Total number of payload bytes stored across all fragments.
pub open spec fn total_payload_len(fragments: Map<u16, Seq<u8>>) -> nat
    decreases fragments.dom().len() when fragments.dom().finite()
    via total_payload_len_decreases
{
    if fragments.dom().finite() && fragments.dom().len() > 0 {
        let k = fragments.dom().choose();
        fragments[k].len() + total_payload_len(fragments.remove(k))
    } else {
        0
    }
}

#[via_fn]
proof fn total_payload_len_decreases(fragments: Map<u16, Seq<u8>>) {
    broadcast use vstd::set::axiom_set_remove_len;

    if fragments.dom().finite() && fragments.dom().len() > 0 {
        assert(fragments.dom().contains(fragments.dom().choose()));
    }
}

/// The byte a reassembled frame leaves at offset `i` of an output buffer
/// whose prior content was `old_byte`: a stored payload's byte where one of
/// the fragments covers the offset, the prior content elsewhere. Fragment
/// `id` covers offsets `id * fragment_size` up to the actual length of its
/// payload.
pub open spec fn reconstructed_byte(
    fragments: Map<u16, Seq<u8>>,
    h: RemVSPFrameHeader,
    i: int,
    old_byte: u8,
) -> u8 {
    let fs = h.fragment_size as int;
    if fs > 0 && 0 <= i && i / fs < 0x10000 && fragments.dom().contains((i / fs) as u16)
        && i % fs < fragments[(i / fs) as u16].len() {
        fragments[(i / fs) as u16][i % fs]
    } else {
        old_byte
    }
}

/// Whether one of the first `k` fragments of the table covers offset `i`.
pub open spec fn covered_by_prefix(frags: Seq<(u16, Vec<u8>)>, k: int, fs: int, i: int) -> bool {
    exists|j: int|
        0 <= j < k && (#[trigger] frags[j]).0 as int * fs <= i < frags[j].0 as int * fs
            + frags[j].1@.len()
}

/// Reassembly state of one frame: the header of the first accepted
/// fragment, the payloads received so far keyed by fragment id, and the
/// timestamp at which the first fragment arrived.
pub struct FrameReconstructionState {
    frame_header: Option<RemVSPFrameHeader>,
    received_fragments: Vec<(u16, Vec<u8>)>,
    first_reception: u128,
}

impl View for FrameReconstructionState {
    type V = ReconstructionView;

    closed spec fn view(&self) -> ReconstructionView {
        ReconstructionView {
            frame_header: self.frame_header,
            fragments: fragments_map(self.received_fragments@),
            first_reception: self.first_reception,
        }
    }
}

/// Whether a reassembly state accepts a fragment: the fragment must carry
/// the header under which the frame is being rebuilt (or be its first
/// fragment), its id must lie below the declared fragment count, its
/// payload must not exceed the declared fragment size, its id must be new,
/// and the frame must not already be complete.
pub open spec fn accepts_fragment(state: ReconstructionView, f: FragmentView) -> bool {
    let h = match state.frame_header {
        Some(h) => h,
        None => f.frame_header,
    };
    &&& f.frame_header == h
    &&& (f.fragment_id as nat) < h.frame_fragments_count as nat
    &&& f.data.len() <= h.fragment_size as nat
    &&& !state.fragments.dom().contains(f.fragment_id)
    &&& state.fragments.dom().len() < h.frame_fragments_count as nat
}

/// The reassembly state after a fragment is accepted.
pub open spec fn with_fragment(state: ReconstructionView, f: FragmentView) -> ReconstructionView {
    ReconstructionView {
        frame_header: Some(
            match state.frame_header {
                Some(h) => h,
                None => f.frame_header,
            },
        ),
        fragments: state.fragments.insert(f.fragment_id, f.data),
        ..state
    }
}

/// Whether every declared fragment has arrived.
pub open spec fn is_complete_spec(state: ReconstructionView) -> bool {
    match state.frame_header {
        Some(h) => state.fragments.dom().len() == h.frame_fragments_count as nat,
        None => false,
    }
}

impl FrameReconstructionState {
    #[verifier::type_invariant]
    spec fn type_inv(self) -> bool {
        &&& distinct_fragment_ids(self.received_fragments@)
        &&& match self.frame_header {
            Some(h) => self.received_fragments@.len() <= h.frame_fragments_count as nat
                && forall|i: int|
                0 <= i < self.received_fragments@.len()
                    ==> (#[trigger] self.received_fragments@[i]).0 < h.frame_fragments_count
                    && self.received_fragments@[i].1@.len() <= h.fragment_size as nat,
            None => self.received_fragments@.len() == 0,
        }
    }

    /// An empty reassembly state stamped with the arrival time of the
    /// fragment that caused its creation.
    pub fn new(now_millis: u128) -> (r: Self)
        ensures
            r@.frame_header is None,
            r@.fragments == Map::<u16, Seq<u8>>::empty(),
            r@.first_reception == now_millis,
    {
        FrameReconstructionState {
            frame_header: None,
            received_fragments: Vec::new(),
            first_reception: now_millis,
        }
    }

    /// The timestamp at which this frame's first fragment arrived.
    pub fn first_reception(&self) -> (r: u128)
        ensures
            r == self@.first_reception,
    {
        self.first_reception
    }

    /// The header under which this frame is being rebuilt, once one fragment
    /// has been accepted.
    pub fn header(&self) -> (r: Option<RemVSPFrameHeader>)
        ensures
            r == self@.frame_header,
    {
        self.frame_header
    }

    /// Whether a fragment with this fragment's id has already been stored.
    pub fn has_received_fragment(&self, fragment: &RemVSPFrameFragment) -> (r: bool)
        ensures
            r == self@.fragments.dom().contains(fragment.fragment_id),
    {
        proof {
            use_type_invariant(&*self);
            lemma_fragments_map_dom(self.received_fragments@, fragment.fragment_id);
        }
        let n = self.received_fragments.len();
        let mut i: usize = 0;
        while i < n
            invariant
                i <= n,
                n == self.received_fragments@.len(),
                forall|j: int|
                    0 <= j < i ==> (#[trigger] self.received_fragments@[j]).0
                        != fragment.fragment_id,
            decreases n - i,
        {
            if self.received_fragments[i].0 == fragment.fragment_id {
                proof {
                    let tbl = self.received_fragments@;
                    assert(tbl[i as int].0 == fragment.fragment_id);
                    assert(exists|j: int| 0 <= j < tbl.len() && tbl[j].0 == fragment.fragment_id);
                    lemma_fragments_map_dom(tbl, fragment.fragment_id);
                }
                return true;
            }
            i = i + 1;
        }
        false
    }

    /// Stores a fragment's payload under its id. A fragment that does not
    /// fit the frame being rebuilt — wrong header, id at or above the
    /// declared count, payload longer than the declared fragment size, a
    /// duplicate id, or a frame already complete — is discarded and the
    /// state is unchanged.
    pub fn register_fragment(&mut self, fragment: RemVSPFrameFragment)
        ensures
            final(self)@ == if accepts_fragment(old(self)@, fragment@) {
                with_fragment(old(self)@, fragment@)
            } else {
                old(self)@
            },
    {
        proof {
            use_type_invariant(&*self);
            lemma_fragments_map_len(self.received_fragments@);
        }
        let header = match self.frame_header {
            Some(h) => h,
            None => fragment.frame_header,
        };
        let same_header = fragment.frame_header.frame_id == header.frame_id
            && fragment.frame_header.frame_fragments_count == header.frame_fragments_count
            && fragment.frame_header.fragment_size == header.fragment_size
            && fragment.frame_header.capture_timestamp == header.capture_timestamp;
        if !same_header {
            return ;
        }
        if !(fragment.fragment_id < header.frame_fragments_count) {
            return ;
        }
        if !(fragment.data.len() <= header.fragment_size as usize) {
            return ;
        }
        if !(self.received_fragments.len() < header.frame_fragments_count as usize) {
            return ;
        }
        if self.has_received_fragment(&fragment) {
            return ;
        }
        proof {
            assert(fragment.frame_header == header);
            lemma_fragments_map_dom(self.received_fragments@, fragment.fragment_id);
            assert(self.received_fragments@.push(
                (fragment.fragment_id, fragment.data),
            ).drop_last() =~= self.received_fragments@);
        }
        self.frame_header = Some(header);
        let id = fragment.fragment_id;
        let mut table = Vec::new();
        core::mem::swap(&mut table, &mut self.received_fragments);
        table.push((id, fragment.data));
        core::mem::swap(&mut table, &mut self.received_fragments);
    }

    /// Whether every declared fragment has arrived.
    pub fn is_complete(&self) -> (r: bool)
        ensures
            r == is_complete_spec(self@),
    {
        proof {
            use_type_invariant(&*self);
            lemma_fragments_map_len(self.received_fragments@);
        }
        match self.frame_header {
            Some(h) => self.received_fragments.len() == h.frame_fragments_count as usize,
            None => false,
        }
    }

    /// Copies every stored payload into `buffer` at its fragment's offset —
    /// fragment id times the header's declared fragment size — using each
    /// payload's actual length, and returns the total number of payload
    /// bytes written. Bytes of `buffer` no fragment covers are untouched.
    pub fn reconstruct(self, buffer: &mut Vec<u8>) -> (written: usize)
        requires
            self@.frame_header is Some,
            old(buffer)@.len() >= self@.frame_header.unwrap().frame_fragments_count as nat
                * self@.frame_header.unwrap().fragment_size as nat,
        ensures
            final(buffer)@.len() == old(buffer)@.len(),
            forall|i: int|
                0 <= i < old(buffer)@.len() ==> final(buffer)@[i] == reconstructed_byte(
                    self@.fragments,
                    self@.frame_header.unwrap(),
                    i,
                    old(buffer)@[i],
                ),
            written == total_payload_len(self@.fragments),
    {
        proof {
            use_type_invariant(&self);
        }
        let h = match self.frame_header {
            Some(h) => h,
            None => unreached(),
        };
        let fs = h.fragment_size as usize;
        let frags = self.received_fragments;
        let n = frags.len();
        let mut written: usize = 0;
        let mut k: usize = 0;
        while k < n
            invariant
                k <= n,
                n == frags@.len(),
                fs == h.fragment_size,
                n <= h.frame_fragments_count as nat,
                distinct_fragment_ids(frags@),
                forall|i: int|
                    0 <= i < frags@.len() ==> (#[trigger] frags@[i]).0 < h.frame_fragments_count
                        && frags@[i].1@.len() <= fs,
                buffer@.len() == old(buffer)@.len(),
                old(buffer)@.len() >= h.frame_fragments_count as nat * h.fragment_size as nat,
                written == total_payload_len(fragments_map(frags@.take(k as int))),
                written <= k as nat * fs as nat,
                forall|j: int, off: int|
                    0 <= j < k && 0 <= off < frags@[j].1@.len() ==> buffer@[frags@[j].0 as int * fs
                        + off] == (#[trigger] frags@[j].1@[off]),
                forall|i: int|
                    0 <= i < buffer@.len() && !covered_by_prefix(frags@, k as int, fs as int, i)
                        ==> buffer@[i] == old(buffer)@[i],
            decreases n - k,
        {
            let ghost pre = buffer@;
            let id = frags[k].0;
            proof {
                lemma_offset_bounds(
                    id as nat,
                    h.frame_fragments_count as nat,
                    fs as nat,
                    frags@[k as int].1@.len(),
                    old(buffer)@.len(),
                );
            }
            let offset = (id as usize) * fs;
            write_at(buffer, offset, &frags[k].1);
            proof {
                assert((k as nat + 1) * fs as nat == k as nat * fs as nat + fs as nat)
                    by (nonlinear_arith);
                assert((k as nat + 1) * fs as nat <= 0xffff * 0xffff) by (nonlinear_arith)
                    requires
                        k as nat + 1 <= 0xffff,
                        fs as nat <= 0xffff,
                ;
                lemma_total_payload_step(frags@, k as int);
                assert(written as nat + frags@[k as int].1@.len() <= (k as nat + 1) * fs as nat)
                    by (nonlinear_arith)
                    requires
                        written as nat <= k as nat * fs as nat,
                        frags@[k as int].1@.len() <= fs as nat,
                ;
            }
            written = written + frags[k].1.len();
            proof {
                assert forall|j: int, off: int|
                    0 <= j < k + 1 && 0 <= off < frags@[j].1@.len() implies buffer@[frags@[j].0
                    as int * fs + off] == (#[trigger] frags@[j].1@[off]) by {
                    let p = frags@[j].0 as int * fs + off;
                    lemma_offset_bounds(
                        frags@[j].0 as nat,
                        h.frame_fragments_count as nat,
                        fs as nat,
                        frags@[j].1@.len(),
                        old(buffer)@.len(),
                    );
                    if j < k {
                        if offset <= p < offset + frags@[k as int].1@.len() {
                            lemma_covering_unique(frags@[j].0, frags@[k as int].0, fs as int, p);
                            assert(false);
                        }
                        assert(buffer@[p] == pre[p]);
                    } else {
                        assert(buffer@[p] == frags@[k as int].1@[p - offset]);
                    }
                }
                assert forall|i: int|
                    0 <= i < buffer@.len() && !covered_by_prefix(
                        frags@,
                        k + 1,
                        fs as int,
                        i,
                    ) implies buffer@[i] == old(buffer)@[i] by {
                    assert(!covered_by_prefix(frags@, k as int, fs as int, i));
                    assert(!(frags@[k as int].0 as int * fs <= i < frags@[k as int].0 as int * fs
                        + frags@[k as int].1@.len()));
                    assert(buffer@[i] == pre[i]);
                }
            }
            k = k + 1;
        }
        proof {
            assert(frags@.take(n as int) =~= frags@);
            assert forall|i: int|
                0 <= i < old(buffer)@.len() implies buffer@[i] == reconstructed_byte(
                fragments_map(frags@),
                h,
                i,
                old(buffer)@[i],
            ) by {
                lemma_reconstruct_bridge(frags@, h, old(buffer)@, buffer@, i);
            }
        }
        written
    }
}

/// Bounds on a fragment's byte offset inside the output buffer.
proof fn lemma_offset_bounds(id: nat, count: nat, fs: nat, len: nat, buflen: nat)
    requires
        id < count,
        count <= 0xffff,
        fs <= 0xffff,
        len <= fs,
        buflen >= count * fs,
    ensures
        id * fs + fs <= count * fs,
        id * fs + len <= buflen,
        count * fs <= 0xffff * 0xffff,
{
    assert((id + 1) * fs == id * fs + fs) by (nonlinear_arith);
    assert((id + 1) * fs <= count * fs) by (nonlinear_arith)
        requires
            id + 1 <= count,
    ;
    assert(count * fs <= 0xffff * 0xffff) by (nonlinear_arith)
        requires
            count <= 0xffff,
            fs <= 0xffff,
    ;
}

/// An offset inside a fragment's region determines the fragment id: two
/// distinct ids cannot cover the same offset.
proof fn lemma_covering_unique(a: u16, b: u16, fs: int, p: int)
    requires
        fs > 0,
        a as int * fs <= p < a as int * fs + fs,
        b as int * fs <= p < b as int * fs + fs,
    ensures
        a == b,
{
    lemma_fundamental_div_mod_converse(p, fs, a as int, p - a as int * fs);
    lemma_fundamental_div_mod_converse(p, fs, b as int, p - b as int * fs);
}

/// Adding the `k`-th fragment adds its payload length to the running total.
proof fn lemma_total_payload_step(frags: Seq<(u16, Vec<u8>)>, k: int)
    requires
        distinct_fragment_ids(frags),
        0 <= k < frags.len(),
    ensures
        total_payload_len(fragments_map(frags.take(k + 1))) == total_payload_len(
            fragments_map(frags.take(k)),
        ) + frags[k].1@.len(),
{
    assert(frags.take(k + 1).drop_last() =~= frags.take(k));
    assert forall|x: int, y: int| 0 <= x < y < frags.take(k).len() implies frags.take(k)[x].0
        != frags.take(k)[y].0 by {
        assert(frags[x].0 != frags[y].0);
    }
    lemma_fragments_map_len(frags.take(k));
    lemma_fragments_map_dom(frags.take(k), frags[k].0);
    assert(!fragments_map(frags.take(k)).dom().contains(frags[k].0)) by {
        assert forall|i: int| 0 <= i < k implies frags.take(k)[i].0 != frags[k].0 by {
            assert(frags[i].0 != frags[k].0);
        }
    }
    assert(fragments_map(frags.take(k + 1)) == fragments_map(frags.take(k)).insert(
        frags[k].0,
        frags[k].1@,
    ));
    lemma_total_payload_insert(fragments_map(frags.take(k)), frags[k].0, frags[k].1@);
}

/// Inserting a new id adds its payload length to the total.
proof fn lemma_total_payload_insert(m: Map<u16, Seq<u8>>, k: u16, v: Seq<u8>)
    requires
        m.dom().finite(),
        !m.dom().contains(k),
    ensures
        total_payload_len(m.insert(k, v)) == total_payload_len(m) + v.len(),
    decreases m.dom().len(),
{
    broadcast use vstd::set::axiom_set_insert_len;
    broadcast use vstd::set::axiom_set_remove_len;

    let m2 = m.insert(k, v);
    let c = m2.dom().choose();
    assert(m2.dom().len() == m.dom().len() + 1);
    assert(m2.dom().contains(c));
    if c == k {
        assert(m2.remove(c) =~= m);
    } else {
        assert(m.dom().contains(c));
        assert(m2.remove(c) =~= m.remove(c).insert(k, v));
        lemma_total_payload_insert(m.remove(c), k, v);
        lemma_total_payload_unfold_at(m, c);
        assert(m2[c] == m[c]);
    }
}

/// The total can be unfolded at any present id, not only the chosen one.
proof fn lemma_total_payload_unfold_at(m: Map<u16, Seq<u8>>, c: u16)
    requires
        m.dom().finite(),
        m.dom().contains(c),
    ensures
        total_payload_len(m) == total_payload_len(m.remove(c)) + m[c].len(),
    decreases m.dom().len(),
{
    broadcast use vstd::set::axiom_set_remove_len;

    let d = m.dom().choose();
    assert(m.dom().len() > 0);
    assert(m.dom().contains(d));
    if d == c {
    } else {
        lemma_total_payload_unfold_at(m.remove(d), c);
        lemma_total_payload_unfold_at(m.remove(c), d);
        assert(m.remove(d).remove(c) =~= m.remove(c).remove(d));
        assert(m.remove(d)[c] == m[c]);
        assert(m.remove(c)[d] == m[d]);
    }
}

/// Relates the pointwise facts the reassembly loop establishes to
/// `reconstructed_byte`.
proof fn lemma_reconstruct_bridge(
    frags: Seq<(u16, Vec<u8>)>,
    h: RemVSPFrameHeader,
    buf0: Seq<u8>,
    buf1: Seq<u8>,
    i: int,
)
    requires
        distinct_fragment_ids(frags),
        forall|j: int|
            0 <= j < frags.len() ==> (#[trigger] frags[j]).0 < h.frame_fragments_count
                && frags[j].1@.len() <= h.fragment_size as nat,
        buf1.len() == buf0.len(),
        0 <= i < buf0.len(),
        forall|j: int, off: int|
            0 <= j < frags.len() && 0 <= off < frags[j].1@.len() ==> buf1[frags[j].0 as int
                * (h.fragment_size as int) + off] == (#[trigger] frags[j].1@[off]),
        !covered_by_prefix(frags, frags.len() as int, h.fragment_size as int, i) ==> buf1[i]
            == buf0[i],
    ensures
        buf1[i] == reconstructed_byte(fragments_map(frags), h, i, buf0[i]),
{
    let fs = h.fragment_size as int;
    let fmap = fragments_map(frags);
    if fs > 0 && i / fs < 0x10000 && fmap.dom().contains((i / fs) as u16) && i % fs < fmap[(i
        / fs) as u16].len() {
        let id = (i / fs) as u16;
        lemma_fragments_map_dom(frags, id);
        let j = choose|j: int| 0 <= j < frags.len() && frags[j].0 == id;
        lemma_fragments_map_index(frags, j);
        lemma_fundamental_div_mod(i, fs);
        let off = i % fs;
        let q = i / fs;
        assert(0 <= q < 0x10000);
        assert(frags[j].0 as int == q);
        assert(q * fs == fs * q) by (nonlinear_arith);
        assert(frags[j].0 as int * fs + off == i);
        assert(buf1[i] == frags[j].1@[off]);
    } else {
        if covered_by_prefix(frags, frags.len() as int, fs, i) {
            let j = choose|j: int|
                0 <= j < frags.len() && (#[trigger] frags[j]).0 as int * fs <= i < frags[j].0
                    as int * fs + frags[j].1@.len();
            assert(frags[j].1@.len() <= fs);
            assert(fs > 0);
            lemma_fundamental_div_mod_converse(i, fs, frags[j].0 as int, i - frags[j].0 as int * fs);
            lemma_fragments_map_index(frags, j);
            assert(false);
        }
    }
}

} // verus!
