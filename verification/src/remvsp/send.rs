//! Sending side of RemVSP: cutting an encoded frame into fragments.
//!
//! A frame of `n` bytes is cut into `ceil(n / chunk_size)` fragments of
//! `chunk_size` bytes each, the last possibly shorter, with dense fragment
//! ids. Reassembling all fragments of a frame — in any arrival order, with
//! any duplication — yields the frame's bytes exactly
//! ([`lemma_scatter_gather`]).

use vstd::prelude::*;

use crate::bufops::copy_range;
use crate::remvsp::reconstruct::{
    accepts_fragment, is_complete_spec, reconstructed_byte, with_fragment, ReconstructionView,
};
use crate::remvsp::receive::empty_reconstruction;
use crate::remvsp::wire::{FragmentView, RemVSPFrameFragment, RemVSPFrameHeader};
use vstd::arithmetic::div_mod::lemma_fundamental_div_mod;
use vstd::set_lib::lemma_len_subset;

verus! {

/// Per-session transmission state: the id the next frame will carry.
/// Frame ids increase monotonically from one and never wrap within a
/// session.
pub struct RemVSPTransmissionState {
    current_frame_id: u64,
}

impl RemVSPTransmissionState {
    /// A fresh session: the first frame will carry id one.
    pub fn new() -> (r: Self)
        ensures
            r@ == 1u64,
    {
        RemVSPTransmissionState { current_frame_id: 1 }
    }

    /// Takes the id for the next frame and advances the counter, keeping
    /// ids strictly increasing.
    pub fn next_frame_id(&mut self) -> (r: u64)
        requires
            old(self)@ < u64::MAX,
        ensures
            r == old(self)@,
            final(self)@ == old(self)@ + 1,
    {
        let id = self.current_frame_id;
        self.current_frame_id = self.current_frame_id + 1;
        id
    }
}

impl View for RemVSPTransmissionState {
    type V = u64;

    closed spec fn view(&self) -> u64 {
        self.current_frame_id
    }
}

/// How many fragments a frame of `len` bytes needs at a given chunk size.
pub open spec fn chunk_count(len: nat, chunk: nat) -> nat {
    if chunk == 0 {
        0
    } else {
        ((len + chunk - 1) as int / chunk as int) as nat
    }
}

/// The bytes of the `k`-th chunk of a frame.
pub open spec fn chunk_data(frame: Seq<u8>, chunk: nat, k: int) -> Seq<u8> {
    let start = k * chunk;
    let end = if start + chunk <= frame.len() {
        start + chunk
    } else {
        frame.len() as int
    };
    frame.subrange(start, end)
}

/// The header shared by all fragments of one frame.
pub open spec fn spec_header(
    frame: Seq<u8>,
    chunk: u16,
    frame_id: u64,
    capture_timestamp: u128,
) -> RemVSPFrameHeader {
    RemVSPFrameHeader {
        frame_id,
        frame_fragments_count: chunk_count(frame.len(), chunk as nat) as u16,
        fragment_size: chunk,
        capture_timestamp,
    }
}

/// The `k`-th fragment of a frame.
pub open spec fn spec_fragment(
    frame: Seq<u8>,
    chunk: u16,
    frame_id: u64,
    capture_timestamp: u128,
    k: int,
) -> FragmentView {
    FragmentView {
        frame_header: spec_header(frame, chunk, frame_id, capture_timestamp),
        fragment_id: k as u16,
        data: chunk_data(frame, chunk as nat, k),
    }
}

/// The ceiling division that counts chunks stays below `bound` as long as
/// the frame fits `bound` chunks.
proof fn lemma_chunk_count_le(len: nat, chunk: nat, bound: nat)
    requires
        chunk > 0,
        len <= chunk * bound,
    ensures
        chunk_count(len, chunk) <= bound,
{
    let x = (len + chunk - 1) as int;
    lemma_fundamental_div_mod(x, chunk as int);
    let q = x / chunk as int;
    if q > bound {
        assert(chunk * q >= chunk * (bound + 1)) by (nonlinear_arith)
            requires
                q >= bound + 1,
                chunk > 0,
        ;
        assert(chunk * (bound + 1) == chunk * bound + chunk) by (nonlinear_arith);
    }
}

/// The chunks of a frame cover it: `count` chunks reach at least to its
/// end, and every chunk but the last is full.
proof fn lemma_chunk_count_covers(len: nat, chunk: nat)
    requires
        chunk > 0,
    ensures
        len <= chunk_count(len, chunk) * chunk,
        len > 0 ==> (chunk_count(len, chunk) - 1) * chunk < len,
        len == 0 ==> chunk_count(len, chunk) == 0,
{
    let x = (len + chunk - 1) as int;
    lemma_fundamental_div_mod(x, chunk as int);
    let q = x / chunk as int;
    assert(q * chunk == chunk * q) by (nonlinear_arith);
    assert((q - 1) * chunk == chunk * q - chunk) by (nonlinear_arith);
    if len == 0 {
        assert(x == chunk - 1);
        if q > 0 {
            assert(chunk * q >= chunk * 1) by (nonlinear_arith)
                requires
                    q >= 1,
                    chunk > 0,
            ;
        }
    }
}

/// Bounds and contents of a chunk: each chunk lies inside the frame, is at
/// most a full chunk long, and holds the frame's bytes at its offsets.
proof fn lemma_chunk_data_wf(frame: Seq<u8>, chunk: nat, k: int)
    requires
        chunk > 0,
        0 <= k < chunk_count(frame.len(), chunk),
    ensures
        0 <= k * chunk <= frame.len(),
        chunk_data(frame, chunk, k).len() <= chunk,
        chunk_data(frame, chunk, k).len() > 0,
        k * chunk + chunk_data(frame, chunk, k).len() <= frame.len(),
        forall|r: int|
            0 <= r < chunk_data(frame, chunk, k).len() ==> chunk_data(frame, chunk, k)[r]
                == frame[k * chunk + r],
{
    let count = chunk_count(frame.len(), chunk);
    lemma_chunk_count_covers(frame.len(), chunk);
    assert(k * chunk <= (count - 1) * chunk) by (nonlinear_arith)
        requires
            k <= count - 1,
            chunk > 0,
    ;
    assert((count - 1) * chunk < frame.len());
}

/// Cuts a frame into its fragments: `ceil(len / chunk_size)` of them, with
/// dense ids from zero, each carrying its chunk of the frame under one
/// shared header.
pub fn fragment_frame(
    frame_buffer: &Vec<u8>,
    chunk_size: u16,
    frame_id: u64,
    capture_timestamp: u128,
) -> (r: Vec<RemVSPFrameFragment>)
    requires
        chunk_size > 0,
        frame_buffer@.len() <= chunk_size as nat * 0xffff,
    ensures
        r@.len() == chunk_count(frame_buffer@.len(), chunk_size as nat),
        forall|k: int|
            0 <= k < r@.len() ==> (#[trigger] r@[k])@ == spec_fragment(
                frame_buffer@,
                chunk_size,
                frame_id,
                capture_timestamp,
                k,
            ),
{
    let len = frame_buffer.len();
    let cs = chunk_size as usize;
    proof {
        lemma_chunk_count_le(len as nat, cs as nat, 0xffff);
        lemma_chunk_count_covers(len as nat, cs as nat);
        assert(cs * 0xffff <= 0xffff * 0xffff) by (nonlinear_arith)
            requires
                cs <= 0xffff,
        ;
        assert(chunk_count(len as nat, cs as nat) * cs as nat == cs as nat * chunk_count(
            len as nat,
            cs as nat,
        )) by (nonlinear_arith);
    }
    let count = (len + cs - 1) / cs;
    let header = RemVSPFrameHeader {
        frame_id,
        frame_fragments_count: count as u16,
        fragment_size: chunk_size,
        capture_timestamp,
    };
    let mut out: Vec<RemVSPFrameFragment> = Vec::new();
    let mut k: usize = 0;
    while k < count
        invariant
            k <= count,
            count == chunk_count(frame_buffer@.len(), chunk_size as nat),
            count <= 0xffff,
            cs == chunk_size,
            cs > 0,
            len == frame_buffer@.len(),
            len <= count * cs,
            count > 0 ==> (count - 1) * cs < len,
            header == spec_header(frame_buffer@, chunk_size, frame_id, capture_timestamp),
            out@.len() == k,
            forall|j: int|
                0 <= j < k ==> (#[trigger] out@[j])@ == spec_fragment(
                    frame_buffer@,
                    chunk_size,
                    frame_id,
                    capture_timestamp,
                    j,
                ),
        decreases count - k,
    {
        proof {
            assert(k as int * cs + cs <= count * cs) by (nonlinear_arith)
                requires
                    k as int + 1 <= count,
                    cs > 0,
            ;
            assert(k as int * cs <= (count - 1) * cs) by (nonlinear_arith)
                requires
                    k as int <= count - 1,
                    cs > 0,
            ;
            assert(count * cs <= 0xffff * 0xffff) by (nonlinear_arith)
                requires
                    count <= 0xffff,
                    cs <= 0xffff,
            ;
        }
        let start = k * cs;
        let end = if start + cs <= len {
            start + cs
        } else {
            len
        };
        let data = copy_range(frame_buffer, start, end);
        out.push(RemVSPFrameFragment { frame_header: header, fragment_id: k as u16, data });
        k = k + 1;
    }
    out
}

/// Offering a sequence of fragments to a reassembly state, in order.
pub open spec fn register_all(st: ReconstructionView, arrivals: Seq<FragmentView>) -> ReconstructionView
    decreases arrivals.len(),
{
    if arrivals.len() == 0 {
        st
    } else {
        let st1 = if accepts_fragment(st, arrivals.first()) {
            with_fragment(st, arrivals.first())
        } else {
            st
        };
        register_all(st1, arrivals.drop_first())
    }
}

/// The ids below `count`, as the receiver's fragment map holds them.
pub open spec fn id_range(count: nat) -> Set<u16> {
    Set::new(|k: u16| (k as nat) < count)
}

/// The set of ids below `count` has exactly `count` elements.
proof fn lemma_id_range_len(count: nat)
    requires
        count <= 0x10000,
    ensures
        id_range(count).finite(),
        id_range(count).len() == count,
    decreases count,
{
    broadcast use vstd::set::axiom_set_insert_len;

    if count == 0 {
        assert(id_range(0) =~= Set::<u16>::empty());
    } else {
        lemma_id_range_len((count - 1) as nat);
        assert(id_range(count) =~= id_range((count - 1) as nat).insert((count - 1) as u16));
    }
}

/// Whether a reassembly state is a faithful partial reassembly of a frame:
/// no fragment yet, or some of the frame's own chunks under the frame's
/// header.
pub open spec fn partial_reassembly(
    st: ReconstructionView,
    frame: Seq<u8>,
    chunk: u16,
    frame_id: u64,
    capture_timestamp: u128,
) -> bool {
    let h = spec_header(frame, chunk, frame_id, capture_timestamp);
    let count = h.frame_fragments_count as nat;
    match st.frame_header {
        None => st.fragments == Map::<u16, Seq<u8>>::empty(),
        Some(h2) => {
            &&& h2 == h
            &&& st.fragments.dom().finite()
            &&& st.fragments.dom().subset_of(id_range(count))
            &&& forall|id: u16|
                st.fragments.dom().contains(id) ==> st.fragments[id] == chunk_data(
                    frame,
                    chunk as nat,
                    id as int,
                )
        },
    }
}

/// Offering any run of a frame's own fragments to a faithful partial
/// reassembly leaves a faithful partial reassembly holding exactly the old
/// ids plus the ids that arrived.
proof fn lemma_register_all_faithful(
    st: ReconstructionView,
    arrivals: Seq<FragmentView>,
    frame: Seq<u8>,
    chunk: u16,
    frame_id: u64,
    capture_timestamp: u128,
)
    requires
        chunk > 0,
        frame.len() <= chunk as nat * 0xffff,
        partial_reassembly(st, frame, chunk, frame_id, capture_timestamp),
        st.fragments.dom().len() <= chunk_count(frame.len(), chunk as nat),
        forall|j: int|
            0 <= j < arrivals.len() ==> exists|k: int|
                0 <= k < chunk_count(frame.len(), chunk as nat) && #[trigger] arrivals[j]
                    == spec_fragment(frame, chunk, frame_id, capture_timestamp, k),
    ensures
        partial_reassembly(
            register_all(st, arrivals),
            frame,
            chunk,
            frame_id,
            capture_timestamp,
        ),
        register_all(st, arrivals).fragments.dom() =~= st.fragments.dom().union(
            Set::new(
                |id: u16| exists|j: int| 0 <= j < arrivals.len() && (#[trigger] arrivals[j]).fragment_id == id,
            ),
        ),
        register_all(st, arrivals).fragments.dom().len() <= chunk_count(
            frame.len(),
            chunk as nat,
        ),
        arrivals.len() > 0 || st.frame_header is Some ==> register_all(st, arrivals).frame_header
            == Some(spec_header(frame, chunk, frame_id, capture_timestamp)),
        st.first_reception == register_all(st, arrivals).first_reception,
    decreases arrivals.len(),
{
    broadcast use vstd::set::axiom_set_insert_len;
    broadcast use vstd::set::axiom_set_remove_len;
    broadcast use vstd::set::axiom_set_empty_len;

    let h = spec_header(frame, chunk, frame_id, capture_timestamp);
    let count = chunk_count(frame.len(), chunk as nat);
    lemma_chunk_count_le(frame.len(), chunk as nat, 0xffff);
    lemma_id_range_len(count);
    if arrivals.len() == 0 {
        assert(register_all(st, arrivals).fragments.dom() =~= st.fragments.dom().union(
            Set::new(
                |id: u16| exists|j: int| 0 <= j < arrivals.len() && (#[trigger] arrivals[j]).fragment_id == id,
            ),
        ));
    } else {
        let f = arrivals.first();
        let k = choose|k: int|
            0 <= k < count && arrivals[0] == spec_fragment(
                frame,
                chunk,
                frame_id,
                capture_timestamp,
                k,
            );
        assert(f.frame_header == h);
        assert(f.fragment_id == k as u16);
        assert(f.fragment_id as int == k);
        lemma_chunk_data_wf(frame, chunk as nat, k);
        assert(f.data.len() <= chunk as nat);
        assert((f.fragment_id as nat) < h.frame_fragments_count as nat);
        let accepted = accepts_fragment(st, f);
        let st1 = if accepted {
            with_fragment(st, f)
        } else {
            st
        };
        if !st.fragments.dom().contains(f.fragment_id) {
            // A fresh id of a faithful frame is always accepted: while an id
            // is missing, the reassembly cannot already hold `count` ids.
            match st.frame_header {
                Some(h2) => {
                    assert(st.fragments.dom().subset_of(
                        id_range(count).remove(f.fragment_id),
                    ));
                    lemma_len_subset(st.fragments.dom(), id_range(count).remove(f.fragment_id));
                    assert(id_range(count).contains(f.fragment_id));
                    assert(id_range(count).remove(f.fragment_id).len() == count - 1);
                    assert(st.fragments.dom().len() < count);
                },
                None => {
                    assert(st.fragments.dom() =~= Set::<u16>::empty());
                    assert(st.fragments.dom().len() < count);
                },
            }
            assert(accepted);
        }
        assert(partial_reassembly(st1, frame, chunk, frame_id, capture_timestamp));
        assert(st1.fragments.dom().len() <= count) by {
            if accepted {
                lemma_len_subset(st1.fragments.dom(), id_range(count));
            }
        }
        lemma_register_all_faithful(st1, arrivals.drop_first(), frame, chunk, frame_id, capture_timestamp);
        assert(register_all(st, arrivals) == register_all(st1, arrivals.drop_first()));
        assert(register_all(st, arrivals).fragments.dom() =~= st.fragments.dom().union(
            Set::new(
                |id: u16| exists|j: int| 0 <= j < arrivals.len() && (#[trigger] arrivals[j]).fragment_id == id,
            ),
        )) by {
            assert forall|id: u16|
                register_all(st1, arrivals.drop_first()).fragments.dom().contains(id) implies st
                .fragments.dom().contains(id) || exists|j: int|
                0 <= j < arrivals.len() && (#[trigger] arrivals[j]).fragment_id == id by {
                if st1.fragments.dom().contains(id) {
                    if !st.fragments.dom().contains(id) {
                        assert(arrivals[0].fragment_id == id);
                    }
                } else {
                    let j = choose|j: int|
                        0 <= j < arrivals.drop_first().len() && (#[trigger] arrivals.drop_first()[j]).fragment_id
                            == id;
                    assert(arrivals[j + 1].fragment_id == id);
                }
            }
            assert forall|id: u16|
                st.fragments.dom().contains(id) || exists|j: int|
                    0 <= j < arrivals.len() && (#[trigger] arrivals[j]).fragment_id
                        == id implies register_all(st1, arrivals.drop_first()).fragments.dom().contains(
                id,
            ) by {
                if st.fragments.dom().contains(id) || arrivals[0].fragment_id == id {
                    assert(st1.fragments.dom().contains(id));
                } else {
                    let j = choose|j: int|
                        0 <= j < arrivals.len() && (#[trigger] arrivals[j]).fragment_id == id;
                    assert(arrivals.drop_first()[j - 1].fragment_id == id);
                }
            }
        }
    }
}

/// Law: reassembling all fragments of a frame, arriving in any order and
/// with any duplication, completes the frame and yields its bytes exactly.
pub proof fn lemma_scatter_gather(
    frame: Seq<u8>,
    chunk: u16,
    frame_id: u64,
    capture_timestamp: u128,
    arrivals: Seq<FragmentView>,
    first_arrival: u128,
)
    requires
        chunk > 0,
        0 < frame.len() <= chunk as nat * 0xffff,
        // every arrival is one of the frame's fragments
        forall|j: int|
            0 <= j < arrivals.len() ==> exists|k: int|
                0 <= k < chunk_count(frame.len(), chunk as nat) && #[trigger] arrivals[j]
                    == spec_fragment(frame, chunk, frame_id, capture_timestamp, k),
        // every fragment of the frame arrives at least once
        forall|k: int|
            0 <= k < chunk_count(frame.len(), chunk as nat) ==> exists|j: int|
                0 <= j < arrivals.len() && arrivals[j] == #[trigger] spec_fragment(
                    frame,
                    chunk,
                    frame_id,
                    capture_timestamp,
                    k,
                ),
    ensures
        ({
            let st = register_all(empty_reconstruction(first_arrival), arrivals);
            &&& st.frame_header == Some(spec_header(frame, chunk, frame_id, capture_timestamp))
            &&& is_complete_spec(st)
            &&& forall|i: int, b: u8|
                0 <= i < frame.len() ==> reconstructed_byte(
                    st.fragments,
                    spec_header(frame, chunk, frame_id, capture_timestamp),
                    i,
                    b,
                ) == frame[i]
        }),
{
    let st0 = empty_reconstruction(first_arrival);
    let h = spec_header(frame, chunk, frame_id, capture_timestamp);
    let count = chunk_count(frame.len(), chunk as nat);
    let fs = chunk as int;
    lemma_chunk_count_le(frame.len(), chunk as nat, 0xffff);
    lemma_chunk_count_covers(frame.len(), chunk as nat);
    lemma_id_range_len(count);
    lemma_register_all_faithful(st0, arrivals, frame, chunk, frame_id, capture_timestamp);
    let st = register_all(st0, arrivals);
    assert(arrivals.len() > 0) by {
        assert(count > 0);
        let f0 = spec_fragment(frame, chunk, frame_id, capture_timestamp, 0);
        assert(exists|j: int| 0 <= j < arrivals.len() && arrivals[j] == f0);
    }
    assert(st.fragments.dom() =~= id_range(count)) by {
        assert forall|id: u16| id_range(count).contains(id) implies st.fragments.dom().contains(
            id,
        ) by {
            let j = choose|j: int|
                0 <= j < arrivals.len() && #[trigger] arrivals[j] == spec_fragment(
                    frame,
                    chunk,
                    frame_id,
                    capture_timestamp,
                    id as int,
                );
            assert(arrivals[j].fragment_id == id);
        }
        assert forall|id: u16| st.fragments.dom().contains(id) implies id_range(count).contains(
            id,
        ) by {}
    }
    assert(is_complete_spec(st));
    assert forall|i: int, b: u8| 0 <= i < frame.len() implies reconstructed_byte(
        st.fragments,
        h,
        i,
        b,
    ) == frame[i] by {
        lemma_fundamental_div_mod(i, fs);
        let q = i / fs;
        let r = i % fs;
        assert(q < count) by {
            if q >= count {
                assert(fs * q >= fs * count) by (nonlinear_arith)
                    requires
                        q >= count,
                        fs > 0,
                ;
                assert(count * fs == fs * count) by (nonlinear_arith);
            }
        }
        assert(0 <= q < 0x10000);
        assert(st.fragments.dom().contains(q as u16));
        assert(st.fragments[q as u16] == chunk_data(frame, chunk as nat, q));
        let start = q * fs;
        assert(q * fs == fs * q) by (nonlinear_arith);
        let data = chunk_data(frame, chunk as nat, q);
        assert(r < data.len());
        assert(data[r] == frame[start + r]);
        assert(start + r == i);
    }
}

} // verus!
