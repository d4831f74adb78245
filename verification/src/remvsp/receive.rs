//! Reception side of RemVSP: a watermark of the last reconstructed frame
//! and the partial reassemblies of the frames still in flight.
//!
//! Frames at or below the watermark are stale: their fragments are
//! discarded, and reconstructing a frame purges every reassembly at or below
//! it, so no frame is ever rebuilt twice.

use vstd::prelude::*;

use crate::receive::ReceivedFrame;
use crate::remvsp::reconstruct::{
    accepts_fragment, is_complete_spec, reconstructed_byte, total_payload_len, with_fragment,
    FrameReconstructionState, ReconstructionView,
};
use crate::remvsp::wire::{FragmentView, RemVSPFrameFragment, RemVSPFrameHeader};

verus! {

/// Mathematical model of the receiver's state.
pub struct ReceptionView {
    pub last_reconstructed_frame: u64,
    pub frames_in_reception: Map<u64, ReconstructionView>,
}

/// The map denoted by a reassembly table.
pub open spec fn reception_map(s: Seq<(u64, FrameReconstructionState)>) -> Map<
    u64,
    ReconstructionView,
>
    decreases s.len(),
{
    if s.len() == 0 {
        Map::empty()
    } else {
        reception_map(s.drop_last()).insert(s.last().0, s.last().1@)
    }
}

/// All frame ids of the table are pairwise distinct.
pub open spec fn distinct_frame_ids(s: Seq<(u64, FrameReconstructionState)>) -> bool {
    forall|i: int, j: int| 0 <= i < j < s.len() ==> s[i].0 != s[j].0
}

/// The domain of the denoted map is exactly the set of ids in the table.
pub proof fn lemma_reception_map_dom(s: Seq<(u64, FrameReconstructionState)>, k: u64)
    ensures
        reception_map(s).dom().contains(k) <==> exists|i: int| 0 <= i < s.len() && s[i].0 == k,
    decreases s.len(),
{
    if s.len() > 0 {
        lemma_reception_map_dom(s.drop_last(), k);
        if s.last().0 != k && reception_map(s).dom().contains(k) {
            let i = choose|i: int| 0 <= i < s.drop_last().len() && s.drop_last()[i].0 == k;
            assert(s[i].0 == k);
        }
        if exists|i: int| 0 <= i < s.len() && s[i].0 == k {
            let i = choose|i: int| 0 <= i < s.len() && s[i].0 == k;
            if i < s.len() - 1 {
                assert(s.drop_last()[i].0 == k);
            }
        }
    }
}

/// With distinct ids, the denoted map sends each id of the table to the
/// reassembly state stored beside it.
pub proof fn lemma_reception_map_index(s: Seq<(u64, FrameReconstructionState)>, i: int)
    requires
        distinct_frame_ids(s),
        0 <= i < s.len(),
    ensures
        reception_map(s).dom().contains(s[i].0),
        reception_map(s)[s[i].0] == s[i].1@,
    decreases s.len(),
{
    lemma_reception_map_dom(s, s[i].0);
    if i < s.len() - 1 {
        assert(s.drop_last()[i] == s[i]);
        lemma_reception_map_index(s.drop_last(), i);
        assert(s.last().0 != s[i].0);
    }
}

/// Removing the entry at `i` removes its id from the denoted map.
pub proof fn lemma_reception_map_remove(s: Seq<(u64, FrameReconstructionState)>, i: int)
    requires
        distinct_frame_ids(s),
        0 <= i < s.len(),
    ensures
        distinct_frame_ids(s.remove(i)),
        reception_map(s.remove(i)) == reception_map(s).remove(s[i].0),
    decreases s.len(),
{
    let s2 = s.remove(i);
    assert forall|x: int, y: int| 0 <= x < y < s2.len() implies s2[x].0 != s2[y].0 by {
        let x0 = if x < i {
            x
        } else {
            x + 1
        };
        let y0 = if y < i {
            y
        } else {
            y + 1
        };
        assert(s2[x] == s[x0] && s2[y] == s[y0]);
        assert(s[x0].0 != s[y0].0);
    }
    lemma_reception_map_dom(s.drop_last(), s[i].0);
    if i == s.len() - 1 {
        assert(s2 =~= s.drop_last());
        assert(reception_map(s2) =~= reception_map(s).remove(s[i].0));
    } else {
        assert(s2.drop_last() =~= s.drop_last().remove(i));
        assert(s.drop_last()[i] == s[i]);
        lemma_reception_map_remove(s.drop_last(), i);
        assert(s2.last() == s.last());
        assert(s.last().0 != s[i].0);
        assert(reception_map(s2) =~= reception_map(s).remove(s[i].0));
    }
}

/// An empty reassembly stamped with its creation time.
pub open spec fn empty_reconstruction(now: u128) -> ReconstructionView {
    ReconstructionView {
        frame_header: None,
        fragments: Map::empty(),
        first_reception: now,
    }
}

/// The reassembly a frame's entry holds after one fragment is offered to
/// it: the entry is created empty if the frame is new, and the fragment is
/// stored or discarded by the reassembly's own acceptance rule.
pub open spec fn registered_entry(pre: ReceptionView, f: FragmentView, now: u128) -> ReconstructionView {
    let id = f.frame_header.frame_id;
    let st0 = if pre.frames_in_reception.dom().contains(id) {
        pre.frames_in_reception[id]
    } else {
        empty_reconstruction(now)
    };
    if accepts_fragment(st0, f) {
        with_fragment(st0, f)
    } else {
        st0
    }
}

/// The reception map with every frame at or below the watermark purged.
pub open spec fn purge_map(m: Map<u64, ReconstructionView>, watermark: u64) -> Map<
    u64,
    ReconstructionView,
> {
    Map::new(|k: u64| m.dom().contains(k) && k > watermark, |k: u64| m[k])
}

/// The number of output-buffer bytes a frame's reassembly may touch.
pub open spec fn required_output_len(h: RemVSPFrameHeader) -> nat {
    h.frame_fragments_count as nat * h.fragment_size as nat
}

/// The reception delay of a frame completed at `now`: elapsed milliseconds
/// since its first fragment arrived, zero under a clock that moved
/// backwards.
pub open spec fn reception_delay(entry: ReconstructionView, now: u128) -> u128 {
    if now >= entry.first_reception {
        (now - entry.first_reception) as u128
    } else {
        0
    }
}

/// One step of the receiver on an incoming fragment: what the state, the
/// output buffer and the outcome become.
///
/// A fragment of a stale frame — its id at or below the watermark — is
/// discarded outright. Otherwise it is offered to its frame's reassembly.
/// If that frame is then complete and the output buffer can hold it, the
/// frame is reassembled into the buffer, the watermark advances to its id,
/// and every reassembly at or below the watermark is purged; otherwise
/// nothing further happens.
pub open spec fn reception_step(
    pre: ReceptionView,
    f: FragmentView,
    now: u128,
    post: ReceptionView,
    outcome: Option<ReceivedFrame>,
    buf0: Seq<u8>,
    buf1: Seq<u8>,
) -> bool {
    let id = f.frame_header.frame_id;
    if id <= pre.last_reconstructed_frame {
        post == pre && outcome is None && buf1 == buf0
    } else {
        let entry = registered_entry(pre, f, now);
        let frames1 = pre.frames_in_reception.insert(id, entry);
        if is_complete_spec(entry) && required_output_len(entry.frame_header.unwrap())
            <= buf0.len() {
            let h = entry.frame_header.unwrap();
            &&& post.last_reconstructed_frame == id
            &&& post.frames_in_reception == purge_map(frames1, id)
            &&& buf1.len() == buf0.len()
            &&& forall|i: int|
                0 <= i < buf0.len() ==> buf1[i] == reconstructed_byte(
                    entry.fragments,
                    h,
                    i,
                    buf0[i],
                )
            &&& outcome == Some(
                ReceivedFrame {
                    buffer_size: total_payload_len(entry.fragments) as usize,
                    capture_timestamp: h.capture_timestamp,
                    reception_delay: reception_delay(entry, now),
                },
            )
        } else {
            &&& post.last_reconstructed_frame == pre.last_reconstructed_frame
            &&& post.frames_in_reception == frames1
            &&& outcome is None
            &&& buf1 == buf0
        }
    }
}

/// The receiver's state: the watermark of the last reconstructed frame and
/// the partial reassemblies of the frames still in flight.
pub struct RemVSPReceptionState {
    last_reconstructed_frame: u64,
    frames_in_reception: Vec<(u64, FrameReconstructionState)>,
}

impl View for RemVSPReceptionState {
    type V = ReceptionView;

    closed spec fn view(&self) -> ReceptionView {
        ReceptionView {
            last_reconstructed_frame: self.last_reconstructed_frame,
            frames_in_reception: reception_map(self.frames_in_reception@),
        }
    }
}

impl Default for RemVSPReceptionState {
    /// A fresh receiver: watermark zero, nothing in reception.
    fn default() -> (r: Self)
        ensures
            r@.last_reconstructed_frame == 0,
            r@.frames_in_reception == Map::<u64, ReconstructionView>::empty(),
    {
        RemVSPReceptionState { last_reconstructed_frame: 0, frames_in_reception: Vec::new() }
    }
}

impl RemVSPReceptionState {
    #[verifier::type_invariant]
    spec fn type_inv(self) -> bool {
        distinct_frame_ids(self.frames_in_reception@)
    }

    /// The id of the last frame this receiver reconstructed.
    pub fn last_reconstructed_frame(&self) -> (r: u64)
        ensures
            r == self@.last_reconstructed_frame,
    {
        self.last_reconstructed_frame
    }

    /// Whether a frame is stale: already reconstructed, or older than the
    /// last reconstructed frame.
    pub fn is_frame_stale(&self, frame_id: u64) -> (r: bool)
        ensures
            r == (frame_id <= self@.last_reconstructed_frame),
    {
        frame_id <= self.last_reconstructed_frame
    }

    /// Index of the reassembly entry for `frame_id`, if any.
    fn find_frame(&self, frame_id: u64) -> (r: Option<usize>)
        ensures
            match r {
                Some(i) => i < self.frames_in_reception@.len()
                    && self.frames_in_reception@[i as int].0 == frame_id,
                None => forall|i: int|
                    0 <= i < self.frames_in_reception@.len()
                        ==> (#[trigger] self.frames_in_reception@[i]).0 != frame_id,
            },
    {
        let n = self.frames_in_reception.len();
        let mut i: usize = 0;
        while i < n
            invariant
                i <= n,
                n == self.frames_in_reception@.len(),
                forall|j: int|
                    0 <= j < i ==> (#[trigger] self.frames_in_reception@[j]).0 != frame_id,
            decreases n - i,
        {
            if self.frames_in_reception[i].0 == frame_id {
                return Some(i);
            }
            i = i + 1;
        }
        None
    }

    /// Offers a fragment to its frame's reassembly, creating the entry —
    /// stamped with `now_millis` as its first reception time — if the frame
    /// is new. The watermark is untouched; staleness is the caller's check.
    pub fn register_frame_fragment(&mut self, fragment: RemVSPFrameFragment, now_millis: u128)
        ensures
            final(self)@.last_reconstructed_frame == old(self)@.last_reconstructed_frame,
            final(self)@.frames_in_reception == old(self)@.frames_in_reception.insert(
                fragment@.frame_header.frame_id,
                registered_entry(old(self)@, fragment@, now_millis),
            ),
    {
        proof {
            use_type_invariant(&*self);
        }
        let frame_id = fragment.frame_header.frame_id;
        let idx = self.find_frame(frame_id);
        let mut table = Vec::new();
        core::mem::swap(&mut table, &mut self.frames_in_reception);
        let ghost table0 = table@;
        proof {
            lemma_reception_map_dom(table0, frame_id);
        }
        let mut entry: (u64, FrameReconstructionState) = match idx {
            Some(i) => {
                proof {
                    lemma_reception_map_index(table0, i as int);
                    lemma_reception_map_remove(table0, i as int);
                }
                table.remove(i)
            },
            None => (frame_id, FrameReconstructionState::new(now_millis)),
        };
        entry.1.register_fragment(fragment);
        proof {
            lemma_reception_map_dom(table@, frame_id);
            assert(table@.push(entry).drop_last() =~= table@);
            assert forall|x: int, y: int|
                0 <= x < y < table@.push(entry).len() implies table@.push(entry)[x].0 != table@.push(
                entry,
            )[y].0 by {
                if y < table@.len() {
                } else {
                    assert(table@.push(entry)[y] == entry);
                }
            }
        }
        table.push(entry);
        core::mem::swap(&mut table, &mut self.frames_in_reception);
        proof {
            assert(final(self)@.frames_in_reception =~= old(self)@.frames_in_reception.insert(
                fragment@.frame_header.frame_id,
                registered_entry(old(self)@, fragment@, now_millis),
            ));
        }
    }

    /// Whether the frame's reassembly holds every declared fragment. The
    /// frame must be in reception.
    pub fn is_frame_complete(&self, frame_id: u64) -> (r: bool)
        requires
            self@.frames_in_reception.dom().contains(frame_id),
        ensures
            r == is_complete_spec(self@.frames_in_reception[frame_id]),
    {
        proof {
            use_type_invariant(&*self);
            lemma_reception_map_dom(self.frames_in_reception@, frame_id);
        }
        match self.find_frame(frame_id) {
            Some(i) => {
                proof {
                    lemma_reception_map_index(self.frames_in_reception@, i as int);
                }
                self.frames_in_reception[i].1.is_complete()
            },
            None => unreached(),
        }
    }

    /// The header of a frame in reception, once one of its fragments has
    /// been accepted. The frame must be in reception.
    pub fn frame_header_of(&self, frame_id: u64) -> (r: Option<RemVSPFrameHeader>)
        requires
            self@.frames_in_reception.dom().contains(frame_id),
        ensures
            r == self@.frames_in_reception[frame_id].frame_header,
    {
        proof {
            use_type_invariant(&*self);
            lemma_reception_map_dom(self.frames_in_reception@, frame_id);
        }
        match self.find_frame(frame_id) {
            Some(i) => {
                proof {
                    lemma_reception_map_index(self.frames_in_reception@, i as int);
                }
                self.frames_in_reception[i].1.header()
            },
            None => unreached(),
        }
    }

    /// Forgets a frame's partial reassembly.
    pub fn drop_frame_data(&mut self, frame_id: u64)
        ensures
            final(self)@.last_reconstructed_frame == old(self)@.last_reconstructed_frame,
            final(self)@.frames_in_reception == old(self)@.frames_in_reception.remove(frame_id),
    {
        proof {
            use_type_invariant(&*self);
            lemma_reception_map_dom(self.frames_in_reception@, frame_id);
        }
        let idx = self.find_frame(frame_id);
        match idx {
            Some(i) => {
                proof {
                    lemma_reception_map_remove(self.frames_in_reception@, i as int);
                }
                let mut table = Vec::new();
                core::mem::swap(&mut table, &mut self.frames_in_reception);
                table.remove(i);
                core::mem::swap(&mut table, &mut self.frames_in_reception);
            },
            None => {
                proof {
                    assert(old(self)@.frames_in_reception.remove(frame_id)
                        =~= old(self)@.frames_in_reception);
                }
            },
        }
    }

    /// Reassembles a complete frame into `output_buffer`, advances the
    /// watermark to its id, and purges every reassembly at or below the new
    /// watermark. Returns the reception delay against `now_millis` and the
    /// number of payload bytes written.
    pub fn reconstruct_frame(
        &mut self,
        frame_id: u64,
        output_buffer: &mut Vec<u8>,
        now_millis: u128,
    ) -> (r: (u128, usize))
        requires
            old(self)@.frames_in_reception.dom().contains(frame_id),
            old(self)@.frames_in_reception[frame_id].frame_header is Some,
            old(output_buffer)@.len() >= required_output_len(
                old(self)@.frames_in_reception[frame_id].frame_header.unwrap(),
            ),
            frame_id > old(self)@.last_reconstructed_frame,
        ensures
            final(self)@.last_reconstructed_frame == frame_id,
            final(self)@.frames_in_reception == purge_map(
                old(self)@.frames_in_reception,
                frame_id,
            ),
            final(output_buffer)@.len() == old(output_buffer)@.len(),
            forall|i: int|
                0 <= i < old(output_buffer)@.len() ==> final(output_buffer)@[i]
                    == reconstructed_byte(
                    old(self)@.frames_in_reception[frame_id].fragments,
                    old(self)@.frames_in_reception[frame_id].frame_header.unwrap(),
                    i,
                    old(output_buffer)@[i],
                ),
            r.0 == reception_delay(old(self)@.frames_in_reception[frame_id], now_millis),
            r.1 == total_payload_len(old(self)@.frames_in_reception[frame_id].fragments),
    {
        proof {
            use_type_invariant(&*self);
            lemma_reception_map_dom(self.frames_in_reception@, frame_id);
        }
        let idx = self.find_frame(frame_id);
        let i = match idx {
            Some(i) => i,
            None => unreached(),
        };
        let mut table = Vec::new();
        core::mem::swap(&mut table, &mut self.frames_in_reception);
        let ghost full0 = table@;
        proof {
            lemma_reception_map_index(full0, i as int);
            lemma_reception_map_remove(full0, i as int);
        }
        let entry = table.remove(i);
        let kept = purge_below(table, frame_id);
        proof {
            assert(purge_map(reception_map(full0).remove(frame_id), frame_id) =~= purge_map(
                reception_map(full0),
                frame_id,
            ));
        }
        let mut kept = kept;
        core::mem::swap(&mut kept, &mut self.frames_in_reception);
        self.last_reconstructed_frame = frame_id;

        let first = entry.1.first_reception();
        let delay: u128 = if now_millis >= first {
            now_millis - first
        } else {
            0
        };
        let written = entry.1.reconstruct(output_buffer);
        (delay, written)
    }

    /// Handles one incoming fragment: discards it if its frame is stale,
    /// otherwise registers it, and reassembles the frame into
    /// `output_buffer` when the fragment completes it and the buffer can
    /// hold it. See [`reception_step`] for the exact transition.
    pub fn handle_fragment(
        &mut self,
        fragment: RemVSPFrameFragment,
        now_millis: u128,
        output_buffer: &mut Vec<u8>,
    ) -> (r: Option<ReceivedFrame>)
        ensures
            reception_step(
                old(self)@,
                fragment@,
                now_millis,
                final(self)@,
                r,
                old(output_buffer)@,
                final(output_buffer)@,
            ),
            // the watermark never decreases, and moves only to the id of a
            // frame reconstructed by this call
            final(self)@.last_reconstructed_frame >= old(self)@.last_reconstructed_frame,
            r is None ==> final(self)@.last_reconstructed_frame == old(self)@.last_reconstructed_frame
                && final(output_buffer)@ == old(output_buffer)@,
            // a frame at or below the watermark is never reconstructed; a
            // reconstruction leaves nothing at or below the new watermark
            r is Some ==> fragment@.frame_header.frame_id > old(self)@.last_reconstructed_frame
                && final(self)@.last_reconstructed_frame == fragment@.frame_header.frame_id
                && forall|k: u64|
                #[trigger] final(self)@.frames_in_reception.dom().contains(k)
                    ==> k > final(self)@.last_reconstructed_frame,
    {
        let frame_id = fragment.frame_header.frame_id;
        if self.is_frame_stale(frame_id) {
            return None;
        }
        let ghost pre = self@;
        self.register_frame_fragment(fragment, now_millis);
        let ghost entry = registered_entry(pre, fragment@, now_millis);
        if !self.is_frame_complete(frame_id) {
            return None;
        }
        let header = match self.frame_header_of(frame_id) {
            Some(h) => h,
            None => unreached(),
        };
        proof {
            assert(required_output_len(header) <= 0xffff * 0xffff) by (nonlinear_arith)
                requires
                    header.frame_fragments_count <= 0xffff,
                    header.fragment_size <= 0xffff,
            ;
        }
        let required = (header.frame_fragments_count as usize) * (header.fragment_size as usize);
        if output_buffer.len() < required {
            return None;
        }
        let (delay, written) = self.reconstruct_frame(frame_id, output_buffer, now_millis);
        proof {
            assert(purge_map(pre.frames_in_reception.insert(frame_id, entry), frame_id)
                =~= purge_map(pre.frames_in_reception.insert(frame_id, entry), frame_id));
        }
        Some(
            ReceivedFrame {
                buffer_size: written,
                capture_timestamp: header.capture_timestamp,
                reception_delay: delay,
            },
        )
    }
}

/// The reassembly table with every frame at or below the watermark
/// removed.
fn purge_below(table: Vec<(u64, FrameReconstructionState)>, watermark: u64) -> (r: Vec<
    (u64, FrameReconstructionState),
>)
    requires
        distinct_frame_ids(table@),
    ensures
        distinct_frame_ids(r@),
        reception_map(r@) == purge_map(reception_map(table@), watermark),
        forall|l: int| 0 <= l < r@.len() ==> (#[trigger] r@[l]).0 > watermark,
{
    let ghost base = table@;
    let mut table = table;
    let mut kept: Vec<(u64, FrameReconstructionState)> = Vec::new();
    proof {
        assert(table@ =~= base.take(table@.len() as int));
    }
    while table.len() > 0
        invariant
            table@.len() <= base.len(),
            table@ =~= base.take(table@.len() as int),
            distinct_frame_ids(base),
            distinct_frame_ids(kept@),
            forall|l: int| 0 <= l < kept@.len() ==> (#[trigger] kept@[l]).0 > watermark,
            forall|j: int, l: int|
                0 <= j < table@.len() && 0 <= l < kept@.len() ==> (#[trigger] table@[j]).0 != (
                #[trigger] kept@[l]).0,
            purge_map(reception_map(table@), watermark).union_prefer_right(reception_map(kept@))
                =~= purge_map(reception_map(base), watermark),
        decreases table@.len(),
    {
        let ghost t_pre = table@;
        let e = match table.pop() {
            Some(e) => e,
            None => unreached(),
        };
        proof {
            assert(t_pre.drop_last() =~= table@);
            assert(base.take(t_pre.len() as int).drop_last() =~= base.take(t_pre.len() - 1));
            assert(table@ =~= base.take(table@.len() as int));
            assert(reception_map(t_pre) == reception_map(table@).insert(e.0, e.1@));
        }
        if e.0 > watermark {
            proof {
                assert forall|j: int| 0 <= j < table@.len() implies (#[trigger] table@[j]).0
                    != e.0 by {
                    assert(base[j] == t_pre[j]);
                    assert(base[t_pre.len() - 1] == t_pre[t_pre.len() - 1]);
                    assert(base[j].0 != base[t_pre.len() - 1].0);
                }
                lemma_reception_map_dom(kept@, e.0);
                assert(!reception_map(kept@).dom().contains(e.0));
                assert(kept@.push(e).drop_last() =~= kept@);
                assert forall|x: int, y: int|
                    0 <= x < y < kept@.push(e).len() implies kept@.push(e)[x].0 != kept@.push(
                    e,
                )[y].0 by {
                    if y < kept@.len() {
                    } else {
                        assert(kept@.push(e)[y] == e);
                        assert(t_pre[t_pre.len() - 1].0 == e.0);
                    }
                }
                assert(purge_map(reception_map(table@).insert(e.0, e.1@), watermark) =~= purge_map(
                    reception_map(table@),
                    watermark,
                ).insert(e.0, e.1@));
                assert(purge_map(reception_map(table@), watermark).union_prefer_right(
                    reception_map(kept@).insert(e.0, e.1@),
                ) =~= purge_map(reception_map(t_pre), watermark).union_prefer_right(
                    reception_map(kept@),
                ));
            }
            kept.push(e);
        } else {
            proof {
                assert(purge_map(reception_map(table@), watermark) =~= purge_map(
                    reception_map(t_pre),
                    watermark,
                ));
            }
        }
    }
    proof {
        assert(reception_map(table@) =~= Map::<u64, ReconstructionView>::empty());
        assert(purge_map(Map::<u64, ReconstructionView>::empty(), watermark).union_prefer_right(
            reception_map(kept@),
        ) =~= reception_map(kept@));
    }
    kept
}

/// Law: the watermark never decreases across a reception step, nothing at
/// or below the watermark is ever reconstructed, and a reconstruction
/// leaves the watermark at exactly the reconstructed id.
pub proof fn lemma_staleness_monotonic(
    pre: ReceptionView,
    f: FragmentView,
    now: u128,
    post: ReceptionView,
    outcome: Option<ReceivedFrame>,
    buf0: Seq<u8>,
    buf1: Seq<u8>,
)
    requires
        reception_step(pre, f, now, post, outcome, buf0, buf1),
    ensures
        post.last_reconstructed_frame >= pre.last_reconstructed_frame,
        outcome is Some ==> f.frame_header.frame_id > pre.last_reconstructed_frame
            && post.last_reconstructed_frame == f.frame_header.frame_id,
        outcome is None ==> post.last_reconstructed_frame == pre.last_reconstructed_frame,
{
}

/// Law: after a reconstruction, every frame still in reception lies
/// strictly above the watermark.
pub proof fn lemma_purge_bounds(
    pre: ReceptionView,
    f: FragmentView,
    now: u128,
    post: ReceptionView,
    outcome: Option<ReceivedFrame>,
    buf0: Seq<u8>,
    buf1: Seq<u8>,
    k: u64,
)
    requires
        reception_step(pre, f, now, post, outcome, buf0, buf1),
        outcome is Some,
        post.frames_in_reception.dom().contains(k),
    ensures
        k > post.last_reconstructed_frame,
{
}

/// Law: a run of reception steps reconstructs strictly increasing frame
/// ids, so no frame id is ever reconstructed twice. `ids` are the
/// reconstructed ids in order; `pres` the watermarks the steps found, which
/// each reconstruction beat and set, and which never decrease in between.
pub proof fn lemma_no_double_reconstruction(ids: Seq<u64>, pres: Seq<u64>, j: int, k: int)
    requires
        ids.len() == pres.len(),
        forall|m: int| 0 <= m < ids.len() ==> pres[m] < ids[m],
        forall|m: int| 0 <= m < ids.len() - 1 ==> ids[m] <= pres[m + 1],
        0 <= j < k < ids.len(),
    ensures
        ids[j] < ids[k],
    decreases k - j,
{
    if j + 1 == k {
    } else {
        lemma_no_double_reconstruction(ids, pres, j + 1, k);
    }
}

} // verus!
