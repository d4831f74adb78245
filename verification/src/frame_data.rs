//! The per-frame envelope that travels through the pipelines.
//!
//! A `FrameData` carries typed statistics (globally significant and
//! stage-local), named owned byte buffers (immutable and mutable), and an
//! optional drop reason that marks the frame as failed.

use vstd::prelude::*;

use crate::assoc::{assoc_contains, assoc_get, assoc_map, assoc_remove, assoc_set, distinct_keys};
use crate::error::DropReason;

verus! {

/// Mathematical model of a frame envelope.
#[verifier::ext_equal]
pub struct FrameDataView {
    pub stats: Map<Seq<char>, u128>,
    pub local_stats: Map<Seq<char>, u128>,
    pub readonly_buffers: Map<Seq<char>, Seq<u8>>,
    pub writable_buffers: Map<Seq<char>, Seq<u8>>,
    pub drop_reason: Option<DropReason>,
}

/// The envelope carried end-to-end: stats, named buffers, error state.
///
/// Buffer keys are unique across the readonly and writable tables.
pub struct FrameData {
    stats: Vec<(String, u128)>,
    local_stats: Vec<(String, u128)>,
    readonly_buffers: Vec<(String, Vec<u8>)>,
    writable_buffers: Vec<(String, Vec<u8>)>,
    drop_reason: Option<DropReason>,
}

impl View for FrameData {
    type V = FrameDataView;

    closed spec fn view(&self) -> FrameDataView {
        FrameDataView {
            stats: assoc_map(self.stats@),
            local_stats: assoc_map(self.local_stats@),
            readonly_buffers: assoc_map(self.readonly_buffers@),
            writable_buffers: assoc_map(self.writable_buffers@),
            drop_reason: self.drop_reason,
        }
    }
}

/// The envelope after `stats[key]` is set to `value`.
pub open spec fn with_stat(fd: FrameDataView, key: Seq<char>, value: u128) -> FrameDataView {
    FrameDataView { stats: fd.stats.insert(key, value), ..fd }
}

/// The envelope after `local_stats[key]` is set to `value`.
pub open spec fn with_local_stat(fd: FrameDataView, key: Seq<char>, value: u128) -> FrameDataView {
    FrameDataView { local_stats: fd.local_stats.insert(key, value), ..fd }
}

/// The envelope after its drop reason is replaced by `reason`.
pub open spec fn with_drop_reason(fd: FrameDataView, reason: Option<DropReason>) -> FrameDataView {
    FrameDataView { drop_reason: reason, ..fd }
}

/// The envelope after a buffer is inserted into its writable table.
pub open spec fn with_writable_buffer(fd: FrameDataView, key: Seq<char>, buf: Seq<u8>) -> FrameDataView {
    FrameDataView { writable_buffers: fd.writable_buffers.insert(key, buf), ..fd }
}

/// The envelope after a buffer is removed from its writable table.
pub open spec fn without_writable_buffer(fd: FrameDataView, key: Seq<char>) -> FrameDataView {
    FrameDataView { writable_buffers: fd.writable_buffers.remove(key), ..fd }
}

impl FrameData {
    #[verifier::type_invariant]
    spec fn type_inv(self) -> bool {
        &&& distinct_keys(self.stats@)
        &&& distinct_keys(self.local_stats@)
        &&& distinct_keys(self.readonly_buffers@)
        &&& distinct_keys(self.writable_buffers@)
        &&& self@.readonly_buffers.dom().disjoint(self@.writable_buffers.dom())
    }

    /// Sets the globally significant stat `key` to `value`.
    pub fn set(&mut self, key: &str, value: u128)
        ensures
            final(self)@ == with_stat(old(self)@, key@, value),
    {
        proof {
            use_type_invariant(&*self);
        }
        let k = key.to_owned();
        let mut table = Vec::new();
        core::mem::swap(&mut table, &mut self.stats);
        assoc_set(&mut table, &k, value);
        core::mem::swap(&mut table, &mut self.stats);
    }

    /// The value of the stat `key`; the key must be present.
    pub fn get(&self, key: &str) -> (r: u128)
        requires
            self@.stats.dom().contains(key@),
        ensures
            r == self@.stats[key@],
    {
        proof {
            use_type_invariant(&*self);
        }
        let k = key.to_owned();
        match assoc_get(&self.stats, &k) {
            Some(v) => *v,
            None => 0,
        }
    }

    /// Whether the stat `key` is present.
    pub fn has(&self, key: &str) -> (r: bool)
        ensures
            r == self@.stats.dom().contains(key@),
    {
        let k = key.to_owned();
        assoc_contains(&self.stats, &k)
    }

    /// Sets the stage-local stat `key` to `value`.
    pub fn set_local(&mut self, key: &str, value: u128)
        ensures
            final(self)@ == with_local_stat(old(self)@, key@, value),
    {
        proof {
            use_type_invariant(&*self);
        }
        let k = key.to_owned();
        let mut table = Vec::new();
        core::mem::swap(&mut table, &mut self.local_stats);
        assoc_set(&mut table, &k, value);
        core::mem::swap(&mut table, &mut self.local_stats);
    }

    /// The value of the stage-local stat `key`; the key must be present.
    pub fn get_local(&self, key: &str) -> (r: u128)
        requires
            self@.local_stats.dom().contains(key@),
        ensures
            r == self@.local_stats[key@],
    {
        proof {
            use_type_invariant(&*self);
        }
        let k = key.to_owned();
        match assoc_get(&self.local_stats, &k) {
            Some(v) => *v,
            None => 0,
        }
    }

    /// Whether the stage-local stat `key` is present.
    pub fn has_local(&self, key: &str) -> (r: bool)
        ensures
            r == self@.local_stats.dom().contains(key@),
    {
        let k = key.to_owned();
        assoc_contains(&self.local_stats, &k)
    }

    /// Stores an immutable buffer under `key`. Buffer keys are unique across
    /// the readonly and writable tables, so `key` must not name a writable
    /// buffer.
    pub fn insert_readonly_buffer(&mut self, key: &str, buffer: Vec<u8>)
        requires
            !old(self)@.writable_buffers.dom().contains(key@),
        ensures
            final(self)@ == (FrameDataView {
                readonly_buffers: old(self)@.readonly_buffers.insert(key@, buffer@),
                ..old(self)@
            }),
    {
        proof {
            use_type_invariant(&*self);
        }
        let k = key.to_owned();
        let mut table = Vec::new();
        core::mem::swap(&mut table, &mut self.readonly_buffers);
        assoc_set(&mut table, &k, buffer);
        core::mem::swap(&mut table, &mut self.readonly_buffers);
    }

    /// Removes and returns the immutable buffer under `key`, which must be
    /// present.
    pub fn extract_readonly_buffer(&mut self, key: &str) -> (r: Vec<u8>)
        requires
            old(self)@.readonly_buffers.dom().contains(key@),
        ensures
            r@ == old(self)@.readonly_buffers[key@],
            final(self)@ == (FrameDataView {
                readonly_buffers: old(self)@.readonly_buffers.remove(key@),
                ..old(self)@
            }),
    {
        proof {
            use_type_invariant(&*self);
        }
        let k = key.to_owned();
        let mut table = Vec::new();
        core::mem::swap(&mut table, &mut self.readonly_buffers);
        let r = assoc_remove(&mut table, &k);
        core::mem::swap(&mut table, &mut self.readonly_buffers);
        match r {
            Some(b) => b,
            None => Vec::new(),
        }
    }

    /// Reference to the immutable buffer under `key`, which must be present.
    pub fn get_readonly_buffer_ref(&self, key: &str) -> (r: &Vec<u8>)
        requires
            self@.readonly_buffers.dom().contains(key@),
        ensures
            r@ == self@.readonly_buffers[key@],
    {
        proof {
            use_type_invariant(&*self);
        }
        let k = key.to_owned();
        match assoc_get(&self.readonly_buffers, &k) {
            Some(b) => b,
            None => unreached(),
        }
    }

    /// Whether an immutable buffer is stored under `key`.
    pub fn has_readonly_buffer(&self, key: &str) -> (r: bool)
        ensures
            r == self@.readonly_buffers.dom().contains(key@),
    {
        let k = key.to_owned();
        assoc_contains(&self.readonly_buffers, &k)
    }

    /// Stores a mutable buffer under `key`. Buffer keys are unique across
    /// the readonly and writable tables, so `key` must not name a readonly
    /// buffer.
    pub fn insert_writable_buffer(&mut self, key: &str, buffer: Vec<u8>)
        requires
            !old(self)@.readonly_buffers.dom().contains(key@),
        ensures
            final(self)@ == with_writable_buffer(old(self)@, key@, buffer@),
    {
        proof {
            use_type_invariant(&*self);
        }
        let k = key.to_owned();
        let mut table = Vec::new();
        core::mem::swap(&mut table, &mut self.writable_buffers);
        assoc_set(&mut table, &k, buffer);
        core::mem::swap(&mut table, &mut self.writable_buffers);
    }

    /// Removes and returns the mutable buffer under `key`, which must be
    /// present.
    pub fn extract_writable_buffer(&mut self, key: &str) -> (r: Vec<u8>)
        requires
            old(self)@.writable_buffers.dom().contains(key@),
        ensures
            r@ == old(self)@.writable_buffers[key@],
            final(self)@ == without_writable_buffer(old(self)@, key@),
    {
        proof {
            use_type_invariant(&*self);
        }
        let k = key.to_owned();
        let mut table = Vec::new();
        core::mem::swap(&mut table, &mut self.writable_buffers);
        let r = assoc_remove(&mut table, &k);
        core::mem::swap(&mut table, &mut self.writable_buffers);
        match r {
            Some(b) => b,
            None => Vec::new(),
        }
    }

    /// Reference to the mutable buffer under `key`, which must be present.
    pub fn get_writable_buffer_ref(&self, key: &str) -> (r: &Vec<u8>)
        requires
            self@.writable_buffers.dom().contains(key@),
        ensures
            r@ == self@.writable_buffers[key@],
    {
        proof {
            use_type_invariant(&*self);
        }
        let k = key.to_owned();
        match assoc_get(&self.writable_buffers, &k) {
            Some(b) => b,
            None => unreached(),
        }
    }

    /// Whether a mutable buffer is stored under `key`.
    pub fn has_writable_buffer(&self, key: &str) -> (r: bool)
        ensures
            r == self@.writable_buffers.dom().contains(key@),
    {
        let k = key.to_owned();
        assoc_contains(&self.writable_buffers, &k)
    }

    /// Buffer keys are unique across the readonly and writable tables; this
    /// surfaces the envelope's invariant to callers that juggle buffers.
    pub fn assert_buffer_keys_disjoint(&self)
        ensures
            self@.readonly_buffers.dom().disjoint(self@.writable_buffers.dom()),
    {
        proof {
            use_type_invariant(&*self);
        }
    }

    /// Replaces the drop reason.
    pub fn set_drop_reason(&mut self, reason: Option<DropReason>)
        ensures
            final(self)@ == with_drop_reason(old(self)@, reason),
    {
        proof {
            use_type_invariant(&*self);
        }
        self.drop_reason = reason;
    }

    /// The drop reason, if any processor failed this frame.
    pub fn get_drop_reason(&self) -> (r: Option<DropReason>)
        ensures
            r == self@.drop_reason,
    {
        self.drop_reason
    }

    /// A copy of the envelope with stats and drop reason kept and all
    /// buffers left behind, as used by loggers that must not hold buffers.
    pub fn clone_without_buffers(&self) -> (r: FrameData)
        ensures
            r@.stats == self@.stats,
            r@.local_stats == self@.local_stats,
            r@.readonly_buffers == Map::<Seq<char>, Seq<u8>>::empty(),
            r@.writable_buffers == Map::<Seq<char>, Seq<u8>>::empty(),
            r@.drop_reason == self@.drop_reason,
    {
        proof {
            use_type_invariant(&*self);
        }
        FrameData {
            stats: clone_stat_entries(&self.stats),
            local_stats: clone_stat_entries(&self.local_stats),
            readonly_buffers: Vec::new(),
            writable_buffers: Vec::new(),
            drop_reason: self.drop_reason,
        }
    }
}

impl Default for FrameData {
    /// An empty envelope: no stats, no buffers, no drop reason.
    fn default() -> (r: Self)
        ensures
            r@.stats == Map::<Seq<char>, u128>::empty(),
            r@.local_stats == Map::<Seq<char>, u128>::empty(),
            r@.readonly_buffers == Map::<Seq<char>, Seq<u8>>::empty(),
            r@.writable_buffers == Map::<Seq<char>, Seq<u8>>::empty(),
            r@.drop_reason is None,
    {
        FrameData {
            stats: Vec::new(),
            local_stats: Vec::new(),
            readonly_buffers: Vec::new(),
            writable_buffers: Vec::new(),
            drop_reason: None,
        }
    }
}

/// Element-wise copy of a stats table.
fn clone_stat_entries(entries: &Vec<(String, u128)>) -> (r: Vec<(String, u128)>)
    ensures
        r@ == entries@,
{
    let n = entries.len();
    let mut out: Vec<(String, u128)> = Vec::new();
    let mut i: usize = 0;
    while i < n
        invariant
            i <= n,
            n == entries@.len(),
            out@ == entries@.take(i as int),
        decreases n - i,
    {
        out.push((entries[i].0.clone(), entries[i].1));
        proof {
            assert(entries@.take(i + 1 as int) =~= entries@.take(i as int).push(entries@[i as int]));
        }
        i = i + 1;
    }
    proof {
        assert(entries@.take(n as int) =~= entries@);
    }
    out
}

/// The message with which the envelope's users report a key they expected a
/// frame to carry.
pub fn missing_key_msg(key: &str) -> (r: String)
    ensures
        r@ == "Missing key '"@ + key@ + "'"@,
{
    let mut s = String::new();
    s.append("Missing key '");
    s.append(key);
    s.append("'");
    s
}

/// Law: a value inserted under a key is returned by a lookup under the same
/// key, and survives insertions under other keys, until the key itself is
/// set again.
pub proof fn lemma_envelope_round_trip(
    fd: FrameDataView,
    key: Seq<char>,
    value: u128,
    other: Seq<char>,
    other_value: u128,
    newer: u128,
)
    requires
        other != key,
    ensures
        with_stat(fd, key, value).stats[key] == value,
        with_stat(with_stat(fd, key, value), other, other_value).stats[key] == value,
        with_stat(with_stat(fd, key, value), key, newer).stats[key] == newer,
{
}

} // verus!
