//! The standard processors: single-step transformations on a frame
//! envelope.
//!
//! A stage hosts an ordered sequence of these. Each either passes the frame
//! on — possibly changed — or consumes it: diverted to another pipeline's
//! feeder, or abandoned. [`processor_step`] is the exact transition each
//! one makes; the laws at the bottom state what every processor guarantees
//! about failed frames.

use vstd::prelude::*;

use crate::error::DropReason;
use crate::frame_data::{
    with_drop_reason, with_local_stat, with_stat, with_writable_buffer, without_writable_buffer,
    FrameData, FrameDataView,
};
use crate::pipeline::{
    with_channel_push, with_pool_at, AscodePipeline, AscodePipelineFeeder, PipelineRuntime,
    RuntimeView,
};
use crate::buffer_pool::BufferPoolView;
use crate::rand_util::random_below;

verus! {

/// Paces a stage to a periodic tick. The tick itself is the scheduler's
/// work; as a transformation the ticker passes the frame through untouched.
pub struct Ticker {
    pub tick_interval_millis: u64,
}

impl Ticker {
    pub fn new(tick_interval_millis: u64) -> (r: Self)
        ensures
            r.tick_interval_millis == tick_interval_millis,
    {
        Ticker { tick_interval_millis }
    }
}

/// Sets a stat to the current wall-clock milliseconds.
pub struct TimestampAdder {
    pub id: String,
}

impl TimestampAdder {
    pub fn new(id: &str) -> (r: Self)
        ensures
            r.id@ == id@,
    {
        TimestampAdder { id: id.to_owned() }
    }
}

/// Sets a stage-local stat to the time elapsed since a start stat was
/// taken.
pub struct TimestampDiffCalculator {
    pub start_time_id: String,
    pub diff_id: String,
}

impl TimestampDiffCalculator {
    pub fn new(start_time_id: &str, diff_id: &str) -> (r: Self)
        ensures
            r.start_time_id@ == start_time_id@,
            r.diff_id@ == diff_id@,
    {
        TimestampDiffCalculator {
            start_time_id: start_time_id.to_owned(),
            diff_id: diff_id.to_owned(),
        }
    }
}

/// Marks a frame stale when a measured delay exceeds a threshold,
/// strictly.
pub struct TimestampDiffBasedFrameDropper {
    pub stat_id: String,
    pub threshold: u128,
}

impl TimestampDiffBasedFrameDropper {
    pub fn new(stat_id: &str, threshold: u128) -> (r: Self)
        ensures
            r.stat_id@ == stat_id@,
            r.threshold == threshold,
    {
        TimestampDiffBasedFrameDropper { stat_id: stat_id.to_owned(), threshold }
    }
}

/// Fails a frame that is missing a required stat.
pub struct KeyChecker {
    pub key: String,
}

impl KeyChecker {
    pub fn new(key: &str) -> (r: Self)
        ensures
            r.key@ == key@,
    {
        KeyChecker { key: key.to_owned() }
    }
}

/// Borrows one buffer from a pool into the frame, or fails the frame when
/// the pool is empty: backpressure surfaces as a dropped frame, never as
/// waiting.
pub struct BufferBorrower {
    pub pool: usize,
}

impl BufferBorrower {
    /// A borrower bound to the pool registered under `pool`.
    pub fn new(pool: usize) -> (r: Self)
        ensures
            r.pool == pool,
    {
        BufferBorrower { pool }
    }
}

/// Extracts a pool's buffer from the frame and returns it. A soft redeemer
/// tolerates a frame without the buffer, as cleanup on an error pipeline
/// must.
pub struct BufferRedeemer {
    pub pool: usize,
    pub soft: bool,
}

impl BufferRedeemer {
    /// A redeemer bound to the pool registered under `pool`; a frame
    /// without the pool's buffer is failed.
    pub fn new(pool: usize) -> (r: Self)
        ensures
            r.pool == pool,
            !r.soft,
    {
        BufferRedeemer { pool, soft: false }
    }

    /// A redeemer that tolerates frames without the pool's buffer, as
    /// cleanup on an error pipeline must.
    pub fn soft(pool: usize) -> (r: Self)
        ensures
            r.pool == pool,
            r.soft,
    {
        BufferRedeemer { pool, soft: true }
    }
}

/// Diverts failed frames to another pipeline's feeder, so the latency-bound
/// path never runs cleanup inline.
pub struct OnErrorSwitch {
    pub feeder: AscodePipelineFeeder,
}

impl OnErrorSwitch {
    /// A switch feeding the destination pipeline, which must be feedable.
    pub fn new(destination_pipeline: &AscodePipeline) -> (r: Self)
        requires
            destination_pipeline@.feeder_channel is Some,
        ensures
            r.feeder.channel == destination_pipeline@.feeder_channel.unwrap(),
    {
        OnErrorSwitch { feeder: destination_pipeline.get_feeder() }
    }
}

/// Scatters frames across a set of pipelines, picking a feeder uniformly at
/// random and recording the choice under the `pool_key` stat.
pub struct PoolingSwitch {
    pub entries: Vec<(u128, AscodePipelineFeeder)>,
}

impl PoolingSwitch {
    pub fn new() -> (r: Self)
        ensures
            r.entries@.len() == 0,
    {
        PoolingSwitch { entries: Vec::new() }
    }

    /// Adds a destination pipeline under a key.
    pub fn entry(self, key: u128, pipeline: &AscodePipeline) -> (r: Self)
        requires
            pipeline@.feeder_channel is Some,
        ensures
            r.entries@ == self.entries@.push((key, AscodePipelineFeeder { channel: pipeline@.feeder_channel.unwrap() })),
    {
        let mut entries = self.entries;
        entries.push((key, pipeline.get_feeder()));
        PoolingSwitch { entries }
    }
}

/// One step of a stage: any of the standard processors.
pub enum Processor {
    Ticker(Ticker),
    TimestampAdder(TimestampAdder),
    TimestampDiffCalculator(TimestampDiffCalculator),
    TimestampDiffBasedFrameDropper(TimestampDiffBasedFrameDropper),
    KeyChecker(KeyChecker),
    BufferBorrower(BufferBorrower),
    BufferRedeemer(BufferRedeemer),
    OnErrorSwitch(OnErrorSwitch),
    PoolingSwitch(PoolingSwitch),
}

/// A measured value under a key: the global stat if one is present, else
/// the stage-local stat, else zero.
pub open spec fn stat_or_local(fd: FrameDataView, key: Seq<char>) -> u128 {
    if fd.stats.dom().contains(key) {
        fd.stats[key]
    } else if fd.local_stats.dom().contains(key) {
        fd.local_stats[key]
    } else {
        0
    }
}

/// Subtraction on timestamps that yields zero instead of wrapping when a
/// clock moves backwards.
pub open spec fn saturating_sub(a: u128, b: u128) -> u128 {
    if a >= b {
        (a - b) as u128
    } else {
        0
    }
}

/// Whether a processor's references into the runtime — pools and feeder
/// channels — are in bounds, and its configuration usable.
pub open spec fn processor_valid(p: Processor, rt: RuntimeView) -> bool {
    match p {
        Processor::BufferBorrower(b) => b.pool < rt.pools.len(),
        Processor::BufferRedeemer(b) => b.pool < rt.pools.len(),
        Processor::OnErrorSwitch(s) => s.feeder.channel < rt.channels.len(),
        Processor::PoolingSwitch(s) => s.entries@.len() > 0 && forall|k: int|
            0 <= k < s.entries@.len() ==> (#[trigger] s.entries@[k]).1.channel < rt.channels.len(),
        _ => true,
    }
}

/// The exact transition one processor makes on a frame: the frame it
/// passes on, if any, and what becomes of the runtime's pools and
/// channels.
pub open spec fn processor_step(
    p: Processor,
    fd0: FrameDataView,
    rt0: RuntimeView,
    now: u128,
    out: Option<FrameDataView>,
    rt1: RuntimeView,
) -> bool {
    match p {
        Processor::Ticker(_) => out == Some(fd0) && rt1 == rt0,
        Processor::TimestampAdder(a) => out == Some(with_stat(fd0, a.id@, now)) && rt1 == rt0,
        Processor::TimestampDiffCalculator(c) => {
            &&& rt1 == rt0
            &&& out == Some(
                if fd0.stats.dom().contains(c.start_time_id@) {
                    with_local_stat(
                        fd0,
                        c.diff_id@,
                        saturating_sub(now, fd0.stats[c.start_time_id@]),
                    )
                } else {
                    with_drop_reason(fd0, Some(DropReason::InvalidPacket))
                },
            )
        },
        Processor::TimestampDiffBasedFrameDropper(d) => {
            &&& rt1 == rt0
            &&& out == Some(
                if stat_or_local(fd0, d.stat_id@) > d.threshold {
                    with_drop_reason(fd0, Some(DropReason::StaleFrame))
                } else {
                    fd0
                },
            )
        },
        Processor::KeyChecker(c) => {
            &&& rt1 == rt0
            &&& out == Some(
                if fd0.stats.dom().contains(c.key@) {
                    fd0
                } else {
                    with_drop_reason(fd0, Some(DropReason::InvalidPacket))
                },
            )
        },
        Processor::BufferBorrower(b) => {
            let pool = rt0.pools[b.pool as int];
            if fd0.drop_reason is Some || fd0.readonly_buffers.dom().contains(pool.identifier) {
                out == Some(fd0) && rt1 == rt0
            } else if pool.queue.len() == 0 {
                out == Some(with_drop_reason(fd0, Some(DropReason::NoAvailableBuffers))) && rt1
                    == rt0
            } else {
                &&& out == Some(with_writable_buffer(fd0, pool.identifier, pool.queue.last()))
                &&& rt1 == with_pool_at(
                    rt0,
                    b.pool as int,
                    BufferPoolView {
                        queue: pool.queue.drop_last(),
                        borrowed: pool.borrowed + 1,
                        ..pool
                    },
                )
            }
        },
        Processor::BufferRedeemer(b) => {
            let pool = rt0.pools[b.pool as int];
            let key = pool.identifier;
            if fd0.writable_buffers.dom().contains(key) {
                let buf = fd0.writable_buffers[key];
                if buf.len() == pool.buffer_size && pool.queue.len() < pool.capacity {
                    &&& out == Some(without_writable_buffer(fd0, key))
                    &&& rt1 == with_pool_at(
                        rt0,
                        b.pool as int,
                        BufferPoolView {
                            queue: pool.queue.push(buf),
                            returned: pool.returned + 1,
                            ..pool
                        },
                    )
                } else {
                    // A buffer that does not belong to this pool is left in
                    // place.
                    out == Some(fd0) && rt1 == rt0
                }
            } else if b.soft {
                out == Some(fd0) && rt1 == rt0
            } else {
                out == Some(with_drop_reason(fd0, Some(DropReason::NoAvailableBuffers))) && rt1
                    == rt0
            }
        },
        Processor::OnErrorSwitch(s) => {
            if fd0.drop_reason is Some {
                out is None && rt1 == with_channel_push(rt0, s.feeder.channel as int, fd0)
            } else {
                out == Some(fd0) && rt1 == rt0
            }
        },
        Processor::PoolingSwitch(s) => {
            exists|k: int|
                0 <= k < s.entries@.len() && out is None && rt1 == with_channel_push(
                    rt0,
                    (#[trigger] s.entries@[k]).1.channel as int,
                    with_stat(fd0, "pool_key"@, s.entries@[k].0),
                )
        },
    }
}

impl Processor {
    /// Runs this processor on one frame. Returning nothing means the frame
    /// was consumed: fed to another pipeline or abandoned.
    pub fn process(&self, frame_data: FrameData, rt: &mut PipelineRuntime, now_millis: u128) -> (out:
        Option<FrameData>)
        requires
            processor_valid(*self, old(rt)@),
            crate::pipeline::runtime_wf(old(rt)@),
        ensures
            crate::pipeline::runtime_wf(final(rt)@),
            processor_step(
                *self,
                frame_data@,
                old(rt)@,
                now_millis,
                match out {
                    Some(ref f) => Some(f@),
                    None => None,
                },
                final(rt)@,
            ),
    {
        let mut fd = frame_data;
        match self {
            Processor::Ticker(_) => Some(fd),
            Processor::TimestampAdder(a) => {
                fd.set(a.id.as_str(), now_millis);
                Some(fd)
            },
            Processor::TimestampDiffCalculator(c) => {
                if fd.has(c.start_time_id.as_str()) {
                    let start = fd.get(c.start_time_id.as_str());
                    let diff: u128 = if now_millis >= start {
                        now_millis - start
                    } else {
                        0
                    };
                    fd.set_local(c.diff_id.as_str(), diff);
                } else {
                    fd.set_drop_reason(Some(DropReason::InvalidPacket));
                }
                Some(fd)
            },
            Processor::TimestampDiffBasedFrameDropper(d) => {
                let value: u128 = if fd.has(d.stat_id.as_str()) {
                    fd.get(d.stat_id.as_str())
                } else if fd.has_local(d.stat_id.as_str()) {
                    fd.get_local(d.stat_id.as_str())
                } else {
                    0
                };
                if value > d.threshold {
                    fd.set_drop_reason(Some(DropReason::StaleFrame));
                }
                Some(fd)
            },
            Processor::KeyChecker(c) => {
                if !fd.has(c.key.as_str()) {
                    fd.set_drop_reason(Some(DropReason::InvalidPacket));
                }
                Some(fd)
            },
            Processor::BufferBorrower(b) => {
                if fd.get_drop_reason().is_some() {
                    return Some(fd);
                }
                let key = rt.pool_identifier(b.pool);
                if fd.has_readonly_buffer(key.as_str()) {
                    return Some(fd);
                }
                match rt.borrow_from_pool(b.pool) {
                    Some(buffer) => {
                        fd.insert_writable_buffer(key.as_str(), buffer);
                        Some(fd)
                    },
                    None => {
                        fd.set_drop_reason(Some(DropReason::NoAvailableBuffers));
                        Some(fd)
                    },
                }
            },
            Processor::BufferRedeemer(b) => {
                let key = rt.pool_identifier(b.pool);
                if !fd.has_writable_buffer(key.as_str()) {
                    if b.soft {
                        return Some(fd);
                    }
                    fd.set_drop_reason(Some(DropReason::NoAvailableBuffers));
                    return Some(fd);
                }
                fd.assert_buffer_keys_disjoint();
                let buffer = fd.extract_writable_buffer(key.as_str());
                if buffer.len() == rt.pool_buffer_size(b.pool) && rt.pool_available(b.pool)
                    < rt.pool_capacity(b.pool) {
                    rt.return_to_pool(b.pool, buffer);
                    Some(fd)
                } else {
                    fd.insert_writable_buffer(key.as_str(), buffer);
                    proof {
                        assert(fd@.writable_buffers =~= frame_data@.writable_buffers);
                        assert(fd@ =~= frame_data@);
                    }
                    Some(fd)
                }
            },
            Processor::OnErrorSwitch(s) => {
                if fd.get_drop_reason().is_some() {
                    rt.push_frame(s.feeder.channel, fd);
                    None
                } else {
                    Some(fd)
                }
            },
            Processor::PoolingSwitch(s) => {
                let k = random_below(s.entries.len());
                let key = s.entries[k].0;
                let channel = s.entries[k].1.channel;
                fd.set("pool_key", key);
                rt.push_frame(channel, fd);
                None
            },
        }
    }
}

/// Law: drop reasons are monotonic, and failed frames are quarantined.
/// Whatever the processor, a frame that enters with a drop reason leaves
/// with one — never cleared — whether it passes on or is diverted whole
/// into a feeder channel; and no processor borrows from any pool for a
/// failed frame: pool borrow counts are untouched.
pub proof fn lemma_dropped_frame_quarantine(
    p: Processor,
    fd0: FrameDataView,
    rt0: RuntimeView,
    now: u128,
    out: Option<FrameDataView>,
    rt1: RuntimeView,
)
    requires
        processor_valid(p, rt0),
        processor_step(p, fd0, rt0, now, out, rt1),
        fd0.drop_reason is Some,
    ensures
        match out {
            Some(fd1) => fd1.drop_reason is Some,
            None => exists|ch: int|
                #![trigger rt1.channels[ch]]
                0 <= ch < rt0.channels.len() && rt1.channels[ch].len() == rt0.channels[ch].len()
                    + 1 && rt1.channels[ch][rt0.channels[ch].len() as int].drop_reason
                    == fd0.drop_reason,
        },
        forall|i: int|
            0 <= i < rt0.pools.len() ==> (#[trigger] rt1.pools[i]).borrowed
                == rt0.pools[i].borrowed,
        rt1.pools.len() == rt0.pools.len(),
{
    match p {
        Processor::OnErrorSwitch(s) => {
            let ch = s.feeder.channel as int;
            assert(rt1.channels[ch].len() == rt0.channels[ch].len() + 1
                && rt1.channels[ch][rt0.channels[ch].len() as int].drop_reason
                == fd0.drop_reason);
        },
        Processor::PoolingSwitch(s) => {
            let k = choose|k: int|
                0 <= k < s.entries@.len() && out is None && rt1 == with_channel_push(
                    rt0,
                    (#[trigger] s.entries@[k]).1.channel as int,
                    with_stat(fd0, "pool_key"@, s.entries@[k].0),
                );
            let ch = s.entries@[k].1.channel as int;
            assert(rt1.channels[ch].len() == rt0.channels[ch].len() + 1
                && rt1.channels[ch][rt0.channels[ch].len() as int].drop_reason
                == fd0.drop_reason);
        },
        _ => {},
    }
}

/// Law: threshold semantics. A frame whose measured delay exceeds the
/// dropper's threshold — strictly — always leaves it marked stale; a frame
/// at or below the threshold leaves untouched.
pub proof fn lemma_threshold_semantics(
    d: TimestampDiffBasedFrameDropper,
    fd0: FrameDataView,
    rt0: RuntimeView,
    now: u128,
    out: Option<FrameDataView>,
    rt1: RuntimeView,
)
    requires
        processor_step(
            Processor::TimestampDiffBasedFrameDropper(d),
            fd0,
            rt0,
            now,
            out,
            rt1,
        ),
    ensures
        stat_or_local(fd0, d.stat_id@) > d.threshold ==> out == Some(
            with_drop_reason(fd0, Some(DropReason::StaleFrame)),
        ),
        stat_or_local(fd0, d.stat_id@) <= d.threshold ==> out == Some(fd0),
        rt1 == rt0,
{
}

} // verus!
