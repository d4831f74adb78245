//! The staged pipeline runtime: channels, pools, components and pipelines.
//!
//! A pipeline is a linear chain of components wired by FIFO channels; each
//! component hosts an ordered list of processors. The runtime owns every
//! channel and every buffer pool, so one step of a component is a pure
//! transition on the runtime ([`chain_steps`]); the FIFO law
//! ([`Component::run_to_idle`], [`lemma_subsequence_transitive`]) and the
//! quarantine law rest on it.

use vstd::prelude::*;

use crate::buffer_pool::{pool_wf, BufferPool, BufferPoolView};
use crate::frame_data::{FrameData, FrameDataView};
use crate::processors::{processor_step, processor_valid, Processor};

verus! {

/// Mathematical model of the runtime: the contents of every channel and
/// every pool.
pub struct RuntimeView {
    pub channels: Seq<Seq<FrameDataView>>,
    pub pools: Seq<BufferPoolView>,
}

/// Every pool of the runtime is well-formed.
pub open spec fn runtime_wf(rt: RuntimeView) -> bool {
    forall|i: int| 0 <= i < rt.pools.len() ==> pool_wf(#[trigger] rt.pools[i])
}

/// The runtime after a frame is appended to a channel.
pub open spec fn with_channel_push(rt: RuntimeView, ch: int, fd: FrameDataView) -> RuntimeView {
    RuntimeView { channels: rt.channels.update(ch, rt.channels[ch].push(fd)), ..rt }
}

/// The runtime after a channel's first frame is taken.
pub open spec fn with_channel_pop(rt: RuntimeView, ch: int) -> RuntimeView {
    RuntimeView { channels: rt.channels.update(ch, rt.channels[ch].drop_first()), ..rt }
}

/// The runtime with one pool replaced.
pub open spec fn with_pool_at(rt: RuntimeView, i: int, p: BufferPoolView) -> RuntimeView {
    RuntimeView { pools: rt.pools.update(i, p), ..rt }
}

/// Owner of all channels and pools that the pipelines of one program share.
pub struct PipelineRuntime {
    channels: Vec<Vec<FrameData>>,
    pools: Vec<BufferPool>,
}

impl View for PipelineRuntime {
    type V = RuntimeView;

    closed spec fn view(&self) -> RuntimeView {
        RuntimeView {
            channels: Seq::new(
                self.channels@.len(),
                |i: int| Seq::new(self.channels@[i]@.len(), |j: int| self.channels@[i]@[j]@),
            ),
            pools: Seq::new(self.pools@.len(), |i: int| self.pools@[i]@),
        }
    }
}

impl PipelineRuntime {
    /// A runtime with no channels and no pools.
    pub fn new() -> (r: Self)
        ensures
            r@.channels.len() == 0,
            r@.pools.len() == 0,
            runtime_wf(r@),
    {
        PipelineRuntime { channels: Vec::new(), pools: Vec::new() }
    }

    /// Opens a fresh empty channel and returns its id.
    pub fn add_channel(&mut self) -> (r: usize)
        ensures
            r == old(self)@.channels.len(),
            final(self)@.channels == old(self)@.channels.push(Seq::<FrameDataView>::empty()),
            final(self)@.pools == old(self)@.pools,
    {
        let id = self.channels.len();
        self.channels.push(Vec::new());
        proof {
            assert forall|i: int|
                0 <= i < self@.channels.len() implies self@.channels[i] =~= old(
                self,
            )@.channels.push(Seq::<FrameDataView>::empty())[i] by {
            }
            assert(self@.channels =~= old(self)@.channels.push(Seq::<FrameDataView>::empty()));
            assert(self@.pools =~= old(self)@.pools);
        }
        id
    }

    /// Adds a pool and returns its id.
    pub fn add_pool(&mut self, pool: BufferPool) -> (r: usize)
        requires
            pool_wf(pool@),
        ensures
            r == old(self)@.pools.len(),
            final(self)@.pools == old(self)@.pools.push(pool@),
            final(self)@.channels == old(self)@.channels,
    {
        let id = self.pools.len();
        let ghost p = pool@;
        self.pools.push(pool);
        proof {
            assert(self@.pools =~= old(self)@.pools.push(p));
            assert(self@.channels =~= old(self)@.channels);
        }
        id
    }

    /// How many channels exist.
    pub fn channels_len(&self) -> (r: usize)
        ensures
            r == self@.channels.len(),
    {
        self.channels.len()
    }

    /// How many pools exist.
    pub fn pools_len(&self) -> (r: usize)
        ensures
            r == self@.pools.len(),
    {
        self.pools.len()
    }

    /// How many frames wait in a channel.
    pub fn channel_len(&self, ch: usize) -> (r: usize)
        requires
            ch < self@.channels.len(),
        ensures
            r == self@.channels[ch as int].len(),
    {
        self.channels[ch].len()
    }

    /// Appends a frame to a channel.
    pub fn push_frame(&mut self, ch: usize, frame: FrameData)
        requires
            ch < old(self)@.channels.len(),
        ensures
            final(self)@ == with_channel_push(old(self)@, ch as int, frame@),
    {
        let ghost f = frame@;
        let mut channel = self.channels.remove(ch);
        channel.push(frame);
        self.channels.insert(ch, channel);
        proof {
            assert forall|i: int| 0 <= i < self@.channels.len() implies self@.channels[i]
                =~= with_channel_push(old(self)@, ch as int, f).channels[i] by {
            }
            assert(self@.channels =~= with_channel_push(old(self)@, ch as int, f).channels);
            assert(self@.pools =~= old(self)@.pools);
        }
    }

    /// Takes the oldest frame out of a channel, if any: channels are FIFO.
    pub fn pop_frame(&mut self, ch: usize) -> (r: Option<FrameData>)
        requires
            ch < old(self)@.channels.len(),
        ensures
            match r {
                Some(f) => old(self)@.channels[ch as int].len() > 0 && f@ == old(
                    self,
                )@.channels[ch as int][0] && final(self)@ == with_channel_pop(
                    old(self)@,
                    ch as int,
                ),
                None => old(self)@.channels[ch as int].len() == 0 && final(self)@ == old(self)@,
            },
    {
        let mut channel = self.channels.remove(ch);
        if channel.len() == 0 {
            self.channels.insert(ch, channel);
            proof {
                assert forall|i: int| 0 <= i < self@.channels.len() implies self@.channels[i]
                    =~= old(self)@.channels[i] by {
                }
                assert(self@.channels =~= old(self)@.channels);
                assert(self@.pools =~= old(self)@.pools);
                assert(self@ =~= old(self)@);
            }
            return None;
        }
        let frame = channel.remove(0);
        self.channels.insert(ch, channel);
        proof {
            assert forall|i: int| 0 <= i < self@.channels.len() implies self@.channels[i]
                =~= with_channel_pop(old(self)@, ch as int).channels[i] by {
            }
            assert(self@.channels =~= with_channel_pop(old(self)@, ch as int).channels);
            assert(self@.pools =~= old(self)@.pools);
        }
        Some(frame)
    }

    /// The key under which a pool's buffers travel.
    pub fn pool_identifier(&self, i: usize) -> (r: String)
        requires
            i < self@.pools.len(),
        ensures
            r@ == self@.pools[i as int].identifier,
    {
        self.pools[i].identifier().clone()
    }

    /// The buffer size of a pool.
    pub fn pool_buffer_size(&self, i: usize) -> (r: usize)
        requires
            i < self@.pools.len(),
        ensures
            r == self@.pools[i as int].buffer_size,
    {
        self.pools[i].buffer_size()
    }

    /// The capacity of a pool.
    pub fn pool_capacity(&self, i: usize) -> (r: usize)
        requires
            i < self@.pools.len(),
        ensures
            r == self@.pools[i as int].capacity,
    {
        self.pools[i].capacity()
    }

    /// How many buffers a pool has ready.
    pub fn pool_available(&self, i: usize) -> (r: usize)
        requires
            i < self@.pools.len(),
        ensures
            r == self@.pools[i as int].queue.len(),
    {
        self.pools[i].available()
    }

    /// Borrows one buffer from a pool, or refuses if it is empty.
    pub fn borrow_from_pool(&mut self, i: usize) -> (r: Option<Vec<u8>>)
        requires
            i < old(self)@.pools.len(),
            runtime_wf(old(self)@),
        ensures
            runtime_wf(final(self)@),
            match r {
                Some(b) => {
                    let pool = old(self)@.pools[i as int];
                    &&& pool.queue.len() > 0
                    &&& b@ == pool.queue.last()
                    &&& b@.len() == pool.buffer_size
                    &&& final(self)@ == with_pool_at(
                        old(self)@,
                        i as int,
                        BufferPoolView {
                            queue: pool.queue.drop_last(),
                            borrowed: pool.borrowed + 1,
                            ..pool
                        },
                    )
                },
                None => old(self)@.pools[i as int].queue.len() == 0 && final(self)@ == old(
                    self,
                )@,
            },
    {
        proof {
            assert(pool_wf(old(self)@.pools[i as int]));
        }
        let mut pool = self.pools.remove(i);
        let r = pool.try_borrow();
        let ghost p1 = pool@;
        self.pools.insert(i, pool);
        proof {
            assert(self@.pools =~= old(self)@.pools.update(i as int, p1));
            assert(self@.channels =~= old(self)@.channels);
            if r is None {
                assert(self@.pools =~= old(self)@.pools);
                assert(self@ =~= old(self)@);
            }
        }
        r
    }

    /// Returns a borrowed buffer to its pool. The buffer must have the
    /// pool's size and the pool must have room.
    pub fn return_to_pool(&mut self, i: usize, buffer: Vec<u8>)
        requires
            i < old(self)@.pools.len(),
            runtime_wf(old(self)@),
            buffer@.len() == old(self)@.pools[i as int].buffer_size,
            old(self)@.pools[i as int].queue.len() < old(self)@.pools[i as int].capacity,
        ensures
            runtime_wf(final(self)@),
            final(self)@ == with_pool_at(
                old(self)@,
                i as int,
                BufferPoolView {
                    queue: old(self)@.pools[i as int].queue.push(buffer@),
                    returned: old(self)@.pools[i as int].returned + 1,
                    ..old(self)@.pools[i as int]
                },
            ),
    {
        proof {
            assert(pool_wf(old(self)@.pools[i as int]));
        }
        let mut pool = self.pools.remove(i);
        pool.return_buffer(buffer);
        let ghost p1 = pool@;
        self.pools.insert(i, pool);
        proof {
            assert(self@.pools =~= old(self)@.pools.update(i as int, p1));
            assert(self@.channels =~= old(self)@.channels);
        }
    }
}

/// Handle through which frames are injected into a feedable pipeline's
/// first stage. Many switches across many pipelines may feed one pipeline.
#[derive(Clone, Copy, Debug, PartialEq, Eq, Structural)]
pub struct AscodePipelineFeeder {
    pub channel: usize,
}

impl AscodePipelineFeeder {
    /// Injects a frame.
    pub fn feed(&self, rt: &mut PipelineRuntime, frame: FrameData)
        requires
            self.channel < old(rt)@.channels.len(),
        ensures
            final(rt)@ == with_channel_push(old(rt)@, self.channel as int, frame@),
    {
        rt.push_frame(self.channel, frame);
    }
}

/// Every processor of the chain is wired within the runtime's bounds.
pub open spec fn chain_valid(ps: Seq<Processor>, rt: RuntimeView) -> bool {
    forall|i: int| 0 <= i < ps.len() ==> processor_valid(#[trigger] ps[i], rt)
}

/// The transition a whole chain of processors makes on one frame: each
/// processor feeds the next until one consumes the frame.
pub open spec fn chain_steps(
    ps: Seq<Processor>,
    fd0: FrameDataView,
    rt0: RuntimeView,
    now: u128,
    out: Option<FrameDataView>,
    rt1: RuntimeView,
) -> bool
    decreases ps.len(),
{
    if ps.len() == 0 {
        out == Some(fd0) && rt1 == rt0
    } else {
        exists|mid: Option<FrameDataView>, rtm: RuntimeView|
            #[trigger] processor_step(ps[0], fd0, rt0, now, mid, rtm) && (match mid {
                Some(fd1) => chain_steps(ps.drop_first(), fd1, rtm, now, out, rt1),
                None => out is None && rt1 == rtm,
            })
    }
}

/// Validity depends only on how many channels and pools exist.
pub proof fn lemma_valid_same_shape(p: Processor, a: RuntimeView, b: RuntimeView)
    requires
        processor_valid(p, a),
        a.channels.len() == b.channels.len(),
        a.pools.len() == b.pools.len(),
    ensures
        processor_valid(p, b),
{
}

/// Every processor step keeps the number of channels and pools.
pub proof fn lemma_step_preserves_shape(
    p: Processor,
    fd0: FrameDataView,
    rt0: RuntimeView,
    now: u128,
    out: Option<FrameDataView>,
    rt1: RuntimeView,
)
    requires
        processor_step(p, fd0, rt0, now, out, rt1),
        processor_valid(p, rt0),
    ensures
        rt1.channels.len() == rt0.channels.len(),
        rt1.pools.len() == rt0.pools.len(),
{
    match p {
        Processor::PoolingSwitch(s) => {
            let k = choose|k: int|
                0 <= k < s.entries@.len() && out is None && rt1 == with_channel_push(
                    rt0,
                    (#[trigger] s.entries@[k]).1.channel as int,
                    crate::frame_data::with_stat(fd0, "pool_key"@, s.entries@[k].0),
                );
        },
        _ => {},
    }
}

/// A chain extended by one processor steps by stepping the chain and then
/// the processor.
pub proof fn lemma_chain_snoc(
    ps: Seq<Processor>,
    p: Processor,
    fd0: FrameDataView,
    rt0: RuntimeView,
    now: u128,
    mid: Option<FrameDataView>,
    rtm: RuntimeView,
    out: Option<FrameDataView>,
    rt1: RuntimeView,
)
    requires
        chain_steps(ps, fd0, rt0, now, mid, rtm),
        match mid {
            Some(fdm) => processor_step(p, fdm, rtm, now, out, rt1),
            None => out is None && rt1 == rtm,
        },
    ensures
        chain_steps(ps.push(p), fd0, rt0, now, out, rt1),
    decreases ps.len(),
{
    if ps.len() == 0 {
        assert(ps.push(p)[0] == p);
        assert(ps.push(p).drop_first() =~= Seq::<Processor>::empty());
        assert(processor_step(ps.push(p)[0], fd0, rt0, now, out, rt1));
        match out {
            Some(f) => {
                assert(chain_steps(ps.push(p).drop_first(), f, rt1, now, out, rt1));
            },
            None => {},
        }
    } else {
        let (m0, rtm0): (Option<FrameDataView>, RuntimeView) = choose|
            m0: Option<FrameDataView>,
            rtm0: RuntimeView,
        |
            #[trigger] processor_step(ps[0], fd0, rt0, now, m0, rtm0) && (match m0 {
                Some(fd1) => chain_steps(ps.drop_first(), fd1, rtm0, now, mid, rtm),
                None => mid is None && rtm == rtm0,
            });
        match m0 {
            Some(fd1) => {
                lemma_chain_snoc(ps.drop_first(), p, fd1, rtm0, now, mid, rtm, out, rt1);
                assert(ps.push(p).drop_first() =~= ps.drop_first().push(p));
                assert(processor_step(ps.push(p)[0], fd0, rt0, now, Some(fd1), rtm0));
            },
            None => {
                assert(ps.push(p).drop_first() =~= ps.drop_first().push(p));
                assert(processor_step(ps.push(p)[0], fd0, rt0, now, m0, rtm0));
            },
        }
    }
}

/// Runs a chain of processors on one frame, in order, stopping when one
/// consumes the frame.
pub fn run_chain(
    processors: &Vec<Processor>,
    frame: FrameData,
    rt: &mut PipelineRuntime,
    now_millis: u128,
) -> (out: Option<FrameData>)
    requires
        chain_valid(processors@, old(rt)@),
        runtime_wf(old(rt)@),
    ensures
        runtime_wf(final(rt)@),
        final(rt)@.channels.len() == old(rt)@.channels.len(),
        final(rt)@.pools.len() == old(rt)@.pools.len(),
        chain_steps(
            processors@,
            frame@,
            old(rt)@,
            now_millis,
            match out {
                Some(ref f) => Some(f@),
                None => None,
            },
            final(rt)@,
        ),
{
    let n = processors.len();
    let mut cur = Some(frame);
    let mut i: usize = 0;
    while i < n
        invariant
            i <= n,
            n == processors@.len(),
            runtime_wf(rt@),
            chain_valid(processors@, rt@),
            rt@.channels.len() == old(rt)@.channels.len(),
            rt@.pools.len() == old(rt)@.pools.len(),
            chain_steps(
                processors@.take(i as int),
                frame@,
                old(rt)@,
                now_millis,
                match cur {
                    Some(ref f) => Some(f@),
                    None => None,
                },
                rt@,
            ),
            cur is None ==> i == n,
        decreases n - i,
    {
        let fd = match cur {
            Some(f) => f,
            None => unreached(),
        };
        let ghost rt_pre = rt@;
        let ghost fd_pre = fd@;
        let out = processors[i].process(fd, rt, now_millis);
        proof {
            lemma_step_preserves_shape(
                processors@[i as int],
                fd_pre,
                rt_pre,
                now_millis,
                match out {
                    Some(ref f) => Some(f@),
                    None => None,
                },
                rt@,
            );
            assert forall|j: int|
                0 <= j < processors@.len() implies processor_valid(
                #[trigger] processors@[j],
                rt@,
            ) by {
                lemma_valid_same_shape(processors@[j], rt_pre, rt@);
            }
            lemma_chain_snoc(
                processors@.take(i as int),
                processors@[i as int],
                frame@,
                old(rt)@,
                now_millis,
                Some(fd_pre),
                rt_pre,
                match out {
                    Some(ref f) => Some(f@),
                    None => None,
                },
                rt@,
            );
            assert(processors@.take(i + 1) =~= processors@.take(i as int).push(
                processors@[i as int],
            ));
        }
        match out {
            Some(f) => {
                cur = Some(f);
                i = i + 1;
            },
            None => {
                cur = None;
                proof {
                    lemma_chain_none_extends(
                        processors@.take(i + 1),
                        processors@,
                        frame@,
                        old(rt)@,
                        now_millis,
                        rt@,
                        i + 1,
                    );
                    assert(processors@.take(n as int) =~= processors@);
                }
                i = n;
            },
        }
    }
    proof {
        assert(processors@.take(n as int) =~= processors@);
    }
    cur
}

/// A chain that consumed its frame behaves the same however it is
/// extended: the remaining processors never run.
proof fn lemma_chain_none_extends(
    prefix: Seq<Processor>,
    ps: Seq<Processor>,
    fd0: FrameDataView,
    rt0: RuntimeView,
    now: u128,
    rt1: RuntimeView,
    k: int,
)
    requires
        0 <= k <= ps.len(),
        prefix == ps.take(k),
        chain_steps(prefix, fd0, rt0, now, None::<FrameDataView>, rt1),
    ensures
        chain_steps(ps, fd0, rt0, now, None::<FrameDataView>, rt1),
    decreases ps.len(),
{
    if k == 0 {
        assert(false);
    } else {
        let (m0, rtm0): (Option<FrameDataView>, RuntimeView) = choose|
            m0: Option<FrameDataView>,
            rtm0: RuntimeView,
        |
            #[trigger] processor_step(prefix[0], fd0, rt0, now, m0, rtm0) && (match m0 {
                Some(fd1) => chain_steps(
                    prefix.drop_first(),
                    fd1,
                    rtm0,
                    now,
                    None::<FrameDataView>,
                    rt1,
                ),
                None => rt1 == rtm0,
            });
        assert(prefix[0] == ps[0]);
        match m0 {
            Some(fd1) => {
                assert(prefix.drop_first() =~= ps.drop_first().take(k - 1));
                lemma_chain_none_extends(
                    prefix.drop_first(),
                    ps.drop_first(),
                    fd1,
                    rtm0,
                    now,
                    rt1,
                    k - 1,
                );
                assert(processor_step(ps[0], fd0, rt0, now, m0, rtm0));
            },
            None => {
                assert(processor_step(ps[0], fd0, rt0, now, m0, rtm0));
            },
        }
    }
}


/// One stage of a pipeline: an ordered list of processors between an
/// optional input channel and an optional output channel, optionally paced
/// by a periodic tick.
pub struct Component {
    pub processors: Vec<Processor>,
    pub receiver: Option<usize>,
    pub sender: Option<usize>,
    pub tick_interval_millis: Option<u64>,
}

/// A component's channels and processors are wired within the runtime's
/// bounds.
pub open spec fn component_valid(c: Component, rt: RuntimeView) -> bool {
    &&& chain_valid(c.processors@, rt)
    &&& match c.receiver {
        Some(ch) => ch < rt.channels.len(),
        None => true,
    }
    &&& match c.sender {
        Some(ch) => ch < rt.channels.len(),
        None => true,
    }
}

/// The runtime after a surviving frame is sent downstream, if an output
/// channel is bound.
pub open spec fn after_send(
    sender: Option<usize>,
    out: Option<FrameDataView>,
    rt: RuntimeView,
) -> RuntimeView {
    match (out, sender) {
        (Some(f), Some(ch)) => with_channel_push(rt, ch as int, f),
        _ => rt,
    }
}

/// An empty frame, as a component without an input channel synthesizes it.
pub open spec fn empty_frame() -> FrameDataView {
    FrameDataView {
        stats: Map::empty(),
        local_stats: Map::empty(),
        readonly_buffers: Map::empty(),
        writable_buffers: Map::empty(),
        drop_reason: None,
    }
}

/// One iteration of a component: what the runtime becomes and whether any
/// work was done.
pub open spec fn component_step_rel(
    c: Component,
    rt0: RuntimeView,
    now: u128,
    rt1: RuntimeView,
    progressed: bool,
) -> bool {
    match c.receiver {
        Some(ch) => {
            if rt0.channels[ch as int].len() == 0 {
                !progressed && rt1 == rt0
            } else {
                progressed && exists|mid: Option<FrameDataView>, rtm: RuntimeView|
                    #[trigger] chain_steps(
                        c.processors@,
                        rt0.channels[ch as int][0],
                        with_channel_pop(rt0, ch as int),
                        now,
                        mid,
                        rtm,
                    ) && rt1 == after_send(c.sender, mid, rtm)
            }
        },
        None => progressed && exists|mid: Option<FrameDataView>, rtm: RuntimeView|
            #[trigger] chain_steps(c.processors@, empty_frame(), rt0, now, mid, rtm) && rt1
                == after_send(c.sender, mid, rtm),
    }
}

impl Component {
    /// A component with no processors and unbound channels.
    pub fn new() -> (r: Self)
        ensures
            r.processors@.len() == 0,
            r.receiver is None,
            r.sender is None,
            r.tick_interval_millis is None,
    {
        Component { processors: Vec::new(), receiver: None, sender: None, tick_interval_millis: None }
    }

    /// Appends a processor to the chain.
    pub fn add(self, processor: Processor) -> (r: Self)
        ensures
            r.processors@ == self.processors@.push(processor),
            r.receiver == self.receiver,
            r.sender == self.sender,
            r.tick_interval_millis == self.tick_interval_millis,
    {
        let mut c = self;
        c.processors.push(processor);
        c
    }

    /// Paces this component to a periodic tick. The scheduler honours the
    /// interval; the transition relation is unchanged.
    pub fn with_tick(self, tick_interval_millis: u64) -> (r: Self)
        ensures
            r.processors@ == self.processors@,
            r.receiver == self.receiver,
            r.sender == self.sender,
            r.tick_interval_millis == Some(tick_interval_millis),
    {
        let mut c = self;
        c.tick_interval_millis = Some(tick_interval_millis);
        c
    }

    /// Binds the output channel.
    pub fn set_sender(&mut self, channel: usize)
        ensures
            final(self).sender == Some(channel),
            final(self).receiver == old(self).receiver,
            final(self).processors@ == old(self).processors@,
            final(self).tick_interval_millis == old(self).tick_interval_millis,
    {
        self.sender = Some(channel);
    }

    /// Binds the input channel.
    pub fn set_receiver(&mut self, channel: usize)
        ensures
            final(self).receiver == Some(channel),
            final(self).sender == old(self).sender,
            final(self).processors@ == old(self).processors@,
            final(self).tick_interval_millis == old(self).tick_interval_millis,
    {
        self.receiver = Some(channel);
    }

    /// Runs one iteration: takes a frame from the input channel — or
    /// synthesizes an empty one if none is bound — feeds it through the
    /// processors in order, and sends a surviving frame downstream.
    /// Reports whether any work was done; with an input channel bound and
    /// empty there is none.
    pub fn step(&self, rt: &mut PipelineRuntime, now_millis: u128) -> (progressed: bool)
        requires
            component_valid(*self, old(rt)@),
            runtime_wf(old(rt)@),
        ensures
            runtime_wf(final(rt)@),
            final(rt)@.channels.len() == old(rt)@.channels.len(),
            final(rt)@.pools.len() == old(rt)@.pools.len(),
            component_step_rel(*self, old(rt)@, now_millis, final(rt)@, progressed),
    {
        let frame = match self.receiver {
            Some(ch) => {
                match rt.pop_frame(ch) {
                    Some(f) => f,
                    None => {
                        return false;
                    },
                }
            },
            None => FrameData::default(),
        };
        proof {
            assert(frame@ == match self.receiver {
                Some(ch) => old(rt)@.channels[ch as int][0],
                None => empty_frame(),
            });
        }
        let ghost rt_mid0 = rt@;
        let out = run_chain(&self.processors, frame, rt, now_millis);
        match (out, self.sender) {
            (Some(f), Some(ch)) => {
                rt.push_frame(ch, f);
            },
            (Some(_), None) => {},
            _ => {},
        }
        true
    }
}

/// Mathematical model of a pipeline: its components and, if it is
/// feedable, the channel its feeders reach.
pub struct AscodePipelineView {
    pub components: Seq<Component>,
    pub feeder_channel: Option<usize>,
}

/// A linear sequence of components wired by FIFO channels.
pub struct AscodePipeline {
    components: Vec<Component>,
    feeder_channel: Option<usize>,
}

impl View for AscodePipeline {
    type V = AscodePipelineView;

    closed spec fn view(&self) -> AscodePipelineView {
        AscodePipelineView {
            components: self.components@,
            feeder_channel: self.feeder_channel,
        }
    }
}

/// Every component of the pipeline is wired within the runtime's bounds.
pub open spec fn pipeline_valid(p: AscodePipelineView, rt: RuntimeView) -> bool {
    forall|i: int| 0 <= i < p.components.len() ==> component_valid(#[trigger] p.components[i], rt)
}

impl AscodePipeline {
    /// A pipeline with no components.
    pub fn new() -> (r: Self)
        ensures
            r@.components.len() == 0,
            r@.feeder_channel is None,
    {
        AscodePipeline { components: Vec::new(), feeder_channel: None }
    }

    /// Appends a component.
    pub fn link(self, component: Component) -> (r: Self)
        ensures
            r@.components == self@.components.push(component),
            r@.feeder_channel == self@.feeder_channel,
    {
        let mut p = self;
        p.components.push(component);
        p
    }

    /// The components of this pipeline.
    pub fn components(&self) -> (r: &Vec<Component>)
        ensures
            r@ == self@.components,
    {
        &self.components
    }

    /// Wires consecutive components with fresh FIFO channels: each
    /// component's output becomes the next one's input.
    #[verifier::rlimit(100)]
    pub fn bind(self, rt: &mut PipelineRuntime) -> (r: Self)
        ensures
            r@.components.len() == self@.components.len(),
            r@.feeder_channel == self@.feeder_channel,
            final(rt)@.pools == old(rt)@.pools,
            self@.components.len() > 1 ==> final(rt)@.channels.len() == old(rt)@.channels.len()
                + self@.components.len() - 1,
            // every new channel starts empty
            forall|ch: int|
                old(rt)@.channels.len() <= ch < final(rt)@.channels.len()
                    ==> final(rt)@.channels[ch].len() == 0,
            // consecutive components share a fresh channel: each one's output
            // is the next one's input
            forall|i: int|
                0 <= i < r@.components.len() - 1 ==> (#[trigger] r@.components[i]).sender == Some(
                    (old(rt)@.channels.len() + i) as usize,
                ) && r@.components[i + 1].receiver == Some((old(rt)@.channels.len() + i) as usize),
            // everything else about each component is untouched
            forall|i: int|
                0 <= i < r@.components.len() ==> (#[trigger] r@.components[i]).processors@
                    == self@.components[i].processors@ && r@.components[i].tick_interval_millis
                    == self@.components[i].tick_interval_millis,
            r@.components.len() > 0 ==> r@.components[0].receiver == self@.components[0].receiver,
            r@.components.len() > 0 ==> r@.components[r@.components.len() - 1].sender
                == self@.components[self@.components.len() - 1].sender,
    {
        let ghost pipeline0 = self@;
        let ghost channels0 = old(rt)@.channels.len() as int;
        let mut components = self.components;
        let n = components.len();
        if n < 2 {
            return AscodePipeline { components, feeder_channel: self.feeder_channel };
        }
        let mut i: usize = 1;
        while i < n
            invariant
                1 <= i <= n,
                2 <= n,
                n == components@.len(),
                n == pipeline0.components.len(),
                rt@.pools == old(rt)@.pools,
                channels0 == old(rt)@.channels.len(),
                rt@.channels.len() == channels0 + i - 1,
                forall|ch: int|
                    channels0 <= ch < rt@.channels.len() ==> rt@.channels[ch].len() == 0,
                forall|j: int|
                    0 <= j < i - 1 ==> (#[trigger] components@[j]).sender == Some(
                        (channels0 + j) as usize,
                    ) && components@[j + 1].receiver == Some((channels0 + j) as usize),
                forall|j: int|
                    0 <= j < n ==> (#[trigger] components@[j]).processors@
                        == pipeline0.components[j].processors@ && components@[j].tick_interval_millis
                        == pipeline0.components[j].tick_interval_millis,
                components@[0].receiver == pipeline0.components[0].receiver,
                forall|j: int|
                    i <= j < n ==> (#[trigger] components@[j]).receiver
                        == pipeline0.components[j].receiver,
                forall|j: int|
                    i - 1 <= j < n ==> (#[trigger] components@[j]).sender
                        == pipeline0.components[j].sender,
            decreases n - i,
        {
            let ch = rt.add_channel();
            Self::wire_pair(&mut components, i, ch);
            i = i + 1;
        }
        AscodePipeline { components, feeder_channel: self.feeder_channel }
    }

    /// Wires one consecutive pair: component `i - 1` sends into channel
    /// `ch`, component `i` receives from it; nothing else changes.
    fn wire_pair(components: &mut Vec<Component>, i: usize, ch: usize)
        requires
            1 <= i < old(components)@.len(),
        ensures
            final(components)@.len() == old(components)@.len(),
            forall|j: int|
                0 <= j < old(components)@.len() && j != i - 1 && j != i
                    ==> final(components)@[j] == old(components)@[j],
            final(components)@[i - 1].sender == Some(ch),
            final(components)@[i - 1].receiver == old(components)@[i - 1].receiver,
            final(components)@[i - 1].processors@ == old(components)@[i - 1].processors@,
            final(components)@[i - 1].tick_interval_millis == old(
                components,
            )@[i - 1].tick_interval_millis,
            final(components)@[i as int].receiver == Some(ch),
            final(components)@[i as int].sender == old(components)@[i as int].sender,
            final(components)@[i as int].processors@ == old(components)@[i as int].processors@,
            final(components)@[i as int].tick_interval_millis == old(
                components,
            )@[i as int].tick_interval_millis,
    {
        let ghost pre = components@;
        let mut src = components.remove(i - 1);
        src.set_sender(ch);
        components.insert(i - 1, src);
        proof {
            assert forall|j: int| 0 <= j < pre.len() && j != i - 1 implies components@[j]
                == pre[j] by {
                assert(pre.remove(i - 1).insert(i - 1, src)[j] == pre[j]);
            }
        }
        let ghost mid = components@;
        let mut dst = components.remove(i);
        dst.set_receiver(ch);
        components.insert(i, dst);
        proof {
            assert forall|j: int| 0 <= j < mid.len() && j != i implies components@[j]
                == mid[j] by {
                assert(mid.remove(i as int).insert(i as int, dst)[j] == mid[j]);
            }
        }
    }

    /// Makes the pipeline feedable: opens the inbound channel through which
    /// feeders inject frames into the first component.
    pub fn feedable(self, rt: &mut PipelineRuntime) -> (r: Self)
        requires
            self@.components.len() > 0,
        ensures
            r@.components.len() == self@.components.len(),
            r@.feeder_channel == Some(old(rt)@.channels.len() as usize),
            final(rt)@.channels == old(rt)@.channels.push(Seq::<FrameDataView>::empty()),
            final(rt)@.pools == old(rt)@.pools,
            r@.components[0].receiver == Some(old(rt)@.channels.len() as usize),
            r@.components[0].sender == self@.components[0].sender,
            r@.components[0].processors@ == self@.components[0].processors@,
            r@.components[0].tick_interval_millis == self@.components[0].tick_interval_millis,
            forall|i: int|
                1 <= i < r@.components.len() ==> r@.components[i] == self@.components[i],
    {
        let mut components = self.components;
        let ghost pre = components@;
        let ch = rt.add_channel();
        let mut first = components.remove(0);
        first.set_receiver(ch);
        components.insert(0, first);
        proof {
            assert forall|i: int| 1 <= i < pre.len() implies components@[i] == pre[i] by {
                assert(pre.remove(0).insert(0, first)[i] == pre[i]);
            }
        }
        AscodePipeline { components, feeder_channel: Some(ch) }
    }

    /// The handle through which frames are injected; the pipeline must be
    /// feedable.
    pub fn get_feeder(&self) -> (r: AscodePipelineFeeder)
        requires
            self@.feeder_channel is Some,
        ensures
            r.channel == self@.feeder_channel.unwrap(),
    {
        match self.feeder_channel {
            Some(ch) => AscodePipelineFeeder { channel: ch },
            None => unreached(),
        }
    }

    /// Runs one iteration of every component, in order: the runtime is
    /// threaded through one component step per component.
    pub fn run_round(&self, rt: &mut PipelineRuntime, now_millis: u128)
        requires
            pipeline_valid(self@, old(rt)@),
            runtime_wf(old(rt)@),
        ensures
            runtime_wf(final(rt)@),
            final(rt)@.channels.len() == old(rt)@.channels.len(),
            final(rt)@.pools.len() == old(rt)@.pools.len(),
            pipeline_valid(self@, final(rt)@),
            round_steps(self@.components, old(rt)@, now_millis, final(rt)@),
    {
        let n = self.components.len();
        let mut i: usize = 0;
        while i < n
            invariant
                i <= n,
                n == self@.components.len(),
                runtime_wf(rt@),
                rt@.channels.len() == old(rt)@.channels.len(),
                rt@.pools.len() == old(rt)@.pools.len(),
                pipeline_valid(self@, rt@),
                round_steps(self@.components.take(i as int), old(rt)@, now_millis, rt@),
            decreases n - i,
        {
            let ghost rt_pre = rt@;
            let progressed = self.components[i].step(rt, now_millis);
            proof {
                assert forall|j: int|
                    0 <= j < self@.components.len() implies component_valid(
                    #[trigger] self@.components[j],
                    rt@,
                ) by {
                }
                lemma_round_snoc(
                    self@.components.take(i as int),
                    self@.components[i as int],
                    old(rt)@,
                    now_millis,
                    rt_pre,
                    rt@,
                    progressed,
                );
                assert(self@.components.take(i + 1) =~= self@.components.take(i as int).push(
                    self@.components[i as int],
                ));
            }
            i = i + 1;
        }
        proof {
            assert(self@.components.take(n as int) =~= self@.components);
        }
    }
}

/// The runtimes one round of a pipeline threads through: each component
/// makes one step, in order, starting from the state its predecessors left.
pub open spec fn round_steps(
    components: Seq<Component>,
    rt0: RuntimeView,
    now: u128,
    rt1: RuntimeView,
) -> bool
    decreases components.len(),
{
    if components.len() == 0 {
        rt1 == rt0
    } else {
        exists|rtm: RuntimeView, progressed: bool|
            #[trigger] component_step_rel(components[0], rt0, now, rtm, progressed) && round_steps(
                components.drop_first(),
                rtm,
                now,
                rt1,
            )
    }
}

/// A round extended by one component steps by running the round and then
/// the component.
pub proof fn lemma_round_snoc(
    components: Seq<Component>,
    c: Component,
    rt0: RuntimeView,
    now: u128,
    rtm: RuntimeView,
    rt1: RuntimeView,
    progressed: bool,
)
    requires
        round_steps(components, rt0, now, rtm),
        component_step_rel(c, rtm, now, rt1, progressed),
    ensures
        round_steps(components.push(c), rt0, now, rt1),
    decreases components.len(),
{
    if components.len() == 0 {
        assert(components.push(c)[0] == c);
        assert(components.push(c).drop_first() =~= Seq::<Component>::empty());
        assert(component_step_rel(components.push(c)[0], rt0, now, rt1, progressed));
        assert(round_steps(components.push(c).drop_first(), rt1, now, rt1));
    } else {
        let (rtx, px): (RuntimeView, bool) = choose|rtx: RuntimeView, px: bool|
            #[trigger] component_step_rel(components[0], rt0, now, rtx, px) && round_steps(
                components.drop_first(),
                rtx,
                now,
                rtm,
            );
        lemma_round_snoc(components.drop_first(), c, rtx, now, rtm, rt1, progressed);
        assert(components.push(c).drop_first() =~= components.drop_first().push(c));
        assert(component_step_rel(components.push(c)[0], rt0, now, rtx, px));
    }
}


/// The runtimes a component threads through while draining its input
/// channel: `steps` iterations, each taking the channel's oldest frame,
/// running the processors on it, and sending a surviving frame downstream.
pub open spec fn drain_steps(
    c: Component,
    rt0: RuntimeView,
    now: u128,
    rt1: RuntimeView,
    steps: nat,
) -> bool
    decreases steps,
{
    if steps == 0 {
        rt1 == rt0
    } else {
        exists|rtm: RuntimeView|
            #[trigger] component_step_rel(c, rt0, now, rtm, true) && drain_steps(
                c,
                rtm,
                now,
                rt1,
                (steps - 1) as nat,
            )
    }
}

/// A drain extended by one more iteration is a drain.
pub proof fn lemma_drain_snoc(
    c: Component,
    rt0: RuntimeView,
    now: u128,
    rtm: RuntimeView,
    rt1: RuntimeView,
    steps: nat,
)
    requires
        drain_steps(c, rt0, now, rtm, steps),
        component_step_rel(c, rtm, now, rt1, true),
    ensures
        drain_steps(c, rt0, now, rt1, steps + 1),
    decreases steps,
{
    if steps == 0 {
        assert(drain_steps(c, rt1, now, rt1, 0));
    } else {
        let rtx = choose|rtx: RuntimeView|
            #[trigger] component_step_rel(c, rt0, now, rtx, true) && drain_steps(
                c,
                rtx,
                now,
                rtm,
                (steps - 1) as nat,
            );
        lemma_drain_snoc(c, rtx, now, rtm, rt1, (steps - 1) as nat);
    }
}

/// The stat a frame carries under a key, zero when absent: the projection
/// the FIFO law speaks of.
pub open spec fn frame_stat_or_zero(fd: FrameDataView, key: Seq<char>) -> u128 {
    if fd.stats.dom().contains(key) {
        fd.stats[key]
    } else {
        0
    }
}

/// The stats a run of frames carries under a key, in order.
pub open spec fn frame_ids(s: Seq<FrameDataView>, key: Seq<char>) -> Seq<u128> {
    Seq::new(s.len(), |i: int| frame_stat_or_zero(s[i], key))
}

/// A strictly increasing index map embedding `a` into `b`.
pub open spec fn subsequence_witness(m: Seq<int>, a: Seq<u128>, b: Seq<u128>) -> bool {
    &&& m.len() == a.len()
    &&& forall|i: int| 0 <= i < m.len() ==> 0 <= #[trigger] m[i] < b.len()
    &&& forall|i: int, j: int| 0 <= i < j < m.len() ==> m[i] < m[j]
    &&& forall|i: int| 0 <= i < m.len() ==> a[i] == b[#[trigger] m[i]]
}

/// Whether `a` occurs within `b` in order: the elements of `a` appear in
/// `b` at strictly increasing positions.
pub open spec fn is_subsequence(a: Seq<u128>, b: Seq<u128>) -> bool {
    exists|m: Seq<int>| subsequence_witness(m, a, b)
}

pub proof fn lemma_subsequence_empty(b: Seq<u128>)
    ensures
        is_subsequence(Seq::empty(), b),
{
    assert(subsequence_witness(Seq::<int>::empty(), Seq::empty(), b));
}

/// A subsequence stays one when the larger run grows.
pub proof fn lemma_subsequence_extend_b(a: Seq<u128>, b: Seq<u128>, x: u128)
    requires
        is_subsequence(a, b),
    ensures
        is_subsequence(a, b.push(x)),
{
    let m = choose|m: Seq<int>| subsequence_witness(m, a, b);
    assert(subsequence_witness(m, a, b.push(x)));
}

/// Appending the same element to both runs keeps the embedding.
pub proof fn lemma_subsequence_extend_both(a: Seq<u128>, b: Seq<u128>, x: u128)
    requires
        is_subsequence(a, b),
    ensures
        is_subsequence(a.push(x), b.push(x)),
{
    let m = choose|m: Seq<int>| subsequence_witness(m, a, b);
    let m2 = m.push(b.len() as int);
    assert forall|i: int| 0 <= i < m2.len() implies a.push(x)[i] == b.push(x)[#[trigger] m2[i]] by {
        if i < m.len() {
            assert(m2[i] == m[i]);
        }
    }
    assert(subsequence_witness(m2, a.push(x), b.push(x)));
}

/// Law: order is preserved across stages. A run that appears in order
/// within a second run, which appears in order within a third, appears in
/// order within the third: the per-stage FIFO guarantee composes along a
/// pipeline.
pub proof fn lemma_subsequence_transitive(a: Seq<u128>, b: Seq<u128>, c: Seq<u128>)
    requires
        is_subsequence(a, b),
        is_subsequence(b, c),
    ensures
        is_subsequence(a, c),
{
    let m1 = choose|m: Seq<int>| subsequence_witness(m, a, b);
    let m2 = choose|m: Seq<int>| subsequence_witness(m, b, c);
    let m3 = Seq::new(a.len(), |i: int| m2[m1[i]]);
    assert forall|i: int, j: int| 0 <= i < j < m3.len() implies m3[i] < m3[j] by {
        assert(m1[i] < m1[j]);
    }
    assert(subsequence_witness(m3, a, c));
}

/// Whether a processor never feeds the given channel.
pub open spec fn processor_avoids(p: Processor, ch: int) -> bool {
    match p {
        Processor::OnErrorSwitch(s) => s.feeder.channel != ch,
        Processor::PoolingSwitch(s) => forall|k: int|
            0 <= k < s.entries@.len() ==> (#[trigger] s.entries@[k]).1.channel != ch,
        _ => true,
    }
}

/// Whether no processor of the chain feeds the given channel.
pub open spec fn chain_avoids(ps: Seq<Processor>, ch: int) -> bool {
    forall|i: int| 0 <= i < ps.len() ==> processor_avoids(#[trigger] ps[i], ch)
}

/// A processor that does not feed a channel leaves it untouched.
pub proof fn lemma_step_avoids(
    p: Processor,
    fd0: FrameDataView,
    rt0: RuntimeView,
    now: u128,
    out: Option<FrameDataView>,
    rt1: RuntimeView,
    ch: int,
)
    requires
        processor_valid(p, rt0),
        processor_step(p, fd0, rt0, now, out, rt1),
        processor_avoids(p, ch),
        0 <= ch < rt0.channels.len(),
    ensures
        rt1.channels.len() == rt0.channels.len(),
        rt1.channels[ch] == rt0.channels[ch],
{
    lemma_step_preserves_shape(p, fd0, rt0, now, out, rt1);
    match p {
        Processor::PoolingSwitch(s) => {
            let k = choose|k: int|
                0 <= k < s.entries@.len() && out is None && rt1 == with_channel_push(
                    rt0,
                    (#[trigger] s.entries@[k]).1.channel as int,
                    crate::frame_data::with_stat(fd0, "pool_key"@, s.entries@[k].0),
                );
        },
        _ => {},
    }
}

/// A chain that feeds no frame into a channel leaves it untouched.
pub proof fn lemma_chain_avoids(
    ps: Seq<Processor>,
    fd0: FrameDataView,
    rt0: RuntimeView,
    now: u128,
    out: Option<FrameDataView>,
    rt1: RuntimeView,
    ch: int,
)
    requires
        chain_valid(ps, rt0),
        chain_steps(ps, fd0, rt0, now, out, rt1),
        chain_avoids(ps, ch),
        0 <= ch < rt0.channels.len(),
    ensures
        rt1.channels.len() == rt0.channels.len(),
        rt1.channels[ch] == rt0.channels[ch],
    decreases ps.len(),
{
    if ps.len() > 0 {
        let (m0, rtm0): (Option<FrameDataView>, RuntimeView) = choose|
            m0: Option<FrameDataView>,
            rtm0: RuntimeView,
        |
            #[trigger] processor_step(ps[0], fd0, rt0, now, m0, rtm0) && (match m0 {
                Some(fd1) => chain_steps(ps.drop_first(), fd1, rtm0, now, out, rt1),
                None => out is None && rt1 == rtm0,
            });
        lemma_step_avoids(ps[0], fd0, rt0, now, m0, rtm0, ch);
        match m0 {
            Some(fd1) => {
                assert forall|i: int|
                    0 <= i < ps.drop_first().len() implies processor_valid(
                    #[trigger] ps.drop_first()[i],
                    rtm0,
                ) by {
                    assert(ps[i + 1] == ps.drop_first()[i]);
                    lemma_valid_same_shape(ps[i + 1], rt0, rtm0);
                }
                assert forall|i: int|
                    0 <= i < ps.drop_first().len() implies processor_avoids(
                    #[trigger] ps.drop_first()[i],
                    ch,
                ) by {
                    assert(ps[i + 1] == ps.drop_first()[i]);
                }
                lemma_chain_avoids(ps.drop_first(), fd1, rtm0, now, out, rt1, ch);
            },
            None => {},
        }
    }
}

/// Whether a processor never rewrites the given stat.
pub open spec fn processor_keeps_stat(p: Processor, key: Seq<char>) -> bool {
    match p {
        Processor::TimestampAdder(a) => a.id@ != key,
        _ => true,
    }
}

/// Whether no processor of the chain rewrites the given stat.
pub open spec fn chain_keeps_stat(ps: Seq<Processor>, key: Seq<char>) -> bool {
    forall|i: int| 0 <= i < ps.len() ==> processor_keeps_stat(#[trigger] ps[i], key)
}

/// A processor that does not rewrite a stat passes it through unchanged.
pub proof fn lemma_step_keeps_stat(
    p: Processor,
    fd0: FrameDataView,
    rt0: RuntimeView,
    now: u128,
    out: Option<FrameDataView>,
    rt1: RuntimeView,
    key: Seq<char>,
)
    requires
        processor_step(p, fd0, rt0, now, out, rt1),
        processor_keeps_stat(p, key),
        out is Some,
    ensures
        frame_stat_or_zero(out.unwrap(), key) == frame_stat_or_zero(fd0, key),
{
}

/// A chain that does not rewrite a stat passes it through unchanged.
pub proof fn lemma_chain_keeps_stat(
    ps: Seq<Processor>,
    fd0: FrameDataView,
    rt0: RuntimeView,
    now: u128,
    out: Option<FrameDataView>,
    rt1: RuntimeView,
    key: Seq<char>,
)
    requires
        chain_steps(ps, fd0, rt0, now, out, rt1),
        chain_keeps_stat(ps, key),
        out is Some,
    ensures
        frame_stat_or_zero(out.unwrap(), key) == frame_stat_or_zero(fd0, key),
    decreases ps.len(),
{
    if ps.len() == 0 {
    } else {
        let (m0, rtm0): (Option<FrameDataView>, RuntimeView) = choose|
            m0: Option<FrameDataView>,
            rtm0: RuntimeView,
        |
            #[trigger] processor_step(ps[0], fd0, rt0, now, m0, rtm0) && (match m0 {
                Some(fd1) => chain_steps(ps.drop_first(), fd1, rtm0, now, out, rt1),
                None => out is None && rt1 == rtm0,
            });
        match m0 {
            Some(fd1) => {
                lemma_step_keeps_stat(ps[0], fd0, rt0, now, m0, rtm0, key);
                assert forall|i: int|
                    0 <= i < ps.drop_first().len() implies processor_keeps_stat(
                    #[trigger] ps.drop_first()[i],
                    key,
                ) by {
                    assert(ps[i + 1] == ps.drop_first()[i]);
                }
                lemma_chain_keeps_stat(ps.drop_first(), fd1, rtm0, now, out, rt1, key);
            },
            None => {
                assert(false);
            },
        }
    }
}

impl Component {
    /// Law: FIFO order within a stage. Drains the input channel, running
    /// every waiting frame through the processors in arrival order. The
    /// frames this appends to the output channel carry their `frame_id`
    /// stats in input order: the appended ids form an in-order
    /// subsequence of the input's ids. Composed along a pipeline with
    /// [`lemma_subsequence_transitive`], surviving frames leave a pipeline
    /// in the order they entered it.
    pub fn run_to_idle(&self, rt: &mut PipelineRuntime, now_millis: u128)
        requires
            component_valid(*self, old(rt)@),
            runtime_wf(old(rt)@),
            self.receiver is Some,
            self.sender is Some,
            self.receiver.unwrap() != self.sender.unwrap(),
            chain_avoids(self.processors@, self.receiver.unwrap() as int),
            chain_avoids(self.processors@, self.sender.unwrap() as int),
            chain_keeps_stat(self.processors@, "frame_id"@),
        ensures
            runtime_wf(final(rt)@),
            final(rt)@.channels.len() == old(rt)@.channels.len(),
            final(rt)@.pools.len() == old(rt)@.pools.len(),
            final(rt)@.channels[self.receiver.unwrap() as int].len() == 0,
            final(rt)@.channels[self.sender.unwrap() as int].take(
                old(rt)@.channels[self.sender.unwrap() as int].len() as int,
            ) == old(rt)@.channels[self.sender.unwrap() as int],
            is_subsequence(
                frame_ids(
                    final(rt)@.channels[self.sender.unwrap() as int].skip(
                        old(rt)@.channels[self.sender.unwrap() as int].len() as int,
                    ),
                    "frame_id"@,
                ),
                frame_ids(old(rt)@.channels[self.receiver.unwrap() as int], "frame_id"@),
            ),
            exists|steps: nat| drain_steps(*self, old(rt)@, now_millis, final(rt)@, steps),
    {
        let in_ch = match self.receiver {
            Some(ch) => ch,
            None => unreached(),
        };
        let out_ch = match self.sender {
            Some(ch) => ch,
            None => unreached(),
        };
        let ghost input0 = old(rt)@.channels[in_ch as int];
        let ghost out0 = old(rt)@.channels[out_ch as int];
        let ghost mut consumed: int = 0;
        let ghost mut steps: nat = 0;
        proof {
            assert(drain_steps(*self, old(rt)@, now_millis, rt@, 0));
            assert(rt@.channels[in_ch as int] =~= input0.skip(0));
            let app0 = rt@.channels[out_ch as int].skip(out0.len() as int);
            assert(app0 =~= Seq::<FrameDataView>::empty());
            assert(frame_ids(app0, "frame_id"@) =~= Seq::<u128>::empty());
            assert(frame_ids(input0.take(0), "frame_id"@) =~= Seq::<u128>::empty());
            lemma_subsequence_empty(frame_ids(input0.take(0), "frame_id"@));
            assert(rt@.channels[out_ch as int].take(out0.len() as int) =~= out0);
        }
        loop
            invariant
                0 <= consumed <= input0.len(),
                runtime_wf(rt@),
                component_valid(*self, rt@),
                rt@.channels.len() == old(rt)@.channels.len(),
                rt@.pools.len() == old(rt)@.pools.len(),
                self.receiver == Some(in_ch),
                self.sender == Some(out_ch),
                in_ch < rt@.channels.len(),
                out_ch < rt@.channels.len(),
                in_ch != out_ch,
                chain_avoids(self.processors@, in_ch as int),
                chain_avoids(self.processors@, out_ch as int),
                chain_keeps_stat(self.processors@, "frame_id"@),
                rt@.channels[in_ch as int] == input0.skip(consumed),
                out0.len() <= rt@.channels[out_ch as int].len(),
                rt@.channels[out_ch as int].take(out0.len() as int) == out0,
                is_subsequence(
                    frame_ids(rt@.channels[out_ch as int].skip(out0.len() as int), "frame_id"@),
                    frame_ids(input0.take(consumed), "frame_id"@),
                ),
                drain_steps(*self, old(rt)@, now_millis, rt@, steps),
            ensures
                rt@.channels[in_ch as int].len() == 0,
                consumed == input0.len(),
                runtime_wf(rt@),
                rt@.channels.len() == old(rt)@.channels.len(),
                rt@.pools.len() == old(rt)@.pools.len(),
                rt@.channels[out_ch as int].take(out0.len() as int) == out0,
                is_subsequence(
                    frame_ids(rt@.channels[out_ch as int].skip(out0.len() as int), "frame_id"@),
                    frame_ids(input0.take(consumed), "frame_id"@),
                ),
                exists|k: nat| drain_steps(*self, old(rt)@, now_millis, rt@, k),
            decreases input0.len() - consumed,
        {
            if rt.channel_len(in_ch) == 0 {
                proof {
                    assert(input0.skip(consumed).len() == 0);
                }
                break ;
            }
            let ghost rt_start = rt@;
            let ghost ids_in = frame_ids(input0.take(consumed), "frame_id"@);
            let ghost appended = rt@.channels[out_ch as int].skip(out0.len() as int);
            let fd = match rt.pop_frame(in_ch) {
                Some(f) => f,
                None => unreached(),
            };
            let ghost fd_view = fd@;
            let ghost rt_popped = rt@;
            proof {
                assert(fd_view == input0.skip(consumed)[0]);
                assert(fd_view == input0[consumed]);
                assert(rt_popped.channels[in_ch as int] =~= input0.skip(consumed + 1));
                assert(rt_popped.channels[out_ch as int] == rt_start.channels[out_ch as int]);
            }
            let out = run_chain(&self.processors, fd, rt, now_millis);
            let ghost rt_chained_all = rt@;
            let ghost mid_view: Option<FrameDataView> = match out {
                Some(ref f) => Some(f@),
                None => None,
            };
            proof {
                lemma_chain_avoids(
                    self.processors@,
                    fd_view,
                    rt_popped,
                    now_millis,
                    match out {
                        Some(ref f) => Some(f@),
                        None => None,
                    },
                    rt@,
                    in_ch as int,
                );
                lemma_chain_avoids(
                    self.processors@,
                    fd_view,
                    rt_popped,
                    now_millis,
                    match out {
                        Some(ref f) => Some(f@),
                        None => None,
                    },
                    rt@,
                    out_ch as int,
                );
                assert forall|j: int|
                    0 <= j < self.processors@.len() implies processor_valid(
                    #[trigger] self.processors@[j],
                    rt@,
                ) by {
                    lemma_valid_same_shape(self.processors@[j], rt_popped, rt@);
                }
                assert(frame_ids(input0.take(consumed + 1), "frame_id"@) =~= ids_in.push(
                    frame_stat_or_zero(fd_view, "frame_id"@),
                ));
            }
            match out {
                Some(f) => {
                    proof {
                        lemma_chain_keeps_stat(
                            self.processors@,
                            fd_view,
                            rt_popped,
                            now_millis,
                            Some(f@),
                            rt@,
                            "frame_id"@,
                        );
                    }
                    let ghost rt_chained = rt@;
                    rt.push_frame(out_ch, f);
                    proof {
                        assert(rt@.channels[in_ch as int] == rt_chained.channels[in_ch as int]);
                        assert(rt_chained.channels[out_ch as int]
                            == rt_start.channels[out_ch as int]);
                        assert(rt@.channels[out_ch as int] == rt_chained.channels[out_ch as int].push(
                            f@,
                        ));
                        assert(rt@.channels[out_ch as int].skip(out0.len() as int) =~= appended.push(
                            f@,
                        ));
                        assert(rt@.channels[out_ch as int].take(out0.len() as int) =~= out0);
                        assert(frame_ids(appended.push(f@), "frame_id"@) =~= frame_ids(
                            appended,
                            "frame_id"@,
                        ).push(frame_stat_or_zero(f@, "frame_id"@)));
                        lemma_subsequence_extend_both(
                            frame_ids(appended, "frame_id"@),
                            ids_in,
                            frame_stat_or_zero(fd_view, "frame_id"@),
                        );
                        assert forall|j: int|
                            0 <= j < self.processors@.len() implies processor_valid(
                            #[trigger] self.processors@[j],
                            rt@,
                        ) by {
                            lemma_valid_same_shape(self.processors@[j], rt_chained, rt@);
                        }
                    }
                },
                None => {
                    proof {
                        lemma_subsequence_extend_b(
                            frame_ids(appended, "frame_id"@),
                            ids_in,
                            frame_stat_or_zero(fd_view, "frame_id"@),
                        );
                    }
                },
            }
            proof {
                assert(rt_popped == with_channel_pop(rt_start, in_ch as int));
                assert(chain_steps(
                    self.processors@,
                    rt_start.channels[in_ch as int][0],
                    with_channel_pop(rt_start, in_ch as int),
                    now_millis,
                    mid_view,
                    rt_chained_all,
                ));
                assert(rt@ == after_send(self.sender, mid_view, rt_chained_all));
                assert(component_step_rel(*self, rt_start, now_millis, rt@, true));
                lemma_drain_snoc(*self, old(rt)@, now_millis, rt_start, rt@, steps);
                steps = steps + 1;
                consumed = consumed + 1;
            }
        }
    }
}

} // verus!
