//! Bounded pools of pre-allocated, fixed-size byte buffers, and the
//! allocator that hands out fresh buffers.
//!
//! A pool is filled to capacity at construction. Borrowing is non-blocking:
//! an empty pool refuses rather than waits, so backpressure surfaces as
//! frame drops instead of head-of-line blocking. Every buffer is, at any
//! instant, either in the pool's queue or out with exactly one borrower;
//! [`lemma_buffer_conservation`] states the accounting.

use vstd::prelude::*;

use crate::bufops::zero_vec;
use crate::frame_data::{with_writable_buffer, FrameData};

verus! {

/// Mathematical model of a buffer pool.
pub struct BufferPoolView {
    pub identifier: Seq<char>,
    pub buffer_size: nat,
    pub capacity: nat,
    pub queue: Seq<Seq<u8>>,
    pub borrowed: nat,
    pub returned: nat,
}

/// A pool conserves its buffers: the queue never exceeds capacity, every
/// queued buffer has the pool's size, and the borrow and return totals
/// balance against what is currently out.
pub open spec fn pool_wf(p: BufferPoolView) -> bool {
    &&& p.queue.len() <= p.capacity
    &&& forall|i: int| 0 <= i < p.queue.len() ==> (#[trigger] p.queue[i]).len() == p.buffer_size
    &&& p.borrowed == p.returned + p.capacity - p.queue.len()
}

/// A bounded store of `capacity` buffers of `buffer_size` bytes each, keyed
/// in frame envelopes by its identifier.
pub struct BufferPool {
    identifier: String,
    buffer_size: usize,
    capacity: usize,
    queue: Vec<Vec<u8>>,
    borrowed: Ghost<nat>,
    returned: Ghost<nat>,
}

impl View for BufferPool {
    type V = BufferPoolView;

    closed spec fn view(&self) -> BufferPoolView {
        BufferPoolView {
            identifier: self.identifier@,
            buffer_size: self.buffer_size as nat,
            capacity: self.capacity as nat,
            queue: Seq::new(self.queue@.len(), |i: int| self.queue@[i]@),
            borrowed: self.borrowed@,
            returned: self.returned@,
        }
    }
}

impl BufferPool {
    /// A pool filled to capacity with zero-filled buffers.
    pub fn new(identifier: &str, capacity: usize, buffer_bytes: usize) -> (r: Self)
        ensures
            r@.identifier == identifier@,
            r@.buffer_size == buffer_bytes,
            r@.capacity == capacity,
            r@.queue.len() == capacity,
            r@.borrowed == 0,
            r@.returned == 0,
            pool_wf(r@),
    {
        let mut queue: Vec<Vec<u8>> = Vec::new();
        let mut i: usize = 0;
        while i < capacity
            invariant
                i <= capacity,
                queue@.len() == i,
                forall|j: int| 0 <= j < i ==> (#[trigger] queue@[j])@.len() == buffer_bytes,
            decreases capacity - i,
        {
            queue.push(zero_vec(buffer_bytes));
            i = i + 1;
        }
        BufferPool {
            identifier: identifier.to_owned(),
            buffer_size: buffer_bytes,
            capacity,
            queue,
            borrowed: Ghost(0),
            returned: Ghost(0),
        }
    }

    /// The key under which this pool's buffers travel in frame envelopes.
    pub fn identifier(&self) -> (r: &String)
        ensures
            r@ == self@.identifier,
    {
        &self.identifier
    }

    /// The size of each of this pool's buffers.
    pub fn buffer_size(&self) -> (r: usize)
        ensures
            r == self@.buffer_size,
    {
        self.buffer_size
    }

    /// The number of buffers this pool owns in total.
    pub fn capacity(&self) -> (r: usize)
        ensures
            r == self@.capacity,
    {
        self.capacity
    }

    /// The number of buffers currently ready to borrow.
    pub fn available(&self) -> (r: usize)
        ensures
            r == self@.queue.len(),
    {
        self.queue.len()
    }

    /// Takes one buffer out of the pool, or refuses without waiting if none
    /// is ready.
    pub fn try_borrow(&mut self) -> (r: Option<Vec<u8>>)
        requires
            pool_wf(old(self)@),
        ensures
            pool_wf(final(self)@),
            final(self)@.identifier == old(self)@.identifier,
            final(self)@.buffer_size == old(self)@.buffer_size,
            final(self)@.capacity == old(self)@.capacity,
            final(self)@.returned == old(self)@.returned,
            match r {
                Some(b) => old(self)@.queue.len() > 0 && b@ == old(self)@.queue.last()
                    && b@.len() == old(self)@.buffer_size && final(self)@.queue
                    == old(self)@.queue.drop_last() && final(self)@.borrowed == old(
                    self,
                )@.borrowed + 1,
                None => old(self)@.queue.len() == 0 && final(self)@ == old(self)@,
            },
    {
        let r = self.queue.pop();
        match r {
            Some(b) => {
                proof {
                    self.borrowed@ = self.borrowed@ + 1;
                    assert(self@.queue =~= old(self)@.queue.drop_last());
                }
                Some(b)
            },
            None => {
                proof {
                    assert(self@.queue =~= old(self)@.queue);
                }
                None
            },
        }
    }

    /// Puts a borrowed buffer back. The buffer must have the pool's size,
    /// and the pool must have room — which it always has for a buffer that
    /// was borrowed from it and not yet returned.
    pub fn return_buffer(&mut self, buffer: Vec<u8>)
        requires
            pool_wf(old(self)@),
            buffer@.len() == old(self)@.buffer_size,
            old(self)@.queue.len() < old(self)@.capacity,
        ensures
            pool_wf(final(self)@),
            final(self)@.identifier == old(self)@.identifier,
            final(self)@.buffer_size == old(self)@.buffer_size,
            final(self)@.capacity == old(self)@.capacity,
            final(self)@.borrowed == old(self)@.borrowed,
            final(self)@.returned == old(self)@.returned + 1,
            final(self)@.queue == old(self)@.queue.push(buffer@),
    {
        let ghost b = buffer@;
        self.queue.push(buffer);
        proof {
            self.returned@ = self.returned@ + 1;
            assert(self@.queue =~= old(self)@.queue.push(b));
        }
    }
}

/// Law: buffer conservation. In every well-formed pool, the buffers
/// borrowed so far are exactly the buffers returned plus the buffers still
/// out — in a frame, or lost with a dropped one — and what is still out
/// never exceeds the pool's capacity.
pub proof fn lemma_buffer_conservation(p: BufferPoolView)
    requires
        pool_wf(p),
    ensures
        p.borrowed == p.returned + (p.capacity - p.queue.len()),
        p.borrowed - p.returned <= p.capacity,
{
}

/// Hands out freshly allocated zero-filled buffers of a fixed size, for
/// pipelines that do not recycle through a pool.
pub struct BufferAllocator {
    buffer_id: String,
    size: usize,
}

impl BufferAllocator {
    /// An allocator stamping buffers of `size` bytes under `buffer_id`.
    pub fn new(buffer_id: &str, size: usize) -> (r: Self)
        ensures
            r@ == (buffer_id@, size as nat),
    {
        BufferAllocator { buffer_id: buffer_id.to_owned(), size }
    }

    /// A fresh zero-filled buffer of the configured size.
    fn allocate_buffer(&self) -> (r: Vec<u8>)
        ensures
            r@.len() == self@.1,
            forall|i: int| 0 <= i < r@.len() ==> r@[i] == 0u8,
    {
        zero_vec(self.size)
    }

    /// Inserts a fresh zero-filled buffer under the configured key. A frame
    /// already carrying a readonly buffer under that key passes unchanged.
    pub fn process(&self, frame_data: &mut FrameData)
        ensures
            final(frame_data)@ == if old(frame_data)@.readonly_buffers.dom().contains(self@.0) {
                old(frame_data)@
            } else {
                with_writable_buffer(
                    old(frame_data)@,
                    self@.0,
                    Seq::<u8>::new(self@.1, |i: int| 0u8),
                )
            },
    {
        if frame_data.has_readonly_buffer(self.buffer_id.as_str()) {
            return ;
        }
        let buffer = self.allocate_buffer();
        proof {
            assert(buffer@ =~= Seq::<u8>::new(self@.1, |i: int| 0u8));
        }
        frame_data.insert_writable_buffer(self.buffer_id.as_str(), buffer);
    }
}

impl View for BufferAllocator {
    type V = (Seq<char>, nat);

    closed spec fn view(&self) -> (Seq<char>, nat) {
        (self.buffer_id@, self.size as nat)
    }
}

} // verus!
