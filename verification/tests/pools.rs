//! Buffer pools: bounded borrowing, returning, and the allocator.

use remotia::buffer_pool::{BufferAllocator, BufferPool};
use remotia::frame_data::FrameData;

#[test]
fn pool_starts_full_of_zeroed_buffers() {
    let mut pool = BufferPool::new("raw_frame_buffer", 2, 16);
    assert_eq!(pool.capacity(), 2);
    assert_eq!(pool.buffer_size(), 16);
    assert_eq!(pool.available(), 2);
    assert_eq!(pool.identifier(), "raw_frame_buffer");
    let buffer = pool.try_borrow().expect("pool starts full");
    assert_eq!(buffer, vec![0u8; 16]);
}

#[test]
fn borrowing_is_non_blocking_and_bounded() {
    let mut pool = BufferPool::new("raw_frame_buffer", 2, 8);
    let first = pool.try_borrow().expect("first borrow");
    let _second = pool.try_borrow().expect("second borrow");
    assert!(pool.try_borrow().is_none());
    assert_eq!(pool.available(), 0);

    pool.return_buffer(first);
    assert_eq!(pool.available(), 1);
    assert!(pool.try_borrow().is_some());
}

#[test]
fn allocator_inserts_a_zeroed_buffer() {
    let allocator = BufferAllocator::new("raw_frame_buffer", 4);
    let mut frame = FrameData::default();
    allocator.process(&mut frame);
    assert_eq!(frame.get_writable_buffer_ref("raw_frame_buffer"), &vec![0u8; 4]);
}
