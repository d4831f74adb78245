//! The staged runtime: processors, error diversion, buffer backpressure
//! and FIFO order.

use remotia::buffer_pool::BufferPool;
use remotia::error::DropReason;
use remotia::frame_data::FrameData;
use remotia::pipeline::{AscodePipeline, Component, PipelineRuntime};
use remotia::processors::{
    BufferBorrower, BufferRedeemer, KeyChecker, OnErrorSwitch, PoolingSwitch, Processor, Ticker,
    TimestampAdder, TimestampDiffBasedFrameDropper, TimestampDiffCalculator,
};

/// A feedable one-component pipeline whose channel collects diverted frames.
fn error_pipeline(rt: &mut PipelineRuntime) -> AscodePipeline {
    AscodePipeline::new().link(Component::new()).feedable(rt)
}

#[test]
fn stale_frames_reach_the_error_pipeline_not_the_sink() {
    let mut rt = PipelineRuntime::new();
    let error = error_pipeline(&mut rt);
    let input = rt.add_channel();
    let sink = rt.add_channel();

    let mut component = Component::new()
        .add(Processor::TimestampDiffCalculator(TimestampDiffCalculator::new("t0", "d")))
        .add(Processor::TimestampDiffBasedFrameDropper(TimestampDiffBasedFrameDropper::new(
            "d", 100,
        )))
        .add(Processor::OnErrorSwitch(OnErrorSwitch::new(&error)));
    component.set_receiver(input);
    component.set_sender(sink);

    // Captured at 0, processed at 120: 20 ms over the 100 ms budget.
    let mut frame = FrameData::default();
    frame.set("t0", 0);
    rt.push_frame(input, frame);
    assert!(component.step(&mut rt, 120));

    assert_eq!(rt.channel_len(sink), 0);
    let error_channel = error.get_feeder().channel;
    assert_eq!(rt.channel_len(error_channel), 1);
    let diverted = rt.pop_frame(error_channel).expect("diverted frame");
    assert_eq!(diverted.get_drop_reason(), Some(DropReason::StaleFrame));
    assert_eq!(diverted.get_local("d"), 120);
}

#[test]
fn threshold_is_strict() {
    let mut rt = PipelineRuntime::new();
    let input = rt.add_channel();
    let sink = rt.add_channel();
    let mut component = Component::new()
        .add(Processor::TimestampDiffBasedFrameDropper(TimestampDiffBasedFrameDropper::new(
            "d", 100,
        )));
    component.set_receiver(input);
    component.set_sender(sink);

    // Exactly at the threshold: kept.
    let mut at = FrameData::default();
    at.set("d", 100);
    rt.push_frame(input, at);
    component.step(&mut rt, 0);
    let kept = rt.pop_frame(sink).expect("frame at threshold survives");
    assert!(kept.get_drop_reason().is_none());

    // One over: marked stale.
    let mut over = FrameData::default();
    over.set("d", 101);
    rt.push_frame(input, over);
    component.step(&mut rt, 0);
    let marked = rt.pop_frame(sink).expect("dropper marks, it does not consume");
    assert_eq!(marked.get_drop_reason(), Some(DropReason::StaleFrame));
}

#[test]
fn fifo_order_of_surviving_frames() {
    let mut rt = PipelineRuntime::new();
    let error = error_pipeline(&mut rt);
    let input = rt.add_channel();
    let sink = rt.add_channel();
    let mut component = Component::new()
        .add(Processor::TimestampDiffBasedFrameDropper(TimestampDiffBasedFrameDropper::new(
            "delay", 100,
        )))
        .add(Processor::OnErrorSwitch(OnErrorSwitch::new(&error)));
    component.set_receiver(input);
    component.set_sender(sink);

    for (id, delay) in [(1u128, 5u128), (2, 500), (3, 7), (4, 999), (5, 0)] {
        let mut frame = FrameData::default();
        frame.set("frame_id", id);
        frame.set("delay", delay);
        rt.push_frame(input, frame);
    }
    component.run_to_idle(&mut rt, 0);

    let mut survivors = Vec::new();
    while let Some(frame) = rt.pop_frame(sink) {
        survivors.push(frame.get("frame_id"));
    }
    assert_eq!(survivors, vec![1, 3, 5]);
}

#[test]
fn pool_exhaustion_drops_the_third_frame() {
    let mut rt = PipelineRuntime::new();
    let pool = rt.add_pool(BufferPool::new("raw_frame_buffer", 2, 8));
    let input = rt.add_channel();
    let sink = rt.add_channel();
    let mut borrower_stage = Component::new().add(Processor::BufferBorrower(BufferBorrower::new(pool)));
    borrower_stage.set_receiver(input);
    borrower_stage.set_sender(sink);

    for id in 1u128..=3 {
        let mut frame = FrameData::default();
        frame.set("frame_id", id);
        rt.push_frame(input, frame);
    }
    borrower_stage.run_to_idle(&mut rt, 0);

    let first = rt.pop_frame(sink).unwrap();
    let second = rt.pop_frame(sink).unwrap();
    let mut third = rt.pop_frame(sink).unwrap();
    assert!(first.has_writable_buffer("raw_frame_buffer"));
    assert!(second.has_writable_buffer("raw_frame_buffer"));
    assert!(!third.has_writable_buffer("raw_frame_buffer"));
    assert_eq!(third.get_drop_reason(), Some(DropReason::NoAvailableBuffers));

    // A redeemer returns one buffer; the next borrow succeeds again.
    let redeem = Component::new().add(Processor::BufferRedeemer(BufferRedeemer::soft(pool)));
    let redeem_in = rt.add_channel();
    let redeem_out = rt.add_channel();
    let mut redeem_stage = redeem;
    redeem_stage.set_receiver(redeem_in);
    redeem_stage.set_sender(redeem_out);
    rt.push_frame(redeem_in, first);
    redeem_stage.step(&mut rt, 0);

    third.set_drop_reason(None);
    rt.push_frame(input, third);
    borrower_stage.step(&mut rt, 0);
    let retried = rt.pop_frame(sink).unwrap();
    assert!(retried.has_writable_buffer("raw_frame_buffer"));
    assert!(retried.get_drop_reason().is_none());
}

#[test]
fn pooling_switch_feeds_an_entry_and_keys_it() {
    let mut rt = PipelineRuntime::new();
    let destination = error_pipeline(&mut rt);
    let input = rt.add_channel();
    let mut component = Component::new().add(Processor::PoolingSwitch(
        PoolingSwitch::new().entry(77, &destination),
    ));
    component.set_receiver(input);

    let mut frame = FrameData::default();
    frame.set("frame_id", 1);
    rt.push_frame(input, frame);
    component.step(&mut rt, 0);

    let fed = rt.pop_frame(destination.get_feeder().channel).expect("frame fed");
    assert_eq!(fed.get("pool_key"), 77);
    assert_eq!(fed.get("frame_id"), 1);
}

#[test]
fn key_checker_and_adder_and_ticker() {
    let mut rt = PipelineRuntime::new();
    let input = rt.add_channel();
    let sink = rt.add_channel();
    let mut component = Component::new()
        .add(Processor::Ticker(Ticker::new(16)))
        .add(Processor::TimestampAdder(TimestampAdder::new("capture_timestamp")))
        .add(Processor::KeyChecker(KeyChecker::new("capture_timestamp")))
        .add(Processor::KeyChecker(KeyChecker::new("encoded_size")));
    component.set_receiver(input);
    component.set_sender(sink);

    rt.push_frame(input, FrameData::default());
    component.step(&mut rt, 4242);
    let out = rt.pop_frame(sink).unwrap();
    assert_eq!(out.get("capture_timestamp"), 4242);
    // The first checked key was present; the missing one failed the frame.
    assert_eq!(out.get_drop_reason(), Some(DropReason::InvalidPacket));
}

#[test]
fn bound_pipeline_moves_frames_between_stages() {
    let mut rt = PipelineRuntime::new();
    let first = Component::new();
    let second = Component::new();
    let pipeline = AscodePipeline::new().link(first).link(second).feedable(&mut rt).bind(&mut rt);

    let mut frame = FrameData::default();
    frame.set("frame_id", 9);
    pipeline.get_feeder().feed(&mut rt, frame);
    pipeline.run_round(&mut rt, 0);
    pipeline.run_round(&mut rt, 0);
}

#[test]
fn failed_frames_take_no_buffers() {
    let mut rt = PipelineRuntime::new();
    let pool = rt.add_pool(BufferPool::new("raw_frame_buffer", 2, 8));
    let input = rt.add_channel();
    let sink = rt.add_channel();
    let mut stage = Component::new().add(Processor::BufferBorrower(BufferBorrower::new(pool)));
    stage.set_receiver(input);
    stage.set_sender(sink);

    let mut failed = FrameData::default();
    failed.set_drop_reason(Some(DropReason::Timeout));
    rt.push_frame(input, failed);
    stage.step(&mut rt, 0);

    // The failed frame passed through untouched and borrowed nothing.
    let out = rt.pop_frame(sink).unwrap();
    assert_eq!(out.get_drop_reason(), Some(DropReason::Timeout));
    assert!(!out.has_writable_buffer("raw_frame_buffer"));
    assert_eq!(rt.pool_available(pool), 2);
}
