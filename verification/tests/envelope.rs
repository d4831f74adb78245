//! The frame envelope: stats, buffers and drop reasons.

use remotia::error::DropReason;
use remotia::frame_data::{missing_key_msg, FrameData};

#[test]
fn set_then_get_round_trip() {
    let mut frame = FrameData::default();
    frame.set("capture_timestamp", 42);
    assert!(frame.has("capture_timestamp"));
    assert_eq!(frame.get("capture_timestamp"), 42);

    // Another key leaves the first binding alone.
    frame.set("encoded_size", 9000);
    assert_eq!(frame.get("capture_timestamp"), 42);
    assert_eq!(frame.get("encoded_size"), 9000);

    // Setting the same key again replaces the value.
    frame.set("capture_timestamp", 43);
    assert_eq!(frame.get("capture_timestamp"), 43);
}

#[test]
fn local_stats_are_separate() {
    let mut frame = FrameData::default();
    frame.set("t", 1);
    frame.set_local("t", 2);
    assert_eq!(frame.get("t"), 1);
    assert_eq!(frame.get_local("t"), 2);
    assert!(frame.has("t") && frame.has_local("t"));
    assert!(!frame.has("u") && !frame.has_local("u"));
}

#[test]
fn writable_buffers_move_in_and_out() {
    let mut frame = FrameData::default();
    frame.insert_writable_buffer("raw_frame_buffer", vec![1, 2, 3]);
    assert!(frame.has_writable_buffer("raw_frame_buffer"));
    assert_eq!(frame.get_writable_buffer_ref("raw_frame_buffer"), &vec![1, 2, 3]);
    let buffer = frame.extract_writable_buffer("raw_frame_buffer");
    assert_eq!(buffer, vec![1, 2, 3]);
    assert!(!frame.has_writable_buffer("raw_frame_buffer"));
}

#[test]
fn readonly_buffers_move_in_and_out() {
    let mut frame = FrameData::default();
    frame.insert_readonly_buffer("encoded_frame_buffer", vec![9, 9]);
    assert!(frame.has_readonly_buffer("encoded_frame_buffer"));
    assert_eq!(frame.get_readonly_buffer_ref("encoded_frame_buffer"), &vec![9, 9]);
    let buffer = frame.extract_readonly_buffer("encoded_frame_buffer");
    assert_eq!(buffer, vec![9, 9]);
    assert!(!frame.has_readonly_buffer("encoded_frame_buffer"));
}

#[test]
fn drop_reason_round_trip() {
    let mut frame = FrameData::default();
    assert!(frame.get_drop_reason().is_none());
    frame.set_drop_reason(Some(DropReason::StaleFrame));
    assert_eq!(frame.get_drop_reason(), Some(DropReason::StaleFrame));
}

#[test]
fn clone_without_buffers_keeps_stats_only() {
    let mut frame = FrameData::default();
    frame.set("frame_id", 12);
    frame.set_local("idle", 3);
    frame.insert_writable_buffer("raw_frame_buffer", vec![1]);
    frame.set_drop_reason(Some(DropReason::Timeout));

    let copy = frame.clone_without_buffers();
    assert_eq!(copy.get("frame_id"), 12);
    assert_eq!(copy.get_local("idle"), 3);
    assert!(!copy.has_writable_buffer("raw_frame_buffer"));
    assert_eq!(copy.get_drop_reason(), Some(DropReason::Timeout));
}

#[test]
fn missing_key_message_names_the_key() {
    assert_eq!(missing_key_msg("raw_frame_buffer"), "Missing key 'raw_frame_buffer'");
}
