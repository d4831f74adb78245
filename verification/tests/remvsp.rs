//! End-to-end exercises of the RemVSP wire format, fragmentation and
//! reassembly.

use remotia::receive::ReceivedFrame;
use remotia::remvsp::receive::RemVSPReceptionState;
use remotia::remvsp::send::{fragment_frame, RemVSPTransmissionState};
use remotia::remvsp::wire::{parse_fragment, serialize_fragment, RemVSPFrameFragment, RemVSPFrameHeader};

fn payload(len: usize) -> Vec<u8> {
    let mut data = Vec::new();
    let mut i: usize = 0;
    while i < len {
        data.push((i % 251) as u8);
        i += 1;
    }
    data
}

fn deliver(
    state: &mut RemVSPReceptionState,
    fragment: RemVSPFrameFragment,
    now: u128,
    buffer: &mut Vec<u8>,
) -> Option<ReceivedFrame> {
    let datagram = serialize_fragment(&fragment);
    let parsed = parse_fragment(&datagram).expect("well-formed datagram");
    state.handle_fragment(parsed, now, buffer)
}

#[test]
fn wire_round_trip() {
    let fragment = RemVSPFrameFragment {
        frame_header: RemVSPFrameHeader {
            frame_id: 7,
            frame_fragments_count: 3,
            fragment_size: 1200,
            capture_timestamp: 123456789,
        },
        fragment_id: 2,
        data: payload(900),
    };
    let bytes = serialize_fragment(&fragment);
    assert_eq!(bytes.len(), 38 + 900);
    let parsed = parse_fragment(&bytes).expect("round trip");
    assert_eq!(parsed.frame_header.frame_id, 7);
    assert_eq!(parsed.frame_header.frame_fragments_count, 3);
    assert_eq!(parsed.frame_header.fragment_size, 1200);
    assert_eq!(parsed.frame_header.capture_timestamp, 123456789);
    assert_eq!(parsed.fragment_id, 2);
    assert_eq!(parsed.data, payload(900));
}

#[test]
fn malformed_datagrams_are_refused() {
    assert!(parse_fragment(&vec![0u8; 10]).is_none());
    let fragment = RemVSPFrameFragment {
        frame_header: RemVSPFrameHeader {
            frame_id: 1,
            frame_fragments_count: 1,
            fragment_size: 16,
            capture_timestamp: 0,
        },
        fragment_id: 0,
        data: payload(16),
    };
    let mut bytes = serialize_fragment(&fragment);
    bytes.push(0);
    assert!(parse_fragment(&bytes).is_none());
}

#[test]
fn single_fragment_frame() {
    let frame = payload(900);
    let fragments = fragment_frame(&frame, 1200, 1, 5000);
    assert_eq!(fragments.len(), 1);
    assert_eq!(fragments[0].frame_header.frame_fragments_count, 1);
    assert_eq!(fragments[0].fragment_id, 0);

    let mut state = RemVSPReceptionState::default();
    let mut buffer = vec![0u8; 1200];
    let mut received = None;
    for fragment in fragments {
        received = deliver(&mut state, fragment, 5003, &mut buffer);
    }
    let received = received.expect("frame reconstructed");
    assert_eq!(received.buffer_size, 900);
    assert_eq!(received.capture_timestamp, 5000);
    assert_eq!(state.last_reconstructed_frame(), 1);
    assert_eq!(&buffer[..900], &payload(900)[..]);
}

#[test]
fn multi_fragment_reassembly_out_of_order() {
    let frame = payload(3600);
    let mut fragments = fragment_frame(&frame, 1200, 1, 7000);
    assert_eq!(fragments.len(), 3);

    let mut state = RemVSPReceptionState::default();
    let mut buffer = vec![0u8; 3600];
    let last = fragments.remove(2);
    let first = fragments.remove(0);
    let middle = fragments.remove(0);

    assert!(deliver(&mut state, last, 7001, &mut buffer).is_none());
    assert!(deliver(&mut state, first, 7002, &mut buffer).is_none());
    let received = deliver(&mut state, middle, 7005, &mut buffer).expect("complete after third");
    assert_eq!(received.buffer_size, 3600);
    assert_eq!(received.reception_delay, 4);
    assert_eq!(state.last_reconstructed_frame(), 1);
    assert_eq!(&buffer[..], &frame[..]);

    // A duplicate arriving after completion is stale and does not reset
    // anything.
    let again = fragment_frame(&frame, 1200, 1, 7000).remove(0);
    assert!(deliver(&mut state, again, 7010, &mut buffer).is_none());
    assert_eq!(state.last_reconstructed_frame(), 1);
    assert_eq!(&buffer[..], &frame[..]);
}

#[test]
fn stale_frame_rejection() {
    let mut state = RemVSPReceptionState::default();
    let mut buffer = vec![0u8; 4096];

    // Bring the watermark to 5.
    for fragment in fragment_frame(&payload(100), 100, 5, 100) {
        deliver(&mut state, fragment, 101, &mut buffer);
    }
    assert_eq!(state.last_reconstructed_frame(), 5);

    // Every fragment of frame 4 is discarded: no output, no watermark move.
    let mut produced = false;
    for fragment in fragment_frame(&payload(300), 100, 4, 90) {
        if deliver(&mut state, fragment, 102, &mut buffer).is_some() {
            produced = true;
        }
    }
    assert!(!produced);
    assert_eq!(state.last_reconstructed_frame(), 5);
    assert!(state.is_frame_stale(4));
    assert!(state.is_frame_stale(5));
    assert!(!state.is_frame_stale(6));
}

#[test]
fn watermark_only_advances() {
    let mut state = RemVSPReceptionState::default();
    let mut buffer = vec![0u8; 4096];
    let mut watermarks = Vec::new();
    for id in [3u64, 1, 7, 2, 9] {
        for fragment in fragment_frame(&payload(64), 64, id, 0) {
            deliver(&mut state, fragment, 1, &mut buffer);
        }
        watermarks.push(state.last_reconstructed_frame());
    }
    assert_eq!(watermarks, vec![3, 3, 7, 7, 9]);
}

#[test]
fn frame_ids_count_up_from_one() {
    let mut state = RemVSPTransmissionState::new();
    assert_eq!(state.next_frame_id(), 1);
    assert_eq!(state.next_frame_id(), 2);
    assert_eq!(state.next_frame_id(), 3);
}

#[test]
fn last_fragment_may_be_shorter() {
    let frame = payload(2500);
    let fragments = fragment_frame(&frame, 1200, 1, 0);
    assert_eq!(fragments.len(), 3);
    assert_eq!(fragments[0].data.len(), 1200);
    assert_eq!(fragments[1].data.len(), 1200);
    assert_eq!(fragments[2].data.len(), 100);

    let mut state = RemVSPReceptionState::default();
    let mut buffer = vec![0u8; 3600];
    let mut received = None;
    for fragment in fragments {
        received = deliver(&mut state, fragment, 3, &mut buffer);
    }
    assert_eq!(received.expect("complete").buffer_size, 2500);
    assert_eq!(&buffer[..2500], &frame[..]);
}

#[test]
fn polling_receiver_default_interval() {
    let config = remotia::receive::RemVSPViaSRTFrameReceiverConfiguration::default();
    assert_eq!(config.frame_pull_interval, 10);
}

#[test]
fn hundred_frames_arrive_in_order_and_intact() {
    let mut sender_state = RemVSPTransmissionState::new();
    let mut state = RemVSPReceptionState::default();
    let mut buffer = vec![0u8; 8192];
    let mut delivered_ids = Vec::new();

    for n in 0..100u64 {
        let mut frame = payload(4096);
        frame[0] = n as u8;
        let frame_id = sender_state.next_frame_id();
        let mut received = None;
        for fragment in fragment_frame(&frame, 1200, frame_id, 1000 + n as u128) {
            received = deliver(&mut state, fragment, 1001 + n as u128, &mut buffer);
        }
        let received = received.expect("every frame completes");
        assert_eq!(received.buffer_size, 4096);
        assert_eq!(received.capture_timestamp, 1000 + n as u128);
        assert_eq!(buffer[0], n as u8);
        assert_eq!(&buffer[1..4096], &frame[1..4096]);
        delivered_ids.push(state.last_reconstructed_frame());
    }
    let expected: Vec<u64> = (1..=100).collect();
    assert_eq!(delivered_ids, expected);
}
