//! Colour conversion, codecs and key-frame detection on concrete values.

use remotia::bgr2yuv::{pixel, raster};
use remotia::codecs::{
    BGRAVFrameBuilder, IdentityDecoder, IdentityEncoder, YUV420Encoder, YUV420PAVFrameBuilder,
};
use remotia::h264::is_key_frame;

#[test]
fn pixel_conversion_exact_values() {
    // Pure red: y = 29900*255/100000, u = (12800000-16874*255)/100000,
    // v = (12800000+50000*255)/100000.
    assert_eq!(pixel::bgr_to_yuv(0, 0, 255), (76, 84, 255));
    // White: luma saturates, chroma sits at the 128 midpoint.
    assert_eq!(pixel::bgr_to_yuv(255, 255, 255), (255, 128, 128));
    // Black.
    assert_eq!(pixel::bgr_to_yuv(0, 0, 0), (0, 128, 128));
    // Pure blue: y = 11400*255/100000, u = (12800000+50000*255)/100000,
    // v = (12800000-8131*255)/100000.
    assert_eq!(pixel::bgr_to_yuv(255, 0, 0), (29, 255, 107));
}

#[test]
fn raster_conversion_separate_planes() {
    // Four white BGR pixels: one chroma sample accumulating 4 * (128 / 4).
    let bgr = vec![255u8; 12];
    let mut y = vec![0u8; 4];
    let mut u = vec![0u8; 1];
    let mut v = vec![0u8; 1];
    raster::bgr_to_yuv_separate(&bgr, &mut y, &mut u, &mut v);
    assert_eq!(y, vec![255, 255, 255, 255]);
    assert_eq!(u, vec![128]);
    assert_eq!(v, vec![128]);
}

#[test]
fn raster_conversion_bgra_ignores_alpha() {
    let mut bgra = Vec::new();
    for _ in 0..4 {
        bgra.extend_from_slice(&[0, 0, 255, 7]);
    }
    let mut y = vec![0u8; 4];
    let mut u = vec![0u8; 1];
    let mut v = vec![0u8; 1];
    raster::bgra_to_yuv_separate(&bgra, &mut y, &mut u, &mut v);
    assert_eq!(y, vec![76, 76, 76, 76]);
    assert_eq!(u, vec![84]);
    // 255 quarters to 63 with truncation: 4 * 63 = 252.
    assert_eq!(v, vec![252]);
}

#[test]
fn raster_conversion_interleaved_layout() {
    let bgr = vec![255u8; 12];
    let mut yuv = vec![9u8; 8];
    raster::bgr_to_yuv(&bgr, &mut yuv);
    assert_eq!(yuv, vec![255, 255, 255, 255, 128, 128, 9, 9]);
}

#[test]
fn identity_codecs_round_trip() {
    let encoder = IdentityEncoder::new();
    let input = vec![5u8, 6, 7];
    let mut encoded = vec![0u8; 3];
    assert_eq!(encoder.encode(&input, &mut encoded), Ok(3));
    assert_eq!(encoded, input);

    let mut decoder = IdentityDecoder::new(1, 1);
    decoder.decode(&encoded);
    assert_eq!(decoder.get_decoded_frame(), &vec![5u8, 6, 7]);
}

#[test]
fn yuv420_encoder_fills_its_buffer() {
    // A 2x2 white frame: 12 BGR bytes in, 6 planar bytes out.
    let mut encoder = YUV420Encoder::new(2, 2);
    let frame = vec![255u8; 12];
    let written = encoder.encode(&frame);
    assert_eq!(written, 6);
    assert_eq!(encoder.get_encoded_frame(), &vec![255, 255, 255, 255, 128, 128]);
}

#[test]
fn frame_builders_stamp_consecutive_timestamps() {
    let mut yuv = YUV420PAVFrameBuilder::new();
    assert_eq!(yuv.next_pts(), 0);
    assert_eq!(yuv.next_pts(), 1);
    let mut bgra = BGRAVFrameBuilder::new();
    assert_eq!(bgra.next_pts(), 0);
    assert_eq!(bgra.next_pts(), 1);
}

#[test]
fn key_frames_are_recognized() {
    // 0x67 & 0x1f == 7: a sequence parameter set.
    assert!(is_key_frame(&vec![0x67, 0x42, 0x00, 0x1e]));
    // A single-time aggregation packet whose first unit is an SPS.
    assert!(is_key_frame(&vec![0x18, 0x00, 0x10, 0x67]));
    // A non-key slice.
    assert!(!is_key_frame(&vec![0x41, 0x9a, 0x00, 0x00]));
    // Too short to say.
    assert!(!is_key_frame(&vec![0x67, 0x42]));
}
