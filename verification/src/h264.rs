//! Recognition of key frames in an H.264 elementary stream.

use vstd::prelude::*;

verus! {

/// The NAL unit type occupying the low five bits of a NAL header byte.
pub const NALU_TYPE_BITMASK: u8 = 0x1f;

/// NAL unit type of a single-time aggregation packet.
pub const NALU_TTYPE_STAP_A: u8 = 24;

/// NAL unit type of a sequence parameter set.
pub const NALU_TTYPE_SPS: u8 = 7;

/// Whether a payload opens a key frame: it starts a sequence parameter
/// set, directly or as the first unit of a single-time aggregation packet.
pub open spec fn is_key_frame_spec(data: Seq<u8>) -> bool {
    &&& data.len() >= 4
    &&& {
        let nalu_type = data[0] & NALU_TYPE_BITMASK;
        ||| nalu_type == NALU_TTYPE_SPS
        ||| (nalu_type == NALU_TTYPE_STAP_A && data[3] & NALU_TYPE_BITMASK == NALU_TTYPE_SPS)
    }
}

/// Whether an H.264 payload opens a key frame.
pub fn is_key_frame(data: &Vec<u8>) -> (r: bool)
    ensures
        r == is_key_frame_spec(data@),
{
    if data.len() < 4 {
        false
    } else {
        let nalu_type = data[0] & NALU_TYPE_BITMASK;
        (nalu_type == NALU_TTYPE_STAP_A && data[3] & NALU_TYPE_BITMASK == NALU_TTYPE_SPS)
            || nalu_type == NALU_TTYPE_SPS
    }
}

} // verus!
