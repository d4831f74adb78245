//! Conversion of one pixel from BGR to YUV.
//!
//! All arithmetic is integer, scaled by `100000`, with the `128` chroma
//! offset folded into the numerator.

use vstd::prelude::*;

verus! {

/// Luma of one pixel: `0.299 r + 0.587 g + 0.114 b`, scaled and truncated.
pub open spec fn yuv_y(b: u8, g: u8, r: u8) -> u8 {
    ((29900 * (r as int) + 58700 * (g as int) + 11400 * (b as int)) / 100000) as u8
}

/// Blue-difference chroma of one pixel:
/// `-0.16874 r - 0.33126 g + 0.5 b + 128`, scaled and truncated.
pub open spec fn yuv_u(b: u8, g: u8, r: u8) -> u8 {
    ((12800000 + 50000 * (b as int) - 16874 * (r as int) - 33126 * (g as int)) / 100000) as u8
}

/// Red-difference chroma of one pixel:
/// `0.5 r - 0.41869 g - 0.08131 b + 128`, scaled and truncated.
pub open spec fn yuv_v(b: u8, g: u8, r: u8) -> u8 {
    ((12800000 + 50000 * (r as int) - 41869 * (g as int) - 8131 * (b as int)) / 100000) as u8
}

/// Converts one BGR pixel to YUV.
pub fn bgr_to_yuv(_b: u8, _g: u8, _r: u8) -> (yuv: (u8, u8, u8))
    ensures
        yuv.0 == yuv_y(_b, _g, _r),
        yuv.1 == yuv_u(_b, _g, _r),
        yuv.2 == yuv_v(_b, _g, _r),
{
    let b = _b as u32;
    let g = _g as u32;
    let r = _r as u32;
    let y = ((29900 * r + 58700 * g + 11400 * b) / 100000) as u8;
    let u = ((12800000 + 50000 * b - 16874 * r - 33126 * g) / 100000) as u8;
    let v = ((12800000 + 50000 * r - 41869 * g - 8131 * b) / 100000) as u8;
    (y, u, v)
}

} // verus!
