//! Conversion of whole packed rasters to YUV planes with 4:2:0 chroma
//! subsampling: full-size luma, and chroma accumulated as quarters over
//! groups of four consecutive pixels, so chroma planes must start zeroed.

use vstd::prelude::*;

use crate::bgr2yuv::pixel::{bgr_to_yuv as pixel_bgr_to_yuv, yuv_u, yuv_v, yuv_y};
use crate::bufops::{write_at, zero_vec};

verus! {

/// One channel of the `i`-th pixel of a packed raster with `stride` bytes
/// per pixel.
pub open spec fn px(raster: Seq<u8>, stride: int, i: int, channel: int) -> u8 {
    raster[stride * i + channel]
}

/// Luma of the `i`-th pixel of a packed raster.
pub open spec fn pixel_y(raster: Seq<u8>, stride: int, i: int) -> u8 {
    yuv_y(px(raster, stride, i, 0), px(raster, stride, i, 1), px(raster, stride, i, 2))
}

/// Blue-difference chroma of the `i`-th pixel of a packed raster.
pub open spec fn pixel_u(raster: Seq<u8>, stride: int, i: int) -> u8 {
    yuv_u(px(raster, stride, i, 0), px(raster, stride, i, 1), px(raster, stride, i, 2))
}

/// Red-difference chroma of the `i`-th pixel of a packed raster.
pub open spec fn pixel_v(raster: Seq<u8>, stride: int, i: int) -> u8 {
    yuv_v(px(raster, stride, i, 0), px(raster, stride, i, 1), px(raster, stride, i, 2))
}

/// Sum of quarter blue-difference chroma over the first `cnt` pixels of
/// group `j` (pixels `4 j` to `4 j + cnt - 1`).
pub open spec fn quarter_sum_u(raster: Seq<u8>, stride: int, j: int, cnt: int) -> int
    decreases cnt,
{
    if cnt <= 0 {
        0
    } else {
        quarter_sum_u(raster, stride, j, cnt - 1) + pixel_u(raster, stride, 4 * j + cnt - 1) / 4
    }
}

/// Sum of quarter red-difference chroma over the first `cnt` pixels of
/// group `j`.
pub open spec fn quarter_sum_v(raster: Seq<u8>, stride: int, j: int, cnt: int) -> int
    decreases cnt,
{
    if cnt <= 0 {
        0
    } else {
        quarter_sum_v(raster, stride, j, cnt - 1) + pixel_v(raster, stride, 4 * j + cnt - 1) / 4
    }
}

/// How many of group `j`'s four pixels the first `i` pixels cover.
pub open spec fn group_count(j: int, i: int) -> int {
    if i >= 4 * j + 4 {
        4
    } else if i > 4 * j {
        i - 4 * j
    } else {
        0
    }
}

/// Quarter-chroma sums stay within a byte: each term is at most 63.
proof fn lemma_quarter_sum_bounds(raster: Seq<u8>, stride: int, j: int, cnt: int)
    requires
        0 <= cnt <= 4,
    ensures
        0 <= quarter_sum_u(raster, stride, j, cnt) <= 63 * cnt,
        0 <= quarter_sum_v(raster, stride, j, cnt) <= 63 * cnt,
    decreases cnt,
{
    if cnt > 0 {
        lemma_quarter_sum_bounds(raster, stride, j, cnt - 1);
    }
}

/// Converts a packed BGR raster into separate Y, U and V planes: full-size
/// luma, quarter-size chroma accumulated over groups of four consecutive
/// pixels. The chroma planes must start zeroed.
pub fn bgr_to_yuv_separate(
    bgr_pixels: &Vec<u8>,
    y_pixels: &mut Vec<u8>,
    u_pixels: &mut Vec<u8>,
    v_pixels: &mut Vec<u8>,
)
    requires
        bgr_pixels@.len() % 3 == 0,
        (bgr_pixels@.len() / 3) % 4 == 0,
        old(y_pixels)@.len() >= bgr_pixels@.len() / 3,
        old(u_pixels)@.len() >= bgr_pixels@.len() / 12,
        old(v_pixels)@.len() >= bgr_pixels@.len() / 12,
        forall|j: int| 0 <= j < bgr_pixels@.len() / 12 ==> old(u_pixels)@[j] == 0u8,
        forall|j: int| 0 <= j < bgr_pixels@.len() / 12 ==> old(v_pixels)@[j] == 0u8,
    ensures
        final(y_pixels)@.len() == old(y_pixels)@.len(),
        final(u_pixels)@.len() == old(u_pixels)@.len(),
        final(v_pixels)@.len() == old(v_pixels)@.len(),
        forall|i: int|
            0 <= i < bgr_pixels@.len() / 3 ==> final(y_pixels)@[i] == pixel_y(bgr_pixels@, 3, i),
        forall|i: int|
            bgr_pixels@.len() / 3 <= i < old(y_pixels)@.len() ==> final(y_pixels)@[i] == old(y_pixels)@[i],
        forall|j: int|
            0 <= j < bgr_pixels@.len() / 12 ==> final(u_pixels)@[j] as int == quarter_sum_u(
                bgr_pixels@,
                3,
                j,
                4,
            ),
        forall|j: int|
            bgr_pixels@.len() / 12 <= j < old(u_pixels)@.len() ==> final(u_pixels)@[j] == old(u_pixels)@[j],
        forall|j: int|
            0 <= j < bgr_pixels@.len() / 12 ==> final(v_pixels)@[j] as int == quarter_sum_v(
                bgr_pixels@,
                3,
                j,
                4,
            ),
        forall|j: int|
            bgr_pixels@.len() / 12 <= j < old(v_pixels)@.len() ==> final(v_pixels)@[j] == old(v_pixels)@[j],
{
    convert_separate(bgr_pixels, 3, y_pixels, u_pixels, v_pixels);
}

/// Converts a packed BGRA raster into separate Y, U and V planes; the alpha
/// channel is ignored. The chroma planes must start zeroed.
pub fn bgra_to_yuv_separate(
    bgra_pixels: &Vec<u8>,
    y_pixels: &mut Vec<u8>,
    u_pixels: &mut Vec<u8>,
    v_pixels: &mut Vec<u8>,
)
    requires
        bgra_pixels@.len() % 4 == 0,
        (bgra_pixels@.len() / 4) % 4 == 0,
        old(y_pixels)@.len() >= bgra_pixels@.len() / 4,
        old(u_pixels)@.len() >= bgra_pixels@.len() / 16,
        old(v_pixels)@.len() >= bgra_pixels@.len() / 16,
        forall|j: int| 0 <= j < bgra_pixels@.len() / 16 ==> old(u_pixels)@[j] == 0u8,
        forall|j: int| 0 <= j < bgra_pixels@.len() / 16 ==> old(v_pixels)@[j] == 0u8,
    ensures
        final(y_pixels)@.len() == old(y_pixels)@.len(),
        final(u_pixels)@.len() == old(u_pixels)@.len(),
        final(v_pixels)@.len() == old(v_pixels)@.len(),
        forall|i: int|
            0 <= i < bgra_pixels@.len() / 4 ==> final(y_pixels)@[i] == pixel_y(bgra_pixels@, 4, i),
        forall|i: int|
            bgra_pixels@.len() / 4 <= i < old(y_pixels)@.len() ==> final(y_pixels)@[i] == old(y_pixels)@[i],
        forall|j: int|
            0 <= j < bgra_pixels@.len() / 16 ==> final(u_pixels)@[j] as int == quarter_sum_u(
                bgra_pixels@,
                4,
                j,
                4,
            ),
        forall|j: int|
            bgra_pixels@.len() / 16 <= j < old(u_pixels)@.len() ==> final(u_pixels)@[j] == old(u_pixels)@[j],
        forall|j: int|
            0 <= j < bgra_pixels@.len() / 16 ==> final(v_pixels)@[j] as int == quarter_sum_v(
                bgra_pixels@,
                4,
                j,
                4,
            ),
        forall|j: int|
            bgra_pixels@.len() / 16 <= j < old(v_pixels)@.len() ==> final(v_pixels)@[j] == old(v_pixels)@[j],
{
    convert_separate(bgra_pixels, 4, y_pixels, u_pixels, v_pixels);
}

/// Shared conversion over a packed raster with `stride` bytes per pixel.
fn convert_separate(
    raster: &Vec<u8>,
    stride: usize,
    y_pixels: &mut Vec<u8>,
    u_pixels: &mut Vec<u8>,
    v_pixels: &mut Vec<u8>,
)
    requires
        3 <= stride <= 4,
        raster@.len() as int % stride as int == 0,
        (raster@.len() as int / stride as int) % 4 == 0,
        old(y_pixels)@.len() >= raster@.len() as int / stride as int,
        old(u_pixels)@.len() >= raster@.len() as int / (4 * stride as int),
        old(v_pixels)@.len() >= raster@.len() as int / (4 * stride as int),
        forall|j: int| 0 <= j < raster@.len() as int / (4 * stride as int) ==> old(u_pixels)@[j] == 0u8,
        forall|j: int| 0 <= j < raster@.len() as int / (4 * stride as int) ==> old(v_pixels)@[j] == 0u8,
    ensures
        final(y_pixels)@.len() == old(y_pixels)@.len(),
        final(u_pixels)@.len() == old(u_pixels)@.len(),
        final(v_pixels)@.len() == old(v_pixels)@.len(),
        forall|i: int|
            0 <= i < raster@.len() as int / stride as int ==> final(y_pixels)@[i] == pixel_y(
                raster@,
                stride as int,
                i,
            ),
        forall|i: int|
            raster@.len() as int / stride as int <= i < old(y_pixels)@.len() ==> final(y_pixels)@[i]
                == old(y_pixels)@[i],
        forall|j: int|
            0 <= j < raster@.len() as int / (4 * stride as int) ==> final(u_pixels)@[j] as int
                == quarter_sum_u(raster@, stride as int, j, 4),
        forall|j: int|
            raster@.len() as int / (4 * stride as int) <= j < old(u_pixels)@.len() ==> final(u_pixels)@[j] == old(u_pixels)@[j],
        forall|j: int|
            0 <= j < raster@.len() as int / (4 * stride as int) ==> final(v_pixels)@[j] as int
                == quarter_sum_v(raster@, stride as int, j, 4),
        forall|j: int|
            raster@.len() as int / (4 * stride as int) <= j < old(v_pixels)@.len() ==> final(v_pixels)@[j] == old(v_pixels)@[j],
{
    let len = raster.len();
    let pixels_count = len / stride;
    let groups = pixels_count / 4;
    proof {
        assert(groups == raster@.len() as int / (4 * stride as int)) by (nonlinear_arith)
            requires
                3 <= stride <= 4,
                len == raster@.len(),
                pixels_count == len as int / stride as int,
                groups == pixels_count as int / 4,
                raster@.len() as int % stride as int == 0,
                (raster@.len() as int / stride as int) % 4 == 0,
        ;
        assert(pixels_count as int * stride as int == len) by (nonlinear_arith)
            requires
                stride > 0,
                pixels_count == len as int / stride as int,
                len as int % stride as int == 0,
        ;
        assert(groups as int * 4 == pixels_count) by (nonlinear_arith)
            requires
                groups == pixels_count as int / 4,
                pixels_count as int % 4 == 0,
        ;
    }
    let mut i: usize = 0;
    while i < pixels_count
        invariant
            i <= pixels_count,
            3 <= stride <= 4,
            len == raster@.len(),
            pixels_count as int * stride as int == len,
            groups as int * 4 == pixels_count,
            groups == raster@.len() as int / (4 * stride as int),
            pixels_count == raster@.len() as int / stride as int,
            y_pixels@.len() == old(y_pixels)@.len() >= pixels_count,
            u_pixels@.len() == old(u_pixels)@.len() >= groups,
            v_pixels@.len() == old(v_pixels)@.len() >= groups,
            forall|k: int| 0 <= k < i ==> y_pixels@[k] == pixel_y(raster@, stride as int, k),
            forall|k: int|
                i <= k < y_pixels@.len() ==> y_pixels@[k] == old(y_pixels)@[k],
            forall|j: int|
                0 <= j < groups ==> u_pixels@[j] as int == quarter_sum_u(
                    raster@,
                    stride as int,
                    j,
                    group_count(j, i as int),
                ),
            forall|j: int|
                groups <= j < u_pixels@.len() ==> u_pixels@[j] == old(u_pixels)@[j],
            forall|j: int|
                0 <= j < groups ==> v_pixels@[j] as int == quarter_sum_v(
                    raster@,
                    stride as int,
                    j,
                    group_count(j, i as int),
                ),
            forall|j: int|
                groups <= j < v_pixels@.len() ==> v_pixels@[j] == old(v_pixels)@[j],
        decreases pixels_count - i,
    {
        proof {
            assert(i as int * stride as int + stride as int <= len) by (nonlinear_arith)
                requires
                    i as int + 1 <= pixels_count,
                    stride > 0,
                    pixels_count as int * stride as int == len,
            ;
        }
        let base = i * stride;
        let (y, u, v) = pixel_bgr_to_yuv(raster[base], raster[base + 1], raster[base + 2]);
        let group = i / 4;
        proof {
            assert(group < groups) by (nonlinear_arith)
                requires
                    group == i as int / 4,
                    i < pixels_count,
                    groups as int * 4 == pixels_count,
            ;
            assert(4 * (group as int) <= i < 4 * (group as int) + 4);
            assert(group_count(group as int, i as int) == i - 4 * (group as int));
            lemma_quarter_sum_bounds(raster@, stride as int, group as int, i - 4 * (group as int));
            lemma_quarter_sum_bounds(
                raster@,
                stride as int,
                group as int,
                i + 1 - 4 * (group as int),
            );
            assert(stride as int * i as int == i as int * stride as int) by (nonlinear_arith);
            assert(px(raster@, stride as int, i as int, 0) == raster@[base as int]);
            assert(px(raster@, stride as int, i as int, 1) == raster@[base as int + 1]);
            assert(px(raster@, stride as int, i as int, 2) == raster@[base as int + 2]);
            assert(pixel_u(raster@, stride as int, i as int) == u);
            assert(pixel_v(raster@, stride as int, i as int) == v);
        }
        y_pixels.set(i, y);
        let u_cur = u_pixels[group];
        u_pixels.set(group, u_cur + u / 4);
        let v_cur = v_pixels[group];
        v_pixels.set(group, v_cur + v / 4);
        proof {
            assert forall|j: int|
                0 <= j < groups implies u_pixels@[j] as int == quarter_sum_u(
                raster@,
                stride as int,
                j,
                group_count(j, i + 1),
            ) by {
                if j == group as int {
                    assert(group_count(j, i + 1) == i + 1 - 4 * j);
                } else {
                    assert(group_count(j, i + 1) == group_count(j, i as int));
                }
            }
            assert forall|j: int|
                0 <= j < groups implies v_pixels@[j] as int == quarter_sum_v(
                raster@,
                stride as int,
                j,
                group_count(j, i + 1),
            ) by {
                if j == group as int {
                    assert(group_count(j, i + 1) == i + 1 - 4 * j);
                } else {
                    assert(group_count(j, i + 1) == group_count(j, i as int));
                }
            }
        }
        i = i + 1;
    }
    proof {
        assert forall|j: int| 0 <= j < groups implies group_count(j, pixels_count as int) == 4 by {
            assert(4 * j + 4 <= 4 * groups as int) by (nonlinear_arith)
                requires
                    j + 1 <= groups,
            ;
        }
    }
}


/// Converts a packed BGR raster into one interleaved YUV buffer: luma at
/// the start, then the quarter-size blue-difference plane, then the
/// quarter-size red-difference plane. The three regions are overwritten;
/// the rest of the buffer is untouched.
pub fn bgr_to_yuv(bgr_pixels: &Vec<u8>, yuv_pixels: &mut Vec<u8>)
    requires
        bgr_pixels@.len() % 3 == 0,
        (bgr_pixels@.len() / 3) % 4 == 0,
        old(yuv_pixels)@.len() >= bgr_pixels@.len() / 3 + bgr_pixels@.len() / 6,
    ensures
        final(yuv_pixels)@.len() == old(yuv_pixels)@.len(),
        forall|i: int|
            0 <= i < bgr_pixels@.len() / 3 ==> final(yuv_pixels)@[i] == pixel_y(bgr_pixels@, 3, i),
        forall|j: int|
            0 <= j < bgr_pixels@.len() / 12 ==> final(yuv_pixels)@[bgr_pixels@.len() / 3 + j] as int
                == quarter_sum_u(bgr_pixels@, 3, j, 4),
        forall|j: int|
            0 <= j < bgr_pixels@.len() / 12 ==> final(yuv_pixels)@[bgr_pixels@.len() / 3
                + bgr_pixels@.len() / 12 + j] as int == quarter_sum_v(bgr_pixels@, 3, j, 4),
        forall|k: int|
            bgr_pixels@.len() / 3 + bgr_pixels@.len() / 6 <= k < old(yuv_pixels)@.len()
                ==> final(yuv_pixels)@[k] == old(yuv_pixels)@[k],
{
    let len = bgr_pixels.len();
    let pixels_count = len / 3;
    let groups = pixels_count / 4;
    proof {
        assert(groups == len as int / 12 && pixels_count as int / 4 == groups && 2 * groups
            == len as int / 6) by (nonlinear_arith)
            requires
                pixels_count == len as int / 3,
                groups == pixels_count as int / 4,
                len as int % 3 == 0,
                pixels_count as int % 4 == 0,
        ;
    }
    let mut y_plane = zero_vec(pixels_count);
    let mut u_plane = zero_vec(groups);
    let mut v_plane = zero_vec(groups);
    convert_separate(bgr_pixels, 3, &mut y_plane, &mut u_plane, &mut v_plane);
    write_at(yuv_pixels, 0, &y_plane);
    write_at(yuv_pixels, pixels_count, &u_plane);
    write_at(yuv_pixels, pixels_count + groups, &v_plane);
}

} // verus!
