//! Codec adapters whose transformations the pipeline can account for: the
//! identity codec pair used for loopback runs, the planar YUV encoder, and
//! the builders that stamp codec frames with a running frame count.
//!
//! The hardware-backed codecs live outside the library; these are the
//! members of the codec family whose behaviour is a function of their
//! inputs.

use vstd::prelude::*;

use crate::bgr2yuv::raster;
use crate::bufops::{write_at, zero_vec};
use crate::error::ServerError;
use crate::feedback::ServerFeedbackMessage;

verus! {

/// An encoder that emits its input unchanged.
pub struct IdentityEncoder {}

impl IdentityEncoder {
    pub fn new() -> (r: Self) {
        IdentityEncoder {  }
    }

    /// Copies the input into the front of the output buffer and reports the
    /// encoded length: the input's own.
    pub fn encode(&self, input_buffer: &Vec<u8>, output_buffer: &mut Vec<u8>) -> (r: Result<
        usize,
        ServerError,
    >)
        requires
            input_buffer@.len() <= old(output_buffer)@.len(),
        ensures
            r == Ok::<usize, ServerError>(input_buffer@.len() as usize),
            final(output_buffer)@.len() == old(output_buffer)@.len(),
            forall|i: int|
                0 <= i < input_buffer@.len() ==> final(output_buffer)@[i] == input_buffer@[i],
            forall|i: int|
                input_buffer@.len() <= i < old(output_buffer)@.len() ==> final(output_buffer)@[i]
                    == old(output_buffer)@[i],
    {
        write_at(output_buffer, 0, input_buffer);
        Ok(input_buffer.len())
    }

    /// Feedback does not change what the identity encoder emits.
    pub fn handle_feedback(&self, message: ServerFeedbackMessage) {
        let _ = message;
    }
}

/// A decoder that reproduces the encoded bytes unchanged.
pub struct IdentityDecoder {
    decoded_frame_buffer: Vec<u8>,
}

impl IdentityDecoder {
    /// A decoder for frames of `width × height` pixels, three bytes each.
    pub fn new(width: usize, height: usize) -> (r: Self)
        requires
            width * height * 3 <= usize::MAX,
        ensures
            r@.len() == width * height * 3,
            forall|i: int| 0 <= i < r@.len() ==> r@[i] == 0u8,
    {
        proof {
            assert(width * height * 3 >= 0) by (nonlinear_arith);
        }
        let frame_buffer_size = width * height * 3;
        IdentityDecoder { decoded_frame_buffer: zero_vec(frame_buffer_size) }
    }

    /// Copies the encoded bytes into the decoded frame buffer, which they
    /// must fill exactly.
    pub fn decode(&mut self, encoded_frame_buffer: &Vec<u8>)
        requires
            encoded_frame_buffer@.len() == old(self)@.len(),
        ensures
            final(self)@ == encoded_frame_buffer@,
    {
        let mut buffer = Vec::new();
        core::mem::swap(&mut buffer, &mut self.decoded_frame_buffer);
        write_at(&mut buffer, 0, encoded_frame_buffer);
        core::mem::swap(&mut buffer, &mut self.decoded_frame_buffer);
        proof {
            assert(self@ =~= encoded_frame_buffer@);
        }
    }

    /// The last decoded frame.
    pub fn get_decoded_frame(&self) -> (r: &Vec<u8>)
        ensures
            r@ == self@,
    {
        &self.decoded_frame_buffer
    }
}

impl View for IdentityDecoder {
    type V = Seq<u8>;

    closed spec fn view(&self) -> Seq<u8> {
        self.decoded_frame_buffer@
    }
}

/// Encodes packed BGR frames as planar YUV 4:2:0, half again smaller.
pub struct YUV420Encoder {
    encoded_frame_buffer: Vec<u8>,
}

impl YUV420Encoder {
    /// An encoder for frames of `width × height` pixels: the encoded frame
    /// holds one luma byte per pixel and two quarter-size chroma planes.
    pub fn new(width: usize, height: usize) -> (r: Self)
        requires
            width * height * 3 <= usize::MAX,
        ensures
            r@.len() == (width * height * 3) / 2,
    {
        proof {
            assert(width * height * 3 >= 0) by (nonlinear_arith);
        }
        let size = (width * height * 3) / 2;
        YUV420Encoder { encoded_frame_buffer: zero_vec(size) }
    }

    /// Converts a packed BGR frame into the internal planar YUV buffer and
    /// reports the encoded length. The frame must have whole pixels, a
    /// pixel count divisible by four, and fit the encoder's buffer.
    pub fn encode(&mut self, frame_buffer: &Vec<u8>) -> (r: usize)
        requires
            frame_buffer@.len() % 3 == 0,
            (frame_buffer@.len() / 3) % 4 == 0,
            frame_buffer@.len() / 3 + frame_buffer@.len() / 6 <= old(self)@.len(),
        ensures
            r == final(self)@.len() == old(self)@.len(),
            forall|i: int|
                0 <= i < frame_buffer@.len() / 3 ==> final(self)@[i] == raster::pixel_y(
                    frame_buffer@,
                    3,
                    i,
                ),
            forall|j: int|
                0 <= j < frame_buffer@.len() / 12 ==> final(self)@[frame_buffer@.len() / 3 + j] as int
                    == raster::quarter_sum_u(frame_buffer@, 3, j, 4),
            forall|j: int|
                0 <= j < frame_buffer@.len() / 12 ==> final(self)@[frame_buffer@.len() / 3
                    + frame_buffer@.len() / 12 + j] as int == raster::quarter_sum_v(
                    frame_buffer@,
                    3,
                    j,
                    4,
                ),
    {
        let mut buffer = Vec::new();
        core::mem::swap(&mut buffer, &mut self.encoded_frame_buffer);
        raster::bgr_to_yuv(frame_buffer, &mut buffer);
        let len = buffer.len();
        core::mem::swap(&mut buffer, &mut self.encoded_frame_buffer);
        len
    }

    /// The last encoded frame.
    pub fn get_encoded_frame(&self) -> (r: &Vec<u8>)
        ensures
            r@ == self@,
    {
        &self.encoded_frame_buffer
    }
}

impl View for YUV420Encoder {
    type V = Seq<u8>;

    closed spec fn view(&self) -> Seq<u8> {
        self.encoded_frame_buffer@
    }
}

/// Builds planar YUV codec frames, stamping each with a running count that
/// becomes its presentation timestamp.
pub struct YUV420PAVFrameBuilder {
    frame_count: i64,
}

impl YUV420PAVFrameBuilder {
    pub fn new() -> (r: Self)
        ensures
            r@ == 0i64,
    {
        YUV420PAVFrameBuilder { frame_count: 0 }
    }

    /// The presentation timestamp the next frame will carry, advancing the
    /// running count.
    pub fn next_pts(&mut self) -> (r: i64)
        requires
            old(self)@ < i64::MAX,
        ensures
            r == old(self)@,
            final(self)@ == old(self)@ + 1,
    {
        let pts = self.frame_count;
        self.frame_count = self.frame_count + 1;
        pts
    }
}

impl View for YUV420PAVFrameBuilder {
    type V = i64;

    closed spec fn view(&self) -> i64 {
        self.frame_count
    }
}

/// Builds packed BGRA codec frames, stamping each with a running count that
/// becomes its presentation timestamp.
pub struct BGRAVFrameBuilder {
    frame_count: i64,
}

impl BGRAVFrameBuilder {
    pub fn new() -> (r: Self)
        ensures
            r@ == 0i64,
    {
        BGRAVFrameBuilder { frame_count: 0 }
    }

    /// The presentation timestamp the next frame will carry, advancing the
    /// running count.
    pub fn next_pts(&mut self) -> (r: i64)
        requires
            old(self)@ < i64::MAX,
        ensures
            r == old(self)@,
            final(self)@ == old(self)@ + 1,
    {
        let pts = self.frame_count;
        self.frame_count = self.frame_count + 1;
        pts
    }
}

impl View for BGRAVFrameBuilder {
    type V = i64;

    closed spec fn view(&self) -> i64 {
        self.frame_count
    }
}

} // verus!
