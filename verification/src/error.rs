//! Reasons for abandoning a frame mid-pipeline, and the error taxonomies of
//! the sending and receiving sides.

use vstd::prelude::*;

verus! {

/// Cause for abandoning a frame while it travels through a pipeline.
/// Once a processor records a drop reason on a frame, later processors may
/// only skip work or surface the reason; none clears it.
#[derive(Clone, Copy, Debug, PartialEq, Eq, Structural)]
pub enum DropReason {
    InvalidWholeFrameHeader,
    InvalidPacketHeader,
    InvalidPacket,
    EmptyFrame,
    NoCompleteFrames,
    NoDecodedFrames,
    StaleFrame,
    ConnectionError,
    CodecError,
    FFMpegSendPacketError,
    Timeout,
    NoEncodedFrames,
    NoAvailableEncoders,
    NoAvailableBuffers,
}

/// Failures reported by the sending side's collaborators.
#[derive(Clone, Copy, Debug, PartialEq, Eq, Structural)]
pub enum ServerError {
    Timeout,
    NoEncodedFrames,
    NoAvailableEncoders,
}

/// Failures reported by the receiving side's collaborators.
#[derive(Clone, Copy, Debug, PartialEq, Eq, Structural)]
pub enum ClientError {
    InvalidWholeFrameHeader,
    InvalidPacketHeader,
    InvalidPacket,
    EmptyFrame,
    NoCompleteFrames,
    NoDecodedFrames,
    StaleFrame,
    ConnectionError,
    Timeout,
}

} // verus!
