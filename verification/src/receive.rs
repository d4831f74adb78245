//! What a frame receiver hands the pipeline once a frame has been
//! reassembled, and the contract every transport-specific receiver meets.

use vstd::prelude::*;

use crate::error::ClientError;

verus! {

/// A reassembled encoded frame as handed to the decoding stages.
#[derive(Clone, Copy, Debug, PartialEq, Eq, Structural)]
pub struct ReceivedFrame {
    /// Number of payload bytes written into the output buffer.
    pub buffer_size: usize,
    /// The sender's capture timestamp, milliseconds since the epoch.
    pub capture_timestamp: u128,
    /// Milliseconds between the first fragment's arrival and reassembly.
    pub reception_delay: u128,
}

/// A transport adapter that fills a caller-owned buffer with the next
/// encoded frame. Implementations live at the I/O edge of the program.
pub trait FrameReceiver {
    fn receive_encoded_frame(&mut self, encoded_frame_buffer: &mut Vec<u8>) -> Result<
        ReceivedFrame,
        ClientError,
    >;
}

/// Tuning of the polling receiver that pulls reassembled frames out of a
/// background reception task.
pub struct RemVSPViaSRTFrameReceiverConfiguration {
    /// How long to pause, in milliseconds, after a pull that found no
    /// complete frame.
    pub frame_pull_interval: u64,
}

impl Default for RemVSPViaSRTFrameReceiverConfiguration {
    /// Ten milliseconds between empty pulls.
    fn default() -> (r: Self)
        ensures
            r.frame_pull_interval == 10,
    {
        RemVSPViaSRTFrameReceiverConfiguration { frame_pull_interval: 10 }
    }
}

} // verus!
