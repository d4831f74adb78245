//! Feedback messages flowing from the receiving side back to the sender.

use vstd::prelude::*;

verus! {

/// A congestion signal from the receiver: the end-to-end delay it measured,
/// in milliseconds.
#[derive(Clone, Copy, Debug, PartialEq, Eq, Structural)]
pub enum ServerFeedbackMessage {
    HighFrameDelay(u128),
}

} // verus!
