//! The wall clock, as the pipeline sees it: milliseconds since the Unix
//! epoch.

use vstd::prelude::*;

verus! {

/// Relies on chrono's `Utc::now`: the current wall-clock time. Nothing can
/// be promised of a clock reading, so nothing is.
#[verifier::external_body]
fn chrono_now_millis() -> i64 {
    chrono::Utc::now().timestamp_millis()
}

/// Milliseconds since the Unix epoch, clamped to zero for clocks set before
/// it.
pub fn now_millis() -> (r: u128)
{
    let t = chrono_now_millis();
    clamp_millis(t)
}

/// A signed millisecond timestamp as the unsigned value the stats carry:
/// itself, or zero if it lies before the epoch.
pub fn clamp_millis(t: i64) -> (r: u128)
    ensures
        t >= 0 ==> r == t,
        t < 0 ==> r == 0,
{
    if t >= 0 {
        t as u128
    } else {
        0
    }
}

} // verus!
