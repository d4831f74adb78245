//! Per-frame transmission statistics and their per-round aggregation.

use std::io::Write;
use vstd::prelude::*;

verus! {

/// Millisecond timings and sizes measured for one transmitted frame.
#[derive(Clone, Copy, Debug, PartialEq, Eq, Structural)]
pub struct TransmittedFrameStats {
    pub capture_time: u128,
    pub encoding_time: u128,
    pub transfer_time: u128,
    pub total_time: u128,
    pub capturer_idle_time: u128,
    pub encoder_idle_time: u128,
    pub transferrer_idle_time: u128,
    pub capture_delay: u128,
    pub encoded_size: usize,
}

impl Default for TransmittedFrameStats {
    /// All timings and sizes zero.
    fn default() -> (r: Self)
        ensures
            r == (TransmittedFrameStats {
                capture_time: 0,
                encoding_time: 0,
                transfer_time: 0,
                total_time: 0,
                capturer_idle_time: 0,
                encoder_idle_time: 0,
                transferrer_idle_time: 0,
                capture_delay: 0,
                encoded_size: 0,
            }),
    {
        TransmittedFrameStats {
            capture_time: 0,
            encoding_time: 0,
            transfer_time: 0,
            total_time: 0,
            capturer_idle_time: 0,
            encoder_idle_time: 0,
            transferrer_idle_time: 0,
            capture_delay: 0,
            encoded_size: 0,
        }
    }
}

/// Addition on timings that tops out instead of wrapping.
pub open spec fn sat_add(a: u128, b: u128) -> u128 {
    if a + b > u128::MAX {
        u128::MAX
    } else {
        (a + b) as u128
    }
}

/// The saturating sum of a run of timings.
pub open spec fn sat_sum(values: Seq<u128>) -> u128
    decreases values.len(),
{
    if values.len() == 0 {
        0
    } else {
        sat_add(sat_sum(values.drop_last()), values.last())
    }
}

/// The total times of a run of frame stats, in order.
pub open spec fn total_times(frames: Seq<TransmittedFrameStats>) -> Seq<u128> {
    Seq::new(frames.len(), |i: int| frames[i].total_time)
}

/// Saturating addition.
pub fn sat_add_checked(a: u128, b: u128) -> (r: u128)
    ensures
        r == sat_add(a, b),
{
    if a <= u128::MAX - b {
        a + b
    } else {
        u128::MAX
    }
}

/// The timings of one transmission round: when it started and the stats of
/// every frame it carried.
pub struct TransmissionRoundStats {
    pub start_time: u128,
    pub profiled_frames: Vec<TransmittedFrameStats>,
}

impl Default for TransmissionRoundStats {
    /// A round starting at the current wall clock with no frames profiled.
    fn default() -> (r: Self)
        ensures
            r.profiled_frames@.len() == 0,
    {
        TransmissionRoundStats {
            start_time: crate::time_util::now_millis(),
            profiled_frames: Vec::new(),
        }
    }
}

impl TransmissionRoundStats {
    /// Starts a new round at the current wall clock, forgetting the frames
    /// profiled so far.
    pub fn reset(&mut self)
        ensures
            final(self).profiled_frames@.len() == 0,
    {
        self.start_time = crate::time_util::now_millis();
        self.profiled_frames = Vec::new();
    }

    /// Records one frame's stats into the round.
    pub fn profile_frame(&mut self, frame_stats: TransmittedFrameStats)
        ensures
            final(self).profiled_frames@ == old(self).profiled_frames@.push(frame_stats),
            final(self).start_time == old(self).start_time,
    {
        self.profiled_frames.push(frame_stats);
    }

    /// The saturating average of the round's total frame times, zero for an
    /// empty round.
    pub fn average_total_time(&self) -> (r: u128)
        ensures
            self.profiled_frames@.len() == 0 ==> r == 0,
            self.profiled_frames@.len() > 0 ==> r == sat_sum(total_times(self.profiled_frames@))
                / (self.profiled_frames@.len() as u128),
    {
        let n = self.profiled_frames.len();
        if n == 0 {
            return 0;
        }
        let mut acc: u128 = 0;
        let mut i: usize = 0;
        while i < n
            invariant
                i <= n,
                n == self.profiled_frames@.len(),
                acc == sat_sum(total_times(self.profiled_frames@).take(i as int)),
            decreases n - i,
        {
            proof {
                assert(total_times(self.profiled_frames@).take(i + 1).drop_last() =~= total_times(
                    self.profiled_frames@,
                ).take(i as int));
            }
            acc = sat_add_checked(acc, self.profiled_frames[i].total_time);
            i = i + 1;
        }
        proof {
            assert(total_times(self.profiled_frames@).take(n as int) =~= total_times(
                self.profiled_frames@,
            ));
        }
        acc / (n as u128)
    }

    /// Prints the round's summary: how many frames it profiled and their
    /// average total time.
    pub fn log(&mut self)
        ensures
            final(self).profiled_frames@ == old(self).profiled_frames@,
            final(self).start_time == old(self).start_time,
    {
        let average = self.average_total_time();
        print_round_report(self.profiled_frames.len(), average);
    }
}

/// Relies on std::io::stdout and writeln: prints one transmission-round
/// report line.
#[verifier::external_body]
fn print_round_report(frames: usize, average_total_time: u128) {
    let _ = writeln!(
        std::io::stdout(),
        "profiled frames: {} average total time: {} ms",
        frames,
        average_total_time,
    );
}

} // verus!
