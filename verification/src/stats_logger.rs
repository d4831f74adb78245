//! Console logger that averages chosen frame stats over timed rounds.
//!
//! The logger keeps buffer-free copies of the frames it saw; once a round's
//! duration has elapsed it prints, for each configured key, the average of
//! that stat over the round's frames, and starts a new round.

use std::io::Write;
use vstd::prelude::*;

use crate::frame_data::FrameData;
use crate::pipeline::frame_stat_or_zero;
use crate::profiling::sat_add;

verus! {

/// The stat a frame carries under a key, zero when absent.
pub fn get_frame_stat(frame: &FrameData, key: &str) -> (r: u128)
    ensures
        r == frame_stat_or_zero(frame@, key@),
{
    if frame.has(key) {
        frame.get(key)
    } else {
        0
    }
}

/// The saturating sum of one stat over a run of frames.
pub open spec fn stat_sum(frames: Seq<crate::frame_data::FrameDataView>, key: Seq<char>) -> u128
    decreases frames.len(),
{
    if frames.len() == 0 {
        0
    } else {
        sat_add(stat_sum(frames.drop_last(), key), frame_stat_or_zero(frames.last(), key))
    }
}

/// Averages chosen stats over timed rounds and prints them. The rounds
/// already printed and forgotten are kept as a ghost history, so contracts
/// can say where a closed round's frames went.
pub struct ConsoleAverageStatsLogger {
    header: Option<String>,
    values_to_log: Vec<String>,
    round_duration_millis: u128,
    current_round_start: u128,
    logged_frames: Vec<FrameData>,
    log_errors: bool,
    closed_rounds: Ghost<Seq<Seq<crate::frame_data::FrameDataView>>>,
}

impl ConsoleAverageStatsLogger {
    /// A logger with one-second rounds, logging successful frames only.
    pub fn new() -> (r: Self)
        ensures
            r@.header is None,
            r@.values_to_log.len() == 0,
            r@.round_duration_millis == 1000,
            r@.logged_frames.len() == 0,
            r@.closed_rounds.len() == 0,
            !r@.log_errors,
    {
        ConsoleAverageStatsLogger {
            header: None,
            values_to_log: Vec::new(),
            round_duration_millis: 1000,
            current_round_start: crate::time_util::now_millis(),
            logged_frames: Vec::new(),
            log_errors: false,
            closed_rounds: Ghost(Seq::empty()),
        }
    }

    /// Sets the line printed above each round's averages.
    pub fn header(self, header: &str) -> (r: Self)
        ensures
            r@ == (LoggerView { header: Some(header@), ..self@ }),
    {
        let mut logger = self;
        logger.header = Some(header.to_owned());
        logger
    }

    /// Adds a stat key whose round average is printed.
    pub fn log(self, value: &str) -> (r: Self)
        ensures
            r@ == (LoggerView { values_to_log: self@.values_to_log.push(value@), ..self@ }),
    {
        let mut logger = self;
        logger.values_to_log.push(value.to_owned());
        proof {
            assert(logger@.values_to_log =~= self@.values_to_log.push(value@));
        }
        logger
    }

    /// Records one frame — buffers left behind — unless it failed and
    /// failures are not logged. When the round's duration has elapsed, its
    /// averages are printed and a new round begins.
    pub fn log_frame_data(&mut self, frame_data: &FrameData)
        ensures
            final(self)@.header == old(self)@.header,
            final(self)@.values_to_log == old(self)@.values_to_log,
            final(self)@.round_duration_millis == old(self)@.round_duration_millis,
            final(self)@.log_errors == old(self)@.log_errors,
            if frame_data@.drop_reason is Some && !old(self)@.log_errors {
                final(self)@.logged_frames == old(self)@.logged_frames && final(self)@.closed_rounds
                    == old(self)@.closed_rounds
            } else {
                // a buffer-free copy of the frame joins the round; a clock-
                // driven rollover then closes that round — copy included —
                // into the history and opens an empty one
                exists|copy: crate::frame_data::FrameDataView|
                    #![trigger old(self)@.logged_frames.push(copy)]
                    copy.stats == frame_data@.stats && copy.local_stats == frame_data@.local_stats
                        && copy.drop_reason == frame_data@.drop_reason && copy.readonly_buffers
                        == Map::<Seq<char>, Seq<u8>>::empty() && copy.writable_buffers == Map::<
                        Seq<char>,
                        Seq<u8>,
                    >::empty() && ((final(self)@.logged_frames == old(self)@.logged_frames.push(
                        copy,
                    ) && final(self)@.closed_rounds == old(self)@.closed_rounds) || (
                    final(self)@.logged_frames.len() == 0 && final(self)@.closed_rounds
                        == old(self)@.closed_rounds.push(old(self)@.logged_frames.push(copy))))
            },
    {
        if !self.log_errors && frame_data.get_drop_reason().is_some() {
            return ;
        }
        let copied = frame_data.clone_without_buffers();
        let ghost copy_view = copied@;
        self.logged_frames.push(copied);
        proof {
            assert(self@.logged_frames == old(self)@.logged_frames.push(copy_view));
        }
        let now = crate::time_util::now_millis();
        let elapsed: u128 = if now >= self.current_round_start {
            now - self.current_round_start
        } else {
            0
        };
        if elapsed > self.round_duration_millis {
            self.print_round_stats();
            self.reset_round();
        }
    }

    /// Prints the round's frame count and, for each configured key, the
    /// average of that stat over the round's frames.
    pub fn print_round_stats(&self)
    {
        match &self.header {
            Some(h) => print_header(h),
            None => {},
        }
        let frames = self.logged_frames.len();
        print_logged_count(frames);
        if frames == 0 {
            return ;
        }
        let mut k: usize = 0;
        while k < self.values_to_log.len()
            invariant
                k <= self.values_to_log@.len(),
                frames > 0,
            decreases self.values_to_log@.len() - k,
        {
            let total = self.sum_stat(k);
            print_average(&self.values_to_log[k], total / (frames as u128));
            k = k + 1;
        }
    }

    /// The saturating sum of the `k`-th configured stat over the round.
    fn sum_stat(&self, k: usize) -> (r: u128)
        requires
            k < self@.values_to_log.len(),
        ensures
            r == stat_sum(self@.logged_frames, self@.values_to_log[k as int]),
    {
        let key = &self.values_to_log[k];
        let ghost views = self@.logged_frames;
        let n = self.logged_frames.len();
        let mut acc: u128 = 0;
        let mut i: usize = 0;
        while i < n
            invariant
                i <= n,
                k < self@.values_to_log.len(),
                key@ == self@.values_to_log[k as int],
                n == self@.logged_frames.len(),
                views == self@.logged_frames,
                acc == stat_sum(views.take(i as int), key@),
            decreases n - i,
        {
            let value = get_frame_stat(&self.logged_frames[i], key.as_str());
            proof {
                assert(views.take(i + 1).drop_last() =~= views.take(i as int));
                assert(views.take(i + 1).last() == views[i as int]);
            }
            acc = crate::profiling::sat_add_checked(acc, value);
            i = i + 1;
        }
        proof {
            assert(views.take(n as int) =~= views);
        }
        acc
    }

    /// Forgets the round's frames and starts a new round at the current
    /// wall clock.
    pub fn reset_round(&mut self)
        ensures
            final(self)@.logged_frames.len() == 0,
            final(self)@.closed_rounds == old(self)@.closed_rounds.push(
                old(self)@.logged_frames,
            ),
            final(self)@.header == old(self)@.header,
            final(self)@.values_to_log == old(self)@.values_to_log,
            final(self)@.round_duration_millis == old(self)@.round_duration_millis,
            final(self)@.log_errors == old(self)@.log_errors,
    {
        proof {
            self.closed_rounds@ = self.closed_rounds@.push(self@.logged_frames);
        }
        self.logged_frames = Vec::new();
        self.current_round_start = crate::time_util::now_millis();
    }
}

/// Mathematical model of the logger's configuration, its open round, and
/// the rounds already printed and forgotten.
pub struct LoggerView {
    pub header: Option<Seq<char>>,
    pub values_to_log: Seq<Seq<char>>,
    pub round_duration_millis: u128,
    pub current_round_start: u128,
    pub logged_frames: Seq<crate::frame_data::FrameDataView>,
    pub log_errors: bool,
    pub closed_rounds: Seq<Seq<crate::frame_data::FrameDataView>>,
}

impl View for ConsoleAverageStatsLogger {
    type V = LoggerView;

    closed spec fn view(&self) -> LoggerView {
        LoggerView {
            header: match self.header {
                Some(ref h) => Some(h@),
                None => None,
            },
            values_to_log: Seq::new(self.values_to_log@.len(), |i: int| self.values_to_log@[i]@),
            round_duration_millis: self.round_duration_millis,
            current_round_start: self.current_round_start,
            logged_frames: Seq::new(self.logged_frames@.len(), |i: int| self.logged_frames@[i]@),
            log_errors: self.log_errors,
            closed_rounds: self.closed_rounds@,
        }
    }
}

/// Relies on std::io::stdout and writeln: prints a round's header line.
#[verifier::external_body]
fn print_header(header: &String) {
    let _ = writeln!(std::io::stdout(), "{}", header);
}

/// Relies on std::io::stdout and writeln: prints how many frames a round
/// logged.
#[verifier::external_body]
fn print_logged_count(frames: usize) {
    let _ = writeln!(std::io::stdout(), "logged frames: {}", frames);
}

/// Relies on std::io::stdout and writeln: prints one stat's round average.
#[verifier::external_body]
fn print_average(key: &String, average: u128) {
    let _ = writeln!(std::io::stdout(), "average {}: {}", key, average);
}

} // verus!
