//! Round statistics and the averaging console logger.

use remotia::error::DropReason;
use remotia::frame_data::FrameData;
use remotia::profiling::{TransmissionRoundStats, TransmittedFrameStats};
use remotia::stats_logger::{get_frame_stat, ConsoleAverageStatsLogger};

#[test]
fn round_stats_average_total_time() {
    let mut round = TransmissionRoundStats::default();
    assert_eq!(round.average_total_time(), 0);
    for total in [10u128, 20, 33] {
        let stats = TransmittedFrameStats { total_time: total, ..Default::default() };
        round.profile_frame(stats);
    }
    assert_eq!(round.average_total_time(), 21);
    round.log();
    round.reset();
    assert_eq!(round.average_total_time(), 0);
}

#[test]
fn frame_stat_defaults_to_zero() {
    let mut frame = FrameData::default();
    assert_eq!(get_frame_stat(&frame, "capture_time"), 0);
    frame.set("capture_time", 17);
    assert_eq!(get_frame_stat(&frame, "capture_time"), 17);
}

#[test]
fn logger_builders_and_logging() {
    let mut logger = ConsoleAverageStatsLogger::new()
        .header("-- round --")
        .log("capture_time")
        .log("total_time");

    let mut good = FrameData::default();
    good.set("capture_time", 4);
    good.set("total_time", 9);
    logger.log_frame_data(&good);

    // A failed frame is filtered out rather than averaged in.
    let mut failed = FrameData::default();
    failed.set_drop_reason(Some(DropReason::Timeout));
    logger.log_frame_data(&failed);

    logger.print_round_stats();
    logger.reset_round();
}
