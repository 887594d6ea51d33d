use video_scrubber::splice::{Action, PacketTimes, SpliceError, Splicer};
use video_scrubber::time::{TimeBase, TimeRange};

const TENTHS: TimeBase = TimeBase { num: 1, den: 10 };

fn packet(pts: i64, dts: i64, time_base: TimeBase) -> PacketTimes {
    PacketTimes { pts: Some(pts), dts: Some(dts), time_base }
}

fn tr(start: i64, end: i64) -> TimeRange {
    TimeRange { start, end }
}

/// Feeds packets until the splicer finishes; returns the written timestamps.
fn splice_all(ranges: Vec<TimeRange>, packets: &[PacketTimes]) -> Vec<(i64, i64)> {
    let mut splicer = Splicer::new(ranges).unwrap();
    let mut out = Vec::new();
    for p in packets {
        match splicer.step(p).unwrap() {
            Action::Write { pts, dts } => out.push((pts, dts)),
            Action::Skip => {}
            Action::Finish => break,
        }
    }
    out
}

#[test]
fn seam_is_one_packet_interval() {
    let packets: Vec<PacketTimes> = (0..100).map(|t| packet(t, t, TENTHS)).collect();
    let out = splice_all(vec![tr(0, 2_000_000), tr(5_000_000, 7_000_000)], &packets);
    assert_eq!(out.len(), 40);
    for w in out.windows(2) {
        assert!(w[1].0 > w[0].0);
        assert_eq!(w[1].0 - w[0].0, 1);
    }
    assert_eq!(out[19], (19, 19));
    assert_eq!(out[20], (20, 20));
    assert_eq!(out[39], (39, 39));
}

#[test]
fn single_full_range_keeps_timestamps() {
    let packets: Vec<PacketTimes> = (0..50).map(|t| packet(t + 2, t, TENTHS)).collect();
    let out = splice_all(vec![tr(0, 6_000_000)], &packets);
    let expected: Vec<(i64, i64)> = (0..50).map(|t| (t + 2, t)).collect();
    assert_eq!(out, expected);
}

#[test]
fn streams_share_one_offset() {
    let audio = TimeBase { num: 1, den: 1000 };
    let mut splicer = Splicer::new(vec![tr(0, 1_000_000), tr(3_000_000, 4_000_000)]).unwrap();
    assert_eq!(splicer.step(&packet(500, 500, audio)), Ok(Action::Write { pts: 500, dts: 500 }));
    // The first packet at the end of the range moves on, adding two seconds of its own ticks.
    assert_eq!(splicer.step(&packet(10, 10, TENTHS)), Ok(Action::Skip));
    assert_eq!(splicer.step(&packet(30, 30, TENTHS)), Ok(Action::Write { pts: 10, dts: 10 }));
    assert_eq!(splicer.step(&packet(3000, 3000, audio)), Ok(Action::Write { pts: 2980, dts: 2980 }));
    assert_eq!(splicer.step(&packet(40, 40, TENTHS)), Ok(Action::Finish));
    assert_eq!(splicer.step(&packet(41, 41, TENTHS)), Ok(Action::Finish));
}

#[test]
fn packet_kept_when_one_timestamp_reaches_the_start() {
    let mut splicer = Splicer::new(vec![tr(1_000_000, 2_000_000)]).unwrap();
    assert_eq!(splicer.step(&packet(9, 8, TENTHS)), Ok(Action::Skip));
    assert_eq!(splicer.step(&packet(11, 9, TENTHS)), Ok(Action::Write { pts: 11, dts: 9 }));
}

#[test]
fn no_ranges_finish_at_once() {
    let mut splicer = Splicer::new(vec![]).unwrap();
    assert_eq!(splicer.step(&packet(0, 0, TENTHS)), Ok(Action::Finish));
}

#[test]
fn unordered_ranges_are_refused() {
    assert!(matches!(Splicer::new(vec![tr(2, 1)]), Err(SpliceError::UnorderedRanges)));
    assert!(matches!(
        Splicer::new(vec![tr(0, 5), tr(4, 9)]),
        Err(SpliceError::UnorderedRanges)
    ));
    assert!(Splicer::new(vec![tr(0, 5), tr(5, 9)]).is_ok());
}

#[test]
fn missing_timestamps_are_errors() {
    let mut splicer = Splicer::new(vec![tr(0, 1_000_000)]).unwrap();
    let no_pts = PacketTimes { pts: None, dts: Some(0), time_base: TENTHS };
    let no_dts = PacketTimes { pts: Some(0), dts: None, time_base: TENTHS };
    assert_eq!(splicer.step(&no_pts), Err(SpliceError::MissingPts));
    assert_eq!(splicer.step(&no_dts), Err(SpliceError::MissingDts));
}

#[test]
fn invalid_time_base_is_an_error() {
    let mut splicer = Splicer::new(vec![tr(0, 1_000_000)]).unwrap();
    let bad = TimeBase { num: 1, den: 0 };
    assert_eq!(splicer.step(&packet(0, 0, bad)), Err(SpliceError::InvalidTimeBase));
}

#[test]
fn rebased_timestamp_out_of_range_is_an_error() {
    let seconds = TimeBase { num: 1, den: 1 };
    let mut splicer = Splicer::new(vec![tr(0, 1_000_000), tr(2_000_000, i64::MAX)]).unwrap();
    assert_eq!(splicer.step(&packet(1, 1, seconds)), Ok(Action::Skip));
    assert_eq!(
        splicer.step(&packet(3, i64::MIN, seconds)),
        Err(SpliceError::TimestampOutOfRange)
    );
    assert_eq!(splicer.step(&packet(3, 3, seconds)), Ok(Action::Write { pts: 2, dts: 2 }));
}

#[test]
fn offset_out_of_range_is_an_error() {
    let nanos = TimeBase { num: 1, den: 1_000_000_000 };
    let mut splicer = Splicer::new(vec![tr(0, 1), tr(i64::MAX - 1, i64::MAX)]).unwrap();
    assert_eq!(splicer.step(&packet(5_000, 5_000, nanos)), Err(SpliceError::TimestampOutOfRange));
}
