use video_scrubber::segments::{frames_to_segments, group_runs, invert_ranges, merge_ranges, MatchedFrameSet};
use video_scrubber::time::{frame_time, FrameRate, TimeRange, MICROS_PER_SECOND};

fn tr(start: i64, end: i64) -> TimeRange {
    TimeRange { start, end }
}

fn sorted_set(frames: &[usize]) -> video_scrubber::segments::SortedFrames {
    let mut set = MatchedFrameSet::new();
    for &f in frames {
        set.insert(f);
    }
    set.into_sorted()
}

const TEN_FPS: FrameRate = FrameRate { num: 10, den: 1 };

#[test]
fn runs_split_at_gaps() {
    let raw = group_runs(&vec![10, 11, 12, 50], TEN_FPS, 0);
    assert_eq!(raw, vec![tr(1_000_000, 1_200_000), tr(5_000_000, 5_000_000)]);
}

#[test]
fn runs_padded_on_both_sides() {
    let raw = group_runs(&vec![10, 11, 30], TEN_FPS, 250_000);
    assert_eq!(raw, vec![tr(750_000, 1_350_000), tr(2_750_000, 3_250_000)]);
}

#[test]
fn runs_of_no_frames_are_empty() {
    assert_eq!(group_runs(&vec![], TEN_FPS, 0), vec![]);
}

#[test]
fn overlapping_ranges_merge() {
    let merged = merge_ranges(&vec![tr(1_000_000, 3_000_000), tr(2_500_000, 4_000_000)]);
    assert_eq!(merged, vec![tr(1_000_000, 4_000_000)]);
}

#[test]
fn touching_ranges_merge_and_contained_ones_vanish() {
    let merged = merge_ranges(&vec![
        tr(0, 2_000_000),
        tr(2_000_000, 3_000_000),
        tr(2_100_000, 2_200_000),
        tr(3_000_001, 4_000_000),
    ]);
    assert_eq!(merged, vec![tr(0, 3_000_000), tr(3_000_001, 4_000_000)]);
}

#[test]
fn inversion_end_to_end() {
    let frames: Vec<usize> = (10..=20).collect();
    let padding = MICROS_PER_SECOND / 2;
    let raw = group_runs(&frames, TEN_FPS, padding);
    let merged = merge_ranges(&raw);
    assert_eq!(merged, vec![tr(500_000, 2_500_000)]);
    let keep = frames_to_segments(&sorted_set(&frames), TEN_FPS, padding, 5_000_000).unwrap();
    assert_eq!(keep, vec![tr(0, 500_000), tr(2_500_000, 5_000_000)]);
}

#[test]
fn inversion_skips_empty_gaps() {
    let keep = invert_ranges(&vec![tr(-500_000, 1_000_000), tr(2_000_000, 5_000_000)], 5_000_000);
    assert_eq!(keep, vec![tr(1_000_000, 2_000_000)]);
}

#[test]
fn no_matched_frames_keep_everything() {
    let keep = frames_to_segments(&sorted_set(&[]), TEN_FPS, 1_000_000, 7_000_000).unwrap();
    assert_eq!(keep, vec![tr(0, 7_000_000)]);
}

#[test]
fn nothing_kept_of_an_empty_video() {
    let keep = frames_to_segments(&sorted_set(&[]), TEN_FPS, 0, 0).unwrap();
    assert_eq!(keep, vec![]);
}

#[test]
fn aggregation_sorts_before_derivation() {
    let mut set = MatchedFrameSet::new();
    for f in [50, 12, 10, 11] {
        set.insert(f);
    }
    assert_eq!(set.len(), 4);
    let sorted = set.into_sorted();
    assert_eq!(sorted.as_vec(), &vec![10, 11, 12, 50]);
    let keep = frames_to_segments(&sorted, TEN_FPS, 0, 6_000_000).unwrap();
    assert_eq!(keep, vec![tr(0, 1_000_000), tr(1_200_000, 5_000_000), tr(5_000_000, 6_000_000)]);
}

#[test]
fn report_order_does_not_change_ranges() {
    let a = frames_to_segments(&sorted_set(&[3, 40, 41, 7, 8]), TEN_FPS, 100_000, 9_000_000);
    let b = frames_to_segments(&sorted_set(&[41, 8, 3, 40, 7]), TEN_FPS, 100_000, 9_000_000);
    assert_eq!(a, b);
    assert_eq!(
        a.unwrap(),
        vec![tr(0, 200_000), tr(400_000, 600_000), tr(900_000, 3_900_000), tr(4_200_000, 9_000_000)]
    );
}

#[test]
fn frame_times_that_do_not_fit_are_refused() {
    let rate = FrameRate { num: 1, den: 1 };
    assert_eq!(frames_to_segments(&sorted_set(&[1, usize::MAX]), rate, 0, 10), None);
    assert_eq!(frame_time(usize::MAX, rate), None);
}

#[test]
fn frame_time_rounds_down() {
    let ntsc = FrameRate { num: 30000, den: 1001 };
    assert_eq!(frame_time(1, ntsc), Some(33_366));
    assert_eq!(frame_time(30, ntsc), Some(1_001_000));
    assert_eq!(frame_time(0, ntsc), Some(0));
    assert_eq!(frame_time(12, TEN_FPS), Some(1_200_000));
}
