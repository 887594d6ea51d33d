use video_scrubber::dispatch::worker_count;

#[test]
fn override_caps_the_worker_count() {
    assert_eq!(worker_count(8, Some(3)), 3);
}

#[test]
fn override_above_the_core_count_is_ignored() {
    assert_eq!(worker_count(4, Some(10)), 4);
}

#[test]
fn one_worker_per_core_by_default() {
    assert_eq!(worker_count(6, None), 6);
}
