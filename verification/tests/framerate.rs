use raytracer::framerate::{FramerateRegulator, NANOS_PER_SECOND};

#[test]
fn a_second_has_a_billion_nanoseconds() {
    assert_eq!(NANOS_PER_SECOND, 1_000_000_000);
}

#[test]
fn frame_is_not_over_before_its_time() {
    // thirty frames in a second: 33_333_333 nanoseconds each
    let mut regulator = FramerateRegulator::new(30, 1_000);
    assert_eq!(regulator.delay(1_000, 1_000), None);
    assert_eq!(regulator.delay(1_000, 33_334_332), None);
}

#[test]
fn frame_is_over_at_its_time() {
    let mut regulator = FramerateRegulator::new(30, 1_000);
    assert_eq!(regulator.delay(20_000_000, 33_334_333), Some(13_334_333));
}

#[test]
fn next_frame_starts_where_the_wait_ended() {
    let mut regulator = FramerateRegulator::new(30, 0);
    assert_eq!(regulator.delay(10, 40_000_000), Some(39_999_990));
    assert_eq!(regulator.delay(40_000_000, 73_333_332), None);
    assert_eq!(regulator.delay(40_000_000, 73_333_333), Some(33_333_333));
}

#[test]
fn late_frame_waits_no_time() {
    let mut regulator = FramerateRegulator::new(60, 0);
    assert_eq!(regulator.delay(50_000_000, 50_000_000), Some(0));
}

#[test]
fn clock_that_reads_less_counts_as_no_time() {
    let mut regulator = FramerateRegulator::new(1, 5_000_000_000);
    assert_eq!(regulator.delay(5_000_000_000, 4_000_000_000), None);
    assert_eq!(regulator.delay(7_000_000_000, 6_000_000_000), Some(0));
}

#[test]
fn very_high_rates_have_frames_of_no_length() {
    let mut regulator = FramerateRegulator::new(u32::MAX, 7);
    assert_eq!(regulator.delay(7, 7), Some(0));
}
