use rust_npkill::time_helpers::{get_current_time, get_duration_human_time, millis_since_epoch};

#[test]
fn millis_are_seconds_times_thousand_plus_whole_millis() {
    assert_eq!(millis_since_epoch(0, 0), Some(0));
    assert_eq!(millis_since_epoch(1, 0), Some(1_000));
    assert_eq!(millis_since_epoch(12, 345_678_901), Some(12_345));
    assert_eq!(millis_since_epoch(0, 999_999), Some(0));
    assert_eq!(millis_since_epoch(0, 1_000_000), Some(1));
    assert_eq!(millis_since_epoch(1_700_000_000, 999_999_999), Some(1_700_000_000_999));
}

#[test]
fn millis_that_do_not_fit_are_none() {
    let most = u64::MAX / 1000;
    assert_eq!(millis_since_epoch(most, 0), Some(most * 1000));
    assert_eq!(millis_since_epoch(most, 615_000_000), Some(u64::MAX));
    assert_eq!(millis_since_epoch(most, 616_000_000), None);
    assert_eq!(millis_since_epoch(most + 1, 0), None);
    assert_eq!(millis_since_epoch(u64::MAX, 0), None);
}

#[test]
fn clock_reads_a_time_after_the_year_2020() {
    let now = get_current_time();
    assert!(now.is_some());
    assert!(now.unwrap() > 1_577_836_800_000);
}

#[test]
fn clock_does_not_stand_still_at_one_value() {
    let first = get_current_time().unwrap();
    let mut later = first;
    for _ in 0..10_000_000u32 {
        later = get_current_time().unwrap();
        if later != first {
            break;
        }
    }
    assert!(later != first);
}

#[test]
fn durations_are_printed_by_humantime() {
    assert_eq!(get_duration_human_time(5, 5), "0s");
    assert_eq!(get_duration_human_time(0, 32), "32ms");
    assert_eq!(get_duration_human_time(1_000, 2_500), "1s 500ms");
    assert_eq!(get_duration_human_time(0, 9_420_000), "2h 37m");
    assert_eq!(get_duration_human_time(10, 61_010), "1m 1s");
}
