use zcode_cleaner::clock::{
    activity_ms, age_ms, cutoff_ms, file_mtime_ms, is_protected, latest, now_ms, stamp_is_readable,
    to_ms, Elapsed, DAY_MS, PROTECT_MS,
};

#[test]
fn readings_become_milliseconds() {
    assert_eq!(now_ms(Some(Elapsed { secs: 1, nanos: 5_999_999 })), 1_005);
    assert_eq!(now_ms(None), 0);
    let far = Elapsed { secs: u64::MAX, nanos: 999_999_999 };
    assert_eq!(now_ms(Some(far)), u64::MAX as u128 * 1000 + 999);
    assert_eq!(file_mtime_ms(Some(Elapsed { secs: 2, nanos: 0 })), 2_000);
    assert_eq!(file_mtime_ms(None), 0);
    let d = std::time::Duration::new(1_700_000_000, 123_456_789);
    let r = Elapsed { secs: d.as_secs(), nanos: d.subsec_nanos() };
    assert_eq!(now_ms(Some(r)), d.as_millis());
}

#[test]
fn timestamps_count_seconds_or_milliseconds() {
    assert_eq!(to_ms(None), 0);
    assert_eq!(to_ms(Some(0)), 0);
    assert_eq!(to_ms(Some(1_700_000_000)), 1_700_000_000_000);
    assert_eq!(to_ms(Some(1_700_000_000_000)), 1_700_000_000_000);
    assert_eq!(to_ms(Some(9_999_999_999)), 9_999_999_999_000);
    assert_eq!(to_ms(Some(10_000_000_000)), 10_000_000_000);
    assert!(stamp_is_readable(None));
    assert!(stamp_is_readable(Some(0)));
    assert!(!stamp_is_readable(Some(-1)));
}

#[test]
fn small_second_counts_are_ambiguous() {
    assert_eq!(to_ms(Some(9_999_999)), 9_999_999_000);
    assert_eq!(to_ms(Some(9_999_999_000)), 9_999_999_000_000);
    assert_eq!(to_ms(Some(10_000_000)), to_ms(Some(10_000_000_000)));
}

#[test]
fn negative_timestamps_count_as_ahead() {
    assert_eq!(activity_ms(Some(-1)), u128::MAX);
    assert_eq!(activity_ms(Some(i64::MIN)), i64::MIN as u128);
    assert_eq!(activity_ms(Some(5)), 5_000);
    assert_eq!(activity_ms(Some(10_000_000_000)), 10_000_000_000);
    assert_eq!(activity_ms(None), 0);
}

#[test]
fn protection_lasts_a_day() {
    let t: u128 = 1_000_000_000;
    assert!(is_protected(t, t));
    assert!(is_protected(t + PROTECT_MS - 1, t));
    assert!(!is_protected(t + PROTECT_MS, t));
    assert!(is_protected(t, t + 1));
    assert!(is_protected(0, u128::MAX));
}

#[test]
fn ages_and_cutoffs() {
    assert_eq!(age_ms(10, 4), 6);
    assert_eq!(age_ms(4, 10), 0);
    assert_eq!(latest(3, 4), 4);
    assert_eq!(latest(4, 3), 4);
    assert_eq!(cutoff_ms(10 * DAY_MS, 7), 3 * DAY_MS);
    assert_eq!(cutoff_ms(DAY_MS, 7), 0);
    assert_eq!(cutoff_ms(u128::MAX, u32::MAX), u128::MAX - u32::MAX as u128 * DAY_MS);
}
