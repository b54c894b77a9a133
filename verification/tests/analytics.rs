use polymarket_hft::analytics::{
    day_of_week, epoch_close_ms, epoch_count_to_u64, micros_of_duration, millis_of_duration, hour_utc, now_ms, now_us, utc_timestamp_from_ms,
};
use polymarket_hft::calendar::civil_from_days;

#[test]
fn timestamps_are_iso_utc() {
    assert_eq!(utc_timestamp_from_ms(0), "1970-01-01T00:00:00Z");
    assert_eq!(utc_timestamp_from_ms(999), "1970-01-01T00:00:00Z");
    assert_eq!(utc_timestamp_from_ms(951_782_400_000), "2000-02-29T00:00:00Z");
    assert_eq!(utc_timestamp_from_ms(1_709_168_523_999), "2024-02-29T01:02:03Z");
    assert_eq!(utc_timestamp_from_ms(1_725_029_869_123), "2024-08-30T14:57:49Z");
    assert_eq!(utc_timestamp_from_ms(253_402_300_799_999), "9999-12-31T23:59:59Z");
    assert_eq!(utc_timestamp_from_ms(253_402_300_800_000), "10000-01-01T00:00:00Z");
    assert_eq!(utc_timestamp_from_ms(u64::MAX), "584556019-04-03T14:25:51Z");
}

#[test]
fn civil_dates() {
    assert_eq!(civil_from_days(0), (1970, 1, 1));
    assert_eq!(civil_from_days(59), (1970, 3, 1));
    assert_eq!(civil_from_days(365), (1971, 1, 1));
    assert_eq!(civil_from_days(11016), (2000, 2, 29));
    assert_eq!(civil_from_days(11017), (2000, 3, 1));
}

#[test]
fn hour_and_weekday() {
    assert_eq!(hour_utc(1_725_029_869_123), 14);
    assert_eq!(day_of_week(1_725_029_869_123), 5);
    assert_eq!(day_of_week(0), 4);
    assert_eq!(hour_utc(3_599_999), 0);
    assert_eq!(hour_utc(3_600_000), 1);
    let ts = 1_709_168_523_999;
    assert_eq!(format!("{:02}", hour_utc(ts)), &utc_timestamp_from_ms(ts)[11..13]);
    assert_eq!(day_of_week(ts + 86_400_000), (day_of_week(ts) + 1) % 7);
}

#[test]
fn epoch_close_is_next_boundary() {
    assert_eq!(epoch_close_ms(1_000, 300_000), 300_000);
    assert_eq!(epoch_close_ms(300_000, 300_000), 600_000);
    assert_eq!(epoch_close_ms(0, 900_000), 900_000);
}

#[test]
fn clock_reads_after_2020() {
    assert!(now_ms() > 1_577_836_800_000);
    assert!(now_us() > 1_577_836_800_000_000);
}

#[test]
fn clock_counts_truncate_to_64_bits() {
    assert_eq!(epoch_count_to_u64(None), 0);
    assert_eq!(epoch_count_to_u64(Some(1_725_029_869_123)), 1_725_029_869_123);
    assert_eq!(epoch_count_to_u64(Some((1u128 << 64) + 7)), 7);
    assert_eq!(epoch_count_to_u64(Some(u64::MAX as u128)), u64::MAX);
}

#[test]
fn distinct_seconds_have_distinct_texts() {
    assert_ne!(utc_timestamp_from_ms(1_000), utc_timestamp_from_ms(2_000));
    assert_ne!(utc_timestamp_from_ms(86_399_000), utc_timestamp_from_ms(86_400_000));
}

#[test]
fn durations_to_whole_units() {
    assert_eq!(millis_of_duration(1_725_029_869, 123_999_999), 1_725_029_869_123);
    assert_eq!(micros_of_duration(1_725_029_869, 123_456_999), 1_725_029_869_123_456);
    assert_eq!(millis_of_duration(0, 999_999), 0);
    let d = std::time::Duration::new(u64::MAX, 999_999_999);
    assert_eq!(millis_of_duration(d.as_secs(), d.subsec_nanos()), d.as_millis());
    assert_eq!(micros_of_duration(d.as_secs(), d.subsec_nanos()), d.as_micros());
}

#[test]
fn civil_dates_far_ahead() {
    assert_eq!(civil_from_days(u64::MAX - 719_468).0 > 1_000_000_000_000_000, true);
}

#[test]
fn timestamp_texts_sort_in_time_order() {
    let times = [0u64, 999, 1_000, 59_999, 3_600_000, 86_399_999, 951_782_400_000,
        1_709_168_523_999, 1_725_029_869_123, 253_402_300_799_999];
    for w in times.windows(2) {
        assert!(utc_timestamp_from_ms(w[0]) <= utc_timestamp_from_ms(w[1]));
    }
}
