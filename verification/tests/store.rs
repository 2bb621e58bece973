use std::collections::BTreeMap;

use chrono::{Datelike, NaiveDate};
use speedy::calendar::{DAY_MAX, DAY_MIN, FOUR_DIGIT_DAY_MAX, FOUR_DIGIT_DAY_MIN};
use speedy::stats::Stats;
use speedy::store::{
    count_rows, default_database_path, legacy_counts, legacy_json_path, recorder_control_lock_path,
    recorder_lock_path, recorder_log_path, recorder_status_from_row, recorder_status_values,
    stats_from_dated_rows, stats_from_legacy, stats_from_rows, StatsRowError, StatusError,
};

const JULY_23_2026: i32 = 739_820;

#[test]
fn day_numbers_match_chrono() {
    let date = NaiveDate::from_ymd_opt(2026, 7, 23).unwrap();
    assert_eq!(date.num_days_from_ce(), JULY_23_2026);
    assert_eq!(NaiveDate::MIN.num_days_from_ce(), DAY_MIN);
    assert_eq!(NaiveDate::MAX.num_days_from_ce(), DAY_MAX);
    let first = NaiveDate::from_ymd_opt(0, 1, 1).unwrap();
    let last = NaiveDate::from_ymd_opt(9999, 12, 31).unwrap();
    assert_eq!(first.num_days_from_ce(), FOUR_DIGIT_DAY_MIN);
    assert_eq!(last.num_days_from_ce(), FOUR_DIGIT_DAY_MAX);
    assert_eq!(first.format("%Y-%m-%d").to_string(), "0000-01-01");
}

#[test]
fn paths_prefer_xdg_data_home() {
    let xdg = b"/data".as_slice();
    let home = b"/home/me".as_slice();
    assert_eq!(
        default_database_path(Some(xdg), Some(home)).unwrap(),
        b"/data/keypulse/keypulse.db".to_vec()
    );
    assert_eq!(
        default_database_path(None, Some(home)).unwrap(),
        b"/home/me/.local/share/keypulse/keypulse.db".to_vec()
    );
    assert_eq!(
        legacy_json_path(Some(&b"/data/"[..]), None).unwrap(),
        b"/data/keypulse/stats.json".to_vec()
    );
    assert_eq!(
        recorder_lock_path(Some(&b""[..]), None).unwrap(),
        b"keypulse/recorder.lock".to_vec()
    );
    assert_eq!(
        recorder_control_lock_path(None, Some(home)).unwrap(),
        b"/home/me/.local/share/keypulse/recorder-control.lock".to_vec()
    );
    assert_eq!(
        recorder_log_path(None, Some(home)).unwrap(),
        b"/home/me/.local/share/keypulse/recorder.log".to_vec()
    );
    assert!(default_database_path(None, None).is_err());
}

#[test]
fn rows_rebuild_statistics() {
    let rows = vec![
        ("2026-07-23".to_owned(), 9, 12),
        ("2026-07-23".to_owned(), 14, 8),
        ("2026-07-22".to_owned(), 0, 1),
    ];
    let stats = stats_from_rows(&rows).unwrap();
    assert_eq!(stats.hours_on(JULY_23_2026)[9], 12);
    assert_eq!(stats.total_on(JULY_23_2026), 20);
    assert_eq!(stats.total_on(JULY_23_2026 - 1), 1);
    assert_eq!(stats.days.len(), 2);
}

#[test]
fn rows_report_first_problem() {
    let bad_date = vec![("2026-13-01".to_owned(), 1, 1), ("x".to_owned(), -1, 1)];
    assert!(matches!(
        stats_from_rows(&bad_date),
        Err(StatsRowError::InvalidDate(text)) if text == "2026-13-01"
    ));
    let negative_hour = vec![("2026-07-23".to_owned(), -1, 1)];
    assert!(matches!(stats_from_rows(&negative_hour), Err(StatsRowError::NegativeHour)));
    let late_hour = vec![("2026-07-23".to_owned(), 24, 1)];
    assert!(matches!(stats_from_rows(&late_hour), Err(StatsRowError::InvalidHour(24))));
    let negative_count = vec![("2026-07-23".to_owned(), 3, -4)];
    assert!(matches!(stats_from_rows(&negative_count), Err(StatsRowError::NegativeCount)));
}

#[test]
fn counts_become_rows_in_key_order() {
    let counts = BTreeMap::from([
        ((JULY_23_2026, 14), 8),
        ((JULY_23_2026, 9), 12),
        ((JULY_23_2026 - 1, 23), 1),
    ]);
    let rows = count_rows(&counts).unwrap();
    let flat: Vec<(String, usize, i64)> =
        rows.iter().map(|r| (r.date_text.clone(), r.hour, r.count)).collect();
    assert_eq!(
        flat,
        vec![
            ("2026-07-22".to_owned(), 23, 1),
            ("2026-07-23".to_owned(), 9, 12),
            ("2026-07-23".to_owned(), 14, 8),
        ]
    );
    let too_large = BTreeMap::from([((JULY_23_2026, 1), u64::MAX)]);
    assert!(count_rows(&too_large).is_err());
}

#[test]
fn rows_written_read_back() {
    let counts = BTreeMap::from([((JULY_23_2026, 9), 15), ((JULY_23_2026, 14), 8)]);
    let rows: Vec<(String, i64, i64)> = count_rows(&counts)
        .unwrap()
        .into_iter()
        .map(|r| (r.date_text, r.hour as i64, r.count))
        .collect();
    let stats = stats_from_rows(&rows).unwrap();
    assert_eq!(stats.hours_on(JULY_23_2026)[9], 15);
    assert_eq!(stats.total_on(JULY_23_2026), 23);
}

#[test]
fn legacy_counts_keep_nonzero_hours() {
    let mut stats = Stats::default();
    stats.record(JULY_23_2026, 9);
    stats.record(JULY_23_2026, 9);
    stats.record(JULY_23_2026 - 3, 0);
    let counts = legacy_counts(&stats);
    assert_eq!(
        counts,
        BTreeMap::from([((JULY_23_2026 - 3, 0), 1), ((JULY_23_2026, 9), 2)])
    );
}

#[test]
fn database_status_is_live_for_three_seconds() {
    let status = recorder_status_from_row(Some((100, 2, 37)), 103).unwrap();
    assert!(status.active);
    assert_eq!(status.device_count, 2);
    assert_eq!(status.keys_per_minute, 37);
    let stale = recorder_status_from_row(Some((100, 2, 37)), 104).unwrap();
    assert!(!stale.active);
    assert_eq!(stale.device_count, 0);
    assert!(!recorder_status_from_row(None, 0).unwrap().active);
    assert_eq!(
        recorder_status_from_row(Some((100, -1, 0)), 100).unwrap_err(),
        StatusError::NegativeDeviceCount
    );
    assert_eq!(
        recorder_status_from_row(Some((100, 1, -1)), 100).unwrap_err(),
        StatusError::NegativeKeysPerMinute
    );
    assert!(!recorder_status_from_row(Some((i64::MIN, -1, -1)), i64::MAX).unwrap().active);
}

#[test]
fn status_values_fit_signed_integers() {
    assert_eq!(recorder_status_values(2, 37).unwrap(), (2, 37));
    assert_eq!(
        recorder_status_values(usize::MAX, 0).unwrap_err(),
        StatusError::DeviceCountTooLarge
    );
    assert_eq!(
        recorder_status_values(0, usize::MAX).unwrap_err(),
        StatusError::KeysPerMinuteTooLarge
    );
}

#[test]
fn database_reports_live_recorder_status() {
    let (devices, kpm) = recorder_status_values(2, 37).unwrap();
    let status = recorder_status_from_row(Some((1_000, devices, kpm)), 1_000).unwrap();

    assert!(status.active);
    assert_eq!(status.device_count, 2);
    assert_eq!(status.keys_per_minute, 37);
}

#[test]
fn dated_rows_use_the_given_dates() {
    let rows = vec![("anything".to_owned(), 3, 5), ("else".to_owned(), 4, 6)];
    let stats = stats_from_dated_rows(&rows, &vec![Some(10), Some(10)]).unwrap();
    assert_eq!(stats.hours_on(10)[3], 5);
    assert_eq!(stats.hours_on(10)[4], 6);
    match stats_from_dated_rows(&rows, &vec![Some(10), None]) {
        Err(StatsRowError::InvalidDate(text)) => assert_eq!(text, "else"),
        _ => panic!("expected an invalid date"),
    }
}

#[test]
fn legacy_entries_become_statistics() {
    let mut first = [0u64; 24];
    first[9] = 4;
    let mut second = [0u64; 24];
    second[10] = 7;
    let entries = vec![("2026-07-23".to_owned(), first), ("2026-07-22".to_owned(), second)];
    let stats = stats_from_legacy(&entries).unwrap();
    assert_eq!(stats.hours_on(JULY_23_2026)[9], 4);
    assert_eq!(stats.hours_on(JULY_23_2026 - 1)[10], 7);
    let later = vec![("2026-07-23".to_owned(), first), ("2026-07-23".to_owned(), second)];
    let stats = stats_from_legacy(&later).unwrap();
    assert_eq!(stats.hours_on(JULY_23_2026), second);
    let bad = vec![("2026-07-23".to_owned(), first), ("23/07/2026".to_owned(), second)];
    match stats_from_legacy(&bad) {
        Err(StatsRowError::InvalidDate(text)) => assert_eq!(text, "23/07/2026"),
        _ => panic!("expected an invalid date"),
    }
}
