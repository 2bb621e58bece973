use speedy::calendar::{DAY_MAX, DAY_MIN};
use speedy::stats::{DayStats, Stats};

const JULY_22_2026: i32 = 739_819;

#[test]
fn records_press_in_the_correct_hour() {
    let mut stats = Stats::default();
    stats.record(JULY_22_2026, 14);
    stats.record(JULY_22_2026, 14);

    assert_eq!(stats.total_on(JULY_22_2026), 2);
    assert_eq!(stats.hours_on(JULY_22_2026)[14], 2);
}

#[test]
fn missing_days_are_included_in_ranges() {
    let mut stats = Stats::default();
    stats.record(JULY_22_2026, 9);

    let days = stats.last_days(JULY_22_2026, 3);

    assert_eq!(days.len(), 3);
    assert_eq!(days[0].1, 0);
    assert_eq!(days[2].1, 1);
    assert_eq!(days[0].0, JULY_22_2026 - 2);
    assert_eq!(days[2].0, JULY_22_2026);
}

#[test]
fn day_total_sums_hours() {
    let mut day = DayStats::default();
    day.hours[0] = 5;
    day.hours[23] = 7;
    assert_eq!(day.total(), 12);
    assert_eq!(DayStats::empty().total(), 0);
}

#[test]
fn averages_round_down() {
    let mut stats = Stats::new();
    for _ in 0..10 {
        stats.record(JULY_22_2026, 3);
    }
    stats.record(JULY_22_2026 - 1, 4);
    assert_eq!(stats.average_for_days(JULY_22_2026, 3), 3);
    assert_eq!(stats.average_for_days(JULY_22_2026, 0), 0);
    assert_eq!(stats.average_for_days(JULY_22_2026, 1), 10);
}

#[test]
fn best_day_prefers_latest_on_tie() {
    let mut stats = Stats::new();
    assert_eq!(stats.best_day(), None);
    stats.record(100, 1);
    stats.record(200, 2);
    stats.record(150, 1);
    stats.record(150, 1);
    assert_eq!(stats.best_day(), Some((150, 2)));
    stats.record(200, 5);
    assert_eq!(stats.best_day(), Some((200, 2)));
}

#[test]
fn aggregate_hours_sums_window() {
    let mut stats = Stats::new();
    stats.record(JULY_22_2026, 9);
    stats.record(JULY_22_2026 - 1, 9);
    stats.record(JULY_22_2026 - 5, 9);
    stats.record(JULY_22_2026, 23);
    let hours = stats.aggregate_hours(JULY_22_2026, 2);
    assert_eq!(hours[9], 2);
    assert_eq!(hours[23], 1);
    assert_eq!(hours.iter().sum::<u64>(), 3);
    assert_eq!(stats.aggregate_hours(JULY_22_2026, 30)[9], 3);
}

#[test]
fn streak_counts_consecutive_days() {
    let mut stats = Stats::new();
    assert_eq!(stats.streak_ending(JULY_22_2026), 0);
    stats.record(JULY_22_2026 - 1, 1);
    stats.record(JULY_22_2026 - 2, 1);
    stats.record(JULY_22_2026 - 4, 1);
    // Today has no presses yet: the streak ending yesterday counts.
    assert_eq!(stats.streak_ending(JULY_22_2026), 2);
    stats.record(JULY_22_2026, 1);
    assert_eq!(stats.streak_ending(JULY_22_2026), 3);
}

#[test]
fn streak_stops_at_first_date() {
    let mut stats = Stats::new();
    stats.record(DAY_MIN, 0);
    stats.record(DAY_MIN + 1, 0);
    assert_eq!(stats.streak_ending(DAY_MIN + 1), 2);
    assert_eq!(stats.streak_ending(DAY_MIN), 1);
    assert!(DAY_MAX > DAY_MIN);
}

#[test]
fn checked_totals_report_overflow_and_range() {
    let mut stats = Stats::default();
    stats.record(JULY_22_2026, 1);
    stats.record(JULY_22_2026 - 1, 2);
    assert_eq!(stats.checked_total_on(JULY_22_2026), Some(1));
    assert_eq!(stats.checked_window_total(JULY_22_2026, 2), Some(2));
    assert_eq!(stats.checked_window_total(JULY_22_2026, 0), Some(0));
    assert_eq!(stats.checked_window_total(DAY_MIN, 2), None);
    assert_eq!(stats.checked_window_total(DAY_MAX, 1), Some(0));
    let mut day = DayStats::default();
    day.hours[0] = u64::MAX;
    day.hours[1] = 1;
    stats.days.insert(JULY_22_2026 + 1, day);
    assert_eq!(stats.checked_total_on(JULY_22_2026 + 1), None);
    assert_eq!(stats.checked_window_total(JULY_22_2026 + 1, 3), None);
    let mut big = DayStats::default();
    big.hours[0] = u64::MAX;
    stats.days.insert(JULY_22_2026 + 5, big);
    assert_eq!(stats.checked_total_on(JULY_22_2026 + 5), Some(u64::MAX));
    assert_eq!(stats.checked_window_total(JULY_22_2026 + 5, 1), Some(u64::MAX));
    assert_eq!(stats.checked_window_total(JULY_22_2026 + 5, 5), None);
}

#[test]
fn whole_history_checks() {
    let mut stats = Stats::default();
    stats.record(JULY_22_2026, 3);
    stats.record(JULY_22_2026 - 1, 3);
    stats.record(JULY_22_2026 - 10, 0);
    assert_eq!(stats.checked_all_time_total(), Some(3));
    assert!(stats.totals_all_fit());
    assert!(stats.streak_fits(JULY_22_2026));
    let aggregate = stats.checked_aggregate_hours(JULY_22_2026, 2).unwrap();
    assert_eq!(aggregate[3], 2);
    assert_eq!(aggregate[0], 0);
    assert!(stats.checked_aggregate_hours(DAY_MIN, 2).is_none());

    let mut big = DayStats::default();
    big.hours[0] = u64::MAX;
    big.hours[1] = 1;
    stats.days.insert(JULY_22_2026 - 5, DayStats { hours: big.hours });
    assert_eq!(stats.checked_all_time_total(), None);
    assert!(!stats.totals_all_fit());
    // the overflowing day is outside the current streak
    assert!(stats.streak_fits(JULY_22_2026));
    assert!(stats.checked_aggregate_hours(JULY_22_2026, 6).is_none());
    assert!(stats.checked_aggregate_hours(JULY_22_2026, 2).is_some());
    stats.days.insert(JULY_22_2026 - 2, big);
    assert!(!stats.streak_fits(JULY_22_2026));

    let mut hour_heavy = Stats::default();
    let mut day = DayStats::default();
    day.hours[7] = u64::MAX;
    hour_heavy.days.insert(JULY_22_2026, DayStats { hours: day.hours });
    hour_heavy.days.insert(JULY_22_2026 - 1, DayStats { hours: day.hours });
    assert!(hour_heavy.checked_aggregate_hours(JULY_22_2026, 1).is_some());
    assert!(hour_heavy.checked_aggregate_hours(JULY_22_2026, 2).is_none());
}
