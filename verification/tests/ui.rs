use std::collections::VecDeque;

use speedy::app::{parse_daily_target, Tab};
use speedy::stats::Stats;
use speedy::ui::{
    weekday_labels, centered_box, editor_height, hour_label_column, hourly_bar_area, hourly_bar_width,
    clicked_tab, format_count, goal_bar_text, goal_bar_width, header_status, hour_summary, inset,
    recent_kpm_bars, speed_color, stretch_values, thin_number_art, week_summary, Area,
    HeaderStatus, SpeedColor,
};

#[test]
fn formats_counts_for_display() {
    assert_eq!(format_count(0), "0");
    assert_eq!(format_count(12_345_678), "12,345,678");
    let (art, width) = thin_number_art(12_356);
    assert_eq!(art.len(), 5);
    assert_eq!(width, 21);
}

#[test]
fn formatted_counts_read_back_as_targets() {
    for value in [1u64, 999, 1_000, 10_000, 123_456_789, u64::MAX] {
        assert_eq!(parse_daily_target(&format_count(value)), Some(value));
    }
    assert_eq!(format_count(u64::MAX), "18,446,744,073,709,551,615");
    assert_eq!(format_count(1_000), "1,000");
    assert_eq!(format_count(999), "999");
}

#[test]
fn number_art_draws_digits_and_commas() {
    let (art, width) = thin_number_art(1_000);
    assert_eq!(width, 3 + 1 + 1 + 1 + 3 + 1 + 3 + 1 + 3);
    assert_eq!(art[0], "  ╷   ╭─╮ ╭─╮ ╭─╮");
    assert_eq!(art[4], "  ╵ ╵ ╰─╯ ╰─╯ ╰─╯");
    let (zero, zero_width) = thin_number_art(0);
    assert_eq!(zero_width, 3);
    assert_eq!(zero[2], "│ │");
}

#[test]
fn speed_colors_follow_zones() {
    assert_eq!(speed_color(0), SpeedColor::Muted);
    assert_eq!(speed_color(10), SpeedColor::Green);
    assert_eq!(speed_color(100), SpeedColor::Blue);
    assert_eq!(speed_color(200), SpeedColor::Orange);
    assert_eq!(speed_color(300), SpeedColor::Red);
}

fn goal_bar(fraction: f64, width: usize) -> String {
    let cells = goal_bar_width(width);
    let filled = (fraction * cells as f64).round() as usize;
    goal_bar_text(filled, cells)
}

#[test]
fn goal_bar_fills_proportionally() {
    assert_eq!(goal_bar(0.0, 8), "[────────]");
    assert_eq!(goal_bar(1.0, 8), "[━━━━━━━━]");
    assert_eq!(goal_bar(0.5, 8), "[━━━━────]");
}

#[test]
fn goal_bar_width_is_clamped() {
    assert_eq!(goal_bar_width(2), 6);
    assert_eq!(goal_bar_width(10), 10);
    assert_eq!(goal_bar_width(40), 18);
    assert_eq!(goal_bar_text(9, 6), "[━━━━━━]");
}

#[test]
fn stretch_samples_evenly() {
    let values = [1u64, 2, 3, 4];
    assert_eq!(stretch_values(&values, 8), vec![1, 1, 2, 2, 3, 3, 4, 4]);
    assert_eq!(stretch_values(&values, 2), vec![1, 3]);
    assert!(stretch_values(&values, 0).is_empty());
    assert!(stretch_values(&[], 5).is_empty());
}

#[test]
fn header_reports_recorder_state() {
    assert_eq!(header_status(true, true, 2), HeaderStatus::Stale);
    assert_eq!(header_status(false, false, 2), HeaderStatus::Off);
    assert_eq!(header_status(false, true, 0), HeaderStatus::Locked);
    assert_eq!(header_status(false, true, 1), HeaderStatus::Live);
}

#[test]
fn inset_saturates() {
    let area = Area { x: 0, y: 0, width: 86, height: 48 };
    assert_eq!(inset(area, 2, 1), Area { x: 2, y: 1, width: 82, height: 46 });
    let tiny = Area { x: u16::MAX - 1, y: 5, width: 3, height: 1 };
    assert_eq!(inset(tiny, 2, 1), Area { x: u16::MAX, y: 6, width: 0, height: 0 });
}

#[test]
fn clicks_pick_tabs_by_quarter() {
    let tabs = Area { x: 2, y: 3, width: 80, height: 3 };
    assert_eq!(clicked_tab(2, 3, tabs), Some(Tab::Live));
    assert_eq!(clicked_tab(22, 4, tabs), Some(Tab::Daily));
    assert_eq!(clicked_tab(42, 5, tabs), Some(Tab::Hourly));
    assert_eq!(clicked_tab(81, 5, tabs), Some(Tab::Records));
    assert_eq!(clicked_tab(82, 4, tabs), None);
    assert_eq!(clicked_tab(10, 6, tabs), None);
    assert_eq!(clicked_tab(1, 4, tabs), None);
}

#[test]
fn recent_speed_bars_pad_on_the_left() {
    let history: VecDeque<u64> = VecDeque::from(vec![10, 80, 30]);
    let bars = recent_kpm_bars(&history, 20);
    assert_eq!(bars.values, vec![0, 0, 10, 80, 30]);
    assert_eq!(bars.maximum, 80);
    assert_eq!(bars.peak, 80);
    let narrow = recent_kpm_bars(&history, 8);
    assert_eq!(narrow.values, vec![80, 30]);
    assert_eq!(narrow.maximum, 80);
    let slow: VecDeque<u64> = VecDeque::from(vec![5]);
    let bars = recent_kpm_bars(&slow, 2);
    assert_eq!(bars.values, vec![5]);
    assert_eq!(bars.maximum, 60);
    assert_eq!(recent_kpm_bars(&VecDeque::new(), 0).peak, 0);
}

#[test]
fn week_summary_compares_weeks() {
    let today = 739_819;
    let mut stats = Stats::new();
    for _ in 0..7 {
        stats.record(today, 1);
    }
    stats.record(today - 3, 2);
    stats.record(today - 10, 2);
    stats.record(today - 10, 2);
    let week = week_summary(&stats, today);
    assert_eq!(week.total, 8);
    assert_eq!(week.previous_total, 2);
    assert_eq!(week.average, 1);
    assert_eq!(week.best, 7);
}

#[test]
fn hour_summary_finds_latest_peak() {
    let today = 739_819;
    let mut stats = Stats::new();
    let empty = hour_summary(&stats, today);
    assert_eq!(empty.peak, None);
    assert_eq!(empty.active_hours, 0);
    stats.record(today, 8);
    stats.record(today, 8);
    stats.record(today, 20);
    stats.record(today, 20);
    stats.record(today, 3);
    let summary = hour_summary(&stats, today);
    assert_eq!(summary.total, 5);
    assert_eq!(summary.peak, Some((20, 2)));
    assert_eq!(summary.active_hours, 3);
}

#[test]
fn counts_group_by_threes() {
    assert_eq!(format_count(100_000), "100,000");
    assert_eq!(format_count(1_000), "1,000");
    assert_eq!(format_count(999), "999");
    let (rows, width) = thin_number_art(1_000);
    assert_eq!(width, 4 * 4 + 2 - 1);
    assert!(rows.iter().all(|row| row.chars().count() == usize::from(width)));
}

#[test]
fn hourly_chart_geometry() {
    assert_eq!(hourly_bar_width(75), 1);
    assert_eq!(hourly_bar_width(76), 2);
    let chart = Area { x: 2, y: 5, width: 80, height: 9 };
    let bars = hourly_bar_area(chart, 2);
    assert_eq!(bars, Area { x: 2 + (80 - 71) / 2, y: 5, width: 71, height: 9 });
    let narrow = hourly_bar_area(Area { x: 0, y: 0, width: 30, height: 4 }, 1);
    assert_eq!(narrow, Area { x: 0, y: 0, width: 30, height: 4 });
    assert_eq!(hour_label_column(10, 0, 2), 10);
    assert_eq!(hour_label_column(10, 23, 1), 10 + 46 - 1);
    assert_eq!(hour_label_column(0, 0, 1), 0);
}

#[test]
fn editor_box_is_centred() {
    assert_eq!(editor_height(false), 6);
    assert_eq!(editor_height(true), 7);
    let screen = Area { x: 0, y: 0, width: 86, height: 48 };
    assert_eq!(centered_box(screen, 46, 7), Area { x: 20, y: 20, width: 46, height: 7 });
    let small = Area { x: 1, y: 1, width: 40, height: 5 };
    assert_eq!(centered_box(small, 46, 6), Area { x: 1, y: 1, width: 40, height: 5 });
}

#[test]
fn daily_bars_are_labelled_by_weekday() {
    let labels = weekday_labels(&vec![(739_819, 0), (739_820, 5), (1, 0)]);
    assert_eq!(labels, vec!["Wed", "Thu", "Mon"]);
}
