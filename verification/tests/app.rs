use speedy::app::{parse_daily_target, refresh_due, App, Tab, TargetOutcome, DAILY_TARGET};
use speedy::stats::Stats;
use speedy::store::{RecorderStatus, DEFAULT_DAILY_TARGET};

#[test]
fn parses_valid_targets() {
    assert_eq!(parse_daily_target("10000"), Some(10_000));
    assert_eq!(parse_daily_target("  5,000 "), Some(5_000));
    assert_eq!(parse_daily_target("10_000"), Some(10_000));
    assert_eq!(parse_daily_target("1"), Some(1));
}

#[test]
fn rejects_invalid_targets() {
    assert_eq!(parse_daily_target(""), None);
    assert_eq!(parse_daily_target("   "), None);
    assert_eq!(parse_daily_target("0"), None);
    assert_eq!(parse_daily_target("000"), None);
    assert_eq!(parse_daily_target("-5"), None);
    assert_eq!(parse_daily_target("abc"), None);
    assert_eq!(parse_daily_target("10.5"), None);
    assert_eq!(parse_daily_target("1a2"), None);
}

#[test]
fn parse_target_edge_cases() {
    assert_eq!(parse_daily_target("0007"), Some(7));
    assert_eq!(parse_daily_target("\t42\n"), Some(42));
    assert_eq!(parse_daily_target("1 2 3"), Some(123));
    assert_eq!(parse_daily_target(",,,"), None);
    assert_eq!(parse_daily_target("18446744073709551615"), Some(u64::MAX));
    assert_eq!(parse_daily_target("18446744073709551616"), None);
    assert_eq!(parse_daily_target("000000000000000000000000001"), Some(1));
    assert_eq!(parse_daily_target("\u{3000}9\u{a0}"), Some(9));
    assert_eq!(parse_daily_target("1\t2"), None);
}

#[test]
fn new_app_uses_default_target_when_unset() {
    let app = App::new(Stats::default(), None);
    assert_eq!(app.daily_target, DEFAULT_DAILY_TARGET);
    assert!(!app.editing_target);
}

#[test]
fn new_app_uses_stored_target() {
    let app = App::new(Stats::default(), Some(2_000));
    assert_eq!(app.daily_target, 2_000);
    assert_eq!(app.effective_target(), 2_000);
    assert_eq!(app.tab, Tab::Live);
    assert_eq!(DAILY_TARGET, 10_000);
}

fn confirm(app: &mut App) -> bool {
    let outcome = match app.target_to_confirm() {
        Some(target) => TargetOutcome::Saved(target),
        None => TargetOutcome::Rejected,
    };
    app.confirm_target(outcome)
}

#[test]
fn confirm_target_persists_and_reloads() {
    let mut app = App::new(Stats::default(), None);
    app.start_editing_target();
    assert!(app.editing_target);
    app.target_input = "7500".to_owned();
    assert!(confirm(&mut app));
    assert_eq!(app.daily_target, 7_500);
    assert!(!app.editing_target);

    app.start_editing_target();
    app.target_input = "0".to_owned();
    assert!(!confirm(&mut app));
    assert!(app.editing_target);
    assert!(app.target_error.is_some());
    assert_eq!(app.daily_target, 7_500);
    app.cancel_editing_target();
    assert!(!app.editing_target);
}

#[test]
fn editor_opens_with_current_target_text() {
    let mut app = App::new(Stats::default(), Some(0));
    assert_eq!(app.effective_target(), 10_000);
    app.start_editing_target();
    assert_eq!(app.target_input, "10000");
    assert_eq!(app.target_to_confirm(), Some(10_000));
}

#[test]
fn failed_save_keeps_editor_open() {
    let mut app = App::new(Stats::default(), None);
    app.start_editing_target();
    app.target_input = "12".to_owned();
    assert!(!app.confirm_target(TargetOutcome::SaveFailed("disk full".to_owned())));
    assert!(app.editing_target);
    assert_eq!(app.target_error.as_deref(), Some("disk full"));
    assert_eq!(app.daily_target, DEFAULT_DAILY_TARGET);
}

#[test]
fn rejected_target_shows_hint() {
    let mut app = App::new(Stats::default(), None);
    app.start_editing_target();
    app.target_input = "abc".to_owned();
    assert!(!confirm(&mut app));
    assert_eq!(
        app.target_error.as_deref(),
        Some("Enter a positive number (e.g. 10000)")
    );
}

#[test]
fn sync_target_respects_open_editor() {
    let mut app = App::new(Stats::default(), None);
    app.sync_target(Some(300));
    assert_eq!(app.daily_target, 300);
    app.start_editing_target();
    app.sync_target(Some(400));
    assert_eq!(app.daily_target, 300);
    app.sync_target(None);
    assert_eq!(app.daily_target, 300);
}

#[test]
fn tabs_cycle_both_ways() {
    let tabs = [Tab::Live, Tab::Daily, Tab::Hourly, Tab::Records];
    for (i, tab) in tabs.iter().enumerate() {
        assert_eq!(tab.index(), i);
        assert_eq!(tab.next().previous(), *tab);
        assert_eq!(tab.previous().next(), *tab);
        assert_eq!(tab.next().next().next().next(), *tab);
    }
    assert_eq!(Tab::Records.next(), Tab::Live);
    assert_eq!(Tab::Live.previous(), Tab::Records);
}

#[test]
fn refresh_samples_history() {
    let mut app = App::new(Stats::default(), None);
    let status = RecorderStatus { active: true, device_count: 1, keys_per_minute: 42 };
    assert!(app.apply_refresh(Stats::default(), status, 0));
    assert_eq!(app.kpm_history.iter().copied().collect::<Vec<_>>(), vec![42]);
    assert!(!app.apply_refresh(Stats::default(), status, 1_000));
    assert_eq!(app.kpm_history.len(), 1);
    assert!(app.apply_refresh(Stats::default(), status, 3_000));
    assert_eq!(app.kpm_history.iter().copied().collect::<Vec<_>>(), vec![42, 42]);
    assert!(app.apply_refresh(Stats::default(), status, 7_000));
    assert_eq!(app.kpm_history.iter().copied().collect::<Vec<_>>(), vec![42, 42, 0, 42]);
    assert!(app.recorder_active);
    assert_eq!(app.device_count, 1);
    assert_eq!(app.keys_per_minute, 42);
    for _ in 0..40 {
        app.apply_refresh(Stats::default(), status, 10_000);
    }
    assert_eq!(app.kpm_history.len(), 24);
    assert_eq!(app.kpm_history.back(), Some(&42));
}

#[test]
fn refresh_failure_keeps_statistics() {
    let mut app = App::new(Stats::default(), None);
    app.refresh_failed("database locked".to_owned());
    assert_eq!(app.refresh_error.as_deref(), Some("database locked"));
    let status = RecorderStatus::default();
    app.apply_refresh(Stats::default(), status, 0);
    assert!(app.refresh_error.is_none());
}

#[test]
fn refresh_waits_a_quarter_second() {
    assert!(!refresh_due(0));
    assert!(!refresh_due(249));
    assert!(refresh_due(250));
    assert!(refresh_due(u64::MAX));
}

#[test]
fn saving_a_target_keeps_the_live_readings() {
    let mut app = App::new(Stats::new(), None);
    app.apply_refresh(
        Stats::new(),
        RecorderStatus { active: true, device_count: 2, keys_per_minute: 80 },
        0,
    );
    app.start_editing_target();
    app.target_input = "42".to_owned();
    assert!(app.confirm_target(TargetOutcome::Saved(42)));
    assert_eq!(app.daily_target, 42);
    assert!(app.recorder_active);
    assert_eq!(app.device_count, 2);
    assert_eq!(app.keys_per_minute, 80);
    assert_eq!(app.kpm_history.len(), 1);
    assert!(app.refresh_error.is_none());
}
