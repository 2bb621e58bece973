use speedy::capture::CaptureEvent;
use speedy::recorder::{parse_pid, RecorderState};

const DAY: i32 = 739_820;
const SECOND: i128 = 1_000_000_000;

#[test]
fn key_presses_accumulate_per_hour() {
    let mut state = RecorderState::new();
    state.handle_event(CaptureEvent::KeyPress, DAY, 9, 10 * SECOND);
    state.handle_event(CaptureEvent::KeyPress, DAY, 9, 11 * SECOND);
    state.handle_event(CaptureEvent::KeyPress, DAY, 10, 12 * SECOND);
    assert_eq!(state.pending.get(&(DAY, 9)), Some(&2));
    assert_eq!(state.pending.get(&(DAY, 10)), Some(&1));
    assert_eq!(state.recent_count(), 3);
    state.handle_event(
        CaptureEvent::Devices(vec!["a".to_owned(), "b".to_owned()]),
        DAY,
        10,
        12 * SECOND,
    );
    assert_eq!(state.device_count, 2);
    assert_eq!(state.recent_count(), 3);
    state.clear_pending();
    assert!(state.pending.is_empty());
}

#[test]
fn recent_presses_expire_after_a_minute() {
    let mut state = RecorderState::new();
    for t in [0, 30, 61, 90] {
        state.handle_event(CaptureEvent::KeyPress, DAY, 0, t * SECOND);
    }
    state.prune_recent(120 * SECOND);
    assert_eq!(state.recent_count(), 2);
    state.prune_recent(120 * SECOND + 1);
    assert_eq!(state.recent_count(), 2);
    state.prune_recent(151 * SECOND);
    assert_eq!(state.recent_count(), 0);
}

#[test]
fn clock_going_back_clears_recent_presses() {
    let mut state = RecorderState::new();
    state.handle_event(CaptureEvent::KeyPress, DAY, 0, 100 * SECOND);
    state.handle_event(CaptureEvent::KeyPress, DAY, 0, 101 * SECOND);
    state.prune_recent(50 * SECOND);
    assert_eq!(state.recent_count(), 0);
}

#[test]
fn lock_file_pid_parses() {
    assert_eq!(parse_pid("1234\n"), Some(1234));
    assert_eq!(parse_pid("  +7 "), Some(7));
    assert_eq!(parse_pid("-2147483648"), Some(i32::MIN));
    assert_eq!(parse_pid("2147483647"), Some(i32::MAX));
    assert_eq!(parse_pid("2147483648"), None);
    assert_eq!(parse_pid(""), None);
    assert_eq!(parse_pid("-"), None);
    assert_eq!(parse_pid("12a"), None);
    assert_eq!(parse_pid("00000000000000000042"), Some(42));
}
