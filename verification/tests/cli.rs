use speedy::app::{App, Tab};
use speedy::cli::{
    handle_key, handle_target_editor_key, parse_arguments, ArgumentError, Command, Key, KeyAction,
    KeyInput,
};
use speedy::stats::Stats;

fn press(key: Key) -> KeyInput {
    KeyInput { key, control: false }
}

fn args(values: &[&str]) -> Vec<String> {
    values.iter().map(|v| v.to_string()).collect()
}

#[test]
fn keys_switch_tabs_and_quit() {
    let mut app = App::new(Stats::new(), None);
    assert_eq!(handle_key(&mut app, press(Key::Right)), KeyAction::Stay);
    assert_eq!(app.tab, Tab::Daily);
    handle_key(&mut app, press(Key::Char('h')));
    assert_eq!(app.tab, Tab::Live);
    handle_key(&mut app, press(Key::BackTab));
    assert_eq!(app.tab, Tab::Records);
    handle_key(&mut app, press(Key::Char('3')));
    assert_eq!(app.tab, Tab::Hourly);
    assert_eq!(handle_key(&mut app, press(Key::Char('r'))), KeyAction::Refresh);
    assert_eq!(handle_key(&mut app, press(Key::Char('c'))), KeyAction::Stay);
    assert_eq!(
        handle_key(&mut app, KeyInput { key: Key::Char('c'), control: true }),
        KeyAction::Quit
    );
    assert_eq!(handle_key(&mut app, press(Key::Esc)), KeyAction::Quit);
    assert_eq!(handle_key(&mut app, press(Key::Char('q'))), KeyAction::Quit);
}

#[test]
fn target_editor_keys() {
    let mut app = App::new(Stats::new(), Some(500));
    handle_key(&mut app, press(Key::Char('t')));
    assert!(app.editing_target);
    assert_eq!(app.target_input, "500");
    handle_key(&mut app, press(Key::Backspace));
    handle_key(&mut app, press(Key::Backspace));
    handle_key(&mut app, press(Key::Char(' ')));
    handle_key(&mut app, press(Key::Char('x')));
    handle_key(&mut app, press(Key::Char('2')));
    assert_eq!(app.target_input, "5,2");
    assert_eq!(handle_key(&mut app, press(Key::Char('q'))), KeyAction::Stay);
    assert!(app.editing_target);
    assert_eq!(handle_key(&mut app, press(Key::Enter)), KeyAction::ConfirmTarget);
    assert_eq!(app.target_to_confirm(), Some(52));
    handle_target_editor_key(&mut app, press(Key::Esc));
    assert!(!app.editing_target);
    assert_eq!(app.target_input, "");
}

#[test]
fn target_editor_limits_length() {
    let mut app = App::new(Stats::new(), None);
    app.start_editing_target();
    app.target_input.clear();
    for _ in 0..12 {
        handle_target_editor_key(&mut app, press(Key::Char('9')));
    }
    assert_eq!(app.target_input, "9999999999");
    for _ in 0..6 {
        handle_target_editor_key(&mut app, press(Key::Char('_')));
    }
    assert_eq!(app.target_input, "9999999999,,,,");
}

#[test]
fn arguments_select_commands() {
    assert_eq!(parse_arguments(&args(&[]), false).unwrap(), Command::Dashboard);
    assert_eq!(parse_arguments(&args(&["--start"]), false).unwrap(), Command::Start);
    assert_eq!(parse_arguments(&args(&["--status"]), false).unwrap(), Command::Status);
    assert_eq!(parse_arguments(&args(&["--stop"]), false).unwrap(), Command::Stop);
    assert_eq!(parse_arguments(&args(&["-h"]), false).unwrap(), Command::Help);
    assert_eq!(parse_arguments(&args(&["--version"]), false).unwrap(), Command::Version);
    assert_eq!(parse_arguments(&args(&["--recorder"]), true).unwrap(), Command::Recorder);
    assert!(matches!(
        parse_arguments(&args(&["--recorder"]), false),
        Err(ArgumentError::RecorderIsInternal)
    ));
    assert!(matches!(
        parse_arguments(&args(&["--start", "--stop"]), false),
        Err(ArgumentError::TooManyArguments)
    ));
    assert!(matches!(
        parse_arguments(&args(&["--frobnicate"]), false),
        Err(ArgumentError::UnknownArgument(a)) if a == "--frobnicate"
    ));
}

#[test]
fn open_editor_swallows_quit_keys() {
    let mut app = App::new(Stats::new(), None);
    handle_key(&mut app, press(Key::Char('t')));
    assert_eq!(handle_key(&mut app, press(Key::Char('q'))), KeyAction::Stay);
    assert!(app.editing_target);
    assert_eq!(app.target_input, "10000");
    assert_eq!(handle_key(&mut app, press(Key::Right)), KeyAction::Stay);
    assert_eq!(app.tab, Tab::Live);
    assert_eq!(handle_key(&mut app, press(Key::Esc)), KeyAction::Stay);
    assert!(!app.editing_target);
    assert_eq!(app.target_input, "");
}

#[test]
fn ignored_keys_leave_the_dashboard_alone() {
    let mut app = App::new(Stats::new(), Some(3));
    app.refresh_failed("stale".to_owned());
    assert_eq!(handle_key(&mut app, press(Key::Char('x'))), KeyAction::Stay);
    assert_eq!(handle_key(&mut app, press(Key::Enter)), KeyAction::Stay);
    assert_eq!(app.tab, Tab::Live);
    assert!(!app.editing_target);
    assert_eq!(app.refresh_error.as_deref(), Some("stale"));
    assert_eq!(app.daily_target, 3);
}
