use vstd::prelude::*;

use crate::app::{daily_target_value, lemma_tab_cycle, same_outside_editor, tab_at, tab_index, App, Tab};
use crate::text::{chars_of, decimal, is_ascii_digit, is_ascii_digit_char, push_char, same_text};

verus! {

/// A key as the dashboard tells keys apart.
#[derive(Clone, Copy, Debug, PartialEq, Eq, Structural)]
pub enum Key {
    Char(char),
    Esc,
    Enter,
    Backspace,
    Left,
    Right,
    Tab,
    BackTab,
    Other,
}

/// A key press, with whether Control was held.
#[derive(Clone, Copy, Debug, PartialEq, Eq, Structural)]
pub struct KeyInput {
    pub key: Key,
    pub control: bool,
}

/// What the dashboard does after a key press, beyond changing its state.
#[derive(Clone, Copy, Debug, PartialEq, Eq, Structural)]
pub enum KeyAction {
    /// Nothing more.
    Stay,
    /// Close the dashboard.
    Quit,
    /// Reload the statistics now.
    Refresh,
    /// Store the typed target (see `App::confirm_target`).
    ConfirmTarget,
}

/// The tab selected by a key on the dashboard, if any.
pub open spec fn tab_for_key(tab: Tab, key: Key) -> Option<Tab> {
    match key {
        Key::Right | Key::Tab | Key::Char('l') => Some(tab_at(tab_index(tab) + 1)),
        Key::Left | Key::BackTab | Key::Char('h') => Some(tab_at(tab_index(tab) + 3)),
        Key::Char('1') => Some(Tab::Live),
        Key::Char('2') => Some(Tab::Daily),
        Key::Char('3') => Some(Tab::Hourly),
        Key::Char('4') => Some(Tab::Records),
        _ => None,
    }
}

/// Number of decimal digits in `s`.
pub open spec fn digit_count(s: Seq<char>) -> int
    decreases s.len(),
{
    if s.len() == 0 {
        0
    } else {
        digit_count(s.drop_last()) + if is_ascii_digit(s.last()) {
            1int
        } else {
            0int
        }
    }
}

/// Most digits the target editor accepts.
pub const TARGET_MAX_DIGITS: usize = 10;

/// The target editor accepts separators while its text is shorter than this
/// many bytes.
pub const TARGET_MAX_BYTES: usize = 14;

/// Calls `String::pop`. Trusted: the last character is removed, and an
/// empty string stays empty.
#[verifier::external_body]
fn pop_char(s: &mut String)
    ensures
        final(s)@ == if old(s)@.len() > 0 {
            old(s)@.drop_last()
        } else {
            old(s)@
        },
{
    s.pop();
}

fn count_digits(s: &String) -> (n: usize)
    ensures
        n == digit_count(s@),
{
    let chars = chars_of(s.as_str());
    let mut n: usize = 0;
    let mut i: usize = 0;
    while i < chars.len()
        invariant
            chars@ == s@,
            i <= chars.len(),
            n <= i,
            n == digit_count(chars@.take(i as int)),
        decreases chars.len() - i,
    {
        assert(chars@.take(i + 1).drop_last() =~= chars@.take(i as int));
        if is_ascii_digit_char(chars[i]) {
            n = n + 1;
        }
        i = i + 1;
    }
    assert(chars@.take(chars.len() as int) =~= chars@);
    n
}

/// What a key does to the dashboard while the target editor is open:
/// Escape closes the editor, Enter asks to store the typed target, Backspace
/// deletes a character, digits are typed (up to ten of them), and a comma,
/// underscore or space adds a comma (while the text is shorter than fourteen
/// bytes). Any other key, `q` among them, is ignored; nothing outside the
/// editor changes.
pub open spec fn editor_key_effect(before: App, after: App, input: KeyInput, action: KeyAction) -> bool {
    &&& same_outside_editor(before, after)
    &&& match input.key {
        Key::Esc => {
            &&& action == KeyAction::Stay
            &&& !after.editing_target
            &&& after.target_input@.len() == 0
            &&& after.target_error is None
        },
        Key::Enter => {
            &&& action == KeyAction::ConfirmTarget
            &&& after.target_input == before.target_input
            &&& after.editing_target
            &&& after.target_error == before.target_error
        },
        Key::Backspace => {
            &&& action == KeyAction::Stay
            &&& after.editing_target
            &&& after.target_input@ == if before.target_input@.len() > 0 {
                before.target_input@.drop_last()
            } else {
                before.target_input@
            }
            &&& after.target_error is None
        },
        Key::Char(c) => {
            &&& action == KeyAction::Stay
            &&& after.editing_target
            &&& if is_ascii_digit(c) {
                if digit_count(before.target_input@) < TARGET_MAX_DIGITS {
                    &&& after.target_input@ == before.target_input@.push(c)
                    &&& after.target_error is None
                } else {
                    &&& after.target_input == before.target_input
                    &&& after.target_error == before.target_error
                }
            } else if c == ',' || c == '_' || c == ' ' {
                if (vstd::utf8::encode_utf8(before.target_input@).len() as usize) < TARGET_MAX_BYTES {
                    &&& after.target_input@ == before.target_input@.push(',')
                    &&& after.target_error is None
                } else {
                    &&& after.target_input == before.target_input
                    &&& after.target_error == before.target_error
                }
            } else {
                &&& after.target_input == before.target_input
                &&& after.target_error == before.target_error
            }
        },
        _ => {
            &&& action == KeyAction::Stay
            &&& after.editing_target
            &&& after.target_input == before.target_input
            &&& after.target_error == before.target_error
        },
    }
}

/// Handles a key while the target editor is open, as `editor_key_effect`
/// describes.
pub fn handle_target_editor_key(app: &mut App, input: KeyInput) -> (action: KeyAction)
    requires
        old(app).editing_target,
    ensures
        editor_key_effect(*old(app), *final(app), input, action),
{
    match input.key {
        Key::Esc => {
            app.cancel_editing_target();
            KeyAction::Stay
        },
        Key::Enter => KeyAction::ConfirmTarget,
        Key::Backspace => {
            pop_char(&mut app.target_input);
            app.target_error = None;
            KeyAction::Stay
        },
        Key::Char(c) => {
            if is_ascii_digit_char(c) {
                if count_digits(&app.target_input) < TARGET_MAX_DIGITS {
                    push_char(&mut app.target_input, c);
                    app.target_error = None;
                }
            } else if c == ',' || c == '_' || c == ' ' {
                if app.target_input.as_str().len() < TARGET_MAX_BYTES {
                    push_char(&mut app.target_input, ',');
                    app.target_error = None;
                }
            }
            KeyAction::Stay
        },
        _ => KeyAction::Stay,
    }
}

/// Handles a key on the dashboard. With the target editor open the key goes
/// to the editor. Otherwise Control-C, `q` and Escape quit; Right, Tab and
/// `l` show the next tab, Left, Back-Tab and `h` the previous one, `1`-`4`
/// pick a tab; `r` asks for a refresh and `t` opens the target editor.
pub fn handle_key(app: &mut App, input: KeyInput) -> (action: KeyAction)
    ensures
        old(app).editing_target ==> editor_key_effect(*old(app), *final(app), input, action),
        !old(app).editing_target ==> if (input.key == Key::Char('c') && input.control)
            || input.key == Key::Char('q') || input.key == Key::Esc {
            action == KeyAction::Quit && *final(app) == *old(app)
        } else if tab_for_key(old(app).tab, input.key) is Some {
            &&& action == KeyAction::Stay
            &&& *final(app) == (*old(app)).with_tab(tab_for_key(old(app).tab, input.key)->0)
        } else if input.key == Key::Char('r') {
            action == KeyAction::Refresh && *final(app) == *old(app)
        } else if input.key == Key::Char('t') {
            &&& action == KeyAction::Stay
            &&& final(app).editing_target
            &&& final(app).target_input@ == decimal(old(app).spec_effective_target() as nat)
            &&& final(app).target_error is None
            &&& same_outside_editor(*old(app), *final(app))
        } else {
            action == KeyAction::Stay && *final(app) == *old(app)
        },
{
    if app.editing_target {
        return handle_target_editor_key(app, input);
    }
    match input.key {
        Key::Char('c') if input.control => KeyAction::Quit,
        Key::Char('q') | Key::Esc => KeyAction::Quit,
        Key::Right | Key::Char('l') | Key::Tab => {
            app.tab = app.tab.next();
            KeyAction::Stay
        },
        Key::Left | Key::Char('h') | Key::BackTab => {
            app.tab = app.tab.previous();
            KeyAction::Stay
        },
        Key::Char('1') => {
            app.tab = Tab::Live;
            KeyAction::Stay
        },
        Key::Char('2') => {
            app.tab = Tab::Daily;
            KeyAction::Stay
        },
        Key::Char('3') => {
            app.tab = Tab::Hourly;
            KeyAction::Stay
        },
        Key::Char('4') => {
            app.tab = Tab::Records;
            KeyAction::Stay
        },
        Key::Char('r') => KeyAction::Refresh,
        Key::Char('t') => {
            app.start_editing_target();
            KeyAction::Stay
        },
        _ => KeyAction::Stay,
    }
}

/// What the program was asked to do.
#[derive(Clone, Copy, Debug, PartialEq, Eq, Structural)]
pub enum Command {
    /// Open the dashboard (and start recording).
    Dashboard,
    /// Start the background recorder.
    Start,
    /// Print the status for integrations.
    Status,
    /// Run as the background recorder.
    Recorder,
    /// Stop the background recorder.
    Stop,
    /// Print the usage text.
    Help,
    /// Print the version.
    Version,
}

/// Why the command line was refused.
#[derive(Debug)]
pub enum ArgumentError {
    TooManyArguments,
    /// `--recorder` was given by someone other than the program itself.
    RecorderIsInternal,
    /// Holds the unknown argument.
    UnknownArgument(String),
}

/// The command that the arguments (without the program name) ask for;
/// `recorder_child` tells whether the program started itself as the
/// background recorder.
pub open spec fn command_of(args: Seq<Seq<char>>, recorder_child: bool) -> Option<Command> {
    if args.len() == 0 {
        Some(Command::Dashboard)
    } else if args.len() > 1 {
        None
    } else {
        let a = args[0];
        if a == "-h"@ || a == "--help"@ {
            Some(Command::Help)
        } else if a == "-V"@ || a == "--version"@ {
            Some(Command::Version)
        } else if a == "--recorder"@ {
            if recorder_child {
                Some(Command::Recorder)
            } else {
                None
            }
        } else if a == "--start"@ {
            Some(Command::Start)
        } else if a == "--status"@ {
            Some(Command::Status)
        } else if a == "--stop"@ {
            Some(Command::Stop)
        } else {
            None
        }
    }
}

/// Reads the command line (without the program name).
pub fn parse_arguments(args: &Vec<String>, recorder_child: bool) -> (r: Result<
    Command,
    ArgumentError,
>)
    ensures
        match command_of(args@.map_values(|s: String| s@), recorder_child) {
            Some(c) => r matches Ok(d) && d == c,
            None => r is Err,
        },
        r matches Err(ArgumentError::TooManyArguments) <==> args@.len() > 1,
        r matches Err(ArgumentError::RecorderIsInternal) <==> (args@.len() == 1 && args@[0]@
            == "--recorder"@ && !recorder_child),
        r matches Err(ArgumentError::UnknownArgument(a)) ==> args@.len() == 1 && a == args@[0],
{
    let ghost views = args@.map_values(|s: String| s@);
    if args.len() == 0 {
        return Ok(Command::Dashboard);
    }
    if args.len() > 1 {
        return Err(ArgumentError::TooManyArguments);
    }
    assert(views[0] == args@[0]@);
    proof {
        reveal_strlit("-h");
        reveal_strlit("--help");
        reveal_strlit("-V");
        reveal_strlit("--version");
        reveal_strlit("--recorder");
    }
    let a = args[0].as_str();
    if same_text(a, "-h") || same_text(a, "--help") {
        Ok(Command::Help)
    } else if same_text(a, "-V") || same_text(a, "--version") {
        Ok(Command::Version)
    } else if same_text(a, "--recorder") {
        if recorder_child {
            Ok(Command::Recorder)
        } else {
            Err(ArgumentError::RecorderIsInternal)
        }
    } else if same_text(a, "--start") {
        Ok(Command::Start)
    } else if same_text(a, "--status") {
        Ok(Command::Status)
    } else if same_text(a, "--stop") {
        Ok(Command::Stop)
    } else {
        Err(ArgumentError::UnknownArgument(args[0].clone()))
    }
}

/// On the dashboard, a step to the right followed by a step to the left
/// (or the other way round) comes back to the page one started on.
pub proof fn lemma_arrow_keys_undo(tab: Tab)
    ensures
        tab_for_key(tab_for_key(tab, Key::Right)->0, Key::Left) == Some(tab),
        tab_for_key(tab_for_key(tab, Key::Left)->0, Key::Right) == Some(tab),
{
    lemma_tab_cycle(tab);
}

/// On the dashboard the digit keys `1` to `4` pick the pages in the order of
/// the tab strip: Live, Daily, Hourly, Records, whatever page is shown; the
/// page picked by digit `k` sits at position `k - 1` of the strip.
pub proof fn lemma_digit_keys_pick_pages(tab: Tab)
    ensures
        tab_for_key(tab, Key::Char('1')) == Some(Tab::Live),
        tab_for_key(tab, Key::Char('2')) == Some(Tab::Daily),
        tab_for_key(tab, Key::Char('3')) == Some(Tab::Hourly),
        tab_for_key(tab, Key::Char('4')) == Some(Tab::Records),
        forall|k: char|
            '1' <= k <= '4' ==> #[trigger] tab_for_key(tab, Key::Char(k)) is Some && tab_index(
                tab_for_key(tab, Key::Char(k))->0,
            ) == (k as int) - ('1' as int),
{
    assert forall|k: char| '1' <= k <= '4' implies #[trigger] tab_for_key(tab, Key::Char(k)) is Some
        && tab_index(tab_for_key(tab, Key::Char(k))->0) == (k as int) - ('1' as int) by {
        if k == '1' {
        } else if k == '2' {
        } else if k == '3' {
        } else {
            assert(k == '4');
        }
    }
}

/// Each option of the command line, in its long or short spelling, selects
/// its command, whether or not the program started itself as the recorder
/// (which only `--recorder` depends on): no arguments open the dashboard,
/// `-h` and `--help` ask for the usage text, `-V` and `--version` for the
/// version, and more than one argument is refused.
pub proof fn lemma_options_select_commands(recorder_child: bool, a: Seq<char>, b: Seq<char>)
    ensures
        command_of(seq![], recorder_child) == Some(Command::Dashboard),
        command_of(seq!["-h"@], recorder_child) == Some(Command::Help),
        command_of(seq!["--help"@], recorder_child) == Some(Command::Help),
        command_of(seq!["-V"@], recorder_child) == Some(Command::Version),
        command_of(seq!["--version"@], recorder_child) == Some(Command::Version),
        command_of(seq!["--start"@], recorder_child) == Some(Command::Start),
        command_of(seq!["--status"@], recorder_child) == Some(Command::Status),
        command_of(seq!["--stop"@], recorder_child) == Some(Command::Stop),
        command_of(seq!["--recorder"@], recorder_child) == (if recorder_child {
            Some(Command::Recorder)
        } else {
            None
        }),
        command_of(seq![a, b], recorder_child) is None,
{
    reveal_strlit("-h");
    reveal_strlit("--help");
    reveal_strlit("-V");
    reveal_strlit("--version");
    reveal_strlit("--recorder");
    reveal_strlit("--start");
    reveal_strlit("--status");
    reveal_strlit("--stop");
    assert(seq![a, b].len() == 2);
    assert(seq!["--start"@][0] == "--start"@);
    assert(seq!["--status"@][0] == "--status"@);
    assert(seq!["--stop"@][0] == "--stop"@);
    assert(seq!["--recorder"@][0] == "--recorder"@);
    assert(seq!["--help"@][0] == "--help"@);
    assert(seq!["-h"@][0] == "-h"@);
    assert(seq!["-V"@][0] == "-V"@);
    assert(seq!["--version"@][0] == "--version"@);
    assert("--start"@ != "-h"@ && "--start"@ != "--help"@ && "--start"@ != "-V"@ && "--start"@
        != "--version"@ && "--start"@ != "--recorder"@) by {
        assert("--start"@[2] == 's');
        assert("--help"@[2] == 'h');
        assert("--version"@[2] == 'v');
        assert("--recorder"@[2] == 'r');
    }
    assert("--status"@ != "-h"@ && "--status"@ != "--help"@ && "--status"@ != "-V"@ && "--status"@
        != "--version"@ && "--status"@ != "--recorder"@ && "--status"@ != "--start"@) by {
        assert("--status"@[2] == 's');
        assert("--status"@[5] == 't');
        assert("--start"@[5] == 'r');
    }
    assert("--stop"@ != "-h"@ && "--stop"@ != "--help"@ && "--stop"@ != "-V"@ && "--stop"@
        != "--version"@ && "--stop"@ != "--recorder"@ && "--stop"@ != "--start"@ && "--stop"@
        != "--status"@) by {
        assert("--stop"@[3] == 't');
        assert("--stop"@[4] == 'o');
        assert("--start"@[4] == 'a');
        assert("--status"@[4] == 'a');
    }
    assert("--recorder"@ != "-h"@ && "--recorder"@ != "--help"@ && "--recorder"@ != "-V"@
        && "--recorder"@ != "--version"@) by {
        assert("--recorder"@[2] == 'r');
        assert("--help"@[2] == 'h');
        assert("--version"@[2] == 'v');
    }
    assert("--version"@ != "-h"@ && "--version"@ != "--help"@) by {
        assert("--version"@[2] == 'v');
        assert("--help"@[2] == 'h');
    }
    assert("-V"@ != "-h"@ && "-V"@ != "--help"@) by {
        assert("-V"@[1] == 'V');
        assert("-h"@[1] == 'h');
    }
}

/// The arrow keys walk the tab strip Live, Daily, Hourly, Records and wrap
/// around at its ends: Right (also Tab and `l`) moves one page to the right,
/// Left (also Back-Tab and `h`) one page to the left.
pub proof fn lemma_arrow_keys_walk_the_strip(tab: Tab)
    ensures
        tab_for_key(Tab::Live, Key::Right) == Some(Tab::Daily),
        tab_for_key(Tab::Daily, Key::Right) == Some(Tab::Hourly),
        tab_for_key(Tab::Hourly, Key::Right) == Some(Tab::Records),
        tab_for_key(Tab::Records, Key::Right) == Some(Tab::Live),
        tab_for_key(Tab::Live, Key::Left) == Some(Tab::Records),
        tab_for_key(Tab::Daily, Key::Left) == Some(Tab::Live),
        tab_for_key(Tab::Hourly, Key::Left) == Some(Tab::Daily),
        tab_for_key(Tab::Records, Key::Left) == Some(Tab::Hourly),
        tab_for_key(tab, Key::Tab) == tab_for_key(tab, Key::Right),
        tab_for_key(tab, Key::Char('l')) == tab_for_key(tab, Key::Right),
        tab_for_key(tab, Key::BackTab) == tab_for_key(tab, Key::Left),
        tab_for_key(tab, Key::Char('h')) == tab_for_key(tab, Key::Left),
{
}

} // verus!
