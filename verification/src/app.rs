use vstd::prelude::*;

use std::collections::VecDeque;

use crate::stats::Stats;
use crate::store::{RecorderStatus, DEFAULT_DAILY_TARGET};

use crate::text::{
    all_ascii_digits, chars_of, digits_value, is_ascii_digit, is_ascii_digit_char,
    decimal, decimal_text, lemma_decimal, lemma_digits_value_grows, lemma_trim_noop, trim,
    trim_bounds,
};

verus! {

/// The dashboard pages, in the order in which they are shown.
#[derive(Clone, Copy, Debug, PartialEq, Eq, Structural)]
pub enum Tab {
    Live,
    Daily,
    Hourly,
    Records,
}

/// Position of a tab in the tab strip.
pub open spec fn tab_index(tab: Tab) -> int {
    match tab {
        Tab::Live => 0,
        Tab::Daily => 1,
        Tab::Hourly => 2,
        Tab::Records => 3,
    }
}

/// The tab at a position of the tab strip, taken modulo the number of tabs.
pub open spec fn tab_at(position: int) -> Tab {
    let p = position % 4;
    if p == 0 {
        Tab::Live
    } else if p == 1 {
        Tab::Daily
    } else if p == 2 {
        Tab::Hourly
    } else {
        Tab::Records
    }
}

impl Tab {
    /// The first page shown.
    pub fn default_tab() -> (tab: Tab)
        ensures
            tab == Tab::Live,
    {
        Tab::Live
    }

    pub fn index(self) -> (i: usize)
        ensures
            i == tab_index(self),
    {
        match self {
            Tab::Live => 0,
            Tab::Daily => 1,
            Tab::Hourly => 2,
            Tab::Records => 3,
        }
    }

    pub fn next(self) -> (t: Tab)
        ensures
            t == tab_at(tab_index(self) + 1),
    {
        match self {
            Tab::Live => Tab::Daily,
            Tab::Daily => Tab::Hourly,
            Tab::Hourly => Tab::Records,
            Tab::Records => Tab::Live,
        }
    }

    pub fn previous(self) -> (t: Tab)
        ensures
            t == tab_at(tab_index(self) + 3),
    {
        match self {
            Tab::Live => Tab::Records,
            Tab::Daily => Tab::Live,
            Tab::Hourly => Tab::Daily,
            Tab::Records => Tab::Hourly,
        }
    }
}

/// `next` and `previous` undo each other, and four steps of `next` come back
/// to the starting tab.
pub proof fn lemma_tab_cycle(tab: Tab)
    ensures
        tab_at(tab_index(tab_at(tab_index(tab) + 1)) + 3) == tab,
        tab_at(tab_index(tab_at(tab_index(tab) + 3)) + 1) == tab,
        tab_at(tab_index(tab) + 4) == tab,
        tab_at(tab_index(tab)) == tab,
{
}

/// Distinct tabs have distinct positions, and every position below four
/// belongs to a tab.
pub proof fn lemma_tab_index_bijective(a: Tab, b: Tab, i: nat)
    ensures
        0 <= tab_index(a) < 4,
        tab_index(a) == tab_index(b) ==> a == b,
        i < 4 ==> tab_index(tab_at(i as int)) == i as int,
{
}

/// Characters that may separate digit groups in a typed target ("10,000").
pub open spec fn is_target_separator(c: char) -> bool {
    c == ',' || c == '_' || c == ' '
}

/// `s` with every separator character removed.
pub open spec fn without_separators(s: Seq<char>) -> Seq<char>
    decreases s.len(),
{
    if s.len() == 0 {
        s
    } else {
        let rest = without_separators(s.drop_last());
        if is_target_separator(s.last()) {
            rest
        } else {
            rest.push(s.last())
        }
    }
}

/// The daily target that a typed text denotes: after trimming whitespace and
/// dropping separators, a non-empty run of decimal digits whose value is
/// positive and fits in a `u64`; `None` for any other text.
pub open spec fn daily_target_value(input: Seq<char>) -> Option<u64> {
    let cleaned = without_separators(trim(input));
    if cleaned.len() > 0 && all_ascii_digits(cleaned) && 0 < digits_value(cleaned)
        && digits_value(cleaned) <= u64::MAX {
        Some(digits_value(cleaned) as u64)
    } else {
        None
    }
}

/// Parses the daily keypress target typed by the user.
pub fn parse_daily_target(input: &str) -> (r: Option<u64>)
    ensures
        r == daily_target_value(input@),
{
    let chars = chars_of(input);
    let (start, end) = trim_bounds(&chars);
    let ghost t = chars@.subrange(start as int, end as int);
    let mut kept_any = false;
    let mut all_digits = true;
    let mut overflow = false;
    let mut value: u64 = 0;
    let mut i: usize = start;
    while i < end
        invariant
            start <= i <= end <= chars.len(),
            t == chars@.subrange(start as int, end as int),
            kept_any == (without_separators(t.take(i - start)).len() > 0),
            all_digits == all_ascii_digits(without_separators(t.take(i - start))),
            all_digits ==> (overflow <==> digits_value(without_separators(t.take(i - start)))
                > u64::MAX),
            all_digits && !overflow ==> value == digits_value(
                without_separators(t.take(i - start)),
            ),
        decreases end - i,
    {
        let c = chars[i];
        let ghost before = without_separators(t.take(i - start));
        proof {
            assert(t.take(i + 1 - start).drop_last() =~= t.take(i - start));
            assert(t.take(i + 1 - start).last() == c);
        }
        if c == ',' || c == '_' || c == ' ' {
            assert(without_separators(t.take(i + 1 - start)) == before);
        } else {
            let ghost after = before.push(c);
            assert(without_separators(t.take(i + 1 - start)) == after);
            kept_any = true;
            if is_ascii_digit_char(c) {
                proof {
                    lemma_digits_value_grows(before, c);
                }
                assert(all_ascii_digits(after) == all_ascii_digits(before)) by {
                    assert forall|k: int| 0 <= k < before.len() implies after[k] == before[k] by {}
                    if all_ascii_digits(before) {
                        assert forall|k: int| 0 <= k < after.len() implies is_ascii_digit(
                            #[trigger] after[k],
                        ) by {
                            if k < before.len() {
                                assert(after[k] == before[k]);
                            }
                        }
                    } else {
                        let k = choose|k: int| 0 <= k < before.len() && !is_ascii_digit(before[k]);
                        assert(after[k] == before[k]);
                    }
                }
                if !overflow {
                    let d = (c as u32 - '0' as u32) as u64;
                    match value.checked_mul(10) {
                        Some(m) => match m.checked_add(d) {
                            Some(v) => {
                                value = v;
                            },
                            None => {
                                overflow = true;
                            },
                        },
                        None => {
                            overflow = true;
                        },
                    }
                }
            } else {
                assert(!all_ascii_digits(after)) by {
                    assert(after[after.len() - 1] == c);
                }
                all_digits = false;
            }
        }
        i = i + 1;
    }
    proof {
        assert(t.take(end - start) =~= t);
    }
    if !kept_any || !all_digits || overflow || value == 0 {
        None
    } else {
        Some(value)
    }
}

/// The daily keypress goal shown until the user sets one.
pub const DAILY_TARGET: u64 = DEFAULT_DAILY_TARGET;

/// Milliseconds that must pass between two reloads of the statistics.
pub const REFRESH_INTERVAL_MS: u64 = 250;

/// Whether the statistics are reloaded `elapsed_ms` milliseconds after the
/// previous reload.
pub fn refresh_due(elapsed_ms: u64) -> (due: bool)
    ensures
        due == (elapsed_ms >= REFRESH_INTERVAL_MS),
{
    elapsed_ms >= REFRESH_INTERVAL_MS
}

/// Most keys-per-minute samples kept for the recent-speed chart.
pub const KPM_HISTORY_LEN: usize = 24;

/// Milliseconds between two keys-per-minute samples.
pub const KPM_SAMPLE_MS: u64 = 3_000;

/// A gap of at least this many milliseconds between samples is shown as a
/// zero sample first.
pub const KPM_GAP_MS: u64 = 6_000;

/// The history after taking a keys-per-minute sample `kpm` that comes
/// `gap_ms` milliseconds after the previous one: a zero marks a long gap, and
/// only the newest samples are kept.
pub open spec fn sampled_history(history: Seq<u64>, kpm: u64, gap_ms: u64) -> Seq<u64> {
    let with_gap = if history.len() > 0 && gap_ms >= KPM_GAP_MS {
        history.push(0)
    } else {
        history
    };
    let pushed = with_gap.push(kpm);
    if pushed.len() > KPM_HISTORY_LEN {
        pushed.skip(pushed.len() - KPM_HISTORY_LEN)
    } else {
        pushed
    }
}

/// Whether a new keys-per-minute sample is due after `gap_ms` milliseconds.
pub open spec fn sample_due(history: Seq<u64>, gap_ms: u64) -> bool {
    history.len() == 0 || gap_ms >= KPM_SAMPLE_MS
}

/// The message shown when the typed target is not a positive number.
pub open spec fn invalid_target_message() -> Seq<char> {
    "Enter a positive number (e.g. 10000)"@
}

/// `a` and `b` agree on everything but the target editor (its open flag, its
/// text and its error).
pub open spec fn same_outside_editor(a: App, b: App) -> bool {
    &&& a.stats == b.stats
    &&& a.tab == b.tab
    &&& a.recorder_active == b.recorder_active
    &&& a.device_count == b.device_count
    &&& a.keys_per_minute == b.keys_per_minute
    &&& a.kpm_history == b.kpm_history
    &&& a.refresh_error == b.refresh_error
    &&& a.daily_target == b.daily_target
}

/// What became of a confirmed target edit.
pub enum TargetOutcome {
    /// The typed text is not a positive number; nothing was stored.
    Rejected,
    /// The typed target was stored.
    Saved(u64),
    /// Storing the typed target failed with this message.
    SaveFailed(String),
}

/// The dashboard's state.
pub struct App {
    pub stats: Stats,
    pub tab: Tab,
    pub recorder_active: bool,
    pub device_count: usize,
    pub keys_per_minute: usize,
    pub kpm_history: VecDeque<u64>,
    pub refresh_error: Option<String>,
    pub daily_target: u64,
    pub editing_target: bool,
    pub target_input: String,
    pub target_error: Option<String>,
}

impl App {
    /// The goal that progress is measured against: the stored target, or the
    /// default one when none is stored.
    pub open spec fn spec_effective_target(&self) -> u64 {
        if self.daily_target == 0 {
            DEFAULT_DAILY_TARGET
        } else {
            self.daily_target
        }
    }

    /// This state with `tab` shown.
    pub open spec fn with_tab(self, tab: Tab) -> App {
        App { tab: tab, ..self }
    }

    /// A dashboard over `stats`, on the live page, with the stored target
    /// (the default one when the store holds none).
    pub fn new(stats: Stats, stored_target: Option<u64>) -> (app: App)
        ensures
            app.stats == stats,
            app.tab == Tab::Live,
            !app.recorder_active,
            app.device_count == 0,
            app.keys_per_minute == 0,
            app.kpm_history@.len() == 0,
            app.refresh_error is None,
            app.daily_target == match stored_target {
                Some(t) => t,
                None => DEFAULT_DAILY_TARGET,
            },
            !app.editing_target,
            app.target_input@.len() == 0,
            app.target_error is None,
    {
        let daily_target = match stored_target {
            Some(t) => t,
            None => DEFAULT_DAILY_TARGET,
        };
        App {
            stats,
            tab: Tab::Live,
            recorder_active: false,
            device_count: 0,
            keys_per_minute: 0,
            kpm_history: VecDeque::new(),
            refresh_error: None,
            daily_target,
            editing_target: false,
            target_input: String::new(),
            target_error: None,
        }
    }

    pub fn effective_target(&self) -> (t: u64)
        ensures
            t == self.spec_effective_target(),
            t > 0,
    {
        if self.daily_target == 0 {
            DEFAULT_DAILY_TARGET
        } else {
            self.daily_target
        }
    }

    /// Opens the target editor, prefilled with the current goal.
    pub fn start_editing_target(&mut self)
        ensures
            final(self).editing_target,
            final(self).target_input@ == decimal(old(self).spec_effective_target() as nat),
            final(self).target_error is None,
            same_outside_editor(*old(self), *final(self)),
    {
        self.editing_target = true;
        self.target_input = decimal_text(self.effective_target());
        self.target_error = None;
    }

    /// Closes the target editor without storing anything.
    pub fn cancel_editing_target(&mut self)
        ensures
            !final(self).editing_target,
            final(self).target_input@.len() == 0,
            final(self).target_error is None,
            same_outside_editor(*old(self), *final(self)),
    {
        self.editing_target = false;
        self.target_input = String::new();
        self.target_error = None;
    }

    /// The target to store when the edit is confirmed; `None` when the typed
    /// text is not a positive number.
    pub fn target_to_confirm(&self) -> (t: Option<u64>)
        ensures
            t == daily_target_value(self.target_input@),
    {
        parse_daily_target(self.target_input.as_str())
    }

    /// Applies the outcome of confirming the typed target and tells whether
    /// the new target took effect. A stored target closes the editor; a
    /// rejected or failed one keeps it open with an error message.
    pub fn confirm_target(&mut self, outcome: TargetOutcome) -> (done: bool)
        requires
            outcome is Rejected <==> daily_target_value(old(self).target_input@) is None,
            outcome matches TargetOutcome::Saved(t) ==> daily_target_value(
                old(self).target_input@,
            ) == Some(t),
        ensures
            done == outcome is Saved,
            match outcome {
                TargetOutcome::Saved(t) => {
                    &&& final(self).target_input@.len() == 0
                    &&& *final(self) == (App {
                        daily_target: t,
                        editing_target: false,
                        target_input: final(self).target_input,
                        target_error: None,
                        ..*old(self)
                    })
                },
                TargetOutcome::SaveFailed(message) => {
                    *final(self) == (App { target_error: Some(message), ..*old(self) })
                },
                TargetOutcome::Rejected => {
                    &&& final(self).target_error matches Some(m) && m@
                        == invalid_target_message()
                    &&& *final(self) == (App { target_error: final(self).target_error, ..*old(self) })
                },
            },
    {
        match outcome {
            TargetOutcome::Saved(t) => {
                self.daily_target = t;
                self.editing_target = false;
                self.target_input = String::new();
                self.target_error = None;
                true
            },
            TargetOutcome::SaveFailed(message) => {
                self.target_error = Some(message);
                false
            },
            TargetOutcome::Rejected => {
                let message = "Enter a positive number (e.g. 10000)";
                self.target_error = Some(message.to_string());
                false
            },
        }
    }

    /// Takes the target found in the store on a refresh; an open editor keeps
    /// the target it was opened with.
    pub fn sync_target(&mut self, stored: Option<u64>)
        ensures
            *final(self) == (App {
                daily_target: if !old(self).editing_target && stored is Some {
                    stored->0
                } else {
                    old(self).daily_target
                },
                ..*old(self)
            }),
    {
        if !self.editing_target {
            if let Some(t) = stored {
                self.daily_target = t;
            }
        }
    }

    /// Records a failed refresh; the shown statistics stay as they were.
    pub fn refresh_failed(&mut self, message: String)
        ensures
            *final(self) == (App { refresh_error: Some(message), ..*old(self) }),
    {
        self.refresh_error = Some(message);
    }

    /// Takes freshly loaded statistics and recorder status. When a sample is
    /// due (`gap_ms` milliseconds after the previous one), appends the
    /// current keys per minute to the history and returns `true`.
    pub fn apply_refresh(&mut self, stats: Stats, status: RecorderStatus, gap_ms: u64) -> (sampled:
        bool)
        ensures
            final(self).stats == stats,
            final(self).recorder_active == status.active,
            final(self).device_count == status.device_count,
            final(self).keys_per_minute == status.keys_per_minute,
            final(self).refresh_error is None,
            sampled == sample_due(old(self).kpm_history@, gap_ms),
            old(self).kpm_history@.len() == 0 ==> final(self).kpm_history@ == seq![
                status.keys_per_minute as u64,
            ],
            sampled ==> final(self).kpm_history@ == sampled_history(
                old(self).kpm_history@,
                status.keys_per_minute as u64,
                gap_ms,
            ),
            !sampled ==> final(self).kpm_history@ == old(self).kpm_history@,
            final(self).daily_target == old(self).daily_target,
            final(self).editing_target == old(self).editing_target,
            final(self).target_input == old(self).target_input,
            final(self).target_error == old(self).target_error,
            final(self).tab == old(self).tab,
    {
        let sampled = self.kpm_history.len() == 0 || gap_ms >= KPM_SAMPLE_MS;
        if sampled {
            if self.kpm_history.len() > 0 && gap_ms >= KPM_GAP_MS {
                self.kpm_history.push_back(0);
            }
            self.kpm_history.push_back(status.keys_per_minute as u64);
            let ghost pushed = self.kpm_history@;
            let ghost mut dropped: int = 0;
            while self.kpm_history.len() > KPM_HISTORY_LEN
                invariant
                    0 <= dropped <= pushed.len(),
                    self.kpm_history@ == pushed.skip(dropped),
                    pushed.len() > KPM_HISTORY_LEN ==> dropped <= pushed.len() - KPM_HISTORY_LEN,
                    pushed.len() <= KPM_HISTORY_LEN ==> dropped == 0,
                    self.daily_target == old(self).daily_target,
                    self.editing_target == old(self).editing_target,
                    self.target_input == old(self).target_input,
                    self.target_error == old(self).target_error,
                    self.tab == old(self).tab,
                decreases self.kpm_history@.len(),
            {
                let ghost before = self.kpm_history@;
                self.kpm_history.pop_front();
                proof {
                    assert(pushed.skip(dropped + 1) =~= before.drop_first());
                    dropped = dropped + 1;
                }
            }
            proof {
                if pushed.len() <= KPM_HISTORY_LEN {
                    assert(pushed.skip(0) =~= pushed);
                }
            }
        }
        self.stats = stats;
        self.recorder_active = status.active;
        self.device_count = status.device_count;
        self.keys_per_minute = status.keys_per_minute;
        self.refresh_error = None;
        sampled
    }

    /// The number of consecutive days with presses up to `today` (or up to
    /// yesterday while today has none).
    pub fn current_streak(&self, today: i32) -> (streak: usize)
        requires
            crate::calendar::is_day(today as int),
            self.stats.streak_days_fit(today),
        ensures
            self.stats.run_positive(self.stats.streak_start(today), streak as int),
            streak == 0 || self.stats.streak_start(today) - streak + 1 >= crate::calendar::DAY_MIN,
            self.stats.streak_start(today) - streak < crate::calendar::DAY_MIN
                || self.stats.day_total((self.stats.streak_start(today) - streak) as i32) == 0,
    {
        self.stats.streak_ending(today)
    }
}

/// Text without separator characters is left as it is by separator removal.
pub proof fn lemma_without_separators_noop(s: Seq<char>)
    requires
        forall|i: int| 0 <= i < s.len() ==> !is_target_separator(#[trigger] s[i]),
    ensures
        without_separators(s) == s,
    decreases s.len(),
{
    if s.len() > 0 {
        lemma_without_separators_noop(s.drop_last());
        assert(s.drop_last().push(s.last()) =~= s);
    }
}

/// A positive target written in decimal reads back as itself: confirming the
/// editor right after opening it keeps the goal.
pub proof fn lemma_decimal_target_round_trip(target: u64)
    requires
        target > 0,
    ensures
        daily_target_value(decimal(target as nat)) == Some(target),
{
    let d = decimal(target as nat);
    lemma_decimal(target as nat);
    assert(is_ascii_digit(d[0]));
    assert(is_ascii_digit(d[d.len() - 1]));
    lemma_trim_noop(d);
    lemma_without_separators_noop(d);
}

/// Opening the target editor and confirming it unchanged asks to store the
/// goal that was in effect.
pub proof fn lemma_edit_without_change_keeps_target(app: App)
    ensures
        daily_target_value(decimal(app.spec_effective_target() as nat)) == Some(
            app.spec_effective_target(),
        ),
{
    lemma_decimal_target_round_trip(app.spec_effective_target());
}

/// The keys-per-minute history never holds more than twenty-four samples
/// after a sample is taken, and the newest sample is the current speed.
pub proof fn lemma_sampled_history_bounded(history: Seq<u64>, kpm: u64, gap_ms: u64)
    ensures
        sampled_history(history, kpm, gap_ms).len() <= KPM_HISTORY_LEN,
        sampled_history(history, kpm, gap_ms).len() > 0,
        sampled_history(history, kpm, gap_ms).last() == kpm,
{
}

/// When and how a keys-per-minute sample extends the history. A sample is
/// taken on an empty history and otherwise three seconds or more after the
/// previous one. The first sample makes
/// the history exactly that sample, whatever the gap. After that the new
/// sample comes last; right before it stands a zero when at least six
/// seconds passed since the previous sample, and the previous newest sample
/// otherwise; before those, the newest earlier samples, in order; and no
/// more than twenty-four samples are kept.
pub proof fn lemma_sample_extends_history(history: Seq<u64>, kpm: u64, gap_ms: u64)
    ensures
        sample_due(history, gap_ms) <==> (history.len() == 0 || gap_ms >= 3000),
        history.len() == 0 ==> sampled_history(history, kpm, gap_ms) == seq![kpm],
        history.len() > 0 ==> {
            let out = sampled_history(history, kpm, gap_ms);
            let added: int = if gap_ms >= 6000 { 2 } else { 1 };
            let kept: int = if history.len() + added > 24 { 24 - added } else { history.len() as int };
            &&& out.len() == kept + added
            &&& out.len() <= 24
            &&& out.last() == kpm
            &&& gap_ms >= 6000 ==> out[out.len() - 2] == 0
            &&& gap_ms < 6000 ==> out[out.len() - 2] == history.last()
            &&& forall|i: int| 0 <= i < kept ==> #[trigger] out[i] == history[history.len() - kept + i]
        },
{
    if history.len() == 0 {
        assert(sampled_history(history, kpm, gap_ms) =~= seq![kpm]);
    }
}

} // verus!
