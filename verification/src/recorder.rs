use vstd::prelude::*;

use std::collections::{BTreeMap, VecDeque};

use crate::calendar::is_day;
use crate::capture::CaptureEvent;
use crate::store::HourCounts;
use crate::text::{
    all_ascii_digits, chars_of, digits_value, is_ascii_digit, is_ascii_digit_char,
    lemma_digits_value_grows, trim, trim_bounds,
};

verus! {

broadcast use vstd::std_specs::btree::group_btree_axioms, vstd::laws_cmp::group_laws_cmp;

/// Milliseconds between two writes of the recorder's counts.
pub const FLUSH_INTERVAL_MS: u64 = 500;

/// Milliseconds that a freshly started recorder has to report itself live.
pub const STARTUP_TIMEOUT_MS: u64 = 3_000;

/// Milliseconds that a stopping recorder has to finish writing.
pub const STOP_TIMEOUT_MS: u64 = 10_000;

/// What to do while waiting for a freshly started recorder.
#[derive(Clone, Copy, Debug, PartialEq, Eq, Structural)]
pub enum StartupStep {
    /// It reports itself live and holds its lock: done.
    Ready,
    /// It exited before becoming ready: fail.
    Exited,
    /// It did not become ready in time: stop it and fail.
    TimedOut,
    /// Look again shortly.
    Wait,
}

/// The next step of waiting for a started recorder, `elapsed_ms`
/// milliseconds after starting it: readiness counts first, then an early
/// exit, then the deadline.
pub fn startup_step(ready: bool, exited: bool, elapsed_ms: u64) -> (step: StartupStep)
    ensures
        step == (if ready {
            StartupStep::Ready
        } else if exited {
            StartupStep::Exited
        } else if elapsed_ms >= STARTUP_TIMEOUT_MS {
            StartupStep::TimedOut
        } else {
            StartupStep::Wait
        }),
{
    if ready {
        StartupStep::Ready
    } else if exited {
        StartupStep::Exited
    } else if elapsed_ms >= STARTUP_TIMEOUT_MS {
        StartupStep::TimedOut
    } else {
        StartupStep::Wait
    }
}

/// How long a key press counts toward the keys-per-minute figure, in
/// nanoseconds.
pub const RECENT_WINDOW_NANOS: i128 = 60_000_000_000;

/// Number of leading presses of `recent` that are more than a minute older
/// than `now`.
pub open spec fn stale_prefix(recent: Seq<i128>, now: i128) -> nat
    decreases recent.len(),
{
    if recent.len() > 0 && now - recent[0] > RECENT_WINDOW_NANOS {
        1 + stale_prefix(recent.drop_first(), now)
    } else {
        0
    }
}

/// The recent presses kept at time `now`: none when the oldest lies in the
/// future (the clock went back), otherwise all but the leading ones that are
/// more than a minute old.
pub open spec fn pruned(recent: Seq<i128>, now: i128) -> Seq<i128> {
    if recent.len() > 0 && recent[0] > now {
        Seq::empty()
    } else {
        recent.skip(stale_prefix(recent, now) as int)
    }
}

/// Whether a press at `pressed` is more than a minute older than `now`.
fn is_stale(pressed: i128, now: i128) -> (b: bool)
    ensures
        b == (now - pressed > RECENT_WINDOW_NANOS),
{
    match now.checked_sub(pressed) {
        Some(age) => age > RECENT_WINDOW_NANOS,
        None => now > pressed,
    }
}

/// The recorder's memory between two writes to the database.
pub struct RecorderState {
    /// Presses not yet stored, by date and hour.
    pub pending: HourCounts,
    /// Times of recent presses, in nanoseconds since the Unix epoch.
    pub recent: VecDeque<i128>,
    /// Number of keyboards watched.
    pub device_count: usize,
}

impl RecorderState {
    /// Every pending key names a representable date and an hour of the day.
    pub open spec fn pending_keys_valid(&self) -> bool {
        forall|k: (i32, usize)| #[trigger]
            self.pending@.contains_key(k) ==> is_day(k.0 as int) && k.1 < 24
    }

    /// The pending count of `key`, zero when absent.
    pub open spec fn pending_count(&self, key: (i32, usize)) -> int {
        if self.pending@.contains_key(key) {
            self.pending@[key] as int
        } else {
            0
        }
    }

    /// A recorder that has seen nothing yet.
    pub fn new() -> (s: RecorderState)
        ensures
            s.pending@ == Map::<(i32, usize), u64>::empty(),
            s.recent@ == Seq::<i128>::empty(),
            s.device_count == 0,
            s.pending_keys_valid(),
    {
        RecorderState { pending: BTreeMap::new(), recent: VecDeque::new(), device_count: 0 }
    }

    /// Takes one event into account: a press, made at `now` on `date` in
    /// `hour`, adds one to that hour's pending count and is remembered as
    /// recent; a device report replaces the device count.
    pub fn handle_event(&mut self, event: CaptureEvent, date: i32, hour: usize, now: i128)
        requires
            is_day(date as int),
            hour < 24,
            event is KeyPress ==> old(self).pending_count((date, hour)) < u64::MAX,
        ensures
            old(self).pending_keys_valid() ==> final(self).pending_keys_valid(),
            match event {
                CaptureEvent::KeyPress => {
                    &&& final(self).pending@ == old(self).pending@.insert(
                        (date, hour),
                        (old(self).pending_count((date, hour)) + 1) as u64,
                    )
                    &&& final(self).recent@ == old(self).recent@.push(now)
                    &&& final(self).device_count == old(self).device_count
                },
                CaptureEvent::Devices(names) => {
                    &&& final(self).pending@ == old(self).pending@
                    &&& final(self).recent@ == old(self).recent@
                    &&& final(self).device_count == names@.len()
                },
            },
    {
        match event {
            CaptureEvent::KeyPress => {
                let key = (date, hour);
                let count = match self.pending.get(&key) {
                    Some(c) => *c,
                    None => 0,
                };
                self.pending.insert(key, count + 1);
                self.recent.push_back(now);
            },
            CaptureEvent::Devices(names) => {
                self.device_count = names.len();
            },
        }
    }

    /// Forgets the pending counts once they are stored.
    pub fn clear_pending(&mut self)
        ensures
            final(self).pending@ == Map::<(i32, usize), u64>::empty(),
            final(self).recent@ == old(self).recent@,
            final(self).device_count == old(self).device_count,
            final(self).pending_keys_valid(),
    {
        self.pending.clear();
    }

    /// Drops the presses that no longer count toward keys per minute at `now`.
    pub fn prune_recent(&mut self, now: i128)
        ensures
            final(self).recent@ == pruned(old(self).recent@, now),
            final(self).pending@ == old(self).pending@,
            final(self).device_count == old(self).device_count,
    {
        if self.recent.len() > 0 && self.recent[0] > now {
            self.recent.clear();
            return;
        }
        let ghost start = self.recent@;
        let ghost mut dropped: nat = 0;
        while self.recent.len() > 0 && is_stale(self.recent[0], now)
            invariant
                dropped <= start.len(),
                self.recent@ == start.skip(dropped as int),
                stale_prefix(start, now) == dropped + stale_prefix(self.recent@, now),
                self.pending@ == old(self).pending@,
                self.device_count == old(self).device_count,
            decreases self.recent@.len(),
        {
            let ghost before = self.recent@;
            self.recent.pop_front();
            proof {
                assert(self.recent@ == before.drop_first());
                assert(start.skip(dropped + 1int) =~= before.drop_first());
                dropped = dropped + 1;
            }
        }
        proof {
            if start.len() > 0 {
                assert(start[0] <= now);
            }
        }
    }

    /// Presses in the last minute, after pruning.
    pub fn recent_count(&self) -> (n: usize)
        ensures
            n == self.recent@.len(),
    {
        self.recent.len()
    }
}

/// The process ID that `text` holds: optional surrounding whitespace around
/// an optionally signed decimal number that fits in an `i32`.
pub open spec fn pid_value(text: Seq<char>) -> Option<i32> {
    let t = trim(text);
    let negative = t.len() > 0 && t[0] == '-';
    let digits = if t.len() > 0 && (t[0] == '-' || t[0] == '+') {
        t.drop_first()
    } else {
        t
    };
    let magnitude = digits_value(digits);
    if digits.len() == 0 || !all_ascii_digits(digits) {
        None
    } else if negative && magnitude <= 0x8000_0000 {
        Some((-magnitude) as i32)
    } else if !negative && magnitude <= 0x7fff_ffff {
        Some(magnitude as i32)
    } else {
        None
    }
}

/// Reads the process ID written in the recorder's lock file.
pub fn parse_pid(contents: &str) -> (pid: Option<i32>)
    ensures
        pid == pid_value(contents@),
{
    let chars = chars_of(contents);
    let (start, end) = trim_bounds(&chars);
    let ghost t = chars@.subrange(start as int, end as int);
    assert(t == trim(contents@));
    if start == end {
        return None;
    }
    let negative = chars[start] == '-';
    let first = if chars[start] == '-' || chars[start] == '+' {
        start + 1
    } else {
        start
    };
    let ghost digits = chars@.subrange(first as int, end as int);
    assert(t[0] == chars@[start as int]);
    assert(digits =~= (if t[0] == '-' || t[0] == '+' {
        t.drop_first()
    } else {
        t
    }));
    if first == end {
        return None;
    }
    let mut value: u64 = 0;
    let mut i: usize = first;
    while i < end
        invariant
            first <= i <= end <= chars.len(),
            digits == chars@.subrange(first as int, end as int),
            t == trim(contents@),
            t.len() > 0,
            digits == (if t[0] == '-' || t[0] == '+' {
                t.drop_first()
            } else {
                t
            }),
            negative == (t[0] == '-'),
            all_ascii_digits(digits.take(i - first)),
            value <= 0x8000_0001,
            value == 0x8000_0001 <==> digits_value(digits.take(i - first)) > 0x8000_0000,
            value < 0x8000_0001 ==> value == digits_value(digits.take(i - first)),
        decreases end - i,
    {
        let c = chars[i];
        let ghost before = digits.take(i - first);
        proof {
            assert(digits.take(i + 1 - first) =~= before.push(c));
        }
        if !is_ascii_digit_char(c) {
            assert(!all_ascii_digits(digits)) by {
                assert(digits[i - first] == c);
            }
            return None;
        }
        proof {
            lemma_digits_value_grows(before, c);
            assert(all_ascii_digits(before.push(c))) by {
                assert forall|k: int| 0 <= k < before.len() + 1 implies is_ascii_digit(
                    #[trigger] before.push(c)[k],
                ) by {
                    if k < before.len() {
                        assert(before.push(c)[k] == before[k]);
                    }
                }
            }
        }
        if value < 0x8000_0001 {
            let next = value * 10 + (c as u32 - '0' as u32) as u64;
            value = if next > 0x8000_0000 {
                0x8000_0001
            } else {
                next
            };
        }
        i = i + 1;
    }
    assert(digits.take(end - first) =~= digits);
    if negative {
        if value <= 0x8000_0000 {
            Some((0 - value as i64) as i32)
        } else {
            None
        }
    } else if value <= 0x7fff_ffff {
        Some(value as i32)
    } else {
        None
    }
}

} // verus!
