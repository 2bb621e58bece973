use vstd::prelude::*;

use std::collections::BTreeMap;
use vstd::std_specs::iter::IteratorSpec;

use crate::calendar::{is_day, DAY_MAX, DAY_MIN};

verus! {

broadcast use vstd::std_specs::btree::group_btree_axioms, vstd::laws_cmp::group_laws_cmp;

/// Number of hourly buckets in one day.
pub const HOURS_PER_DAY: usize = 24;

/// The sum of a sequence of counts.
pub open spec fn sum_counts(s: Seq<u64>) -> int
    decreases s.len(),
{
    if s.len() == 0 {
        0
    } else {
        sum_counts(s.drop_last()) + s.last()
    }
}

/// Twenty-four zero counts.
pub open spec fn zero_hours() -> Seq<u64> {
    Seq::new(24, |h: int| 0u64)
}

/// Key presses of one day, one count per hour of the day.
pub struct DayStats {
    pub hours: [u64; 24],
}

impl DayStats {
    /// Presses over the whole day.
    pub open spec fn spec_total(&self) -> int {
        sum_counts(self.hours@)
    }

    /// A day without presses.
    pub fn empty() -> (d: DayStats)
        ensures
            d.hours@ == zero_hours(),
    {
        let d = DayStats { hours: [0u64; 24] };
        assert(d.hours@ =~= zero_hours());
        d
    }

    /// Presses over the whole day; the sum must fit in a `u64`.
    pub fn total(&self) -> (t: u64)
        requires
            self.spec_total() <= u64::MAX,
        ensures
            t == self.spec_total(),
    {
        let mut t: u64 = 0;
        let mut h: usize = 0;
        while h < 24
            invariant
                h <= 24,
                self.spec_total() <= u64::MAX,
                t == sum_counts(self.hours@.take(h as int)),
            decreases 24 - h,
        {
            proof {
                lemma_sum_counts_prefix_le(self.hours@, h as int + 1);
                assert(self.hours@.take(h as int + 1).drop_last() =~= self.hours@.take(h as int));
            }
            t = t + self.hours[h];
            h = h + 1;
        }
        assert(self.hours@.take(24) =~= self.hours@);
        t
    }
}

impl Default for DayStats {
    fn default() -> (d: DayStats)
        ensures
            d.hours@ == zero_hours(),
    {
        DayStats::empty()
    }
}

impl Default for Stats {
    fn default() -> (s: Stats)
        ensures
            s.days@ == Map::<i32, DayStats>::empty(),
    {
        Stats::new()
    }
}

/// Sums of prefixes never exceed the whole sum.
pub proof fn lemma_sum_counts_prefix_le(s: Seq<u64>, k: int)
    requires
        0 <= k <= s.len(),
    ensures
        0 <= sum_counts(s.take(k)) <= sum_counts(s),
    decreases s.len(),
{
    if k == s.len() {
        assert(s.take(k) =~= s);
        lemma_sum_counts_nonneg(s);
    } else {
        assert(s.drop_last().take(k) =~= s.take(k));
        lemma_sum_counts_prefix_le(s.drop_last(), k);
    }
}

pub proof fn lemma_sum_counts_nonneg(s: Seq<u64>)
    ensures
        sum_counts(s) >= 0,
    decreases s.len(),
{
    if s.len() > 0 {
        lemma_sum_counts_nonneg(s.drop_last());
    }
}

pub proof fn lemma_zero_hours_sum()
    ensures
        sum_counts(zero_hours()) == 0,
{
    assert forall|k: int| 0 <= k <= 24 implies sum_counts(#[trigger] zero_hours().take(k)) == 0 by {
        lemma_zero_prefix_sum(k);
    }
    assert(zero_hours().take(24) =~= zero_hours());
}

proof fn lemma_zero_prefix_sum(k: int)
    requires
        0 <= k <= 24,
    ensures
        sum_counts(zero_hours().take(k)) == 0,
    decreases k,
{
    if k > 0 {
        assert(zero_hours().take(k).drop_last() =~= zero_hours().take(k - 1));
        lemma_zero_prefix_sum(k - 1);
    }
}

/// Recorded key presses, by date (a day number, see `calendar`).
pub struct Stats {
    pub days: BTreeMap<i32, DayStats>,
}

/// The date `i` days after `first`.
pub open spec fn date_after(first: int, i: int) -> i32 {
    (first + i) as i32
}

impl Stats {
    /// Hourly counts of a date; a date without a record counts as
    /// twenty-four zeros.
    pub open spec fn day_hours(&self, date: i32) -> Seq<u64> {
        if self.days@.contains_key(date) {
            self.days@[date].hours@
        } else {
            zero_hours()
        }
    }

    /// Presses on a date.
    pub open spec fn day_total(&self, date: i32) -> int {
        sum_counts(self.day_hours(date))
    }

    /// Presses over the `n` consecutive dates starting at `first`.
    pub open spec fn window_total(&self, first: int, n: nat) -> int
        decreases n,
    {
        if n == 0 {
            0
        } else {
            self.window_total(first, (n - 1) as nat) + self.day_total(date_after(first, n - 1))
        }
    }

    /// Presses in hour `h` over the `n` consecutive dates starting at `first`.
    pub open spec fn window_hour_total(&self, first: int, n: nat, h: int) -> int
        decreases n,
    {
        if n == 0 {
            0
        } else {
            self.window_hour_total(first, (n - 1) as nat, h) + self.day_hours(
                date_after(first, n - 1),
            )[h]
        }
    }

    /// The `count` dates ending at `end`, oldest first, are all representable.
    pub open spec fn window_in_range(end: i32, count: nat) -> bool {
        &&& is_day(end as int)
        &&& (count == 0 || end - count + 1 >= DAY_MIN)
    }

    /// The daily totals over the `count` dates ending at `end` each fit in a `u64`.
    pub open spec fn window_days_fit(&self, end: i32, count: nat) -> bool {
        forall|i: int|
            0 <= i < count ==> #[trigger] self.day_total(date_after(end - count + 1, i))
                <= u64::MAX
    }

    /// Stats without any recorded day.
    pub fn new() -> (s: Stats)
        ensures
            s.days@ == Map::<i32, DayStats>::empty(),
    {
        Stats { days: BTreeMap::new() }
    }

    /// Presses on `date`; zero for a date without a record.
    pub fn total_on(&self, date: i32) -> (t: u64)
        requires
            self.day_total(date) <= u64::MAX,
        ensures
            t == self.day_total(date),
    {
        match self.days.get(&date) {
            Some(day) => day.total(),
            None => {
                proof {
                    lemma_zero_hours_sum();
                }
                0
            },
        }
    }

    /// Hourly counts of `date`; all zero for a date without a record.
    pub fn hours_on(&self, date: i32) -> (hours: [u64; 24])
        ensures
            hours@ == self.day_hours(date),
    {
        match self.days.get(&date) {
            Some(day) => day.hours,
            None => {
                let d = DayStats::empty();
                d.hours
            },
        }
    }

    /// Counts one press on `date` in hour `hour`.
    pub fn record(&mut self, date: i32, hour: usize)
        requires
            hour < 24,
            old(self).day_hours(date)[hour as int] < u64::MAX,
        ensures
            final(self).days@.dom() == old(self).days@.dom().insert(date),
            final(self).day_hours(date) == old(self).day_hours(date).update(
                hour as int,
                (old(self).day_hours(date)[hour as int] + 1) as u64,
            ),
            forall|d: i32| d != date ==> #[trigger] final(self).days@.contains_key(d) ==> final(self).days@[d] == old(self).days@[d],
    {
        let mut hours = self.hours_on(date);
        hours[hour] = hours[hour] + 1;
        self.days.insert(date, DayStats { hours });
    }

    /// The `count` dates ending at `end`, oldest first, each with its number
    /// of presses; dates without a record count as zero.
    pub fn last_days(&self, end: i32, count: usize) -> (days: Vec<(i32, u64)>)
        requires
            Self::window_in_range(end, count as nat),
            self.window_days_fit(end, count as nat),
        ensures
            days@.len() == count,
            forall|i: int|
                0 <= i < count ==> #[trigger] days@[i] == (
                    date_after(end - count + 1, i),
                    self.day_total(date_after(end - count + 1, i)) as u64,
                ),
    {
        let mut days: Vec<(i32, u64)> = Vec::new();
        let mut i: usize = 0;
        while i < count
            invariant
                Self::window_in_range(end, count as nat),
                self.window_days_fit(end, count as nat),
                i <= count,
                days@.len() == i,
                forall|j: int|
                    0 <= j < i ==> #[trigger] days@[j] == (
                        date_after(end - count + 1, j),
                        self.day_total(date_after(end - count + 1, j)) as u64,
                    ),
            decreases count - i,
        {
            let offset = (count - 1 - i) as i32;
            let date = end - offset;
            assert(date == date_after(end - count + 1, i as int));
            let total = self.total_on(date);
            days.push((date, total));
            i = i + 1;
        }
        days
    }

    /// The mean number of presses per date over the `count` dates ending at
    /// `end`, rounded down; zero when `count` is zero.
    pub fn average_for_days(&self, end: i32, count: usize) -> (avg: u64)
        requires
            Self::window_in_range(end, count as nat),
            self.window_total(end - count + 1, count as nat) <= u64::MAX,
        ensures
            count == 0 ==> avg == 0,
            count > 0 ==> avg == self.window_total(end - count + 1, count as nat) / (count as int),
    {
        if count == 0 {
            return 0;
        }
        proof {
            self.lemma_window_terms_fit(end - count + 1, count as nat);
        }
        let days = self.last_days(end, count);
        let mut total: u64 = 0;
        let mut i: usize = 0;
        while i < days.len()
            invariant
                days@.len() == count,
                i <= count,
                self.window_total(end - count + 1, count as nat) <= u64::MAX,
                forall|j: int|
                    0 <= j < count ==> #[trigger] days@[j] == (
                        date_after(end - count + 1, j),
                        self.day_total(date_after(end - count + 1, j)) as u64,
                    ),
                total == self.window_total(end - count + 1, i as nat),
            decreases count - i,
        {
            proof {
                self.lemma_window_total_monotone(end - count + 1, (i + 1) as nat, count as nat);
                self.lemma_day_total_nonneg(date_after(end - count + 1, i as int));
            }
            total = total + days[i].1;
            i = i + 1;
        }
        total / count as u64
    }

    /// Presses on `date`, or `None` when they do not fit in a `u64`.
    pub fn checked_total_on(&self, date: i32) -> (t: Option<u64>)
        ensures
            t is Some <==> self.day_total(date) <= u64::MAX,
            t matches Some(v) ==> v == self.day_total(date),
    {
        let hours = self.hours_on(date);
        let mut t: u64 = 0;
        let mut h: usize = 0;
        while h < 24
            invariant
                h <= 24,
                hours@ == self.day_hours(date),
                t == sum_counts(hours@.take(h as int)),
            decreases 24 - h,
        {
            proof {
                lemma_sum_counts_prefix_le(hours@, h + 1);
                assert(hours@.take(h + 1).drop_last() =~= hours@.take(h as int));
            }
            match t.checked_add(hours[h]) {
                Some(v) => {
                    t = v;
                },
                None => {
                    return None;
                },
            }
            h = h + 1;
        }
        assert(hours@.take(24) =~= hours@);
        Some(t)
    }

    /// The presses over the `count` dates ending at `end`, or `None` when
    /// those dates are not all representable or their sum does not fit in a
    /// `u64`: the test that the window functions above ask of their callers.
    pub fn checked_window_total(&self, end: i32, count: usize) -> (t: Option<u64>)
        ensures
            t is Some <==> Self::window_in_range(end, count as nat) && self.window_total(
                end - count + 1,
                count as nat,
            ) <= u64::MAX,
            t matches Some(v) ==> v == self.window_total(end - count + 1, count as nat),
    {
        if end < DAY_MIN || end > DAY_MAX {
            return None;
        }
        if count as u64 > (end as i64 - DAY_MIN as i64 + 1) as u64 {
            return None;
        }
        let ghost first: int = end - count + 1;
        let mut total: u64 = 0;
        let mut i: usize = 0;
        while i < count
            invariant
                Self::window_in_range(end, count as nat),
                first == end - count + 1,
                i <= count,
                total == self.window_total(first, i as nat),
            decreases count - i,
        {
            let date = end - (count - 1 - i) as i32;
            assert(date == date_after(first, i as int));
            proof {
                self.lemma_window_total_monotone(first, (i + 1) as nat, count as nat);
                self.lemma_day_total_nonneg(date);
            }
            let day = match self.checked_total_on(date) {
                Some(v) => v,
                None => {
                    return None;
                },
            };
            match total.checked_add(day) {
                Some(v) => {
                    total = v;
                },
                None => {
                    return None;
                },
            }
            i = i + 1;
        }
        Some(total)
    }

    /// For each hour of the day, the presses in that hour summed over the
    /// `days` dates ending at `end`.
    pub fn aggregate_hours(&self, end: i32, days: usize) -> (result: [u64; 24])
        requires
            Self::window_in_range(end, days as nat),
            self.window_days_fit(end, days as nat),
            forall|h: int|
                0 <= h < 24 ==> #[trigger] self.window_hour_total(end - days + 1, days as nat, h)
                    <= u64::MAX,
        ensures
            forall|h: int|
                0 <= h < 24 ==> #[trigger] result@[h] == self.window_hour_total(
                    end - days + 1,
                    days as nat,
                    h,
                ),
    {
        let mut result = [0u64; 24];
        let range = self.last_days(end, days);
        let mut i: usize = 0;
        while i < range.len()
            invariant
                range@.len() == days,
                i <= days,
                forall|j: int|
                    0 <= j < days ==> #[trigger] range@[j].0 == date_after(end - days + 1, j),
                forall|h: int|
                    0 <= h < 24 ==> #[trigger] self.window_hour_total(end - days + 1, days as nat, h)
                        <= u64::MAX,
                forall|h: int|
                    0 <= h < 24 ==> #[trigger] result@[h] == self.window_hour_total(
                        end - days + 1,
                        i as nat,
                        h,
                    ),
            decreases days - i,
        {
            let date = range[i].0;
            let hours = self.hours_on(date);
            let ghost before = result@;
            let mut h: usize = 0;
            while h < 24
                invariant
                    h <= 24,
                    i < days,
                    hours@ == self.day_hours(date_after(end - days + 1, i as int)),
                    forall|g: int|
                        0 <= g < 24 ==> #[trigger] self.window_hour_total(end - days + 1, days as nat, g)
                            <= u64::MAX,
                    forall|g: int| 0 <= g < 24 ==> #[trigger] before[g] == self.window_hour_total(
                        end - days + 1,
                        i as nat,
                        g,
                    ),
                    forall|g: int| 0 <= g < h ==> #[trigger] result@[g] == self.window_hour_total(
                        end - days + 1,
                        (i + 1) as nat,
                        g,
                    ),
                    forall|g: int| h <= g < 24 ==> #[trigger] result@[g] == before[g],
                decreases 24 - h,
            {
                proof {
                    self.lemma_window_hour_total_monotone(
                        end - days + 1,
                        (i + 1) as nat,
                        days as nat,
                        h as int,
                    );
                }
                result[h] = result[h] + hours[h];
                h = h + 1;
            }
            i = i + 1;
        }
        result
    }

    /// Every recorded day has a total that fits in a `u64`.
    pub open spec fn totals_fit(&self) -> bool {
        forall|d: i32| #[trigger] self.days@.contains_key(d) ==> self.day_total(d) <= u64::MAX
    }

    /// The recorded date with the most presses and that number; among dates
    /// with equally many presses, the latest one. `None` when nothing is recorded.
    pub fn best_day(&self) -> (best: Option<(i32, u64)>)
        requires
            self.totals_fit(),
        ensures
            best is None <==> self.days@.dom().len() == 0,
            best matches Some((date, total)) ==> {
                &&& self.days@.contains_key(date)
                &&& total == self.day_total(date)
                &&& forall|d: i32| #[trigger] self.days@.contains_key(d) ==> {
                    &&& self.day_total(d) <= total
                    &&& self.day_total(d) == total ==> d <= date
                }
            },
    {
        let mut best: Option<(i32, u64)> = None;
        for entry in it: self.days.iter()
            invariant
                self.totals_fit(),
                it.seq().len() == self.days@.dom().len(),
                forall|i: int|
                    0 <= i < it.seq().len() ==> self.days@.contains_key(*(#[trigger] it.seq()[i]).0)
                        && self.days@[*it.seq()[i].0] == *it.seq()[i].1,
                forall|d: i32| #[trigger] self.days@.contains_key(d) ==> exists|i: int| 0 <= i < it.seq().len() && *(#[trigger] it.seq()[i]).0 == d,
                best is None <==> it.index() == 0,
                best matches Some((date, total)) ==> {
                    &&& self.days@.contains_key(date)
                    &&& total == self.day_total(date)
                    &&& forall|i: int| 0 <= i < it.index() ==> {
                        &&& self.day_total(*(#[trigger] it.seq()[i]).0) <= total
                        &&& self.day_total(*it.seq()[i].0) == total ==> *it.seq()[i].0 <= date
                    }
                },
        {
            let (date, day) = entry;
            let total = day.total();
            let replace = match best {
                None => true,
                Some((best_date, best_total)) => total > best_total || (total == best_total
                    && *date >= best_date),
            };
            if replace {
                best = Some((*date, total));
            }
        }
        best
    }

    /// Where a streak ending at `today` is counted from: `today` when it has
    /// presses, otherwise the day before (when there is one).
    pub open spec fn streak_start(&self, today: i32) -> int {
        if self.day_total(today) == 0 && today > DAY_MIN {
            today - 1
        } else {
            today as int
        }
    }

    /// The `i` dates counted back from `start` all have presses.
    pub open spec fn run_positive(&self, start: int, i: int) -> bool {
        forall|j: int| 0 <= j < i ==> #[trigger] self.day_total((start - j) as i32) > 0
    }

    /// Each date that a streak count looks at has a total that fits in a `u64`.
    pub open spec fn streak_days_fit(&self, today: i32) -> bool {
        &&& self.day_total(today) <= u64::MAX
        &&& forall|i: int|
            0 <= i && self.streak_start(today) - i >= DAY_MIN && self.run_positive(
                self.streak_start(today),
                i,
            ) ==> #[trigger] self.day_total((self.streak_start(today) - i) as i32) <= u64::MAX
    }

    /// The number of consecutive days with presses that ends today, or that
    /// ends yesterday when today has none yet.
    pub fn streak_ending(&self, today: i32) -> (streak: usize)
        requires
            is_day(today as int),
            self.streak_days_fit(today),
        ensures
            self.run_positive(self.streak_start(today), streak as int),
            streak == 0 || self.streak_start(today) - streak + 1 >= DAY_MIN,
            self.streak_start(today) - streak < DAY_MIN || self.day_total(
                (self.streak_start(today) - streak) as i32,
            ) == 0,
    {
        let ghost start = self.streak_start(today);
        let mut cursor = if self.total_on(today) == 0 {
            if today > DAY_MIN {
                today - 1
            } else {
                today
            }
        } else {
            today
        };
        let mut streak: usize = 0;
        loop
            invariant_except_break
                cursor == start - streak,
            invariant
                is_day(today as int),
                self.streak_days_fit(today),
                start == self.streak_start(today),
                DAY_MIN <= cursor <= today,
                self.run_positive(start, streak as int),
                streak == 0 || start - streak + 1 >= DAY_MIN,
            ensures
                self.run_positive(start, streak as int),
                streak == 0 || start - streak + 1 >= DAY_MIN,
                start - streak < DAY_MIN || self.day_total((start - streak) as i32) == 0,
            decreases cursor - DAY_MIN,
        {
            assert(self.day_total((start - streak) as i32) <= u64::MAX);
            if self.total_on(cursor) == 0 {
                break;
            }
            streak = streak + 1;
            if cursor == DAY_MIN {
                break;
            }
            cursor = cursor - 1;
        }
        streak
    }

    /// Whether every date that a streak count from `today` looks at has a
    /// total that fits in a `u64`: the test that `streak_ending` asks of its
    /// callers.
    pub fn streak_fits(&self, today: i32) -> (fits: bool)
        requires
            is_day(today as int),
        ensures
            fits == self.streak_days_fit(today),
    {
        let first = match self.checked_total_on(today) {
            Some(t) => t,
            None => {
                return false;
            },
        };
        let ghost start = self.streak_start(today);
        let mut cursor = if first == 0 {
            if today > DAY_MIN {
                today - 1
            } else {
                today
            }
        } else {
            today
        };
        let ghost mut streak: int = 0;
        loop
            invariant
                is_day(today as int),
                self.day_total(today) <= u64::MAX,
                start == self.streak_start(today),
                DAY_MIN <= cursor <= today,
                0 <= streak,
                cursor == start - streak,
                self.run_positive(start, streak),
                forall|i: int| 0 <= i < streak ==> #[trigger] self.day_total((start - i) as i32) <= u64::MAX,
            decreases cursor - DAY_MIN,
        {
            match self.checked_total_on(cursor) {
                None => {
                    assert(self.day_total((start - streak) as i32) > u64::MAX);
                    return false;
                },
                Some(t) => {
                    if t == 0 {
                        proof {
                            assert forall|i: int|
                                0 <= i && start - i >= DAY_MIN && self.run_positive(start, i)
                                    implies #[trigger] self.day_total((start - i) as i32)
                                <= u64::MAX by {
                                if i > streak {
                                    assert(self.day_total((start - streak) as i32) > 0);
                                }
                            }
                        }
                        return true;
                    }
                },
            }
            proof {
                streak = streak + 1;
            }
            if cursor == DAY_MIN {
                proof {
                    assert forall|i: int|
                        0 <= i && start - i >= DAY_MIN && self.run_positive(start, i)
                            implies #[trigger] self.day_total((start - i) as i32) <= u64::MAX by {
                        assert(i < streak);
                    }
                }
                return true;
            }
            cursor = cursor - 1;
        }
    }

    /// Whether every recorded day has a total that fits in a `u64`: the test
    /// that `best_day` asks of its callers.
    pub fn totals_all_fit(&self) -> (fits: bool)
        ensures
            fits == self.totals_fit(),
    {
        let entries = self.days.iter();
        let ghost seq = entries.remaining();
        for entry in it: entries
            invariant
                it.seq() == seq,
                forall|i: int|
                    0 <= i < seq.len() ==> self.days@.contains_key(*(#[trigger] seq[i]).0)
                        && self.days@[*seq[i].0] == *seq[i].1,
                forall|d: i32| #[trigger] self.days@.contains_key(d) ==> exists|i: int|
                    0 <= i < seq.len() && *(#[trigger] seq[i]).0 == d,
                forall|i: int|
                    0 <= i < it.index() ==> #[trigger] self.day_total(*seq[i].0) <= u64::MAX,
        {
            let (date, _day) = entry;
            if self.checked_total_on(*date).is_none() {
                return false;
            }
        }
        proof {
            assert forall|d: i32| #[trigger] self.days@.contains_key(d) implies self.day_total(d)
                <= u64::MAX by {
                let i = choose|i: int| 0 <= i < seq.len() && *(#[trigger] seq[i]).0 == d;
                assert(self.day_total(*seq[i].0) <= u64::MAX);
            }
        }
        true
    }

    /// The presses over all recorded days, or `None` when the sum does not
    /// fit in a `u64`: the test that `all_time_total` asks of its callers.
    pub fn checked_all_time_total(&self) -> (total: Option<u64>)
        ensures
            total is Some <==> days_total(self.days@) <= u64::MAX,
            total matches Some(t) ==> t == days_total(self.days@),
    {
        let entries = self.days.iter();
        let ghost seq = entries.remaining();
        let ghost mut rest = self.days@;
        let mut total: u64 = 0;
        for entry in it: entries
            invariant
                it.seq() == seq,
                seq.len() == self.days@.dom().len(),
                seq.no_duplicates(),
                forall|i: int|
                    0 <= i < seq.len() ==> self.days@.contains_key(*(#[trigger] seq[i]).0)
                        && self.days@[*seq[i].0] == *seq[i].1,
                rest.dom().finite(),
                forall|d: i32| #[trigger] rest.dom().contains(d) <==> (self.days@.dom().contains(d)
                    && forall|i: int| 0 <= i < it.index() ==> *(#[trigger] seq[i]).0 != d),
                forall|d: i32| #[trigger] rest.dom().contains(d) ==> rest[d] == self.days@[d],
                total + days_total(rest) == days_total(self.days@),
        {
            let (date, day) = entry;
            let ghost i = it.index();
            proof {
                assert forall|j: int| 0 <= j < i implies *(#[trigger] seq[j]).0 != *date by {
                    if *seq[j].0 == *date {
                        assert(seq[j] == seq[i]);
                    }
                }
                assert(rest.dom().contains(*date));
                lemma_days_total_remove(rest, *date);
                lemma_days_total_nonneg(rest.remove(*date));
                lemma_sum_counts_nonneg(day.hours@);
            }
            let day_total = match self.checked_total_on(*date) {
                Some(t) => t,
                None => {
                    return None;
                },
            };
            total = match total.checked_add(day_total) {
                Some(t) => t,
                None => {
                    return None;
                },
            };
            proof {
                rest = rest.remove(*date);
            }
        }
        proof {
            assert(rest.dom().len() == 0) by {
                if rest.dom().len() > 0 {
                    let d = rest.dom().choose();
                    assert(rest.dom().contains(d));
                }
            }
        }
        Some(total)
    }

    /// The hourly sums over the `days` dates ending at `end`, or `None` when
    /// those dates are not all representable, some day's total does not fit
    /// in a `u64` or some hour's sum does not: the test that
    /// `aggregate_hours` asks of its callers, with its result.
    pub fn checked_aggregate_hours(&self, end: i32, days: usize) -> (result: Option<[u64; 24]>)
        ensures
            result is Some <==> {
                &&& Self::window_in_range(end, days as nat)
                &&& self.window_days_fit(end, days as nat)
                &&& forall|h: int|
                    0 <= h < 24 ==> #[trigger] self.window_hour_total(end - days + 1, days as nat, h)
                        <= u64::MAX
            },
            result matches Some(r) ==> forall|h: int|
                0 <= h < 24 ==> #[trigger] r@[h] == self.window_hour_total(
                    end - days + 1,
                    days as nat,
                    h,
                ),
    {
        if end < DAY_MIN || end > DAY_MAX {
            return None;
        }
        if days as u64 > (end as i64 - DAY_MIN as i64 + 1) as u64 {
            return None;
        }
        let ghost first: int = end - days + 1;
        let mut i: usize = 0;
        while i < days
            invariant
                Self::window_in_range(end, days as nat),
                first == end - days + 1,
                i <= days,
                forall|j: int| 0 <= j < i ==> #[trigger] self.day_total(date_after(first, j)) <= u64::MAX,
            decreases days - i,
        {
            let date = end - (days - 1 - i) as i32;
            assert(date == date_after(first, i as int));
            if self.checked_total_on(date).is_none() {
                return None;
            }
            i = i + 1;
        }
        let mut result = [0u64; 24];
        let mut i: usize = 0;
        while i < days
            invariant
                Self::window_in_range(end, days as nat),
                self.window_days_fit(end, days as nat),
                first == end - days + 1,
                i <= days,
                forall|h: int|
                    0 <= h < 24 ==> #[trigger] result@[h] == self.window_hour_total(first, i as nat, h),
            decreases days - i,
        {
            let date = end - (days - 1 - i) as i32;
            assert(date == date_after(first, i as int));
            let hours = self.hours_on(date);
            let ghost before = result@;
            let mut h: usize = 0;
            while h < 24
                invariant
                    h <= 24,
                    i < days,
                    first == end - days + 1,
                    hours@ == self.day_hours(date_after(first, i as int)),
                    forall|g: int| 0 <= g < 24 ==> #[trigger] before[g] == self.window_hour_total(
                        first,
                        i as nat,
                        g,
                    ),
                    forall|g: int| 0 <= g < h ==> #[trigger] result@[g] == self.window_hour_total(
                        first,
                        (i + 1) as nat,
                        g,
                    ),
                    forall|g: int| h <= g < 24 ==> #[trigger] result@[g] == before[g],
                decreases 24 - h,
            {
                proof {
                    self.lemma_window_hour_total_monotone(first, (i + 1) as nat, days as nat, h as int);
                }
                match result[h].checked_add(hours[h]) {
                    Some(v) => {
                        result[h] = v;
                    },
                    None => {
                        assert(self.window_hour_total(first, days as nat, h as int) > u64::MAX);
                        return None;
                    },
                }
                h = h + 1;
            }
            i = i + 1;
        }
        assert forall|h: int| 0 <= h < 24 implies #[trigger] self.window_hour_total(
            end - days + 1,
            days as nat,
            h,
        ) <= u64::MAX by {
            assert(result@[h] == self.window_hour_total(first, days as nat, h));
        }
        Some(result)
    }

    pub proof fn lemma_day_total_nonneg(&self, date: i32)
        ensures
            self.day_total(date) >= 0,
    {
        lemma_sum_counts_nonneg(self.day_hours(date));
    }

    /// Windows only grow as dates are added.
    pub proof fn lemma_window_total_monotone(&self, first: int, k: nat, n: nat)
        requires
            k <= n,
        ensures
            0 <= self.window_total(first, k) <= self.window_total(first, n),
        decreases n,
    {
        if k < n {
            self.lemma_window_total_monotone(first, k, (n - 1) as nat);
            self.lemma_day_total_nonneg(date_after(first, n - 1));
        } else if n > 0 {
            self.lemma_window_total_monotone(first, (n - 1) as nat, (n - 1) as nat);
            self.lemma_day_total_nonneg(date_after(first, n - 1));
        }
    }

    proof fn lemma_window_hour_total_monotone(&self, first: int, k: nat, n: nat, h: int)
        requires
            k <= n,
            0 <= h < 24,
        ensures
            0 <= self.window_hour_total(first, k, h) <= self.window_hour_total(first, n, h),
        decreases n,
    {
        let hours = self.day_hours(date_after(first, n - 1));
        if self.days@.contains_key(date_after(first, n - 1)) {
            assert(hours.len() == 24);
        }
        if k < n {
            self.lemma_window_hour_total_monotone(first, k, (n - 1) as nat, h);
        } else if n > 0 {
            self.lemma_window_hour_total_monotone(first, (n - 1) as nat, (n - 1) as nat, h);
        }
    }

    /// Each date of a window whose total fits has a total that fits.
    pub proof fn lemma_window_terms_fit(&self, first: int, n: nat)
        requires
            self.window_total(first, n) <= u64::MAX,
        ensures
            forall|i: int| 0 <= i < n ==> #[trigger] self.day_total(date_after(first, i)) <= u64::MAX,
        decreases n,
    {
        if n > 0 {
            self.lemma_window_total_monotone(first, (n - 1) as nat, (n - 1) as nat);
            self.lemma_day_total_nonneg(date_after(first, n - 1));
            self.lemma_window_terms_fit(first, (n - 1) as nat);
        }
    }
}

/// Changing one count changes the sum by the difference.
pub proof fn lemma_sum_counts_update(s: Seq<u64>, h: int, v: u64)
    requires
        0 <= h < s.len(),
    ensures
        sum_counts(s.update(h, v)) == sum_counts(s) - s[h] + v,
    decreases s.len(),
{
    let t = s.update(h, v);
    if h == s.len() - 1 {
        assert(t.drop_last() =~= s.drop_last());
    } else {
        assert(t.drop_last() =~= s.drop_last().update(h, v));
        lemma_sum_counts_update(s.drop_last(), h, v);
    }
}

/// Counting a press adds exactly one to that day's total and to that hour.
pub proof fn lemma_record_adds_one(before: Stats, after: Stats, date: i32, hour: usize)
    requires
        hour < 24,
        before.day_hours(date)[hour as int] < u64::MAX,
        after.day_hours(date) == before.day_hours(date).update(
            hour as int,
            (before.day_hours(date)[hour as int] + 1) as u64,
        ),
    ensures
        after.day_total(date) == before.day_total(date) + 1,
        after.day_hours(date)[hour as int] == before.day_hours(date)[hour as int] + 1,
{
    let h = before.day_hours(date);
    if before.days@.contains_key(date) {
        assert(h.len() == 24);
    }
    lemma_sum_counts_update(h, hour as int, (h[hour as int] + 1) as u64);
}

/// The sum of the first `k` counts of `s`.
pub open spec fn prefix_sum(s: Seq<u64>, k: int) -> int
    decreases k,
{
    if k <= 0 {
        0
    } else {
        prefix_sum(s, k - 1) + s[k - 1]
    }
}

proof fn lemma_prefix_sum_is_sum(s: Seq<u64>, k: int)
    requires
        0 <= k <= s.len(),
    ensures
        prefix_sum(s, k) == sum_counts(s.take(k)),
    decreases k,
{
    if k > 0 {
        lemma_prefix_sum_is_sum(s, k - 1);
        assert(s.take(k).drop_last() =~= s.take(k - 1));
    }
}

impl Stats {
    /// The presses of hours `0..k` summed over the window of `n` dates
    /// starting at `first`.
    pub open spec fn window_hours_total(&self, first: int, n: nat, k: int) -> int
        decreases k,
    {
        if k <= 0 {
            0
        } else {
            self.window_hours_total(first, n, k - 1) + self.window_hour_total(first, n, k - 1)
        }
    }

    proof fn lemma_window_hours_step(&self, first: int, n: nat, k: int)
        requires
            n > 0,
            0 <= k <= 24,
        ensures
            self.window_hours_total(first, n, k) == self.window_hours_total(first, (n - 1) as nat, k)
                + prefix_sum(self.day_hours(date_after(first, n - 1)), k),
        decreases k,
    {
        if k > 0 {
            self.lemma_window_hours_step(first, n, k - 1);
        }
    }

    proof fn lemma_window_hours_empty(&self, first: int, k: int)
        requires
            0 <= k <= 24,
        ensures
            self.window_hours_total(first, 0, k) == 0,
        decreases k,
    {
        if k > 0 {
            self.lemma_window_hours_empty(first, k - 1);
        }
    }

    /// Summed over the hours of the day, the hourly aggregate of a window is
    /// the window's total: the hourly rhythm and the daily bars count the same
    /// presses.
    pub proof fn lemma_aggregate_matches_totals(&self, first: int, n: nat)
        ensures
            self.window_hours_total(first, n, 24) == self.window_total(first, n),
        decreases n,
    {
        if n == 0 {
            self.lemma_window_hours_empty(first, 24);
        } else {
            self.lemma_aggregate_matches_totals(first, (n - 1) as nat);
            self.lemma_window_hours_step(first, n, 24);
            let hours = self.day_hours(date_after(first, n - 1));
            if self.days@.contains_key(date_after(first, n - 1)) {
                assert(hours.len() == 24);
            }
            lemma_prefix_sum_is_sum(hours, 24);
            assert(hours.take(24) =~= hours);
        }
    }
}

/// Presses over all the days of `days`.
pub open spec fn days_total(days: Map<i32, DayStats>) -> int
    decreases days.dom().len(),
    when days.dom().finite()
{
    if days.dom().len() == 0 {
        0
    } else {
        let d = days.dom().choose();
        sum_counts(days[d].hours@) + days_total(days.remove(d))
    }
}

/// Taking any one day out of the total leaves the total of the others.
pub proof fn lemma_days_total_remove(days: Map<i32, DayStats>, d: i32)
    requires
        days.dom().finite(),
        days.dom().contains(d),
    ensures
        days_total(days) == sum_counts(days[d].hours@) + days_total(days.remove(d)),
    decreases days.dom().len(),
{
    let c = days.dom().choose();
    assert(days.dom().len() > 0);
    if c != d {
        let without_c = days.remove(c);
        let without_d = days.remove(d);
        assert(without_c.dom().contains(d));
        assert(without_d.dom().contains(c));
        lemma_days_total_remove(without_c, d);
        lemma_days_total_remove(without_d, c);
        assert(without_c.remove(d) =~= without_d.remove(c));
    }
}

pub proof fn lemma_days_total_nonneg(days: Map<i32, DayStats>)
    requires
        days.dom().finite(),
    ensures
        days_total(days) >= 0,
    decreases days.dom().len(),
{
    if days.dom().len() > 0 {
        let d = days.dom().choose();
        lemma_days_total_nonneg(days.remove(d));
        lemma_sum_counts_nonneg(days[d].hours@);
    }
}

impl Stats {
    /// Presses over all recorded days; the sum must fit in a `u64`.
    pub fn all_time_total(&self) -> (total: u64)
        requires
            days_total(self.days@) <= u64::MAX,
        ensures
            total == days_total(self.days@),
    {
        let entries = self.days.iter();
        let ghost seq = entries.remaining();
        let ghost mut rest = self.days@;
        let mut total: u64 = 0;
        for entry in it: entries
            invariant
                it.seq() == seq,
                seq.len() == self.days@.dom().len(),
                seq.no_duplicates(),
                forall|i: int|
                    0 <= i < seq.len() ==> self.days@.contains_key(*(#[trigger] seq[i]).0)
                        && self.days@[*seq[i].0] == *seq[i].1,
                days_total(self.days@) <= u64::MAX,
                rest.dom().finite(),
                forall|d: i32| #[trigger] rest.dom().contains(d) <==> (self.days@.dom().contains(d)
                    && forall|i: int| 0 <= i < it.index() ==> *(#[trigger] seq[i]).0 != d),
                forall|d: i32| #[trigger] rest.dom().contains(d) ==> rest[d] == self.days@[d],
                total + days_total(rest) == days_total(self.days@),
        {
            let (date, day) = entry;
            let ghost i = it.index();
            proof {
                assert forall|j: int| 0 <= j < i implies *(#[trigger] seq[j]).0 != *date by {
                    if *seq[j].0 == *date {
                        assert(seq[j] == seq[i]);
                    }
                }
                assert(rest.dom().contains(*date));
                lemma_days_total_remove(rest, *date);
                lemma_days_total_nonneg(rest.remove(*date));
                lemma_sum_counts_nonneg(day.hours@);
            }
            let day_total = day.total();
            total = total + day_total;
            proof {
                rest = rest.remove(*date);
            }
        }
        proof {
            assert(rest.dom().len() == 0) by {
                if rest.dom().len() > 0 {
                    let d = rest.dom().choose();
                    assert(rest.dom().contains(d));
                }
            }
        }
        total
    }
}

} // verus!
