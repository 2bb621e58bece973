use vstd::prelude::*;

use std::collections::BTreeMap;
use vstd::std_specs::cmp::OrdSpec;
use vstd::std_specs::iter::IteratorSpec;
use vstd::string::StringSliceAdditionalSpecFns;

use crate::calendar::{
    format_iso_date, four_digit_year, is_day, iso_date_text, parse_iso_date, parsed_iso_date,
    read_date, read_date_text,
};
use crate::stats::{zero_hours, DayStats, Stats};

verus! {

broadcast use vstd::std_specs::btree::group_btree_axioms, vstd::laws_cmp::group_laws_cmp;

/// The daily keypress goal used until the user sets one.
pub const DEFAULT_DAILY_TARGET: u64 = 10_000;

/// What the background recorder last reported about itself.
#[derive(Clone, Copy, Debug)]
pub struct RecorderStatus {
    pub active: bool,
    pub device_count: usize,
    pub keys_per_minute: usize,
}

impl RecorderStatus {
    /// The status of a recorder that is not running.
    pub open spec fn is_inactive(&self) -> bool {
        !self.active && self.device_count == 0 && self.keys_per_minute == 0
    }

    pub fn inactive() -> (s: RecorderStatus)
        ensures
            s.is_inactive(),
    {
        RecorderStatus { active: false, device_count: 0, keys_per_minute: 0 }
    }
}

impl Default for RecorderStatus {
    fn default() -> (s: RecorderStatus)
        ensures
            s.is_inactive(),
    {
        RecorderStatus::inactive()
    }
}

/// One stored hourly count as the database holds it: the date's text, the
/// hour and the count.
pub type CountRecord = (String, i64, i64);

/// Why stored hourly counts could not be read back.
#[derive(Debug)]
pub enum StatsRowError {
    /// The date text is not a `YYYY-MM-DD` date; holds the text.
    InvalidDate(String),
    /// The hour is negative (or does not fit in a `usize`).
    NegativeHour,
    /// The hour is 24 or more; holds the hour.
    InvalidHour(usize),
    /// The count is negative.
    NegativeCount,
}

/// The first check that a stored record fails, in the order in which they are
/// made: date, hour sign, hour range, count sign.
pub open spec fn record_error(r: CountRecord) -> Option<StatsRowError> {
    row_error(r, parsed_iso_date(r.0@))
}

/// The hourly counts of `date` after setting, in order, the count of each
/// record whose date is `date` (later records replace earlier ones).
pub open spec fn records_hours(rs: Seq<CountRecord>, date: i32) -> Seq<u64>
    decreases rs.len(),
{
    if rs.len() == 0 {
        zero_hours()
    } else {
        let before = records_hours(rs.drop_last(), date);
        let r = rs.last();
        if parsed_iso_date(r.0@) == Some(date) {
            before.update(r.1 as int, r.2 as u64)
        } else {
            before
        }
    }
}

/// Some record names `date`.
pub open spec fn records_name(rs: Seq<CountRecord>, date: i32) -> bool {
    exists|i: int| 0 <= i < rs.len() && parsed_iso_date(#[trigger] rs[i].0@) == Some(date)
}

/// The first check that a stored record fails when its date text reads as
/// `date` (`None`: not a date), in the order in which they are made: date,
/// hour sign, hour range, count sign.
pub open spec fn row_error(r: CountRecord, date: Option<i32>) -> Option<StatsRowError> {
    if date is None {
        Some(StatsRowError::InvalidDate(r.0))
    } else if r.1 < 0 || r.1 > usize::MAX {
        Some(StatsRowError::NegativeHour)
    } else if r.1 >= 24 {
        Some(StatsRowError::InvalidHour(r.1 as usize))
    } else if r.2 < 0 {
        Some(StatsRowError::NegativeCount)
    } else {
        None
    }
}

/// The hourly counts of `date` after setting, in order, the count of each
/// record whose date reads as `date` (later records replace earlier ones),
/// `dates` holding what each record's date text reads as.
pub open spec fn rows_hours(rs: Seq<CountRecord>, dates: Seq<Option<i32>>, date: i32) -> Seq<u64>
    decreases rs.len(),
{
    if rs.len() == 0 {
        zero_hours()
    } else {
        let before = rows_hours(rs.drop_last(), dates.drop_last(), date);
        let r = rs.last();
        if dates.last() == Some(date) {
            before.update(r.1 as int, r.2 as u64)
        } else {
            before
        }
    }
}

/// Some entry of `dates` is `date`.
pub open spec fn names_date(dates: Seq<Option<i32>>, date: i32) -> bool {
    exists|i: int| 0 <= i < dates.len() && #[trigger] dates[i] == Some(date)
}

/// With each record's date taken as its text reads, the two descriptions of
/// the hourly counts agree.
proof fn lemma_rows_hours_parsed(rs: Seq<CountRecord>, dates: Seq<Option<i32>>, date: i32)
    requires
        rs.len() == dates.len(),
        forall|i: int| 0 <= i < rs.len() ==> #[trigger] dates[i] == parsed_iso_date(rs[i].0@),
    ensures
        rows_hours(rs, dates, date) == records_hours(rs, date),
    decreases rs.len(),
{
    if rs.len() > 0 {
        assert forall|i: int| 0 <= i < rs.len() - 1 implies #[trigger] dates.drop_last()[i]
            == parsed_iso_date(rs.drop_last()[i].0@) by {
            assert(dates.drop_last()[i] == dates[i]);
            assert(rs.drop_last()[i] == rs[i]);
        }
        lemma_rows_hours_parsed(rs.drop_last(), dates.drop_last(), date);
        assert(dates.last() == dates[rs.len() - 1]);
    }
}

/// Rebuilds the statistics from stored hourly counts, in the order given,
/// `dates[i]` being what the date text of `rows[i]` reads as. Fails on the
/// first record that does not hold a valid date, an hour of the day and a
/// non-negative count.
pub fn stats_from_dated_rows(rows: &Vec<CountRecord>, dates: &Vec<Option<i32>>) -> (r: Result<
    Stats,
    StatsRowError,
>)
    requires
        dates@.len() == rows@.len(),
    ensures
        match r {
            Ok(stats) => {
                &&& forall|i: int|
                    0 <= i < rows@.len() ==> row_error(#[trigger] rows@[i], dates@[i]) is None
                &&& forall|d: i32| #[trigger]
                    stats.days@.contains_key(d) <==> names_date(dates@, d)
                &&& forall|d: i32| #[trigger]
                    stats.day_hours(d) == rows_hours(rows@, dates@, d)
            },
            Err(e) => exists|k: int|
                0 <= k < rows@.len() && (forall|i: int|
                    0 <= i < k ==> row_error(#[trigger] rows@[i], dates@[i]) is None) && row_error(
                    #[trigger] rows@[k],
                    dates@[k],
                ) == Some(e),
        },
{
    let mut stats = Stats::new();
    let mut i: usize = 0;
    while i < rows.len()
        invariant
            i <= rows.len(),
            dates@.len() == rows@.len(),
            forall|j: int| 0 <= j < i ==> row_error(#[trigger] rows@[j], dates@[j]) is None,
            forall|d: i32| #[trigger]
                stats.days@.contains_key(d) <==> names_date(dates@.take(i as int), d),
            forall|d: i32| #[trigger]
                stats.day_hours(d) == rows_hours(rows@.take(i as int), dates@.take(i as int), d),
        decreases rows.len() - i,
    {
        let ghost prefix = rows@.take(i as int);
        let ghost next = rows@.take(i + 1);
        let ghost dprefix = dates@.take(i as int);
        let ghost dnext = dates@.take(i + 1);
        assert(next.drop_last() =~= prefix);
        assert(dnext.drop_last() =~= dprefix);
        let row = &rows[i];
        let date = match dates[i] {
            Some(date) => date,
            None => {
                return Err(StatsRowError::InvalidDate(row.0.clone()));
            },
        };
        if row.1 < 0 || row.1 as u64 > usize::MAX as u64 {
            return Err(StatsRowError::NegativeHour);
        }
        let hour = row.1 as usize;
        if hour >= 24 {
            return Err(StatsRowError::InvalidHour(hour));
        }
        if row.2 < 0 {
            return Err(StatsRowError::NegativeCount);
        }
        let count = row.2 as u64;
        assert(row_error(rows@[i as int], dates@[i as int]) is None);
        let ghost old_stats = stats;
        let mut hours = stats.hours_on(date);
        let ghost old_hours = hours@;
        hours[hour] = count;
        assert(hours@ == old_hours.update(hour as int, count));
        stats.days.insert(date, DayStats { hours });
        proof {
            assert forall|d: i32| #[trigger]
                stats.days@.contains_key(d) <==> names_date(dnext, d) by {
                if names_date(dnext, d) {
                    let w = choose|w: int| 0 <= w < dnext.len() && #[trigger] dnext[w] == Some(d);
                    if w < i {
                        assert(dprefix[w] == dnext[w]);
                    }
                }
                if names_date(dprefix, d) {
                    let w = choose|w: int| 0 <= w < dprefix.len() && #[trigger] dprefix[w] == Some(d);
                    assert(dnext[w] == dprefix[w]);
                }
                if d == date {
                    assert(dnext[i as int] == dates@[i as int]);
                }
            }
            assert forall|d: i32| #[trigger] stats.day_hours(d) == rows_hours(next, dnext, d) by {
                assert(next.last() == rows@[i as int]);
                assert(dnext.last() == dates@[i as int]);
                assert(rows_hours(next, dnext, d) == (if dates@[i as int] == Some(d) {
                    rows_hours(prefix, dprefix, d).update(hour as int, count)
                } else {
                    rows_hours(prefix, dprefix, d)
                }));
                assert(old_stats.day_hours(d) == rows_hours(prefix, dprefix, d));
                if d == date {
                    assert(stats.days@[d].hours@ == hours@);
                } else {
                    assert(stats.days@.contains_key(d) == old_stats.days@.contains_key(d));
                    if stats.days@.contains_key(d) {
                        assert(stats.days@[d] == old_stats.days@[d]);
                    }
                }
            }
        }
        i = i + 1;
    }
    assert(rows@.take(rows.len() as int) =~= rows@);
    assert(dates@.take(rows.len() as int) =~= dates@);
    Ok(stats)
}

/// Rebuilds the statistics from stored hourly counts, in the order given,
/// reading each date text as `YYYY-MM-DD`. Fails on the first record that
/// does not hold a valid date, an hour of the day and a non-negative count.
pub fn stats_from_rows(rows: &Vec<CountRecord>) -> (r: Result<Stats, StatsRowError>)
    ensures
        match r {
            Ok(stats) => {
                &&& forall|i: int| 0 <= i < rows@.len() ==> record_error(#[trigger] rows@[i]) is None
                &&& forall|d: i32| #[trigger]
                    stats.days@.contains_key(d) <==> records_name(rows@, d)
                &&& forall|d: i32| #[trigger]
                    stats.day_hours(d) == records_hours(rows@, d)
            },
            Err(e) => exists|k: int|
                0 <= k < rows@.len() && (forall|i: int|
                    0 <= i < k ==> record_error(#[trigger] rows@[i]) is None) && record_error(
                    #[trigger] rows@[k],
                ) == Some(e),
        },
{
    let mut dates: Vec<Option<i32>> = Vec::new();
    let mut i: usize = 0;
    while i < rows.len()
        invariant
            i <= rows.len(),
            dates@.len() == i,
            forall|j: int| 0 <= j < i ==> #[trigger] dates@[j] == parsed_iso_date(rows@[j].0@),
        decreases rows.len() - i,
    {
        dates.push(parse_iso_date(rows[i].0.as_str()));
        i = i + 1;
    }
    let r = stats_from_dated_rows(rows, &dates);
    proof {
        assert forall|j: int| 0 <= j < rows@.len() implies row_error(#[trigger] rows@[j], dates@[j])
            == record_error(rows@[j]) by {
            assert(dates@[j] == parsed_iso_date(rows@[j].0@));
        }
        match &r {
            Ok(stats) => {
                assert forall|d: i32| #[trigger] stats.day_hours(d) == records_hours(rows@, d) by {
                    lemma_rows_hours_parsed(rows@, dates@, d);
                }
                assert forall|d: i32| #[trigger] stats.days@.contains_key(d) <==> records_name(
                    rows@,
                    d,
                ) by {
                    if names_date(dates@, d) {
                        let w = choose|w: int| 0 <= w < dates@.len() && #[trigger] dates@[w] == Some(d);
                        assert(parsed_iso_date(rows@[w].0@) == Some(d));
                    }
                    if records_name(rows@, d) {
                        let w = choose|w: int|
                            0 <= w < rows@.len() && parsed_iso_date(#[trigger] rows@[w].0@) == Some(d);
                        assert(dates@[w] == Some(d));
                    }
                }
            },
            Err(e) => {
                let k = choose|k: int|
                    0 <= k < rows@.len() && (forall|i: int|
                        0 <= i < k ==> row_error(#[trigger] rows@[i], dates@[i]) is None) && row_error(
                        #[trigger] rows@[k],
                        dates@[k],
                    ) == Some(*e);
                assert(record_error(rows@[k]) == Some(*e));
                assert forall|i: int| 0 <= i < k implies record_error(#[trigger] rows@[i]) is None by {
                    assert(row_error(rows@[i], dates@[i]) is None);
                }
            },
        }
    }
    r
}

/// Counts to store, keyed by date and hour of the day.
pub type HourCounts = BTreeMap<(i32, usize), u64>;

/// `a` comes before `b`: by date, then by hour.
pub open spec fn key_before(a: (i32, usize), b: (i32, usize)) -> bool {
    a.0 < b.0 || (a.0 == b.0 && a.1 < b.1)
}

/// Keys that a `BTreeMap` hands out in increasing order come by date, then
/// by hour.
proof fn lemma_ordered_keys(keys: Seq<(i32, usize)>)
    requires
        vstd::std_specs::btree::increasing_seq(keys),
    ensures
        forall|i: int, j: int| 0 <= i < j < keys.len() ==> key_before(#[trigger] keys[i], #[trigger] keys[j]),
{
    assert(vstd::laws_cmp::obeys_cmp::<(i32, usize)>());
    assert forall|i: int, j: int| 0 <= i < j < keys.len() implies key_before(
        #[trigger] keys[i],
        #[trigger] keys[j],
    ) by {
        assert(keys[i].cmp_spec(&keys[j]) is Less);
    }
}

/// One hourly count as it is written to the database.
pub struct CountRow {
    pub date: i32,
    pub hour: usize,
    /// The date as `YYYY-MM-DD` text.
    pub date_text: String,
    pub count: i64,
}

/// `rows` store `counts`: one row per key, in key order, each with its
/// count and its date's text, which reads back as the date when the year has
/// four digits.
pub open spec fn rows_hold(counts: Map<(i32, usize), u64>, rows: Seq<CountRow>) -> bool {
    &&& rows.len() == counts.dom().len()
    &&& forall|i: int, j: int|
        0 <= i < j < rows.len() ==> key_before(
            (#[trigger] rows[i].date, rows[i].hour),
            (#[trigger] rows[j].date, rows[j].hour),
        )
    &&& forall|k: (i32, usize)| #[trigger]
        counts.contains_key(k) <==> exists|i: int|
            0 <= i < rows.len() && (#[trigger] rows[i].date, rows[i].hour) == k
    &&& forall|i: int|
        0 <= i < rows.len() ==> {
            &&& counts.contains_key((#[trigger] rows[i].date, rows[i].hour))
            &&& rows[i].count == counts[(rows[i].date, rows[i].hour)]
            &&& rows[i].date_text@ == iso_date_text(rows[i].date)
            &&& four_digit_year(rows[i].date as int) ==> parsed_iso_date(rows[i].date_text@)
                == Some(rows[i].date)
        }
}

/// A count was too large for the database's signed 64-bit integers.
#[derive(Debug)]
pub struct CountTooLarge;

/// The rows that store `counts`: one per key, in key order, each with its
/// date's text. Fails when some count does not fit in an `i64`.
pub fn count_rows(counts: &HourCounts) -> (r: Result<Vec<CountRow>, CountTooLarge>)
    requires
        forall|k: (i32, usize)| #[trigger] counts@.contains_key(k) ==> is_day(k.0 as int),
    ensures
        r is Err <==> exists|k: (i32, usize)| #[trigger]
            counts@.contains_key(k) && counts@[k] > i64::MAX,
        r matches Ok(rows) ==> rows_hold(counts@, rows@),
{
    let mut rows: Vec<CountRow> = Vec::new();
    let entries = counts.iter();
    let ghost keys = entries.remaining().map_values(|kv: (&(i32, usize), &u64)| *kv.0);
    proof {
        lemma_ordered_keys(keys);
    }
    for entry in it: entries
        invariant
            it.seq() == entries.remaining(),
            forall|i: int| 0 <= i < it.index() ==> *(#[trigger] it.seq()[i]).1 <= i64::MAX,
            forall|k: (i32, usize)| #[trigger] counts@.contains_key(k) ==> is_day(k.0 as int),
            it.seq().len() == counts@.dom().len(),
            forall|i: int|
                0 <= i < it.seq().len() ==> counts@.contains_key(*(#[trigger] it.seq()[i]).0)
                    && counts@[*it.seq()[i].0] == *it.seq()[i].1,
            forall|k: (i32, usize)| #[trigger] counts@.contains_key(k) ==> exists|i: int|
                0 <= i < it.seq().len() && *(#[trigger] it.seq()[i]).0 == k,
            keys.len() == it.seq().len(),
            forall|i: int| 0 <= i < keys.len() ==> #[trigger] keys[i] == *it.seq()[i].0,
            forall|i: int, j: int|
                0 <= i < j < keys.len() ==> key_before(#[trigger] keys[i], #[trigger] keys[j]),
            rows@.len() == it.index(),
            forall|i: int|
                0 <= i < it.index() ==> {
                    &&& (#[trigger] rows@[i].date, rows@[i].hour) == *it.seq()[i].0
                    &&& rows@[i].count == *it.seq()[i].1
                    &&& rows@[i].date_text@ == iso_date_text(rows@[i].date)
                    &&& four_digit_year(rows@[i].date as int) ==> parsed_iso_date(
                        rows@[i].date_text@,
                    ) == Some(rows@[i].date)
                },
    {
        let (key, count) = entry;
        if *count > i64::MAX as u64 {
            return Err(CountTooLarge);
        }
        let date_text = format_iso_date(key.0);
        rows.push(CountRow { date: key.0, hour: key.1, date_text, count: *count as i64 });
    }
    proof {
        assert forall|i: int, j: int| 0 <= i < j < rows@.len() implies key_before(
            (#[trigger] rows@[i].date, rows@[i].hour),
            (#[trigger] rows@[j].date, rows@[j].hour),
        ) by {
            assert(keys[i] == (rows@[i].date, rows@[i].hour));
            assert(keys[j] == (rows@[j].date, rows@[j].hour));
        }
        assert forall|k: (i32, usize)| #[trigger] counts@.contains_key(k) implies exists|i: int|
            0 <= i < rows@.len() && (#[trigger] rows@[i].date, rows@[i].hour) == k by {
            let i = choose|i: int| 0 <= i < keys.len() && *(#[trigger] entries.remaining()[i]).0 == k;
            assert((rows@[i].date, rows@[i].hour) == k);
        }
    }
    Ok(rows)
}

/// The record that the database gives back for a stored row.
pub open spec fn row_record(row: CountRow) -> CountRecord {
    (row.date_text, row.hour as i64, row.count)
}

/// The records that the database gives back for stored rows.
pub open spec fn row_records(rows: Seq<CountRow>) -> Seq<CountRecord> {
    rows.map_values(|r: CountRow| row_record(r))
}

/// Some row among the first `k` is for hour `h` of `date`.
pub open spec fn written_before(rows: Seq<CountRow>, k: int, date: i32, h: int) -> bool {
    exists|i: int| 0 <= i < k && #[trigger] rows[i].date == date && rows[i].hour == h
}

proof fn lemma_rows_hours_prefix(counts: Map<(i32, usize), u64>, rows: Seq<CountRow>, k: int)
    requires
        rows_hold(counts, rows),
        forall|key: (i32, usize)| #[trigger]
            counts.contains_key(key) ==> four_digit_year(key.0 as int) && key.1 < 24,
        0 <= k <= rows.len(),
    ensures
        forall|i: int|
            0 <= i < k ==> record_error(#[trigger] row_records(rows)[i])
                is None,
        forall|d: i32| #[trigger] records_hours(row_records(rows).take(k), d).len() == 24,
        forall|d: i32, h: int|
            0 <= h < 24 ==> #[trigger] records_hours(
                row_records(rows).take(k),
                d,
            )[h] == (if written_before(rows, k, d, h) {
                counts[(d, h as usize)] as int
            } else {
                0int
            }),
    decreases k,
{
    let records = row_records(rows);
    if k > 0 {
        lemma_rows_hours_prefix(counts, rows, k - 1);
        let prefix = records.take(k - 1);
        let next = records.take(k);
        assert(next.drop_last() =~= prefix);
        let row = rows[k - 1];
        let rec = records[k - 1];
        assert(next.last() == rec);
        assert(rec == row_record(row));
        assert(counts.contains_key((row.date, row.hour)));
        assert(four_digit_year(row.date as int) && row.hour < 24);
        assert(parsed_iso_date(rec.0@) == Some(row.date));
        assert(row.count == counts[(row.date, row.hour)]);
        assert(record_error(rec) is None);
        assert forall|d: i32| #[trigger] records_hours(next, d).len() == 24 by {
            assert(records_hours(prefix, d).len() == 24);
        }
        assert forall|d: i32, h: int| 0 <= h < 24 implies #[trigger] records_hours(next, d)[h] == (
        if written_before(rows, k, d, h) {
            counts[(d, h as usize)] as int
        } else {
            0int
        }) by {
            assert(records_hours(prefix, d)[h] == (if written_before(rows, k - 1, d, h) {
                counts[(d, h as usize)] as int
            } else {
                0int
            }));
            if row.date == d && row.hour == h {
                assert(written_before(rows, k, d, h));
                assert((d, h as usize) == (row.date, row.hour));
            } else {
                assert(written_before(rows, k, d, h) == written_before(rows, k - 1, d, h)) by {
                    if written_before(rows, k, d, h) {
                        let i = choose|i: int|
                            0 <= i < k && #[trigger] rows[i].date == d && rows[i].hour == h;
                        assert(i != k - 1);
                        assert(rows[i].date == d);
                    }
                    if written_before(rows, k - 1, d, h) {
                        let i = choose|i: int|
                            0 <= i < k - 1 && #[trigger] rows[i].date == d && rows[i].hour == h;
                        assert(rows[i].date == d);
                    }
                }
            }
        }
    }
}

/// Counts stored as rows read back as the same counts: when every date has a
/// four-digit year, the records that the rows give back are all valid (so
/// `stats_from_rows` succeeds on them), they name exactly the dates that have
/// counts, and each hour of each date holds its count, zero where none was
/// stored.
pub proof fn lemma_rows_read_back(counts: Map<(i32, usize), u64>, rows: Seq<CountRow>)
    requires
        rows_hold(counts, rows),
        forall|key: (i32, usize)| #[trigger]
            counts.contains_key(key) ==> four_digit_year(key.0 as int) && key.1 < 24,
    ensures
        forall|i: int|
            0 <= i < rows.len() ==> record_error(
                #[trigger] row_records(rows)[i],
            ) is None,
        forall|d: i32| #[trigger]
            records_name(row_records(rows), d) <==> exists|h: usize|
                #[trigger] counts.contains_key((d, h)),
        forall|d: i32, h: int|
            0 <= h < 24 ==> #[trigger] records_hours(row_records(rows), d)[h]
                == (if counts.contains_key((d, h as usize)) {
                counts[(d, h as usize)] as int
            } else {
                0int
            }),
{
    let records = row_records(rows);
    lemma_rows_hours_prefix(counts, rows, rows.len() as int);
    assert(records.take(rows.len() as int) =~= records);
    assert forall|d: i32, h: int| 0 <= h < 24 implies #[trigger] records_hours(records, d)[h] == (
    if counts.contains_key((d, h as usize)) {
        counts[(d, h as usize)] as int
    } else {
        0int
    }) by {
        if counts.contains_key((d, h as usize)) {
            let i = choose|i: int|
                0 <= i < rows.len() && (#[trigger] rows[i].date, rows[i].hour) == (d, h as usize);
            assert(rows[i].date == d);
            assert(written_before(rows, rows.len() as int, d, h));
        }
        if written_before(rows, rows.len() as int, d, h) {
            let i = choose|i: int|
                0 <= i < rows.len() && #[trigger] rows[i].date == d && rows[i].hour == h;
            assert(counts.contains_key((rows[i].date, rows[i].hour)));
            assert((rows[i].date, rows[i].hour) == (d, h as usize));
        }
    }
    assert forall|d: i32| #[trigger] records_name(records, d) <==> exists|h: usize|
        #[trigger] counts.contains_key((d, h)) by {
        if records_name(records, d) {
            let i = choose|i: int| 0 <= i < records.len() && parsed_iso_date(#[trigger] records[i].0@) == Some(d);
            assert(counts.contains_key((rows[i].date, rows[i].hour)));
            assert(parsed_iso_date(records[i].0@) == Some(rows[i].date));
            assert(counts.contains_key((d, rows[i].hour)));
        }
        if exists|h: usize| #[trigger] counts.contains_key((d, h)) {
            let h = choose|h: usize| #[trigger] counts.contains_key((d, h));
            let i = choose|i: int|
                0 <= i < rows.len() && (#[trigger] rows[i].date, rows[i].hour) == (d, h);
            assert(rows[i].date == d);
            assert(parsed_iso_date(records[i].0@) == Some(d));
        }
    }
}

/// The hourly counts that serialised statistics, given as `(date text,
/// hours)` entries in order, hold for `date`: those of the last entry whose
/// text reads as `date`; `None` when no entry does.
pub open spec fn legacy_day(days: Seq<(String, [u64; 24])>, date: i32) -> Option<Seq<u64>>
    decreases days.len(),
{
    if days.len() == 0 {
        None
    } else if read_date_text(days.last().0@) == Some(date) {
        Some(days.last().1@)
    } else {
        legacy_day(days.drop_last(), date)
    }
}

/// Builds statistics from serialised ones, given as `(date text, hours)`
/// entries; a later entry for the same date replaces an earlier one. Fails
/// with the first text that is not a date.
pub fn stats_from_legacy(days: &Vec<(String, [u64; 24])>) -> (r: Result<Stats, StatsRowError>)
    ensures
        match r {
            Ok(stats) => {
                &&& forall|i: int| 0 <= i < days@.len() ==> read_date_text(#[trigger] days@[i].0@) is Some
                &&& forall|d: i32| #[trigger] stats.days@.contains_key(d) <==> legacy_day(days@, d) is Some
                &&& forall|d: i32| #[trigger]
                    stats.days@.contains_key(d) ==> stats.days@[d].hours@ == legacy_day(days@, d)->0
            },
            Err(e) => exists|k: int|
                0 <= k < days@.len() && (forall|i: int|
                    0 <= i < k ==> read_date_text(#[trigger] days@[i].0@) is Some) && read_date_text(
                    #[trigger] days@[k].0@,
                ) is None && e == StatsRowError::InvalidDate(days@[k].0),
        },
{
    let mut stats = Stats::new();
    let mut i: usize = 0;
    while i < days.len()
        invariant
            i <= days.len(),
            forall|j: int| 0 <= j < i ==> read_date_text(#[trigger] days@[j].0@) is Some,
            forall|d: i32| #[trigger]
                stats.days@.contains_key(d) <==> legacy_day(days@.take(i as int), d) is Some,
            forall|d: i32| #[trigger]
                stats.days@.contains_key(d) ==> stats.days@[d].hours@ == legacy_day(
                    days@.take(i as int),
                    d,
                )->0,
        decreases days.len() - i,
    {
        let ghost prefix = days@.take(i as int);
        let ghost next = days@.take(i + 1);
        assert(next.drop_last() =~= prefix);
        assert(next.last() == days@[i as int]);
        let entry = &days[i];
        let date = match read_date(entry.0.as_str()) {
            Some(date) => date,
            None => {
                return Err(StatsRowError::InvalidDate(entry.0.clone()));
            },
        };
        let ghost old_stats = stats;
        stats.days.insert(date, DayStats { hours: entry.1 });
        proof {
            assert forall|d: i32| #[trigger]
                stats.days@.contains_key(d) <==> legacy_day(next, d) is Some by {
                if d != date {
                    assert(legacy_day(next, d) == legacy_day(prefix, d));
                }
            }
            assert forall|d: i32| #[trigger] stats.days@.contains_key(d) implies stats.days@[d].hours@
                == legacy_day(next, d)->0 by {
                if d != date {
                    assert(legacy_day(next, d) == legacy_day(prefix, d));
                    assert(stats.days@[d] == old_stats.days@[d]);
                }
            }
        }
        i = i + 1;
    }
    assert(days@.take(days.len() as int) =~= days@);
    Ok(stats)
}

/// Whether a migrated statistics file contributes a count for `key`.
pub open spec fn legacy_has(stats: Stats, key: (i32, usize)) -> bool {
    &&& stats.days@.contains_key(key.0)
    &&& key.1 < 24
    &&& stats.days@[key.0].hours@[key.1 as int] > 0
}

/// The non-zero hourly counts of `legacy`, keyed by date and hour: what a
/// one-time import of an older statistics file writes.
pub fn legacy_counts(legacy: &Stats) -> (counts: HourCounts)
    ensures
        forall|k: (i32, usize)| #[trigger]
            counts@.contains_key(k) <==> legacy_has(*legacy, k),
        forall|k: (i32, usize)| #[trigger]
            counts@.contains_key(k) ==> counts@[k] == legacy.days@[k.0].hours@[k.1 as int],
{
    let mut counts: HourCounts = BTreeMap::new();
    let entries = legacy.days.iter();
    let ghost seq = entries.remaining();
    let ghost mut done: int = 0;
    for entry in it: entries
        invariant
            it.seq() == seq,
            done == it.index(),
            it.seq().len() == legacy.days@.dom().len(),
            forall|i: int|
                0 <= i < it.seq().len() ==> legacy.days@.contains_key(*(#[trigger] it.seq()[i]).0)
                    && legacy.days@[*it.seq()[i].0] == *it.seq()[i].1,
            forall|d: i32| #[trigger] legacy.days@.contains_key(d) ==> exists|i: int|
                0 <= i < it.seq().len() && *(#[trigger] it.seq()[i]).0 == d,
            it.seq().no_duplicates(),
            forall|k: (i32, usize)| #[trigger]
                counts@.contains_key(k) <==> (legacy_has(*legacy, k) && exists|i: int|
                    0 <= i < it.index() && *(#[trigger] it.seq()[i]).0 == k.0),
            forall|k: (i32, usize)| #[trigger]
                counts@.contains_key(k) ==> counts@[k] == legacy.days@[k.0].hours@[k.1 as int],
    {
        let (date, day) = entry;
        let ghost idx = it.index();
        let mut hour: usize = 0;
        while hour < 24
            invariant
                hour <= 24,
                legacy.days@.contains_key(*date),
                legacy.days@[*date] == *day,
                forall|k: (i32, usize)| #[trigger]
                    counts@.contains_key(k) <==> (legacy_has(*legacy, k) && ((exists|i: int|
                        0 <= i < idx && *(#[trigger] it.seq()[i]).0 == k.0) || (k.0 == *date
                        && k.1 < hour))),
                forall|k: (i32, usize)| #[trigger]
                    counts@.contains_key(k) ==> counts@[k] == legacy.days@[k.0].hours@[k.1 as int],
            decreases 24 - hour,
        {
            let count = day.hours[hour];
            if count > 0 {
                counts.insert((*date, hour), count);
            }
            hour = hour + 1;
        }
        proof {
            assert forall|k: (i32, usize)| #[trigger] counts@.contains_key(k) <==> (legacy_has(
                *legacy,
                k,
            ) && exists|i: int| 0 <= i < idx + 1 && *(#[trigger] it.seq()[i]).0 == k.0) by {
                if k.0 == *date && legacy_has(*legacy, k) {
                    assert(*it.seq()[idx].0 == k.0);
                }
                if legacy_has(*legacy, k) && (exists|i: int|
                    0 <= i < idx + 1 && *(#[trigger] it.seq()[i]).0 == k.0) && k.0 != *date {
                    let i = choose|i: int| 0 <= i < idx + 1 && *(#[trigger] it.seq()[i]).0 == k.0;
                    assert(i < idx);
                }
            }
            done = done + 1;
        }
    }
    proof {
        assert(done == seq.len());
        assert forall|k: (i32, usize)| #[trigger] counts@.contains_key(k) <==> legacy_has(*legacy, k) by {
            if legacy_has(*legacy, k) {
                let i = choose|i: int| 0 <= i < seq.len() && *(#[trigger] seq[i]).0 == k.0;
                assert(i < done);
            }
        }
    }
    counts
}

/// Why a recorder status could not be written or read.
#[derive(Debug, PartialEq, Eq, Structural)]
pub enum StatusError {
    DeviceCountTooLarge,
    KeysPerMinuteTooLarge,
    NegativeDeviceCount,
    NegativeKeysPerMinute,
}

/// Seconds after its last heartbeat during which a recorder counts as live.
pub const HEARTBEAT_WINDOW_SECS: i64 = 3;

/// The values stored for a recorder heartbeat: the device count and the
/// keys per minute as signed 64-bit integers.
pub fn recorder_status_values(device_count: usize, keys_per_minute: usize) -> (r: Result<
    (i64, i64),
    StatusError,
>)
    ensures
        device_count > i64::MAX ==> r == Err::<(i64, i64), StatusError>(
            StatusError::DeviceCountTooLarge,
        ),
        device_count <= i64::MAX && keys_per_minute > i64::MAX ==> r == Err::<
            (i64, i64),
            StatusError,
        >(StatusError::KeysPerMinuteTooLarge),
        device_count <= i64::MAX && keys_per_minute <= i64::MAX ==> r == Ok::<
            (i64, i64),
            StatusError,
        >((device_count as i64, keys_per_minute as i64)),
{
    if device_count as u64 > i64::MAX as u64 {
        return Err(StatusError::DeviceCountTooLarge);
    }
    if keys_per_minute as u64 > i64::MAX as u64 {
        return Err(StatusError::KeysPerMinuteTooLarge);
    }
    Ok((device_count as i64, keys_per_minute as i64))
}

/// Interprets the stored heartbeat `(heartbeat, device_count, keys_per_minute)`
/// at time `now` (both in seconds). The recorder is live when a heartbeat is
/// stored and at most three seconds old; a recorder that is not live reports
/// the inactive status whatever else is stored.
pub fn recorder_status_from_row(row: Option<(i64, i64, i64)>, now: i64) -> (r: Result<
    RecorderStatus,
    StatusError,
>)
    ensures
        match row {
            None => r matches Ok(s) && s.is_inactive(),
            Some((heartbeat, devices, kpm)) => {
                if now - heartbeat > HEARTBEAT_WINDOW_SECS {
                    r matches Ok(s) && s.is_inactive()
                } else if devices < 0 || devices > usize::MAX {
                    r == Err::<RecorderStatus, StatusError>(StatusError::NegativeDeviceCount)
                } else if kpm < 0 || kpm > usize::MAX {
                    r == Err::<RecorderStatus, StatusError>(StatusError::NegativeKeysPerMinute)
                } else {
                    r matches Ok(s) && s.active && s.device_count == devices
                        && s.keys_per_minute == kpm
                }
            },
        },
{
    let (heartbeat, devices, kpm) = match row {
        None => {
            return Ok(RecorderStatus::inactive());
        },
        Some(values) => values,
    };
    let age = now as i128 - heartbeat as i128;
    if age > HEARTBEAT_WINDOW_SECS as i128 {
        return Ok(RecorderStatus::inactive());
    }
    if devices < 0 || devices as u64 > usize::MAX as u64 {
        return Err(StatusError::NegativeDeviceCount);
    }
    if kpm < 0 || kpm as u64 > usize::MAX as u64 {
        return Err(StatusError::NegativeKeysPerMinute);
    }
    Ok(RecorderStatus {
        active: true,
        device_count: devices as usize,
        keys_per_minute: kpm as usize,
    })
}

/// Neither `XDG_DATA_HOME` nor `HOME` is set.
#[derive(Debug)]
pub struct NoDataDirectory;

/// The bytes of an ASCII text.
pub open spec fn ascii_bytes(s: Seq<char>) -> Seq<u8> {
    s.map_values(|c: char| c as u8)
}

/// `PathBuf::join` of a relative path on Unix: a separator goes between the
/// two unless `base` is empty or already ends with one.
pub open spec fn join_path(base: Seq<u8>, rel: Seq<u8>) -> Seq<u8> {
    if base.len() == 0 {
        rel
    } else if base.last() == 47u8 {
        base + rel
    } else {
        base.push(47u8) + rel
    }
}

/// The data directory: `$XDG_DATA_HOME/keypulse` when that variable is set,
/// otherwise `$HOME/.local/share/keypulse`; `None` when neither is set.
pub open spec fn data_directory_of(xdg_data_home: Option<Seq<u8>>, home: Option<Seq<u8>>) -> Option<
    Seq<u8>,
> {
    match xdg_data_home {
        Some(x) => Some(join_path(x, ascii_bytes("keypulse"@))),
        None => match home {
            Some(h) => Some(join_path(h, ascii_bytes(".local/share/keypulse"@))),
            None => None,
        },
    }
}

/// The file `name` inside the data directory.
pub open spec fn data_file_of(
    xdg_data_home: Option<Seq<u8>>,
    home: Option<Seq<u8>>,
    name: Seq<char>,
) -> Option<Seq<u8>> {
    match data_directory_of(xdg_data_home, home) {
        Some(dir) => Some(join_path(dir, ascii_bytes(name))),
        None => None,
    }
}

pub open spec fn bytes_of(value: Option<&[u8]>) -> Option<Seq<u8>> {
    match value {
        Some(b) => Some(b@),
        None => None,
    }
}

/// The bytes of an ASCII string slice.
fn ascii_text_bytes(text: &str) -> (bytes: Vec<u8>)
    requires
        vstd::string::is_ascii(text),
    ensures
        bytes@ == ascii_bytes(text@),
{
    proof {
        vstd::string::is_ascii_spec_bytes(text);
    }
    let b = text.as_bytes();
    let mut out: Vec<u8> = Vec::new();
    let mut i: usize = 0;
    while i < b.len()
        invariant
            b@ == text.spec_bytes(),
            text.spec_bytes() =~= Seq::new(text@.len(), |k: int| text@[k] as u8),
            i <= b.len(),
            out@ == b@.take(i as int),
        decreases b.len() - i,
    {
        out.push(b[i]);
        i = i + 1;
        assert(out@ =~= b@.take(i as int));
    }
    assert(out@ =~= ascii_bytes(text@));
    out
}

/// `base` joined with the relative path `rel`.
fn join_bytes(base: &[u8], rel: &[u8]) -> (path: Vec<u8>)
    ensures
        path@ == join_path(base@, rel@),
{
    let mut out: Vec<u8> = Vec::new();
    let mut i: usize = 0;
    while i < base.len()
        invariant
            i <= base.len(),
            out@ == base@.take(i as int),
        decreases base.len() - i,
    {
        out.push(base[i]);
        i = i + 1;
        assert(out@ =~= base@.take(i as int));
    }
    assert(base@.take(base.len() as int) =~= base@);
    if base.len() > 0 && base[base.len() - 1] != 47u8 {
        out.push(47u8);
    }
    let ghost head = out@;
    let mut j: usize = 0;
    while j < rel.len()
        invariant
            j <= rel.len(),
            out@ == head + rel@.take(j as int),
        decreases rel.len() - j,
    {
        out.push(rel[j]);
        j = j + 1;
        assert(out@ =~= head + rel@.take(j as int));
    }
    assert(rel@.take(rel.len() as int) =~= rel@);
    assert(join_path(base@, rel@) =~= head + rel@);
    out
}

/// The data directory for the given values of `XDG_DATA_HOME` and `HOME`.
fn data_directory(xdg_data_home: Option<&[u8]>, home: Option<&[u8]>) -> (dir: Result<
    Vec<u8>,
    NoDataDirectory,
>)
    ensures
        match data_directory_of(bytes_of(xdg_data_home), bytes_of(home)) {
            Some(d) => dir matches Ok(p) && p@ == d,
            None => dir is Err,
        },
{
    match xdg_data_home {
        Some(x) => {
            let name = "keypulse";
            proof {
                reveal_strlit("keypulse");
            }
            let rel = ascii_text_bytes(name);
            Ok(join_bytes(x, rel.as_slice()))
        },
        None => match home {
            Some(h) => {
                let name = ".local/share/keypulse";
                proof {
                    reveal_strlit(".local/share/keypulse");
                }
                let rel = ascii_text_bytes(name);
                Ok(join_bytes(h, rel.as_slice()))
            },
            None => Err(NoDataDirectory),
        },
    }
}

/// The file `name` inside the data directory.
fn data_file(xdg_data_home: Option<&[u8]>, home: Option<&[u8]>, name: &str) -> (path: Result<
    Vec<u8>,
    NoDataDirectory,
>)
    requires
        vstd::string::is_ascii(name),
    ensures
        match data_file_of(bytes_of(xdg_data_home), bytes_of(home), name@) {
            Some(p) => path matches Ok(q) && q@ == p,
            None => path is Err,
        },
{
    let dir = data_directory(xdg_data_home, home)?;
    let rel = ascii_text_bytes(name);
    Ok(join_bytes(dir.as_slice(), rel.as_slice()))
}

/// The database file, given the values of `XDG_DATA_HOME` and `HOME`.
pub fn default_database_path(xdg_data_home: Option<&[u8]>, home: Option<&[u8]>) -> (path: Result<
    Vec<u8>,
    NoDataDirectory,
>)
    ensures
        match data_file_of(bytes_of(xdg_data_home), bytes_of(home), "keypulse.db"@) {
            Some(p) => path matches Ok(q) && q@ == p,
            None => path is Err,
        },
{
    proof {
        reveal_strlit("keypulse.db");
    }
    data_file(xdg_data_home, home, "keypulse.db")
}

/// The statistics file of older versions, given the values of
/// `XDG_DATA_HOME` and `HOME`.
pub fn legacy_json_path(xdg_data_home: Option<&[u8]>, home: Option<&[u8]>) -> (path: Result<
    Vec<u8>,
    NoDataDirectory,
>)
    ensures
        match data_file_of(bytes_of(xdg_data_home), bytes_of(home), "stats.json"@) {
            Some(p) => path matches Ok(q) && q@ == p,
            None => path is Err,
        },
{
    proof {
        reveal_strlit("stats.json");
    }
    data_file(xdg_data_home, home, "stats.json")
}

/// The lock file held by the running recorder, given the values of
/// `XDG_DATA_HOME` and `HOME`.
pub fn recorder_lock_path(xdg_data_home: Option<&[u8]>, home: Option<&[u8]>) -> (path: Result<
    Vec<u8>,
    NoDataDirectory,
>)
    ensures
        match data_file_of(bytes_of(xdg_data_home), bytes_of(home), "recorder.lock"@) {
            Some(p) => path matches Ok(q) && q@ == p,
            None => path is Err,
        },
{
    proof {
        reveal_strlit("recorder.lock");
    }
    data_file(xdg_data_home, home, "recorder.lock")
}

/// The lock file that serialises starting and stopping the recorder, given
/// the values of `XDG_DATA_HOME` and `HOME`.
pub fn recorder_control_lock_path(xdg_data_home: Option<&[u8]>, home: Option<&[u8]>) -> (path:
    Result<Vec<u8>, NoDataDirectory>)
    ensures
        match data_file_of(bytes_of(xdg_data_home), bytes_of(home), "recorder-control.lock"@) {
            Some(p) => path matches Ok(q) && q@ == p,
            None => path is Err,
        },
{
    proof {
        reveal_strlit("recorder-control.lock");
    }
    data_file(xdg_data_home, home, "recorder-control.lock")
}

/// The recorder's log file, given the values of `XDG_DATA_HOME` and `HOME`.
pub fn recorder_log_path(xdg_data_home: Option<&[u8]>, home: Option<&[u8]>) -> (path: Result<
    Vec<u8>,
    NoDataDirectory,
>)
    ensures
        match data_file_of(bytes_of(xdg_data_home), bytes_of(home), "recorder.log"@) {
            Some(p) => path matches Ok(q) && q@ == p,
            None => path is Err,
        },
{
    proof {
        reveal_strlit("recorder.log");
    }
    data_file(xdg_data_home, home, "recorder.log")
}

} // verus!
