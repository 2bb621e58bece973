use vstd::prelude::*;

use std::collections::VecDeque;

use crate::app::{daily_target_value, is_target_separator, tab_at, tab_index, without_separators, Tab};
use crate::calendar::{format_weekday, is_day, weekday_text, DAY_MIN};
use crate::stats::{date_after, Stats};
use crate::text::{
    decimal, decimal_chars, digit_char, is_ascii_digit, is_whitespace, lemma_decimal,
    lemma_trim_noop, push_char, string_from,
};

verus! {

/// `digits` with a comma before each digit whose distance from the end is a
/// positive multiple of three, counted over the first `n` digits.
pub open spec fn grouped_prefix(digits: Seq<char>, n: int) -> Seq<char>
    decreases n,
{
    if n <= 0 {
        Seq::empty()
    } else {
        let before = grouped_prefix(digits, n - 1);
        if n - 1 > 0 && (digits.len() - (n - 1)) % 3 == 0 {
            before.push(',').push(digits[n - 1])
        } else {
            before.push(digits[n - 1])
        }
    }
}

/// The decimal representation of `value` with thousands separated by commas.
pub open spec fn grouped_count(value: nat) -> Seq<char> {
    grouped_prefix(decimal(value), decimal(value).len() as int)
}

/// Writes `value` with commas between groups of three digits ("12,345").
pub fn format_count(value: u64) -> (text: String)
    ensures
        text@ == grouped_count(value as nat),
{
    let digits = decimal_chars(value);
    let mut out: Vec<char> = Vec::new();
    let mut i: usize = 0;
    while i < digits.len()
        invariant
            i <= digits.len(),
            out@ == grouped_prefix(digits@, i as int),
        decreases digits.len() - i,
    {
        if i > 0 && (digits.len() - i) % 3 == 0 {
            out.push(',');
        }
        out.push(digits[i]);
        i = i + 1;
    }
    string_from(&out)
}

/// Samples `values` at `width` evenly spaced positions, for drawing a series
/// across a given number of columns.
pub fn stretch_values(values: &[u64], width: usize) -> (out: Vec<u64>)
    requires
        width * values@.len() <= usize::MAX,
    ensures
        values@.len() == 0 || width == 0 ==> out@.len() == 0,
        values@.len() > 0 && width > 0 ==> out@.len() == width && forall|c: int|
            0 <= c < width ==> #[trigger] out@[c] == values@[c * values@.len() / (width as int)],
{
    let mut out: Vec<u64> = Vec::new();
    if values.len() == 0 || width == 0 {
        return out;
    }
    let mut column: usize = 0;
    while column < width
        invariant
            values@.len() > 0,
            width > 0,
            width * values@.len() <= usize::MAX,
            column <= width,
            out@.len() == column,
            forall|c: int|
                0 <= c < column ==> #[trigger] out@[c] == values@[c * values@.len() / (width as int)],
        decreases width - column,
    {
        proof {
            lemma_scaled_index(column as int, values@.len() as int, width as int);
        }
        let index = column * values.len() / width;
        out.push(values[index]);
        column = column + 1;
    }
    out
}

proof fn lemma_scaled_index(c: int, len: int, width: int)
    requires
        0 <= c < width,
        len > 0,
    ensures
        0 <= c * len <= width * len,
        0 <= c * len / width < len,
        c * len < width * len,
{
    assert(c * len < width * len) by (nonlinear_arith)
        requires
            0 <= c < width,
            len > 0,
    ;
    assert(0 <= c * len) by (nonlinear_arith)
        requires
            0 <= c,
            len > 0,
    ;
    assert(c * len / width < len) by (nonlinear_arith)
        requires
            0 <= c * len < width * len,
            width > 0,
    ;
    assert(0 <= c * len / width) by (nonlinear_arith)
        requires
            0 <= c * len,
            width > 0,
    ;
}

/// The colour band of a typing speed.
#[derive(Clone, Copy, Debug, PartialEq, Eq, Structural)]
pub enum SpeedColor {
    /// No typing.
    Muted,
    /// Below 60 keys per minute.
    Green,
    /// From 60 keys per minute.
    Blue,
    /// From 150 keys per minute.
    Orange,
    /// From 250 keys per minute.
    Red,
}

pub open spec fn speed_band(kpm: u64) -> SpeedColor {
    if kpm >= 250 {
        SpeedColor::Red
    } else if kpm >= 150 {
        SpeedColor::Orange
    } else if kpm >= 60 {
        SpeedColor::Blue
    } else if kpm > 0 {
        SpeedColor::Green
    } else {
        SpeedColor::Muted
    }
}

/// The speed colours are bands of increasing speed: no typing is muted, then
/// green below 60 keys per minute, blue from 60, orange from 150 and red from
/// 250; a faster speed never gets an earlier band.
pub proof fn lemma_speed_bands(slow: u64, fast: u64)
    ensures
        speed_band(0) == SpeedColor::Muted,
        slow >= 1 && slow < 60 ==> speed_band(slow) == SpeedColor::Green,
        slow >= 60 && slow < 150 ==> speed_band(slow) == SpeedColor::Blue,
        slow >= 150 && slow < 250 ==> speed_band(slow) == SpeedColor::Orange,
        slow >= 250 ==> speed_band(slow) == SpeedColor::Red,
        slow <= fast ==> speed_rank(speed_band(slow)) <= speed_rank(speed_band(fast)),
{
}

/// Position of a colour band, slowest first.
pub open spec fn speed_rank(color: SpeedColor) -> int {
    match color {
        SpeedColor::Muted => 0,
        SpeedColor::Green => 1,
        SpeedColor::Blue => 2,
        SpeedColor::Orange => 3,
        SpeedColor::Red => 4,
    }
}

/// The colour band of `kpm` keys per minute.
pub fn speed_color(kpm: u64) -> (color: SpeedColor)
    ensures
        color == speed_band(kpm),
{
    if kpm >= 250 {
        SpeedColor::Red
    } else if kpm >= 150 {
        SpeedColor::Orange
    } else if kpm >= 60 {
        SpeedColor::Blue
    } else if kpm > 0 {
        SpeedColor::Green
    } else {
        SpeedColor::Muted
    }
}

/// The recorder state shown in the header.
#[derive(Clone, Copy, Debug, PartialEq, Eq, Structural)]
pub enum HeaderStatus {
    /// The last refresh failed.
    Stale,
    /// The recorder is not running.
    Off,
    /// The recorder runs but watches no keyboard.
    Locked,
    /// The recorder is counting.
    Live,
}

/// The header's recorder state: a failed refresh first, then a stopped
/// recorder, then one without keyboards.
pub fn header_status(refresh_failed: bool, recorder_active: bool, device_count: usize) -> (status:
    HeaderStatus)
    ensures
        status == (if refresh_failed {
            HeaderStatus::Stale
        } else if !recorder_active {
            HeaderStatus::Off
        } else if device_count == 0 {
            HeaderStatus::Locked
        } else {
            HeaderStatus::Live
        }),
{
    if refresh_failed {
        HeaderStatus::Stale
    } else if !recorder_active {
        HeaderStatus::Off
    } else if device_count == 0 {
        HeaderStatus::Locked
    } else {
        HeaderStatus::Live
    }
}

/// The number of cells of the goal bar drawn in `width` columns.
pub fn goal_bar_width(width: usize) -> (cells: usize)
    ensures
        cells == (if width < 6 {
            6
        } else if width > 18 {
            18
        } else {
            width
        }),
{
    if width < 6 {
        6
    } else if width > 18 {
        18
    } else {
        width
    }
}

/// The goal bar text: `cells` cells between brackets, the first `filled` of
/// them heavy.
pub open spec fn goal_bar_chars(filled: nat, cells: nat) -> Seq<char> {
    seq!['['] + Seq::new(cells, |i: int| if i < filled { '━' } else { '─' }) + seq![']']
}

/// Draws the goal bar with `filled` of its `cells` cells filled.
pub fn goal_bar_text(filled: usize, cells: usize) -> (bar: String)
    requires
        cells + 2 <= usize::MAX,
    ensures
        bar@ == goal_bar_chars(filled as nat, cells as nat),
{
    let mut out: Vec<char> = Vec::new();
    out.push('[');
    let mut i: usize = 0;
    while i < cells
        invariant
            i <= cells,
            out@ == seq!['['] + Seq::new(i as nat, |k: int| if k < filled { '━' } else { '─' }),
        decreases cells - i,
    {
        out.push(if i < filled { '━' } else { '─' });
        i = i + 1;
        assert(out@ =~= seq!['['] + Seq::new(i as nat, |k: int| if k < filled { '━' } else { '─' }));
    }
    out.push(']');
    assert(out@ =~= goal_bar_chars(filled as nat, cells as nat));
    string_from(&out)
}

proof fn lemma_grouped_prefix(digits: Seq<char>, n: int)
    requires
        0 <= n <= digits.len(),
        forall|i: int| 0 <= i < digits.len() ==> is_ascii_digit(#[trigger] digits[i]),
    ensures
        without_separators(grouped_prefix(digits, n)) == digits.take(n),
        n > 0 ==> grouped_prefix(digits, n).len() > 0 && grouped_prefix(digits, n)[0] == digits[0]
            && grouped_prefix(digits, n).last() == digits[n - 1],
    decreases n,
{
    if n > 0 {
        lemma_grouped_prefix(digits, n - 1);
        let before = grouped_prefix(digits, n - 1);
        let c = digits[n - 1];
        assert(is_ascii_digit(c));
        assert(digits.take(n) =~= digits.take(n - 1).push(c));
        if n - 1 > 0 && (digits.len() - (n - 1)) % 3 == 0 {
            let with_comma = before.push(',');
            assert(with_comma.push(c).drop_last() =~= with_comma);
            assert(with_comma.drop_last() =~= before);
            assert(without_separators(with_comma) == without_separators(before));
        } else {
            assert(before.push(c).drop_last() =~= before);
        }
    }
}

/// Removing the commas from a formatted count gives back its decimal
/// digits, and a formatted positive count reads back as a daily target equal
/// to the count.
pub proof fn lemma_grouped_count_reads_back(value: u64)
    ensures
        without_separators(grouped_count(value as nat)) == decimal(value as nat),
        value > 0 ==> daily_target_value(grouped_count(value as nat)) == Some(value),
{
    let d = decimal(value as nat);
    lemma_decimal(value as nat);
    lemma_grouped_prefix(d, d.len() as int);
    assert(d.take(d.len() as int) =~= d);
    let g = grouped_count(value as nat);
    assert(is_ascii_digit(d[0]));
    assert(is_ascii_digit(d[d.len() - 1]));
    assert(!is_whitespace(g[0]));
    assert(!is_whitespace(g.last()));
    lemma_trim_noop(g);
}

/// Row `r` (0 to 4, top to bottom) of the outline glyph of `c`: a digit
/// three columns wide, a comma one column wide.
pub open spec fn glyph_row(c: char, r: int) -> Seq<char> {
    if c == ',' {
        if r == 0 {
            " "@
        } else if r == 1 {
            " "@
        } else if r == 2 {
            " "@
        } else if r == 3 {
            " "@
        } else {
            "╵"@
        }
    } else if c == '0' {
        if r == 0 {
            "╭─╮"@
        } else if r == 1 {
            "│ │"@
        } else if r == 2 {
            "│ │"@
        } else if r == 3 {
            "│ │"@
        } else {
            "╰─╯"@
        }
    } else if c == '1' {
        if r == 0 {
            "  ╷"@
        } else if r == 1 {
            "  │"@
        } else if r == 2 {
            "  │"@
        } else if r == 3 {
            "  │"@
        } else {
            "  ╵"@
        }
    } else if c == '2' {
        if r == 0 {
            "╭─╮"@
        } else if r == 1 {
            "  │"@
        } else if r == 2 {
            "╭─╯"@
        } else if r == 3 {
            "│  "@
        } else {
            "╰─╴"@
        }
    } else if c == '3' {
        if r == 0 {
            "╭─╮"@
        } else if r == 1 {
            "  │"@
        } else if r == 2 {
            " ─┤"@
        } else if r == 3 {
            "  │"@
        } else {
            "╰─╯"@
        }
    } else if c == '4' {
        if r == 0 {
            "╷ ╷"@
        } else if r == 1 {
            "│ │"@
        } else if r == 2 {
            "╰─┤"@
        } else if r == 3 {
            "  │"@
        } else {
            "  ╵"@
        }
    } else if c == '5' {
        if r == 0 {
            "╭─╴"@
        } else if r == 1 {
            "│  "@
        } else if r == 2 {
            "╰─╮"@
        } else if r == 3 {
            "  │"@
        } else {
            "╰─╯"@
        }
    } else if c == '6' {
        if r == 0 {
            "╭─╴"@
        } else if r == 1 {
            "│  "@
        } else if r == 2 {
            "├─╮"@
        } else if r == 3 {
            "│ │"@
        } else {
            "╰─╯"@
        }
    } else if c == '7' {
        if r == 0 {
            "╭─╮"@
        } else if r == 1 {
            "  │"@
        } else if r == 2 {
            "  │"@
        } else if r == 3 {
            "  │"@
        } else {
            "  ╵"@
        }
    } else if c == '8' {
        if r == 0 {
            "╭─╮"@
        } else if r == 1 {
            "│ │"@
        } else if r == 2 {
            "├─┤"@
        } else if r == 3 {
            "│ │"@
        } else {
            "╰─╯"@
        }
    } else if c == '9' {
        if r == 0 {
            "╭─╮"@
        } else if r == 1 {
            "│ │"@
        } else if r == 2 {
            "╰─┤"@
        } else if r == 3 {
            "  │"@
        } else {
            "  ╵"@
        }
    } else {
        Seq::empty()
    }
}

/// The text of row `r` of the glyph of `c`.
fn glyph_text(c: char, r: usize) -> (text: &'static str)
    requires
        c == ',' || ('0' <= c <= '9'),
        r < 5,
    ensures
        text@ == glyph_row(c, r as int),
{
    if c == ',' {
        if r == 0 {
            " "
        } else if r == 1 {
            " "
        } else if r == 2 {
            " "
        } else if r == 3 {
            " "
        } else {
            "╵"
        }
    } else if c == '0' {
        if r == 0 {
            "╭─╮"
        } else if r == 1 {
            "│ │"
        } else if r == 2 {
            "│ │"
        } else if r == 3 {
            "│ │"
        } else {
            "╰─╯"
        }
    } else if c == '1' {
        if r == 0 {
            "  ╷"
        } else if r == 1 {
            "  │"
        } else if r == 2 {
            "  │"
        } else if r == 3 {
            "  │"
        } else {
            "  ╵"
        }
    } else if c == '2' {
        if r == 0 {
            "╭─╮"
        } else if r == 1 {
            "  │"
        } else if r == 2 {
            "╭─╯"
        } else if r == 3 {
            "│  "
        } else {
            "╰─╴"
        }
    } else if c == '3' {
        if r == 0 {
            "╭─╮"
        } else if r == 1 {
            "  │"
        } else if r == 2 {
            " ─┤"
        } else if r == 3 {
            "  │"
        } else {
            "╰─╯"
        }
    } else if c == '4' {
        if r == 0 {
            "╷ ╷"
        } else if r == 1 {
            "│ │"
        } else if r == 2 {
            "╰─┤"
        } else if r == 3 {
            "  │"
        } else {
            "  ╵"
        }
    } else if c == '5' {
        if r == 0 {
            "╭─╴"
        } else if r == 1 {
            "│  "
        } else if r == 2 {
            "╰─╮"
        } else if r == 3 {
            "  │"
        } else {
            "╰─╯"
        }
    } else if c == '6' {
        if r == 0 {
            "╭─╴"
        } else if r == 1 {
            "│  "
        } else if r == 2 {
            "├─╮"
        } else if r == 3 {
            "│ │"
        } else {
            "╰─╯"
        }
    } else if c == '7' {
        if r == 0 {
            "╭─╮"
        } else if r == 1 {
            "  │"
        } else if r == 2 {
            "  │"
        } else if r == 3 {
            "  │"
        } else {
            "  ╵"
        }
    } else if c == '8' {
        if r == 0 {
            "╭─╮"
        } else if r == 1 {
            "│ │"
        } else if r == 2 {
            "├─┤"
        } else if r == 3 {
            "│ │"
        } else {
            "╰─╯"
        }
    } else {
        if r == 0 {
            "╭─╮"
        } else if r == 1 {
            "│ │"
        } else if r == 2 {
            "╰─┤"
        } else if r == 3 {
            "  │"
        } else {
            "  ╵"
        }
    }
}

/// Row `r` of the outline drawing of `text`: the glyphs of its characters
/// separated by one blank column.
pub open spec fn art_row(text: Seq<char>, r: int) -> Seq<char>
    decreases text.len(),
{
    if text.len() == 0 {
        Seq::empty()
    } else if text.len() == 1 {
        glyph_row(text[0], r)
    } else {
        art_row(text.drop_last(), r) + seq![' '] + glyph_row(text.last(), r)
    }
}

/// Columns taken by the glyph of `c`.
pub open spec fn glyph_width(c: char) -> int {
    if c == ',' {
        1
    } else {
        3
    }
}

/// Columns taken by the outline drawing of `text`.
pub open spec fn art_width(text: Seq<char>) -> int
    decreases text.len(),
{
    if text.len() == 0 {
        0
    } else if text.len() == 1 {
        glyph_width(text[0])
    } else {
        art_width(text.drop_last()) + 1 + glyph_width(text.last())
    }
}

/// Number of commas in `s`.
pub open spec fn comma_count(s: Seq<char>) -> int
    decreases s.len(),
{
    if s.len() == 0 {
        0
    } else {
        comma_count(s.drop_last()) + if s.last() == ',' {
            1int
        } else {
            0int
        }
    }
}

/// Commas placed among the first `n` of a run of digits whose first group
/// has `r` digits.
spec fn commas_before(r: int, n: int) -> int {
    if n - 1 < r {
        0
    } else {
        (n - 1 - r) / 3 + 1
    }
}

/// The outline glyphs, row by row from the top:
/// ```text
/// 0 ╭─╮ │ │ │ │ │ │ ╰─╯     1   ╷   │   │   │   ╵     2 ╭─╮   │ ╭─╯ │   ╰─╴
/// 3 ╭─╮   │  ─┤   │ ╰─╯     4 ╷ ╷ │ │ ╰─┤   │   ╵     5 ╭─╴ │   ╰─╮   │ ╰─╯
/// 6 ╭─╴ │   ├─╮ │ │ ╰─╯     7 ╭─╮   │   │   │   ╵     8 ╭─╮ │ │ ├─┤ │ │ ╰─╯
/// 9 ╭─╮ │ │ ╰─┤   │   ╵     , (four blank rows, then ╵)
/// ```
pub proof fn lemma_glyph_table()
    ensures
        glyph_row('0', 0) == "╭─╮"@,
        glyph_row('0', 1) == "│ │"@,
        glyph_row('0', 2) == "│ │"@,
        glyph_row('0', 3) == "│ │"@,
        glyph_row('0', 4) == "╰─╯"@,
        glyph_row('1', 0) == "  ╷"@,
        glyph_row('1', 1) == "  │"@,
        glyph_row('1', 2) == "  │"@,
        glyph_row('1', 3) == "  │"@,
        glyph_row('1', 4) == "  ╵"@,
        glyph_row('2', 0) == "╭─╮"@,
        glyph_row('2', 1) == "  │"@,
        glyph_row('2', 2) == "╭─╯"@,
        glyph_row('2', 3) == "│  "@,
        glyph_row('2', 4) == "╰─╴"@,
        glyph_row('3', 0) == "╭─╮"@,
        glyph_row('3', 1) == "  │"@,
        glyph_row('3', 2) == " ─┤"@,
        glyph_row('3', 3) == "  │"@,
        glyph_row('3', 4) == "╰─╯"@,
        glyph_row('4', 0) == "╷ ╷"@,
        glyph_row('4', 1) == "│ │"@,
        glyph_row('4', 2) == "╰─┤"@,
        glyph_row('4', 3) == "  │"@,
        glyph_row('4', 4) == "  ╵"@,
        glyph_row('5', 0) == "╭─╴"@,
        glyph_row('5', 1) == "│  "@,
        glyph_row('5', 2) == "╰─╮"@,
        glyph_row('5', 3) == "  │"@,
        glyph_row('5', 4) == "╰─╯"@,
        glyph_row('6', 0) == "╭─╴"@,
        glyph_row('6', 1) == "│  "@,
        glyph_row('6', 2) == "├─╮"@,
        glyph_row('6', 3) == "│ │"@,
        glyph_row('6', 4) == "╰─╯"@,
        glyph_row('7', 0) == "╭─╮"@,
        glyph_row('7', 1) == "  │"@,
        glyph_row('7', 2) == "  │"@,
        glyph_row('7', 3) == "  │"@,
        glyph_row('7', 4) == "  ╵"@,
        glyph_row('8', 0) == "╭─╮"@,
        glyph_row('8', 1) == "│ │"@,
        glyph_row('8', 2) == "├─┤"@,
        glyph_row('8', 3) == "│ │"@,
        glyph_row('8', 4) == "╰─╯"@,
        glyph_row('9', 0) == "╭─╮"@,
        glyph_row('9', 1) == "│ │"@,
        glyph_row('9', 2) == "╰─┤"@,
        glyph_row('9', 3) == "  │"@,
        glyph_row('9', 4) == "  ╵"@,
        glyph_row(',', 0) == " "@,
        glyph_row(',', 1) == " "@,
        glyph_row(',', 2) == " "@,
        glyph_row(',', 3) == " "@,
        glyph_row(',', 4) == "╵"@,
{
    reveal_strlit(" ");
    reveal_strlit("  │");
    reveal_strlit("  ╵");
    reveal_strlit("  ╷");
    reveal_strlit(" ─┤");
    reveal_strlit("│  ");
    reveal_strlit("│ │");
    reveal_strlit("├─┤");
    reveal_strlit("├─╮");
    reveal_strlit("╭─╮");
    reveal_strlit("╭─╯");
    reveal_strlit("╭─╴");
    reveal_strlit("╰─┤");
    reveal_strlit("╰─╮");
    reveal_strlit("╰─╯");
    reveal_strlit("╰─╴");
    reveal_strlit("╵");
    reveal_strlit("╷ ╷");
}

/// Different characters of a count are drawn differently: two distinct
/// digits (or a digit and a comma) differ in at least one row of their
/// glyphs, so the drawing shows which count it is.
pub proof fn lemma_glyphs_distinct(c: char, d: char)
    requires
        c == ',' || is_ascii_digit(c),
        d == ',' || is_ascii_digit(d),
        c != d,
    ensures
        exists|r: int| 0 <= r < 5 && #[trigger] glyph_row(c, r) != glyph_row(d, r),
{
    lemma_glyph_table();
    reveal_strlit(" ");
    reveal_strlit("  │");
    reveal_strlit("  ╵");
    reveal_strlit("  ╷");
    reveal_strlit(" ─┤");
    reveal_strlit("│  ");
    reveal_strlit("│ │");
    reveal_strlit("├─┤");
    reveal_strlit("├─╮");
    reveal_strlit("╭─╮");
    reveal_strlit("╭─╯");
    reveal_strlit("╭─╴");
    reveal_strlit("╰─┤");
    reveal_strlit("╰─╮");
    reveal_strlit("╰─╯");
    reveal_strlit("╰─╴");
    reveal_strlit("╵");
    reveal_strlit("╷ ╷");
    if c == '0' && d == '1' {
        assert(glyph_row(c, 0)[0] != glyph_row(d, 0)[0]);
    } else if c == '0' && d == '2' {
        assert(glyph_row(c, 1)[0] != glyph_row(d, 1)[0]);
    } else if c == '0' && d == '3' {
        assert(glyph_row(c, 1)[0] != glyph_row(d, 1)[0]);
    } else if c == '0' && d == '4' {
        assert(glyph_row(c, 0)[0] != glyph_row(d, 0)[0]);
    } else if c == '0' && d == '5' {
        assert(glyph_row(c, 0)[2] != glyph_row(d, 0)[2]);
    } else if c == '0' && d == '6' {
        assert(glyph_row(c, 0)[2] != glyph_row(d, 0)[2]);
    } else if c == '0' && d == '7' {
        assert(glyph_row(c, 1)[0] != glyph_row(d, 1)[0]);
    } else if c == '0' && d == '8' {
        assert(glyph_row(c, 2)[0] != glyph_row(d, 2)[0]);
    } else if c == '0' && d == '9' {
        assert(glyph_row(c, 2)[0] != glyph_row(d, 2)[0]);
    } else if c == '0' && d == ',' {
        assert(glyph_row(c, 0).len() != glyph_row(d, 0).len());
    } else if c == '1' && d == '0' {
        assert(glyph_row(c, 0)[0] != glyph_row(d, 0)[0]);
    } else if c == '1' && d == '2' {
        assert(glyph_row(c, 0)[0] != glyph_row(d, 0)[0]);
    } else if c == '1' && d == '3' {
        assert(glyph_row(c, 0)[0] != glyph_row(d, 0)[0]);
    } else if c == '1' && d == '4' {
        assert(glyph_row(c, 0)[0] != glyph_row(d, 0)[0]);
    } else if c == '1' && d == '5' {
        assert(glyph_row(c, 0)[0] != glyph_row(d, 0)[0]);
    } else if c == '1' && d == '6' {
        assert(glyph_row(c, 0)[0] != glyph_row(d, 0)[0]);
    } else if c == '1' && d == '7' {
        assert(glyph_row(c, 0)[0] != glyph_row(d, 0)[0]);
    } else if c == '1' && d == '8' {
        assert(glyph_row(c, 0)[0] != glyph_row(d, 0)[0]);
    } else if c == '1' && d == '9' {
        assert(glyph_row(c, 0)[0] != glyph_row(d, 0)[0]);
    } else if c == '1' && d == ',' {
        assert(glyph_row(c, 0).len() != glyph_row(d, 0).len());
    } else if c == '2' && d == '0' {
        assert(glyph_row(c, 1)[0] != glyph_row(d, 1)[0]);
    } else if c == '2' && d == '1' {
        assert(glyph_row(c, 0)[0] != glyph_row(d, 0)[0]);
    } else if c == '2' && d == '3' {
        assert(glyph_row(c, 2)[0] != glyph_row(d, 2)[0]);
    } else if c == '2' && d == '4' {
        assert(glyph_row(c, 0)[0] != glyph_row(d, 0)[0]);
    } else if c == '2' && d == '5' {
        assert(glyph_row(c, 0)[2] != glyph_row(d, 0)[2]);
    } else if c == '2' && d == '6' {
        assert(glyph_row(c, 0)[2] != glyph_row(d, 0)[2]);
    } else if c == '2' && d == '7' {
        assert(glyph_row(c, 2)[0] != glyph_row(d, 2)[0]);
    } else if c == '2' && d == '8' {
        assert(glyph_row(c, 1)[0] != glyph_row(d, 1)[0]);
    } else if c == '2' && d == '9' {
        assert(glyph_row(c, 1)[0] != glyph_row(d, 1)[0]);
    } else if c == '2' && d == ',' {
        assert(glyph_row(c, 0).len() != glyph_row(d, 0).len());
    } else if c == '3' && d == '0' {
        assert(glyph_row(c, 1)[0] != glyph_row(d, 1)[0]);
    } else if c == '3' && d == '1' {
        assert(glyph_row(c, 0)[0] != glyph_row(d, 0)[0]);
    } else if c == '3' && d == '2' {
        assert(glyph_row(c, 2)[0] != glyph_row(d, 2)[0]);
    } else if c == '3' && d == '4' {
        assert(glyph_row(c, 0)[0] != glyph_row(d, 0)[0]);
    } else if c == '3' && d == '5' {
        assert(glyph_row(c, 0)[2] != glyph_row(d, 0)[2]);
    } else if c == '3' && d == '6' {
        assert(glyph_row(c, 0)[2] != glyph_row(d, 0)[2]);
    } else if c == '3' && d == '7' {
        assert(glyph_row(c, 2)[1] != glyph_row(d, 2)[1]);
    } else if c == '3' && d == '8' {
        assert(glyph_row(c, 1)[0] != glyph_row(d, 1)[0]);
    } else if c == '3' && d == '9' {
        assert(glyph_row(c, 1)[0] != glyph_row(d, 1)[0]);
    } else if c == '3' && d == ',' {
        assert(glyph_row(c, 0).len() != glyph_row(d, 0).len());
    } else if c == '4' && d == '0' {
        assert(glyph_row(c, 0)[0] != glyph_row(d, 0)[0]);
    } else if c == '4' && d == '1' {
        assert(glyph_row(c, 0)[0] != glyph_row(d, 0)[0]);
    } else if c == '4' && d == '2' {
        assert(glyph_row(c, 0)[0] != glyph_row(d, 0)[0]);
    } else if c == '4' && d == '3' {
        assert(glyph_row(c, 0)[0] != glyph_row(d, 0)[0]);
    } else if c == '4' && d == '5' {
        assert(glyph_row(c, 0)[0] != glyph_row(d, 0)[0]);
    } else if c == '4' && d == '6' {
        assert(glyph_row(c, 0)[0] != glyph_row(d, 0)[0]);
    } else if c == '4' && d == '7' {
        assert(glyph_row(c, 0)[0] != glyph_row(d, 0)[0]);
    } else if c == '4' && d == '8' {
        assert(glyph_row(c, 0)[0] != glyph_row(d, 0)[0]);
    } else if c == '4' && d == '9' {
        assert(glyph_row(c, 0)[0] != glyph_row(d, 0)[0]);
    } else if c == '4' && d == ',' {
        assert(glyph_row(c, 0).len() != glyph_row(d, 0).len());
    } else if c == '5' && d == '0' {
        assert(glyph_row(c, 0)[2] != glyph_row(d, 0)[2]);
    } else if c == '5' && d == '1' {
        assert(glyph_row(c, 0)[0] != glyph_row(d, 0)[0]);
    } else if c == '5' && d == '2' {
        assert(glyph_row(c, 0)[2] != glyph_row(d, 0)[2]);
    } else if c == '5' && d == '3' {
        assert(glyph_row(c, 0)[2] != glyph_row(d, 0)[2]);
    } else if c == '5' && d == '4' {
        assert(glyph_row(c, 0)[0] != glyph_row(d, 0)[0]);
    } else if c == '5' && d == '6' {
        assert(glyph_row(c, 2)[0] != glyph_row(d, 2)[0]);
    } else if c == '5' && d == '7' {
        assert(glyph_row(c, 0)[2] != glyph_row(d, 0)[2]);
    } else if c == '5' && d == '8' {
        assert(glyph_row(c, 0)[2] != glyph_row(d, 0)[2]);
    } else if c == '5' && d == '9' {
        assert(glyph_row(c, 0)[2] != glyph_row(d, 0)[2]);
    } else if c == '5' && d == ',' {
        assert(glyph_row(c, 0).len() != glyph_row(d, 0).len());
    } else if c == '6' && d == '0' {
        assert(glyph_row(c, 0)[2] != glyph_row(d, 0)[2]);
    } else if c == '6' && d == '1' {
        assert(glyph_row(c, 0)[0] != glyph_row(d, 0)[0]);
    } else if c == '6' && d == '2' {
        assert(glyph_row(c, 0)[2] != glyph_row(d, 0)[2]);
    } else if c == '6' && d == '3' {
        assert(glyph_row(c, 0)[2] != glyph_row(d, 0)[2]);
    } else if c == '6' && d == '4' {
        assert(glyph_row(c, 0)[0] != glyph_row(d, 0)[0]);
    } else if c == '6' && d == '5' {
        assert(glyph_row(c, 2)[0] != glyph_row(d, 2)[0]);
    } else if c == '6' && d == '7' {
        assert(glyph_row(c, 0)[2] != glyph_row(d, 0)[2]);
    } else if c == '6' && d == '8' {
        assert(glyph_row(c, 0)[2] != glyph_row(d, 0)[2]);
    } else if c == '6' && d == '9' {
        assert(glyph_row(c, 0)[2] != glyph_row(d, 0)[2]);
    } else if c == '6' && d == ',' {
        assert(glyph_row(c, 0).len() != glyph_row(d, 0).len());
    } else if c == '7' && d == '0' {
        assert(glyph_row(c, 1)[0] != glyph_row(d, 1)[0]);
    } else if c == '7' && d == '1' {
        assert(glyph_row(c, 0)[0] != glyph_row(d, 0)[0]);
    } else if c == '7' && d == '2' {
        assert(glyph_row(c, 2)[0] != glyph_row(d, 2)[0]);
    } else if c == '7' && d == '3' {
        assert(glyph_row(c, 2)[1] != glyph_row(d, 2)[1]);
    } else if c == '7' && d == '4' {
        assert(glyph_row(c, 0)[0] != glyph_row(d, 0)[0]);
    } else if c == '7' && d == '5' {
        assert(glyph_row(c, 0)[2] != glyph_row(d, 0)[2]);
    } else if c == '7' && d == '6' {
        assert(glyph_row(c, 0)[2] != glyph_row(d, 0)[2]);
    } else if c == '7' && d == '8' {
        assert(glyph_row(c, 1)[0] != glyph_row(d, 1)[0]);
    } else if c == '7' && d == '9' {
        assert(glyph_row(c, 1)[0] != glyph_row(d, 1)[0]);
    } else if c == '7' && d == ',' {
        assert(glyph_row(c, 0).len() != glyph_row(d, 0).len());
    } else if c == '8' && d == '0' {
        assert(glyph_row(c, 2)[0] != glyph_row(d, 2)[0]);
    } else if c == '8' && d == '1' {
        assert(glyph_row(c, 0)[0] != glyph_row(d, 0)[0]);
    } else if c == '8' && d == '2' {
        assert(glyph_row(c, 1)[0] != glyph_row(d, 1)[0]);
    } else if c == '8' && d == '3' {
        assert(glyph_row(c, 1)[0] != glyph_row(d, 1)[0]);
    } else if c == '8' && d == '4' {
        assert(glyph_row(c, 0)[0] != glyph_row(d, 0)[0]);
    } else if c == '8' && d == '5' {
        assert(glyph_row(c, 0)[2] != glyph_row(d, 0)[2]);
    } else if c == '8' && d == '6' {
        assert(glyph_row(c, 0)[2] != glyph_row(d, 0)[2]);
    } else if c == '8' && d == '7' {
        assert(glyph_row(c, 1)[0] != glyph_row(d, 1)[0]);
    } else if c == '8' && d == '9' {
        assert(glyph_row(c, 2)[0] != glyph_row(d, 2)[0]);
    } else if c == '8' && d == ',' {
        assert(glyph_row(c, 0).len() != glyph_row(d, 0).len());
    } else if c == '9' && d == '0' {
        assert(glyph_row(c, 2)[0] != glyph_row(d, 2)[0]);
    } else if c == '9' && d == '1' {
        assert(glyph_row(c, 0)[0] != glyph_row(d, 0)[0]);
    } else if c == '9' && d == '2' {
        assert(glyph_row(c, 1)[0] != glyph_row(d, 1)[0]);
    } else if c == '9' && d == '3' {
        assert(glyph_row(c, 1)[0] != glyph_row(d, 1)[0]);
    } else if c == '9' && d == '4' {
        assert(glyph_row(c, 0)[0] != glyph_row(d, 0)[0]);
    } else if c == '9' && d == '5' {
        assert(glyph_row(c, 0)[2] != glyph_row(d, 0)[2]);
    } else if c == '9' && d == '6' {
        assert(glyph_row(c, 0)[2] != glyph_row(d, 0)[2]);
    } else if c == '9' && d == '7' {
        assert(glyph_row(c, 1)[0] != glyph_row(d, 1)[0]);
    } else if c == '9' && d == '8' {
        assert(glyph_row(c, 2)[0] != glyph_row(d, 2)[0]);
    } else if c == '9' && d == ',' {
        assert(glyph_row(c, 0).len() != glyph_row(d, 0).len());
    } else if c == ',' && d == '0' {
        assert(glyph_row(c, 0).len() != glyph_row(d, 0).len());
    } else if c == ',' && d == '1' {
        assert(glyph_row(c, 0).len() != glyph_row(d, 0).len());
    } else if c == ',' && d == '2' {
        assert(glyph_row(c, 0).len() != glyph_row(d, 0).len());
    } else if c == ',' && d == '3' {
        assert(glyph_row(c, 0).len() != glyph_row(d, 0).len());
    } else if c == ',' && d == '4' {
        assert(glyph_row(c, 0).len() != glyph_row(d, 0).len());
    } else if c == ',' && d == '5' {
        assert(glyph_row(c, 0).len() != glyph_row(d, 0).len());
    } else if c == ',' && d == '6' {
        assert(glyph_row(c, 0).len() != glyph_row(d, 0).len());
    } else if c == ',' && d == '7' {
        assert(glyph_row(c, 0).len() != glyph_row(d, 0).len());
    } else if c == ',' && d == '8' {
        assert(glyph_row(c, 0).len() != glyph_row(d, 0).len());
    } else if c == ',' && d == '9' {
        assert(glyph_row(c, 0).len() != glyph_row(d, 0).len());
    }
}

proof fn lemma_glyph_row_width(c: char, r: int)
    requires
        c == ',' || is_ascii_digit(c),
    ensures
        glyph_row(c, r).len() == glyph_width(c),
{
    reveal_strlit("  │");
    reveal_strlit("  ╵");
    reveal_strlit("  ╷");
    reveal_strlit(" ");
    reveal_strlit(" ─┤");
    reveal_strlit("│  ");
    reveal_strlit("│ │");
    reveal_strlit("├─┤");
    reveal_strlit("├─╮");
    reveal_strlit("╭─╮");
    reveal_strlit("╭─╯");
    reveal_strlit("╭─╴");
    reveal_strlit("╰─┤");
    reveal_strlit("╰─╮");
    reveal_strlit("╰─╯");
    reveal_strlit("╰─╴");
    reveal_strlit("╵");
    reveal_strlit("╷ ╷");
    if c == ',' || c == '0' || c == '1' || c == '2' || c == '3' || c == '4' {
    } else {
    }
}

proof fn lemma_art_row_width(text: Seq<char>, r: int)
    requires
        forall|i: int| 0 <= i < text.len() ==> #[trigger] text[i] == ',' || is_ascii_digit(text[i]),
    ensures
        art_row(text, r).len() == art_width(text),
    decreases text.len(),
{
    if text.len() == 1 {
        lemma_glyph_row_width(text[0], r);
    } else if text.len() > 1 {
        assert forall|i: int| 0 <= i < text.len() - 1 implies #[trigger] text.drop_last()[i] == ','
            || is_ascii_digit(text.drop_last()[i]) by {
            assert(text.drop_last()[i] == text[i]);
        }
        lemma_art_row_width(text.drop_last(), r);
        lemma_glyph_row_width(text.last(), r);
    }
}

proof fn lemma_art_width_count(text: Seq<char>)
    requires
        text.len() > 0,
    ensures
        art_width(text) == 4 * text.len() - 2 * comma_count(text) - 1,
    decreases text.len(),
{
    if text.len() > 1 {
        lemma_art_width_count(text.drop_last());
    } else {
        assert(comma_count(text.drop_last()) == 0);
    }
}

proof fn lemma_grouped_prefix_commas(digits: Seq<char>, n: int)
    requires
        0 <= n <= digits.len(),
        forall|i: int| 0 <= i < digits.len() ==> is_ascii_digit(#[trigger] digits[i]),
    ensures
        grouped_prefix(digits, n).len() == n + commas_before((digits.len() - 1) % 3 + 1, n),
        comma_count(grouped_prefix(digits, n)) == commas_before((digits.len() - 1) % 3 + 1, n),
        forall|i: int|
            0 <= i < grouped_prefix(digits, n).len() ==> (#[trigger] grouped_prefix(digits, n)[i]
                == ',' <==> (i >= (digits.len() - 1) % 3 + 1 && (i - ((digits.len() - 1) % 3 + 1))
                % 4 == 0)),
    decreases n,
{
    if n > 0 {
        lemma_grouped_prefix_commas(digits, n - 1);
        let len = digits.len() as int;
        let r = (len - 1) % 3 + 1;
        let m = n - 1;
        let before = grouped_prefix(digits, m);
        let after = grouped_prefix(digits, n);
        let c = digits[m];
        assert(is_ascii_digit(c));
        assert(c != ',');
        assert((m > 0 && (len - m) % 3 == 0) <==> (m >= r && (m - r) % 3 == 0));
        if m > 0 && (len - m) % 3 == 0 {
            let j = (m - r) / 3;
            assert(m == r + 3 * j);
            assert(commas_before(r, m) == j);
            assert(commas_before(r, n) == j + 1);
            assert(before.len() == r + 4 * j);
            let with_comma = before.push(',');
            assert(after == with_comma.push(c));
            assert(with_comma.push(c).drop_last() =~= with_comma);
            assert(with_comma.drop_last() =~= before);
            assert(comma_count(after) == comma_count(with_comma));
            assert(comma_count(with_comma) == comma_count(before) + 1);
            assert forall|i: int| 0 <= i < after.len() implies (#[trigger] after[i] == ',' <==> (i
                >= r && (i - r) % 4 == 0)) by {
                if i < before.len() {
                    assert(after[i] == before[i]);
                }
            }
        } else {
            assert(after == before.push(c));
            assert(before.push(c).drop_last() =~= before);
            assert(comma_count(after) == comma_count(before));
            assert(commas_before(r, n) == commas_before(r, m));
            let k = before.len();
            assert(!(k >= r && (k - r) % 4 == 0)) by {
                if m >= r {
                    let j = (m - r) / 3;
                    let t = (m - r) % 3;
                    assert(m == r + 3 * j + t);
                    assert(t == 1 || t == 2);
                    assert(commas_before(r, m) == j + 1);
                    assert(k == r + 4 * j + t + 1);
                }
            }
            assert forall|i: int| 0 <= i < after.len() implies (#[trigger] after[i] == ',' <==> (i
                >= r && (i - r) % 4 == 0)) by {
                if i < before.len() {
                    assert(after[i] == before[i]);
                }
            }
        }
    }
}

/// `format_count` writes the decimal digits of a value in groups: a first
/// group of one to three digits, then groups of exactly three digits, each
/// after a comma; so the text is as long as the digits plus one comma for
/// every full three digits after the first.
pub proof fn lemma_grouped_count_shape(value: u64)
    ensures
        without_separators(grouped_count(value as nat)) == decimal(value as nat),
        grouped_count(value as nat).len() == decimal(value as nat).len() + (decimal(
            value as nat,
        ).len() - 1) / 3,
        comma_count(grouped_count(value as nat)) == (decimal(value as nat).len() - 1) / 3,
        1 <= grouped_count(value as nat).len() % 4 <= 3,
        forall|i: int|
            0 <= i < grouped_count(value as nat).len() ==> (#[trigger] grouped_count(value as nat)[i]
                == ',' <==> (grouped_count(value as nat).len() - i) % 4 == 0),
        forall|i: int|
            0 <= i < grouped_count(value as nat).len() ==> #[trigger] grouped_count(value as nat)[i]
                == ',' || is_ascii_digit(grouped_count(value as nat)[i]),
{
    let d = decimal(value as nat);
    let g = grouped_count(value as nat);
    let len = d.len() as int;
    lemma_decimal(value as nat);
    lemma_grouped_count_reads_back(value);
    lemma_grouped_prefix_commas(d, len);
    lemma_grouped_prefix_shape(d, len);
    let r = (len - 1) % 3 + 1;
    let k = (len - 1) / 3;
    assert(len == 3 * k + r);
    assert(commas_before(r, len) == k);
    assert(g.len() == 4 * k + r);
    assert forall|i: int| 0 <= i < g.len() implies (#[trigger] g[i] == ',' <==> (g.len() - i) % 4
        == 0) by {
        assert((i >= r && (i - r) % 4 == 0) <==> (g.len() - i) % 4 == 0);
    }
}

/// The outline drawing of a count takes four columns per digit and two per
/// comma, less the one blank column that would follow the last glyph, and
/// each of its rows is exactly that wide.
pub proof fn lemma_count_art_width(value: u64)
    ensures
        art_width(grouped_count(value as nat)) == 4 * decimal(value as nat).len() + 2 * ((decimal(
            value as nat,
        ).len() - 1) / 3) - 1,
        forall|r: int| #[trigger] art_row(grouped_count(value as nat), r).len() == art_width(
            grouped_count(value as nat),
        ),
{
    let g = grouped_count(value as nat);
    lemma_grouped_count_shape(value);
    lemma_decimal(value as nat);
    lemma_art_width_count(g);
    assert forall|r: int| #[trigger] art_row(g, r).len() == art_width(g) by {
        lemma_art_row_width(g, r);
    }
}

pub open spec fn pow10(k: nat) -> nat
    decreases k,
{
    if k == 0 {
        1
    } else {
        10 * pow10((k - 1) as nat)
    }
}

proof fn lemma_decimal_len(n: nat, k: nat)
    requires
        k >= 1,
        n < pow10(k),
    ensures
        decimal(n).len() <= k,
    decreases n,
{
    if n >= 10 {
        assert(k >= 2) by {
            if k == 1 {
                assert(pow10(1) == 10 * pow10(0));
            }
        }
        let p = pow10((k - 1) as nat);
        assert(n / 10 < p) by (nonlinear_arith)
            requires
                n < 10 * p,
        ;
        lemma_decimal_len(n / 10, (k - 1) as nat);
    }
}

proof fn lemma_grouped_prefix_shape(digits: Seq<char>, n: int)
    requires
        0 <= n <= digits.len(),
        forall|i: int| 0 <= i < digits.len() ==> is_ascii_digit(#[trigger] digits[i]),
    ensures
        grouped_prefix(digits, n).len() <= 2 * n,
        forall|i: int|
            0 <= i < grouped_prefix(digits, n).len() ==> #[trigger] grouped_prefix(digits, n)[i]
                == ',' || is_ascii_digit(grouped_prefix(digits, n)[i]),
    decreases n,
{
    if n > 0 {
        lemma_grouped_prefix_shape(digits, n - 1);
        let before = grouped_prefix(digits, n - 1);
        let after = grouped_prefix(digits, n);
        assert(is_ascii_digit(digits[n - 1]));
        assert forall|i: int| 0 <= i < after.len() implies #[trigger] after[i] == ','
            || is_ascii_digit(after[i]) by {
            if i < before.len() {
                assert(after[i] == before[i]);
            }
        }
    }
}

/// The large outline drawing of `value` as written by `format_count`: five
/// rows of text and the number of columns they take.
pub fn thin_number_art(value: u64) -> (art: (Vec<String>, u16))
    ensures
        art.0@.len() == 5,
        forall|r: int| 0 <= r < 5 ==> #[trigger] art.0@[r]@ == art_row(grouped_count(value as nat), r),
        art.1 == art_width(grouped_count(value as nat)),
{
    let display = format_count(value);
    let text = crate::text::chars_of(display.as_str());
    let ghost g = grouped_count(value as nat);
    proof {
        let d = decimal(value as nat);
        lemma_decimal(value as nat);
        reveal_with_fuel(pow10, 21);
        assert(pow10(20) == 100000000000000000000nat);
        lemma_decimal_len(value as nat, 20);
        lemma_grouped_prefix_shape(d, d.len() as int);
    }
    let mut rows: Vec<String> = Vec::new();
    let mut r: usize = 0;
    while r < 5
        invariant
            text@ == g,
            g.len() <= 40,
            forall|i: int| 0 <= i < g.len() ==> #[trigger] g[i] == ',' || is_ascii_digit(g[i]),
            r <= 5,
            rows@.len() == r,
            forall|q: int| 0 <= q < r ==> #[trigger] rows@[q]@ == art_row(g, q),
        decreases 5 - r,
    {
        let mut row = String::new();
        let mut i: usize = 0;
        while i < text.len()
            invariant
                text@ == g,
                forall|k: int| 0 <= k < g.len() ==> #[trigger] g[k] == ',' || is_ascii_digit(g[k]),
                r < 5,
                i <= text.len(),
                row@ == art_row(g.take(i as int), r as int),
            decreases text.len() - i,
        {
            assert(g.take(i + 1).drop_last() =~= g.take(i as int));
            assert(g.take(i + 1).last() == g[i as int]);
            if i > 0 {
                push_char(&mut row, ' ');
            }
            let piece = glyph_text(text[i], r);
            row.append(piece);
            if i == 0 {
                assert(row@ =~= glyph_row(g[0], r as int));
            } else {
                assert(row@ =~= art_row(g.take(i as int), r as int) + seq![' '] + glyph_row(g[i as int], r as int));
            }
            i = i + 1;
        }
        assert(g.take(g.len() as int) =~= g);
        rows.push(row);
        r = r + 1;
    }
    let mut width: u16 = 0;
    let mut i: usize = 0;
    while i < text.len()
        invariant
            text@ == g,
            g.len() <= 40,
            i <= text.len(),
            width == art_width(g.take(i as int)),
            width <= 4 * i,
        decreases text.len() - i,
    {
        assert(g.take(i + 1).drop_last() =~= g.take(i as int));
        assert(g.take(i + 1).last() == g[i as int]);
        let glyph: u16 = if text[i] == ',' {
            1
        } else {
            3
        };
        if i > 0 {
            width = width + 1;
        }
        width = width + glyph;
        i = i + 1;
    }
    assert(g.take(g.len() as int) =~= g);
    (rows, width)
}

/// A rectangle of terminal cells.
#[derive(Clone, Copy, Debug, PartialEq, Eq, Structural)]
pub struct Area {
    pub x: u16,
    pub y: u16,
    pub width: u16,
    pub height: u16,
}

pub open spec fn sat_add(a: u16, b: int) -> u16 {
    if a + b > u16::MAX {
        u16::MAX
    } else {
        (a + b) as u16
    }
}

pub open spec fn sat_sub(a: u16, b: int) -> u16 {
    if a - b < 0 {
        0
    } else {
        (a - b) as u16
    }
}

/// The weekday label under each bar of the daily chart, one per listed date.
pub fn weekday_labels(days: &Vec<(i32, u64)>) -> (labels: Vec<String>)
    requires
        forall|i: int| 0 <= i < days@.len() ==> is_day(#[trigger] days@[i].0 as int),
    ensures
        labels@.len() == days@.len(),
        forall|i: int| 0 <= i < days@.len() ==> #[trigger] labels@[i]@ == weekday_text(days@[i].0),
{
    let mut labels: Vec<String> = Vec::new();
    let mut i: usize = 0;
    while i < days.len()
        invariant
            i <= days@.len(),
            forall|j: int| 0 <= j < days@.len() ==> is_day(#[trigger] days@[j].0 as int),
            labels@.len() == i,
            forall|j: int| 0 <= j < i ==> #[trigger] labels@[j]@ == weekday_text(days@[j].0),
        decreases days.len() - i,
    {
        labels.push(format_weekday(days[i].0));
        i = i + 1;
    }
    labels
}

/// A box of `width` by `height` cells centred in `area`, cut to the area's
/// size: where the target editor opens.
pub fn centered_box(area: Area, width: u16, height: u16) -> (dialog: Area)
    requires
        area.x + sat_sub(area.width, width as int) / 2 <= u16::MAX,
        area.y + sat_sub(area.height, height as int) / 2 <= u16::MAX,
    ensures
        dialog.x == area.x + sat_sub(area.width, width as int) / 2,
        dialog.y == area.y + sat_sub(area.height, height as int) / 2,
        dialog.width == if width < area.width { width } else { area.width },
        dialog.height == if height < area.height { height } else { area.height },
{
    Area {
        x: area.x + area.width.saturating_sub(width) / 2,
        y: area.y + area.height.saturating_sub(height) / 2,
        width: if width < area.width { width } else { area.width },
        height: if height < area.height { height } else { area.height },
    }
}

/// Rows of the target editor: one more while it shows an error.
pub fn editor_height(has_error: bool) -> (rows: u16)
    ensures
        rows == if has_error { 7u16 } else { 6u16 },
{
    if has_error {
        7
    } else {
        6
    }
}

/// Columns of each bar of the hourly chart: two once the chart is at least
/// 76 columns wide, else one.
pub fn hourly_bar_width(chart_width: u16) -> (bar: u16)
    ensures
        bar == if chart_width >= 76 { 2u16 } else { 1u16 },
{
    if chart_width >= 76 {
        2
    } else {
        1
    }
}

/// Columns taken by the 24 hourly bars of `bar` columns with one-column
/// gaps between them.
pub open spec fn hourly_bars_span(bar: int) -> int {
    24 * bar + 23
}

/// Where the 24 hourly bars go: centred in `chart` (cut to its width), on
/// the chart's rows.
pub fn hourly_bar_area(chart: Area, bar: u16) -> (bars: Area)
    requires
        1 <= bar <= 2,
        chart.x + sat_sub(chart.width, hourly_bars_span(bar as int)) / 2 <= u16::MAX,
    ensures
        bars.x == chart.x + sat_sub(chart.width, hourly_bars_span(bar as int)) / 2,
        bars.y == chart.y,
        bars.width == if hourly_bars_span(bar as int) < chart.width {
            hourly_bars_span(bar as int)
        } else {
            chart.width as int
        },
        bars.height == chart.height,
{
    let used: u16 = 24 * bar + 23;
    Area {
        x: chart.x + chart.width.saturating_sub(used) / 2,
        y: chart.y,
        width: if used < chart.width { used } else { chart.width },
        height: chart.height,
    }
}

/// The first column of the two-column label under hour `hour` of the hourly
/// chart whose bars start at column `bars_x`: one column left of the middle
/// of that hour's bar.
pub fn hour_label_column(bars_x: u16, hour: u16, bar: u16) -> (column: u16)
    requires
        hour < 24,
        1 <= bar <= 2,
        bars_x + hour * (bar + 1) + bar / 2 <= u16::MAX,
    ensures
        column == sat_sub((bars_x + hour * (bar + 1) + bar / 2) as u16, 1),
{
    assert(hour * (bar + 1) <= 69) by (nonlinear_arith)
        requires
            hour < 24,
            bar <= 2,
    ;
    let center = bars_x + hour * (bar + 1) + bar / 2;
    center.saturating_sub(1)
}

/// `area` shrunk by `horizontal` cells on the left and right and `vertical`
/// cells at the top and bottom, never below zero size.
pub fn inset(area: Area, horizontal: u16, vertical: u16) -> (inner: Area)
    ensures
        inner.x == sat_add(area.x, horizontal as int),
        inner.y == sat_add(area.y, vertical as int),
        inner.width == sat_sub(area.width, if 2 * horizontal > u16::MAX {
            u16::MAX as int
        } else {
            2 * horizontal
        }),
        inner.height == sat_sub(area.height, if 2 * vertical > u16::MAX {
            u16::MAX as int
        } else {
            2 * vertical
        }),
{
    let x = if area.x as u32 + horizontal as u32 > u16::MAX as u32 {
        u16::MAX
    } else {
        area.x + horizontal
    };
    let y = if area.y as u32 + vertical as u32 > u16::MAX as u32 {
        u16::MAX
    } else {
        area.y + vertical
    };
    let h2: u16 = if 2 * horizontal as u32 > u16::MAX as u32 {
        u16::MAX
    } else {
        2 * horizontal
    };
    let v2: u16 = if 2 * vertical as u32 > u16::MAX as u32 {
        u16::MAX
    } else {
        2 * vertical
    };
    let width = if area.width < h2 {
        0
    } else {
        area.width - h2
    };
    let height = if area.height < v2 {
        0
    } else {
        area.height - v2
    };
    Area { x, y, width, height }
}

/// The tab under a click at `relative_x` columns into a tab strip `width`
/// columns wide: the strip is split into four equal parts.
pub open spec fn tab_at_column(relative_x: u16, width: u16) -> Tab {
    let w: int = if width == 0 {
        1
    } else {
        width as int
    };
    let index = relative_x * 4 / w;
    if index < 3 {
        tab_at(index)
    } else {
        Tab::Records
    }
}

/// A click on the tab strip picks the tab of the quarter of the strip it
/// falls in, Live in the leftmost quarter and Records in the rightmost, so a
/// click further to the right never picks a tab further to the left.
pub proof fn lemma_click_quarters(rel: u16, other: u16, width: u16)
    requires
        0 < width,
        rel < width,
        other < width,
    ensures
        4 * rel < width ==> tab_at_column(rel, width) == Tab::Live,
        width <= 4 * rel < 2 * width ==> tab_at_column(rel, width) == Tab::Daily,
        2 * width <= 4 * rel < 3 * width ==> tab_at_column(rel, width) == Tab::Hourly,
        3 * width <= 4 * rel ==> tab_at_column(rel, width) == Tab::Records,
        rel <= other ==> tab_index(tab_at_column(rel, width)) <= tab_index(
            tab_at_column(other, width),
        ),
{
    let w = width as int;
    let i = rel * 4 / w;
    let j = other * 4 / w;
    assert(i * w <= 4 * rel < i * w + w && 0 <= i) by (nonlinear_arith)
        requires
            i == rel * 4 / w,
            w > 0,
            rel >= 0,
    ;
    assert(j * w <= 4 * other < j * w + w && 0 <= j) by (nonlinear_arith)
        requires
            j == other * 4 / w,
            w > 0,
            other >= 0,
    ;
    assert(4 * rel < w ==> i < 1) by (nonlinear_arith)
        requires
            i * w <= 4 * rel,
            w > 0,
    ;
    assert(w <= 4 * rel < 2 * w ==> 1 <= i < 2) by (nonlinear_arith)
        requires
            i * w <= 4 * rel < i * w + w,
            w > 0,
    ;
    assert(2 * w <= 4 * rel < 3 * w ==> 2 <= i < 3) by (nonlinear_arith)
        requires
            i * w <= 4 * rel < i * w + w,
            w > 0,
    ;
    assert(3 * w <= 4 * rel ==> 3 <= i) by (nonlinear_arith)
        requires
            4 * rel < i * w + w,
            w > 0,
    ;
    assert(rel <= other ==> i <= j) by (nonlinear_arith)
        requires
            i * w <= 4 * rel,
            4 * other < j * w + w,
            w > 0,
    ;
}

/// The tab that a left click at (`column`, `row`) selects, when it falls on
/// the tab strip `tabs`.
pub fn clicked_tab(column: u16, row: u16, tabs: Area) -> (tab: Option<Tab>)
    ensures
        (column < tabs.x || column >= tabs.x + tabs.width || row < tabs.y || row >= tabs.y
            + tabs.height) ==> tab is None,
        !(column < tabs.x || column >= tabs.x + tabs.width || row < tabs.y || row >= tabs.y
            + tabs.height) ==> tab == Some(tab_at_column((column - tabs.x) as u16, tabs.width)),
{
    if column < tabs.x || column as u32 >= tabs.x as u32 + tabs.width as u32 || row < tabs.y
        || row as u32 >= tabs.y as u32 + tabs.height as u32 {
        return None;
    }
    let relative_x = column - tabs.x;
    let width: u32 = if tabs.width == 0 {
        1
    } else {
        tabs.width as u32
    };
    let index = relative_x as u32 * 4 / width;
    Some(
        if index == 0 {
            Tab::Live
        } else if index == 1 {
            Tab::Daily
        } else if index == 2 {
            Tab::Hourly
        } else {
            Tab::Records
        },
    )
}

/// What the recent-speed chart draws.
pub struct KpmBars {
    /// One value per bar, oldest first, padded with zeros on the left.
    pub values: Vec<u64>,
    /// The value that fills a bar: the largest value, but at least 60.
    pub maximum: u64,
    /// The largest sample of the whole history (zero when empty).
    pub peak: u64,
}

pub open spec fn seq_max(s: Seq<u64>) -> int
    decreases s.len(),
{
    if s.len() == 0 {
        0
    } else {
        let m = seq_max(s.drop_last());
        if s.last() > m {
            s.last() as int
        } else {
            m
        }
    }
}

proof fn lemma_seq_max(s: Seq<u64>)
    ensures
        0 <= seq_max(s) <= u64::MAX,
        forall|i: int| 0 <= i < s.len() ==> #[trigger] s[i] <= seq_max(s),
        s.len() > 0 ==> exists|i: int| 0 <= i < s.len() && #[trigger] s[i] == seq_max(s),
    decreases s.len(),
{
    if s.len() > 0 {
        lemma_seq_max(s.drop_last());
        assert forall|i: int| 0 <= i < s.len() implies #[trigger] s[i] <= seq_max(s) by {
            if i < s.len() - 1 {
                assert(s[i] == s.drop_last()[i]);
            }
        }
        if s.last() <= seq_max(s.drop_last()) && s.len() > 1 {
            let i = choose|i: int|
                0 <= i < s.drop_last().len() && #[trigger] s.drop_last()[i] == seq_max(
                    s.drop_last(),
                );
            assert(s[i] == s.drop_last()[i]);
        }
        if s.len() == 1 {
            assert(s[0] == s.last());
        }
    }
}

/// The largest value of a sequence of samples, zero when empty.
fn max_of(values: &VecDeque<u64>) -> (m: u64)
    ensures
        m == seq_max(values@),
{
    let mut m: u64 = 0;
    let mut i: usize = 0;
    while i < values.len()
        invariant
            i <= values@.len(),
            m == seq_max(values@.take(i as int)),
        decreases values@.len() - i,
    {
        assert(values@.take(i + 1).drop_last() =~= values@.take(i as int));
        if values[i] > m {
            m = values[i];
        }
        i = i + 1;
    }
    assert(values@.take(values@.len() as int) =~= values@);
    m
}

/// The bars of the recent-speed chart in a panel `inner_width` columns wide:
/// one bar per four columns (at least one), the newest samples on the right.
pub fn recent_kpm_bars(history: &VecDeque<u64>, inner_width: u16) -> (bars: KpmBars)
    ensures
        ({
            let slots: int = if inner_width / 4 == 0 {
                1
            } else {
                (inner_width / 4) as int
            };
            let visible: int = if history@.len() < slots {
                history@.len() as int
            } else {
                slots
            };
            &&& bars.values@ == Seq::new((slots - visible) as nat, |i: int| 0u64) + history@.skip(
                history@.len() - visible,
            )
            &&& bars.maximum == if seq_max(bars.values@) > 60 {
                seq_max(bars.values@)
            } else {
                60
            }
            &&& bars.peak == seq_max(history@)
        }),
{
    let peak = max_of(history);
    let slots: usize = if inner_width / 4 == 0 {
        1
    } else {
        (inner_width / 4) as usize
    };
    let visible = if history.len() < slots {
        history.len()
    } else {
        slots
    };
    let mut values: VecDeque<u64> = VecDeque::new();
    let mut i: usize = 0;
    while i < slots - visible
        invariant
            visible <= slots,
            i <= slots - visible,
            values@ == Seq::new(i as nat, |k: int| 0u64),
        decreases slots - visible - i,
    {
        values.push_back(0);
        i = i + 1;
        assert(values@ =~= Seq::new(i as nat, |k: int| 0u64));
    }
    let ghost zeros = values@;
    let start = history.len() - visible;
    let mut j: usize = start;
    while j < history.len()
        invariant
            start <= j <= history@.len(),
            start == history@.len() - visible,
            values@ == zeros + history@.subrange(start as int, j as int),
        decreases history@.len() - j,
    {
        values.push_back(history[j]);
        j = j + 1;
        assert(values@ =~= zeros + history@.subrange(start as int, j as int));
    }
    assert(history@.subrange(start as int, history@.len() as int) =~= history@.skip(start as int));
    let largest = max_of(&values);
    let maximum = if largest > 60 {
        largest
    } else {
        60
    };
    let mut out: Vec<u64> = Vec::new();
    let mut k: usize = 0;
    while k < values.len()
        invariant
            k <= values@.len(),
            out@ == values@.take(k as int),
        decreases values@.len() - k,
    {
        out.push(values[k]);
        k = k + 1;
        assert(out@ =~= values@.take(k as int));
    }
    assert(values@.take(values@.len() as int) =~= values@);
    KpmBars { values: out, maximum, peak }
}

/// The figures of the daily page.
pub struct WeekSummary {
    /// Presses over the last seven days, today included.
    pub total: u64,
    /// Presses over the seven days before those.
    pub previous_total: u64,
    /// `total` divided by seven, rounded down.
    pub average: u64,
    /// The most presses on one of the last seven days.
    pub best: u64,
}

/// The figures of the daily page for `today`.
pub fn week_summary(stats: &Stats, today: i32) -> (summary: WeekSummary)
    requires
        is_day(today as int),
        today - 13 >= DAY_MIN,
        stats.window_total(today - 6, 7) <= u64::MAX,
        stats.window_total(today - 13, 7) <= u64::MAX,
    ensures
        summary.total == stats.window_total(today - 6, 7),
        summary.previous_total == stats.window_total(today - 13, 7),
        summary.average == summary.total / 7,
        forall|i: int| 0 <= i < 7 ==> stats.day_total(#[trigger] date_after(today - 6, i)) <= summary.best,
        exists|i: int| 0 <= i < 7 && stats.day_total(#[trigger] date_after(today - 6, i)) == summary.best,
{
    proof {
        stats.lemma_window_terms_fit(today - 6, 7);
        stats.lemma_window_terms_fit(today - 13, 7);
    }
    let days = stats.last_days(today, 7);
    let previous = stats.last_days(today - 7, 7);
    let mut total: u64 = 0;
    let mut previous_total: u64 = 0;
    let mut best: u64 = 0;
    let mut i: usize = 0;
    while i < 7
        invariant
            i <= 7,
            days@.len() == 7,
            previous@.len() == 7,
            forall|j: int|
                0 <= j < 7 ==> #[trigger] days@[j] == (
                    date_after(today - 6, j),
                    stats.day_total(date_after(today - 6, j)) as u64,
                ),
            forall|j: int|
                0 <= j < 7 ==> #[trigger] previous@[j] == (
                    date_after(today - 13, j),
                    stats.day_total(date_after(today - 13, j)) as u64,
                ),
            stats.window_total(today - 6, 7) <= u64::MAX,
            stats.window_total(today - 13, 7) <= u64::MAX,
            forall|j: int|
                0 <= j < 7 ==> #[trigger] stats.day_total(date_after(today - 6, j)) <= u64::MAX,
            total == stats.window_total(today - 6, i as nat),
            previous_total == stats.window_total(today - 13, i as nat),
            forall|j: int| 0 <= j < i ==> stats.day_total(#[trigger] date_after(today - 6, j)) <= best,
            i == 0 ==> best == 0,
            i > 0 ==> exists|j: int| 0 <= j < i && stats.day_total(#[trigger] date_after(today - 6, j)) == best,
        decreases 7 - i,
    {
        proof {
            stats.lemma_window_total_monotone(today - 6, (i + 1) as nat, 7);
            stats.lemma_window_total_monotone(today - 13, (i + 1) as nat, 7);
            stats.lemma_window_total_monotone(today - 6, i as nat, i as nat);
            stats.lemma_window_total_monotone(today - 13, i as nat, i as nat);
            stats.lemma_window_terms_fit(today - 13, 7);
            stats.lemma_day_total_nonneg(date_after(today - 6, i as int));
            stats.lemma_day_total_nonneg(date_after(today - 13, i as int));
            assert(stats.day_total(date_after(today - 13, i as int)) <= u64::MAX);
        }
        let value = days[i].1;
        assert(value == stats.day_total(date_after(today - 6, i as int)));
        total = total + value;
        previous_total = previous_total + previous[i].1;
        if i == 0 || value >= best {
            best = value;
        }
        i = i + 1;
    }
    WeekSummary { total, previous_total, average: total / 7, best }
}

/// The figures of the hourly page.
pub struct HourSummary {
    /// Presses today.
    pub total: u64,
    /// The hour with the most presses and that number, the latest such hour
    /// on a tie; `None` when no hour has presses.
    pub peak: Option<(usize, u64)>,
    /// Hours with at least one press.
    pub active_hours: usize,
}

/// The hours among the first `n` of `hours` that have presses, counted by
/// `active_count`, form a finite set of that size.
pub proof fn lemma_active_count_is_set_size(hours: Seq<u64>, n: int)
    requires
        0 <= n <= hours.len(),
    ensures
        Set::new(|h: int| 0 <= h < n && hours[h] > 0).finite(),
        Set::new(|h: int| 0 <= h < n && hours[h] > 0).len() == active_count(hours, n),
    decreases n,
{
    let s = Set::new(|h: int| 0 <= h < n && hours[h] > 0);
    if n == 0 {
        assert(s =~= Set::<int>::empty());
    } else {
        lemma_active_count_is_set_size(hours, n - 1);
        let before = Set::new(|h: int| 0 <= h < n - 1 && hours[h] > 0);
        if hours[n - 1] > 0 {
            assert(s =~= before.insert(n - 1));
            assert(!before.contains(n - 1));
        } else {
            assert(s =~= before);
        }
    }
}

/// Hours among the first `n` of `hours` that have presses.
pub open spec fn active_count(hours: Seq<u64>, n: int) -> int
    decreases n,
{
    if n <= 0 {
        0
    } else {
        active_count(hours, n - 1) + if hours[n - 1] > 0 {
            1int
        } else {
            0int
        }
    }
}

/// The figures of the hourly page for `date`.
pub fn hour_summary(stats: &Stats, date: i32) -> (summary: HourSummary)
    requires
        stats.day_total(date) <= u64::MAX,
    ensures
        summary.total == stats.day_total(date),
        summary.active_hours == active_count(stats.day_hours(date), 24),
        summary.active_hours == Set::new(
            |h: int| 0 <= h < 24 && stats.day_hours(date)[h] > 0,
        ).len(),
        summary.peak is None <==> forall|h: int| 0 <= h < 24 ==> #[trigger] stats.day_hours(date)[h] == 0,
        summary.peak matches Some((hour, value)) ==> {
            &&& hour < 24
            &&& value > 0
            &&& stats.day_hours(date)[hour as int] == value
            &&& forall|h: int| 0 <= h < 24 ==> #[trigger] stats.day_hours(date)[h] <= value
            &&& forall|h: int| hour < h < 24 ==> #[trigger] stats.day_hours(date)[h] < value
        },
{
    let total = stats.total_on(date);
    let hours = stats.hours_on(date);
    let mut peak: Option<(usize, u64)> = None;
    let mut active: usize = 0;
    let mut h: usize = 0;
    while h < 24
        invariant
            h <= 24,
            hours@ == stats.day_hours(date),
            hours@.len() == 24,
            active == active_count(hours@, h as int),
            active <= h,
            peak is None <==> forall|g: int| 0 <= g < h ==> #[trigger] hours@[g] == 0,
            peak matches Some((hour, value)) ==> {
                &&& hour < h
                &&& value > 0
                &&& hours@[hour as int] == value
                &&& forall|g: int| 0 <= g < h ==> #[trigger] hours@[g] <= value
                &&& forall|g: int| hour < g < h ==> #[trigger] hours@[g] < value
            },
        decreases 24 - h,
    {
        let value = hours[h];
        if value > 0 {
            active = active + 1;
            let replace = match peak {
                None => true,
                Some((_, best)) => value >= best,
            };
            if replace {
                peak = Some((h, value));
            }
        }
        h = h + 1;
    }
    proof {
        lemma_active_count_is_set_size(hours@, 24);
    }
    HourSummary { total, peak, active_hours: active }
}

} // verus!
