//! Bounded logs and the clock texts in them.
use crate::lists::newest;
use crate::text;
use vstd::prelude::*;

verus! {

/// Lines that a log keeps.
pub const LOG_LIMIT: usize = 300;

/// Lines that a traffic monitor keeps.
pub const TRAFFIC_LIMIT: usize = 500;

/// A line of a log.
#[derive(Debug)]
pub struct LogLine {
    pub time: String,
    pub dir: String,
    pub text: String,
}

/// The words of a line of a log.
pub struct LineView {
    pub time: Seq<char>,
    pub dir: Seq<char>,
    pub text: Seq<char>,
}

impl View for LogLine {
    type V = LineView;

    open spec fn view(&self) -> LineView {
        LineView { time: self.time@, dir: self.dir@, text: self.text@ }
    }
}

impl Clone for LogLine {
    fn clone(&self) -> (r: LogLine)
        ensures
            r@ == self@,
    {
        LogLine { time: self.time.clone(), dir: self.dir.clone(), text: self.text.clone() }
    }
}

/// The words of the lines of a log.
pub open spec fn lines_view(lines: Seq<LogLine>) -> Seq<LineView> {
    lines.map_values(|l: LogLine| l@)
}

/// A copy of the lines of a log.
pub fn copy_lines(lines: &[LogLine]) -> (r: Vec<LogLine>)
    ensures
        lines_view(r@) == lines_view(lines@),
{
    let mut out: Vec<LogLine> = Vec::new();
    let mut i: usize = 0;
    while i < lines.len()
        invariant
            i <= lines@.len(),
            lines_view(out@) =~= lines_view(lines@.take(i as int)),
        decreases lines@.len() - i,
    {
        let ghost before = out@;
        out.push(lines[i].clone());
        proof {
            assert(lines_view(out@) =~= lines_view(before).push(lines@[i as int]@));
            assert(lines_view(lines@.take(i + 1)) =~= lines_view(lines@.take(i as int)).push(
                lines@[i as int]@,
            ));
        }
        i += 1;
    }
    assert(lines@.take(i as int) =~= lines@);
    out
}

/// The lines of a log after a further one.
pub open spec fn logged(
    lines: Seq<LineView>,
    secs: nat,
    dir: Seq<char>,
    words: Seq<char>,
    limit: int,
) -> Seq<LineView> {
    newest(lines.push(LineView { time: hms(secs), dir, text: words }), limit)
}

/// Appends a line with the time of day to a log.
pub fn push_log(buf: &mut Vec<LogLine>, secs: u64, dir: &str, words: String, limit: usize)
    ensures
        lines_view(final(buf)@) == logged(
            lines_view(old(buf)@),
            secs as nat,
            dir@,
            words@,
            limit as int,
        ),
{
    let ghost before = buf@;
    let line = LogLine { time: hms_text(secs), dir: dir.to_owned(), text: words };
    push_line(buf, line, limit);
    proof {
        let l = before.push(line);
        assert(lines_view(l) =~= lines_view(before).push(line@));
        assert(lines_view(newest(l, limit as int)) =~= newest(lines_view(l), limit as int));
    }
}

/// Appends a line and drops the oldest ones beyond the limit.
pub fn push_line(buf: &mut Vec<LogLine>, line: LogLine, limit: usize)
    ensures
        final(buf)@ == newest(old(buf)@.push(line), limit as int),
{
    buf.push(line);
    let ghost all = buf@;
    assert(all.skip(0) =~= all);
    let mut dropped: Ghost<int> = Ghost(0);
    while buf.len() > limit
        invariant
            0 <= dropped@ <= all.len(),
            buf@ == all.skip(dropped@),
            dropped@ > 0 ==> buf@.len() >= limit,
        decreases buf@.len(),
    {
        let ghost before = buf@;
        let _ = buf.remove(0);
        proof {
            assert(buf@ =~= before.skip(1));
            assert(before.skip(1) =~= all.skip(dropped@ + 1));
            dropped@ = dropped@ + 1;
        }
    }
    assert(buf@ =~= newest(all, limit as int));
}

/// A log never holds more lines than its limit, and its last line is the one that came last.
pub proof fn law_logs_stay_bounded(lines: Seq<LogLine>, line: LogLine, limit: int)
    requires
        limit > 0,
    ensures
        newest(lines.push(line), limit).len() <= limit,
        newest(lines.push(line), limit).last() == line,
{
}

/// The time of day of a number of seconds since midnight of some day.
pub open spec fn hms(secs: nat) -> Seq<char> {
    text::decimal_padded(secs / 3600 % 24, 2) + ":"@ + text::decimal_padded(secs / 60 % 60, 2) + ":"@
        + text::decimal_padded(secs % 60, 2)
}

/// The time of day of a number of seconds since the epoch.
pub fn hms_text(secs: u64) -> (r: String)
    ensures
        r@ == hms(secs as nat),
{
    let mut out = String::new();
    text::push_decimal_padded(&mut out, secs / 3600 % 24, 2);
    out.push_str(":");
    text::push_decimal_padded(&mut out, secs / 60 % 60, 2);
    out.push_str(":");
    text::push_decimal_padded(&mut out, secs % 60, 2);
    assert(out@ =~= hms(secs as nat));
    out
}

// ---------------------------------------------------------------- calendar

/// Whether a year has a leap day.
pub open spec fn is_leap(y: int) -> bool {
    y % 4 == 0 && (y % 100 != 0 || y % 400 == 0)
}

/// The days of a month.
pub open spec fn month_len(y: int, m: int) -> int {
    if m == 2 {
        if is_leap(y) {
            29
        } else {
            28
        }
    } else if m == 4 || m == 6 || m == 9 || m == 11 {
        30
    } else {
        31
    }
}

/// The days of a year.
pub open spec fn year_len(y: int) -> int {
    if is_leap(y) {
        366
    } else {
        365
    }
}

/// Whether a date exists.
pub open spec fn is_date(y: int, m: int, d: int) -> bool {
    1 <= m <= 12 && 1 <= d <= month_len(y, m)
}

/// The days from the first day of 1970 to the first day of a year.
pub open spec fn days_to_year(y: int) -> int
    decreases y,
{
    if y <= 1970 {
        0
    } else {
        days_to_year(y - 1) + year_len(y - 1)
    }
}

/// The days from the first day of a year to the first day of a month.
pub open spec fn days_to_month(y: int, m: int) -> int
    decreases m,
{
    if m <= 1 {
        0
    } else {
        days_to_month(y, m - 1) + month_len(y, m - 1)
    }
}

/// The days from the first day of 1970 to a date.
pub open spec fn days_to_date(y: int, m: int, d: int) -> int {
    days_to_year(y) + days_to_month(y, m) + d - 1
}

/// The days before a year in closed form.
spec fn days_closed(y: int) -> int {
    365 * (y - 1970) + (y - 1) / 4 - 492 - ((y - 1) / 100 - 19) + ((y - 1) / 400 - 4)
}

proof fn lemma_step_4(p: int)
    ensures
        p / 4 - (p - 1) / 4 == if p % 4 == 0 { 1int } else { 0 },
{
}

proof fn lemma_step_100(p: int)
    ensures
        p / 100 - (p - 1) / 100 == if p % 100 == 0 { 1int } else { 0 },
{
}

proof fn lemma_step_400(p: int)
    ensures
        p / 400 - (p - 1) / 400 == if p % 400 == 0 { 1int } else { 0 },
{
}

proof fn lemma_multiples(p: int)
    ensures
        p % 100 == 0 ==> p % 4 == 0,
        p % 400 == 0 ==> p % 100 == 0,
{
}

#[verifier::opaque]
spec fn closed_form_steps(p: int) -> bool {
    days_closed(p + 1) == days_closed(p) + year_len(p)
}

proof fn lemma_closed_step(p: int)
    ensures
        closed_form_steps(p),
{
    reveal(closed_form_steps);
    lemma_step_4(p);
    lemma_step_100(p);
    lemma_step_400(p);
    lemma_multiples(p);
    let a = p / 4 - (p - 1) / 4;
    let b = p / 100 - (p - 1) / 100;
    let c = p / 400 - (p - 1) / 400;
    assert(days_closed(p + 1) - days_closed(p) == 365 + a - b + c);
}

proof fn lemma_days_to_year(y: int)
    requires
        y >= 1970,
    ensures
        days_to_year(y) == days_closed(y),
    decreases y,
{
    if y > 1970 {
        lemma_days_to_year(y - 1);
        lemma_closed_step(y - 1);
        reveal(closed_form_steps);
    }
}

proof fn lemma_days_to_month(y: int)
    ensures
        days_to_month(y, 1) == 0,
        days_to_month(y, 2) == 31,
        days_to_month(y, 3) == 31 + month_len(y, 2),
        days_to_month(y, 4) == 62 + month_len(y, 2),
        days_to_month(y, 5) == 92 + month_len(y, 2),
        days_to_month(y, 6) == 123 + month_len(y, 2),
        days_to_month(y, 7) == 153 + month_len(y, 2),
        days_to_month(y, 8) == 184 + month_len(y, 2),
        days_to_month(y, 9) == 215 + month_len(y, 2),
        days_to_month(y, 10) == 245 + month_len(y, 2),
        days_to_month(y, 11) == 276 + month_len(y, 2),
        days_to_month(y, 12) == 306 + month_len(y, 2),
{
    reveal_with_fuel(days_to_month, 13);
}

/// A date of the calendar.
#[derive(Clone, Copy, Debug, PartialEq, Eq, Structural)]
pub struct Date {
    pub year: u64,
    pub month: u64,
    pub day: u64,
}


/// The days from the first of March of year zero to the first of March of a year.
spec fn march_days(y: int) -> int {
    365 * y + y / 4 - y / 100 + y / 400
}

proof fn lemma_march_first(y: int)
    requires
        y >= 1970,
    ensures
        days_to_year(y) + days_to_month(y, 3) == march_days(y) - 719468,
{
    lemma_days_to_year(y);
    lemma_days_to_month(y);
    lemma_step_4(y);
    lemma_step_100(y);
    lemma_step_400(y);
    lemma_multiples(y);
}

proof fn lemma_next_year(y: int)
    requires
        y >= 1969,
    ensures
        days_to_year(y + 1) == march_days(y) - 719468 + 306,
{
    lemma_days_to_year(y + 1);
}

proof fn lemma_cycle(era: int, c: int, q: int, yy: int)
    requires
        era >= 0,
        0 <= c <= 3,
        0 <= q <= 24,
        0 <= yy <= 3,
    ensures
        march_days(400 * era + 100 * c + 4 * q + yy) == 146097 * era + 36524 * c + 1461 * q + 365
            * yy,
{
    let y = 400 * era + 100 * c + 4 * q + yy;
    assert(y / 4 == 100 * era + 25 * c + q);
    assert(y / 100 == 4 * era + c);
    assert(y / 400 == era);
}

proof fn lemma_leap_end(era: int, c: int, q: int)
    requires
        era >= 0,
        0 <= c <= 3,
        0 <= q <= 24,
        q < 24 || c == 3,
    ensures
        is_leap(400 * era + 100 * c + 4 * q + 4),
{
    let y = 400 * era + 100 * c + 4 * q + 4;
    assert(y % 4 == 0);
    if q < 24 {
        assert(y % 100 == 4 * q + 4);
    } else {
        assert(y % 400 == 0);
    }
}

/// The date of a number of days since the first day of 1970.
pub fn civil_date(days: u64) -> (r: Date)
    requires
        days <= 0x1_0000_0000_0000,
    ensures
        is_date(r.year as int, r.month as int, r.day as int),
        r.year >= 1970,
        days_to_date(r.year as int, r.month as int, r.day as int) == days,
{
    let z: u64 = days + 719468;
    let era: u64 = z / 146097;
    let doe: u64 = z % 146097;
    let c: u64 = if doe / 36524 < 3 {
        doe / 36524
    } else {
        3
    };
    let rest: u64 = doe - c * 36524;
    let q: u64 = rest / 1461;
    let s: u64 = rest % 1461;
    let yy: u64 = if s / 365 < 3 {
        s / 365
    } else {
        3
    };
    let doy: u64 = s - 365 * yy;
    assert(q <= 24);
    assert(doy <= 365);
    assert(doy == 365 ==> yy == 3 && s == 1460 && (q < 24 || c == 3));
    let y: u64 = 400 * era + 100 * c + 4 * q + yy;
    proof {
        lemma_cycle(era as int, c as int, q as int, yy as int);
        assert(z == march_days(y as int) + doy);
        if y < 1969 {
            assert(march_days(y as int) + 365 < 719468) by {
                lemma_small_years(y as int);
            }
        }
    }
    assert(y >= 1969);
    let mp: u64 = (5 * doy + 2) / 153;
    let day: u64 = doy - (153 * mp + 2) / 5 + 1;
    if mp < 10 {
        proof {
            assert(y >= 1970) by {
                if y == 1969 {
                    assert(march_days(1969) == 719162);
                }
            }
            lemma_march_first(y as int);
            lemma_days_to_month(y as int);
        }
        Date { year: y, month: mp + 3, day }
    } else {
        proof {
            lemma_next_year(y as int);
            lemma_days_to_month(y + 1);
            if doy == 365 {
                lemma_leap_end(era as int, c as int, q as int);
                assert(is_leap(y + 1));
            }
        }
        Date { year: y + 1, month: mp - 9, day }
    }
}

proof fn lemma_small_years(y: int)
    requires
        0 <= y < 1969,
    ensures
        march_days(y) + 365 < 719468,
{
    assert(y / 4 <= 492);
    assert(y / 400 <= 4);
    assert(y / 100 >= 0);
    assert(365 * y <= 365 * 1968);
}

/// A date and time of day in the form of log files.
pub open spec fn timestamp_says(s: Seq<char>, secs: nat) -> bool {
    exists|y: int, m: int, d: int| #[trigger]
        is_date(y, m, d) && y >= 1970 && days_to_date(y, m, d) == secs / 86400 && s
            == text::decimal_padded(y as nat, 4) + "-"@ + text::decimal_padded(m as nat, 2) + "-"@
            + text::decimal_padded(d as nat, 2) + " "@ + hms(secs % 86400)
}

/// The date and time of a number of seconds since the epoch, in universal time.
pub fn timestamp_text(secs: u64) -> (r: String)
    requires
        secs <= i64::MAX,
    ensures
        timestamp_says(r@, secs as nat),
{
    let date: Date = civil_date(secs / 86400);
    let mut out = String::new();
    text::push_decimal_padded(&mut out, date.year, 4);
    out.push_str("-");
    text::push_decimal_padded(&mut out, date.month, 2);
    out.push_str("-");
    text::push_decimal_padded(&mut out, date.day, 2);
    out.push_str(" ");
    let time = hms_text(secs % 86400);
    out.push_str(time.as_str());
    proof {
        let y = date.year as int;
        let m = date.month as int;
        let d = date.day as int;
        assert(is_date(y, m, d));
        assert(out@ =~= text::decimal_padded(y as nat, 4) + "-"@ + text::decimal_padded(m as nat, 2)
            + "-"@ + text::decimal_padded(d as nat, 2) + " "@ + hms((secs % 86400) as nat));
    }
    out
}

proof fn lemma_year_bounds(y: int, m: int, d: int)
    requires
        is_date(y, m, d),
    ensures
        0 <= days_to_month(y, m) + d - 1 < year_len(y),
{
    lemma_days_to_month(y);
}

proof fn lemma_years_grow(a: int, b: int)
    requires
        1970 <= a < b,
    ensures
        days_to_year(a) + year_len(a) <= days_to_year(b),
    decreases b - a,
{
    if b > a + 1 {
        lemma_years_grow(a, b - 1);
    }
}

proof fn lemma_months_grow(y: int, a: int, b: int)
    requires
        1 <= a < b <= 12,
    ensures
        days_to_month(y, a) + month_len(y, a) <= days_to_month(y, b),
    decreases b - a,
{
    if b > a + 1 {
        lemma_months_grow(y, a, b - 1);
    }
}

/// A day has one date: two dates with the same number of days since 1970 are the same.
pub proof fn law_a_day_has_one_date(y1: int, m1: int, d1: int, y2: int, m2: int, d2: int)
    requires
        is_date(y1, m1, d1),
        is_date(y2, m2, d2),
        y1 >= 1970,
        y2 >= 1970,
        days_to_date(y1, m1, d1) == days_to_date(y2, m2, d2),
    ensures
        y1 == y2 && m1 == m2 && d1 == d2,
{
    lemma_year_bounds(y1, m1, d1);
    lemma_year_bounds(y2, m2, d2);
    if y1 < y2 {
        lemma_years_grow(y1, y2);
    } else if y2 < y1 {
        lemma_years_grow(y2, y1);
    } else if m1 < m2 {
        lemma_months_grow(y1, m1, m2);
    } else if m2 < m1 {
        lemma_months_grow(y1, m2, m1);
    }
}

} // verus!
