//! The labels of a chart's time axis and cursors, and the detail in which curves are drawn.
//! Times are nanoseconds.
use crate::text;
use vstd::prelude::*;

verus! {

/// How a time is written.
#[derive(Clone, Copy, Debug, PartialEq, Eq, Structural)]
pub enum TimeLabel {
    /// As a date and time of day; nanoseconds since 1970.
    Wall(i128),
    /// In seconds with so many decimals.
    Seconds { value: i128, digits: u8 },
}

/// The first moment of the year 2000. Recorded times behind it are taken for dates.
pub const FIRST_DATE: i64 = 946_684_800_000_000_000;

/// One second.
pub const SECOND: i64 = 1_000_000_000;

/// What a chart's times are, and how they are to be shown.
#[derive(Clone, Copy, Debug, PartialEq, Eq, Structural)]
pub struct ChartTime {
    /// One for a replayed file, anything else for the running capture.
    pub source: i32,
    /// One for absolute times, anything else for times since the start.
    pub mode: i32,
    /// When the capture began, in nanoseconds since 1970.
    pub epoch: Option<i64>,
    /// Where the times of a replayed file begin.
    pub base: i64,
}

/// A recorded time, written as it stands in its file.
pub open spec fn original_label(t: i64, digits: u8) -> TimeLabel {
    if t > FIRST_DATE {
        TimeLabel::Wall(t as i128)
    } else {
        TimeLabel::Seconds { value: t as i128, digits }
    }
}

/// A recorded time as it stands in its file: a date, or seconds with three decimals or one.
pub fn playback_original_time_label(t: i64, precise: bool) -> (r: TimeLabel)
    ensures
        r == original_label(
            t,
            if precise {
                3
            } else {
                1
            },
        ),
{
    if t > FIRST_DATE {
        TimeLabel::Wall(t as i128)
    } else if precise {
        TimeLabel::Seconds { value: t as i128, digits: 3 }
    } else {
        TimeLabel::Seconds { value: t as i128, digits: 1 }
    }
}

/// The label of a time: absolute times are dates where the beginning is known, and times of a
/// replayed file count from its beginning.
pub open spec fn time_label(c: ChartTime, t: i64, digits: u8) -> TimeLabel {
    if c.mode == 1 && c.source == 0 && c.epoch is Some {
        TimeLabel::Wall((c.epoch->0 + t) as i128)
    } else if c.mode == 1 && c.source == 1 {
        original_label(t, digits)
    } else if c.source == 1 {
        TimeLabel::Seconds { value: (t - c.base) as i128, digits }
    } else {
        TimeLabel::Seconds { value: t as i128, digits }
    }
}

fn label_with(c: ChartTime, t: i64, precise: bool) -> (r: TimeLabel)
    ensures
        r == time_label(
            c,
            t,
            if precise {
                3
            } else {
                1
            },
        ),
{
    let digits: u8 = if precise {
        3
    } else {
        1
    };
    if c.source == 1 {
        if c.mode == 1 {
            return playback_original_time_label(t, precise);
        }
        return TimeLabel::Seconds { value: t as i128 - c.base as i128, digits };
    }
    if c.source == 0 && c.mode == 1 {
        if let Some(epoch) = c.epoch {
            return TimeLabel::Wall(epoch as i128 + t as i128);
        }
    }
    TimeLabel::Seconds { value: t as i128, digits }
}

/// The label of a time with one decimal.
pub fn chart_time_label(c: ChartTime, t: i64) -> (r: TimeLabel)
    ensures
        r == time_label(c, t, 1),
{
    label_with(c, t, false)
}

/// The label of a cursor, with three decimals.
pub fn chart_cursor_time_label(c: ChartTime, t: i64) -> (r: TimeLabel)
    ensures
        r == time_label(c, t, 3),
{
    label_with(c, t, true)
}

/// The decimals of the axis: the shorter the visible stretch, the more.
pub open spec fn axis_digits(span: i64) -> u8 {
    if span >= 10 * SECOND {
        1
    } else if span >= SECOND {
        2
    } else if span >= SECOND / 10 {
        3
    } else {
        4
    }
}

/// The label of a time on the axis.
pub fn chart_axis_time_label(c: ChartTime, t: i64, visible_span: i64) -> (r: TimeLabel)
    ensures
        r == if c.mode == 1 {
            time_label(c, t, 1)
        } else {
            time_label(c, t, axis_digits(visible_span))
        },
{
    if c.mode == 1 {
        return chart_time_label(c, t);
    }
    let value: i128 = if c.source == 1 {
        t as i128 - c.base as i128
    } else {
        t as i128
    };
    let digits: u8 = if visible_span >= 10 * SECOND {
        1
    } else if visible_span >= SECOND {
        2
    } else if visible_span >= SECOND / 10 {
        3
    } else {
        4
    };
    TimeLabel::Seconds { value, digits }
}

/// How many points of a curve are drawn on a plot so many pixels wide: two a pixel, within
/// limits.
pub fn render_point_cap(plot_width: usize) -> (r: usize)
    ensures
        r == if plot_width <= 300 {
            600
        } else if plot_width >= 2_000 {
            4_000
        } else {
            2 * plot_width
        },
{
    if plot_width <= 300 {
        600
    } else if plot_width >= 2_000 {
        4_000
    } else {
        2 * plot_width
    }
}

/// How many samples of a curve get a marker: one for seven pixels, within limits.
pub open spec fn marker_cap(plot_width: int) -> int {
    let wanted = (plot_width + 6) / 7;
    if wanted < 40 {
        40
    } else if wanted > 320 {
        320
    } else {
        wanted
    }
}

/// The places of the samples that get a marker: evenly spaced, and the last one.
pub fn marked_places(plot_width: usize, points: usize) -> (r: Vec<usize>)
    requires
        plot_width < usize::MAX - 6,
    ensures
        forall|i: int, j: int| 0 <= i < j < r@.len() ==> r@[i] < r@[j],
        forall|k: usize| #[trigger]
            r@.contains(k) <==> k < points && (k + 1 == points || k as int % marker_stride(
                plot_width as int,
                points as int,
            ) == 0),
{
    let wanted: usize = (plot_width + 6) / 7;
    let cap: usize = if wanted < 40 {
        40
    } else if wanted > 320 {
        320
    } else {
        wanted
    };
    let stride: usize = if points == 0 {
        1
    } else {
        (points - 1) / cap + 1
    };
    let mut out: Vec<usize> = Vec::new();
    let mut i: usize = 0;
    while i < points
        invariant
            i <= points,
            stride > 0,
            forall|a: int, b: int| 0 <= a < b < out@.len() ==> out@[a] < out@[b],
            forall|a: int| 0 <= a < out@.len() ==> (#[trigger] out@[a]) < i,
            forall|k: usize| #[trigger]
                out@.contains(k) <==> k < i && (k + 1 == points || k as int % stride as int == 0),
        decreases points - i,
    {
        let ghost before = out@;
        if i % stride == 0 || i + 1 == points {
            out.push(i);
        }
        proof {
            let after = out@;
            assert forall|k: usize| #[trigger] after.contains(k) <==> k < i + 1 && (k + 1 == points
                || k as int % stride as int == 0) by {
                if before.contains(k) {
                    let x = choose|x: int| 0 <= x < before.len() && before[x] == k;
                    assert(after[x] == k);
                }
                if k == i && (k + 1 == points || k as int % stride as int == 0) {
                    assert(after[after.len() - 1] == k);
                }
                if after.contains(k) && k != i {
                    let x = choose|x: int| 0 <= x < after.len() && after[x] == k;
                    assert(before[x] == k);
                    assert(before.contains(k));
                }
                if after.contains(k) && k == i && !before.contains(k) {
                    let x = choose|x: int| 0 <= x < after.len() && after[x] == k;
                    if x < before.len() {
                        assert(before[x] == k);
                    }
                }
            }
        }
        i += 1;
    }
    out
}

/// The distance between two markers.
pub open spec fn marker_stride(plot_width: int, points: int) -> int {
    if points <= 0 {
        1
    } else {
        (points - 1) / marker_cap(plot_width) + 1
    }
}

/// Whether a character can stand in the number that a text begins with.
pub open spec fn in_number(c: char) -> bool {
    ('0' as int) <= (c as int) <= ('9' as int) || c == '.' || c == '-' || c == '+'
}

fn stands_in_number(c: char) -> (r: bool)
    ensures
        r == in_number(c),
{
    let code: u32 = c as u32;
    (48 <= code && code <= 57) || c == '.' || c == '-' || c == '+'
}

/// The longest beginning made of characters of a number.
pub open spec fn number_head(s: Seq<char>) -> Seq<char>
    decreases s.len(),
{
    if s.len() == 0 || !in_number(s[0]) {
        seq![]
    } else {
        seq![s[0]] + number_head(s.skip(1))
    }
}

/// The text of the number that a text begins with, blanks before it aside.
pub fn number_text(s: &str) -> (r: String)
    ensures
        r@ == number_head(text::trim(s@)),
{
    let owned = text::trimmed(s);
    let chars = text::chars_of(owned.as_str());
    let mut out = String::new();
    let mut i: usize = 0;
    assert(chars@.skip(0) =~= chars@);
    while i < chars.len()
        invariant
            i <= chars@.len(),
            chars@ == text::trim(s@),
            number_head(chars@) == out@ + number_head(chars@.skip(i as int)),
        decreases chars@.len() - i,
    {
        let c: char = chars[i];
        if !stands_in_number(c) {
            assert(number_head(chars@.skip(i as int)) =~= Seq::<char>::empty());
            assert(out@ =~= number_head(chars@));
            return out;
        }
        let ghost before = out@;
        out.push(c);
        assert(chars@.skip(i as int).skip(1) =~= chars@.skip(i + 1));
        assert(before + (seq![c] + number_head(chars@.skip(i + 1))) =~= out@ + number_head(
            chars@.skip(i + 1),
        ));
        i += 1;
    }
    assert(number_head(chars@.skip(i as int)) =~= Seq::<char>::empty());
    assert(out@ =~= number_head(chars@));
    out
}

/// Two times on one axis have labels of one form: dates for both, or seconds with the same
/// decimals, unless a replayed file mixes small times with dates.
pub proof fn law_axis_labels_agree(c: ChartTime, a: i64, b: i64, digits: u8)
    requires
        !(c.mode == 1 && c.source == 1),
    ensures
        (time_label(c, a, digits) is Wall) == (time_label(c, b, digits) is Wall),
        time_label(c, a, digits) matches TimeLabel::Seconds { value: va, digits: da }
            ==> time_label(c, b, digits) matches TimeLabel::Seconds { value: vb, digits: db } && da
            == db && vb - va == b - a,
{
}

} // verus!
