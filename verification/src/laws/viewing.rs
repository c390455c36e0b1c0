//! Laws on what a chart shows: its window, the labels of its axes, and where points are marked.
use crate::ratio::{part_of, Ratio};
use crate::workbench::chart_labels::{
    chart_axis_time_label, chart_cursor_time_label, chart_time_label, marked_places, marker_cap,
    marker_stride, number_head, playback_original_time_label, render_point_cap, ChartTime,
    TimeLabel,
};
use crate::workbench::curves::{
    chart_axis_range, eased_zoom_step, pan_chart_range, readout_parts, selected_chart_range,
    visible_chart_range, Reading,
};
use vstd::prelude::*;

verus! {

proof fn lemma_part(length: int, num: int, den: int)
    requires
        length >= 0,
        den > 0,
    ensures
        num >= 0 ==> part_of(length, num, den) * den <= length * num < (part_of(length, num, den) + 1)
            * den,
        num <= 0 ==> (part_of(length, num, den) - 1) * den < length * num <= part_of(length, num, den)
            * den,
{
    let x = length * num;
    let m = if num >= 0 {
        x
    } else {
        length * (-num)
    };
    assert(num < 0 ==> m == -x) by (nonlinear_arith)
        requires
            m == if num >= 0 {
                x
            } else {
                length * (-num)
            },
            x == length * num,
    ;
    assert(num == 0 ==> x == 0) by (nonlinear_arith)
        requires
            x == length * num,
    ;
    vstd::arithmetic::div_mod::lemma_fundamental_div_mod(m, den);
    vstd::arithmetic::div_mod::lemma_mod_bound(m, den);
    let q = m / den;
    assert(den * q == q * den) by (nonlinear_arith);
    assert((q + 1) * den == q * den + den) by (nonlinear_arith);
    assert((-q) * den == -(q * den)) by (nonlinear_arith);
    assert((-q - 1) * den == -(q * den) - den) by (nonlinear_arith);
    assert((-q + 1) * den == -(q * den) + den) by (nonlinear_arith);
    if num == 0 {
        assert(q == 0) by (nonlinear_arith)
            requires
                0 <= q * den < den,
                den > 0,
                q * den == q * den,
        ;
    }
}

/// Dragging moves the window against the hand by the fraction of its width that the hand went,
/// rounded towards where it was, and only as far as there is something to see; its width is kept.
pub proof fn law_dragging_moves_the_window(
    view: (i64, i64),
    data: (i64, i64),
    drag: Ratio,
    r: (i64, i64),
)
    requires
        call_ensures(pan_chart_range, (view, data, drag), r),
        data.0 <= view.0 < view.1 <= data.1,
        drag.den > 0,
        -drag.den <= drag.num <= drag.den,
    ensures
        r.1 - r.0 == view.1 - view.0,
        data.0 <= r.0 && r.1 <= data.1,
        drag.num == 0 ==> r == view,
        drag.num > 0 ==> r.0 <= view.0 && (view.0 - r.0) * drag.den <= (view.1 - view.0) * drag.num,
        drag.num > 0 && r.0 > data.0 ==> (view.1 - view.0) * drag.num < (view.0 - r.0 + 1) * drag.den,
        drag.num < 0 ==> r.0 >= view.0 && (r.0 - view.0) * drag.den <= (view.1 - view.0) * -drag.num,
        drag.num < 0 && r.1 < data.1 ==> (view.1 - view.0) * -drag.num < (r.0 - view.0 + 1) * drag.den,
{
    let span = view.1 - view.0;
    let num = drag.num as int;
    let den = drag.den as int;
    lemma_part(span, num, den);
    let moved = part_of(span, num, den);
    assert(span * (-num) == -(span * num)) by (nonlinear_arith);
    assert((moved - 1) * den == moved * den - den) by (nonlinear_arith);
    assert((moved + 1) * den == moved * den + den) by (nonlinear_arith);
    assert((-moved) * den == -(moved * den)) by (nonlinear_arith);
    assert((-moved + 1) * den == -(moved * den) + den) by (nonlinear_arith);
    if num == 0 {
        assert(moved == 0) by (nonlinear_arith)
            requires
                moved * den <= span * num < (moved + 1) * den,
                num == 0,
                den > 0,
        ;
    }
    if num > 0 {
        assert(moved >= 0) by (nonlinear_arith)
            requires
                span * num < (moved + 1) * den,
                span > 0,
                num > 0,
                den > 0,
        ;
        let went = view.0 - r.0;
        assert(0 <= went <= moved);
        assert(went * den <= moved * den) by (nonlinear_arith)
            requires
                went <= moved,
                den > 0,
        ;
    }
    if num < 0 {
        assert(moved <= 0) by (nonlinear_arith)
            requires
                (moved - 1) * den < span * num,
                span > 0,
                num < 0,
                den > 0,
        ;
        let went = r.0 - view.0;
        assert(0 <= went <= -moved);
        assert(went * den <= (-moved) * den) by (nonlinear_arith)
            requires
                went <= -moved,
                den > 0,
        ;
    }
}

/// What is drawn from one fraction of the window to a later one is what is shown next, from the one
/// to the other; less than a hundredth of the window is no selection.
pub proof fn law_selections_are_shown(
    view: (i64, i64),
    low: Ratio,
    high: Ratio,
    r: Option<(i64, i64)>,
    back: Option<(i64, i64)>,
)
    requires
        view.0 < view.1,
        call_ensures(selected_chart_range, (view, low, high), r),
        call_ensures(selected_chart_range, (view, high, low), back),
        low.den > 0 && high.den > 0,
        0 <= low.num <= low.den,
        0 <= high.num <= high.den,
        low.num * high.den <= high.num * low.den,
    ensures
        r == back,
        r is None <==> 100 * (high.num * low.den - low.num * high.den) < low.den * high.den,
        r matches Some(v) ==> {
            let width = view.1 - view.0;
            &&& (v.0 - view.0) * low.den <= width * low.num < (v.0 - view.0 + 1) * low.den
            &&& (v.1 - view.0) * high.den <= width * high.num < (v.1 - view.0 + 1) * high.den
        },
{
    let width = view.1 - view.0;
    lemma_part(width, low.num as int, low.den as int);
    lemma_part(width, high.num as int, high.den as int);
    let d = high.num * low.den - low.num * high.den;
    assert(low.den * high.den > 0) by (nonlinear_arith)
        requires
            low.den > 0,
            high.den > 0,
    ;
    assert(low.den * high.den == high.den * low.den) by (nonlinear_arith);
}

/// A step of a zoom goes 42 hundredths of the way at both ends, or arrives where both ends are near:
/// within a five-hundredth of the window, or a microsecond. Where it has arrived it stays.
pub proof fn law_zooms_approach_their_goal(
    current: (i64, i64),
    target: (i64, i64),
    r: ((i64, i64), bool),
)
    requires
        call_ensures(eased_zoom_step, (current, target), r),
    ensures
        r.1 ==> r.0 == target,
        current == target ==> r.1,
        !r.1 && current.0 <= target.0 ==> 100 * (r.0.0 - current.0) <= 42 * (target.0 - current.0)
            < 100 * (r.0.0 - current.0 + 1),
        !r.1 && current.0 >= target.0 ==> 100 * (current.0 - r.0.0) <= 42 * (current.0 - target.0)
            < 100 * (current.0 - r.0.0 + 1),
        !r.1 && current.1 <= target.1 ==> 100 * (r.0.1 - current.1) <= 42 * (target.1 - current.1)
            < 100 * (r.0.1 - current.1 + 1),
        !r.1 && current.1 >= target.1 ==> 100 * (current.1 - r.0.1) <= 42 * (current.1 - target.1)
            < 100 * (current.1 - r.0.1 + 1),
        !r.1 && target.0 <= target.1 ==> {
            let a = r.0.0 - target.0;
            let b = r.0.1 - target.1;
            let far = |d: int| (d > 1000 || d < -1000) && (500 * d > target.1 - target.0 || 500 * d
                < -(target.1 - target.0));
            far(a) || far(b)
        },
{
}

/// Axes are shared where that is asked for.
pub proof fn law_axes_are_shared(own: (u64, u64), shared: (u64, u64), mode: i32, r: (u64, u64))
    requires
        call_ensures(chart_axis_range::<u64>, (own, shared, mode), r),
    ensures
        mode == 1 ==> r == shared,
        mode != 1 ==> r == own,
{
}

/// A running measurement shows the newest end of what there is, as wide as the window was; one that
/// is paused or comes from a file shows the window itself.
pub proof fn law_windows_follow_the_measurement(
    data: (i64, i64),
    view: (i64, i64),
    paused: bool,
    finite: bool,
    r: (i64, i64),
    whole: (i64, i64),
)
    requires
        data.0 <= view.0 < view.1 <= data.1,
        call_ensures(visible_chart_range, (data, Some(view), None, paused, finite), r),
        call_ensures(visible_chart_range, (data, None, None, paused, finite), whole),
    ensures
        r.1 - r.0 == view.1 - view.0,
        paused || finite ==> r == view,
        !paused && !finite ==> r.1 == data.1,
        whole == data,
{
}

// ---------------------------------------------------------------- labels

/// A measurement is labelled with the time since it began, or with the time of day where that is
/// asked for and known; a recording with the time since its own beginning.
pub proof fn law_times_are_labelled(c: ChartTime, t: i64, r: TimeLabel, fine: TimeLabel)
    requires
        call_ensures(chart_time_label, (c, t), r),
        call_ensures(chart_cursor_time_label, (c, t), fine),
    ensures
        c.source == 0 && c.mode == 0 ==> r == (TimeLabel::Seconds { value: t as i128, digits: 1 })
            && fine == (TimeLabel::Seconds { value: t as i128, digits: 3 }),
        c.source == 1 && c.mode == 0 ==> (r matches TimeLabel::Seconds { value, .. } && value + c.base
            == t) && (fine matches TimeLabel::Seconds { value, .. } && value + c.base == t),
        c.source == 0 && c.mode == 1 && c.epoch is Some ==> r == fine && (r matches TimeLabel::Wall(w)
            && w - t == c.epoch->0),
        c.source == 0 && c.mode == 1 && c.epoch is None ==> (r matches TimeLabel::Seconds {
            value,
            ..
        } && value == t),
        c.source == 1 && c.mode == 1 ==> (r matches TimeLabel::Wall(w) ==> w == t) && (
        r matches TimeLabel::Seconds { value, .. } ==> value == t),
{
}

/// Times of a recording after the year 2000 began are dates.
pub proof fn law_recorded_dates_are_told(t: i64, precise: bool, r: TimeLabel)
    requires
        call_ensures(playback_original_time_label, (t, precise), r),
    ensures
        r is Wall <==> t > 10_957 * 86_400 * 1_000_000_000,
        r matches TimeLabel::Wall(w) ==> w == t,
        r matches TimeLabel::Seconds { value, digits } ==> value == t && (precise <==> digits == 3)
            && (!precise <==> digits == 1),
{
}

/// A time axis has as few digits as tell a hundredth of its length apart, four at most.
pub proof fn law_axis_digits_tell_times_apart(c: ChartTime, t: i64, span: i64, r: TimeLabel)
    requires
        call_ensures(chart_axis_time_label, (c, t, span), r),
        c.mode == 0,
        span > 0,
    ensures
        r matches TimeLabel::Seconds { digits, .. } && 1 <= digits <= 4 && (digits == 1 ==> span * 10
            >= 100_000_000_000) && (digits == 2 ==> span * 10 < 100_000_000_000 <= span * 100) && (
        digits == 3 ==> span * 100 < 100_000_000_000 <= span * 1000) && (digits == 4 ==> span * 1000
            < 100_000_000_000),
{
}

/// Two points are drawn for each pixel, between 600 and 4000.
pub proof fn law_points_fit_their_pixels(width: usize, r: usize)
    requires
        call_ensures(render_point_cap, (width,), r),
    ensures
        600 <= r <= 4000,
        300 <= width <= 2000 ==> r == width + width,
        width < 300 ==> r == 600,
        width > 2000 ==> r == 4000,
{
}

/// The first and the last point are marked, and others at one distance, the least with which there
/// is no more than a mark for every seven pixels, or forty, or 320.
pub proof fn law_marks_keep_their_distance(
    width: usize,
    points: usize,
    r: Vec<usize>,
) -> (stride: int)
    requires
        width < usize::MAX - 6,
        points > 0,
        call_ensures(marked_places, (width, points), r),
    ensures
        stride >= 1,
        r@.contains(0),
        r@.contains((points - 1) as usize),
        forall|k: int|
            0 <= k && k * stride < points ==> r@.contains(#[trigger] ((k * stride) as usize)),
        width <= 280 ==> points <= stride * 40 && (stride - 1) * 40 < points,
        width >= 2240 ==> points <= stride * 320 && (stride - 1) * 320 < points,
        280 <= width <= 2240 && width % 7 == 0 ==> points <= stride * (width / 7) && (stride - 1) * (
        width / 7) < points,
{
    let cap = marker_cap(width as int);
    let stride = marker_stride(width as int, points as int);
    let n = points - 1;
    vstd::arithmetic::div_mod::lemma_fundamental_div_mod(n, cap);
    vstd::arithmetic::div_mod::lemma_mod_bound(n, cap);
    assert(cap * (n / cap) == (n / cap) * cap) by (nonlinear_arith);
    assert(((n / cap) + 1) * cap == (n / cap) * cap + cap) by (nonlinear_arith);
    assert(points <= stride * cap && (stride - 1) * cap < points);
    assert(n / cap >= 0) by (nonlinear_arith)
        requires
            n >= 0,
            cap > 0,
    ;
    assert(0usize as int % stride == 0) by {
        vstd::arithmetic::div_mod::lemma_small_mod(0, stride as nat);
    }
    assert forall|k: int| 0 <= k && k * stride < points implies r@.contains(
        #[trigger] ((k * stride) as usize),
    ) by {
        vstd::arithmetic::div_mod::lemma_mod_multiples_basic(k, stride);
        assert(k * stride >= 0) by (nonlinear_arith)
            requires
                k >= 0,
                stride >= 1,
        ;
    }
    stride
}

/// The number at the head of a text is its longest beginning of digits, points and signs.
pub proof fn law_numbers_end_where_they_end(s: Seq<char>)
    ensures
        number_head(s).len() <= s.len(),
        number_head(s) == s.take(number_head(s).len() as int),
        forall|i: int|
            0 <= i < number_head(s).len() ==> ('0' as int) <= (#[trigger] s[i] as int) <= ('9' as int)
                || s[i] == '.' || s[i] == '-' || s[i] == '+',
        number_head(s).len() < s.len() ==> {
            let c = s[number_head(s).len() as int];
            !(('0' as int) <= (c as int) <= ('9' as int)) && c != '.' && c != '-' && c != '+'
        },
    decreases s.len(),
{
    if s.len() > 0 && crate::workbench::chart_labels::in_number(s[0]) {
        let rest = s.skip(1);
        law_numbers_end_where_they_end(rest);
        let n = number_head(s).len() as int;
        assert(number_head(s) =~= s.take(n)) by {
            assert forall|i: int| 0 <= i < n implies number_head(s)[i] == s[i] by {
                if i > 0 {
                    assert(number_head(s)[i] == number_head(rest)[i - 1]);
                    assert(rest.take(n - 1)[i - 1] == rest[i - 1]);
                }
            }
        }
        assert forall|i: int| 0 <= i < n implies ('0' as int) <= (#[trigger] s[i] as int) <= (
        '9' as int) || s[i] == '.' || s[i] == '-' || s[i] == '+' by {
            if i > 0 {
                assert(rest[i - 1] == s[i]);
            }
        }
        if n < s.len() {
            assert(rest[n - 1] == s[n]);
        }
    } else {
        assert(number_head(s) =~= s.take(0));
    }
}

/// The readings of a cursor follow its head in the order of the curves; a curve that is hidden or
/// has nothing there is passed over.
pub proof fn law_readings_keep_their_order(
    head: Seq<char>,
    readings: Seq<Reading>,
    more: Reading,
    english: bool,
)
    ensures
        readout_parts(head, seq![], false, english) == seq![head],
        readout_parts(head, readings.push(more), false, english) == if more.visible && more.value is Some {
            readout_parts(head, readings, false, english).push(more.name@ + "="@ + more.value->0@)
        } else {
            readout_parts(head, readings, false, english)
        },
        !(more.visible && more.value is Some && more.second is Some) ==> readout_parts(
            head,
            readings.push(more),
            true,
            english,
        ) == readout_parts(head, readings, true, english),
        more.visible && more.value is Some && more.second is Some ==> readout_parts(
            head,
            readings.push(more),
            true,
            english,
        ).drop_last() == readout_parts(head, readings, true, english),
{
    assert(readings.push(more).drop_last() =~= readings);
    if more.visible && more.value is Some && more.second is Some {
        assert(readout_parts(head, readings.push(more), true, english).drop_last()
            =~= readout_parts(head, readings, true, english));
    }
}

} // verus!
