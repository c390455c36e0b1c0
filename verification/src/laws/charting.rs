//! Laws on charts and grids.
use crate::lists::newest;
use crate::modbus::Area;
use crate::modbus::axis::{
    axis_values, drawn, greatest, is_smaller, least, series_heads, smaller, SeriesHead,
};
use crate::modbus::chart::{last_page, page_points, points, ChartRow, ChartState};
use crate::modbus::grid::{
    argb_to_color, grid_view, master_grid, slave_grid, DerivedValue, DisplayRow, RegRow,
};
use crate::table::Table;
use vstd::prelude::*;

verus! {

/// The last so many entries: as many as there are, or as asked for, and the newest of them last.
pub proof fn law_the_newest_are_kept<T>(s: Seq<T>, n: int, i: int)
    requires
        n >= 0,
        0 <= i < newest(s, n).len(),
    ensures
        newest(s, n).len() == (if s.len() < n {
            s.len() as int
        } else {
            n
        }),
        newest(s, n)[newest(s, n).len() - 1 - i] == s[s.len() - 1 - i],
{
}

/// A row with a number is a point of the curves, under the low 16 bits of its address; the point is
/// no later among the points than the row among the rows.
pub proof fn law_numbers_are_points(rows: Seq<ChartRow>, i: int) -> (k: int)
    requires
        0 <= i < rows.len(),
        rows[i].num is Some,
    ensures
        0 <= k <= i,
        k < points(rows).len(),
        points(rows)[k].1 == rows[i].num->0,
        0 <= rows[i].address <= 65535 ==> points(rows)[k].0 == rows[i].address,
    decreases rows.len(),
{
    lemma_points_are_few(rows.drop_last());
    if i == rows.len() - 1 {
        points(rows).len() - 1
    } else {
        law_numbers_are_points(rows.drop_last(), i)
    }
}

proof fn lemma_points_are_few(rows: Seq<ChartRow>)
    ensures
        points(rows).len() <= rows.len(),
    decreases rows.len(),
{
    if rows.len() > 0 {
        lemma_points_are_few(rows.drop_last());
    }
}

/// Every point is the number of a row.
pub proof fn law_points_are_numbers(rows: Seq<ChartRow>, k: int) -> (i: int)
    requires
        0 <= k < points(rows).len(),
    ensures
        k <= i < rows.len(),
        rows[i].num == Some(points(rows)[k].1),
    decreases rows.len(),
{
    lemma_points_are_few(rows.drop_last());
    if k < points(rows.drop_last()).len() {
        law_points_are_numbers(rows.drop_last(), k)
    } else {
        rows.len() - 1
    }
}

/// A page holds twelve series, or what is left of them, from its beginning on.
pub proof fn law_pages_hold_twelve(all: Seq<(u16, u64)>, start: int, i: int)
    requires
        0 <= start <= all.len(),
        0 <= i < page_points(all, start).len(),
    ensures
        page_points(all, start).len() <= 12,
        page_points(all, start)[i] == all[start + i],
        start + 12 <= all.len() ==> page_points(all, start).len() == 12,
        start + 12 > all.len() ==> page_points(all, start).len() == all.len() - start,
{
}

/// Pages begin at multiples of twelve; the last one holds the last series, and turning the page
/// moves by twelve within them.
pub proof fn law_pages_are_turned(c: ChartState, direction: i32)
    requires
        c.page_start % 12 == 0,
        c.page_start <= last_page(c.total as int),
    ensures
        c.page_after(direction) % 12 == 0,
        0 <= c.page_after(direction) <= last_page(c.total as int),
        c.total > 0 ==> last_page(c.total as int) < c.total <= last_page(c.total as int) + 12,
        c.total == 0 ==> last_page(c.total as int) == 0,
        direction > 0 && c.page_start < last_page(c.total as int) ==> c.page_after(direction)
            == c.page_start + 12,
        direction < 0 && c.page_start > 0 ==> c.page_after(direction) == c.page_start - 12,
        direction == 0 ==> c.page_after(direction) == c.page_start,
{
}

// ---------------------------------------------------------------- axes

/// The number with the other sign.
pub open spec fn negated(bits: u64) -> u64 {
    if bits < 0x8000_0000_0000_0000 {
        (bits + 0x8000_0000_0000_0000) as u64
    } else {
        (bits - 0x8000_0000_0000_0000) as u64
    }
}

/// Floating-point numbers are ordered: without a sign as their patterns are, with signs the other
/// way round, those with a sign before those without; nothing is smaller than itself, than the other
/// zero, or than what is no number.
pub proof fn law_numbers_are_ordered(a: u64, b: u64, r: bool)
    requires
        call_ensures(is_smaller, (a, b), r),
    ensures
        a < 0x7FF0_0000_0000_0001 && b < 0x7FF0_0000_0000_0001 ==> r == (a < b),
        r == smaller(negated(b), negated(a)),
        0x8000_0000_0000_0000 < a <= 0xFFF0_0000_0000_0000 && b <= 0x7FF0_0000_0000_0000 ==> r,
        0x7FF0_0000_0000_0000 < a < 0x8000_0000_0000_0000 ==> !r,
        0x7FF0_0000_0000_0000 < b < 0x8000_0000_0000_0000 ==> !r,
        a == 0x8000_0000_0000_0000 && b == 0 ==> !r,
        r ==> a != b && !smaller(b, a),
{
}

/// The range of an axis begins and ends at samples of it.
pub proof fn law_axes_end_at_samples(v: Seq<u64>)
    ensures
        least(v) == 0x7FF0_0000_0000_0000 || v.contains(least(v)),
        greatest(v) == 0xFFF0_0000_0000_0000 || v.contains(greatest(v)),
    decreases v.len(),
{
    if v.len() > 0 {
        let w = v.drop_last();
        law_axes_end_at_samples(w);
        if w.contains(least(w)) {
            let i = choose|i: int| 0 <= i < w.len() && w[i] == least(w);
            assert(v[i] == least(w));
        }
        if w.contains(greatest(w)) {
            let i = choose|i: int| 0 <= i < w.len() && w[i] == greatest(w);
            assert(v[i] == greatest(w));
        }
        assert(v[v.len() - 1] == v.last());
    }
}

/// The samples of a series count for its own axis. The place of the sample among those of the axis.
pub proof fn law_samples_count_for_their_axis(ch: ChartState, n: int, i: int, j: int) -> (k: int)
    requires
        ch.wf(),
        0 <= i < n <= ch.data@.len(),
        0 <= j < ch.data@[i]@.len(),
    ensures
        ({
            let right = ch.right@.contains(ch.addrs@[i]);
            &&& 0 <= k < axis_values(&ch, right, n).len()
            &&& axis_values(&ch, right, n)[k] == ch.data@[i]@[j]
        }),
    decreases n,
{
    let right = ch.right@.contains(ch.addrs@[i]);
    if i == n - 1 {
        axis_values(&ch, right, n - 1).len() + j
    } else {
        law_samples_count_for_their_axis(ch, n - 1, i, j)
    }
}

/// An axis shows samples of its own series only. The series of a sample.
pub proof fn law_axes_show_their_own_series(ch: ChartState, right: bool, n: int, k: int) -> (i: int)
    requires
        ch.wf(),
        0 <= n <= ch.data@.len(),
        0 <= k < axis_values(&ch, right, n).len(),
    ensures
        0 <= i < n,
        ch.right@.contains(ch.addrs@[i]) == right,
        ch.data@[i]@.contains(axis_values(&ch, right, n)[k]),
    decreases n,
{
    let m = axis_values(&ch, right, n - 1).len();
    if k < m {
        law_axes_show_their_own_series(ch, right, n - 1, k)
    } else {
        assert(ch.data@[n - 1]@[k - m] == axis_values(&ch, right, n)[k]);
        n - 1
    }
}

proof fn lemma_drawn(ch: ChartState, n: int, k: int)
    requires
        0 <= n <= ch.data@.len(),
        0 <= k < drawn(&ch, n).len(),
    ensures
        k <= drawn(&ch, n)[k] < n,
        ch.data@[drawn(&ch, n)[k]]@.len() >= 2,
        drawn(&ch, n).len() <= n,
        forall|j: int| 0 <= j < k ==> drawn(&ch, n)[j] < drawn(&ch, n)[k],
    decreases n,
{
    if n > 0 {
        let m = drawn(&ch, n - 1).len() as int;
        if m > 0 {
            lemma_drawn(ch, n - 1, m - 1);
        }
        if k < m {
            lemma_drawn(ch, n - 1, k);
        } else if m > 0 {
            assert forall|j: int| 0 <= j < k implies drawn(&ch, n)[j] < drawn(&ch, n)[k] by {
                lemma_drawn(ch, n - 1, j);
            }
        }
    }
}

/// Each series that is drawn has at least two samples and is headed by its address; it stands on
/// the right axis where its address was put there, and series keep their order.
pub proof fn law_series_are_headed(ch: ChartState, r: Vec<SeriesHead>, k: int)
    requires
        ch.wf(),
        call_ensures(series_heads, (&ch,), r),
        0 <= k < r@.len(),
    ensures
        r@[k].place < ch.data@.len(),
        ch.data@[r@[k].place as int]@.len() >= 2,
        r@[k].addr == ch.addrs@[r@[k].place as int],
        r@[k].right == ch.right@.contains(r@[k].addr),
        k > 0 ==> r@[k - 1].place < r@[k].place,
        r@[k].name@.len() >= 2 && r@[k].name@.skip(1) == crate::text::numeral(r@[k].addr as nat, 10),
{
    let n = ch.data@.len() as int;
    lemma_drawn(ch, n, k);
    if k > 0 {
        assert(r@[k - 1].place == drawn(&ch, n)[k - 1]);
    }
    reveal_strlit("@");
    crate::laws::texts::law_numerals_end_in_their_last_digit(r@[k].addr as nat, 10);
    assert(r@[k].name@.skip(1) =~= crate::text::numeral(r@[k].addr as nat, 10));
}

// ---------------------------------------------------------------- grids

/// The four parts of a colour, put together again, are the colour.
pub proof fn law_colours_have_four_parts(argb: u32, r: (u8, u8, u8, u8))
    requires
        call_ensures(argb_to_color, (argb,), r),
    ensures
        ((r.0 * 256 + r.1) * 256 + r.2) * 256 + r.3 == argb,
{
    let n = argb as int;
    assert(n == ((n / 0x100_0000 * 256 + n / 0x1_0000 % 0x100) * 256 + n / 0x100 % 0x100) * 256 + n
        % 0x100) by {
        assert(n / 0x1_0000 == n / 0x100_0000 * 256 + n / 0x1_0000 % 0x100);
        assert(n / 0x100 == n / 0x1_0000 * 256 + n / 0x100 % 0x100);
    }
}

/// Whether a row of a grid shows a value: its address, its name if it was given one, and the value.
pub open spec fn shows_value(row: RegRow, d: DisplayRow, names: Map<u64, String>) -> bool {
    &&& row.address == d.address
    &&& row.raw@ == d.raw@
    &&& row.plc_addr@ == d.plc_addr@
    &&& row.colored == (d.argb != 0)
    &&& d.label is None ==> row.value@ == d.value@
    &&& d.label is Some ==> row.value@.take(d.value@.len() as int) == d.value@
    &&& 0 <= d.address <= 65535 ==> row.name@ == (if names.dom().contains(d.address as u64) {
        names[d.address as u64]@
    } else {
        Seq::<char>::empty()
    })
}

/// Each row of a grid shows its own value, in order; rows of the server can be edited and those that
/// count up are marked, rows of a poll are followed by the formulas.
pub proof fn law_grids_show_their_values(
    rows: &[DisplayRow],
    names: Table<String>,
    derived: &[DerivedValue],
    area: Area,
    counting: &[(Area, u16)],
    polled: (Vec<RegRow>, Vec<String>),
    served: (Vec<RegRow>, Vec<String>),
    i: int,
)
    requires
        names.wf(),
        derived@.len() < 0x8000_0000,
        call_ensures(master_grid, (rows, &names, derived), polled),
        call_ensures(slave_grid, (rows, &names, area, counting), served),
        0 <= i < rows@.len(),
    ensures
        polled.0@.len() == rows@.len() + derived@.len(),
        served.0@.len() == rows@.len(),
        shows_value(polled.0@[i], rows@[i], names.map()),
        shows_value(served.0@[i], rows@[i], names.map()),
        !polled.0@[i].editable,
        served.0@[i].editable,
        0 <= rows@[i].address <= 65535 ==> served.0@[i].auto_inc == counting@.contains(
            (area, rows@[i].address as u16),
        ),
        forall|k: int|
            0 <= k < derived@.len() ==> (#[trigger] polled.0@[rows@.len() + k]).name@
                == derived@[k].name@ && polled.0@[rows@.len() + k].address < 0,
{
    let p = grid_view(polled.0@);
    let s = grid_view(served.0@);
    assert(p.len() == polled.0@.len() && s.len() == served.0@.len());
    assert(p[i] == polled.0@[i]@ && s[i] == served.0@[i]@);
    let d = rows@[i];
    if let Some(label) = d.label {
        assert((d.value@ + " ("@ + label@ + ")"@).take(d.value@.len() as int) =~= d.value@);
    }
    assert forall|k: int| 0 <= k < derived@.len() implies (#[trigger] polled.0@[rows@.len() + k]).name@
        == derived@[k].name@ && polled.0@[rows@.len() + k].address < 0 by {
        assert(p[rows@.len() + k] == polled.0@[rows@.len() + k]@);
    }
}

} // verus!
