//! Laws on the message table: which frames it holds and in which order it shows them.
use crate::order::{law_rows_are_arranged, law_texts_are_ordered, stands_behind, text_before};
use crate::workbench::message_rows::{
    column_ranks, front, grouped, hot_bytes, make_msgrow, picked, select_records, shows, sorted_by,
    MsgRow,
};
use crate::workbench::messages::{
    accepted, chosen, latest_after, recs_view, CacheView, DISPLAY_CAP, FrameRec, RecView,
    TableCache,
};
use vstd::prelude::*;

verus! {

/// Whether a row may stand before another one in rising order of a column.
pub open spec fn rises(a: RecView, b: RecView, col: i32) -> bool {
    &&& col == 0 ==> a.no <= b.no
    &&& col == 1 ==> a.t <= b.t
    &&& col == 2 ==> a.delta <= b.delta
    &&& col == 3 ==> a.ch <= b.ch
    &&& col == 4 ==> (a.tx ==> b.tx)
    &&& col == 5 ==> a.id <= b.id
    &&& col == 6 ==> !text_before(b.name, a.name)
    &&& col == 7 ==> (a.ext ==> b.ext)
    &&& col == 10 || col == 11 ==> a.data.len() <= b.data.len()
    &&& col == 14 ==> a.count <= b.count
}

proof fn lemma_sorted(recs: Seq<RecView>, col: i32, falling: bool)
    requires
        col >= 0,
    ensures
        sorted_by(recs, col, falling).len() == recs.len(),
        forall|i: int, j: int|
            0 <= i < j < recs.len() ==> if falling {
                rises(
                    #[trigger] sorted_by(recs, col, falling)[j],
                    #[trigger] sorted_by(recs, col, falling)[i],
                    col,
                )
            } else {
                rises(sorted_by(recs, col, falling)[i], sorted_by(recs, col, falling)[j], col)
            },
        forall|i: int|
            0 <= i < recs.len() ==> recs.contains(#[trigger] sorted_by(recs, col, falling)[i]),
        forall|k: int|
            0 <= k < recs.len() ==> sorted_by(recs, col, falling).contains(#[trigger] recs[k]),
{
    let ranks = column_ranks(recs, col);
    let order = crate::order::arranged(ranks, falling, recs.len() as int);
    law_rows_are_arranged(ranks, falling, recs.len() as int);
    let out = sorted_by(recs, col, falling);
    assert(out == picked(recs, order));
    assert forall|i: int| 0 <= i < order.len() implies 0 <= #[trigger] order[i] < recs.len() by {
        assert(order.contains(order[i]));
    }
    assert forall|i: int, j: int| 0 <= i < j < recs.len() implies if falling {
        rises(#[trigger] out[j], #[trigger] out[i], col)
    } else {
        rises(out[i], out[j], col)
    } by {
        let a = order[i];
        let b = order[j];
        assert(out[i] == recs[a] && out[j] == recs[b]);
        assert(stands_behind(ranks, falling, b, a) || (!stands_behind(ranks, falling, a, b) && a < b));
        law_texts_are_ordered(recs[a].name, recs[b].name);
        law_texts_are_ordered(recs[b].name, recs[a].name);
        law_texts_are_ordered(Seq::<char>::empty(), Seq::<char>::empty());
    }
    assert forall|i: int| 0 <= i < recs.len() implies recs.contains(#[trigger] out[i]) by {
        assert(out[i] == recs[order[i]]);
    }
    assert forall|k: int| 0 <= k < recs.len() implies out.contains(#[trigger] recs[k]) by {
        assert(order.contains(k));
        let i = choose|i: int| 0 <= i < order.len() && order[i] == k;
        assert(out[i] == recs[k]);
    }
}

proof fn lemma_shown_from(
    rows: Seq<RecView>,
    c: CacheView,
    mode_trace: bool,
    limit: usize,
    col: i32,
    falling: bool,
) -> (base: Seq<RecView>)
    requires
        shows(rows, c, mode_trace, limit, col, falling),
    ensures
        rows == front(sorted_by(base, col, falling), 1500),
        mode_trace ==> base == crate::lists::newest(c.recent, limit as int),
        !mode_trace ==> grouped(base, c.latest),
{
    if mode_trace {
        crate::lists::newest(c.recent, limit as int)
    } else {
        choose|g: Seq<RecView>| #[trigger]
            grouped(g, c.latest) && rows == front(sorted_by(g, col, falling), DISPLAY_CAP as int)
    }
}

/// Rows that are sorted by a column rise in it from each to all that follow, or fall where that is
/// asked for: by number, time, distance, channel, direction, identifier, name, format, length or
/// count.
pub proof fn law_rows_are_sorted_by_their_column(
    cache: TableCache,
    mode_trace: bool,
    limit: usize,
    col: i32,
    falling: bool,
    r: Vec<FrameRec>,
    i: int,
    j: int,
)
    requires
        cache.wf(),
        col >= 0,
        call_ensures(select_records, (&cache, mode_trace, limit, col, falling), r),
        0 <= i < j < r@.len(),
    ensures
        falling ==> rises(r@[j]@, r@[i]@, col),
        !falling ==> rises(r@[i]@, r@[j]@, col),
{
    let rows = recs_view(r@);
    assert(shows(rows, cache@, mode_trace, limit, col, falling));
    assert(rows[i] == r@[i]@ && rows[j] == r@[j]@);
    let base = lemma_shown_from(rows, cache@, mode_trace, limit, col, falling);
    lemma_sorted(base, col, falling);
    let s = sorted_by(base, col, falling);
    assert(rows.len() == r@.len());
    if s.len() > 1500 {
        assert(rows == s.take(1500));
    }
    assert(rows[i] == s[i] && rows[j] == s[j]);
}

proof fn lemma_stable(
    recs: Seq<RecView>,
    col: i32,
    falling: bool,
    i: int,
    j: int,
) -> (at: (int, int))
    requires
        col >= 0,
        0 <= i < j < recs.len(),
        sorted_by(recs, col, falling).len() == recs.len(),
        rises(sorted_by(recs, col, falling)[i], sorted_by(recs, col, falling)[j], col),
        rises(sorted_by(recs, col, falling)[j], sorted_by(recs, col, falling)[i], col),
    ensures
        0 <= at.0 < at.1 < recs.len(),
        sorted_by(recs, col, falling)[i] == recs[at.0],
        sorted_by(recs, col, falling)[j] == recs[at.1],
{
    let ranks = column_ranks(recs, col);
    let order = crate::order::arranged(ranks, falling, recs.len() as int);
    law_rows_are_arranged(ranks, falling, recs.len() as int);
    let a = order[i];
    let b = order[j];
    assert(order.contains(order[i]));
    assert(order.contains(order[j]));
    let out = sorted_by(recs, col, falling);
    assert(out == picked(recs, order));
    assert(out[i] == recs[a] && out[j] == recs[b]);
    assert(stands_behind(ranks, falling, b, a) || (!stands_behind(ranks, falling, a, b) && a < b));
    law_texts_are_ordered(recs[a].name, recs[b].name);
    law_texts_are_ordered(recs[b].name, recs[a].name);
    law_texts_are_ordered(Seq::<char>::empty(), Seq::<char>::empty());
    assert(ranks[a] == ranks[b]);
    (a, b)
}

/// Rows that are alike in the column stay in the order of their keys, rising or falling; so do all
/// rows where the column is none to sort by.
pub proof fn law_rows_alike_keep_their_order(
    cache: TableCache,
    limit: usize,
    col: i32,
    falling: bool,
    r: Vec<FrameRec>,
    i: int,
    j: int,
)
    requires
        cache.wf(),
        call_ensures(select_records, (&cache, false, limit, col, falling), r),
        0 <= i < j < r@.len(),
        col >= 0 ==> rises(r@[i]@, r@[j]@, col) && rises(r@[j]@, r@[i]@, col),
    ensures
        r@[i].key < r@[j].key,
{
    let rows = recs_view(r@);
    assert(shows(rows, cache@, false, limit, col, falling));
    assert(rows[i] == r@[i]@ && rows[j] == r@[j]@);
    let base = lemma_shown_from(rows, cache@, false, limit, col, falling);
    let s = sorted_by(base, col, falling);
    assert(rows.len() == r@.len());
    if col >= 0 {
        lemma_sorted(base, col, falling);
    }
    if s.len() > 1500 {
        assert(rows == s.take(1500));
    }
    assert(rows[i] == s[i] && rows[j] == s[j]);
    if col >= 0 {
        let at = lemma_stable(base, col, falling, i, j);
        assert(base[at.0].key < base[at.1].key);
    } else {
        assert(base[i].key < base[j].key);
    }
}

/// The table shows frames that it holds and no others, 1500 at most: of a trace the last ones, else
/// the last one of each key.
pub proof fn law_rows_are_held_frames(
    cache: TableCache,
    mode_trace: bool,
    limit: usize,
    col: i32,
    falling: bool,
    r: Vec<FrameRec>,
    i: int,
)
    requires
        cache.wf(),
        call_ensures(select_records, (&cache, mode_trace, limit, col, falling), r),
        0 <= i < r@.len(),
    ensures
        r@.len() <= 1500,
        mode_trace ==> r@.len() <= limit && recs_view(cache.recent@).contains(r@[i]@),
        !mode_trace ==> cache@.latest.dom().contains(r@[i].key) && cache@.latest[r@[i].key] == r@[i]@,
        mode_trace && cache.recent@.len() <= limit && cache.recent@.len() <= 1500 ==> r@.len()
            == cache.recent@.len(),
        !mode_trace && cache@.latest.dom().len() <= 1500 ==> r@.len() == cache@.latest.dom().len(),
{
    let rows = recs_view(r@);
    assert(shows(rows, cache@, mode_trace, limit, col, falling));
    assert(rows[i] == r@[i]@);
    let recent = recs_view(cache.recent@);
    let base = lemma_shown_from(rows, cache@, mode_trace, limit, col, falling);
    let s = sorted_by(base, col, falling);
    assert(rows.len() == r@.len());
    if s.len() > 1500 {
        assert(rows == s.take(1500));
    }
    assert(rows[i] == s[i]);
    if col >= 0 {
        lemma_sorted(base, col, falling);
    } else {
        assert(s == base);
        assert(base.contains(base[i]));
    }
    assert(base.contains(s[i]));
    let k = choose|k: int| 0 <= k < base.len() && base[k] == s[i];
    if mode_trace {
        if recent.len() > limit {
            assert(base[k] == recent[recent.len() - limit + k]);
        } else {
            assert(base[k] == recent[k]);
        }
    }
}

/// Of a trace that is not sorted the last frames are shown in the order in which they came.
pub proof fn law_traces_keep_their_order(
    cache: TableCache,
    limit: usize,
    col: i32,
    falling: bool,
    r: Vec<FrameRec>,
    i: int,
)
    requires
        cache.wf(),
        col < 0,
        call_ensures(select_records, (&cache, true, limit, col, falling), r),
        cache.recent@.len() <= 1500,
        0 <= i < r@.len(),
    ensures
        r@[i]@ == cache.recent@[cache.recent@.len() - r@.len() + i]@,
{
    let rows = recs_view(r@);
    assert(rows[i] == r@[i]@);
    let recent = recs_view(cache.recent@);
    assert(recent.len() == cache.recent@.len());
}

/// Of each key the frame with the greatest number is held.
pub proof fn law_the_latest_frame_of_a_key_is_held(m: Map<u64, RecView>, recs: Seq<RecView>, i: int)
    requires
        0 <= i < recs.len(),
        forall|k: u64| #[trigger] m.dom().contains(k) ==> m[k].key == k,
    ensures
        latest_after(m, recs).dom().contains(recs[i].key),
        latest_after(m, recs)[recs[i].key].no >= recs[i].no,
        latest_after(m, recs)[recs[i].key].key == recs[i].key,
        forall|k: u64|
            m.dom().contains(k) ==> #[trigger] latest_after(m, recs).dom().contains(k)
                && latest_after(m, recs)[k].no >= m[k].no,
{
    lemma_latest(m, recs);
}

proof fn lemma_latest(m: Map<u64, RecView>, recs: Seq<RecView>)
    requires
        forall|k: u64| #[trigger] m.dom().contains(k) ==> m[k].key == k,
    ensures
        forall|k: u64| #[trigger]
            latest_after(m, recs).dom().contains(k) ==> latest_after(m, recs)[k].key == k,
        forall|k: u64|
            m.dom().contains(k) ==> #[trigger] latest_after(m, recs).dom().contains(k)
                && latest_after(m, recs)[k].no >= m[k].no,
        forall|i: int|
            0 <= i < recs.len() ==> latest_after(m, recs).dom().contains((#[trigger] recs[i]).key)
                && latest_after(m, recs)[recs[i].key].no >= recs[i].no,
    decreases recs.len(),
{
    if recs.len() > 0 {
        lemma_latest(m, recs.drop_last());
        let p = latest_after(m, recs.drop_last());
        let last = recs.last();
        assert forall|k: u64| #[trigger] latest_after(m, recs).dom().contains(k) implies latest_after(
            m,
            recs,
        )[k].key == k by {
            assert(k != last.key ==> p.dom().contains(k));
        }
        assert forall|k: u64| m.dom().contains(k) implies #[trigger] latest_after(m, recs).dom().contains(
            k,
        ) && latest_after(m, recs)[k].no >= m[k].no by {
            assert(p.dom().contains(k));
        }
        assert forall|i: int| 0 <= i < recs.len() implies latest_after(m, recs).dom().contains(
            (#[trigger] recs[i]).key,
        ) && latest_after(m, recs)[recs[i].key].no >= recs[i].no by {
            if i < recs.len() - 1 {
                assert(recs.drop_last()[i] == recs[i]);
            }
        }
    }
}

/// A frame that a filter accepts is kept, behind no more frames than came before it.
pub proof fn law_accepted_frames_are_kept<F: Fn(&FrameRec) -> bool>(
    recs: Seq<FrameRec>,
    accept: F,
    i: int,
) -> (k: int)
    requires
        0 <= i < recs.len(),
        accepted(accept, recs[i]),
    ensures
        0 <= k <= i,
        k < chosen(recs, accept).len(),
        chosen(recs, accept)[k] == recs[i]@,
    decreases recs.len(),
{
    lemma_chosen_are_few(recs.drop_last(), accept);
    if i == recs.len() - 1 {
        chosen(recs, accept).len() - 1
    } else {
        law_accepted_frames_are_kept(recs.drop_last(), accept, i)
    }
}

proof fn lemma_chosen_are_few<F: Fn(&FrameRec) -> bool>(recs: Seq<FrameRec>, accept: F)
    ensures
        chosen(recs, accept).len() <= recs.len(),
    decreases recs.len(),
{
    if recs.len() > 0 {
        lemma_chosen_are_few(recs.drop_last(), accept);
    }
}

/// Nothing is kept but frames that the filter accepts.
pub proof fn law_refused_frames_are_dropped<F: Fn(&FrameRec) -> bool>(
    recs: Seq<FrameRec>,
    accept: F,
    k: int,
) -> (i: int)
    requires
        0 <= k < chosen(recs, accept).len(),
    ensures
        0 <= i < recs.len(),
        accepted(accept, recs[i]),
        chosen(recs, accept)[k] == recs[i]@,
    decreases recs.len(),
{
    if k < chosen(recs.drop_last(), accept).len() {
        law_refused_frames_are_dropped(recs.drop_last(), accept, k)
    } else {
        recs.len() - 1
    }
}

/// A row shows its own frame: two digits for each byte, new for 150 milliseconds of a trace, and
/// overdue once three of its cycles and a tenth of a second went by without it.
pub proof fn law_rows_show_their_frame(
    f: FrameRec,
    hot: &[bool],
    can_expand: bool,
    expanded: bool,
    now: i64,
    mode_trace: bool,
    id_text: String,
    time_text: String,
    delta_text: String,
    cycle_text: String,
    row: MsgRow,
    i: int,
)
    requires
        call_ensures(
            make_msgrow,
            (
                &f,
                hot,
                can_expand,
                expanded,
                now,
                mode_trace,
                id_text,
                time_text,
                delta_text,
                cycle_text,
            ),
            row,
        ),
        0 <= i < f.data@.len(),
    ensures
        row.is_tx == f.tx,
        row.is_error == f.error,
        row.name@ == f.name@,
        row.data_bytes@.len() == f.data@.len(),
        crate::text::digits_value(row.data_bytes@[i].hex@, 16) == Some(f.data@[i] as nat),
        row.data_bytes@[i].hex@.len() == 2,
        row.data_bytes@[i].hot == (i < hot@.len() && hot@[i]),
        crate::text::digits_value(row.no@, 10) == Some(f.no as nat),
        crate::text::digits_value(row.count@, 10) == Some(f.count as nat),
        crate::text::digits_value(row.len@, 10) == Some(f.data@.len()),
        row.is_new == (mode_trace && f.t <= now < f.t + 150_000_000),
        row.timeout == (!mode_trace && f.delta > 0 && now - f.t > 3 * f.delta && now - f.t
            > 100_000_000),
        row.can_expand == can_expand && row.expanded == expanded,
{
    crate::laws::texts::law_numerals_read_back(f.no as nat, 10);
    crate::laws::texts::law_numerals_read_back(f.count as nat, 10);
    crate::laws::texts::law_numerals_read_back(f.data@.len(), 10);
    crate::laws::texts::law_bytes_have_two_digits(f.data@[i]);
}

/// A byte is hot for half a second after it changed.
pub proof fn law_changes_stay_hot(t: i64, changed: &[i64], r: Vec<bool>, i: int)
    requires
        call_ensures(hot_bytes, (t, changed), r),
        0 <= i < changed@.len(),
    ensures
        r@.len() == changed@.len(),
        r@[i] == (changed@[i] <= t < changed@[i] + 500_000_000),
{
}

} // verus!
