//! The rows of the message table: which are shown, and what they say.
use crate::lists::newest;
use crate::order::{arrange, arranged, law_rows_are_arranged, numbers_view};
use crate::order::{ranks_view, stands_behind, Rank};
use crate::text;
use crate::workbench::messages::{recs_view, CacheView, FrameRec, RecView};
use crate::workbench::messages::{TableCache, DISPLAY_CAP};
use std::collections::VecDeque;
use vstd::prelude::*;

verus! {

// ---------------------------------------------------------------- when the table is built

/// The signature that asks for a refresh.
pub const FORCED: u64 = 0xFFFF_FFFF_FFFF_FFFF;

/// Whether the table is built again: always where the user asks for it, else where something
/// changed and the table is not paused.
pub fn should_rebuild(paused: bool, current_signature: u64, previous_signature: u64) -> (r: bool)
    ensures
        r == (previous_signature == u64::MAX || (!paused && current_signature
            != previous_signature)),
{
    previous_signature == FORCED || (!paused && current_signature != previous_signature)
}

/// The frames that a choice of the user lets the trace show.
pub fn trace_limit(choice: i32) -> (r: usize)
    ensures
        r == if choice == 1 {
            750usize
        } else if choice == 2 {
            DISPLAY_CAP
        } else {
            300usize
        },
{
    if choice == 1 {
        750
    } else if choice == 2 {
        DISPLAY_CAP
    } else {
        300
    }
}

/// What the table was built from last, and with which settings.
#[derive(Clone, Copy, Debug, PartialEq, Eq, Structural)]
pub struct TableState {
    pub trace_limit: usize,
    pub last_signature: u64,
    pub config: u64,
}

/// How the table is to be brought up to date.
#[derive(Clone, Copy, Debug, PartialEq, Eq, Structural)]
pub enum Refresh {
    /// It stays as it is.
    Keep,
    /// New frames are looked at.
    Update,
    /// The whole recording is looked at again.
    Restart,
}

/// What the user has set.
#[derive(Clone, Copy, Debug, PartialEq, Eq, Structural)]
pub struct TableView {
    pub mode_trace: bool,
    pub autoscroll: bool,
    pub paused: bool,
    /// A number that changes with the settings of the view.
    pub config: u64,
    /// A number that changes with the settings and with the recording.
    pub signature: u64,
}

impl TableState {
    /// The state with the choice of the user; another choice asks for a refresh.
    pub open spec fn with_limit(self, limit: usize) -> TableState {
        if self.trace_limit != limit {
            TableState { trace_limit: limit, last_signature: u64::MAX, ..self }
        } else {
            self
        }
    }

    /// Whether the trace stands still while the user inspects it.
    pub open spec fn standing(self, view: TableView) -> bool {
        view.mode_trace && !view.autoscroll && self.last_signature != u64::MAX && self.config
            == view.config
    }

    /// Whether the whole recording is to be looked at again: where the user asks for it, the
    /// settings changed or the recording began anew.
    pub open spec fn restarts(self, view: TableView, last_no: u64, scanned_no: u64) -> bool {
        self.last_signature == u64::MAX || self.config != view.config || last_no < scanned_no
    }

    /// Decides how the table is to be brought up to date, given the number of the last recorded
    /// frame and of the last one that was looked at.
    pub fn refresh(&mut self, limit: usize, view: &TableView, last_no: u64, scanned_no: u64) -> (r:
        Refresh)
        ensures
            ({
                let s = old(self).with_limit(limit);
                let keep = s.standing(*view) || !(s.last_signature == u64::MAX || (!view.paused
                    && view.signature != s.last_signature));
                if keep {
                    r is Keep && *final(self) == s
                } else {
                    &&& r == if s.restarts(*view, last_no, scanned_no) {
                        Refresh::Restart
                    } else {
                        Refresh::Update
                    }
                    &&& *final(self) == (TableState {
                        last_signature: view.signature,
                        config: view.config,
                        ..s
                    })
                }
            }),
    {
        if self.trace_limit != limit {
            self.trace_limit = limit;
            self.last_signature = FORCED;
        }
        if view.mode_trace && !view.autoscroll && self.last_signature != FORCED && self.config
            == view.config {
            return Refresh::Keep;
        }
        if !should_rebuild(view.paused, view.signature, self.last_signature) {
            return Refresh::Keep;
        }
        let restart: bool = self.last_signature == FORCED || self.config != view.config || last_no
            < scanned_no;
        self.config = view.config;
        self.last_signature = view.signature;
        if restart {
            Refresh::Restart
        } else {
            Refresh::Update
        }
    }
}

// ---------------------------------------------------------------- which rows are shown

/// What a column of the table is sorted by.
pub open spec fn column_rank(r: RecView, col: i32) -> Rank {
    if col == 0 {
        (r.no as int, seq![])
    } else if col == 1 {
        (r.t as int, seq![])
    } else if col == 2 {
        (r.delta as int, seq![])
    } else if col == 3 {
        (r.ch as int, seq![])
    } else if col == 4 {
        (if r.tx { 1int } else { 0int }, seq![])
    } else if col == 5 {
        (r.id as int, seq![])
    } else if col == 6 {
        (0int, r.name)
    } else if col == 7 {
        (if r.ext { 1int } else { 0int }, seq![])
    } else if col == 10 || col == 11 {
        (r.data.len() as int, seq![])
    } else if col == 14 {
        (r.count as int, seq![])
    } else {
        (0int, seq![])
    }
}

fn no_text() -> (r: Vec<char>)
    ensures
        r@ == Seq::<char>::empty(),
{
    let out: Vec<char> = Vec::new();
    assert(out@ =~= Seq::<char>::empty());
    out
}

fn rank_of(r: &FrameRec, col: i32) -> (k: (i128, Vec<char>))
    ensures
        (k.0 as int, k.1@) == column_rank(r@, col),
{
    if col == 6 {
        return (0, text::chars_of(r.name.as_str()));
    }
    let number: i128 = if col == 0 {
        r.no as i128
    } else if col == 1 {
        r.t as i128
    } else if col == 2 {
        r.delta as i128
    } else if col == 3 {
        r.ch as i128
    } else if col == 4 {
        if r.tx {
            1
        } else {
            0
        }
    } else if col == 5 {
        r.id as i128
    } else if col == 7 {
        if r.ext {
            1
        } else {
            0
        }
    } else if col == 10 || col == 11 {
        r.data.len() as i128
    } else if col == 14 {
        r.count as i128
    } else {
        0
    };
    (number, no_text())
}

/// What some rows are sorted by.
pub open spec fn column_ranks(recs: Seq<RecView>, col: i32) -> Seq<Rank> {
    recs.map_values(|r: RecView| column_rank(r, col))
}

/// The rows in the order of their numbers.
pub open spec fn picked(recs: Seq<RecView>, order: Seq<int>) -> Seq<RecView> {
    order.map_values(|i: int| recs[i])
}

/// Rows sorted by a column; a negative column leaves them as they are.
pub open spec fn sorted_by(recs: Seq<RecView>, col: i32, falling: bool) -> Seq<RecView> {
    if col < 0 {
        recs
    } else {
        picked(recs, arranged(column_ranks(recs, col), falling, recs.len() as int))
    }
}

/// Whether rows are the last frames of all keys, in the order of the keys.
pub open spec fn grouped(recs: Seq<RecView>, latest: Map<u64, RecView>) -> bool {
    &&& recs.len() == latest.dom().len()
    &&& forall|i: int|
        0 <= i < recs.len() ==> latest.dom().contains((#[trigger] recs[i]).key)
            && latest[recs[i].key] == recs[i]
    &&& forall|i: int, j: int|
        0 <= i < j < recs.len() ==> (#[trigger] recs[i]).key < (#[trigger] recs[j]).key
}

fn take_in_order(recs: Vec<FrameRec>, order: &[usize]) -> (r: Vec<FrameRec>)
    requires
        forall|i: int| 0 <= i < order@.len() ==> (#[trigger] order@[i]) < recs@.len(),
    ensures
        recs_view(r@) == picked(recs_view(recs@), numbers_view(order@)),
{
    let mut out: Vec<FrameRec> = Vec::new();
    let ghost all = picked(recs_view(recs@), numbers_view(order@));
    let mut i: usize = 0;
    while i < order.len()
        invariant
            i <= order@.len(),
            all == picked(recs_view(recs@), numbers_view(order@)),
            forall|i: int| 0 <= i < order@.len() ==> (#[trigger] order@[i]) < recs@.len(),
            recs_view(out@) =~= all.take(i as int),
        decreases order@.len() - i,
    {
        let ghost before = out@;
        let at: usize = order[i];
        out.push(recs[at].clone());
        assert(numbers_view(order@)[i as int] == at);
        assert(all[i as int] == recs@[at as int]@);
        assert(recs_view(out@) =~= recs_view(before).push(all[i as int]));
        i += 1;
    }
    assert(all.take(i as int) =~= all);
    out
}

fn sort_records(recs: Vec<FrameRec>, col: i32, falling: bool) -> (r: Vec<FrameRec>)
    ensures
        recs_view(r@) == sorted_by(recs_view(recs@), col, falling),
{
    if col < 0 {
        return recs;
    }
    let ghost all = column_ranks(recs_view(recs@), col);
    let mut ranks: Vec<(i128, Vec<char>)> = Vec::new();
    let mut i: usize = 0;
    while i < recs.len()
        invariant
            i <= recs@.len(),
            all == column_ranks(recs_view(recs@), col),
            ranks_view(ranks@) =~= all.take(i as int),
        decreases recs@.len() - i,
    {
        let ghost before = ranks@;
        let k = rank_of(&recs[i], col);
        assert(all[i as int] == (k.0 as int, k.1@));
        ranks.push(k);
        assert(ranks_view(ranks@) =~= ranks_view(before).push(all[i as int]));
        i += 1;
    }
    assert(all.take(i as int) =~= all);
    let order = arrange(ranks.as_slice(), falling);
    take_in_order(recs, order.as_slice())
}

/// The last frames of all keys, in the order of the keys.
fn group_records(cache: &TableCache) -> (r: Vec<FrameRec>)
    requires
        cache.wf(),
    ensures
        grouped(recs_view(r@), cache@.latest),
{
    let mut recs: Vec<FrameRec> = Vec::new();
    let mut ranks: Vec<(i128, Vec<char>)> = Vec::new();
    let ghost rows = cache.latest.rows();
    let n: usize = cache.latest.len();
    let mut i: usize = 0;
    while i < n
        invariant
            i <= n == rows.len(),
            rows == cache.latest.rows(),
            recs@.len() == i,
            ranks@.len() == i,
            forall|j: int| 0 <= j < i ==> (#[trigger] recs@[j])@ == rows[j].1@,
            forall|j: int|
                0 <= j < i ==> (#[trigger] ranks@[j]).0 == rows[j].1.key && ranks@[j].1@.len() == 0,
        decreases n - i,
    {
        let rec = cache.latest.value_at(i);
        ranks.push((rec.key as i128, no_text()));
        recs.push(rec.clone());
        i += 1;
    }
    let ghost all = recs_view(recs@);
    let order = arrange(ranks.as_slice(), false);
    proof {
        law_rows_are_arranged(ranks_view(ranks@), false, n as int);
        crate::table::lemma_entries_map(rows);
        let m = cache@.latest;
        let o = numbers_view(order@);
        let out = picked(all, o);
        let ranked = ranks_view(ranks@);
        assert(m.dom() =~= cache.latest.map().dom());
        assert forall|i: int| 0 <= i < out.len() implies m.dom().contains((#[trigger] out[i]).key)
            && m[out[i].key] == out[i] by {
            let at = o[i];
            assert(order@[i] < n);
            assert(out[i] == recs@[at]@);
            let k = rows[at].0;
            assert(cache.latest.map().dom().contains(k));
            assert(cache.latest.map()[k] == rows[at].1);
        }
        assert forall|i: int, j: int| 0 <= i < j < out.len() implies (#[trigger] out[i]).key < (
        #[trigger] out[j]).key by {
            let a = o[i];
            let b = o[j];
            assert(order@[i] < n && order@[j] < n);
            assert(stands_behind(ranked, false, b, a) || (!stands_behind(ranked, false, a, b) && a
                < b));
            assert(ranked[a].0 == rows[a].1.key && ranked[b].0 == rows[b].1.key);
            assert(ranked[a].1 =~= ranked[b].1);
            crate::order::law_texts_are_ordered(ranked[a].1, ranked[b].1);
            assert(rows[a].0 == rows[a].1.key) by {
                assert(cache.latest.map().dom().contains(rows[a].0));
            }
            assert(rows[b].0 == rows[b].1.key) by {
                assert(cache.latest.map().dom().contains(rows[b].0));
            }
            if a < b {
                assert(rows[a].0 != rows[b].0);
            } else if b < a {
                assert(rows[b].0 != rows[a].0);
            }
        }
    }
    take_in_order(recs, order.as_slice())
}

fn recent_records(recent: &VecDeque<FrameRec>, limit: usize) -> (r: Vec<FrameRec>)
    ensures
        recs_view(r@) == newest(recs_view(recent@), limit as int),
{
    let n: usize = recent.len();
    let start: usize = if n > limit {
        n - limit
    } else {
        0
    };
    let ghost all = recs_view(recent@);
    let mut out: Vec<FrameRec> = Vec::new();
    let mut i: usize = start;
    assert(recs_view(out@) =~= all.subrange(start as int, start as int));
    while i < n
        invariant
            start <= i <= n,
            n == recent@.len(),
            all == recs_view(recent@),
            recs_view(out@) == all.subrange(start as int, i as int),
        decreases n - i,
    {
        let ghost before = out@;
        out.push(recent[i].clone());
        assert(recs_view(out@) =~= recs_view(before).push(all[i as int]));
        assert(all.subrange(start as int, i + 1) =~= all.subrange(start as int, i as int).push(
            all[i as int],
        ));
        i += 1;
    }
    assert(all.subrange(start as int, n as int) =~= newest(all, limit as int));
    out
}

/// At most the given number of rows from the front.
pub open spec fn front(recs: Seq<RecView>, n: int) -> Seq<RecView> {
    if recs.len() > n {
        recs.take(n)
    } else {
        recs
    }
}

/// Whether the table shows these rows: the last frames of the trace, or the last frame of each key,
/// sorted by a column where the user asks for it, as many as the table holds.
pub open spec fn shows(
    rows: Seq<RecView>,
    c: CacheView,
    mode_trace: bool,
    limit: usize,
    col: i32,
    falling: bool,
) -> bool {
    if mode_trace {
        rows == front(
            sorted_by(newest(c.recent, limit as int), col, falling),
            DISPLAY_CAP as int,
        )
    } else {
        exists|g: Seq<RecView>| #[trigger]
            grouped(g, c.latest) && rows == front(sorted_by(g, col, falling), DISPLAY_CAP as int)
    }
}

/// The rows that the table shows.
pub fn select_records(
    cache: &TableCache,
    mode_trace: bool,
    limit: usize,
    col: i32,
    falling: bool,
) -> (r: Vec<FrameRec>)
    requires
        cache.wf(),
    ensures
        shows(recs_view(r@), cache@, mode_trace, limit, col, falling),
{
    let base = if mode_trace {
        recent_records(&cache.recent, limit)
    } else {
        group_records(cache)
    };
    let ghost g = recs_view(base@);
    assert(!mode_trace ==> grouped(g, cache@.latest));
    let mut sorted = sort_records(base, col, falling);
    let ghost s = recs_view(sorted@);
    if sorted.len() > DISPLAY_CAP {
        sorted.truncate(DISPLAY_CAP);
    }
    assert(recs_view(sorted@) =~= front(s, DISPLAY_CAP as int));
    sorted
}

// ---------------------------------------------------------------- what rows say

/// A byte of a frame as it is shown.
#[derive(Debug)]
pub struct ByteCell {
    pub hex: String,
    pub hot: bool,
}

/// A row of the message table.
#[derive(Debug)]
pub struct MsgRow {
    pub no: String,
    pub time: String,
    pub delta: String,
    pub ch: String,
    pub dir: &'static str,
    pub id: String,
    pub name: String,
    pub kind: &'static str,
    pub fd: &'static str,
    pub brs: &'static str,
    pub dlc: String,
    pub len: String,
    pub data_bytes: Vec<ByteCell>,
    pub data_text: String,
    pub cycle: String,
    pub count: String,
    pub comment: &'static str,
    pub is_tx: bool,
    pub is_error: bool,
    pub is_new: bool,
    pub timeout: bool,
    pub is_signal: bool,
    pub can_expand: bool,
    pub expanded: bool,
    pub signal_name: String,
    pub signal_out_of_range: bool,
}

/// The bytes of a frame in lines of sixteen.
pub open spec fn dump(data: Seq<u8>) -> Seq<char>
    decreases data.len(),
{
    if data.len() == 0 {
        seq![]
    } else {
        let n = data.len() - 1;
        dump(data.drop_last()) + (if n == 0 {
            seq![]
        } else if n % 16 == 0 {
            seq!['\n']
        } else {
            seq![' ']
        }) + text::hex_padded(data.last() as nat, 2)
    }
}

fn dump_text(data: &[u8]) -> (r: String)
    ensures
        r@ == dump(data@),
{
    let mut out = String::new();
    let mut i: usize = 0;
    assert(data@.take(0) =~= seq![]);
    assert(out@ =~= dump(data@.take(0)));
    while i < data.len()
        invariant
            i <= data@.len(),
            out@ == dump(data@.take(i as int)),
        decreases data@.len() - i,
    {
        let ghost before = out@;
        assert(data@.take(i + 1).drop_last() =~= data@.take(i as int));
        if i != 0 {
            if i % 16 == 0 {
                out.push('\n');
            } else {
                out.push(' ');
            }
        }
        text::push_hex_padded(&mut out, data[i] as u64, 2);
        assert(out@ =~= dump(data@.take(i + 1)));
        i += 1;
    }
    assert(data@.take(i as int) =~= data@);
    out
}

/// Whether cells show the bytes of a frame and which of them are hot.
pub open spec fn shows_bytes(cells: Seq<ByteCell>, data: Seq<u8>, hot: Seq<bool>) -> bool {
    &&& cells.len() == data.len()
    &&& forall|i: int|
        0 <= i < data.len() ==> (#[trigger] cells[i]).hex@ == text::hex_padded(data[i] as nat, 2)
            && cells[i].hot == (i < hot.len() && hot[i])
}

fn byte_cells(data: &[u8], hot: &[bool]) -> (r: Vec<ByteCell>)
    ensures
        shows_bytes(r@, data@, hot@),
{
    let mut out: Vec<ByteCell> = Vec::new();
    let mut i: usize = 0;
    while i < data.len()
        invariant
            i <= data@.len(),
            out@.len() == i,
            forall|j: int|
                0 <= j < i ==> (#[trigger] out@[j]).hex@ == text::hex_padded(data@[j] as nat, 2)
                    && out@[j].hot == (j < hot@.len() && hot@[j]),
        decreases data@.len() - i,
    {
        let mut hex = String::new();
        text::push_hex_padded(&mut hex, data[i] as u64, 2);
        assert(hex@ =~= text::hex_padded(data@[i as int] as nat, 2));
        out.push(ByteCell { hex, hot: i < hot.len() && hot[i] });
        i += 1;
    }
    out
}

/// Whether a frame of the trace has just come: within the last 150 milliseconds.
pub open spec fn just_came(mode_trace: bool, age: int) -> bool {
    mode_trace && 0 <= age < 150_000_000
}

/// Whether a key is overdue: not seen for three of its cycles, and not for a tenth of a second.
pub open spec fn overdue(mode_trace: bool, age: int, delta: int) -> bool {
    !mode_trace && delta > 0 && age > 3 * delta && age > 100_000_000
}

/// The row of a frame. The texts of its times and of its identifier are given.
pub fn make_msgrow(
    r: &FrameRec,
    hot: &[bool],
    can_expand: bool,
    expanded: bool,
    now: i64,
    mode_trace: bool,
    id_text: String,
    time_text: String,
    delta_text: String,
    cycle_text: String,
) -> (row: MsgRow)
    ensures
        row.no@ == text::decimal(r.no as nat),
        row.time == time_text,
        row.delta@ == if r.delta > 0 {
            delta_text@
        } else {
            Seq::<char>::empty()
        },
        row.ch@ == "CAN"@ + text::decimal(r.ch as nat),
        row.dir@ == if r.tx {
            "Tx"@
        } else {
            "Rx"@
        },
        row.id == id_text,
        row.name@ == r.name@,
        row.kind@ == if r.ext {
            "Ext"@
        } else {
            "Std"@
        },
        row.fd@ == if r.fd {
            "Yes"@
        } else {
            "No"@
        },
        row.brs@ == if r.brs {
            "Yes"@
        } else {
            "No"@
        },
        row.dlc@ == text::decimal(r.data@.len()),
        row.len@ == text::decimal(r.data@.len()),
        shows_bytes(row.data_bytes@, r.data@, hot@),
        row.data_text@ == dump(r.data@),
        row.cycle@ == if r.delta > 0 {
            cycle_text@
        } else {
            Seq::<char>::empty()
        },
        row.count@ == text::decimal(r.count as nat),
        row.comment@ == if r.error {
            "Error"@
        } else if r.remote {
            "Remote"@
        } else {
            "Data"@
        },
        row.is_tx == r.tx,
        row.is_error == r.error,
        row.is_new == just_came(mode_trace, now - r.t),
        row.timeout == overdue(mode_trace, now - r.t, r.delta as int),
        !row.is_signal,
        row.can_expand == can_expand,
        row.expanded == expanded,
        row.signal_name@ == Seq::<char>::empty(),
        !row.signal_out_of_range,
{
    let age: i128 = now as i128 - r.t as i128;
    let delta: i128 = r.delta as i128;
    let mut ch = "CAN".to_owned();
    text::push_decimal(&mut ch, r.ch as u64);
    let none = String::new();
    assert(none@ =~= Seq::<char>::empty());
    let len: usize = r.data.len();
    MsgRow {
        no: text::decimal_string(r.no),
        time: time_text,
        delta: if r.delta > 0 {
            delta_text
        } else {
            none.clone()
        },
        ch,
        dir: if r.tx {
            "Tx"
        } else {
            "Rx"
        },
        id: id_text,
        name: r.name.clone(),
        kind: if r.ext {
            "Ext"
        } else {
            "Std"
        },
        fd: if r.fd {
            "Yes"
        } else {
            "No"
        },
        brs: if r.brs {
            "Yes"
        } else {
            "No"
        },
        dlc: text::decimal_string(len as u64),
        len: text::decimal_string(len as u64),
        data_bytes: byte_cells(r.data.as_slice(), hot),
        data_text: dump_text(r.data.as_slice()),
        cycle: if r.delta > 0 {
            cycle_text
        } else {
            none.clone()
        },
        count: text::decimal_string(r.count),
        comment: if r.error {
            "Error"
        } else if r.remote {
            "Remote"
        } else {
            "Data"
        },
        is_tx: r.tx,
        is_error: r.error,
        is_new: mode_trace && 0 <= age && age < 150_000_000,
        timeout: !mode_trace && delta > 0 && age > 3 * delta && age > 100_000_000,
        is_signal: false,
        can_expand,
        expanded,
        signal_name: none,
        signal_out_of_range: false,
    }
}

/// Which bytes of a key changed within half a second before its last frame.
pub fn hot_bytes(t: i64, changed: &[i64]) -> (r: Vec<bool>)
    ensures
        r@ == changed@.map_values(|c: i64| 0 <= t - c < 500_000_000),
{
    let mut out: Vec<bool> = Vec::new();
    let ghost f = |c: i64| 0 <= t - c < 500_000_000;
    let mut i: usize = 0;
    while i < changed.len()
        invariant
            i <= changed@.len(),
            f == (|c: i64| 0 <= t - c < 500_000_000),
            out@ =~= changed@.take(i as int).map_values(f),
        decreases changed@.len() - i,
    {
        let age: i128 = t as i128 - changed[i] as i128;
        out.push(0 <= age && age < 500_000_000);
        i += 1;
    }
    assert(changed@.take(i as int) =~= changed@);
    assert(out@ =~= changed@.map_values(f));
    out
}

} // verus!
