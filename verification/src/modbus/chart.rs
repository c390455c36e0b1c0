//! Pages of register charts and the samples that they show.
use crate::lists::newest;
use vstd::prelude::*;
use std::collections::VecDeque;

verus! {

/// Samples that a series keeps.
pub const CHART_LEN: usize = 600;

/// Series of one page.
pub const CHART_SERIES_PER_PAGE: usize = 12;

/// A displayed row as charts see it: its address and, where it is a number, the bit pattern of its
/// value.
#[derive(Clone, Copy, Debug)]
pub struct ChartRow {
    pub address: i32,
    pub num: Option<u64>,
}

/// The charts of a window: the addresses of the page that is shown, their samples, the addresses
/// on the right axis, where the page begins and how many numbers there are.
#[derive(Debug)]
pub struct ChartState {
    pub addrs: Vec<u16>,
    pub data: Vec<VecDeque<u64>>,
    pub right: Vec<u16>,
    pub page_start: usize,
    pub total: usize,
}

/// An address in 16 bits.
pub open spec fn address16(address: i32) -> u16 {
    (address as int % 0x1_0000) as u16
}

fn cut_address(address: i32) -> (r: u16)
    ensures
        r == address16(address),
{
    let m: i64 = address as i64 % 0x1_0000;
    if m < 0 {
        (m + 0x1_0000) as u16
    } else {
        m as u16
    }
}

/// The rows that are numbers, in order: address and value.
pub open spec fn points(rows: Seq<ChartRow>) -> Seq<(u16, u64)>
    decreases rows.len(),
{
    if rows.len() == 0 {
        seq![]
    } else {
        let before = points(rows.drop_last());
        match rows.last().num {
            Some(v) => before.push((address16(rows.last().address), v)),
            None => before,
        }
    }
}

/// The beginning of the page that holds the series at `i`.
pub open spec fn page_of(i: int) -> int {
    i / 12 * 12
}

/// The beginning of the last page of `total` series.
pub open spec fn last_page(total: int) -> int {
    if total <= 0 {
        0
    } else {
        page_of(total - 1)
    }
}

/// The series from `a` up to the end of the page that begins there.
pub open spec fn page_points(all: Seq<(u16, u64)>, a: int) -> Seq<(u16, u64)> {
    all.subrange(
        a,
        if a + 12 < all.len() {
            a + 12
        } else {
            all.len() as int
        },
    )
}

fn collect_points(rows: &[ChartRow]) -> (r: Vec<(u16, u64)>)
    ensures
        r@ == points(rows@),
{
    let mut out: Vec<(u16, u64)> = Vec::new();
    let mut i: usize = 0;
    assert(rows@.take(0) =~= Seq::<ChartRow>::empty());
    while i < rows.len()
        invariant
            i <= rows@.len(),
            out@ == points(rows@.take(i as int)),
        decreases rows@.len() - i,
    {
        assert(rows@.take(i + 1).drop_last() =~= rows@.take(i as int));
        if let Some(v) = rows[i].num {
            out.push((cut_address(rows[i].address), v));
        }
        i += 1;
    }
    assert(rows@.take(i as int) =~= rows@);
    out
}

impl ChartState {
    /// Each series has its address, and no series is longer than it may be.
    pub open spec fn wf(&self) -> bool {
        &&& self.data@.len() == self.addrs@.len()
        &&& forall|i: int|
            0 <= i < self.data@.len() ==> (#[trigger] self.data@[i])@.len() <= CHART_LEN
    }

    /// Charts without samples.
    pub fn new() -> (r: ChartState)
        ensures
            r.wf(),
            r.addrs@.len() == 0,
            r.right@.len() == 0,
            r.page_start == 0,
            r.total == 0,
    {
        ChartState {
            addrs: Vec::new(),
            data: Vec::new(),
            right: Vec::new(),
            page_start: 0,
            total: 0,
        }
    }

    /// Drops the samples and goes back to the first page; the axes stay.
    pub fn reset(&mut self)
        ensures
            final(self).wf(),
            final(self).addrs@.len() == 0,
            final(self).page_start == 0,
            final(self).total == 0,
            final(self).right == old(self).right,
    {
        self.addrs.clear();
        self.data.clear();
        self.page_start = 0;
        self.total = 0;
    }

    /// The page that a step leads to.
    pub open spec fn page_after(&self, direction: i32) -> int {
        if direction < 0 {
            if self.page_start < 12 {
                0
            } else {
                self.page_start - 12
            }
        } else if direction > 0 {
            if self.page_start + 12 < last_page(self.total as int) {
                self.page_start + 12
            } else {
                last_page(self.total as int)
            }
        } else {
            self.page_start as int
        }
    }

    /// Goes a page back or forth; says whether that changed the page.
    pub fn move_page(&mut self, direction: i32) -> (r: bool)
        requires
            old(self).wf(),
        ensures
            final(self).wf(),
            *final(self) == (ChartState {
                page_start: old(self).page_after(direction) as usize,
                ..*old(self)
            }),
            r == (old(self).page_after(direction) != old(self).page_start),
    {
        let last: usize = if self.total == 0 {
            0
        } else {
            (self.total - 1) / CHART_SERIES_PER_PAGE * CHART_SERIES_PER_PAGE
        };
        assert(last as int == last_page(self.total as int));
        let next: usize = if direction < 0 {
            self.page_start.saturating_sub(CHART_SERIES_PER_PAGE)
        } else if direction > 0 {
            let step: usize = self.page_start.saturating_add(CHART_SERIES_PER_PAGE);
            if step < last {
                step
            } else {
                last
            }
        } else {
            self.page_start
        };
        if next == self.page_start {
            return false;
        }
        self.page_start = next;
        true
    }

    /// The place of an address among the series, where it has one.
    pub open spec fn place_of(all: Seq<(u16, u64)>, address: u16, from: int) -> Option<int>
        decreases all.len() - from,
    {
        if from >= all.len() {
            None
        } else if all[from].0 == address {
            Some(from)
        } else {
            Self::place_of(all, address, from + 1)
        }
    }

    /// Goes to the page of an address; says whether that changed the page.
    pub fn focus_address(&mut self, rows: &[ChartRow], address: u16) -> (r: bool)
        requires
            old(self).wf(),
        ensures
            final(self).wf(),
            match Self::place_of(points(rows@), address, 0) {
                None => !r && *final(self) == *old(self),
                Some(i) => {
                    &&& *final(self) == (ChartState {
                        page_start: page_of(i) as usize,
                        ..*old(self)
                    })
                    &&& r == (page_of(i) != old(self).page_start)
                },
            },
    {
        let all = collect_points(rows);
        let mut i: usize = 0;
        while i < all.len()
            invariant
                i <= all@.len(),
                all@ == points(rows@),
                Self::place_of(all@, address, 0) == Self::place_of(all@, address, i as int),
                self.wf(),
                *self == *old(self),
            decreases all@.len() - i,
        {
            if all[i].0 == address {
                let next: usize = i / CHART_SERIES_PER_PAGE * CHART_SERIES_PER_PAGE;
                if next == self.page_start {
                    return false;
                }
                self.page_start = next;
                return true;
            }
            i += 1;
        }
        false
    }

    /// Puts an address on the right axis or back on the left one.
    pub fn set_axis(&mut self, addr: u16, right: bool)
        ensures
            final(self).addrs == old(self).addrs,
            final(self).data == old(self).data,
            final(self).page_start == old(self).page_start,
            final(self).total == old(self).total,
            forall|a: u16|
                final(self).right@.contains(a) <==> if a == addr {
                    right
                } else {
                    old(self).right@.contains(a)
                },
    {
        let ghost before = self.right@;
        let mut kept: Vec<u16> = Vec::new();
        let mut i: usize = 0;
        while i < self.right.len()
            invariant
                i <= self.right@.len(),
                self.right@ == before,
                forall|a: u16|
                    kept@.contains(a) <==> a != addr && before.take(i as int).contains(a),
                self.addrs == old(self).addrs,
                self.data == old(self).data,
                self.page_start == old(self).page_start,
                self.total == old(self).total,
            decreases self.right@.len() - i,
        {
            let ghost k0 = kept@;
            let x: u16 = self.right[i];
            proof {
                let next = before.take(i + 1);
                assert(next =~= before.take(i as int).push(x));
            }
            if x != addr {
                kept.push(x);
            }
            proof {
                let seen = before.take(i as int);
                assert forall|a: u16| kept@.contains(a) <==> a != addr && before.take(
                    i + 1,
                ).contains(a) by {
                    assert(k0.contains(a) <==> a != addr && seen.contains(a));
                    lemma_push_contains(seen, x, a);
                    lemma_push_contains(k0, x, a);
                }
            }
            i += 1;
        }
        assert(before.take(i as int) =~= before);
        let ghost k0 = kept@;
        if right {
            kept.push(addr);
        }
        proof {
            assert forall|a: u16| kept@.contains(a) <==> if a == addr {
                right
            } else {
                before.contains(a)
            } by {
                assert(k0.contains(a) <==> a != addr && before.contains(a));
                lemma_push_contains(k0, addr, a);
            }
        }
        self.right = kept;
    }

    /// Takes the values of one poll: the page is kept within the series there are, and each series
    /// of the page gets its value. Where the page shows other addresses than before, its series
    /// start over.
    pub fn update(&mut self, rows: &[ChartRow])
        requires
            old(self).wf(),
        ensures
            final(self).wf(),
            final(self).right == old(self).right,
            ({
                let all = points(rows@);
                let start = if old(self).page_start < last_page(all.len() as int) {
                    old(self).page_start as int
                } else {
                    last_page(all.len() as int)
                };
                let shown = page_points(all, start);
                let addrs = shown.map_values(|p: (u16, u64)| p.0);
                &&& final(self).total == all.len()
                &&& final(self).page_start == start
                &&& final(self).addrs@ == addrs
                &&& forall|i: int|
                    0 <= i < shown.len() ==> (#[trigger] final(self).data@[i])@ == newest(
                        (if old(self).addrs@ == addrs {
                            old(self).data@[i]@
                        } else {
                            seq![]
                        }).push(shown[i].1),
                        CHART_LEN as int,
                    )
            }),
    {
        let all = collect_points(rows);
        let total: usize = all.len();
        let last: usize = if total == 0 {
            0
        } else {
            (total - 1) / CHART_SERIES_PER_PAGE * CHART_SERIES_PER_PAGE
        };
        assert(last as int == last_page(total as int));
        self.total = total;
        if self.page_start >= last {
            self.page_start = last;
        }
        let start: usize = self.page_start;
        let end: usize = if total - start > CHART_SERIES_PER_PAGE {
            start + CHART_SERIES_PER_PAGE
        } else {
            total
        };
        let ghost shown = page_points(all@, start as int);
        let ghost addr_of = |p: (u16, u64)| p.0;
        let mut addrs: Vec<u16> = Vec::new();
        let mut i: usize = start;
        assert(addrs@ =~= all@.subrange(start as int, start as int).map_values(addr_of));
        while i < end
            invariant
                start <= i <= end <= all@.len(),
                addr_of == (|p: (u16, u64)| p.0),
                addrs@ == all@.subrange(start as int, i as int).map_values(addr_of),
            decreases end - i,
        {
            addrs.push(all[i].0);
            assert(addrs@ =~= all@.subrange(start as int, i + 1).map_values(addr_of));
            i += 1;
        }
        let same: bool = same_addrs(self.addrs.as_slice(), addrs.as_slice());
        let ghost before = self.data@;
        let n: usize = addrs.len();
        assert(n == shown.len());
        if !same {
            let mut fresh: Vec<VecDeque<u64>> = Vec::new();
            let mut k: usize = 0;
            while k < n
                invariant
                    k <= n,
                    fresh@.len() == k,
                    forall|j: int| 0 <= j < k ==> (#[trigger] fresh@[j])@ == Seq::<u64>::empty(),
                decreases n - k,
            {
                fresh.push(VecDeque::new());
                k += 1;
            }
            self.data = fresh;
            self.addrs = addrs;
        }
        let ghost base = self.data@;
        let mut grown: Vec<VecDeque<u64>> = Vec::new();
        let mut k: usize = 0;
        while k < n
            invariant
                k <= n,
                n == shown.len(),
                n == base.len(),
                self.data@ == base,
                end == start + n,
                end <= all@.len(),
                shown == all@.subrange(start as int, end as int),
                grown@.len() == k,
                forall|j: int|
                    0 <= j < base.len() ==> (#[trigger] base[j])@.len() <= CHART_LEN,
                forall|j: int|
                    0 <= j < k ==> (#[trigger] grown@[j])@ == newest(
                        base[j]@.push(shown[j].1),
                        CHART_LEN as int,
                    ),
            decreases n - k,
        {
            assert(base[k as int]@.len() <= CHART_LEN);
            let mut series = copy_series(&self.data[k]);
            series.push_back(all[start + k].1);
            if series.len() > CHART_LEN {
                let ghost s0 = series@;
                let _ = series.pop_front();
                assert(series@ =~= newest(s0, CHART_LEN as int));
            }
            grown.push(series);
            k += 1;
        }
        self.data = grown;
        proof {
            assert forall|i: int| 0 <= i < self.data@.len() implies (
            #[trigger] self.data@[i])@.len() <= CHART_LEN by {}
            assert forall|i: int| 0 <= i < shown.len() implies (#[trigger] self.data@[i])@
                == newest(
                (if old(self).addrs@ == shown.map_values(addr_of) {
                    old(self).data@[i]@
                } else {
                    seq![]
                }).push(shown[i].1),
                CHART_LEN as int,
            ) by {
                if same {
                    assert(base[i] == before[i]);
                } else {
                    assert(base[i]@ =~= Seq::<u64>::empty());
                }
            }
        }
    }
}

fn copy_series(s: &VecDeque<u64>) -> (r: VecDeque<u64>)
    ensures
        r@ == s@,
{
    let mut out: VecDeque<u64> = VecDeque::new();
    let mut i: usize = 0;
    assert(out@ =~= s@.take(0));
    while i < s.len()
        invariant
            i <= s@.len(),
            out@ == s@.take(i as int),
        decreases s@.len() - i,
    {
        out.push_back(s[i]);
        assert(out@ =~= s@.take(i + 1));
        i += 1;
    }
    assert(s@.take(i as int) =~= s@);
    out
}

fn same_addrs(a: &[u16], b: &[u16]) -> (r: bool)
    ensures
        r == (a@ == b@),
{
    if a.len() != b.len() {
        return false;
    }
    let mut i: usize = 0;
    while i < a.len()
        invariant
            i <= a@.len(),
            a@.len() == b@.len(),
            forall|j: int| 0 <= j < i ==> a@[j] == b@[j],
        decreases a@.len() - i,
    {
        if a[i] != b[i] {
            return false;
        }
        i += 1;
    }
    assert(a@ =~= b@);
    true
}

proof fn lemma_push_contains(s: Seq<u16>, x: u16, a: u16)
    ensures
        s.push(x).contains(a) <==> s.contains(a) || a == x,
{
    if s.contains(a) {
        let j = choose|j: int| 0 <= j < s.len() && s[j] == a;
        assert(s.push(x)[j] == a);
    }
    if a == x {
        assert(s.push(x)[s.len() as int] == a);
    }
}

/// Every series lies on exactly one page, and that page can be shown: pages cover all addresses,
/// not only the first ones.
pub proof fn law_pages_cover_every_series(total: int, i: int, page: int)
    requires
        0 <= i < total,
    ensures
        0 <= page_of(i) <= i < page_of(i) + 12,
        page_of(i) <= last_page(total),
        page % 12 == 0 && page <= i < page + 12 ==> page == page_of(i),
{
}

/// Pages are reached one after the other: from the beginning of a page that is not the last, the
/// next page is the one that begins twelve series later, and going back leads to the page before.
pub proof fn law_pages_follow_each_other(state: ChartState)
    requires
        state.page_start % 12 == 0,
        state.page_start < last_page(state.total as int),
    ensures
        state.page_after(1i32) == state.page_start + 12,
        (ChartState { page_start: (state.page_start + 12) as usize, ..state }).page_after((-1) as i32)
            == state.page_start,
{
    assert(last_page(state.total as int) % 12 == 0);
}

} // verus!
