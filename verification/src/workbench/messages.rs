//! The message table: which recorded frames it shows, and in which order.
use crate::lists::newest;
use crate::table::Table;
use std::collections::VecDeque;
use vstd::prelude::*;

verus! {

/// Rows that the table shows at most.
pub const DISPLAY_CAP: usize = 1500;

/// A recorded frame. Times are nanoseconds since the capture began.
#[derive(Debug)]
pub struct FrameRec {
    pub no: u64,
    pub key: u64,
    pub t: i64,
    pub ch: u8,
    pub tx: bool,
    pub id: u32,
    pub ext: bool,
    pub fd: bool,
    pub brs: bool,
    pub remote: bool,
    pub error: bool,
    pub data: Vec<u8>,
    /// The time since the frame before it with the same key, or zero.
    pub delta: i64,
    pub count: u64,
    pub changed_mask: Vec<bool>,
    pub name: String,
}

/// What a recorded frame is.
pub struct RecView {
    pub no: u64,
    pub key: u64,
    pub t: i64,
    pub ch: u8,
    pub tx: bool,
    pub id: u32,
    pub ext: bool,
    pub fd: bool,
    pub brs: bool,
    pub remote: bool,
    pub error: bool,
    pub data: Seq<u8>,
    pub delta: i64,
    pub count: u64,
    pub changed_mask: Seq<bool>,
    pub name: Seq<char>,
}

impl View for FrameRec {
    type V = RecView;

    open spec fn view(&self) -> RecView {
        RecView {
            no: self.no,
            key: self.key,
            t: self.t,
            ch: self.ch,
            tx: self.tx,
            id: self.id,
            ext: self.ext,
            fd: self.fd,
            brs: self.brs,
            remote: self.remote,
            error: self.error,
            data: self.data@,
            delta: self.delta,
            count: self.count,
            changed_mask: self.changed_mask@,
            name: self.name@,
        }
    }
}

fn copy_flags(v: &[bool]) -> (r: Vec<bool>)
    ensures
        r@ == v@,
{
    let mut out: Vec<bool> = Vec::new();
    let mut i: usize = 0;
    while i < v.len()
        invariant
            i <= v@.len(),
            out@ =~= v@.take(i as int),
        decreases v@.len() - i,
    {
        out.push(v[i]);
        i += 1;
    }
    assert(v@.take(i as int) =~= v@);
    out
}

impl Clone for FrameRec {
    fn clone(&self) -> (r: FrameRec)
        ensures
            r@ == self@,
    {
        FrameRec {
            no: self.no,
            key: self.key,
            t: self.t,
            ch: self.ch,
            tx: self.tx,
            id: self.id,
            ext: self.ext,
            fd: self.fd,
            brs: self.brs,
            remote: self.remote,
            error: self.error,
            data: crate::bytes::copy_bytes(self.data.as_slice()),
            delta: self.delta,
            count: self.count,
            changed_mask: copy_flags(self.changed_mask.as_slice()),
            name: self.name.clone(),
        }
    }
}

/// What some recorded frames are.
pub open spec fn recs_view(recs: Seq<FrameRec>) -> Seq<RecView> {
    recs.map_values(|r: FrameRec| r@)
}

/// The frames that a table chooses from.
#[derive(Debug)]
pub struct TableCache {
    /// The last accepted frame of each key.
    pub latest: Table<FrameRec>,
    /// The last accepted frames.
    pub recent: VecDeque<FrameRec>,
    /// The number of the last frame that was looked at.
    pub scanned_no: u64,
}

/// What a table chooses from.
pub struct CacheView {
    pub latest: Map<u64, RecView>,
    pub recent: Seq<RecView>,
    pub scanned_no: u64,
}

/// The values of a table of frames.
pub open spec fn rec_map(m: Map<u64, FrameRec>) -> Map<u64, RecView> {
    m.map_values(|r: FrameRec| r@)
}

impl View for TableCache {
    type V = CacheView;

    open spec fn view(&self) -> CacheView {
        CacheView {
            latest: rec_map(self.latest.map()),
            recent: recs_view(self.recent@),
            scanned_no: self.scanned_no,
        }
    }
}

/// Whether a frame is accepted by a test.
pub open spec fn accepted<F: Fn(&FrameRec) -> bool>(accept: F, r: FrameRec) -> bool {
    call_ensures(accept, (&r,), true)
}

/// Whether a test answers each frame, and always in the same way.
pub open spec fn decides<F: Fn(&FrameRec) -> bool>(accept: F) -> bool {
    &&& forall|r: FrameRec| #[trigger] call_requires(accept, (&r,))
    &&& forall|r: FrameRec|
        !(#[trigger] call_ensures(accept, (&r,), true) && call_ensures(accept, (&r,), false))
}

/// The accepted ones of some frames.
pub open spec fn chosen<F: Fn(&FrameRec) -> bool>(recs: Seq<FrameRec>, accept: F) -> Seq<RecView>
    decreases recs.len(),
{
    if recs.len() == 0 {
        seq![]
    } else if accepted(accept, recs.last()) {
        chosen(recs.drop_last(), accept).push(recs.last()@)
    } else {
        chosen(recs.drop_last(), accept)
    }
}

/// The last frame of each key after further frames: an older one does not replace a newer one.
pub open spec fn latest_after(m: Map<u64, RecView>, recs: Seq<RecView>) -> Map<u64, RecView>
    decreases recs.len(),
{
    if recs.len() == 0 {
        m
    } else {
        let p = latest_after(m, recs.drop_last());
        let r = recs.last();
        if p.dom().contains(r.key) && p[r.key].no >= r.no {
            p
        } else {
            p.insert(r.key, r)
        }
    }
}

/// The frames from a number on.
pub open spec fn not_older(m: Map<u64, RecView>, oldest: u64) -> Map<u64, RecView> {
    Map::new(|k: u64| m.dom().contains(k) && m[k].no >= oldest, |k: u64| m[k])
}

/// The frames from the first one with a number that is not too small on.
pub open spec fn from_number(recs: Seq<RecView>, oldest: u64) -> Seq<RecView>
    decreases recs.len(),
{
    if recs.len() > 0 && recs[0].no < oldest {
        from_number(recs.skip(1), oldest)
    } else {
        recs
    }
}

/// Where the frames begin that came since a number, seen from the end.
pub open spec fn first_new(recs: Seq<FrameRec>, scanned: u64, k: int) -> int
    decreases k,
{
    if k <= 0 || recs[k - 1].no <= scanned {
        k
    } else {
        first_new(recs, scanned, k - 1)
    }
}

/// What a table chooses from after the recording was looked at again: new frames are added, and
/// those that the recording no longer holds are dropped.
pub open spec fn synced<F: Fn(&FrameRec) -> bool>(
    c: CacheView,
    trace: Seq<FrameRec>,
    accept: F,
) -> CacheView {
    let start = first_new(trace, c.scanned_no, trace.len() as int);
    let new = chosen(trace.skip(start), accept);
    let oldest = if trace.len() > 0 {
        trace[0].no
    } else {
        u64::MAX
    };
    CacheView {
        latest: not_older(latest_after(c.latest, new), oldest),
        recent: from_number(newest(c.recent + new, DISPLAY_CAP as int), oldest),
        scanned_no: if trace.len() > 0 {
            trace.last().no
        } else {
            0
        },
    }
}

proof fn lemma_first_new(recs: Seq<FrameRec>, scanned: u64, k: int)
    requires
        0 <= k <= recs.len(),
    ensures
        0 <= first_new(recs, scanned, k) <= k,
    decreases k,
{
    if k > 0 && recs[k - 1].no > scanned {
        lemma_first_new(recs, scanned, k - 1);
    }
}

proof fn lemma_map_insert(m: Map<u64, FrameRec>, k: u64, r: FrameRec)
    ensures
        rec_map(m.insert(k, r)) == rec_map(m).insert(k, r@),
{
    assert(rec_map(m.insert(k, r)) =~= rec_map(m).insert(k, r@));
}

impl TableCache {
    /// The frames of a table that has not looked at anything.
    pub fn new() -> (r: TableCache)
        ensures
            r.wf(),
            r@.latest == Map::<u64, RecView>::empty(),
            r@.recent == Seq::<RecView>::empty(),
            r@.scanned_no == 0,
    {
        let r = TableCache { latest: Table::new(), recent: VecDeque::new(), scanned_no: 0 };
        assert(r@.latest =~= Map::<u64, RecView>::empty());
        assert(r@.recent =~= Seq::<RecView>::empty());
        r
    }

    /// Each frame is kept under its own key, and no more frames are kept than are shown.
    pub open spec fn wf(&self) -> bool {
        &&& self.latest.wf()
        &&& forall|k: u64| #[trigger]
            self.latest.map().dom().contains(k) ==> self.latest.map()[k].key == k
        &&& self.recent@.len() <= DISPLAY_CAP
    }

    /// Forgets everything, so that the whole recording is looked at again.
    pub fn reset(&mut self)
        ensures
            final(self).wf(),
            final(self)@.latest == Map::<u64, RecView>::empty(),
            final(self)@.recent == Seq::<RecView>::empty(),
            final(self)@.scanned_no == 0,
    {
        self.latest.clear();
        self.recent.clear();
        self.scanned_no = 0;
        assert(self@.latest =~= Map::<u64, RecView>::empty());
        assert(self@.recent =~= Seq::<RecView>::empty());
    }

    fn note(&mut self, r: &FrameRec)
        requires
            old(self).wf(),
        ensures
            final(self).wf(),
            final(self)@.recent == newest(old(self)@.recent.push(r@), DISPLAY_CAP as int),
            final(self)@.latest == latest_after(old(self)@.latest, seq![r@]),
            final(self).scanned_no == old(self).scanned_no,
    {
        let ghost m0 = self@.latest;
        let ghost s0 = self@.recent;
        self.recent.push_back(r.clone());
        assert(recs_view(self.recent@) =~= s0.push(r@));
        if self.recent.len() > DISPLAY_CAP {
            let ghost s1 = self.recent@;
            let _ = self.recent.pop_front();
            assert(recs_view(self.recent@) =~= recs_view(s1).skip(1));
        }
        let newer: bool = match self.latest.find(r.key) {
            Some(i) => self.latest.value_at(i).no < r.no,
            None => true,
        };
        proof {
            assert(seq![r@].drop_last() =~= seq![]);
            assert(latest_after(m0, seq![]) == m0);
            assert(newer == !(m0.dom().contains(r.key) && m0[r.key].no >= r.no));
        }
        if newer {
            let ghost m = self.latest.map();
            let copy = r.clone();
            self.latest.insert(r.key, copy);
            proof {
                lemma_map_insert(m, r.key, copy);
            }
        }
    }

    fn drop_older(&mut self, oldest: u64)
        requires
            old(self).wf(),
        ensures
            final(self).wf(),
            final(self)@.recent == from_number(old(self)@.recent, oldest),
            final(self)@.latest == not_older(old(self)@.latest, oldest),
            final(self).scanned_no == old(self).scanned_no,
    {
        let ghost m0 = self@.latest;
        let ghost s0 = self@.recent;
        let mut i: usize = 0;
        while i < self.latest.len()
            invariant
                self.wf(),
                i <= self.latest.rows().len(),
                self@.recent == s0,
                self.scanned_no == old(self).scanned_no,
                forall|j: int| 0 <= j < i ==> (#[trigger] self.latest.rows()[j]).1.no >= oldest,
                forall|k: u64| #[trigger]
                    self@.latest.dom().contains(k) ==> m0.dom().contains(k) && m0[k]
                        == self@.latest[k],
                forall|k: u64| #[trigger]
                    m0.dom().contains(k) && m0[k].no >= oldest ==> self@.latest.dom().contains(k),
            decreases self.latest.rows().len() - i,
        {
            let ghost before = self@.latest;
            let ghost rows = self.latest.rows();
            proof {
                crate::table::lemma_entries_map(rows);
            }
            if self.latest.value_at(i).no < oldest {
                let ghost k = rows[i as int].0;
                assert(self.latest.map().dom().contains(k));
                assert(before[k].no < oldest);
                let _ = self.latest.remove_at(i);
                assert(self@.latest =~= before.remove(k));
            } else {
                i += 1;
            }
        }
        proof {
            let rows = self.latest.rows();
            crate::table::lemma_entries_map(rows);
            assert forall|k: u64| #[trigger] self@.latest.dom().contains(k) implies self@.latest[k].no
                >= oldest by {
                let j = choose|j: int| 0 <= j < rows.len() && (#[trigger] rows[j]).0 == k;
                assert(rows[j].1.no >= oldest);
            }
            assert(self@.latest =~= not_older(m0, oldest));
        }
        let ghost m1 = self.latest;
        while self.recent.len() > 0 && self.recent[0].no < oldest
            invariant
                self.latest == m1,
                self.wf(),
                self.scanned_no == old(self).scanned_no,
                from_number(s0, oldest) == from_number(self@.recent, oldest),
            decreases self.recent@.len(),
        {
            let ghost s1 = self.recent@;
            assert(recs_view(s1)[0] == s1[0]@);
            let _ = self.recent.pop_front();
            assert(recs_view(self.recent@) =~= recs_view(s1).skip(1));
        }
        proof {
            if self.recent@.len() > 0 {
                assert(self@.recent[0] == self.recent@[0]@);
            }
        }
    }

    /// Looks at the recording again. The number of frames that were looked at.
    pub fn sync_latest<F: Fn(&FrameRec) -> bool>(
        &mut self,
        trace: &VecDeque<FrameRec>,
        accept: F,
    ) -> (r: usize)
        requires
            old(self).wf(),
            decides(accept),
        ensures
            final(self).wf(),
            final(self)@ == synced(old(self)@, trace@, accept),
            r == trace@.len() - first_new(trace@, old(self).scanned_no, trace@.len() as int),
    {
        let n: usize = trace.len();
        let ghost all = trace@;
        let ghost c0 = self@;
        let mut start: usize = n;
        while start > 0 && trace[start - 1].no > self.scanned_no
            invariant
                start <= n,
                n == all.len(),
                all == trace@,
                self@ == c0,
                self.wf(),
                self.scanned_no == old(self).scanned_no,
                first_new(all, self.scanned_no, n as int) == first_new(
                    all,
                    self.scanned_no,
                    start as int,
                ),
            decreases start,
        {
            start -= 1;
        }
        let ghost fresh = all.skip(start as int);
        let mut i: usize = start;
        assert(fresh.take(0) =~= seq![]);
        proof {
            assert(c0.recent + chosen(fresh.take(0), accept) =~= c0.recent);
        }
        while i < n
            invariant
                start <= i <= n,
                n == all.len(),
                all == trace@,
                fresh == all.skip(start as int),
                decides(accept),
                self.wf(),
                self.scanned_no == c0.scanned_no,
                self@.recent == newest(
                    c0.recent + chosen(fresh.take(i - start), accept),
                    DISPLAY_CAP as int,
                ),
                self@.latest == latest_after(c0.latest, chosen(fresh.take(i - start), accept)),
            decreases n - i,
        {
            let r = &trace[i];
            let ghost before = chosen(fresh.take(i - start), accept);
            let ghost mid = self@;
            assert(fresh.take(i + 1 - start).drop_last() =~= fresh.take(i - start));
            assert(fresh.take(i + 1 - start).last() == *r);
            if accept(r) {
                self.note(r);
                proof {
                    let now = before.push(r@);
                    assert(chosen(fresh.take(i + 1 - start), accept) == now);
                    assert(self@.recent =~= newest(c0.recent + now, DISPLAY_CAP as int));
                    assert(now.drop_last() =~= before);
                    assert(seq![r@].drop_last() =~= seq![]);
                    assert(latest_after(mid.latest, seq![]) == mid.latest);
                }
            }
            i += 1;
        }
        assert(fresh.take(n - start) =~= fresh);
        self.scanned_no = if n > 0 {
            trace[n - 1].no
        } else {
            0
        };
        let oldest: u64 = if n > 0 {
            trace[0].no
        } else {
            u64::MAX
        };
        self.drop_older(oldest);
        n - start
    }
}


// ---------------------------------------------------------------- incremental and whole

/// Whether the numbers of recorded frames rise.
pub open spec fn numbered(trace: Seq<FrameRec>) -> bool {
    &&& forall|i: int, j: int|
        0 <= i < j < trace.len() ==> (#[trigger] trace[i]).no < (#[trigger] trace[j]).no
    &&& forall|i: int| 0 <= i < trace.len() ==> 0 < (#[trigger] trace[i]).no < u64::MAX
}

/// What a table chooses from where the whole recording is looked at anew.
pub open spec fn scanned_whole<F: Fn(&FrameRec) -> bool>(trace: Seq<FrameRec>, accept: F) -> CacheView {
    CacheView {
        latest: latest_after(Map::empty(), chosen(trace, accept)),
        recent: newest(chosen(trace, accept), DISPLAY_CAP as int),
        scanned_no: if trace.len() > 0 {
            trace.last().no
        } else {
            0
        },
    }
}

spec fn rising(recs: Seq<RecView>) -> bool {
    forall|i: int, j: int|
        0 <= i < j < recs.len() ==> (#[trigger] recs[i]).no < (#[trigger] recs[j]).no
}

proof fn lemma_chosen_concat<F: Fn(&FrameRec) -> bool>(a: Seq<FrameRec>, b: Seq<FrameRec>, accept: F)
    ensures
        chosen(a + b, accept) == chosen(a, accept) + chosen(b, accept),
    decreases b.len(),
{
    if b.len() == 0 {
        assert(a + b =~= a);
        assert(chosen(a, accept) + chosen(b, accept) =~= chosen(a, accept));
    } else {
        lemma_chosen_concat(a, b.drop_last(), accept);
        assert((a + b).drop_last() =~= a + b.drop_last());
        assert((a + b).last() == b.last());
        assert(chosen(a + b, accept) =~= chosen(a, accept) + chosen(b, accept));
    }
}

proof fn lemma_chosen_from<F: Fn(&FrameRec) -> bool>(a: Seq<FrameRec>, accept: F, lo: int, hi: int)
    requires
        numbered(a),
        forall|i: int| 0 <= i < a.len() ==> lo <= (#[trigger] a[i]).no < hi,
    ensures
        rising(chosen(a, accept)),
        forall|i: int|
            0 <= i < chosen(a, accept).len() ==> lo <= (#[trigger] chosen(a, accept)[i]).no < hi,
    decreases a.len(),
{
    if a.len() > 0 {
        let rest = a.drop_last();
        let top = a.last().no as int;
        assert forall|i: int| 0 <= i < rest.len() implies lo <= (#[trigger] rest[i]).no < top by {
            assert(a[i].no < a[a.len() - 1].no);
        }
        assert(numbered(rest));
        lemma_chosen_from(rest, accept, lo, top);
    }
}

proof fn lemma_latest_below(recs: Seq<RecView>, hi: int)
    requires
        forall|i: int| 0 <= i < recs.len() ==> (#[trigger] recs[i]).no < hi,
    ensures
        forall|k: u64| #[trigger]
            latest_after(Map::empty(), recs).dom().contains(k) ==> latest_after(
                Map::empty(),
                recs,
            )[k].no < hi,
    decreases recs.len(),
{
    if recs.len() > 0 {
        lemma_latest_below(recs.drop_last(), hi);
        let r = recs.last();
        let p = latest_after(Map::empty(), recs.drop_last());
        let l = latest_after(Map::empty(), recs);
        assert(r == recs[recs.len() - 1]);
        assert forall|k: u64| #[trigger] l.dom().contains(k) implies l[k].no < hi by {
            if l == p || k != r.key {
                assert(p.dom().contains(k));
            }
        }
    } else {
        assert(latest_after(Map::empty(), recs) =~= Map::empty());
    }
}

proof fn lemma_latest_concat(m: Map<u64, RecView>, a: Seq<RecView>, b: Seq<RecView>)
    ensures
        latest_after(latest_after(m, a), b) == latest_after(m, a + b),
    decreases b.len(),
{
    if b.len() == 0 {
        assert(a + b =~= a);
    } else {
        lemma_latest_concat(m, a, b.drop_last());
        assert((a + b).drop_last() =~= a + b.drop_last());
    }
}

proof fn lemma_latest_kept(a: Seq<RecView>, b: Seq<RecView>, oldest: u64)
    requires
        rising(a + b),
        forall|i: int| 0 <= i < a.len() ==> (#[trigger] a[i]).no < oldest,
        forall|i: int| 0 <= i < b.len() ==> (#[trigger] b[i]).no >= oldest,
    ensures
        not_older(latest_after(Map::empty(), a + b), oldest) == latest_after(Map::empty(), b),
    decreases b.len(),
{
    if b.len() == 0 {
        assert(a + b =~= a);
        lemma_latest_below(a, oldest as int);
        assert(not_older(latest_after(Map::empty(), a), oldest) =~= Map::empty());
    } else {
        let rest = b.drop_last();
        let r = b.last();
        let all = a + b;
        assert(all.drop_last() =~= a + rest);
        assert forall|i: int, j: int| 0 <= i < j < (a + rest).len() implies (
        #[trigger] (a + rest)[i]).no < (#[trigger] (a + rest)[j]).no by {
            assert(all[i].no < all[j].no);
        }
        lemma_latest_kept(a, rest, oldest);
        assert forall|i: int| 0 <= i < (a + rest).len() implies (#[trigger] (a + rest)[i]).no
            < r.no by {
            assert(all[i].no < all[all.len() - 1].no);
        }
        assert forall|i: int| 0 <= i < rest.len() implies (#[trigger] rest[i]).no < r.no by {
            assert((a + rest)[a.len() + i].no < r.no);
        }
        lemma_latest_below(a + rest, r.no as int);
        lemma_latest_below(rest, r.no as int);
        let p = latest_after(Map::empty(), a + rest);
        let q = latest_after(Map::empty(), rest);
        assert(all.last() == r);
        assert(latest_after(Map::empty(), all) == p.insert(r.key, r));
        assert(latest_after(Map::empty(), b) == q.insert(r.key, r));
        assert(r.no >= oldest) by {
            assert(b[b.len() - 1].no >= oldest);
        }
        assert(not_older(p.insert(r.key, r), oldest) =~= not_older(p, oldest).insert(r.key, r));
    }
}

proof fn lemma_from_number(a: Seq<RecView>, b: Seq<RecView>, oldest: u64)
    requires
        forall|i: int| 0 <= i < a.len() ==> (#[trigger] a[i]).no < oldest,
        forall|i: int| 0 <= i < b.len() ==> (#[trigger] b[i]).no >= oldest,
    ensures
        from_number(a + b, oldest) == b,
    decreases a.len(),
{
    if a.len() == 0 {
        assert(a + b =~= b);
        if b.len() > 0 {
            assert(b[0].no >= oldest);
        }
    } else {
        assert((a + b)[0] == a[0]);
        assert((a + b).skip(1) =~= a.skip(1) + b);
        lemma_from_number(a.skip(1), b, oldest);
    }
}

proof fn lemma_recent_kept(a: Seq<RecView>, b: Seq<RecView>, oldest: u64, cap: int)
    requires
        cap > 0,
        forall|i: int| 0 <= i < a.len() ==> (#[trigger] a[i]).no < oldest,
        forall|i: int| 0 <= i < b.len() ==> (#[trigger] b[i]).no >= oldest,
    ensures
        from_number(newest(a + b, cap), oldest) == newest(b, cap),
{
    let s = a + b;
    if b.len() >= cap {
        assert(newest(s, cap) =~= newest(b, cap));
        let t = newest(b, cap);
        lemma_from_number(seq![], t, oldest);
        assert(seq![] + t =~= t);
    } else {
        let drop = if s.len() > cap {
            s.len() - cap
        } else {
            0
        };
        let head = a.skip(drop);
        assert(newest(s, cap) =~= head + b);
        lemma_from_number(head, b, oldest);
    }
}

proof fn lemma_newest_twice(a: Seq<RecView>, b: Seq<RecView>, cap: int)
    requires
        cap >= 0,
    ensures
        newest(newest(a, cap) + b, cap) == newest(a + b, cap),
{
    assert(newest(newest(a, cap) + b, cap) =~= newest(a + b, cap));
}

proof fn lemma_first_new_at(recs: Seq<FrameRec>, scanned: u64, k: int, at: int)
    requires
        0 <= at <= k <= recs.len(),
        forall|i: int| at <= i < k ==> (#[trigger] recs[i]).no > scanned,
        at > 0 ==> recs[at - 1].no <= scanned,
    ensures
        first_new(recs, scanned, k) == at,
    decreases k - at,
{
    if k > at {
        assert(recs[k - 1].no > scanned);
        lemma_first_new_at(recs, scanned, k - 1, at);
    }
}

proof fn lemma_suffix<F: Fn(&FrameRec) -> bool>(p: Seq<FrameRec>, y: Seq<FrameRec>, accept: F)
    requires
        numbered(p + y),
    ensures
        ({
            let oldest = if y.len() > 0 {
                y[0].no
            } else {
                u64::MAX
            };
            &&& not_older(latest_after(Map::empty(), chosen(p + y, accept)), oldest)
                == latest_after(Map::empty(), chosen(y, accept))
            &&& from_number(newest(chosen(p + y, accept), DISPLAY_CAP as int), oldest) == newest(
                chosen(y, accept),
                DISPLAY_CAP as int,
            )
        }),
{
    let x = p + y;
    let oldest = if y.len() > 0 {
        y[0].no
    } else {
        u64::MAX
    };
    assert forall|i: int| 0 <= i < p.len() implies 0 <= (#[trigger] p[i]).no < oldest by {
        assert(x[i] == p[i]);
        if y.len() > 0 {
            assert(x[p.len() as int] == y[0]);
            assert(x[i].no < x[p.len() as int].no);
        }
    }
    assert forall|i: int| 0 <= i < y.len() implies oldest <= (#[trigger] y[i]).no < u64::MAX by {
        assert(x[p.len() + i] == y[i]);
        assert(x[p.len() as int] == y[0]);
    }
    assert forall|i: int, j: int| 0 <= i < j < p.len() implies (#[trigger] p[i]).no < (
    #[trigger] p[j]).no by {
        assert(x[i].no < x[j].no);
    }
    assert forall|i: int| 0 <= i < p.len() implies 0 < (#[trigger] p[i]).no < u64::MAX by {
        assert(x[i] == p[i]);
    }
    assert forall|i: int, j: int| 0 <= i < j < y.len() implies (#[trigger] y[i]).no < (
    #[trigger] y[j]).no by {
        assert(x[p.len() + i].no < x[p.len() + j].no);
    }
    assert forall|i: int| 0 <= i < y.len() implies 0 < (#[trigger] y[i]).no < u64::MAX by {
        assert(x[p.len() + i] == y[i]);
    }
    assert(numbered(p) && numbered(y));
    lemma_chosen_concat(p, y, accept);
    lemma_chosen_from(p, accept, 0, oldest as int);
    lemma_chosen_from(y, accept, oldest as int, u64::MAX as int);
    lemma_chosen_from(x, accept, 0, u64::MAX as int);
    let a = chosen(p, accept);
    let b = chosen(y, accept);
    assert(chosen(x, accept) == a + b);
    lemma_latest_kept(a, b, oldest);
    lemma_recent_kept(a, b, oldest, DISPLAY_CAP as int);
}

/// Looking at new frames only gives the same as looking at the whole recording: where a table
/// agrees with an earlier state of the recording, then after any number of further frames, of which
/// the recording may have dropped the oldest, it agrees with the recording again.
pub proof fn law_incremental_views_match_the_whole<F: Fn(&FrameRec) -> bool>(
    before: Seq<FrameRec>,
    more: Seq<FrameRec>,
    dropped: int,
    accept: F,
)
    requires
        numbered(before + more),
        0 <= dropped <= before.len() + more.len(),
    ensures
        synced(scanned_whole(before, accept), (before + more).skip(dropped), accept)
            == scanned_whole((before + more).skip(dropped), accept),
{
    let all = before + more;
    let trace = all.skip(dropped);
    let c = scanned_whole(before, accept);
    let scanned = c.scanned_no;
    let start = if dropped <= before.len() {
        before.len() - dropped
    } else {
        0
    };
    assert forall|i: int| start <= i < trace.len() implies (#[trigger] trace[i]).no > scanned by {
        assert(trace[i] == all[i + dropped]);
        if before.len() > 0 {
            assert(all[before.len() - 1] == before.last());
            assert(all[before.len() - 1].no < all[i + dropped].no);
        }
    }
    if start > 0 {
        assert(trace[start - 1] == before.last());
    }
    lemma_first_new_at(trace, scanned, trace.len() as int, start);
    let fresh = trace.skip(start);
    let new = chosen(fresh, accept);
    let x = before + fresh;
    lemma_chosen_concat(before, fresh, accept);
    lemma_latest_concat(Map::empty(), chosen(before, accept), new);
    lemma_newest_twice(chosen(before, accept), new, DISPLAY_CAP as int);
    let p = if dropped <= before.len() {
        before.take(dropped)
    } else {
        before
    };
    assert(p + trace =~= x);
    assert(numbered(x)) by {
        assert forall|i: int, j: int| 0 <= i < j < x.len() implies (#[trigger] x[i]).no < (
        #[trigger] x[j]).no by {
            let a = if i < before.len() {
                i
            } else {
                i - before.len() + start + dropped
            };
            let b = if j < before.len() {
                j
            } else {
                j - before.len() + start + dropped
            };
            assert(all[a] == x[i] && all[b] == x[j]);
            assert(all[a].no < all[b].no);
        }
        assert forall|i: int| 0 <= i < x.len() implies 0 < (#[trigger] x[i]).no < u64::MAX by {
            let a = if i < before.len() {
                i
            } else {
                i - before.len() + start + dropped
            };
            assert(all[a] == x[i]);
        }
    }
    lemma_suffix(p, trace, accept);
}

} // verus!
