//! Periodic transmissions: fixed frames, frames encoded anew each time, and simulated signals.
//!
//! Times are nanoseconds on the capture timeline. Deadlines are wider than the clock, so that any
//! period in milliseconds can be added to any time.
use crate::can::{
    CanFrame, DynamicPeriodicConfig, FrameView, SimGeneratorMode, SimPeriodicConfig,
    SimSignalGenerator,
};
use crate::table::Table;
use crate::text;
use vstd::prelude::*;

verus! {

/// A period of `millis` milliseconds in nanoseconds, but at least `least` milliseconds.
pub open spec fn period_nanos(millis: u64, least: u64) -> u128 {
    ((if millis < least { least } else { millis }) * 1_000_000) as u128
}

fn to_period(millis: u64, least: u64) -> (r: u128)
    ensures
        r == period_nanos(millis, least),
        r <= 0x1_0000_0000_0000_0000 * 1_000_000,
        least > 0 ==> r > 0,
{
    let m: u64 = if millis < least {
        least
    } else {
        millis
    };
    m as u128 * 1_000_000
}

/// The deadline after one that was scheduled and came due: a period later, but never in the past.
pub open spec fn next_deadline(scheduled: int, period: int, now: int) -> int {
    if scheduled + period > now {
        scheduled + period
    } else {
        now + period
    }
}

/// The deadline after one that came due at `scheduled`. A late wake-up does not shift the rhythm;
/// slots that have gone by are skipped.
pub fn advance_periodic_deadline(scheduled: u128, period: u128, now: u128) -> (r: u128)
    requires
        scheduled + period <= u128::MAX,
        now + period <= u128::MAX,
    ensures
        r as int == next_deadline(scheduled as int, period as int, now as int),
{
    if scheduled + period > now {
        scheduled + period
    } else {
        now + period
    }
}

/// A wake-up before the following slot keeps the rhythm exactly, whatever its delay; in any case
/// the next deadline lies ahead, and no further away than one period.
pub proof fn law_deadlines_keep_their_rhythm(scheduled: int, period: int, now: int)
    requires
        scheduled <= now,
        period > 0,
    ensures
        now < scheduled + period ==> next_deadline(scheduled, period, now) == scheduled + period,
        now < next_deadline(scheduled, period, now) <= now + period,
{
}

// ---------------------------------------------------------------- fixed frames

/// A frame that is sent in a fixed rhythm.
#[derive(Debug)]
pub struct Periodic {
    pub frame: CanFrame,
    pub period: u128,
    pub next: u128,
    /// Transmissions left; negative for no end.
    pub remaining: i64,
    pub sent: u64,
}

impl Periodic {
    /// Periods stay within what a number of milliseconds can say.
    pub open spec fn wf(&self) -> bool {
        0 < self.period <= 0x1_0000_0000_0000_0000 * 1_000_000
    }

    /// The job with its deadline moved on where it is due.
    pub open spec fn moved_on(self, now: u64) -> Periodic {
        if now >= self.next {
            Periodic {
                next: next_deadline(self.next as int, self.period as int, now as int) as u128,
                ..self
            }
        } else {
            self
        }
    }
}

/// Every job of a table is well formed.
pub open spec fn jobs_wf(rows: Seq<(u64, Periodic)>) -> bool {
    forall|i: int| 0 <= i < rows.len() ==> (#[trigger] rows[i]).1.wf()
}

/// A frame as it goes out at time `t`.
pub open spec fn outgoing(f: FrameView, t: i64) -> FrameView {
    FrameView { t, tx: true, ..f }
}

/// The handles and frames that are due, in the order of the table.
pub open spec fn due_frames(rows: Seq<(u64, Periodic)>, now: u64, t: i64) -> Seq<(u64, FrameView)>
    decreases rows.len(),
{
    if rows.len() == 0 {
        seq![]
    } else {
        let before = due_frames(rows.drop_last(), now, t);
        if now >= rows.last().1.next {
            before.push((rows.last().0, outgoing(rows.last().1.frame@, t)))
        } else {
            before
        }
    }
}

/// The views of a list of handles and frames.
pub open spec fn pairs_view(pairs: Seq<(u64, CanFrame)>) -> Seq<(u64, FrameView)> {
    pairs.map_values(|p: (u64, CanFrame)| (p.0, p.1@))
}

fn copy_periodic(p: &Periodic, next: u128) -> (r: Periodic)
    ensures
        r.frame@ == p.frame@,
        r.period == p.period,
        r.next == next,
        r.remaining == p.remaining,
        r.sent == p.sent,
{
    Periodic {
        frame: p.frame.clone(),
        period: p.period,
        next,
        remaining: p.remaining,
        sent: p.sent,
    }
}

/// Two jobs agree, with their frames compared by what they hold.
pub open spec fn same_job(a: Periodic, b: Periodic) -> bool {
    &&& a.frame@ == b.frame@
    &&& a.period == b.period
    &&& a.next == b.next
    &&& a.remaining == b.remaining
    &&& a.sent == b.sent
}

/// Takes the frames that are due and moves their deadlines on.
pub fn take_due(periodics: &mut Table<Periodic>, now: u64, t: i64) -> (r: Vec<(u64, CanFrame)>)
    requires
        old(periodics).wf(),
        jobs_wf(old(periodics).rows()),
    ensures
        final(periodics).wf(),
        jobs_wf(final(periodics).rows()),
        pairs_view(r@) == due_frames(old(periodics).rows(), now, t),
        final(periodics).rows().len() == old(periodics).rows().len(),
        forall|i: int|
            0 <= i < old(periodics).rows().len() ==> (#[trigger] final(periodics).rows()[i]).0
                == old(periodics).rows()[i].0 && same_job(
                final(periodics).rows()[i].1,
                old(periodics).rows()[i].1.moved_on(now),
            ),
{
    let ghost before = periodics.rows();
    let mut due: Vec<(u64, CanFrame)> = Vec::new();
    assert(pairs_view(due@) =~= Seq::<(u64, FrameView)>::empty());
    let mut i: usize = 0;
    while i < periodics.len()
        invariant
            i <= before.len(),
            periodics.wf(),
            jobs_wf(before),
            jobs_wf(periodics.rows()),
            periodics.rows().len() == before.len(),
            forall|j: int|
                0 <= j < i ==> (#[trigger] periodics.rows()[j]).0 == before[j].0 && same_job(
                    periodics.rows()[j].1,
                    before[j].1.moved_on(now),
                ),
            forall|j: int| i <= j < before.len() ==> (#[trigger] periodics.rows()[j]) == before[j],
            pairs_view(due@) == due_frames(before.take(i as int), now, t),
        decreases before.len() - i,
    {
        let ghost row = before.take(i + 1);
        let ghost rows_before = periodics.rows();
        assert(row.drop_last() =~= before.take(i as int));
        assert(row.last() == before[i as int]);
        assert(periodics.rows()[i as int] == before[i as int]);
        assert(before[i as int].1.wf());
        let handle: u64 = periodics.handle_at(i);
        let (next, period): (u128, u128) = {
            let p = periodics.value_at(i);
            (p.next, p.period)
        };
        if now as u128 >= next {
            let moved: u128 = advance_periodic_deadline(next, period, now as u128);
            let job = copy_periodic(periodics.value_at(i), moved);
            let mut frame = job.frame.clone();
            frame.t = t;
            frame.tx = true;
            let ghost due_before = due@;
            due.push((handle, frame));
            periodics.set_value(i, job);
            proof {
                assert(pairs_view(due@) =~= pairs_view(due_before).push((handle, frame@)));
                assert forall|j: int| 0 <= j < before.len() implies (
                #[trigger] periodics.rows()[j]).1.wf() by {
                    if j != i {
                        assert(periodics.rows()[j] == rows_before[j]);
                    }
                }
                assert forall|j: int| 0 <= j < i + 1 implies (#[trigger] periodics.rows()[j]).0
                    == before[j].0 && same_job(
                    periodics.rows()[j].1,
                    before[j].1.moved_on(now),
                ) by {
                    if j < i {
                        assert(periodics.rows()[j] == rows_before[j]);
                    }
                }
                assert forall|j: int| i + 1 <= j < before.len() implies (
                #[trigger] periodics.rows()[j]) == before[j] by {
                    assert(periodics.rows()[j] == rows_before[j]);
                }
            }
        }
        i += 1;
    }
    assert(before.take(i as int) =~= before);
    due
}

/// What a transmission of a periodic frame leads to.
#[derive(Clone, Copy, Debug)]
pub struct PeriodicSent {
    /// The transmissions so far.
    pub sent: u64,
    /// Whether that was the last one.
    pub done: bool,
}

/// A job after one of its frames went out.
pub open spec fn after_sending(p: Periodic) -> Periodic {
    Periodic {
        sent: ((p.sent + 1) % 0x1_0000_0000_0000_0000) as u64,
        remaining: if p.remaining > 0 {
            (p.remaining - 1) as i64
        } else {
            p.remaining
        },
        ..p
    }
}

/// Counts a transmission of a periodic frame.
pub fn count_sent(periodics: &mut Table<Periodic>, handle: u64) -> (r: Option<PeriodicSent>)
    requires
        old(periodics).wf(),
        jobs_wf(old(periodics).rows()),
    ensures
        final(periodics).wf(),
        jobs_wf(final(periodics).rows()),
        r is Some <==> old(periodics).map().dom().contains(handle),
        r is None ==> final(periodics).rows() == old(periodics).rows(),
        r matches Some(s) ==> {
            let before = old(periodics).map()[handle];
            let after = final(periodics).map()[handle];
            &&& final(periodics).map().dom() =~= old(periodics).map().dom()
            &&& same_job(after, after_sending(before))
            &&& s.sent == after.sent
            &&& s.done == (before.remaining == 1)
            &&& forall|h: u64|
                h != handle && old(periodics).map().dom().contains(h)
                    ==> #[trigger] final(periodics).map()[h] == old(periodics).map()[h]
        },
{
    match periodics.find(handle) {
        None => None,
        Some(i) => {
            let ghost before = periodics.rows();
            let job = periodics.value_at(i);
            let mut after = copy_periodic(job, job.next);
            after.sent = after.sent.wrapping_add(1);
            let mut done: bool = false;
            if after.remaining > 0 {
                after.remaining = after.remaining - 1;
                done = after.remaining == 0;
            }
            let sent: u64 = after.sent;
            assert(before[i as int].1.wf());
            periodics.set_value(i, after);
            proof {
                crate::table::lemma_entries_map(before);
                assert forall|j: int| 0 <= j < before.len() implies (
                #[trigger] periodics.rows()[j]).1.wf() by {
                    if j != i {
                        assert(periodics.rows()[j] == before[j]);
                    }
                }
            }
            Some(PeriodicSent { sent, done })
        },
    }
}

// ---------------------------------------------------------------- frames encoded each time

/// A frame that is encoded anew for each transmission.
#[derive(Debug)]
pub struct DynamicPeriodic {
    pub config: DynamicPeriodicConfig,
    pub next: u128,
    pub sent: u64,
}

/// A transmission that is due and has to be encoded.
#[derive(Debug)]
pub struct DynamicDue {
    pub handle: u64,
    pub frame: CanFrame,
    pub dbc_id: u32,
    /// The number of transmissions before this one.
    pub sent_before: u64,
    /// Whether this is the last one.
    pub last: bool,
}

/// What a due transmission is, with its frame as a view.
pub struct DynamicDueView {
    pub handle: u64,
    pub frame: FrameView,
    pub dbc_id: u32,
    pub sent_before: u64,
    pub last: bool,
}

impl View for DynamicDue {
    type V = DynamicDueView;

    open spec fn view(&self) -> DynamicDueView {
        DynamicDueView {
            handle: self.handle,
            frame: self.frame@,
            dbc_id: self.dbc_id,
            sent_before: self.sent_before,
            last: self.last,
        }
    }
}

/// The views of a list of due transmissions.
pub open spec fn dues_view(dues: Seq<DynamicDue>) -> Seq<DynamicDueView> {
    dues.map_values(|d: DynamicDue| d@)
}

/// `n + 1` in 64 bits.
pub open spec fn counted_on(n: u64) -> u64 {
    ((n + 1) % 0x1_0000_0000_0000_0000) as u64
}

impl DynamicPeriodic {
    /// Whether the next transmission is the last one.
    pub open spec fn ends(&self) -> bool {
        self.config.repeat > 0 && counted_on(self.sent) >= self.config.repeat
    }

    /// Two jobs agree, with their frames compared by what they hold.
    pub open spec fn same(&self, other: &DynamicPeriodic) -> bool {
        &&& self.config.frame@ == other.config.frame@
        &&& self.config.dbc_id == other.config.dbc_id
        &&& self.config.period_ms == other.config.period_ms
        &&& self.config.repeat == other.config.repeat
        &&& self.config.start_sent == other.config.start_sent
        &&& self.next == other.next
        &&& self.sent == other.sent
    }

    /// The job with its deadline moved on and its transmission counted where it is due.
    pub open spec fn moved_on(self, now: u64) -> DynamicPeriodic {
        if now >= self.next {
            DynamicPeriodic {
                next: next_deadline(
                    self.next as int,
                    period_nanos(self.config.period_ms, 1) as int,
                    now as int,
                ) as u128,
                sent: counted_on(self.sent),
                ..self
            }
        } else {
            self
        }
    }
}

/// The transmissions that are due, in the order of the table.
pub open spec fn due_dynamics(rows: Seq<(u64, DynamicPeriodic)>, now: u64) -> Seq<DynamicDueView>
    decreases rows.len(),
{
    if rows.len() == 0 {
        seq![]
    } else {
        let before = due_dynamics(rows.drop_last(), now);
        let job = rows.last().1;
        if now >= job.next {
            before.push(
                DynamicDueView {
                    handle: rows.last().0,
                    frame: job.config.frame@,
                    dbc_id: job.config.dbc_id,
                    sent_before: job.sent,
                    last: job.ends(),
                },
            )
        } else {
            before
        }
    }
}

/// Takes the transmissions that are due, counts them and moves their deadlines on.
pub fn take_due_dynamics(dynamics: &mut Table<DynamicPeriodic>, now: u64) -> (r: Vec<DynamicDue>)
    requires
        old(dynamics).wf(),
    ensures
        final(dynamics).wf(),
        dues_view(r@) == due_dynamics(old(dynamics).rows(), now),
        final(dynamics).rows().len() == old(dynamics).rows().len(),
        forall|i: int|
            0 <= i < old(dynamics).rows().len() ==> (#[trigger] final(dynamics).rows()[i]).0
                == old(dynamics).rows()[i].0 && final(dynamics).rows()[i].1.same(
                &old(dynamics).rows()[i].1.moved_on(now),
            ),
{
    let ghost before = dynamics.rows();
    let mut due: Vec<DynamicDue> = Vec::new();
    assert(dues_view(due@) =~= Seq::<DynamicDueView>::empty());
    let mut i: usize = 0;
    while i < dynamics.len()
        invariant
            i <= before.len(),
            dynamics.wf(),
            dynamics.rows().len() == before.len(),
            forall|j: int|
                0 <= j < i ==> (#[trigger] dynamics.rows()[j]).0 == before[j].0
                    && dynamics.rows()[j].1.same(&before[j].1.moved_on(now)),
            forall|j: int| i <= j < before.len() ==> (#[trigger] dynamics.rows()[j]) == before[j],
            dues_view(due@) == due_dynamics(before.take(i as int), now),
        decreases before.len() - i,
    {
        let ghost row = before.take(i + 1);
        let ghost rows_before = dynamics.rows();
        assert(row.drop_last() =~= before.take(i as int));
        assert(row.last() == before[i as int]);
        assert(dynamics.rows()[i as int] == before[i as int]);
        let handle: u64 = dynamics.handle_at(i);
        let next: u128 = dynamics.value_at(i).next;
        if now as u128 >= next {
            let job = dynamics.value_at(i);
            let period: u128 = to_period(job.config.period_ms, 1);
            let sent: u64 = job.sent.wrapping_add(1);
            let last: bool = job.config.repeat > 0 && sent >= job.config.repeat as u64;
            let item = DynamicDue {
                handle,
                frame: job.config.frame.clone(),
                dbc_id: job.config.dbc_id,
                sent_before: job.sent,
                last,
            };
            let after = DynamicPeriodic {
                config: DynamicPeriodicConfig {
                    frame: job.config.frame.clone(),
                    dbc_id: job.config.dbc_id,
                    period_ms: job.config.period_ms,
                    repeat: job.config.repeat,
                    start_sent: job.config.start_sent,
                },
                next: advance_periodic_deadline(next, period, now as u128),
                sent,
            };
            let ghost due_before = due@;
            due.push(item);
            dynamics.set_value(i, after);
            proof {
                assert(dues_view(due@) =~= dues_view(due_before).push(item@));
                assert forall|j: int| 0 <= j < i + 1 implies (#[trigger] dynamics.rows()[j]).0
                    == before[j].0 && dynamics.rows()[j].1.same(&before[j].1.moved_on(now)) by {
                    if j < i {
                        assert(dynamics.rows()[j] == rows_before[j]);
                    }
                }
                assert forall|j: int| i + 1 <= j < before.len() implies (
                #[trigger] dynamics.rows()[j]) == before[j] by {
                    assert(dynamics.rows()[j] == rows_before[j]);
                }
            }
        }
        i += 1;
    }
    assert(before.take(i as int) =~= before);
    due
}

/// Removes a handle from both kinds of periodic jobs.
pub fn stop_periodic_jobs(
    periodics: &mut Table<Periodic>,
    dynamics: &mut Table<DynamicPeriodic>,
    handle: u64,
)
    requires
        old(periodics).wf(),
        old(dynamics).wf(),
    ensures
        final(periodics).wf(),
        final(dynamics).wf(),
        final(periodics).map() == old(periodics).map().remove(handle),
        final(dynamics).map() == old(dynamics).map().remove(handle),
{
    let _ = periodics.remove(handle);
    let _ = dynamics.remove(handle);
}

/// The 53 pseudo-random bits of a seed.
pub open spec fn mixed_bits(seed: u64) -> u64 {
    let a = seed.wrapping_add(0x9E37_79B9_7F4A_7C15);
    let b = (a ^ (a >> 30)).wrapping_mul(0xBF58_476D_1CE4_E5B9);
    let c = (b ^ (b >> 27)).wrapping_mul(0x94D0_49BB_1331_11EB);
    (c ^ (c >> 31)) >> 11
}

/// The 53 pseudo-random bits behind a varying signal; over two to the power 53 they are a number
/// from zero up to one.
pub fn dynamic_rand_bits(seed: u64) -> (r: u64)
    ensures
        r == mixed_bits(seed),
        r < 0x20_0000_0000_0000,
{
    let a: u64 = seed.wrapping_add(0x9E37_79B9_7F4A_7C15);
    let b: u64 = (a ^ (a >> 30)).wrapping_mul(0xBF58_476D_1CE4_E5B9);
    let c: u64 = (b ^ (b >> 27)).wrapping_mul(0x94D0_49BB_1331_11EB);
    let d: u64 = c ^ (c >> 31);
    assert(d >> 11 < 0x20_0000_0000_0000) by (bit_vector);
    d >> 11
}

/// The seed of a varying signal from its job, the transmission and the bytes of its name.
pub open spec fn seed_of(handle: u64, sent: u64, name: Seq<u8>) -> u64
    decreases name.len(),
{
    if name.len() == 0 {
        handle ^ sent.wrapping_mul(0x0100_0001)
    } else {
        seed_of(handle, sent, name.drop_last()).wrapping_mul(31).wrapping_add(name.last() as u64)
    }
}

/// The seed of a varying signal from its job, the transmission and its name.
pub fn dynamic_seed(handle: u64, sent: u64, signal: &str) -> (r: u64)
    ensures
        r == seed_of(handle, sent, vstd::utf8::encode_utf8(signal@)),
{
    let bytes = signal.as_bytes();
    let mut seed: u64 = handle ^ sent.wrapping_mul(0x0100_0001);
    let mut i: usize = 0;
    assert(bytes@.take(0) =~= Seq::<u8>::empty());
    while i < bytes.len()
        invariant
            i <= bytes.len(),
            seed == seed_of(handle, sent, bytes@.take(i as int)),
        decreases bytes.len() - i,
    {
        assert(bytes@.take(i + 1).drop_last() =~= bytes@.take(i as int));
        seed = seed.wrapping_mul(31).wrapping_add(bytes[i] as u64);
        i += 1;
    }
    assert(bytes@.take(i as int) =~= bytes@);
    seed
}

// ---------------------------------------------------------------- waiting

/// The relative due time that a timer counting hundreds of nanoseconds is armed with, so that it
/// does not fire before so many nanoseconds have passed; none where nothing is left to wait for.
pub fn timer_due_time(remaining: u128) -> (r: Option<i64>)
    ensures
        remaining == 0 <==> r is None,
        r matches Some(due) ==> {
            &&& due < 0
            &&& -due * 100 < remaining + 100
            &&& -due * 100 >= remaining || due == -i64::MAX
        },
{
    if remaining == 0 {
        return None;
    }
    let ticks: u128 = (remaining - 1) / 100 + 1;
    if ticks >= 9_223_372_036_854_775_807 {
        Some(-9_223_372_036_854_775_807)
    } else {
        Some(-(ticks as i64))
    }
}

// ---------------------------------------------------------------- handles that are done

/// Whether numbers rise from each to the next.
pub open spec fn rising(v: Seq<u64>) -> bool {
    forall|i: int, j: int| 0 <= i < j < v.len() ==> v[i] < v[j]
}

/// The given numbers in rising order, each once.
pub fn sorted_once(handles: &[u64]) -> (r: Vec<u64>)
    ensures
        rising(r@),
        forall|h: u64| r@.contains(h) <==> handles@.contains(h),
{
    let mut out: Vec<u64> = Vec::new();
    let mut i: usize = 0;
    while i < handles.len()
        invariant
            i <= handles.len(),
            rising(out@),
            forall|h: u64| out@.contains(h) <==> handles@.take(i as int).contains(h),
        decreases handles.len() - i,
    {
        let h: u64 = handles[i];
        let ghost before = out@;
        let mut at: usize = 0;
        while at < out.len() && out[at] < h
            invariant
                at <= out.len(),
                out@ == before,
                forall|j: int| 0 <= j < at ==> out@[j] < h,
            decreases out.len() - at,
        {
            at += 1;
        }
        if at == out.len() || out[at] != h {
            out.insert(at, h);
            proof {
                assert(out@ =~= before.insert(at as int, h));
                assert forall|a: int, b: int| 0 <= a < b < out@.len() implies out@[a] < out@[b] by {
                    let x = if a < at { a } else { a - 1 };
                    let y = if b < at { b } else { b - 1 };
                    if a != at && b != at {
                        assert(before[x] < before[y]);
                    } else if a == at {
                        assert(out@[b] == before[y]);
                        assert(before[at as int] > h);
                        if y > at {
                            assert(before[at as int] < before[y]);
                        }
                    }
                }
            }
        }
        proof {
            let seen = handles@.take(i as int);
            let next = handles@.take(i + 1);
            assert(next =~= seen.push(h));
            assert forall|k: u64| out@.contains(k) <==> next.contains(k) by {
                assert(seen.push(h).contains(k) <==> seen.contains(k) || k == h) by {
                    if seen.contains(k) {
                        let j = choose|j: int| 0 <= j < seen.len() && seen[j] == k;
                        assert(seen.push(h)[j] == k);
                    }
                    if k == h {
                        assert(seen.push(h)[seen.len() as int] == k);
                    }
                }
                if out@ == before {
                    assert(out@[at as int] == h);
                } else {
                    if before.contains(k) {
                        let j = choose|j: int| 0 <= j < before.len() && before[j] == k;
                        let y = if j < at { j } else { j + 1 };
                        assert(out@[y] == k);
                    }
                    assert(out@[at as int] == h);
                    if out@.contains(k) && k != h {
                        let j = choose|j: int| 0 <= j < out@.len() && out@[j] == k;
                        let y = if j < at { j } else { j - 1 };
                        assert(before[y] == k);
                    }
                }
            }
        }
        i += 1;
    }
    assert(handles@.take(i as int) =~= handles@);
    out
}

// ---------------------------------------------------------------- simulated signals

/// A simulated signal at work.
#[derive(Debug)]
pub struct SimSignalState {
    pub config: SimSignalGenerator,
    pub next: u128,
    pub tick: u64,
}

/// A frame that simulated signals fill.
#[derive(Debug)]
pub struct SimPeriodic {
    pub frame: CanFrame,
    pub has_dbc: bool,
    pub dbc_id: u32,
    pub generators: Vec<SimSignalState>,
    /// Whether the last update failed.
    pub failed: bool,
}

/// What the update of a simulated frame asks for next.
#[derive(Clone, Copy, Debug)]
pub enum SimStep {
    /// The first byte of the frame takes the value of this signal at this tick.
    FirstByte { index: usize, tick: u64 },
    /// The value of this signal at this tick is encoded into the payload.
    Encode { index: usize, tick: u64 },
    /// A named signal is due, but there is no database to encode it with.
    NoDatabase,
    /// No further signal is due.
    Done,
}

/// The first signal from `from` on that is due.
pub open spec fn first_due(generators: Seq<SimSignalState>, from: int, now: u64) -> int
    decreases generators.len() - from,
{
    if from >= generators.len() || now >= generators[from].next {
        from
    } else {
        first_due(generators, from + 1, now)
    }
}

impl SimPeriodic {
    /// The frame of a configuration, all signals due at once.
    pub fn start(config: SimPeriodicConfig, now: u64) -> (r: SimPeriodic)
        ensures
            r.frame == config.frame,
            r.has_dbc == config.has_dbc,
            r.dbc_id == config.dbc_id,
            !r.failed,
            r.generators@.len() == config.generators@.len(),
            forall|i: int|
                0 <= i < config.generators@.len() ==> (#[trigger] r.generators@[i])
                    == (SimSignalState {
                    config: config.generators@[i],
                    next: now as u128,
                    tick: 0,
                }),
    {
        let mut generators: Vec<SimSignalState> = Vec::new();
        let mut rest = config.generators;
        let ghost all = rest@;
        let mut reversed: Vec<SimSignalGenerator> = Vec::new();
        while rest.len() > 0
            invariant
                rest@.len() + reversed@.len() == all.len(),
                rest@ == all.take(rest@.len() as int),
                forall|i: int|
                    0 <= i < reversed@.len() ==> reversed@[i] == all[all.len() - 1 - i],
            decreases rest@.len(),
        {
            let ghost n = rest@.len();
            match rest.pop() {
                Some(g) => {
                    reversed.push(g);
                    assert(rest@ =~= all.take(n - 1));
                },
                None => {},
            }
        }
        while reversed.len() > 0
            invariant
                generators@.len() + reversed@.len() == all.len(),
                forall|i: int|
                    0 <= i < reversed@.len() ==> reversed@[i] == all[all.len() - 1 - i],
                forall|i: int|
                    0 <= i < generators@.len() ==> (#[trigger] generators@[i]) == (SimSignalState {
                        config: all[i],
                        next: now as u128,
                        tick: 0,
                    }),
            decreases reversed@.len(),
        {
            match reversed.pop() {
                Some(g) => {
                    generators.push(SimSignalState { config: g, next: now as u128, tick: 0 });
                },
                None => {},
            }
        }
        SimPeriodic {
            frame: config.frame,
            has_dbc: config.has_dbc,
            dbc_id: config.dbc_id,
            generators,
            failed: false,
        }
    }

    /// Finds the next signal from `from` on that is due, moves its deadline on and counts its tick.
    pub fn next_signal(&mut self, from: usize, now: u64) -> (r: SimStep)
        ensures
            ({
                let g = old(self).generators@;
                let i = first_due(g, from as int, now);
                if i >= g.len() {
                    r is Done && *final(self) == *old(self)
                } else {
                    let before = g[i];
                    let after = final(self).generators@[i];
                    &&& final(self).generators@.len() == g.len()
                    &&& forall|j: int|
                        0 <= j < g.len() && j != i ==> final(self).generators@[j] == g[j]
                    &&& after.config.signal@ == before.config.signal@
                    &&& after.config.mode == before.config.mode
                    &&& after.config.period_ms == before.config.period_ms
                    &&& after.next == next_deadline(
                        before.next as int,
                        period_nanos(before.config.period_ms, 10) as int,
                        now as int,
                    )
                    &&& after.tick == counted_on(before.tick)
                    &&& final(self).frame == old(self).frame
                    &&& final(self).has_dbc == old(self).has_dbc
                    &&& final(self).dbc_id == old(self).dbc_id
                    &&& final(self).failed == old(self).failed
                    &&& match r {
                        SimStep::FirstByte { index, tick } => before.config.signal@.len() == 0
                            && index == i && tick == before.tick,
                        SimStep::Encode { index, tick } => before.config.signal@.len() > 0 && old(self).has_dbc && index == i && tick == before.tick,
                        SimStep::NoDatabase => before.config.signal@.len() > 0 && !old(self).has_dbc,
                        SimStep::Done => false,
                    }
                }
            }),
    {
        let mut i: usize = from;
        while i < self.generators.len() && (now as u128) < self.generators[i].next
            invariant
                from <= i,
                i > from ==> i <= self.generators@.len(),
                *self == *old(self),
                first_due(self.generators@, from as int, now) == first_due(
                    self.generators@,
                    i as int,
                    now,
                ),
            decreases self.generators@.len() - i,
        {
            i += 1;
        }
        if i >= self.generators.len() {
            return SimStep::Done;
        }
        let ghost before = self.generators@;
        let (signal, mode, period_ms, next, tick): (String, SimGeneratorMode, u64, u128, u64) = {
            let g = &self.generators[i];
            (g.config.signal.clone(), g.config.mode, g.config.period_ms, g.next, g.tick)
        };
        let period: u128 = to_period(period_ms, 10);
        let named: bool = !signal.as_str().is_empty();
        let moved = SimSignalState {
            config: SimSignalGenerator { signal, mode, period_ms },
            next: advance_periodic_deadline(next, period, now as u128),
            tick: tick.wrapping_add(1),
        };
        self.generators.set(i, moved);
        assert(self.generators@ =~= before.update(i as int, moved));
        if !named {
            SimStep::FirstByte { index: i, tick }
        } else if self.has_dbc {
            SimStep::Encode { index: i, tick }
        } else {
            SimStep::NoDatabase
        }
    }

    /// Puts a value into the first byte of the frame, where it has one.
    pub fn set_first_byte(&mut self, value: u8)
        ensures
            final(self).frame@ == (FrameView {
                data: if old(self).frame.data@.len() > 0 {
                    old(self).frame.data@.update(0, value)
                } else {
                    old(self).frame.data@
                },
                ..old(self).frame@
            }),
            final(self).generators == old(self).generators,
            final(self).has_dbc == old(self).has_dbc,
            final(self).dbc_id == old(self).dbc_id,
            final(self).failed == old(self).failed,
    {
        if self.frame.data.len() > 0 {
            self.frame.data.set(0, value);
        }
    }

    /// Takes the payload with a signal encoded into it.
    pub fn set_payload(&mut self, data: Vec<u8>)
        ensures
            final(self).frame@ == (FrameView { data: data@, ..old(self).frame@ }),
            final(self).generators == old(self).generators,
            final(self).has_dbc == old(self).has_dbc,
            final(self).dbc_id == old(self).dbc_id,
            final(self).failed == old(self).failed,
    {
        self.frame.data = data;
    }

    /// The frame to be sent once its signals are up to date.
    pub fn due_frame(&mut self, t: i64) -> (r: CanFrame)
        ensures
            r@ == (FrameView { t, tx: true, ..old(self).frame@ }),
            *final(self) == (SimPeriodic { failed: false, ..*old(self) }),
    {
        self.failed = false;
        let mut frame = self.frame.clone();
        frame.t = t;
        frame.tx = true;
        frame
    }

    /// The message on a signal that could not be encoded: one until it succeeds again.
    pub fn encoding_failed(&mut self, error: &str) -> (r: Option<String>)
        ensures
            *final(self) == (SimPeriodic { failed: true, ..*old(self) }),
            r is Some <==> !old(self).failed,
            r matches Some(line) ==> line@ == simulation_fault(
                "仿真发生器编码失败: CAN"@,
                old(self).frame.ch,
                old(self).frame.id,
                error@,
            ),
    {
        if self.failed {
            return None;
        }
        self.failed = true;
        Some(fault_line("仿真发生器编码失败: CAN", self.frame.ch, self.frame.id, error))
    }
}

/// A message on a simulated frame.
pub open spec fn simulation_fault(head: Seq<char>, ch: u8, id: u32, error: Seq<char>) -> Seq<char> {
    head + text::decimal(ch as nat) + " 0x"@ + text::hex(id as nat) + ": "@ + error
}

fn fault_line(head: &str, ch: u8, id: u32, error: &str) -> (r: String)
    ensures
        r@ == simulation_fault(head@, ch, id, error@),
{
    let mut line = head.to_owned();
    text::push_decimal(&mut line, ch as u64);
    line.push_str(" 0x");
    text::push_hex(&mut line, id as u64);
    line.push_str(": ");
    line.push_str(error);
    line
}

/// The message on a simulated frame that could not be sent.
pub fn simulation_not_sent(frame: &CanFrame, error: &str) -> (r: String)
    ensures
        r@ == simulation_fault("仿真发生器发送失败: CAN"@, frame.ch, frame.id, error@),
{
    fault_line("仿真发生器发送失败: CAN", frame.ch, frame.id, error)
}

/// The message for a named signal without a database.
pub fn no_database_message() -> (r: String)
    ensures
        r@ == "DBC signal generator has no DBC database"@,
{
    "DBC signal generator has no DBC database".to_owned()
}

} // verus!
