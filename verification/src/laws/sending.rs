//! Laws on what the controller sends: single frames, sequences, batches and periodic frames.
use crate::can::controller::{effects_view, Controller, Effect};
use crate::can::schedule::{
    after_sending, due_dynamics, due_frames, dues_view, pairs_view, period_nanos, DynamicDue,
    DynamicPeriodic, Periodic,
};
use crate::can::send_queue::{
    in_sequence, lemma_payload_bound, lemma_sequence_closed_form, payload_space, payload_value,
};
use crate::can::{
    frames_view, CanFrame, Cmd, DynamicPeriodicConfig, Evt, FrameView, SimPeriodicConfig,
};
use vstd::prelude::*;

verus! {

/// Whether two frames say the same on the bus: all but their times and directions.
pub open spec fn same_message(a: CanFrame, b: CanFrame) -> bool {
    &&& a.ch == b.ch
    &&& a.id == b.id
    &&& a.ext == b.ext
    &&& a.fd == b.fd
    &&& a.brs == b.brs
    &&& a.remote == b.remote
    &&& a.error == b.error
    &&& a.data@ == b.data@
}

/// Whether a view says the same on the bus as a frame.
pub open spec fn says(v: FrameView, f: CanFrame) -> bool {
    &&& v.ch == f.ch
    &&& v.id == f.id
    &&& v.ext == f.ext
    &&& v.fd == f.fd
    &&& v.brs == f.brs
    &&& v.remote == f.remote
    &&& v.error == f.error
    &&& v.data == f.data@
}

// ---------------------------------------------------------------- single frames

/// A single frame goes to the bus once, as it is and with the time of sending, where something is
/// connected; else nothing goes out. The state stays as it was.
pub proof fn law_single_frames_go_out_once(
    before: Controller,
    after: Controller,
    f: CanFrame,
    now: u64,
    t: i64,
    effects: Seq<Effect>,
)
    requires
        after.obeys(&before, Cmd::SendOnce(f), now, t, effects_view(effects)),
    ensures
        after == before,
        effects.len() == if before.links@.len() > 0 {
            1nat
        } else {
            0
        },
        before.links@.len() > 0 ==> (effects[0] matches Effect::Transmit(out) && same_message(out, f)
            && out.t == t && out.tx == f.tx),
{
    let fx = effects_view(effects);
    assert(fx.len() == effects.len());
    if before.links@.len() > 0 {
        assert(fx[0] == effects[0]@);
    }
}

/// A frame that was sent is shown with the channel that it went out on; one that was not sent is
/// told with the reason.
pub proof fn law_sent_frames_are_shown(f: CanFrame, outcome: Result<u8, String>, r: Evt)
    requires
        call_ensures(Controller::sent_once, (f, outcome), r),
    ensures
        match outcome {
            Ok(used) => r matches Evt::Frame(shown) && shown.ch == used && shown.tx && shown.id
                == f.id && shown.ext == f.ext && shown.fd == f.fd && shown.data@ == f.data@
                && shown.t == f.t,
            Err(why) => r matches Evt::Log(line) && exists|head: Seq<char>| line@ == head + why@,
        },
{
    match outcome {
        Ok(_) => {},
        Err(why) => {
            assert("发送失败: "@ + why@ == "发送失败: "@ + why@);
        },
    }
}

// ---------------------------------------------------------------- sequences

/// The frames of a sequence count from the first one on: the identifier by one a frame within its
/// format, the first two bytes of the payload as a number with the lower byte first; nothing else
/// changes.
pub proof fn law_sequences_count(f: FrameView, k: nat, id_increment: bool, data_increment: bool)
    ensures
        ({
            let g = in_sequence(f, k, id_increment, data_increment);
            &&& k == 0 ==> g == f
            &&& !id_increment ==> g.id == f.id
            &&& id_increment && k > 0 && !f.ext ==> g.id == (f.id + k) % 2048
            &&& id_increment && k > 0 && f.ext ==> g.id == (f.id + k) % 0x2000_0000
            &&& g.data.len() == f.data.len()
            &&& !data_increment ==> g.data == f.data
            &&& data_increment && f.data.len() >= 1 ==> g.data[0] == (f.data[0] + k) % 256
            &&& data_increment && f.data.len() >= 2 ==> g.data[0] + 256 * g.data[1] == (f.data[0]
                + 256 * f.data[1] + k) % 65536
            &&& g.t == f.t && g.ch == f.ch && g.tx == f.tx && g.ext == f.ext && g.fd == f.fd
            &&& g.brs == f.brs && g.remote == f.remote && g.error == f.error
        }),
{
    lemma_sequence_closed_form(f, k, id_increment, data_increment);
    let g = in_sequence(f, k, id_increment, data_increment);
    if data_increment && f.data.len() >= 1 {
        let v = payload_value(f.data) as int;
        let w = payload_value(g.data) as int;
        let s1 = payload_space((f.data.len() - 1) as nat) as int;
        lemma_payload_bound(f.data);
        lemma_payload_bound(f.data.drop_first());
        vstd::arithmetic::div_mod::lemma_mod_mod(v + k, 256, s1);
        let r = payload_value(f.data.drop_first()) as int;
        let q = payload_value(g.data.drop_first()) as int;
        assert(v == f.data[0] + 256 * r);
        assert(w == g.data[0] + 256 * q);
        assert(w % 256 == g.data[0]);
        assert((v + k) % 256 == (f.data[0] + k) % 256);
        if f.data.len() >= 2 {
            let s2 = payload_space((f.data.len() - 2) as nat) as int;
            lemma_payload_bound(f.data.drop_first().drop_first());
            assert(f.data.drop_first()[0] == f.data[1]);
            assert(g.data.drop_first()[0] == g.data[1]);
            let r2 = payload_value(f.data.drop_first().drop_first()) as int;
            let q2 = payload_value(g.data.drop_first().drop_first()) as int;
            assert(v == f.data[0] + 256 * f.data[1] + 65536 * r2);
            assert(w == g.data[0] + 256 * g.data[1] + 65536 * q2);
            assert(s1 == 256 * s2);
            assert(payload_space(f.data.len()) == 65536 * s2);
            vstd::arithmetic::div_mod::lemma_mod_mod(v + k, 65536, s2);
            assert(w % 65536 == g.data[0] + 256 * g.data[1]);
            assert((v + k) % 65536 == (f.data[0] + 256 * f.data[1] + k) % 65536);
        }
    }
}

/// A sequence that finds a place queues as many frames as were asked for, up to 100000, behind what
/// waits already, each as it stands in the count.
pub proof fn law_sequences_are_queued(
    before: Controller,
    after: Controller,
    f: CanFrame,
    count: u64,
    id_increment: bool,
    data_increment: bool,
    now: u64,
    t: i64,
    effects: Seq<Effect>,
)
    requires
        after.obeys(
            &before,
            Cmd::SendSequence { frame: f, count, id_increment, data_increment },
            now,
            t,
            effects_view(effects),
        ),
    ensures
        before.links@.len() == 0 || count == 0 ==> after.pending@ == before.pending@,
        after.pending@ != before.pending@ ==> {
            let n = if count < 100_000 {
                count as int
            } else {
                100_000
            };
            &&& after.pending@.len() == before.pending@.len() + 1 <= 64
            &&& forall|i: int| 0 <= i < before.pending@.len() ==> after.pending@[i] == before.pending@[i]
            &&& after.pending@.last().queued().len() == n
            &&& says(after.pending@.last().queued()[0], f)
            &&& forall|k: int|
                0 <= k < n ==> #[trigger] after.pending@.last().queued()[k] == in_sequence(
                    f@,
                    k as nat,
                    id_increment,
                    data_increment,
                )
        },
        before.links@.len() > 0 && count > 0 && before.pending@.len() == 0 ==> after.pending@.len()
            == 1,
        after.periodics == before.periodics,
        after.links == before.links,
{
    if after.pending@ != before.pending@ {
        assert forall|i: int| 0 <= i < before.pending@.len() implies after.pending@[i]
            == before.pending@[i] by {
            assert(after.pending@.drop_last()[i] == before.pending@[i]);
        }
    }
    if before.pending@.len() == 0 {
        assert(crate::can::send_queue::frames_left(before.pending@) == 0);
    }
}

// ---------------------------------------------------------------- batches

/// A batch that finds a place queues its frames in their order, over and over as often as asked
/// for, up to 100000 frames in all; whoever waits is told how many.
pub proof fn law_batches_repeat_their_frames(
    before: Controller,
    after: Controller,
    frames: Vec<CanFrame>,
    repeat: u32,
    ack: Option<u64>,
    now: u64,
    t: i64,
    effects: Seq<Effect>,
)
    requires
        after.obeys(
            &before,
            Cmd::SendBatch { frames, repeat, ack },
            now,
            t,
            effects_view(effects),
        ),
    ensures
        before.links@.len() == 0 || frames@.len() == 0 ==> after.pending@ == before.pending@,
        after.pending@ != before.pending@ ==> {
            let times = if repeat == 0 {
                1int
            } else {
                repeat as int
            };
            let wanted = frames@.len() * times;
            let n = if wanted < 100_000 {
                wanted
            } else {
                100_000
            };
            let queued = after.pending@.last().queued();
            &&& after.pending@.len() == before.pending@.len() + 1 <= 64
            &&& queued.len() == n
            &&& forall|k: int| 0 <= k < n && k < frames@.len() ==> #[trigger] queued[k] == frames@[k]@
            &&& forall|k: int|
                0 <= k && k + frames@.len() < n ==> #[trigger] queued[k + frames@.len()] == queued[k]
            &&& ack matches Some(who) ==> effects.last() == Effect::Acknowledge(who, Ok(n as u64))
        },
        ack is Some ==> effects.last() is Acknowledge,
        before.links@.len() > 0 && frames@.len() > 0 && before.pending@.len() == 0
            ==> after.pending@.len() == 1,
{
    let fx = effects_view(effects);
    assert(fx.len() == effects.len());
    let list = frames_view(frames@);
    if ack is Some {
        assert(fx[1] == effects[1]@);
        assert(effects.last() == effects[1]);
    }
    if before.pending@.len() == 0 {
        assert(crate::can::send_queue::frames_left(before.pending@) == 0);
    }
    if after.pending@ != before.pending@ {
        let m = list.len() as int;
        let queued = after.pending@.last().queued();
        assert forall|k: int| 0 <= k < queued.len() && k < m implies #[trigger] queued[k]
            == frames@[k]@ by {
            vstd::arithmetic::div_mod::lemma_small_mod(k as nat, m as nat);
        }
        assert forall|k: int| 0 <= k && k + m < queued.len() implies #[trigger] queued[k + m]
            == queued[k] by {
            vstd::arithmetic::div_mod::lemma_mod_add_multiples_vanish(k, m);
            assert((k + m) % m == k % m);
        }
    }
}

// ---------------------------------------------------------------- periodic frames

/// A period is the number of milliseconds that was asked for, at a million nanoseconds each, but at
/// least the least one; a longer one is longer.
pub proof fn law_periods_are_milliseconds(millis: u64, other: u64, least: u64)
    ensures
        millis >= least ==> period_nanos(millis, least) == millis * 1_000_000,
        millis < least ==> period_nanos(millis, least) == least * 1_000_000,
        least <= millis < other ==> period_nanos(millis, least) < period_nanos(other, least),
{
}

/// A periodic frame that is set is due at once, and from then on each time so many milliseconds
/// later, at least one; it goes on under its handle as often as asked for, in place of whatever the
/// handle stood for. The other handles go on.
pub proof fn law_periodic_frames_keep_their_period(
    before: Controller,
    after: Controller,
    handle: u64,
    frame: CanFrame,
    period_ms: u64,
    repeat: i64,
    now: u64,
    t: i64,
    effects: Seq<Effect>,
)
    requires
        repeat != 0,
        after.obeys(
            &before,
            Cmd::SetPeriodic { handle, frame, period_ms, repeat, enable: true },
            now,
            t,
            effects_view(effects),
        ),
    ensures
        effects.len() == 0,
        after.periodics.map().dom().contains(handle),
        !after.dynamics.map().dom().contains(handle),
        ({
            let job = after.periodics.map()[handle];
            let millis = if period_ms == 0 {
                1int
            } else {
                period_ms as int
            };
            &&& same_message(job.frame, frame)
            &&& job.next == now
            &&& job.remaining == repeat
            &&& job.sent == 0
            &&& job.period == millis * 1_000_000
            &&& forall|wake: u64|
                now <= wake < now + millis * 1_000_000 ==> (#[trigger] job.moved_on(wake)).next == now
                    + millis * 1_000_000
            &&& forall|wake: u64|
                now + millis * 1_000_000 <= wake ==> (#[trigger] job.moved_on(wake)).next == wake
                    + millis * 1_000_000
        }),
        forall|h: u64|
            h != handle && before.periodics.map().dom().contains(h)
                ==> #[trigger] after.periodics.map().dom().contains(h) && after.periodics.map()[h]
                == before.periodics.map()[h],
{
    assert(effects_view(effects).len() == effects.len());
}

/// A periodic frame that is switched off, or set for no times, is gone; the other handles go on.
pub proof fn law_periodic_frames_are_switched_off(
    before: Controller,
    after: Controller,
    handle: u64,
    frame: CanFrame,
    period_ms: u64,
    repeat: i64,
    enable: bool,
    now: u64,
    t: i64,
    effects: Seq<Effect>,
)
    requires
        !enable || repeat == 0,
        after.obeys(
            &before,
            Cmd::SetPeriodic { handle, frame, period_ms, repeat, enable },
            now,
            t,
            effects_view(effects),
        ),
    ensures
        !after.periodics.map().dom().contains(handle),
        forall|h: u64|
            h != handle && before.periodics.map().dom().contains(h)
                ==> #[trigger] after.periodics.map().dom().contains(h) && after.periodics.map()[h]
                == before.periodics.map()[h],
        after.dynamics == before.dynamics,
{
}

/// A frame that is encoded each time is due at once and each time so many milliseconds later, at
/// least one; its transmissions count on from where they are told to, and the last one is that
/// which completes the number asked for.
pub proof fn law_encoded_frames_keep_their_period(
    before: Controller,
    after: Controller,
    handle: u64,
    config: DynamicPeriodicConfig,
    now: u64,
    t: i64,
    effects: Seq<Effect>,
)
    requires
        config.repeat != 0,
        after.obeys(
            &before,
            Cmd::SetDynamicPeriodic { handle, config: Some(config) },
            now,
            t,
            effects_view(effects),
        ),
    ensures
        !after.periodics.map().dom().contains(handle),
        after.dynamics.map().dom().contains(handle),
        ({
            let job = after.dynamics.map()[handle];
            let millis = if config.period_ms == 0 {
                1int
            } else {
                config.period_ms as int
            };
            &&& job.config == config
            &&& job.next == now
            &&& job.sent == config.start_sent
            &&& forall|wake: u64|
                now <= wake < now + millis * 1_000_000 ==> {
                    &&& (#[trigger] job.moved_on(wake)).next == now + millis * 1_000_000
                    &&& config.start_sent < u64::MAX ==> job.moved_on(wake).sent == config.start_sent
                        + 1
                }
            &&& config.start_sent < u64::MAX ==> job.ends() == (config.repeat > 0
                && config.start_sent + 1 >= config.repeat)
        }),
        forall|h: u64|
            h != handle && before.dynamics.map().dom().contains(h)
                ==> #[trigger] after.dynamics.map().dom().contains(h) && after.dynamics.map()[h]
                == before.dynamics.map()[h],
{
}

/// A job that is not due waits: its deadline, its count and its repetitions stay.
pub proof fn law_jobs_wait_for_their_deadline(p: Periodic, d: DynamicPeriodic, now: u64)
    ensures
        now < p.next ==> p.moved_on(now) == p,
        now < d.next ==> d.moved_on(now) == d,
        p.moved_on(now).frame == p.frame,
        p.moved_on(now).period == p.period,
        p.moved_on(now).remaining == p.remaining,
        p.moved_on(now).sent == p.sent,
        d.moved_on(now).config == d.config,
{
}

proof fn lemma_goes_out(rows: Seq<(u64, Periodic)>, i: int, now: u64, t: i64) -> (k: int)
    requires
        0 <= i < rows.len(),
        rows[i].1.next <= now,
    ensures
        0 <= k < due_frames(rows, now, t).len(),
        due_frames(rows, now, t)[k].0 == rows[i].0,
        says(due_frames(rows, now, t)[k].1, rows[i].1.frame),
        due_frames(rows, now, t)[k].1.t == t,
        due_frames(rows, now, t)[k].1.tx,
    decreases rows.len(),
{
    if i == rows.len() - 1 {
        due_frames(rows, now, t).len() - 1
    } else {
        let k = lemma_goes_out(rows.drop_last(), i, now, t);
        k
    }
}

/// A frame whose deadline has come goes out under its handle, as it was set and with the time of
/// sending. Its place among those that go out.
pub proof fn law_due_frames_go_out(
    rows: Seq<(u64, Periodic)>,
    i: int,
    now: u64,
    t: i64,
    out: Seq<(u64, CanFrame)>,
) -> (k: int)
    requires
        pairs_view(out) == due_frames(rows, now, t),
        0 <= i < rows.len(),
        rows[i].1.next <= now,
    ensures
        0 <= k < out.len(),
        out[k].0 == rows[i].0,
        same_message(out[k].1, rows[i].1.frame),
        out[k].1.t == t,
        out[k].1.tx,
{
    let k = lemma_goes_out(rows, i, now, t);
    assert(pairs_view(out)[k] == (out[k].0, out[k].1@));
    k
}

proof fn lemma_was_due(rows: Seq<(u64, Periodic)>, k: int, now: u64, t: i64) -> (i: int)
    requires
        0 <= k < due_frames(rows, now, t).len(),
    ensures
        k <= i < rows.len(),
        rows[i].0 == due_frames(rows, now, t)[k].0,
        says(due_frames(rows, now, t)[k].1, rows[i].1.frame),
        rows[i].1.next <= now,
    decreases rows.len(),
{
    let had = due_frames(rows.drop_last(), now, t);
    if k < had.len() {
        lemma_was_due(rows.drop_last(), k, now, t)
    } else {
        lemma_due_are_few(rows.drop_last(), now, t);
        rows.len() - 1
    }
}

proof fn lemma_due_are_few(rows: Seq<(u64, Periodic)>, now: u64, t: i64)
    ensures
        due_frames(rows, now, t).len() <= rows.len(),
    decreases rows.len(),
{
    if rows.len() > 0 {
        lemma_due_are_few(rows.drop_last(), now, t);
    }
}

/// Nothing goes out but frames whose deadlines have come. The place of the job among all jobs.
pub proof fn law_only_due_frames_go_out(
    rows: Seq<(u64, Periodic)>,
    k: int,
    now: u64,
    t: i64,
    out: Seq<(u64, CanFrame)>,
) -> (i: int)
    requires
        pairs_view(out) == due_frames(rows, now, t),
        0 <= k < out.len(),
    ensures
        out.len() <= rows.len(),
        k <= i < rows.len(),
        rows[i].0 == out[k].0,
        rows[i].1.next <= now,
        same_message(out[k].1, rows[i].1.frame),
{
    assert(pairs_view(out)[k] == (out[k].0, out[k].1@));
    lemma_due_are_few(rows, now, t);
    lemma_was_due(rows, k, now, t)
}

proof fn lemma_is_encoded(rows: Seq<(u64, DynamicPeriodic)>, i: int, now: u64) -> (k: int)
    requires
        0 <= i < rows.len(),
        rows[i].1.next <= now,
    ensures
        0 <= k < due_dynamics(rows, now).len(),
        due_dynamics(rows, now)[k].handle == rows[i].0,
        says(due_dynamics(rows, now)[k].frame, rows[i].1.config.frame),
        due_dynamics(rows, now)[k].dbc_id == rows[i].1.config.dbc_id,
        due_dynamics(rows, now)[k].sent_before == rows[i].1.sent,
        due_dynamics(rows, now)[k].last == rows[i].1.ends(),
    decreases rows.len(),
{
    if i == rows.len() - 1 {
        due_dynamics(rows, now).len() - 1
    } else {
        lemma_is_encoded(rows.drop_last(), i, now)
    }
}

/// A frame that is to be encoded now is handed out with its database, the number of transmissions
/// before it, and whether it is the last one. Its place among those that are handed out.
pub proof fn law_due_frames_are_encoded(
    rows: Seq<(u64, DynamicPeriodic)>,
    i: int,
    now: u64,
    out: Seq<DynamicDue>,
) -> (k: int)
    requires
        dues_view(out) == due_dynamics(rows, now),
        0 <= i < rows.len(),
        rows[i].1.next <= now,
    ensures
        0 <= k < out.len(),
        out[k].handle == rows[i].0,
        same_message(out[k].frame, rows[i].1.config.frame),
        out[k].dbc_id == rows[i].1.config.dbc_id,
        out[k].sent_before == rows[i].1.sent,
        rows[i].1.sent < u64::MAX ==> out[k].last == (rows[i].1.config.repeat > 0 && rows[i].1.sent + 1
            >= rows[i].1.config.repeat),
{
    let k = lemma_is_encoded(rows, i, now);
    assert(dues_view(out)[k] == out[k]@);
    k
}

proof fn lemma_was_to_be_encoded(rows: Seq<(u64, DynamicPeriodic)>, k: int, now: u64) -> (i: int)
    requires
        0 <= k < due_dynamics(rows, now).len(),
    ensures
        0 <= i < rows.len(),
        rows[i].0 == due_dynamics(rows, now)[k].handle,
        rows[i].1.next <= now,
    decreases rows.len(),
{
    if k < due_dynamics(rows.drop_last(), now).len() {
        lemma_was_to_be_encoded(rows.drop_last(), k, now)
    } else {
        rows.len() - 1
    }
}

/// Nothing is handed out to be encoded but frames whose deadlines have come. The place of the job.
pub proof fn law_only_due_frames_are_encoded(
    rows: Seq<(u64, DynamicPeriodic)>,
    k: int,
    now: u64,
    out: Seq<DynamicDue>,
) -> (i: int)
    requires
        dues_view(out) == due_dynamics(rows, now),
        0 <= k < out.len(),
    ensures
        0 <= i < rows.len(),
        rows[i].0 == out[k].handle,
        rows[i].1.next <= now,
{
    assert(dues_view(out)[k] == out[k]@);
    lemma_was_to_be_encoded(rows, k, now)
}

/// A job after so many of its frames went out.
pub open spec fn after_sendings(p: Periodic, n: nat) -> Periodic
    decreases n,
{
    if n == 0 {
        p
    } else {
        after_sending(after_sendings(p, (n - 1) as nat))
    }
}

/// Each transmission counts once: a job for a number of times has that many less the ones that went
/// out left, and none after the last; a job without end stays without end.
pub proof fn law_repetitions_are_counted(p: Periodic, n: nat)
    requires
        p.sent + n <= u64::MAX,
    ensures
        after_sendings(p, n).sent == p.sent + n,
        p.remaining > 0 && n <= p.remaining ==> after_sendings(p, n).remaining == p.remaining - n,
        p.remaining < 0 ==> after_sendings(p, n).remaining == p.remaining,
        after_sendings(p, n).period == p.period,
        after_sendings(p, n).next == p.next,
        after_sendings(p, n).frame == p.frame,
    decreases n,
{
    if n > 0 {
        law_repetitions_are_counted(p, (n - 1) as nat);
    }
}

/// Simulated frames replace those before: as many as were set, each with its signals, all due at
/// once and none counted yet.
pub proof fn law_simulated_frames_start_at_once(
    before: Controller,
    after: Controller,
    configs: Vec<SimPeriodicConfig>,
    now: u64,
    t: i64,
    effects: Seq<Effect>,
)
    requires
        after.obeys(
            &before,
            Cmd::SetSimulationPeriodics(configs),
            now,
            t,
            effects_view(effects),
        ),
    ensures
        after.sims@.len() == configs@.len(),
        forall|i: int|
            0 <= i < configs@.len() ==> {
                let sim = #[trigger] after.sims@[i];
                &&& same_message(sim.frame, configs@[i].frame)
                &&& sim.dbc_id == configs@[i].dbc_id
                &&& sim.has_dbc == configs@[i].has_dbc
                &&& sim.generators@.len() == configs@[i].generators@.len()
                &&& forall|j: int|
                    0 <= j < sim.generators@.len() ==> {
                        let g = #[trigger] sim.generators@[j];
                        &&& g.next == now
                        &&& g.tick == 0
                        &&& g.config == configs@[i].generators@[j]
                    }
            },
        after.periodics == before.periodics,
        after.dynamics == before.dynamics,
{
}

} // verus!
