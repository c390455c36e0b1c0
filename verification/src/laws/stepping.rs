//! Laws on single steps: what each call leaves behind of what it works on.
use crate::can::adapters::OpenedChannel;
use crate::can::controller::{Controller, Effect};
use crate::can::ota::{OtaAfterAck, OtaCancel, OtaReport, OtaRun};
use crate::can::playback::{Playback, SliceEnd};
use crate::can::queue::{PlaybackEventSend, PlaybackFrameEmit};
use crate::can::schedule::{
    count_sent, first_due, stop_periodic_jobs, DynamicPeriodic, Periodic, PeriodicSent, SimPeriodic,
    SimStep,
};
use crate::can::send_queue::{enqueue_send_job, frames_left, PendingSendJob, SendSlice, SliceStep};
use crate::can::supervision::{connection_loss_confirmed, should_log_send_error, RecentErrors};
use crate::can::timebase::HardwareTimebase;
use crate::can::vci::{VciBus, VciStep};
use crate::can::zcan_bus::{add_driver_failure, merge_poll_report, ZcanFdBus, ZcanStep};
use crate::can::zcan_ffi::ZcanChannelStatus;
use crate::can::zlg_ffi::VCI_CAN_STATUS;
use crate::can::{CanFrame, Evt, OtaJob, PollReport};
use crate::table::Table;
use std::collections::VecDeque;
use vstd::prelude::*;

verus! {

// ---------------------------------------------------------------- replays

/// A replay goes on where it stands, or from the beginning where it stands at the end, and runs by
/// the clock from now on.
pub proof fn law_playing_goes_on(
    p: &mut Playback,
    online: bool,
    speed_ppm: i64,
    loop_play: bool,
    now: u64,
)
    requires
        old(p).wf(),
        old(p).frames@.len() > 0,
        call_ensures(Playback::play, (p, online, speed_ppm, loop_play, now), ()),
    ensures
        final(p).playing && !final(p).paused,
        final(p).frames == old(p).frames,
        old(p).idx < old(p).frames@.len() ==> final(p).idx == old(p).idx,
        old(p).idx == old(p).frames@.len() ==> final(p).idx == 0,
        final(p).base == now,
        final(p).base_t == final(p).frames@[final(p).idx as int].t,
        final(p).online == online && final(p).speed_ppm == speed_ppm && final(p).loop_play == loop_play,
{
}

/// Pausing keeps the position and cancelling gives it up; neither touches the recording.
pub proof fn law_pauses_keep_the_position(p: &mut Playback, q: &mut Playback)
    requires
        call_ensures(Playback::pause, (p,), ()),
        call_ensures(Playback::cancel, (q,), ()),
    ensures
        final(p).paused,
        final(p).idx == old(p).idx && final(p).frames == old(p).frames && final(p).playing
            == old(p).playing,
        !final(q).playing && !final(q).paused && final(q).idx == 0,
        final(q).frames == old(q).frames,
{
}

/// The position moves past what was taken and past nothing else; a replay ends where nobody listens
/// any more.
pub proof fn law_positions_move_past_what_was_taken(
    p: &mut Playback,
    end: usize,
    fate: PlaybackEventSend,
    q: &mut Playback,
    emit: PlaybackFrameEmit,
    r: bool,
)
    requires
        old(p).wf(),
        old(p).idx <= end <= old(p).frames@.len(),
        old(q).idx < old(q).frames@.len(),
        call_ensures(Playback::after_batch, (p, end, fate), ()),
        call_ensures(Playback::after_frame, (q, emit), r),
    ensures
        fate is Enqueued ==> final(p).idx == end && final(p).playing == old(p).playing,
        fate is Full ==> *final(p) == *old(p),
        fate is Disconnected ==> final(p).idx == old(p).idx && !final(p).playing,
        emit is Emitted ==> r && final(q).idx == old(q).idx + 1 && final(q).playing == old(q).playing,
        emit is Backpressure ==> !r && *final(q) == *old(q),
        emit is Failed ==> !r && final(q).idx == old(q).idx && !final(q).playing,
        final(p).frames == old(p).frames && final(q).frames == old(q).frames,
{
    assert(old(q).frames.len() == old(q).frames@.len());
}

/// A replay at its end begins again if it is to, and is over if not.
pub proof fn law_replays_end_or_begin_again(p: &mut Playback, now: u64, r: SliceEnd)
    requires
        old(p).wf(),
        old(p).frames@.len() > 0,
        call_ensures(Playback::end_slice, (p, now), r),
    ensures
        r is GoesOn <==> old(p).idx < old(p).frames@.len(),
        r is GoesOn ==> *final(p) == *old(p),
        r is Restarted <==> old(p).idx == old(p).frames@.len() && old(p).loop_play,
        r is Restarted ==> final(p).idx == 0 && final(p).playing == old(p).playing && final(p).base
            == now && final(p).base_t == old(p).frames@[0].t,
        r is Completed ==> !final(p).playing && final(p).idx == old(p).idx,
        final(p).frames == old(p).frames,
{
}

// ---------------------------------------------------------------- the send queue

/// A job waits behind those before it. It is refused where 64 wait already or more than a hundred
/// thousand frames would, and then the queue stays as it was.
pub proof fn law_jobs_wait_in_line(
    queue: &mut VecDeque<PendingSendJob>,
    job: PendingSendJob,
    r: Result<u64, String>,
)
    requires
        crate::can::send_queue::queue_wf(old(queue)@),
        job.wf(),
        call_ensures(enqueue_send_job, (queue, job), r),
    ensures
        r is Ok <==> old(queue)@.len() < 64 && frames_left(old(queue)@) + job.queued().len()
            <= 100_000,
        r matches Ok(n) ==> n == job.queued().len() && final(queue)@ == old(queue)@.push(job)
            && frames_left(final(queue)@) == frames_left(old(queue)@) + n,
        r is Err ==> final(queue)@ == old(queue)@,
{
    assert(old(queue)@.push(job).drop_last() =~= old(queue)@);
}

/// A slice takes the next frame of the first job, with the time and as sent, and takes no more than
/// 32; without a connection, time or jobs it takes none.
pub proof fn law_slices_take_the_next_frame(
    s: &mut SendSlice,
    queue: &mut VecDeque<PendingSendJob>,
    connected: bool,
    out_of_time: bool,
    t: i64,
    r: SliceStep,
)
    requires
        crate::can::send_queue::queue_wf(old(queue)@),
        call_ensures(SendSlice::begin, (s, queue, connected, out_of_time, t), r),
    ensures
        r is Done <==> !connected || out_of_time || old(s).stopped || old(s).attempts >= 32
            || old(queue)@.len() == 0,
        r is Done ==> final(queue)@ == old(queue)@,
        !(r is Done) ==> final(s).attempts == old(s).attempts + 1,
        r matches SliceStep::Transmit(f) ==> {
            let next = old(queue)@[0].queued()[0];
            &&& f.t == t && f.tx
            &&& f.ch == next.ch && f.id == next.id && f.ext == next.ext && f.fd == next.fd && f.brs
                == next.brs && f.remote == next.remote && f.data@ == next.data
            &&& final(queue)@[0].queued().len() == old(queue)@[0].queued().len() - 1
        },
        r is Skipped ==> old(queue)@[0].queued().len() == 0 && final(queue)@.len() == old(queue)@.len()
            - 1,
{
}

/// A frame that went out is shown on the channel that took it, and its job leaves when it has no
/// more; a failure ends the job and the slice.
pub proof fn law_failures_end_their_job(
    s: &mut SendSlice,
    queue: &mut VecDeque<PendingSendJob>,
    frame: CanFrame,
    outcome: Result<u8, String>,
    r: Option<String>,
)
    requires
        crate::can::send_queue::queue_wf(old(queue)@),
        old(queue)@.len() > 0,
        call_ensures(SendSlice::finish, (s, queue, frame, outcome), r),
    ensures
        outcome is Ok ==> r is None && final(s).stopped == old(s).stopped && final(s).echoes@.len()
            == old(s).echoes@.len() + 1 && final(s).echoes@.last().ch == outcome->Ok_0
            && final(s).echoes@.last().id == frame.id && final(s).echoes@.last().data@ == frame.data@,
        outcome is Ok ==> final(queue)@.len() == old(queue)@.len() - (if old(queue)@[0].queued().len()
            == 0 {
            1int
        } else {
            0
        }),
        outcome is Err ==> r is Some && final(s).stopped && final(s).echoes == old(s).echoes
            && final(queue)@ == old(queue)@.subrange(1, old(queue)@.len() as int),
{
    let before = crate::can::frames_view(old(s).echoes@);
    let after = crate::can::frames_view(final(s).echoes@);
    assert(before.len() == old(s).echoes@.len() && after.len() == final(s).echoes@.len());
    if outcome is Ok {
        let n = old(s).echoes@.len() as int;
        assert(after[n] == final(s).echoes@[n]@);
    }
    assert(old(queue)@.drop_first() =~= old(queue)@.subrange(1, old(queue)@.len() as int));
}

// ---------------------------------------------------------------- periodic frames

/// A transmission counts for its own frame; the last one of those that were asked for is told, and
/// one without an end has no last.
pub proof fn law_transmissions_count_for_their_frame(
    jobs: &mut Table<Periodic>,
    handle: u64,
    r: Option<PeriodicSent>,
    other: u64,
)
    requires
        old(jobs).wf(),
        crate::can::schedule::jobs_wf(old(jobs).rows()),
        call_ensures(count_sent, (jobs, handle), r),
        other != handle,
    ensures
        r is Some <==> old(jobs).map().contains_key(handle),
        old(jobs).map().contains_key(other) && r is Some ==> final(jobs).map()[other]
            == old(jobs).map()[other],
        r is Some ==> {
            let before = old(jobs).map()[handle];
            let after = final(jobs).map()[handle];
            &&& before.sent < u64::MAX ==> r->0.sent == before.sent + 1 && after.sent == before.sent
                + 1
            &&& before.remaining > 0 ==> after.remaining == before.remaining - 1
            &&& before.remaining <= 0 ==> after.remaining == before.remaining
            &&& r->0.done <==> before.remaining == 1
            &&& after.period == before.period && after.next == before.next
        },
{
}

/// A job that is over is gone, and the user is told which; a transmission counts for its own job.
pub proof fn law_finished_jobs_are_gone(
    c: &mut Controller,
    handle: u64,
    told: Evt,
    d: &mut Controller,
    also: Evt,
    s: &mut Controller,
    r: Option<(u64, bool)>,
    other: u64,
)
    requires
        old(c).wf(),
        call_ensures(Controller::periodic_done, (c, handle), told),
        old(d).wf(),
        call_ensures(Controller::dynamic_done, (d, handle), also),
        old(s).wf(),
        call_ensures(Controller::periodic_sent, (s, handle), r),
        other != handle,
    ensures
        told == Evt::PeriodicDone(handle) && also == Evt::PeriodicDone(handle),
        !final(c).periodics.map().contains_key(handle),
        !final(d).dynamics.map().contains_key(handle),
        final(c).periodics.map().contains_key(other) == old(c).periodics.map().contains_key(other),
        final(d).dynamics.map().contains_key(other) == old(d).dynamics.map().contains_key(other),
        final(c).dynamics == old(c).dynamics && final(d).periodics == old(d).periodics,
        r is Some <==> old(s).periodics.map().contains_key(handle),
        r is Some ==> ((r->0).1 <==> old(s).periodics.map()[handle].remaining == 1),
        r is Some && old(s).periodics.map()[handle].sent < u64::MAX ==> (r->0).0 == old(
            s
        ).periodics.map()[handle].sent + 1,
        final(s).links == old(s).links && final(s).pending == old(s).pending && final(s).dynamics
            == old(s).dynamics,
{
}

/// The first channel is connected under the number one, and a failure leaves the links as they were.
pub proof fn law_the_first_channel_is_one(
    c: &mut Controller,
    outcome: Result<String, String>,
    r: Vec<Effect>,
)
    requires
        old(c).wf(),
        call_ensures(Controller::first_opened, (c, outcome), r),
    ensures
        outcome matches Ok(name) ==> final(c).links@.len() == 1 && final(c).links@[0].channel == 1
            && final(c).links@[0].name@ == name@,
        outcome is Err ==> final(c).links == old(c).links,
        final(c).running == old(c).running && final(c).pending == old(c).pending,
        r@.len() == 2,
{
    let v = crate::can::controller::links_view(final(c).links@);
    assert(v.len() == final(c).links@.len());
    if outcome is Ok {
        assert(v[0] == (final(c).links@[0].channel, final(c).links@[0].name@));
    }
    assert(crate::can::controller::effects_view(r@).len() == r@.len());
}

/// A handle that is stopped stands for nothing any more, and the others are kept.
pub proof fn law_stopped_handles_are_free(
    periodics: &mut Table<Periodic>,
    dynamics: &mut Table<DynamicPeriodic>,
    handle: u64,
    other: u64,
)
    requires
        old(periodics).wf(),
        old(dynamics).wf(),
        call_ensures(stop_periodic_jobs, (periodics, dynamics, handle), ()),
        other != handle,
    ensures
        !final(periodics).map().contains_key(handle),
        !final(dynamics).map().contains_key(handle),
        final(periodics).map().contains_key(other) == old(periodics).map().contains_key(other),
        final(dynamics).map().contains_key(other) == old(dynamics).map().contains_key(other),
        old(periodics).map().contains_key(other) ==> final(periodics).map()[other]
            == old(periodics).map()[other],
{
}

proof fn lemma_first_due(s: SimPeriodic, from: int, now: u64)
    requires
        0 <= from <= s.generators@.len(),
    ensures
        ({
            let i = first_due(s.generators@, from, now);
            &&& from <= i <= s.generators@.len()
            &&& i < s.generators@.len() ==> now >= s.generators@[i].next
            &&& forall|j: int| from <= j < i ==> now < (#[trigger] s.generators@[j]).next
        }),
    decreases s.generators@.len() - from,
{
    if from < s.generators@.len() && now < s.generators@[from].next {
        lemma_first_due(s, from + 1, now);
    }
}

/// A simulated signal is updated when its time has come, none that is due is passed over, and it is
/// due again after its period, ten milliseconds at least. Its value is that of its tick, which then
/// counts on.
pub proof fn law_signals_are_updated_when_due(
    s: &mut SimPeriodic,
    from: usize,
    now: u64,
    r: SimStep,
    j: int,
)
    requires
        from <= old(s).generators@.len(),
        call_ensures(SimPeriodic::next_signal, (s, from, now), r),
        from <= j < old(s).generators@.len(),
    ensures
        r is Done ==> now < old(s).generators@[j].next && *final(s) == *old(s),
        ({
            let told = match r {
                SimStep::FirstByte { index, tick } => Some((index as int, tick)),
                SimStep::Encode { index, tick } => Some((index as int, tick)),
                _ => None,
            };
            told matches Some((index, tick)) ==> {
                let before = old(s).generators@[index];
                let after = final(s).generators@[index];
                let period = if before.config.period_ms < 10 {
                    10_000_000int
                } else {
                    before.config.period_ms * 1_000_000
                };
                &&& from <= index < old(s).generators@.len()
                &&& now >= before.next
                &&& j < index ==> now < old(s).generators@[j].next
                &&& tick == before.tick
                &&& before.tick < u64::MAX ==> after.tick == before.tick + 1
                &&& after.next == before.next + period || before.next + period <= now && after.next
                    == now + period
                &&& after.next > now
                &&& j != index ==> final(s).generators@[j] == old(s).generators@[j]
                &&& r is FirstByte <==> before.config.signal@.len() == 0
            }
        }),
        final(s).frame == old(s).frame,
{
    lemma_first_due(*old(s), from as int, now);
}

/// A simulated frame goes out with the payload that its signals made.
pub proof fn law_simulated_frames_take_their_values(
    s: &mut SimPeriodic,
    value: u8,
    p: &mut SimPeriodic,
    data: Vec<u8>,
    d: &mut SimPeriodic,
    t: i64,
    r: CanFrame,
)
    requires
        call_ensures(SimPeriodic::set_first_byte, (s, value), ()),
        call_ensures(SimPeriodic::set_payload, (p, data), ()),
        call_ensures(SimPeriodic::due_frame, (d, t), r),
    ensures
        final(s).frame.data@.len() == old(s).frame.data@.len(),
        old(s).frame.data@.len() > 0 ==> final(s).frame.data@[0] == value,
        forall|i: int|
            1 <= i < old(s).frame.data@.len() ==> final(s).frame.data@[i] == old(s).frame.data@[i],
        final(s).frame.id == old(s).frame.id,
        final(p).frame.data@ == data@,
        final(p).frame.id == old(p).frame.id,
        r.t == t && r.tx,
        r.id == old(d).frame.id && r.ch == old(d).frame.ch && r.data@ == old(d).frame.data@,
        final(d).frame == old(d).frame,
{
    assert(final(s).frame@.data == final(s).frame.data@);
    assert(final(p).frame@.data == final(p).frame.data@);
}

/// A failure to encode is told once until a frame goes out again.
pub proof fn law_encoding_faults_are_told_once(
    s: &mut SimPeriodic,
    error: &str,
    r: Option<String>,
    again: &mut SimPeriodic,
    second: Option<String>,
    sent: &mut SimPeriodic,
    t: i64,
    f: CanFrame,
)
    requires
        call_ensures(SimPeriodic::encoding_failed, (s, error), r),
        *old(again) == *final(s),
        call_ensures(SimPeriodic::encoding_failed, (again, error), second),
        call_ensures(SimPeriodic::due_frame, (sent, t), f),
    ensures
        !old(s).failed ==> r is Some,
        second is None,
        !final(sent).failed,
{
}

// ---------------------------------------------------------------- faults and losses

/// A connection is given up after three losses in a row, each within two seconds of the one before;
/// polls without a loss do not count.
pub proof fn law_three_losses_confirm(
    streaks: &mut Table<(u8, u64)>,
    channel: u8,
    lost: bool,
    now: u64,
    r: bool,
    other: u64,
)
    requires
        old(streaks).wf(),
        call_ensures(connection_loss_confirmed, (streaks, channel, lost, now), r),
        other != channel,
    ensures
        !lost ==> !r,
        r ==> old(streaks).map().contains_key(channel as u64) && old(streaks).map()[channel as u64].0
            >= 2,
        lost && !old(streaks).map().contains_key(channel as u64) ==> final(streaks).map()[channel as u64]
            == (1u8, now),
        lost && old(streaks).map().contains_key(channel as u64) ==> {
            let (n, at) = old(streaks).map()[channel as u64];
            &&& now <= at + 2_000_000_000 ==> (r <==> n >= 2)
            &&& now > at + 2_000_000_000 ==> !r && final(streaks).map()[channel as u64] == (1u8, now)
        },
        lost ==> final(streaks).map().contains_key(other) == old(streaks).map().contains_key(other),
        lost && old(streaks).map().contains_key(other) ==> final(streaks).map()[other]
            == old(streaks).map()[other],
{
}

/// A message that was just written is not written again within a second; another one is.
pub proof fn law_errors_are_written_once_a_second(
    recent: &mut RecentErrors,
    channel: u8,
    message: &str,
    now: u64,
    r: bool,
    again: &mut RecentErrors,
    soon: u64,
    second: bool,
    other: &mut RecentErrors,
    words: &str,
    third: bool,
)
    requires
        old(recent).wf(),
        call_ensures(should_log_send_error, (recent, channel, message, now), r),
        r,
        *old(again) == *final(recent),
        *old(other) == *final(recent),
        call_ensures(should_log_send_error, (again, channel, message, soon), second),
        call_ensures(should_log_send_error, (other, channel, words, soon), third),
        now <= soon,
        words@ != message@,
    ensures
        soon < now + 1_000_000_000 ==> !second,
        soon >= now + 1_000_000_000 ==> second,
        third,
{
}

/// A poll adds its losses to those of the controller and changes nothing else of it but what it
/// remembers of its messages; only a loss that is watched can end the connection.
pub proof fn law_polls_add_their_losses(
    c: &mut Controller,
    channel: u8,
    report: PollReport,
    watch: bool,
    now: u64,
    r: (Option<String>, Option<String>),
)
    requires
        old(c).wf(),
        call_ensures(Controller::polled, (c, channel, report, watch, now), r),
        old(c).hardware_overruns + report.receive_overruns <= u64::MAX,
        old(c).hardware_errors + report.driver_errors <= u64::MAX,
    ensures
        final(c).hardware_overruns == old(c).hardware_overruns + report.receive_overruns,
        final(c).hardware_errors == old(c).hardware_errors + report.driver_errors,
        final(c).links == old(c).links && final(c).running == old(c).running,
        final(c).periodics == old(c).periodics && final(c).pending == old(c).pending,
        report.message is None ==> r.0 is None && final(c).adapter_errors == old(c).adapter_errors,
        !watch || !report.connection_lost ==> r.1 is None,
        watch && report.connection_lost && old(c).loss_streaks.map().contains_key(channel as u64)
            && now <= old(c).loss_streaks.map()[channel as u64].1 + 2_000_000_000 ==> (r.1 is Some
            <==> old(c).loss_streaks.map()[channel as u64].0 >= 2),
        watch && report.connection_lost && !old(c).loss_streaks.map().contains_key(channel as u64)
            ==> r.1 is None,
{
}

/// A connection that is lost ends everything that ran over it; what was counted of faults is kept.
pub proof fn law_lost_connections_end_everything(
    c: &mut Controller,
    channel: u8,
    reason: String,
    r: Vec<Effect>,
)
    requires
        old(c).wf(),
        call_ensures(Controller::lost, (c, channel, reason), r),
    ensures
        final(c).links@.len() == 0,
        !final(c).running,
        final(c).pending@.len() == 0,
        forall|h: u64|
            !(#[trigger] final(c).periodics.map().contains_key(h)),
        forall|h: u64| !(#[trigger] final(c).dynamics.map().contains_key(h)),
        final(c).hardware_overruns == old(c).hardware_overruns,
        final(c).hardware_errors == old(c).hardware_errors,
        r@.len() == 5,
        r@[0] is CloseAdapters,
        r@[1] is ClearDevices,
{
    let v = crate::can::controller::effects_view(r@);
    assert(v.len() == r@.len());
    assert(v[0] == r@[0]@ && v[1] == r@[1]@);
}

/// The health is reported a quarter of a second after the last report, and not before.
pub proof fn law_health_reports_keep_their_distance(c: &mut Controller, now: u64, r: bool)
    requires
        old(c).wf(),
        call_ensures(Controller::health_report_due, (c, now), r),
    ensures
        r <==> now >= old(c).last_health_report + 250_000_000,
        r ==> final(c).last_health_report == now,
        !r ==> *final(c) == *old(c),
{
}

proof fn lemma_failures(list: Seq<OpenedChannel>, i: int)
    requires
        0 <= i < list.len(),
        list[i].outcome is Err,
    ensures
        crate::can::adapters::open_failures(list).len() > 0,
    decreases list.len(),
{
    if i < list.len() - 1 {
        assert(list.drop_last()[i] == list[i]);
        lemma_failures(list.drop_last(), i);
    }
}

/// Channels are connected all together or not at all, each under its own number.
pub proof fn law_channels_are_connected_together(
    c: &mut Controller,
    list: Vec<OpenedChannel>,
    r: (Vec<Evt>, bool),
    i: int,
)
    requires
        old(c).wf(),
        old(c).links@.len() == 0,
        call_ensures(Controller::channels_opened, (c, list), r),
        0 <= i < list@.len(),
    ensures
        list@[i].outcome is Err ==> !r.1,
        !r.1 ==> final(c).links@.len() == 0,
        r.1 ==> final(c).links@.len() == list@.len() && final(c).links@[i].channel == list@[i].channel
            && final(c).links@[i].name@ == (list@[i].outcome->Ok_0)@,
{
    let v = crate::can::controller::links_view(final(c).links@);
    assert(v.len() == final(c).links@.len());
    if r.1 {
        assert(v[i] == (final(c).links@[i].channel, final(c).links@[i].name@));
    }
    if list@[i].outcome is Err {
        lemma_failures(list@, i);
    }
}

/// The reports of several queries are one: faults add up, one loss is a loss, and the last message
/// is told.
pub proof fn law_reports_add_up(
    target: &mut PollReport,
    source: PollReport,
    failed: &mut PollReport,
    message: &str,
)
    requires
        call_ensures(merge_poll_report, (target, source), ()),
        call_ensures(add_driver_failure, (failed, message), ()),
        old(target).receive_overruns + source.receive_overruns <= u64::MAX,
        old(target).driver_errors + source.driver_errors <= u64::MAX,
        old(failed).driver_errors < u64::MAX,
    ensures
        final(target).receive_overruns == old(target).receive_overruns + source.receive_overruns,
        final(target).driver_errors == old(target).driver_errors + source.driver_errors,
        final(target).connection_lost <==> old(target).connection_lost || source.connection_lost,
        source.message is Some ==> final(target).message == source.message,
        source.message is None ==> final(target).message == old(target).message,
        final(failed).driver_errors == old(failed).driver_errors + 1,
        final(failed).connection_lost == old(failed).connection_lost,
        final(failed).message is Some && final(failed).message->0@ == message@,
{
}

// ---------------------------------------------------------------- device clocks

/// Two messages of a device are as far apart as its counter says, also where it began again between
/// them; the first message of all is set to the time of the machine.
pub proof fn law_clocks_count_on(
    c: &mut HardwareTimebase,
    raw: u64,
    host: i64,
    first: i64,
    d: &mut HardwareTimebase,
    later: u64,
    host_later: i64,
    second: i64,
)
    requires
        call_ensures(HardwareTimebase::map, (c, raw, host), first),
        *old(d) == *final(c),
        call_ensures(HardwareTimebase::map, (d, later, host_later), second),
        old(c).wrap_offset < 0x1000_0000_0000_0000,
        raw < 0x1000_0000_0000_0000,
        later < 0x1000_0000_0000_0000,
        old(c).wrap_modulus matches Some(m) ==> m < 0x1000_0000_0000_0000,
        old(c).anchor_raw matches Some(anchor) ==> anchor <= old(c).wrap_offset + raw,
        second < i64::MAX,
    ensures
        old(c).anchor_raw is None ==> first == host,
        first < i64::MAX && later >= raw ==> second - first == (later - raw) * old(c).tick_nanos,
        first < i64::MAX && later < raw && (old(c).wrap_modulus matches Some(m) && raw - later > m / 2
            && later + m >= raw) ==> second - first == (later + old(c).wrap_modulus->0 - raw)
            * old(c).tick_nanos,
        final(c).tick_nanos == old(c).tick_nanos && final(c).wrap_modulus == old(c).wrap_modulus,
{
    let tick = old(c).tick_nanos as int;
    let a = old(c).extended(raw);
    let b = old(d).extended(later);
    let anchor = old(d).anchor_raw->0;
    assert((b - anchor) * tick - (a - anchor) * tick == (b - a) * tick) by (nonlinear_arith);
    assert((0int) * tick == 0) by (nonlinear_arith);
    assert(b >= anchor ==> (b - anchor) * tick >= 0) by (nonlinear_arith)
        requires
            tick >= 0,
    ;
}

// ---------------------------------------------------------------- watching adapters

/// A channel is looked at four times a second at most, its device once a second.
pub proof fn law_adapters_are_looked_at(b: &mut VciBus, now: u64, r: VciStep)
    requires
        call_ensures(VciBus::begin_health, (b, now), r),
        old(b).last_health_check is Some,
    ensures
        now < old(b).last_health_check->0 + 250_000_000 ==> (r matches VciStep::Done(report)
            && report.driver_errors == 0 && !report.connection_lost) && final(b).last_health_check
            == old(b).last_health_check,
        now >= old(b).last_health_check->0 + 250_000_000 ==> !(r is Done) && final(b).last_health_check
            == Some(now),
        r is LookUpDevice ==> old(b).prefix@.len() == 0 && (old(b).last_physical_check matches Some(t)
            ==> now >= t + 1_000_000_000),
        r is ReadDoubtfulStatus ==> old(b).consecutive_send_failures >= 10,
        r is CheckPresence ==> old(b).consecutive_send_failures < 10,
{
}

/// A channel that is off the bus, or passive after ten failures in a row to send, is restarted with
/// its own settings, once a second at most.
pub proof fn law_channels_off_the_bus_are_restarted(
    b: &mut VciBus,
    now: u64,
    s: VCI_CAN_STATUS,
    r: VciStep,
)
    requires
        call_ensures(VciBus::after_status, (b, now, Ok(Some(s))), r),
    ensures
        r is Recover <==> (s.reg_status >= 0x80 || s.reg_te_counter == 255 || (s.reg_re_counter >= 128
            || s.reg_te_counter >= 128) && old(b).consecutive_send_failures >= 10) && (
        old(b).last_busoff_recovery matches Some(t) ==> now >= t + 1_000_000_000),
        r is Recover ==> final(b).last_busoff_recovery == Some(now),
        r matches VciStep::Recover { settings, status } ==> settings.timing0 == old(b).timing0
            && settings.timing1 == old(b).timing1 && (settings.mode == 1 <==> old(b).listen_only)
            && status == s,
        s.reg_te_counter < 128 && s.reg_re_counter < 128 && s.reg_status < 0x40 && s.reg_ew_limit == 0
            ==> (r matches VciStep::Done(report) && report.driver_errors == 0),
{
    let st = s.reg_status;
    assert((st & 0x80 != 0 <==> st >= 0x80) && (st < 0x40 ==> st & 0x40 == 0)) by (bit_vector);
}

/// Failures to send are counted in a row: one that succeeds ends the row.
pub proof fn law_send_failures_are_counted(
    b: &mut VciBus,
    sent: u32,
    status: Option<VCI_CAN_STATUS>,
    r: Result<(), String>,
)
    requires
        call_ensures(VciBus::transmitted, (b, sent, status), r),
        old(b).consecutive_send_failures < 255,
    ensures
        r is Ok <==> sent == 1,
        r is Ok ==> final(b).consecutive_send_failures == 0,
        r is Err ==> final(b).consecutive_send_failures == old(b).consecutive_send_failures + 1,
{
}

/// A fast channel is looked at five times a second at most, or at once where that is asked for.
pub proof fn law_fast_adapters_are_looked_at(b: &mut ZcanFdBus, force: bool, now: u64, r: ZcanStep)
    requires
        call_ensures(ZcanFdBus::begin_health, (b, force, now), r),
    ensures
        r is QueryOnline <==> force || (old(b).last_health_check matches Some(t) ==> now >= t
            + 200_000_000),
        r is QueryOnline ==> final(b).last_health_check == Some(now),
        !(r is QueryOnline) ==> final(b).last_health_check == old(b).last_health_check,
{
}

/// An error code that comes again is no new error; without one there is nothing to report. A channel
/// off the bus is restarted once a second at most.
pub proof fn law_errors_are_reported_when_new(
    b: &mut ZcanFdBus,
    now: u64,
    t: i64,
    code: u32,
    status: Option<ZcanChannelStatus>,
    r: ZcanStep,
)
    requires
        call_ensures(ZcanFdBus::after_errors, (b, now, t, code, status), r),
    ensures
        final(b).last_error_code == code,
        code == 0 ==> (r matches ZcanStep::Done(report) && report.driver_errors == 0
            && !report.connection_lost && report.message is None),
        code != 0 ==> ({
            let report = match r {
                ZcanStep::Done(report) => Some(report),
                ZcanStep::Recover(report) => Some(report),
                _ => None,
            };
            &&& report is Some
            &&& report->0.driver_errors == 1 <==> code != old(b).last_error_code
            &&& report->0.message is Some
            &&& report->0.connection_lost <==> code / 0x200 % 2 == 1 || code / 0x400 % 2 == 1 || code
                / 0x1000 % 2 == 1 || code / 0x2000 % 2 == 1
            &&& report->0.receive_overruns == 1 <==> code % 2 == 1 || code / 0x40 % 2 == 1 || code
                / 0x800 % 2 == 1
        }),
        r is Recover ==> final(b).last_busoff_recovery == Some(now),
        r is Recover <==> code / 0x20 % 2 == 1 && (old(b).last_busoff_recovery matches Some(then)
            ==> now >= then + 1_000_000_000),
{
    assert((code & 0x20 != 0 <==> code / 0x20 % 2 == 1) && (code & (0x200u32 | 0x400u32 | 0x1000u32
        | 0x2000u32) != 0 <==> code / 0x200 % 2 == 1 || code / 0x400 % 2 == 1 || code / 0x1000 % 2 == 1
        || code / 0x2000 % 2 == 1) && (code & (0x1u32 | 0x40u32 | 0x800u32) != 0 <==> code % 2 == 1
        || code / 0x40 % 2 == 1 || code / 0x800 % 2 == 1)) by (bit_vector);
}

/// Watching a channel does not change what it is: its number, its timing, its mode and its name.
pub proof fn law_adapters_keep_their_settings(
    a: &mut VciBus,
    b: &mut VciBus,
    c: &mut VciBus,
    d: &mut VciBus,
    now: u64,
    first: VciStep,
    status: Result<Option<VCI_CAN_STATUS>, String>,
    second: VciStep,
    s: VCI_CAN_STATUS,
    recovery: Result<(), String>,
    report: PollReport,
    sent: u32,
    q: Option<VCI_CAN_STATUS>,
    r: Result<(), String>,
    z: &mut ZcanFdBus,
    force: bool,
    step: ZcanStep,
)
    requires
        call_ensures(VciBus::begin_health, (a, now), first),
        call_ensures(VciBus::after_status, (b, now, status), second),
        call_ensures(VciBus::after_recovery, (c, s, recovery), report),
        call_ensures(VciBus::transmitted, (d, sent, q), r),
        call_ensures(ZcanFdBus::begin_health, (z, force, now), step),
    ensures
        final(a).channel_index == old(a).channel_index && final(a).timing0 == old(a).timing0 && final(
            a
        ).timing1 == old(a).timing1 && final(a).listen_only == old(a).listen_only && final(a).name
            == old(a).name && final(a).device_index == old(a).device_index,
        final(b).channel_index == old(b).channel_index && final(b).timing0 == old(b).timing0 && final(
            b
        ).timing1 == old(b).timing1 && final(b).listen_only == old(b).listen_only,
        final(c).channel_index == old(c).channel_index && final(c).timing0 == old(c).timing0,
        final(d).channel_index == old(d).channel_index && final(d).timing0 == old(d).timing0,
        recovery is Ok ==> final(c).consecutive_send_failures == 0 && !report.connection_lost,
        recovery is Err ==> report.connection_lost && final(c).consecutive_send_failures == old(
            c
        ).consecutive_send_failures,
        final(z).channel_is_fd == old(z).channel_is_fd && final(z).listen_only == old(z).listen_only
            && final(z).timestamp == old(z).timestamp && final(z).pending_error_frames == old(
            z
        ).pending_error_frames,
{
}

/// Frames about errors are handed over once, on the first channel.
pub proof fn law_error_frames_are_handed_over_once(
    b: &mut ZcanFdBus,
    out: &mut Vec<CanFrame>,
    i: int,
)
    requires
        call_ensures(ZcanFdBus::take_error_frames, (b, out), ()),
        0 <= i < old(b).pending_error_frames@.len(),
    ensures
        final(b).pending_error_frames@.len() == 0,
        final(out)@.len() == old(out)@.len() + old(b).pending_error_frames@.len(),
        final(out)@[old(out)@.len() + i].ch == 1,
        final(out)@[old(out)@.len() + i].id == old(b).pending_error_frames@[i].id,
        final(out)@[old(out)@.len() + i].data@ == old(b).pending_error_frames@[i].data@,
{
    let before = crate::can::frames_view(old(out)@);
    let after = crate::can::frames_view(final(out)@);
    let held = crate::can::frames_view(old(b).pending_error_frames@);
    assert(before.len() == old(out)@.len() && after.len() == final(out)@.len() && held.len()
        == old(b).pending_error_frames@.len());
    let k = old(out)@.len() + i;
    assert(after[k] == final(out)@[k]@);
    assert(held[i] == old(b).pending_error_frames@[i]@);
}

// ---------------------------------------------------------------- firmware updates

/// An update begins at its first step where there is a connection, and not at all where there is
/// none; an earlier wish to cancel is forgotten.
pub proof fn law_updates_begin_at_their_first_step(
    job: OtaJob,
    connected: bool,
    cancel: &mut OtaCancel,
    r: (OtaReport, Option<OtaRun>),
)
    requires
        call_ensures(OtaRun::begin, (job, connected, cancel), r),
    ensures
        r.1 is Some <==> connected,
        connected ==> !final(cancel).requested && r.1->0.idx == 0 && r.1->0.attempt == 0 && r.1->0.job
            == job,
        r.0.done == 0 && r.0.total == job.steps@.len(),
{
}

/// A step that was acknowledged is followed by the next; one that was not is tried again as often as
/// the job or the step allows, and then the update is given up.
pub proof fn law_steps_are_tried_again(run: &mut OtaRun, acknowledged: bool, r: OtaAfterAck)
    requires
        old(run).wf(),
        old(run).idx < old(run).job.steps@.len(),
        call_ensures(OtaRun::after_ack, (run, acknowledged), r),
    ensures
        acknowledged <==> r is Advanced,
        r is Advanced ==> final(run).idx == old(run).idx + 1 && final(run).attempt == 0,
        r matches OtaAfterAck::Advanced(report) ==> report.done == final(run).idx,
        !acknowledged ==> final(run).idx == old(run).idx,
        r is Retry ==> final(run).attempt == old(run).attempt + 1,
        r is Retry <==> !acknowledged && (old(run).attempt < old(run).job.retries || old(run).attempt
            < old(run).job.steps@[old(run).idx as int].retries),
        final(run).job == old(run).job,
{
}

} // verus!
