//! Laws on connections: what commands do to them, how they are watched, and firmware updates.
use crate::can::adapters::place_of;
use crate::can::controller::{
    effects_view, CAPTURE_BATCH, COMMANDS_PER_SLICE, Controller, Effect, HEALTH_REPORT_INTERVAL,
};
use crate::can::ota::{
    acknowledges, frames_to_ack, ota_ack_matches_on_channel, scan_for_ack, OtaCancel, OtaNext,
    OtaRun,
};
use crate::can::playback::playback_online_mode;
use crate::can::queue::{choose_next, emitted, leaves_reserve, NextCommand, PlaybackEventSend};
use crate::can::supervision::{next_streak, worth_logging};
use crate::can::vci::is_due;
use crate::can::{CanAdapter, CanFrame, Cmd, DeviceConfig, Evt, OtaAck, OtaResponseId};
use crate::ends::Taken;
use vstd::prelude::*;

verus! {

// ---------------------------------------------------------------- commands

/// A set of channels that breaks no rule is opened as it was given, after the adapters were let go
/// and everything that ran was ended; the answers to the commands before are forgotten.
pub proof fn law_accepted_channels_are_opened(
    before: Controller,
    after: Controller,
    cfgs: Vec<DeviceConfig>,
    now: u64,
    t: i64,
    effects: Seq<Effect>,
)
    requires
        after.obeys(&before, Cmd::ConnectChannels(cfgs), now, t, effects_view(effects)),
        crate::can::zcan::set_fault(crate::can::configs_view(cfgs@)) is None,
    ensures
        after.links@.len() == 0,
        !after.running,
        after.pending@.len() == 0,
        after.hardware_overruns == 0 && after.hardware_errors == 0,
        after.periodics.map().dom().is_empty(),
        after.dynamics.map().dom().is_empty(),
        effects.len() == 4,
        effects[1] is CloseAdapters,
        effects[3] matches Effect::Open(list) && list@.len() == cfgs@.len() && forall|i: int|
            0 <= i < cfgs@.len() ==> (#[trigger] list@[i]).device_type@ == cfgs@[i].device_type@
                && list@[i].sw_channel == cfgs@[i].sw_channel && list@[i].device_index
                == cfgs@[i].device_index && list@[i].channel_index == cfgs@[i].channel_index
                && list@[i].baud@ == cfgs@[i].baud@ && list@[i].data_baud@ == cfgs@[i].data_baud@
                && list@[i].is_fd == cfgs@[i].is_fd && list@[i].listen_only == cfgs@[i].listen_only
                && list@[i].termination == cfgs@[i].termination,
{
    let fx = effects_view(effects);
    assert(fx.len() == effects.len());
    assert(fx[1] == effects[1]@ && fx[3] == effects[3]@);
    if let Effect::Open(list) = effects[3] {
        let a = crate::can::configs_view(list@);
        let b = crate::can::configs_view(cfgs@);
        assert(a == b);
        assert(a.len() == list@.len() && b.len() == cfgs@.len());
        assert forall|i: int| 0 <= i < cfgs@.len() implies (#[trigger] list@[i])@ == cfgs@[i]@ by {
            assert(a[i] == list@[i]@ && b[i] == cfgs@[i]@);
        }
    }
}

/// Receiving starts where something is connected, and only there; stopping keeps the connection and
/// the periodic frames and drops what waits to be sent.
pub proof fn law_receiving_starts_and_stops(
    before: Controller,
    started: Controller,
    stopped: Controller,
    now: u64,
    t: i64,
    fx1: Seq<Effect>,
    fx2: Seq<Effect>,
)
    requires
        started.obeys(&before, Cmd::Start, now, t, effects_view(fx1)),
        stopped.obeys(&before, Cmd::Stop, now, t, effects_view(fx2)),
    ensures
        before.links@.len() > 0 ==> started.running && fx1.len() == 2 && fx1[0] == Effect::Event(
            Evt::Running(true),
        ),
        before.links@.len() == 0 ==> started.running == before.running && fx1.len() == 1 && (fx1[0]
            matches Effect::Event(e) && e is Log),
        started.links == before.links && started.pending == before.pending && started.periodics
            == before.periodics,
        !stopped.running,
        stopped.links == before.links,
        stopped.periodics == before.periodics,
        stopped.pending@.len() == 0,
        fx2.len() == (if before.pending@.len() > 0 { 3nat } else { 2 }),
        fx2[fx2.len() - 2] == Effect::Event(Evt::Running(false)),
{
    assert(effects_view(fx1).len() == fx1.len());
    assert(effects_view(fx2).len() == fx2.len());
    assert(effects_view(fx1)[0] == fx1[0]@);
    assert(effects_view(fx2)[fx2.len() - 2] == fx2[fx2.len() - 2]@);
}

/// Disconnecting lets every adapter go and ends everything that ran; a shutdown lets the devices go
/// too, tells of it and ends the controller. Recordings stay.
pub proof fn law_connections_end(
    before: Controller,
    after: Controller,
    over: Controller,
    now: u64,
    t: i64,
    fx1: Seq<Effect>,
    fx2: Seq<Effect>,
)
    requires
        after.obeys(&before, Cmd::Disconnect, now, t, effects_view(fx1)),
        over.obeys(&before, Cmd::Shutdown, now, t, effects_view(fx2)),
    ensures
        after.links@.len() == 0 && over.links@.len() == 0,
        !after.running && !over.running,
        after.pending@.len() == 0 && over.pending@.len() == 0,
        after.periodics.map().dom().is_empty() && over.periodics.map().dom().is_empty(),
        after.dynamics.map().dom().is_empty() && over.dynamics.map().dom().is_empty(),
        over.sims@.len() == 0,
        after.playback == before.playback,
        fx1.len() >= 1 && fx1[0] is CloseAdapters,
        fx2.len() == 4 && fx2[0] is CloseAdapters && fx2[1] is ClearDevices && fx2[3] is Exit,
        fx2[2] matches Effect::Critical(e, _) && e is ShutdownFinished,
{
    assert(effects_view(fx1).len() == fx1.len());
    assert(effects_view(fx2).len() == fx2.len());
    assert(effects_view(fx1)[0] == fx1[0]@);
    assert(effects_view(fx2)[0] == fx2[0]@);
    assert(effects_view(fx2)[1] == fx2[1]@);
    assert(effects_view(fx2)[2] == fx2[2]@);
    assert(effects_view(fx2)[3] == fx2[3]@);
}

/// A frame goes out on the adapter of its channel, the first one with that number.
pub proof fn law_frames_go_to_their_channel<A: CanAdapter>(adapters: Seq<(u8, A)>, channel: u8)
    ensures
        place_of(adapters, channel) matches Some(i) ==> 0 <= i < adapters.len() && adapters[i].0
            == channel && forall|j: int| 0 <= j < i ==> (#[trigger] adapters[j]).0 != channel,
        place_of(adapters, channel) is None ==> forall|j: int|
            0 <= j < adapters.len() ==> (#[trigger] adapters[j]).0 != channel,
    decreases adapters.len(),
{
    if adapters.len() > 0 {
        let rest = adapters.drop_last();
        law_frames_go_to_their_channel(rest, channel);
        assert forall|j: int| 0 <= j < rest.len() implies (#[trigger] adapters[j]) == rest[j] by {}
    }
}

/// A replay goes to the bus only where that was asked for and something is connected.
pub proof fn law_replays_need_a_connection(requested: bool, connected: bool, r: bool)
    requires
        call_ensures(playback_online_mode, (requested, connected), r),
    ensures
        r ==> requested && connected,
        requested && connected ==> r,
{
}

// ---------------------------------------------------------------- queues and intervals

/// Announced shutdowns come before every command, else the command that waits longest, else nothing;
/// without anybody to send commands the controller ends.
pub proof fn law_shutdowns_come_first(shutdown: bool, taken: Taken<Cmd>, r: NextCommand)
    requires
        call_ensures(choose_next, (shutdown, taken), r),
    ensures
        shutdown <==> r is Shutdown,
        !shutdown ==> match taken {
            Taken::Item(c) => r matches NextCommand::Run(d) && d == c,
            Taken::Empty => r is Idle,
            Taken::Disconnected => r is End,
        },
{
}

/// Of the 1024 places of the event queue frames leave the last 64 to other events.
pub proof fn law_frames_leave_places(depth: usize, r: bool)
    requires
        call_ensures(leaves_reserve, (depth,), r),
    ensures
        r == (depth + 64 < 1024),
{
}

/// A replayed frame that went to the bus counts as replayed, even where it could not be shown; one
/// that is only shown waits for room.
pub proof fn law_replayed_frames_count(online: bool, fate: PlaybackEventSend)
    ensures
        fate is Enqueued ==> emitted(online, fate) is Emitted,
        fate is Disconnected ==> emitted(online, fate) is Failed,
        fate is Full && online ==> emitted(online, fate) is Emitted,
        fate is Full && !online ==> emitted(online, fate) is Backpressure,
{
}

/// The health of a capture is reported four times a second.
pub proof fn law_health_is_reported(last: u64, now: u64)
    ensures
        is_due(Some(last), now, HEALTH_REPORT_INTERVAL) == (now >= last + 250_000_000),
        COMMANDS_PER_SLICE == 64,
        CAPTURE_BATCH == 128,
{
}

// ---------------------------------------------------------------- watching

/// A message is written when it is new or another one, and again once a second went by.
pub proof fn law_messages_are_not_repeated(
    recent: Map<u64, (String, u64)>,
    channel: u8,
    message: Seq<char>,
    now: u64,
)
    ensures
        !recent.dom().contains(channel as u64) ==> worth_logging(recent, channel, message, now),
        recent.dom().contains(channel as u64) && recent[channel as u64].0@ != message
            ==> worth_logging(recent, channel, message, now),
        recent.dom().contains(channel as u64) && recent[channel as u64].0@ == message
            ==> worth_logging(recent, channel, message, now) == (now >= (recent[channel as u64]).1
            + 1_000_000_000),
{
}

/// Reports of a lost connection count on while no more than two seconds lie between them, and from
/// one again after that.
pub proof fn law_losses_are_counted_in_a_row(n: u8, at: u64, now: u64)
    requires
        now >= at,
    ensures
        next_streak(None, now) == (1u8, now),
        now - at <= 2_000_000_000 && n < 255 ==> next_streak(Some((n, at)), now) == (
            (n + 1) as u8,
            now,
        ),
        now - at > 2_000_000_000 ==> next_streak(Some((n, at)), now) == (1u8, now),
{
}

// ---------------------------------------------------------------- firmware updates

/// Whether an answer comes under an identifier that is waited for: a certain one, or one of the 256
/// that begin at a round number.
pub open spec fn answers_from(response: OtaResponseId, id: u32) -> bool {
    match response {
        OtaResponseId::Exact(expected) => id == expected,
        OtaResponseId::WildcardBase(base) => base % 256 == 0 && base <= id < base + 256,
    }
}

/// A step of a firmware update waits for its own answer on its own channel: a flow control, a
/// positive answer to its service, which is 64 more than the service, or a short answer under its
/// identifier.
pub proof fn law_updates_wait_for_their_answer(
    ack: OtaAck,
    expected: u8,
    actual: u8,
    f: CanFrame,
    r: bool,
)
    requires
        call_ensures(ota_ack_matches_on_channel, (ack, expected, actual, &f), r),
    ensures
        actual != expected ==> !r,
        actual == expected ==> match ack {
            OtaAck::Unneeded => r,
            OtaAck::UdsFlowControl => r == (f.data@.len() >= 1 && f.data@[0] == 0x30),
            OtaAck::UdsPositive { service } => r == (f.data@.len() >= 2 && f.data@[1] == if service
                < 192 {
                service + 64
            } else {
                service - 192
            }),
            OtaAck::XcpAck { response } => r == (f.data@.len() == 1 && f.data@[0] == 255
                && answers_from(response, f.id)),
            OtaAck::XcpConnect { response } => r == (f.data@.len() >= 8 && f.data@[0] == 255
                && f.data@[1] == 16 && f.data@[4] == 8 && f.data@[5] == 0 && f.data@[6] == 1
                && f.data@[7] == 1 && answers_from(response, f.id)),
        },
{
    if f.data@.len() == 1 && f.data@[0] == 255 {
        assert(f.data@ =~= seq![255u8]);
    }
}

/// An answer under an exact identifier, or under one that differs in its lowest byte only, is taken.
pub proof fn law_answers_are_taken(id: u32, base: u32, f: CanFrame)
    requires
        f.data@ == seq![255u8],
    ensures
        f.id == id ==> acknowledges(OtaAck::XcpAck { response: OtaResponseId::Exact(id) }, f@),
        base as int % 256 == 0 && base <= f.id < base + 256 ==> acknowledges(
            OtaAck::XcpAck { response: OtaResponseId::WildcardBase(base) },
            f@,
        ),
{
}

proof fn lemma_to_ack(ack: OtaAck, frames: Seq<crate::can::FrameView>)
    ensures
        0 <= frames_to_ack(ack, frames) <= frames.len(),
        forall|i: int|
            0 <= i < frames_to_ack(ack, frames) - 1 ==> !acknowledges(ack, #[trigger] frames[i]),
        frames_to_ack(ack, frames) < frames.len() ==> frames_to_ack(ack, frames) >= 1 && acknowledges(
            ack,
            frames[frames_to_ack(ack, frames) - 1],
        ),
    decreases frames.len(),
{
    if frames.len() > 0 && !acknowledges(ack, frames[0]) {
        let rest = frames.drop_first();
        lemma_to_ack(ack, rest);
        let n = frames_to_ack(ack, frames);
        assert forall|i: int| 0 <= i < n - 1 implies !acknowledges(ack, #[trigger] frames[i]) by {
            if i > 0 {
                assert(rest[i - 1] == frames[i]);
            }
        }
        if n < frames.len() {
            assert(rest[n - 2] == frames[n - 1]);
        }
    }
}

/// While an update waits, frames are shown up to the answer and no further; none of those before it
/// is an answer.
pub proof fn law_frames_are_shown_up_to_the_answer(
    ack: OtaAck,
    channel: u8,
    frames: &[CanFrame],
    r: (Vec<CanFrame>, bool),
    i: int,
)
    requires
        call_ensures(scan_for_ack, (ack, channel, channel, frames), r),
        0 <= i < r.0@.len(),
    ensures
        r.0@.len() <= frames@.len(),
        (r.0@[i]).id == frames@[i].id && (r.0@[i]).data@ == frames@[i].data@ && (r.0@[i]).ch == channel,
        i < r.0@.len() - 1 ==> !acknowledges(ack, (r.0@[i])@),
        !r.1 ==> r.0@.len() == frames@.len(),
        r.1 ==> acknowledges(ack, (r.0@[r.0@.len() - 1])@),
{
    let received = crate::can::frames_view(frames@).map_values(
        |f: crate::can::FrameView| crate::can::FrameView { ch: channel, ..f },
    );
    lemma_to_ack(ack, received);
    let n = frames_to_ack(ack, received);
    let shown = crate::can::frames_view(r.0@);
    assert(shown.len() == r.0@.len());
    assert(shown[i] == (r.0@[i])@);
    assert(shown[i] == received[i]);
    assert(crate::can::frames_view(frames@)[i] == frames@[i]@);
    let last = r.0@.len() - 1;
    assert(shown[last] == (r.0@[last])@);
    assert(shown[last] == received[last]);
    if r.1 {
        let k = choose|k: int| 0 <= k < received.len() && acknowledges(ack, #[trigger] received[k]);
        if n == received.len() && !acknowledges(ack, received[n - 1]) {
            assert(k < n - 1);
        }
    } else if n < received.len() {
        assert(acknowledges(ack, received[n - 1]));
    }
}

/// An update sends the frame of its step, waits for its answer on its channel, for at least as long
/// as the step and the job ask for, and is finished after its last step or when it is cancelled.
pub proof fn law_updates_go_step_by_step(run: OtaRun, cancel: OtaCancel, t: i64, r: OtaNext)
    requires
        run.wf(),
        call_ensures(OtaRun::next, (&run, cancel, t), r),
    ensures
        run.idx == run.job.steps@.len() ==> r is Finished,
        run.idx < run.job.steps@.len() && cancel.requested ==> r is Finished,
        run.idx < run.job.steps@.len() && !cancel.requested ==> ({
            let step = run.job.steps@[run.idx as int];
            r matches OtaNext::Transmit { frame, ack, channel, timeout_ms } && frame.id == step.frame.id
                && frame.data@ == step.frame.data@ && frame.ext == step.frame.ext && frame.ch
                == step.frame.ch && frame.t == t && ack == step.ack && channel == step.frame.ch
                && timeout_ms >= 1 && timeout_ms >= step.timeout_ms && timeout_ms
                >= run.job.timeout_ms && (timeout_ms == 1 || timeout_ms == step.timeout_ms
                || timeout_ms == run.job.timeout_ms)
        }),
        run.idx < run.job.steps@.len() ==> run.retries() >= run.job.retries && run.retries()
            >= run.job.steps@[run.idx as int].retries,
{
}

} // verus!
