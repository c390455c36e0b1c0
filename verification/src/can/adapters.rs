//! Which adapter a configuration means, and working with the connected ones.
use crate::can::queue::{
    emit_outcome, emitted, EventSender, PlaybackEventSend, PlaybackFrameEmit,
};
use crate::can::send_queue::{
    frames_left, lemma_frames_left_first, queue_wf, stamped, PendingSendJob,
};
use crate::can::send_queue::{SendSlice, SliceStep, SEND_FRAMES_PER_SLICE};
use crate::can::zcan::{profile_of, zcan_profile};
use crate::can::{
    events_view, frames_view, CanAdapter, CanFrame, DeviceConfig, Evt, EvtView, FrameView,
};
use crate::ends::Offer;
use crate::text;
use std::collections::VecDeque;
use vstd::prelude::*;

verus! {

/// The driver that a device needs.
#[derive(Clone, Copy, Debug, PartialEq, Eq, Structural)]
pub enum AdapterKind {
    Pcan,
    /// The VCI driver of GCAN adapters.
    Gcan,
    /// The VCI driver of ZHCX adapters.
    Zhcx,
    Zlg,
}

/// The driver that a device type needs.
pub open spec fn kind_of(device_type: Seq<char>) -> Result<AdapterKind, Seq<char>> {
    let device = text::upper(text::trim(device_type));
    if device == "VIRTUAL"@ || device == "SIM"@ {
        Err("不支持的设备类型: 虚拟总线已移除"@)
    } else if device == "PCAN"@ {
        Ok(AdapterKind::Pcan)
    } else if device == "GCAN"@ {
        Ok(AdapterKind::Gcan)
    } else if device == "ZHCX"@ || device == "ZHCXCAN"@ {
        Ok(AdapterKind::Zhcx)
    } else if profile_of(device_type) is Some {
        Ok(AdapterKind::Zlg)
    } else {
        Err("未知设备类型: "@ + device_type)
    }
}

/// The driver that a configured device needs.
pub fn open_adapter(cfg: &DeviceConfig) -> (r: Result<AdapterKind, String>)
    ensures
        match r {
            Ok(kind) => kind_of(cfg.device_type@) == Ok::<AdapterKind, Seq<char>>(kind),
            Err(m) => kind_of(cfg.device_type@) == Err::<AdapterKind, Seq<char>>(m@),
        },
{
    let trimmed = text::trimmed(cfg.device_type.as_str());
    let device = text::to_upper(trimmed.as_str());
    let d = device.as_str();
    if text::same_text(d, "VIRTUAL") || text::same_text(d, "SIM") {
        Err("不支持的设备类型: 虚拟总线已移除".to_owned())
    } else if text::same_text(d, "PCAN") {
        Ok(AdapterKind::Pcan)
    } else if text::same_text(d, "GCAN") {
        Ok(AdapterKind::Gcan)
    } else if text::same_text(d, "ZHCX") || text::same_text(d, "ZHCXCAN") {
        Ok(AdapterKind::Zhcx)
    } else if zcan_profile(cfg.device_type.as_str()).is_some() {
        Ok(AdapterKind::Zlg)
    } else {
        let mut message = "未知设备类型: ".to_owned();
        message.push_str(cfg.device_type.as_str());
        Err(message)
    }
}

// ---------------------------------------------------------------- sending

/// The channel numbers of the connected adapters.
pub open spec fn channel_numbers<A>(adapters: Seq<(u8, A)>) -> Seq<u8> {
    adapters.map_values(|p: (u8, A)| p.0)
}

/// The message for a channel that is not connected.
pub open spec fn not_connected_text(channel: u8) -> Seq<char> {
    "CAN 通道 "@ + text::decimal(channel as nat) + " 未连接"@
}

/// The message for a channel that is not connected.
pub fn not_connected(channel: u8) -> (r: String)
    ensures
        r@ == not_connected_text(channel),
{
    let mut message = "CAN 通道 ".to_owned();
    text::push_decimal(&mut message, channel as u64);
    message.push_str(" 未连接");
    message
}

/// The place of the first adapter of a channel.
pub open spec fn place_of<A>(adapters: Seq<(u8, A)>, channel: u8) -> Option<int>
    decreases adapters.len(),
{
    if adapters.len() == 0 {
        None
    } else {
        match place_of(adapters.drop_last(), channel) {
            Some(i) => Some(i),
            None => if adapters.last().0 == channel {
                Some(adapters.len() - 1)
            } else {
                None
            },
        }
    }
}

/// What sending a frame does: the first adapter of its channel is handed the frame once and left as
/// that transmission leaves it, no other adapter is touched, and the answer comes back with the
/// channel.
pub open spec fn sends_on<A: CanAdapter>(
    before: Seq<(u8, A)>,
    f: CanFrame,
    after: Seq<(u8, A)>,
    r: Result<u8, String>,
) -> bool {
    match place_of(before, f.ch) {
        None => after == before && (r matches Err(m) && m@ == not_connected_text(f.ch)),
        Some(i) => after.len() == before.len() && after == before.update(i, (f.ch, after[i].1))
            && exists|answer: Result<(), String>| #[trigger]
            A::transmitted(&before[i].1, &f, answer, &after[i].1) && r == match answer {
                Ok(()) => Ok::<u8, String>(f.ch),
                Err(error) => Err(error),
            },
    }
}

proof fn lemma_place<A>(adapters: Seq<(u8, A)>, channel: u8)
    ensures
        match place_of(adapters, channel) {
            None => !channel_numbers(adapters).contains(channel),
            Some(i) => 0 <= i < adapters.len() && adapters[i].0 == channel && channel_numbers(
                adapters,
            ).contains(channel),
        },
    decreases adapters.len(),
{
    if adapters.len() > 0 {
        let rest = adapters.drop_last();
        let numbers = channel_numbers(adapters);
        lemma_place(rest, channel);
        match place_of(rest, channel) {
            Some(i) => {
                assert(numbers[i] == channel);
            },
            None => {
                if adapters.last().0 == channel {
                    assert(numbers[adapters.len() - 1] == channel);
                } else if numbers.contains(channel) {
                    let j = choose|j: int| 0 <= j < numbers.len() && numbers[j] == channel;
                    assert(channel_numbers(rest)[j] == channel);
                    assert(false);
                }
            },
        }
    }
}

proof fn lemma_first_place<A>(adapters: Seq<(u8, A)>, channel: u8, i: int)
    requires
        0 <= i < adapters.len(),
        adapters[i].0 == channel,
        forall|j: int| 0 <= j < i ==> adapters[j].0 != channel,
    ensures
        place_of(adapters, channel) == Some(i),
    decreases adapters.len(),
{
    let rest = adapters.drop_last();
    if i < adapters.len() - 1 {
        lemma_first_place(rest, channel, i);
    } else {
        lemma_place(rest, channel);
        if let Some(j) = place_of(rest, channel) {
            assert(adapters[j].0 == channel);
        }
    }
}

/// Sending keeps the channels, and touches no adapter of another channel.
pub proof fn law_sending_touches_one_channel<A: CanAdapter>(
    before: Seq<(u8, A)>,
    f: CanFrame,
    after: Seq<(u8, A)>,
    r: Result<u8, String>,
)
    requires
        sends_on(before, f, after, r),
    ensures
        channel_numbers(after) == channel_numbers(before),
        forall|i: int|
            0 <= i < before.len() && before[i].0 != f.ch ==> #[trigger] after[i] == before[i],
        r matches Ok(channel) ==> channel == f.ch && channel_numbers(before).contains(f.ch),
        !channel_numbers(before).contains(f.ch) ==> after == before && r is Err,
{
    lemma_place(before, f.ch);
    assert(channel_numbers(after) =~= channel_numbers(before));
}

/// Where each transmission adds its frame to what an adapter has put on the bus, sending adds the
/// frame once, on the first adapter of its channel, and nothing on any other.
pub proof fn law_frames_reach_the_bus_once<A: CanAdapter>(
    before: Seq<(u8, A)>,
    f: CanFrame,
    after: Seq<(u8, A)>,
    r: Result<u8, String>,
    on_bus: spec_fn(A) -> Seq<FrameView>,
)
    requires
        sends_on(before, f, after, r),
        forall|a: A, b: A, answer: Result<(), String>| #[trigger]
            A::transmitted(&a, &f, answer, &b) ==> on_bus(b) == on_bus(a).push(f@),
    ensures
        after.len() == before.len(),
        forall|i: int|
            0 <= i < before.len() ==> on_bus((#[trigger] after[i]).1) == if place_of(before, f.ch)
                == Some(i) {
                on_bus(before[i].1).push(f@)
            } else {
                on_bus(before[i].1)
            },
{
    lemma_place(before, f.ch);
}

/// Sends a frame on the first adapter of its channel; no other adapter is touched. Whether the
/// adapter takes the frame is up to the adapter.
pub fn send_on<A: CanAdapter>(adapters: &mut Vec<(u8, A)>, f: &CanFrame) -> (r: Result<u8, String>)
    ensures
        sends_on(old(adapters)@, *f, final(adapters)@, r),
{
    let ghost before = adapters@;
    let mut i: usize = 0;
    while i < adapters.len()
        invariant
            i <= adapters@.len(),
            adapters@ == before,
            forall|j: int| 0 <= j < i ==> before[j].0 != f.ch,
            before == old(adapters)@,
        decreases adapters@.len() - i,
    {
        if adapters[i].0 == f.ch {
            let channel: u8 = adapters[i].0;
            let adapter = &mut adapters[i].1;
            let answer = adapter.send(f);
            proof {
                lemma_first_place(before, f.ch, i as int);
                assert(A::transmitted(
                    &before[i as int].1,
                    f,
                    answer,
                    &adapters@[i as int].1,
                ));
                assert(adapters@ =~= before.update(i as int, (f.ch, adapters@[i as int].1)));
            }
            return match answer {
                Ok(()) => Ok(channel),
                Err(error) => Err(error),
            };
        }
        i += 1;
    }
    proof {
        lemma_place(before, f.ch);
        if let Some(j) = place_of(before, f.ch) {
            assert(before[j].0 == f.ch);
        }
    }
    Err(not_connected(f.ch))
}

/// Whether one message was handed to the event queue, and a lost one counted.
pub open spec fn logged(before: &EventSender, line: Seq<char>, after: &EventSender) -> bool {
    exists|message: String, fate: Offer<Evt>|
        message@ == line && after.record() == #[trigger] before.record_with(
            Evt::Log(message),
            None,
            fate,
        ) && if fate is Accepted {
            after.went_through(before)
        } else {
            after.lost_event(before)
        }
}

/// Whether a frame was handed to the event queue as a replayed one, once, with this outcome. A full
/// queue counts as a loss online only.
pub open spec fn replayed(
    before: &EventSender,
    frame: FrameView,
    online: bool,
    after: &EventSender,
    r: PlaybackFrameEmit,
) -> bool {
    exists|f: CanFrame, fate: PlaybackEventSend|
        f@ == frame && #[trigger] after.played(before, Evt::PlaybackFrame(f), fate) && r == emitted(
            online,
            fate,
        ) && match fate {
            PlaybackEventSend::Enqueued => after.went_through(before),
            PlaybackEventSend::Full => if online {
                after.lost_event(before)
            } else {
                after.uncounted(before)
            },
            PlaybackEventSend::Disconnected => after.lost_event(before),
        }
}

/// Replays one frame: online it goes to the bus first, and nothing is shown of a frame that the
/// bus did not take.
pub fn emit_playback_frame<A: CanAdapter>(
    adapters: &mut Vec<(u8, A)>,
    events: &mut EventSender,
    frame: CanFrame,
    online: bool,
) -> (r: PlaybackFrameEmit)
    ensures
        !online ==> final(adapters)@ == old(adapters)@ && replayed(
            old(events),
            frame@,
            false,
            final(events),
            r,
        ),
        online ==> exists|sent: Result<u8, String>| #[trigger]
            sends_on(old(adapters)@, frame, final(adapters)@, sent) && match sent {
                Ok(channel) => replayed(
                    old(events),
                    FrameView { ch: channel, tx: true, ..frame@ },
                    true,
                    final(events),
                    r,
                ),
                Err(error) => r is Failed && logged(
                    old(events),
                    "在线回放发送失败: "@ + error@,
                    final(events),
                ),
            },
{
    let mut shown = frame.clone();
    if online {
        match send_on(adapters, &frame) {
            Ok(channel) => {
                shown.ch = channel;
                shown.tx = true;
            },
            Err(error) => {
                let mut message = "在线回放发送失败: ".to_owned();
                message.push_str(error.as_str());
                let _ = events.send(Evt::Log(message));
                return PlaybackFrameEmit::Failed;
            },
        }
    }
    let fate = events.try_send_playback_frame(shown);
    if online && matches!(fate, PlaybackEventSend::Full) {
        events.dropped_events = events.dropped_events.wrapping_add(1);
    }
    assert(events.played(old(events), Evt::PlaybackFrame(shown), fate));
    emit_outcome(online, fate)
}

/// How far one slice of sending has come: the jobs that wait, the adapters, the frames that were
/// tried, those that went out, and the message on the one that failed.
pub struct Sending<A> {
    pub queue: Seq<PendingSendJob>,
    pub adapters: Seq<(u8, A)>,
    pub attempts: int,
    pub echoes: Seq<FrameView>,
    pub fault: Option<Seq<char>>,
}

impl<A: CanAdapter> Sending<A> {
    /// Whether the slice may go on, as far as its time allows.
    pub open spec fn goes_on(self) -> bool {
        self.fault is None && self.attempts < SEND_FRAMES_PER_SLICE && self.queue.len() > 0
    }

    /// A job without frames leaves the queue.
    pub open spec fn skips(self, after: Sending<A>) -> bool {
        &&& self.queue[0].queued().len() == 0
        &&& after == (Sending {
            queue: self.queue.drop_first(),
            attempts: self.attempts + 1,
            ..self
        })
    }

    /// The first frame of the first job, stamped with a time, is sent with this outcome. A frame
    /// that went out is echoed on the channel that it used, and a job leaves the queue with its
    /// last frame; a failure removes the job.
    pub open spec fn transmits(
        self,
        frame: CanFrame,
        t: i64,
        outcome: Result<u8, String>,
        after: Sending<A>,
    ) -> bool {
        let frames = self.queue[0].queued();
        &&& frames.len() > 0
        &&& frame@ == stamped(frames[0], t)
        &&& sends_on(self.adapters, frame, after.adapters, outcome)
        &&& after.attempts == self.attempts + 1
        &&& match outcome {
            Ok(channel) => {
                &&& after.fault is None
                &&& after.echoes == self.echoes.push(FrameView { ch: channel, ..frame@ })
                &&& if frames.len() == 1 {
                    after.queue == self.queue.drop_first()
                } else {
                    &&& after.queue.len() == self.queue.len()
                    &&& after.queue[0].queued() == frames.drop_first()
                    &&& after.queue.drop_first() == self.queue.drop_first()
                }
            },
            Err(error) => {
                &&& after.fault == Some("发送任务已停止: "@ + error@)
                &&& after.echoes == self.echoes
                &&& after.queue == self.queue.drop_first()
            },
        }
    }

    /// One step of a slice. The clock said that there is time, and gave the time of sending.
    pub open spec fn steps<F: Fn() -> (bool, i64)>(self, clock: F, after: Sending<A>) -> bool {
        &&& self.goes_on()
        &&& exists|t: i64| #[trigger]
            call_ensures(clock, (), (false, t)) && (self.skips(after) || exists|
                frame: CanFrame,
                outcome: Result<u8, String>,
            | #[trigger]
                self.transmits(frame, t, outcome, after))
    }

    /// `n` steps of a slice.
    pub open spec fn reaches<F: Fn() -> (bool, i64)>(
        self,
        clock: F,
        after: Sending<A>,
        n: nat,
    ) -> bool
        decreases n,
    {
        if n == 0 {
            after == self
        } else {
            exists|before: Sending<A>|
                self.reaches(clock, before, (n - 1) as nat) && #[trigger] before.steps(clock, after)
        }
    }

    /// Whether a slice is over: it may not go on, or the clock said that its time is up.
    pub open spec fn is_over<F: Fn() -> (bool, i64)>(self, clock: F) -> bool {
        ||| !self.goes_on()
        ||| self.adapters.len() == 0
        ||| exists|t: i64| #[trigger] call_ensures(clock, (), (true, t))
    }

    /// What is shown of a slice: the message on the frame that failed, then one batch of those that
    /// went out.
    pub open spec fn shows(self, before: &EventSender, mid: EventSender, after: &EventSender) -> bool {
        &&& match self.fault {
            Some(line) => logged(before, line, &mid),
            None => mid == *before,
        }
        &&& if self.echoes.len() > 0 {
            exists|batch: Vec<CanFrame>, fate: Offer<Evt>|
                frames_view(batch@) == self.echoes && after.record()
                    == #[trigger] mid.record_with(Evt::Frames(batch), None, fate) && if fate is Accepted {
                    after.went_through(&mid)
                } else {
                    after.lost_event(&mid)
                }
        } else {
            *after == mid
        }
    }
}

/// Sends frames of the queue for one slice: at most as many as a slice allows, until the clock says
/// that its time is up, the queue is empty or a frame fails, which removes its job. The clock tells
/// whether the time is up and the time of sending. Frames that went out are shown as one batch. The
/// result tells how many went out and whether one failed.
pub fn process_pending_sends<A: CanAdapter, F: Fn() -> (bool, i64)>(
    queue: &mut VecDeque<PendingSendJob>,
    adapters: &mut Vec<(u8, A)>,
    events: &mut EventSender,
    clock: F,
) -> (r: (usize, bool))
    requires
        queue_wf(old(queue)@),
        call_requires(clock, ()),
    ensures
        queue_wf(final(queue)@),
        old(adapters)@.len() == 0 || old(queue)@.len() == 0 ==> final(queue)@ == old(queue)@ && r == (
            0usize,
            false,
        ) && final(adapters)@ == old(adapters)@ && *final(events) == *old(events),
        exists|end: Sending<A>, n: nat, mid: EventSender|
            {
                &&& #[trigger] (Sending {
                    queue: old(queue)@,
                    adapters: old(adapters)@,
                    attempts: 0,
                    echoes: Seq::<FrameView>::empty(),
                    fault: None,
                }).reaches(clock, end, n)
                &&& end.is_over(clock)
                &&& #[trigger] end.shows(old(events), mid, final(events))
                &&& final(queue)@ == end.queue
                &&& final(adapters)@ == end.adapters
                &&& r.0 == end.echoes.len()
                &&& r.1 == (end.fault is Some)
            },
        r.0 <= SEND_FRAMES_PER_SLICE,
        !r.1 ==> frames_left(final(queue)@) + r.0 == frames_left(old(queue)@),
        r.1 ==> frames_left(final(queue)@) + r.0 < frames_left(old(queue)@),
{
    let connected: bool = adapters.len() > 0;
    let mut slice = SendSlice::new();
    let mut going: bool = queue.len() > 0 && connected;
    let ghost start = Sending {
        queue: queue@,
        adapters: adapters@,
        attempts: 0,
        echoes: Seq::<FrameView>::empty(),
        fault: None,
    };
    let ghost mut state = start;
    let ghost mut n: nat = 0;
    assert(frames_view(slice.echoes@) =~= start.echoes);
    while going
        invariant
            queue_wf(queue@),
            call_requires(clock, ()),
            connected == (old(adapters)@.len() > 0),
            adapters@.len() == old(adapters)@.len(),
            old(adapters)@.len() == 0 || old(queue)@.len() == 0 ==> !going && queue@ == old(queue)@
                && adapters@ == old(adapters)@ && slice.echoes@.len() == 0 && !slice.stopped,
            slice.echoes@.len() <= slice.attempts <= SEND_FRAMES_PER_SLICE,
            !slice.stopped ==> frames_left(queue@) + slice.echoes@.len() == frames_left(
                old(queue)@,
            ),
            slice.stopped ==> !going && frames_left(queue@) + slice.echoes@.len() < frames_left(
                old(queue)@,
            ),
            start == (Sending {
                queue: old(queue)@,
                adapters: old(adapters)@,
                attempts: 0,
                echoes: Seq::<FrameView>::empty(),
                fault: None,
            }),
            start.reaches(clock, state, n),
            state.queue == queue@,
            state.adapters == adapters@,
            state.attempts == slice.attempts,
            state.echoes == frames_view(slice.echoes@),
            state.fault is Some <==> slice.stopped,
            state.fault matches Some(line) ==> logged(old(events), line, events),
            state.fault is None ==> *events == *old(events),
            !going ==> state.is_over(clock),
        decreases SEND_FRAMES_PER_SLICE - slice.attempts, (if going { 1int } else { 0int }),
    {
        let now: (bool, i64) = clock();
        let ghost before = queue@;
        let ghost from = state;
        proof {
            assert(call_ensures(clock, (), (now.0, now.1)));
            if before.len() > 0 {
                lemma_frames_left_first(before);
            }
        }
        let step = slice.begin(queue, connected, now.0, now.1);
        match step {
            SliceStep::Done => {
                going = false;
            },
            SliceStep::Skipped => {
                proof {
                    state = Sending { queue: queue@, attempts: slice.attempts as int, ..from };
                    assert(from.skips(state));
                    assert(from.steps(clock, state));
                    n = n + 1;
                }
            },
            SliceStep::Transmit(frame) => {
                let ghost mid = queue@;
                proof {
                    lemma_frames_left_first(mid);
                    assert(frames_left(mid) + 1 == frames_left(before));
                }
                let ghost sent = frame;
                let outcome = send_on(adapters, &frame);
                let failed: bool = outcome.is_err();
                let ghost told = outcome;
                let message = slice.finish(queue, frame, outcome);
                proof {
                    state = Sending {
                        queue: queue@,
                        adapters: adapters@,
                        attempts: slice.attempts as int,
                        echoes: frames_view(slice.echoes@),
                        fault: match told {
                            Ok(_) => None,
                            Err(error) => Some("发送任务已停止: "@ + error@),
                        },
                    };
                    assert(frames_view(slice.echoes@).len() == slice.echoes@.len());
                    if told is Err {
                        assert(queue@ == before.drop_first());
                    } else if before[0].queued().len() == 1 {
                        assert(queue@ == before.drop_first());
                    }
                    assert(from.transmits(sent, now.1, told, state));
                    assert(from.steps(clock, state));
                    n = n + 1;
                }
                if let Some(message) = message {
                    let _ = events.send(Evt::Log(message));
                }
                if failed {
                    going = false;
                }
            },
        }
    }
    let sent: usize = slice.echoes.len();
    let failed: bool = slice.stopped;
    let ghost mid = *events;
    let ghost batch = slice.echoes;
    if sent > 0 {
        let _ = events.send(Evt::Frames(slice.echoes));
        assert(frames_view(batch@) == state.echoes);
    }
    assert(state.shows(old(events), mid, events));
    (sent, failed)
}

// ---------------------------------------------------------------- connecting

/// What came of opening one channel: the name of the adapter, or why it failed.
#[derive(Debug)]
pub struct OpenedChannel {
    pub channel: u8,
    pub outcome: Result<String, String>,
}

/// The channel number of a configuration; zero stands for one.
pub open spec fn channel_number(sw_channel: u8) -> u8 {
    if sw_channel == 0 {
        1
    } else {
        sw_channel
    }
}

/// The channel number of a configuration.
pub fn effective_channel(sw_channel: u8) -> (r: u8)
    ensures
        r == channel_number(sw_channel),
{
    if sw_channel == 0 {
        1
    } else {
        sw_channel
    }
}

/// `CAN`, a channel number and a text.
pub open spec fn can_then(channel: u8, rest: Seq<char>) -> Seq<char> {
    "CAN"@ + text::decimal(channel as nat) + rest
}

fn can_line(channel: u8, middle: &str, end: &str) -> (r: String)
    ensures
        r@ == can_then(channel, middle@ + end@),
{
    let mut out = "CAN".to_owned();
    text::push_decimal(&mut out, channel as u64);
    out.push_str(middle);
    out.push_str(end);
    assert(out@ =~= can_then(channel, middle@ + end@));
    out
}

/// The message on one opened channel.
pub open spec fn opened_line(o: OpenedChannel) -> Seq<char> {
    match o.outcome {
        Ok(name) => can_then(o.channel, " 已连接: "@ + name@),
        Err(error) => can_then(o.channel, " 连接失败: "@ + error@),
    }
}

/// The names of the channels that opened.
pub open spec fn opened_names(list: Seq<OpenedChannel>) -> Seq<Seq<char>>
    decreases list.len(),
{
    if list.len() == 0 {
        seq![]
    } else {
        let before = opened_names(list.drop_last());
        match list.last().outcome {
            Ok(name) => before.push(can_then(list.last().channel, ":"@ + name@)),
            Err(_) => before,
        }
    }
}

/// The failures of the channels that did not open.
pub open spec fn open_failures(list: Seq<OpenedChannel>) -> Seq<Seq<char>>
    decreases list.len(),
{
    if list.len() == 0 {
        seq![]
    } else {
        let before = open_failures(list.drop_last());
        match list.last().outcome {
            Ok(_) => before,
            Err(error) => before.push(can_then(list.last().channel, ": "@ + error@)),
        }
    }
}

/// The events after all channels were tried: one message each, and the outcome. One failure rolls
/// everything back.
pub open spec fn connection_events(list: Seq<OpenedChannel>) -> Seq<EvtView> {
    let lines = list.map_values(|o: OpenedChannel| EvtView::Log(opened_line(o)));
    let failures = text::joined(open_failures(list), "；"@);
    if open_failures(list).len() > 0 {
        lines + seq![
            EvtView::Log("多通道连接已回滚，所有通道均保持断开: "@ + failures),
            EvtView::Connected { channels: seq![], name: seq![], error: Some(failures) },
        ]
    } else if list.len() == 0 {
        lines + seq![
            EvtView::Connected {
                channels: seq![],
                name: seq![],
                error: Some("没有可连接的 CAN 通道"@),
            },
        ]
    } else {
        lines + seq![
            EvtView::Connected {
                channels: list.map_values(|o: OpenedChannel| o.channel),
                name: text::joined(opened_names(list), "  "@),
                error: None,
            },
        ]
    }
}

/// Evaluates the opening of a set of channels: the events to show, and whether the channels stay
/// connected. They do only where every one of them opened.
pub fn connection_outcome(list: &[OpenedChannel]) -> (r: (Vec<Evt>, bool))
    ensures
        events_view(r.0@) == connection_events(list@),
        r.1 == (open_failures(list@).len() == 0 && list@.len() > 0),
{
    let mut events: Vec<Evt> = Vec::new();
    let mut names: Vec<String> = Vec::new();
    let mut failures: Vec<String> = Vec::new();
    let mut channels: Vec<u8> = Vec::new();
    let ghost line = |o: OpenedChannel| EvtView::Log(opened_line(o));
    let ghost number = |o: OpenedChannel| o.channel;
    let mut i: usize = 0;
    assert(list@.take(0) =~= Seq::<OpenedChannel>::empty());
    assert(events_view(events@) =~= list@.take(0).map_values(line));
    assert(text::texts(names@) =~= opened_names(list@.take(0)));
    assert(text::texts(failures@) =~= open_failures(list@.take(0)));
    assert(channels@ =~= list@.take(0).map_values(number));
    while i < list.len()
        invariant
            i <= list.len(),
            line == (|o: OpenedChannel| EvtView::Log(opened_line(o))),
            number == (|o: OpenedChannel| o.channel),
            events_view(events@) == list@.take(i as int).map_values(line),
            text::texts(names@) == opened_names(list@.take(i as int)),
            text::texts(failures@) == open_failures(list@.take(i as int)),
            channels@ == list@.take(i as int).map_values(number),
        decreases list.len() - i,
    {
        let ghost row = list@.take(i + 1);
        let ghost e0 = events@;
        let ghost n0 = names@;
        let ghost f0 = failures@;
        proof {
            assert(row.drop_last() =~= list@.take(i as int));
            assert(row.last() == list@[i as int]);
        }
        let channel: u8 = list[i].channel;
        match &list[i].outcome {
            Ok(name) => {
                events.push(Evt::Log(can_line(channel, " 已连接: ", name.as_str())));
                names.push(can_line(channel, ":", name.as_str()));
                assert(text::texts(names@) =~= text::texts(n0).push(names@.last()@));
            },
            Err(error) => {
                events.push(Evt::Log(can_line(channel, " 连接失败: ", error.as_str())));
                failures.push(can_line(channel, ": ", error.as_str()));
                assert(text::texts(failures@) =~= text::texts(f0).push(failures@.last()@));
            },
        }
        channels.push(channel);
        proof {
            assert(events_view(events@) =~= events_view(e0).push(line(list@[i as int])));
            assert(row.map_values(line) =~= list@.take(i as int).map_values(line).push(
                line(list@[i as int]),
            ));
            assert(row.map_values(number) =~= list@.take(i as int).map_values(number).push(
                list@[i as int].channel,
            ));
        }
        i += 1;
    }
    assert(list@.take(i as int) =~= list@);
    let ghost lines = events_view(events@);
    let ghost e1 = events@;
    assert(failures@.len() == open_failures(list@).len());
    if failures.len() > 0 {
        let joined = text::join(failures.as_slice(), "；");
        let mut message = "多通道连接已回滚，所有通道均保持断开: ".to_owned();
        message.push_str(joined.as_str());
        events.push(Evt::Log(message));
        events.push(
            Evt::Connected { channels: Vec::new(), name: String::new(), error: Some(joined) },
        );
        assert(events_view(events@) =~= connection_events(list@)) by {
            assert(Seq::<u8>::empty() =~= seq![]);
            assert(events@[events@.len() - 1]@->Connected_channels =~= seq![]);
            assert(events@[events@.len() - 1]@->Connected_name =~= seq![]);
        }
        (events, false)
    } else if list.len() == 0 {
        events.push(
            Evt::Connected {
                channels: Vec::new(),
                name: String::new(),
                error: Some("没有可连接的 CAN 通道".to_owned()),
            },
        );
        assert(events_view(events@) =~= connection_events(list@)) by {
            assert(events@[events@.len() - 1]@->Connected_channels =~= seq![]);
            assert(events@[events@.len() - 1]@->Connected_name =~= seq![]);
        }
        (events, false)
    } else {
        let name = text::join(names.as_slice(), "  ");
        events.push(Evt::Connected { channels, name, error: None });
        assert(events_view(events@) =~= connection_events(list@));
        (events, true)
    }
}

/// Channels are connected all together or not at all.
pub proof fn law_connecting_is_all_or_nothing(list: Seq<OpenedChannel>)
    ensures
        open_failures(list).len() == 0 <==> forall|i: int|
            0 <= i < list.len() ==> (#[trigger] list[i]).outcome is Ok,
    decreases list.len(),
{
    if list.len() > 0 {
        law_connecting_is_all_or_nothing(list.drop_last());
        if open_failures(list).len() == 0 {
            assert forall|i: int| 0 <= i < list.len() implies (#[trigger] list[i]).outcome is Ok by {
                if i < list.len() - 1 {
                    assert(list.drop_last()[i] == list[i]);
                }
            }
        }
        if forall|i: int| 0 <= i < list.len() ==> (#[trigger] list[i]).outcome is Ok {
            assert(list[list.len() - 1].outcome is Ok);
            assert forall|i: int| 0 <= i < list.drop_last().len() implies (
            #[trigger] list.drop_last()[i]).outcome is Ok by {
                assert(list[i].outcome is Ok);
            }
        }
    }
}

} // verus!
