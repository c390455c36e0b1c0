//! The two bounded queues between the user interface and the controller.
use crate::can::{CanFrame, Cmd, Evt, TimestampHealth};
use crate::ends::{
    depth_of, hand_shared, hand_shared_within, held, made, make_channel, offered, offered_within,
    Handed, Inbox, Offer, Outbox, Taken,
};
use crossbeam_channel::{Receiver, Sender};
use std::sync::atomic::{AtomicBool, AtomicU64, AtomicUsize, Ordering};
use std::sync::Arc;
use vstd::prelude::*;

verus! {

/// Events that may wait.
pub const EVENT_QUEUE_CAPACITY: usize = 1024;

/// Places of the event queue that captured frames leave to control events.
pub const EVENT_QUEUE_CONTROL_RESERVE: usize = 64;

/// Commands that may wait.
pub const COMMAND_QUEUE_CAPACITY: usize = 512;

/// `n + 1` in 64 bits.
pub open spec fn counted(n: u64) -> u64 {
    ((n + 1) % 0x1_0000_0000_0000_0000) as u64
}

// ---------------------------------------------------------------- commands

/// Counters of the command queue, shared by everybody who sends commands.
#[derive(Debug)]
pub struct CommandHealth {
    pub rejected: Arc<AtomicU64>,
    pub high_watermark: Arc<AtomicUsize>,
    pub shutdown_requested: Arc<AtomicBool>,
}

/// Whether the counters were made at zero, with no shutdown announced.
pub closed spec fn begun(health: CommandHealth) -> bool {
    &&& call_ensures(AtomicU64::new, (0u64,), *health.rejected)
    &&& call_ensures(AtomicUsize::new, (0usize,), *health.high_watermark)
    &&& call_ensures(AtomicBool::new, (false,), *health.shutdown_requested)
}

impl Default for CommandHealth {
    fn default() -> (r: CommandHealth)
        ensures
            begun(r),
    {
        CommandHealth {
            rejected: Arc::new(AtomicU64::new(0)),
            high_watermark: Arc::new(AtomicUsize::new(0)),
            shutdown_requested: Arc::new(AtomicBool::new(false)),
        }
    }
}

impl Clone for CommandHealth {
    /// The same counters, not further ones.
    fn clone(&self) -> (r: CommandHealth)
        ensures
            r == *self,
    {
        CommandHealth {
            rejected: self.rejected.clone(),
            high_watermark: self.high_watermark.clone(),
            shutdown_requested: self.shutdown_requested.clone(),
        }
    }
}

/// Whether the shutdown was announced to everybody who looks.
pub closed spec fn announced(health: CommandHealth) -> bool {
    call_ensures(AtomicBool::store, (&*health.shutdown_requested, true, Ordering::Release), ())
}

/// Whether a look for an announced shutdown brought this.
pub closed spec fn asked(health: CommandHealth, flag: bool) -> bool {
    call_ensures(AtomicBool::load, (&*health.shutdown_requested, Ordering::Acquire), flag)
}

/// Whether a command that was not accepted was counted, once.
pub closed spec fn rejection_counted(health: CommandHealth, before: u64) -> bool {
    call_ensures(AtomicU64::fetch_add, (&*health.rejected, 1u64, Ordering::Relaxed), before)
}

/// Whether the number of commands that waited in a queue was taken for its high watermark, where it
/// is the highest so far.
pub closed spec fn mark_raised(tx: Sender<Cmd>, health: CommandHealth, depth: usize) -> bool {
    held(tx, depth) && exists|before: usize| #[trigger]
        call_ensures(
            AtomicUsize::fetch_max,
            (&*health.high_watermark, depth, Ordering::Relaxed),
            before,
        )
}

/// Whether a look at the counters brought so many rejected commands and this high watermark.
pub closed spec fn counters_read(health: CommandHealth, rejected: u64, high: usize) -> bool {
    &&& call_ensures(AtomicU64::load, (&*health.rejected, Ordering::Relaxed), rejected)
    &&& call_ensures(AtomicUsize::load, (&*health.high_watermark, Ordering::Relaxed), high)
}

/// The way commands reach the controller.
#[derive(Debug)]
pub struct CommandSender {
    pub tx: Sender<Cmd>,
    pub health: CommandHealth,
}

/// `Sender::clone`: a further handle of the same channel. Handles are told apart by nothing that
/// the contracts here speak of, so nothing is stated of it.
pub assume_specification<T>[ <Sender<T> as Clone>::clone ](tx: &Sender<T>) -> Sender<T>;

/// Whether a handle of a channel was made from another one.
pub closed spec fn further_handle(tx: Sender<Cmd>, further: Sender<Cmd>) -> bool {
    call_ensures(<Sender<Cmd> as Clone>::clone, (&tx,), further)
}

impl Clone for CommandSender {
    fn clone(&self) -> (r: CommandSender)
        ensures
            further_handle(self.tx, r.tx),
            r.health == self.health,
    {
        CommandSender { tx: self.tx.clone(), health: self.health.clone() }
    }
}

/// A command did not reach the controller.
#[derive(Clone, Copy, Debug)]
pub struct CommandRejected;

/// What follows from the fate of a command: it is rejected unless it was accepted.
pub fn command_outcome(fate: Offer<Cmd>) -> (r: Result<(), CommandRejected>)
    ensures
        r is Ok <==> fate is Accepted,
{
    match fate {
        Offer::Accepted => Ok(()),
        _ => Err(CommandRejected),
    }
}

impl CommandSender {
    /// Hands a command over without waiting. A shutdown is announced even where the queue has no
    /// room. Whether the command is accepted depends on the queue.
    pub fn send(&self, command: Cmd) -> (r: Result<(), CommandRejected>)
        ensures
            exists|fate: Offer<Cmd>| #[trigger]
                offered(self.tx, command, fate) && (r is Ok <==> fate is Accepted),
            command is Shutdown ==> announced(self.health),
            r is Ok ==> exists|depth: usize| #[trigger] mark_raised(self.tx, self.health, depth),
            r is Err ==> exists|before: u64| #[trigger] rejection_counted(self.health, before),
    {
        if matches!(command, Cmd::Shutdown) {
            self.health.shutdown_requested.store(true, Ordering::Release);
            assert(announced(self.health));
        }
        let fate = hand_shared(&self.tx, command);
        let outcome = command_outcome(fate);
        self.count(outcome.is_ok());
        outcome
    }

    /// Hands a command over, waiting for room for at most the given time.
    pub fn send_critical(&self, command: Cmd, timeout_millis: u64) -> (r: Result<
        (),
        CommandRejected,
    >)
        ensures
            exists|fate: Offer<Cmd>| #[trigger]
                offered_within(self.tx, command, timeout_millis, fate) && (r is Ok <==> fate
                    is Accepted),
            command is Shutdown ==> announced(self.health),
            r is Ok ==> exists|depth: usize| #[trigger] mark_raised(self.tx, self.health, depth),
            r is Err ==> exists|before: u64| #[trigger] rejection_counted(self.health, before),
    {
        if matches!(command, Cmd::Shutdown) {
            self.health.shutdown_requested.store(true, Ordering::Release);
            assert(announced(self.health));
        }
        let fate = hand_shared_within(&self.tx, command, timeout_millis);
        let outcome = command_outcome(fate);
        self.count(outcome.is_ok());
        outcome
    }

    fn count(&self, accepted: bool)
        ensures
            accepted ==> exists|depth: usize| #[trigger] mark_raised(self.tx, self.health, depth),
            !accepted ==> exists|before: u64| #[trigger] rejection_counted(self.health, before),
    {
        if accepted {
            let depth: usize = depth_of(&self.tx);
            let _ = self.health.high_watermark.fetch_max(depth, Ordering::Relaxed);
            assert(mark_raised(self.tx, self.health, depth));
        } else {
            let before: u64 = self.health.rejected.fetch_add(1, Ordering::Relaxed);
            assert(rejection_counted(self.health, before));
        }
    }
}

// ---------------------------------------------------------------- events

/// The way events reach the user interface, with the counters of what did not.
pub struct EventSender {
    pub out: Outbox<Evt>,
    pub dropped_frames: u64,
    pub dropped_events: u64,
    pub high_watermark: usize,
}

/// What became of a playback event.
#[derive(Clone, Copy, Debug, PartialEq, Eq, Structural)]
pub enum PlaybackEventSend {
    Enqueued,
    Full,
    Disconnected,
}

/// What became of a playback frame.
#[derive(Clone, Copy, Debug, PartialEq, Eq, Structural)]
pub enum PlaybackFrameEmit {
    Emitted,
    Backpressure,
    Failed,
}

/// What becomes of a playback frame whose event met the given fate. On the bus a frame is never
/// sent twice, so that a full queue loses its echo only; offline it is tried again.
pub open spec fn emitted(online: bool, fate: PlaybackEventSend) -> PlaybackFrameEmit {
    match fate {
        PlaybackEventSend::Enqueued => PlaybackFrameEmit::Emitted,
        PlaybackEventSend::Full => if online {
            PlaybackFrameEmit::Emitted
        } else {
            PlaybackFrameEmit::Backpressure
        },
        PlaybackEventSend::Disconnected => PlaybackFrameEmit::Failed,
    }
}

/// What becomes of a playback frame whose event met the given fate.
pub fn emit_outcome(online: bool, fate: PlaybackEventSend) -> (r: PlaybackFrameEmit)
    ensures
        r == emitted(online, fate),
{
    match fate {
        PlaybackEventSend::Enqueued => PlaybackFrameEmit::Emitted,
        PlaybackEventSend::Full => if online {
            PlaybackFrameEmit::Emitted
        } else {
            PlaybackFrameEmit::Backpressure
        },
        PlaybackEventSend::Disconnected => PlaybackFrameEmit::Failed,
    }
}

/// Whether captured frames may enter an event queue of this length: the last places stay free for
/// control events.
pub fn leaves_reserve(depth: usize) -> (r: bool)
    ensures
        r == (depth < EVENT_QUEUE_CAPACITY - EVENT_QUEUE_CONTROL_RESERVE),
{
    depth < EVENT_QUEUE_CAPACITY - EVENT_QUEUE_CONTROL_RESERVE
}

impl EventSender {
    /// The end of the event queue.
    pub open spec fn end(&self) -> Sender<Evt> {
        self.out.end()
    }

    /// The events that were handed to the queue, in order.
    pub open spec fn record(&self) -> Seq<Handed<Evt>> {
        self.out.record()
    }

    /// The events after a further one was handed to the queue: for how many milliseconds it might
    /// wait, if it might, and what became of it.
    pub open spec fn record_with(
        &self,
        event: Evt,
        within: Option<u64>,
        fate: Offer<Evt>,
    ) -> Seq<Handed<Evt>> {
        self.record().push(Handed { item: event, within, fate })
    }

    /// Nothing is counted.
    pub open spec fn uncounted(&self, before: &EventSender) -> bool {
        &&& self.end() == before.end()
        &&& self.dropped_frames == before.dropped_frames
        &&& self.dropped_events == before.dropped_events
        &&& self.high_watermark == before.high_watermark
    }

    /// A sender that has not sent anything.
    pub fn new(tx: Sender<Evt>) -> (r: EventSender)
        ensures
            r.end() == tx,
            r.record() == Seq::<Handed<Evt>>::empty(),
            r.dropped_frames == 0,
            r.dropped_events == 0,
            r.high_watermark == 0,
    {
        EventSender { out: Outbox::new(tx), dropped_frames: 0, dropped_events: 0, high_watermark: 0 }
    }

    /// Nothing was lost; the high watermark is raised to the number of events that waited then.
    pub open spec fn went_through(&self, before: &EventSender) -> bool {
        &&& self.end() == before.end()
        &&& self.dropped_frames == before.dropped_frames
        &&& self.dropped_events == before.dropped_events
        &&& exists|depth: usize| #[trigger]
            held(before.end(), depth) && self.high_watermark == if depth > before.high_watermark {
                depth
            } else {
                before.high_watermark
            }
    }

    /// One event was lost.
    pub open spec fn lost_event(&self, before: &EventSender) -> bool {
        &&& self.end() == before.end()
        &&& self.dropped_frames == before.dropped_frames
        &&& self.dropped_events == counted(before.dropped_events)
        &&& self.high_watermark == before.high_watermark
    }

    /// So many captured frames were lost.
    pub open spec fn lost_frames(&self, before: &EventSender, count: nat) -> bool {
        &&& self.end() == before.end()
        &&& self.dropped_frames == ((before.dropped_frames + count) % 0x1_0000_0000_0000_0000) as u64
        &&& self.dropped_events == before.dropped_events
        &&& self.high_watermark == before.high_watermark
    }

    fn update_high_watermark(&mut self)
        ensures
            final(self).went_through(old(self)),
            final(self).record() == old(self).record(),
    {
        let depth: usize = self.out.depth();
        assert(held(self.end(), depth));
        if depth > self.high_watermark {
            self.high_watermark = depth;
        }
    }

    /// Sends a control event without waiting; a lost one is counted.
    pub fn send(&mut self, event: Evt) -> (r: Result<(), ()>)
        ensures
            exists|fate: Offer<Evt>|
                final(self).record() == #[trigger] old(self).record_with(event, None, fate) && (r is Ok <==> fate is Accepted),
            r is Ok ==> final(self).went_through(old(self)),
            r is Err ==> final(self).lost_event(old(self)),
    {
        let fate = self.out.hand(event);
        assert(self.record() == old(self).record_with(event, None, fate));
        match fate {
            Offer::Accepted => {
                self.update_high_watermark();
                Ok(())
            },
            _ => {
                self.dropped_events = self.dropped_events.wrapping_add(1);
                Err(())
            },
        }
    }

    /// Sends a control event, waiting for room for at most the given time; a lost one is counted.
    pub fn send_critical(&mut self, event: Evt, timeout_millis: u64) -> (r: Result<(), ()>)
        ensures
            exists|fate: Offer<Evt>|
                final(self).record() == #[trigger] old(self).record_with(event, Some(timeout_millis), fate) && (r is Ok <==> fate
                    is Accepted),
            r is Ok ==> final(self).went_through(old(self)),
            r is Err ==> final(self).lost_event(old(self)),
    {
        let fate = self.out.hand_within(event, timeout_millis);
        assert(self.record() == old(self).record_with(event, Some(timeout_millis), fate));
        match fate {
            Offer::Accepted => {
                self.update_high_watermark();
                Ok(())
            },
            _ => {
                self.dropped_events = self.dropped_events.wrapping_add(1);
                Err(())
            },
        }
    }

    /// Whether one playback event was handed over, and the result tells what became of it.
    pub open spec fn played(&self, before: &EventSender, event: Evt, r: PlaybackEventSend) -> bool {
        exists|fate: Offer<Evt>|
            self.record() == #[trigger] before.record_with(event, None, fate) && r == match fate {
                Offer::Accepted => PlaybackEventSend::Enqueued,
                Offer::Full(_) => PlaybackEventSend::Full,
                Offer::Disconnected(_) => PlaybackEventSend::Disconnected,
            }
    }

    /// Sends a playback frame. A full queue is no loss yet: the caller decides.
    pub fn try_send_playback_frame(&mut self, frame: CanFrame) -> (r: PlaybackEventSend)
        ensures
            final(self).played(old(self), Evt::PlaybackFrame(frame), r),
            r is Enqueued ==> final(self).went_through(old(self)),
            r is Full ==> final(self).uncounted(old(self)),
            r is Disconnected ==> final(self).lost_event(old(self)),
    {
        let fate = self.out.hand(Evt::PlaybackFrame(frame));
        assert(self.record() == old(self).record_with(Evt::PlaybackFrame(frame), None, fate));
        match fate {
            Offer::Accepted => {
                self.update_high_watermark();
                PlaybackEventSend::Enqueued
            },
            Offer::Full(_) => PlaybackEventSend::Full,
            Offer::Disconnected(_) => {
                self.dropped_events = self.dropped_events.wrapping_add(1);
                PlaybackEventSend::Disconnected
            },
        }
    }

    /// Sends a batch of playback frames; nothing to send always succeeds.
    pub fn try_send_playback_frames(&mut self, frames: Vec<CanFrame>) -> (r: PlaybackEventSend)
        ensures
            frames@.len() == 0 ==> r is Enqueued && *final(self) == *old(self),
            frames@.len() > 0 ==> final(self).played(old(self), Evt::PlaybackFrames(frames), r),
            frames@.len() > 0 && r is Enqueued ==> final(self).went_through(old(self)),
            r is Full ==> final(self).uncounted(old(self)),
            r is Disconnected ==> final(self).lost_event(old(self)),
    {
        if frames.len() == 0 {
            return PlaybackEventSend::Enqueued;
        }
        let fate = self.out.hand(Evt::PlaybackFrames(frames));
        assert(self.record() == old(self).record_with(Evt::PlaybackFrames(frames), None, fate));
        match fate {
            Offer::Accepted => {
                self.update_high_watermark();
                PlaybackEventSend::Enqueued
            },
            Offer::Full(_) => PlaybackEventSend::Full,
            Offer::Disconnected(_) => {
                self.dropped_events = self.dropped_events.wrapping_add(1);
                PlaybackEventSend::Disconnected
            },
        }
    }

    /// Sends captured frames. They go through or are lost as a whole batch, and every lost frame
    /// is counted; the last places of the queue stay free for control events.
    pub fn send_frames(&mut self, frames: Vec<CanFrame>)
        ensures
            frames@.len() == 0 ==> *final(self) == *old(self),
            frames@.len() > 0 ==> exists|depth: usize| #[trigger]
                held(old(self).end(), depth) && if depth < EVENT_QUEUE_CAPACITY
                    - EVENT_QUEUE_CONTROL_RESERVE {
                    exists|fate: Offer<Evt>|
                        final(self).record() == #[trigger] old(self).record_with(Evt::Frames(frames), None, fate) && if fate
                            is Accepted {
                            final(self).went_through(old(self))
                        } else {
                            final(self).lost_frames(old(self), frames@.len())
                        }
                } else {
                    final(self).lost_frames(old(self), frames@.len()) && final(self).record()
                        == old(self).record()
                },
    {
        if frames.len() == 0 {
            return;
        }
        let count: u64 = frames.len() as u64;
        let depth: usize = self.out.depth();
        assert(held(self.end(), depth));
        if !leaves_reserve(depth) {
            self.dropped_frames = self.dropped_frames.wrapping_add(count);
            return;
        }
        let fate = self.out.hand(Evt::Frames(frames));
        assert(self.record() == old(self).record_with(Evt::Frames(frames), None, fate));
        match fate {
            Offer::Accepted => {
                self.update_high_watermark();
            },
            _ => {
                self.dropped_frames = self.dropped_frames.wrapping_add(count);
            },
        }
    }

    /// The state of both queues and of the hardware as an event.
    pub fn health_event(
        &self,
        hardware_overruns: u64,
        hardware_errors: u64,
        queue_depth: usize,
        command_rejected: u64,
        command_queue_depth: usize,
        command_queue_high_watermark: usize,
        timestamp: TimestampHealth,
    ) -> (r: Evt)
        ensures
            r == (Evt::CaptureHealth {
                dropped_frames: self.dropped_frames,
                dropped_events: self.dropped_events,
                hardware_overruns,
                hardware_errors,
                queue_depth,
                queue_capacity: EVENT_QUEUE_CAPACITY,
                queue_high_watermark: self.high_watermark,
                command_rejected,
                command_queue_depth,
                command_queue_capacity: COMMAND_QUEUE_CAPACITY,
                command_queue_high_watermark,
                timestamp,
            }),
    {
        Evt::CaptureHealth {
            dropped_frames: self.dropped_frames,
            dropped_events: self.dropped_events,
            hardware_overruns,
            hardware_errors,
            queue_depth,
            queue_capacity: EVENT_QUEUE_CAPACITY,
            queue_high_watermark: self.high_watermark,
            command_rejected,
            command_queue_depth,
            command_queue_capacity: COMMAND_QUEUE_CAPACITY,
            command_queue_high_watermark,
            timestamp,
        }
    }

    /// Whether an event reports the state of both queues and of the hardware. The counters of the
    /// command queue are those of the moment: other threads change them.
    pub open spec fn reports(
        &self,
        event: Evt,
        hardware_overruns: u64,
        hardware_errors: u64,
        commands: CommandHealth,
        command_depth: usize,
        timestamp: TimestampHealth,
    ) -> bool {
        event matches Evt::CaptureHealth {
            dropped_frames,
            dropped_events,
            hardware_overruns: overruns,
            hardware_errors: errors,
            queue_depth,
            queue_capacity,
            queue_high_watermark,
            command_rejected,
            command_queue_depth,
            command_queue_capacity,
            command_queue_high_watermark,
            timestamp: times,
        } && {
            &&& dropped_frames == self.dropped_frames
            &&& dropped_events == self.dropped_events
            &&& overruns == hardware_overruns
            &&& errors == hardware_errors
            &&& held(self.end(), queue_depth)
            &&& queue_capacity == EVENT_QUEUE_CAPACITY
            &&& queue_high_watermark == self.high_watermark
            &&& counters_read(commands, command_rejected, command_queue_high_watermark)
            &&& command_queue_depth == command_depth
            &&& command_queue_capacity == COMMAND_QUEUE_CAPACITY
            &&& times == timestamp
        }
    }

    /// Reports the state of both queues and of the hardware; a report that finds no room is not
    /// counted as lost.
    pub fn report_health(
        &mut self,
        hardware_overruns: u64,
        hardware_errors: u64,
        commands: &CommandHealth,
        command_depth: usize,
        timestamp: TimestampHealth,
    )
        ensures
            exists|event: Evt, fate: Offer<Evt>|
                final(self).record() == #[trigger] old(self).record_with(event, None, fate) && old(self).reports(
                    event,
                    hardware_overruns,
                    hardware_errors,
                    *commands,
                    command_depth,
                    timestamp,
                ) && if fate is Accepted {
                    final(self).went_through(old(self))
                } else {
                    final(self).uncounted(old(self))
                },
    {
        let depth: usize = self.out.depth();
        assert(held(self.end(), depth));
        let rejected: u64 = commands.rejected.load(Ordering::Relaxed);
        let high: usize = commands.high_watermark.load(Ordering::Relaxed);
        assert(counters_read(*commands, rejected, high));
        let event = self.health_event(
            hardware_overruns,
            hardware_errors,
            depth,
            rejected,
            command_depth,
            high,
            timestamp,
        );
        let fate = self.out.hand(event);
        assert(self.record() == old(self).record_with(event, None, fate));
        if let Offer::Accepted = fate {
            self.update_high_watermark();
        }
    }
}

// ---------------------------------------------------------------- both ends

/// The ends of both queues.
pub struct Queues {
    pub commands: CommandSender,
    pub command_rx: Receiver<Cmd>,
    pub events: EventSender,
    pub event_rx: Receiver<Evt>,
}

/// The queues between the user interface and a controller that is about to run.
pub fn spawn() -> (r: Queues)
    ensures
        made(COMMAND_QUEUE_CAPACITY, r.commands.tx, r.command_rx),
        made(EVENT_QUEUE_CAPACITY, r.events.end(), r.event_rx),
        r.events.record() == Seq::<Handed<Evt>>::empty(),
        begun(r.commands.health),
        r.events.dropped_frames == 0,
        r.events.dropped_events == 0,
        r.events.high_watermark == 0,
{
    let commands = make_channel::<Cmd>(COMMAND_QUEUE_CAPACITY);
    let events = make_channel::<Evt>(EVENT_QUEUE_CAPACITY);
    Queues {
        commands: CommandSender { tx: commands.0, health: CommandHealth::default() },
        command_rx: commands.1,
        events: EventSender::new(events.0),
        event_rx: events.1,
    }
}

/// What the controller does next.
#[derive(Debug)]
pub enum NextCommand {
    /// A shutdown was announced: it comes before every command.
    Shutdown,
    Run(Cmd),
    /// There is nothing to do for now.
    Idle,
    /// Nobody sends commands any more: the controller ends.
    End,
}

/// What the controller does where no shutdown was announced.
pub open spec fn chosen(taken: Taken<Cmd>) -> NextCommand {
    match taken {
        Taken::Item(c) => NextCommand::Run(c),
        Taken::Empty => NextCommand::Idle,
        Taken::Disconnected => NextCommand::End,
    }
}

/// What the controller does next, given whether a shutdown was announced and what the command queue
/// held.
pub fn choose_next(shutdown: bool, taken: Taken<Cmd>) -> (r: NextCommand)
    ensures
        r == if shutdown {
            NextCommand::Shutdown
        } else {
            chosen(taken)
        },
{
    if shutdown {
        return NextCommand::Shutdown;
    }
    match taken {
        Taken::Item(c) => NextCommand::Run(c),
        Taken::Empty => NextCommand::Idle,
        Taken::Disconnected => NextCommand::End,
    }
}

/// What the controller does next. A command is taken only where no shutdown was announced, by one
/// look into the queue; which one depends on who sends.
pub fn next_command(rx: &mut Inbox<Cmd>, health: &CommandHealth) -> (r: NextCommand)
    ensures
        final(rx).end() == old(rx).end(),
        exists|flag: bool| #[trigger]
            asked(*health, flag) && if flag {
                r is Shutdown && final(rx).looks() == old(rx).looks()
            } else {
                exists|taken: Taken<Cmd>|
                    final(rx).looks() == #[trigger] old(rx).looks().push(taken) && r == chosen(
                        taken,
                    )
            },
{
    let flag: bool = health.shutdown_requested.load(Ordering::Acquire);
    assert(asked(*health, flag));
    if flag {
        return choose_next(true, Taken::Empty);
    }
    let taken = rx.look();
    assert(rx.looks() == old(rx).looks().push(taken));
    choose_next(false, taken)
}

} // verus!
