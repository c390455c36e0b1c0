//! The controller: what each command changes and what has to be done for it.
//!
//! The controller holds the state; the adapters, the clock and the queues are outside. A command
//! gives a list of effects to carry out in order. Where an effect has an answer, a method takes it.
use crate::can::adapters::{
    can_then, connection_events, connection_outcome, open_failures, OpenedChannel,
};
use crate::can::ota::OtaRun;
use crate::can::playback::{Playback, PLAYBACK_STEP};
use crate::can::schedule::{
    same_job, after_sending, count_sent, jobs_wf, period_nanos, stop_periodic_jobs, DynamicPeriodic, Periodic, SimPeriodic,
};
use crate::can::send_queue::{enqueue_send_job, in_sequence, queue_wf, PendingSendJob, MAX_PENDING_SEND_FRAMES, MAX_PENDING_SEND_JOBS};
use crate::can::supervision::{
    remembers, connection_loss_confirmed, next_streak, should_log_send_error, streak_of, worth_logging,
    RecentErrors, CONNECTION_LOSS_CONFIRMATIONS,
};
use crate::can::vci::{due, is_due};
use crate::can::zcan::{set_fault, validate_channel_set};
use crate::can::{
    configs_view, frames_view, optional_text, CanFrame, Cmd, DeviceConfig, DeviceConfigView,
    DynamicPeriodicConfig, Evt, EvtView, FrameView, OtaJob, PollReport, SimPeriodicConfig,
};
use crate::ratio::Ratio;
use crate::table::{entries_map, Table};
use crate::text;
use std::collections::VecDeque;
use vstd::prelude::*;

verus! {

/// Commands that one slice handles at most.
pub const COMMANDS_PER_SLICE: usize = 64;

/// Nanoseconds between two health reports.
pub const HEALTH_REPORT_INTERVAL: u64 = 250_000_000;

/// Frames of one capture batch.
pub const CAPTURE_BATCH: usize = 128;

/// A connected adapter: its channel and its name.
#[derive(Debug)]
pub struct Link {
    pub channel: u8,
    pub name: String,
}

/// The state of the controller.
#[derive(Debug)]
pub struct Controller {
    pub links: Vec<Link>,
    pub running: bool,
    pub hardware_overruns: u64,
    pub hardware_errors: u64,
    pub adapter_errors: RecentErrors,
    pub send_errors: RecentErrors,
    pub loss_streaks: Table<(u8, u64)>,
    pub periodics: Table<Periodic>,
    pub dynamics: Table<DynamicPeriodic>,
    pub sims: Vec<SimPeriodic>,
    pub pending: VecDeque<PendingSendJob>,
    pub playback: Option<Playback>,
    /// When the health was reported last; zero, when the controller began, before the first report.
    pub last_health_report: u64,
}

/// Something to be done outside.
#[derive(Debug)]
pub enum Effect {
    /// Show an event, without waiting for room.
    Event(Evt),
    /// Show an event, waiting for room for this many milliseconds.
    Critical(Evt, u64),
    /// Start a new session of timestamp statistics.
    BeginTimestampSession,
    /// Open the first PCAN channel, then `first_opened`.
    OpenFirst,
    /// Open these channels in order, then `channels_opened`.
    Open(Vec<DeviceConfig>),
    /// Let go of every adapter.
    CloseAdapters,
    /// Let go of every cached device.
    ClearDevices,
    /// Put a frame on the bus, then `sent_once`.
    Transmit(CanFrame),
    /// Run a firmware update.
    Update(OtaJob),
    /// Tell whoever waits what became of a batch.
    Acknowledge(u64, Result<u64, String>),
    /// Replay the frames up to this position, then `stepped`.
    Step { end: usize, online: bool },
    /// End the controller.
    Exit,
}

/// What an effect is, with its parts as views.
pub enum EffectView {
    Event(EvtView),
    Critical(EvtView, u64),
    BeginTimestampSession,
    OpenFirst,
    Open(Seq<DeviceConfigView>),
    CloseAdapters,
    ClearDevices,
    Transmit(FrameView),
    Update(OtaJob),
    Acknowledge(u64, Result<u64, Seq<char>>),
    Step { end: usize, online: bool },
    Exit,
}

/// A result of strings as a result of texts.
pub open spec fn outcome_view(r: Result<u64, String>) -> Result<u64, Seq<char>> {
    match r {
        Ok(n) => Ok(n),
        Err(s) => Err(s@),
    }
}

impl View for Effect {
    type V = EffectView;

    open spec fn view(&self) -> EffectView {
        match *self {
            Effect::Event(e) => EffectView::Event(e@),
            Effect::Critical(e, ms) => EffectView::Critical(e@, ms),
            Effect::BeginTimestampSession => EffectView::BeginTimestampSession,
            Effect::OpenFirst => EffectView::OpenFirst,
            Effect::Open(c) => EffectView::Open(configs_view(c@)),
            Effect::CloseAdapters => EffectView::CloseAdapters,
            Effect::ClearDevices => EffectView::ClearDevices,
            Effect::Transmit(f) => EffectView::Transmit(f@),
            Effect::Update(j) => EffectView::Update(j),
            Effect::Acknowledge(a, r) => EffectView::Acknowledge(a, outcome_view(r)),
            Effect::Step { end, online } => EffectView::Step { end, online },
            Effect::Exit => EffectView::Exit,
        }
    }
}

/// The views of a list of effects.
pub open spec fn effects_view(effects: Seq<Effect>) -> Seq<EffectView> {
    effects.map_values(|e: Effect| e@)
}

/// A message as an effect.
pub open spec fn logs(s: Seq<char>) -> EffectView {
    EffectView::Event(EvtView::Log(s))
}

/// The names and numbers of links.
pub open spec fn links_view(links: Seq<Link>) -> Seq<(u8, Seq<char>)> {
    links.map_values(|l: Link| (l.channel, l.name@))
}

/// The names of the links as they are shown.
pub open spec fn link_names(links: Seq<(u8, Seq<char>)>) -> Seq<Seq<char>> {
    links.map_values(|l: (u8, Seq<char>)| can_then(l.0, ":"@ + l.1))
}

/// The event that shows a connection that ended or never came about.
pub open spec fn shows_disconnected(error: Option<Seq<char>>) -> EffectView {
    EffectView::Event(EvtView::Connected { channels: seq![], name: seq![], error })
}

fn log_effect(s: &str) -> (r: Effect)
    ensures
        r@ == logs(s@),
{
    Effect::Event(Evt::Log(s.to_owned()))
}

fn log_with(head: &str, tail: &str) -> (r: Effect)
    ensures
        r@ == logs(head@ + tail@),
{
    let mut message = head.to_owned();
    message.push_str(tail);
    Effect::Event(Evt::Log(message))
}

fn log_count(head: &str, n: u64, tail: &str) -> (r: Effect)
    ensures
        r@ == logs(head@ + text::decimal(n as nat) + tail@),
{
    let mut message = head.to_owned();
    text::push_decimal(&mut message, n);
    message.push_str(tail);
    Effect::Event(Evt::Log(message))
}

fn disconnected_event(error: Option<String>) -> (r: Effect)
    ensures
        r@ == shows_disconnected(optional_text(error)),
{
    let channels: Vec<u8> = Vec::new();
    let name = String::new();
    assert(channels@ =~= seq![]);
    assert(name@ =~= seq![]);
    Effect::Event(Evt::Connected { channels, name, error })
}

fn running_event(on: bool) -> (r: Effect)
    ensures
        r@ == EffectView::Event(EvtView::Running(on)),
{
    Effect::Event(Evt::Running(on))
}

impl Controller {
    /// Every part is well formed.
    pub open spec fn wf(&self) -> bool {
        &&& self.adapter_errors.wf()
        &&& self.send_errors.wf()
        &&& self.loss_streaks.wf()
        &&& self.periodics.wf()
        &&& jobs_wf(self.periodics.rows())
        &&& self.dynamics.wf()
        &&& queue_wf(self.pending@)
        &&& self.playback matches Some(p) ==> p.wf()
    }

    pub open spec fn same_links(&self, other: &Controller) -> bool {
        self.links == other.links && self.running == other.running
    }

    pub open spec fn same_faults(&self, other: &Controller) -> bool {
        &&& self.hardware_overruns == other.hardware_overruns
        &&& self.hardware_errors == other.hardware_errors
        &&& self.adapter_errors == other.adapter_errors
        &&& self.send_errors == other.send_errors
        &&& self.loss_streaks == other.loss_streaks
        &&& self.last_health_report == other.last_health_report
    }

    /// The counters, the messages written and the time of the last report are the same.
    pub open spec fn same_history(&self, other: &Controller) -> bool {
        &&& self.hardware_overruns == other.hardware_overruns
        &&& self.hardware_errors == other.hardware_errors
        &&& self.adapter_errors == other.adapter_errors
        &&& self.send_errors == other.send_errors
        &&& self.last_health_report == other.last_health_report
    }

    pub open spec fn same_jobs(&self, other: &Controller) -> bool {
        &&& self.periodics == other.periodics
        &&& self.dynamics == other.dynamics
        &&& self.sims == other.sims
    }

    /// Nothing changed but the queue of frames to send.
    pub open spec fn same_but_pending(&self, other: &Controller) -> bool {
        &&& self.same_links(other)
        &&& self.same_faults(other)
        &&& self.same_jobs(other)
        &&& self.playback == other.playback
    }

    /// Nothing changed but the periodic jobs.
    pub open spec fn same_but_jobs(&self, other: &Controller) -> bool {
        &&& self.same_links(other)
        &&& self.same_faults(other)
        &&& self.pending == other.pending
        &&& self.playback == other.playback
    }

    /// Nothing changed but the replay.
    pub open spec fn same_but_playback(&self, other: &Controller) -> bool {
        &&& self.same_links(other)
        &&& self.same_faults(other)
        &&& self.same_jobs(other)
        &&& self.pending == other.pending
    }

    /// Nothing is connected, nothing runs.
    pub open spec fn idle(&self) -> bool {
        &&& self.links@.len() == 0
        &&& !self.running
        &&& self.pending@.len() == 0
        &&& self.periodics.map() == Map::<u64, Periodic>::empty()
        &&& self.dynamics.map() == Map::<u64, DynamicPeriodic>::empty()
    }

    /// A controller that has done nothing yet.
    pub fn new() -> (r: Controller)
        ensures
            r.wf(),
            r.idle(),
            r.hardware_overruns == 0,
            r.hardware_errors == 0,
            r.adapter_errors.map() == Map::<u64, (String, u64)>::empty(),
            r.send_errors.map() == Map::<u64, (String, u64)>::empty(),
            r.loss_streaks.map() == Map::<u64, (u8, u64)>::empty(),
            r.sims@.len() == 0,
            r.playback is None,
            r.last_health_report == 0,
    {
        Controller {
            links: Vec::new(),
            running: false,
            hardware_overruns: 0,
            hardware_errors: 0,
            adapter_errors: Table::new(),
            send_errors: Table::new(),
            loss_streaks: Table::new(),
            periodics: Table::new(),
            dynamics: Table::new(),
            sims: Vec::new(),
            pending: VecDeque::new(),
            playback: None,
            last_health_report: 0,
        }
    }

    // ------------------------------------------------------------ connecting

    /// The counters and histories of a connection start over, and nothing waits to be sent.
    pub open spec fn starts_over(&self, before: &Controller) -> bool {
        &&& self.pending@.len() == 0
        &&& self.hardware_overruns == 0
        &&& self.hardware_errors == 0
        &&& self.adapter_errors.map() == Map::<u64, (String, u64)>::empty()
        &&& self.loss_streaks.map() == Map::<u64, (u8, u64)>::empty()
        &&& self.send_errors == before.send_errors
        &&& self.last_health_report == before.last_health_report
        &&& self.sims == before.sims
        &&& self.playback == before.playback
    }

    fn start_over(&mut self)
        requires
            old(self).wf(),
        ensures
            final(self).wf(),
            final(self).starts_over(old(self)),
            final(self).same_links(old(self)),
            final(self).same_jobs(old(self)),
    {
        self.pending.clear();
        assert(self.pending@.len() == 0);
        self.hardware_overruns = 0;
        self.hardware_errors = 0;
        self.adapter_errors.clear();
        self.loss_streaks.clear();
    }

    /// What opening the first PCAN channel asks for.
    pub open spec fn connects_first(&self, before: &Controller, fx: Seq<EffectView>) -> bool {
        &&& self.starts_over(before)
        &&& self.same_links(before)
        &&& self.same_jobs(before)
        &&& fx == seq![EffectView::BeginTimestampSession, EffectView::OpenFirst]
    }

    /// What connecting a set of channels asks for. A set that breaks the rules leaves the
    /// connection as it is and says why.
    pub open spec fn connects(
        &self,
        before: &Controller,
        cfgs: Seq<DeviceConfigView>,
        fx: Seq<EffectView>,
    ) -> bool {
        &&& self.starts_over(before)
        &&& self.dynamics.map() == Map::<u64, DynamicPeriodic>::empty()
        &&& match set_fault(cfgs) {
            Some(fault) => {
                &&& self.same_links(before)
                &&& self.periodics == before.periodics
                &&& fx == seq![
                    EffectView::BeginTimestampSession,
                    logs("CAN 通道配置无效: "@ + fault),
                    EffectView::Event(
                        EvtView::Connected {
                            channels: before.links@.map_values(|l: Link| l.channel),
                            name: text::joined(link_names(links_view(before.links@)), "  "@),
                            error: Some(fault),
                        },
                    ),
                ]
            },
            None => {
                &&& self.links@.len() == 0
                &&& !self.running
                &&& self.periodics.map() == Map::<u64, Periodic>::empty()
                &&& fx == seq![
                    EffectView::BeginTimestampSession,
                    EffectView::CloseAdapters,
                    EffectView::Event(EvtView::Running(false)),
                    EffectView::Open(cfgs),
                ]
            },
        }
    }

    fn connect_channels(&mut self, cfgs: Vec<DeviceConfig>) -> (r: Vec<Effect>)
        requires
            old(self).wf(),
        ensures
            final(self).wf(),
            final(self).connects(old(self), configs_view(cfgs@), effects_view(r@)),
    {
        let mut fx: Vec<Effect> = Vec::new();
        self.start_over();
        self.dynamics.clear();
        fx.push(Effect::BeginTimestampSession);
        match validate_channel_set(cfgs.as_slice()) {
            Err(fault) => {
                fx.push(log_with("CAN 通道配置无效: ", fault.as_str()));
                let mut channels: Vec<u8> = Vec::new();
                let mut names: Vec<String> = Vec::new();
                let ghost all = link_names(links_view(self.links@));
                let ghost number = |l: Link| l.channel;
                let mut i: usize = 0;
                assert(text::texts(names@) =~= all.take(0));
                assert(channels@ =~= self.links@.take(0).map_values(number));
                while i < self.links.len()
                    invariant
                        i <= self.links@.len(),
                        number == (|l: Link| l.channel),
                        all == link_names(links_view(self.links@)),
                        text::texts(names@) == all.take(i as int),
                        channels@ == self.links@.take(i as int).map_values(number),
                    decreases self.links@.len() - i,
                {
                    let channel: u8 = self.links[i].channel;
                    let mut name = "CAN".to_owned();
                    text::push_decimal(&mut name, channel as u64);
                    name.push_str(":");
                    name.push_str(self.links[i].name.as_str());
                    let ghost n0 = names@;
                    names.push(name);
                    channels.push(channel);
                    proof {
                        assert(name@ =~= all[i as int]);
                        assert(text::texts(names@) =~= text::texts(n0).push(name@));
                        assert(all.take(i + 1) =~= all.take(i as int).push(all[i as int]));
                        assert(self.links@.take(i + 1).map_values(number) =~= self.links@.take(
                            i as int,
                        ).map_values(number).push(channel));
                    }
                    i += 1;
                }
                assert(all.take(i as int) =~= all);
                assert(self.links@.take(i as int) =~= self.links@);
                let name = text::join(names.as_slice(), "  ");
                fx.push(Effect::Event(Evt::Connected { channels, name, error: Some(fault) }));
                assert(effects_view(fx@) =~= seq![
                    EffectView::BeginTimestampSession,
                    logs("CAN 通道配置无效: "@ + fault@),
                    EffectView::Event(
                        EvtView::Connected {
                            channels: old(self).links@.map_values(|l: Link| l.channel),
                            name: text::joined(link_names(links_view(old(self).links@)), "  "@),
                            error: Some(fault@),
                        },
                    ),
                ]);
            },
            Ok(()) => {
                self.running = false;
                self.periodics.clear();
                self.links.clear();
                fx.push(Effect::CloseAdapters);
                fx.push(running_event(false));
                fx.push(Effect::Open(cfgs));
                assert(effects_view(fx@) =~= seq![
                    EffectView::BeginTimestampSession,
                    EffectView::CloseAdapters,
                    EffectView::Event(EvtView::Running(false)),
                    EffectView::Open(configs_view(cfgs@)),
                ]);
            },
        }
        fx
    }

    /// Takes the outcome of opening the first PCAN channel: the adapter's name, or why it failed.
    pub fn first_opened(&mut self, outcome: Result<String, String>) -> (r: Vec<Effect>)
        requires
            old(self).wf(),
        ensures
            final(self).wf(),
            final(self).running == old(self).running,
            final(self).same_faults(old(self)),
            final(self).same_jobs(old(self)),
            final(self).pending == old(self).pending,
            final(self).playback == old(self).playback,
            match outcome {
                Ok(name) => {
                    &&& links_view(final(self).links@) == seq![(1u8, name@)]
                    &&& effects_view(r@) == seq![
                        logs("已连接真实 PCAN 卡: "@ + name@),
                        EffectView::Event(
                            EvtView::Connected { channels: seq![1u8], name: name@, error: None },
                        ),
                    ]
                },
                Err(error) => {
                    &&& final(self).links == old(self).links
                    &&& effects_view(r@) == seq![
                        logs("连接 PCAN 卡失败: "@ + error@),
                        shows_disconnected(Some(error@)),
                    ]
                },
            },
    {
        let mut fx: Vec<Effect> = Vec::new();
        match outcome {
            Ok(name) => {
                fx.push(log_with("已连接真实 PCAN 卡: ", name.as_str()));
                let mut links: Vec<Link> = Vec::new();
                links.push(Link { channel: 1, name: name.clone() });
                let mut channels: Vec<u8> = Vec::new();
                channels.push(1);
                assert(channels@ =~= seq![1u8]);
                assert(links_view(links@) =~= seq![(1u8, name@)]);
                self.links = links;
                fx.push(Effect::Event(Evt::Connected { channels, name, error: None }));
                assert(effects_view(fx@) =~= seq![
                    logs("已连接真实 PCAN 卡: "@ + name@),
                    EffectView::Event(
                        EvtView::Connected { channels: seq![1u8], name: name@, error: None },
                    ),
                ]);
            },
            Err(error) => {
                fx.push(log_with("连接 PCAN 卡失败: ", error.as_str()));
                fx.push(disconnected_event(Some(error)));
                assert(effects_view(fx@) =~= seq![
                    logs("连接 PCAN 卡失败: "@ + error@),
                    shows_disconnected(Some(error@)),
                ]);
            },
        }
        fx
    }

    /// Takes the outcome of opening a set of channels. Where one failed the others are let go.
    pub fn channels_opened(&mut self, list: Vec<OpenedChannel>) -> (r: (Vec<Evt>, bool))
        requires
            old(self).wf(),
            old(self).links@.len() == 0,
        ensures
            final(self).wf(),
            final(self).running == old(self).running,
            final(self).same_faults(old(self)),
            final(self).same_jobs(old(self)),
            final(self).pending == old(self).pending,
            final(self).playback == old(self).playback,
            crate::can::events_view(r.0@) == connection_events(list@),
            r.1 == (open_failures(list@).len() == 0 && list@.len() > 0),
            links_view(final(self).links@) == if r.1 {
                list@.map_values(|o: OpenedChannel| (o.channel, (o.outcome->Ok_0)@))
            } else {
                seq![]
            },
    {
        let (events, keep): (Vec<Evt>, bool) = connection_outcome(list.as_slice());
        let ghost row = |o: OpenedChannel| (o.channel, (o.outcome->Ok_0)@);
        assert(links_view(self.links@) =~= seq![]);
        if keep {
            proof {
                crate::can::adapters::law_connecting_is_all_or_nothing(list@);
            }
            let mut links: Vec<Link> = Vec::new();
            let mut i: usize = 0;
            assert(links_view(links@) =~= list@.take(0).map_values(row));
            while i < list.len()
                invariant
                    i <= list@.len(),
                    row == (|o: OpenedChannel| (o.channel, (o.outcome->Ok_0)@)),
                    forall|j: int| 0 <= j < list@.len() ==> (#[trigger] list@[j]).outcome is Ok,
                    links_view(links@) == list@.take(i as int).map_values(row),
                decreases list@.len() - i,
            {
                assert(list@[i as int].outcome is Ok);
                let name = match &list[i].outcome {
                    Ok(name) => name.clone(),
                    Err(_) => String::new(),
                };
                let ghost l0 = links@;
                links.push(Link { channel: list[i].channel, name });
                proof {
                    assert(links_view(links@) =~= links_view(l0).push(row(list@[i as int])));
                    assert(list@.take(i + 1).map_values(row) =~= list@.take(i as int).map_values(
                        row,
                    ).push(row(list@[i as int])));
                }
                i += 1;
            }
            assert(list@.take(i as int) =~= list@);
            self.links = links;
        }
        (events, keep)
    }

    /// What a disconnection leaves and asks for.
    pub open spec fn disconnects(&self, before: &Controller, fx: Seq<EffectView>) -> bool {
        &&& self.idle()
        &&& self.loss_streaks.map() == Map::<u64, (u8, u64)>::empty()
        &&& self.same_history(before)
        &&& self.sims == before.sims
        &&& self.playback == before.playback
        &&& fx == seq![
            EffectView::CloseAdapters,
            EffectView::Event(EvtView::Running(false)),
            shows_disconnected(None),
            logs("已断开设备"@),
        ]
    }

    fn go_idle(&mut self)
        requires
            old(self).wf(),
        ensures
            final(self).wf(),
            final(self).idle(),
            final(self).loss_streaks.map() == Map::<u64, (u8, u64)>::empty(),
            final(self).same_history(old(self)),
            final(self).sims == old(self).sims,
            final(self).playback == old(self).playback,
    {
        self.pending.clear();
        assert(self.pending@.len() == 0);
        self.links.clear();
        self.running = false;
        self.periodics.clear();
        self.dynamics.clear();
        self.loss_streaks.clear();
    }

    fn disconnect(&mut self) -> (r: Vec<Effect>)
        requires
            old(self).wf(),
        ensures
            final(self).wf(),
            final(self).disconnects(old(self), effects_view(r@)),
    {
        self.go_idle();
        let mut fx: Vec<Effect> = Vec::new();
        fx.push(Effect::CloseAdapters);
        fx.push(running_event(false));
        fx.push(disconnected_event(None));
        fx.push(log_effect("已断开设备"));
        assert(effects_view(fx@) =~= seq![
            EffectView::CloseAdapters,
            EffectView::Event(EvtView::Running(false)),
            shows_disconnected(None),
            logs("已断开设备"@),
        ]);
        fx
    }

    // ------------------------------------------------------------ running

    /// Receiving starts only where something is connected.
    pub open spec fn starts(&self, before: &Controller, fx: Seq<EffectView>) -> bool {
        &&& self.same_faults(before)
        &&& self.same_jobs(before)
        &&& self.pending == before.pending
        &&& self.playback == before.playback
        &&& self.links == before.links
        &&& if before.links@.len() > 0 {
            self.running && fx == seq![
                EffectView::Event(EvtView::Running(true)),
                logs("启动接收"@),
            ]
        } else {
            self.running == before.running && fx == seq![logs("未连接设备，无法启动"@)]
        }
    }

    fn start(&mut self) -> (r: Vec<Effect>)
        requires
            old(self).wf(),
        ensures
            final(self).wf(),
            final(self).starts(old(self), effects_view(r@)),
    {
        let mut fx: Vec<Effect> = Vec::new();
        if self.links.len() > 0 {
            self.running = true;
            fx.push(running_event(true));
            fx.push(log_effect("启动接收"));
            assert(effects_view(fx@) =~= seq![
                EffectView::Event(EvtView::Running(true)),
                logs("启动接收"@),
            ]);
        } else {
            fx.push(log_effect("未连接设备，无法启动"));
            assert(effects_view(fx@) =~= seq![logs("未连接设备，无法启动"@)]);
        }
        fx
    }

    /// Stopping drops what waits to be sent; the connection stays.
    pub open spec fn stops(&self, before: &Controller, fx: Seq<EffectView>) -> bool {
        &&& self.same_faults(before)
        &&& self.same_jobs(before)
        &&& self.playback == before.playback
        &&& self.links == before.links
        &&& !self.running
        &&& self.pending@.len() == 0
        &&& fx == (if before.pending@.len() > 0 {
            seq![logs("已取消待发送任务"@)]
        } else {
            seq![]
        }) + seq![EffectView::Event(EvtView::Running(false)), logs("停止接收"@)]
    }

    fn stop(&mut self) -> (r: Vec<Effect>)
        requires
            old(self).wf(),
        ensures
            final(self).wf(),
            final(self).stops(old(self), effects_view(r@)),
    {
        let mut fx: Vec<Effect> = Vec::new();
        if self.pending.len() > 0 {
            self.pending.clear();
            assert(self.pending@.len() == 0);
            fx.push(log_effect("已取消待发送任务"));
        }
        self.running = false;
        fx.push(running_event(false));
        fx.push(log_effect("停止接收"));
        assert(effects_view(fx@) =~= (if old(self).pending@.len() > 0 {
            seq![logs("已取消待发送任务"@)]
        } else {
            seq![]
        }) + seq![EffectView::Event(EvtView::Running(false)), logs("停止接收"@)]);
        fx
    }

    // ------------------------------------------------------------ sending

    /// A single frame is stamped and sent where something is connected.
    pub open spec fn sends_once(
        &self,
        before: &Controller,
        f: FrameView,
        t: i64,
        fx: Seq<EffectView>,
    ) -> bool {
        &&& *self == *before
        &&& fx == if before.links@.len() > 0 {
            seq![EffectView::Transmit(FrameView { t, ..f })]
        } else {
            seq![]
        }
    }

    /// Takes the outcome of sending a single frame.
    pub fn sent_once(frame: CanFrame, outcome: Result<u8, String>) -> (r: Evt)
        ensures
            r@ == match outcome {
                Ok(used) => EvtView::Frame(FrameView { tx: true, ch: used, ..frame@ }),
                Err(error) => EvtView::Log("发送失败: "@ + error@),
            },
    {
        match outcome {
            Ok(used) => {
                let mut echo = frame;
                echo.tx = true;
                echo.ch = used;
                Evt::Frame(echo)
            },
            Err(error) => {
                let mut message = "发送失败: ".to_owned();
                message.push_str(error.as_str());
                Evt::Log(message)
            },
        }
    }

    /// Why a job of so many frames finds no place in the queue.
    pub open spec fn queue_fault(jobs: Seq<PendingSendJob>) -> Seq<char> {
        if jobs.len() >= MAX_PENDING_SEND_JOBS {
            "发送任务过多，请等待当前任务完成"@
        } else {
            "待发送帧已达到 100000 帧安全上限"@
        }
    }

    /// Whether a further job of `n` frames fits.
    pub open spec fn fits(jobs: Seq<PendingSendJob>, n: int) -> bool {
        jobs.len() < MAX_PENDING_SEND_JOBS && crate::can::send_queue::frames_left(jobs) + n
            <= MAX_PENDING_SEND_FRAMES
    }

    /// The length of a job that is asked for with `n` frames.
    pub open spec fn job_len(n: int) -> int {
        if n < MAX_PENDING_SEND_FRAMES {
            n
        } else {
            MAX_PENDING_SEND_FRAMES as int
        }
    }

    /// What a counting sequence adds to the queue.
    pub open spec fn sends_sequence(
        &self,
        before: &Controller,
        f: FrameView,
        count: u64,
        id_increment: bool,
        data_increment: bool,
        fx: Seq<EffectView>,
    ) -> bool {
        let n = Self::job_len(count as int);
        &&& self.same_but_pending(before)
        &&& if before.links@.len() == 0 {
            self.pending@ == before.pending@ && fx == seq![
                logs("发送失败: 当前没有已连接的 CAN 通道"@),
            ]
        } else if count == 0 {
            self.pending@ == before.pending@ && fx.len() == 0
        } else if Self::fits(before.pending@, n) {
            &&& self.pending@.len() == before.pending@.len() + 1
            &&& self.pending@.drop_last() == before.pending@
            &&& self.pending@.last().queued() == Seq::new(
                n as nat,
                |k: int| in_sequence(f, k as nat, id_increment, data_increment),
            )
            &&& fx == seq![logs("已加入发送队列: "@ + text::decimal(n as nat) + " 帧"@)]
        } else {
            self.pending@ == before.pending@ && fx == seq![
                logs("发送任务未加入队列: "@ + Self::queue_fault(before.pending@)),
            ]
        }
    }

    fn send_sequence(
        &mut self,
        frame: CanFrame,
        count: u64,
        id_increment: bool,
        data_increment: bool,
    ) -> (r: Vec<Effect>)
        requires
            old(self).wf(),
        ensures
            final(self).wf(),
            final(self).sends_sequence(
                old(self),
                frame@,
                count,
                id_increment,
                data_increment,
                effects_view(r@),
            ),
    {
        let mut fx: Vec<Effect> = Vec::new();
        assert(effects_view(fx@) =~= seq![]);
        if self.links.len() == 0 {
            fx.push(log_effect("发送失败: 当前没有已连接的 CAN 通道"));
            assert(effects_view(fx@) =~= seq![
                logs("发送失败: 当前没有已连接的 CAN 通道"@),
            ]);
            return fx;
        }
        let ghost n = Self::job_len(count as int);
        if let Some(job) = PendingSendJob::sequence(frame, count, id_increment, data_increment) {
            let ghost before = self.pending@;
            proof {
                assert(job.queued() =~= Seq::new(
                    n as nat,
                    |k: int| in_sequence(frame@, k as nat, id_increment, data_increment),
                ));
            }
            match enqueue_send_job(&mut self.pending, job) {
                Ok(queued) => {
                    fx.push(log_count("已加入发送队列: ", queued, " 帧"));
                    assert(self.pending@.drop_last() =~= before);
                    assert(effects_view(fx@) =~= seq![
                        logs("已加入发送队列: "@ + text::decimal(n as nat) + " 帧"@),
                    ]);
                },
                Err(error) => {
                    fx.push(log_with("发送任务未加入队列: ", error.as_str()));
                    assert(effects_view(fx@) =~= seq![
                        logs("发送任务未加入队列: "@ + Self::queue_fault(before)),
                    ]);
                },
            }
        }
        fx
    }

    /// What became of a batch: its length, or why it was not queued.
    pub open spec fn batch_outcome(before: &Controller, frames: Seq<FrameView>, repeat: u32) -> Result<
        u64,
        Seq<char>,
    > {
        let times = if repeat < 1 { 1int } else { repeat as int };
        let n = Self::job_len(frames.len() * times);
        if before.links@.len() == 0 {
            Err("当前没有已连接的 CAN 通道"@)
        } else if frames.len() == 0 {
            Err("批量发送列表不能为空"@)
        } else if Self::fits(before.pending@, n) {
            Ok(n as u64)
        } else {
            Err(Self::queue_fault(before.pending@))
        }
    }

    /// What a batch adds to the queue; whoever waits is told, and so is the log.
    pub open spec fn sends_batch(
        &self,
        before: &Controller,
        frames: Seq<FrameView>,
        repeat: u32,
        ack: Option<u64>,
        fx: Seq<EffectView>,
    ) -> bool {
        let outcome = Self::batch_outcome(before, frames, repeat);
        &&& self.same_but_pending(before)
        &&& match outcome {
            Ok(n) => {
                &&& self.pending@.len() == before.pending@.len() + 1
                &&& self.pending@.drop_last() == before.pending@
                &&& self.pending@.last().queued() == Seq::new(
                    n as nat,
                    |k: int| frames[k % frames.len() as int],
                )
            },
            Err(_) => self.pending@ == before.pending@,
        }
        &&& fx == seq![
            match outcome {
                Ok(n) => logs("批量发送已加入队列: "@ + text::decimal(n as nat) + " 帧"@),
                Err(error) => logs("批量发送任务未加入队列: "@ + error),
            },
        ] + (match ack {
            Some(who) => seq![EffectView::Acknowledge(who, outcome)],
            None => seq![],
        })
    }

    fn send_batch(&mut self, frames: Vec<CanFrame>, repeat: u32, ack: Option<u64>) -> (r: Vec<
        Effect,
    >)
        requires
            old(self).wf(),
        ensures
            final(self).wf(),
            final(self).sends_batch(
                old(self),
                frames_view(frames@),
                repeat,
                ack,
                effects_view(r@),
            ),
    {
        let mut fx: Vec<Effect> = Vec::new();
        let ghost before = self.pending@;
        let ghost list = frames_view(frames@);
        let times: u32 = if repeat < 1 {
            1
        } else {
            repeat
        };
        let outcome: Result<u64, String> = if self.links.len() == 0 {
            Err("当前没有已连接的 CAN 通道".to_owned())
        } else {
            match PendingSendJob::batch(frames, times) {
                None => Err("批量发送列表不能为空".to_owned()),
                Some(job) => {
                    proof {
                        let n = Self::job_len(list.len() * times);
                        assert(job.queued() =~= Seq::new(
                            n as nat,
                            |k: int| list[k % list.len() as int],
                        )) by {
                            assert forall|k: int| 0 <= k < n implies #[trigger] job.queued()[k]
                                == list[k % list.len() as int] by {
                                let m = list.len() as int;
                                assert(0 <= k % m && k % m < m) by {
                                    vstd::arithmetic::div_mod::lemma_mod_bound(
                                        k,
                                        list.len() as int,
                                    );
                                }
                            }
                        }
                    }
                    let queued = enqueue_send_job(&mut self.pending, job);
                    proof {
                        if queued is Ok {
                            assert(self.pending@.drop_last() =~= before);
                        }
                    }
                    queued
                },
            }
        };
        match &outcome {
            Ok(queued) => {
                fx.push(log_count("批量发送已加入队列: ", *queued, " 帧"));
            },
            Err(error) => {
                fx.push(log_with("批量发送任务未加入队列: ", error.as_str()));
            },
        }
        let ghost result = outcome_view(outcome);
        assert(result == Self::batch_outcome(old(self), list, repeat));
        if let Some(who) = ack {
            fx.push(Effect::Acknowledge(who, outcome));
        }
        assert(effects_view(fx@) =~= seq![
            match result {
                Ok(n) => logs("批量发送已加入队列: "@ + text::decimal(n as nat) + " 帧"@),
                Err(error) => logs("批量发送任务未加入队列: "@ + error),
            },
        ] + (match ack {
            Some(who) => seq![EffectView::Acknowledge(who, result)],
            None => seq![],
        }));
        fx
    }

    // ------------------------------------------------------------ periodic frames

    /// What setting a periodic frame changes: with repetitions left it replaces whatever the
    /// handle stood for, without any it ends a periodic frame.
    pub open spec fn sets_periodic(
        &self,
        before: &Controller,
        handle: u64,
        frame: CanFrame,
        period_ms: u64,
        repeat: i64,
        enable: bool,
        now: u64,
    ) -> bool {
        &&& self.same_but_jobs(before)
        &&& self.sims == before.sims
        &&& if enable && repeat != 0 {
            &&& self.dynamics.map() == before.dynamics.map().remove(handle)
            &&& self.periodics.map() == before.periodics.map().insert(
                handle,
                Periodic {
                    frame,
                    period: period_nanos(period_ms, 1),
                    next: now as u128,
                    remaining: repeat,
                    sent: 0,
                },
            )
        } else {
            &&& self.dynamics == before.dynamics
            &&& self.periodics.map() == before.periodics.map().remove(handle)
        }
    }

    fn set_periodic(
        &mut self,
        handle: u64,
        frame: CanFrame,
        period_ms: u64,
        repeat: i64,
        enable: bool,
        now: u64,
    )
        requires
            old(self).wf(),
        ensures
            final(self).wf(),
            final(self).sets_periodic(old(self), handle, frame, period_ms, repeat, enable, now),
    {
        let ghost rows = self.periodics.rows();
        if enable && repeat != 0 {
            let _ = self.dynamics.remove(handle);
            let millis: u64 = if period_ms < 1 {
                1
            } else {
                period_ms
            };
            let job = Periodic {
                frame,
                period: millis as u128 * 1_000_000,
                next: now as u128,
                remaining: repeat,
                sent: 0,
            };
            assert(job.wf());
            self.periodics.insert(handle, job);
            proof {
                lemma_insert_keeps(rows, self.periodics.rows(), handle, job);
            }
        } else {
            let _ = self.periodics.remove(handle);
            proof {
                lemma_remove_keeps(rows, self.periodics.rows(), handle);
            }
        }
    }

    /// What stopping a handle changes: neither kind of periodic frame goes on under it.
    pub open spec fn stops_periodic(&self, before: &Controller, handle: u64) -> bool {
        &&& self.same_but_jobs(before)
        &&& self.sims == before.sims
        &&& self.periodics.map() == before.periodics.map().remove(handle)
        &&& self.dynamics.map() == before.dynamics.map().remove(handle)
    }

    fn stop_periodic(&mut self, handle: u64)
        requires
            old(self).wf(),
        ensures
            final(self).wf(),
            final(self).stops_periodic(old(self), handle),
    {
        let ghost rows = self.periodics.rows();
        stop_periodic_jobs(&mut self.periodics, &mut self.dynamics, handle);
        proof {
            lemma_remove_keeps(rows, self.periodics.rows(), handle);
        }
    }

    /// What setting a frame that is encoded each time changes.
    pub open spec fn sets_dynamic(
        &self,
        before: &Controller,
        handle: u64,
        config: Option<DynamicPeriodicConfig>,
        now: u64,
    ) -> bool {
        &&& self.same_but_jobs(before)
        &&& self.sims == before.sims
        &&& self.periodics.map() == before.periodics.map().remove(handle)
        &&& self.dynamics.map() == match config {
            Some(c) => if c.repeat != 0 {
                before.dynamics.map().insert(
                    handle,
                    DynamicPeriodic { sent: c.start_sent, next: now as u128, config: c },
                )
            } else {
                before.dynamics.map().remove(handle)
            },
            None => before.dynamics.map().remove(handle),
        }
    }

    fn set_dynamic(&mut self, handle: u64, config: Option<DynamicPeriodicConfig>, now: u64)
        requires
            old(self).wf(),
        ensures
            final(self).wf(),
            final(self).sets_dynamic(old(self), handle, config, now),
    {
        let ghost rows = self.periodics.rows();
        let _ = self.periodics.remove(handle);
        proof {
            lemma_remove_keeps(rows, self.periodics.rows(), handle);
        }
        match config {
            Some(c) => {
                if c.repeat != 0 {
                    let sent: u64 = c.start_sent;
                    self.dynamics.insert(
                        handle,
                        DynamicPeriodic { sent, next: now as u128, config: c },
                    );
                } else {
                    let _ = self.dynamics.remove(handle);
                }
            },
            None => {
                let _ = self.dynamics.remove(handle);
            },
        }
    }

    /// What setting the simulated frames changes: they replace the ones before, all due at once.
    pub open spec fn sets_simulation(
        &self,
        before: &Controller,
        configs: Seq<SimPeriodicConfig>,
        now: u64,
    ) -> bool {
        &&& self.same_but_jobs(before)
        &&& self.periodics == before.periodics
        &&& self.dynamics == before.dynamics
        &&& self.sims@.len() == configs.len()
        &&& forall|i: int|
            0 <= i < configs.len() ==> started_from(#[trigger] self.sims@[i], configs[i], now)
    }

    fn set_simulation(&mut self, configs: Vec<SimPeriodicConfig>, now: u64)
        requires
            old(self).wf(),
        ensures
            final(self).wf(),
            final(self).sets_simulation(old(self), configs@, now),
    {
        let mut rest = configs;
        let ghost all = rest@;
        let mut reversed: Vec<SimPeriodic> = Vec::new();
        while rest.len() > 0
            invariant
                rest@.len() + reversed@.len() == all.len(),
                rest@ == all.take(rest@.len() as int),
                forall|i: int|
                    0 <= i < reversed@.len() ==> started_from(
                        #[trigger] reversed@[i],
                        all[all.len() - 1 - i],
                        now,
                    ),
            decreases rest@.len(),
        {
            let ghost n = rest@.len();
            match rest.pop() {
                Some(c) => {
                    reversed.push(SimPeriodic::start(c, now));
                    assert(rest@ =~= all.take(n - 1));
                },
                None => {},
            }
        }
        let mut sims: Vec<SimPeriodic> = Vec::new();
        while reversed.len() > 0
            invariant
                sims@.len() + reversed@.len() == all.len(),
                forall|i: int|
                    0 <= i < reversed@.len() ==> started_from(
                        #[trigger] reversed@[i],
                        all[all.len() - 1 - i],
                        now,
                    ),
                forall|i: int|
                    0 <= i < sims@.len() ==> started_from(#[trigger] sims@[i], all[i], now),
            decreases reversed@.len(),
        {
            match reversed.pop() {
                Some(p) => {
                    sims.push(p);
                },
                None => {},
            }
        }
        self.sims = sims;
    }

    // ------------------------------------------------------------ replaying

    /// The event that shows the position of a replay, waiting for room.
    pub open spec fn shows_position(p: &Playback, playing: bool) -> EffectView {
        EffectView::Critical(EvtView::Playback(p.idx, p.frames@.len() as usize, playing), 250)
    }

    /// What loading a recording changes.
    pub open spec fn loads(
        &self,
        before: &Controller,
        frames: Vec<CanFrame>,
        now: u64,
        fx: Seq<EffectView>,
    ) -> bool {
        &&& self.same_but_playback(before)
        &&& self.playback == Some(
            Playback {
                frames,
                idx: 0,
                online: false,
                speed_ppm: 1_000_000,
                playing: false,
                paused: false,
                base: now,
                base_t: 0,
                loop_play: false,
            },
        )
        &&& fx == seq![
            logs("已载入回放文件，共 "@ + text::decimal(frames@.len()) + " 帧"@),
            EffectView::Critical(EvtView::Playback(0, frames@.len() as usize, false), 250),
        ]
    }

    fn load(&mut self, frames: Vec<CanFrame>, now: u64) -> (r: Vec<Effect>)
        requires
            old(self).wf(),
        ensures
            final(self).wf(),
            final(self).loads(old(self), frames, now, effects_view(r@)),
    {
        let total: usize = frames.len();
        let mut fx: Vec<Effect> = Vec::new();
        self.playback = Some(Playback::load(frames, now));
        fx.push(log_count("已载入回放文件，共 ", total as u64, " 帧"));
        fx.push(Effect::Critical(Evt::Playback(0, total, false), 250));
        assert(effects_view(fx@) =~= seq![
            logs("已载入回放文件，共 "@ + text::decimal(frames@.len()) + " 帧"@),
            EffectView::Critical(EvtView::Playback(0, frames@.len() as usize, false), 250),
        ]);
        fx
    }

    /// The message at the start of a replay.
    pub open spec fn play_text(online: bool, speed_ppm: i64, speed_text: Seq<char>) -> Seq<char> {
        "开始回放（"@ + (if online { "在线"@ } else { "离线"@ }) + "，"@ + (if speed_ppm <= 0 {
            "尽可能快"@
        } else {
            speed_text + "x"@
        }) + "）"@
    }

    /// What starting a replay changes; without a recording nothing.
    pub open spec fn plays(
        &self,
        before: &Controller,
        online: bool,
        speed_ppm: i64,
        speed_text: Seq<char>,
        loop_play: bool,
        now: u64,
        fx: Seq<EffectView>,
    ) -> bool {
        &&& self.same_but_playback(before)
        &&& match before.playback {
            None => self.playback is None && fx.len() == 0,
            Some(p) => {
                let idx = if p.idx >= p.frames@.len() { 0usize } else { p.idx };
                &&& self.playback == Some(
                    Playback {
                        idx,
                        online,
                        speed_ppm,
                        loop_play,
                        playing: true,
                        paused: false,
                        base: now,
                        base_t: if idx < p.frames@.len() { p.frames@[idx as int].t } else { 0 },
                        ..p
                    },
                )
                &&& fx == seq![logs(Self::play_text(online, speed_ppm, speed_text))]
            },
        }
    }

    fn play(
        &mut self,
        online: bool,
        speed_ppm: i64,
        speed_text: String,
        loop_play: bool,
        now: u64,
    ) -> (r: Vec<Effect>)
        requires
            old(self).wf(),
        ensures
            final(self).wf(),
            final(self).plays(
                old(self),
                online,
                speed_ppm,
                speed_text@,
                loop_play,
                now,
                effects_view(r@),
            ),
    {
        let mut fx: Vec<Effect> = Vec::new();
        match self.playback.take() {
            None => {},
            Some(p) => {
                let mut p = p;
                p.play(online, speed_ppm, loop_play, now);
                self.playback = Some(p);
                let mut message = "开始回放（".to_owned();
                if online {
                    message.push_str("在线");
                } else {
                    message.push_str("离线");
                }
                message.push_str("，");
                if speed_ppm <= 0 {
                    message.push_str("尽可能快");
                } else {
                    message.push_str(speed_text.as_str());
                    message.push_str("x");
                }
                message.push_str("）");
                assert(message@ =~= Self::play_text(online, speed_ppm, speed_text@));
                fx.push(Effect::Event(Evt::Log(message)));
                assert(effects_view(fx@) =~= seq![
                    logs(Self::play_text(online, speed_ppm, speed_text@)),
                ]);
            },
        }
        fx
    }

    /// What pausing changes.
    pub open spec fn pauses(&self, before: &Controller, fx: Seq<EffectView>) -> bool {
        &&& self.same_but_playback(before)
        &&& match before.playback {
            None => self.playback is None && fx.len() == 0,
            Some(p) => self.playback == Some(Playback { paused: true, ..p }) && fx == seq![
                Self::shows_position(&p, false),
            ],
        }
    }

    fn pause(&mut self) -> (r: Vec<Effect>)
        requires
            old(self).wf(),
        ensures
            final(self).wf(),
            final(self).pauses(old(self), effects_view(r@)),
    {
        let mut fx: Vec<Effect> = Vec::new();
        match self.playback.take() {
            None => {},
            Some(p) => {
                let mut p = p;
                p.pause();
                fx.push(Effect::Critical(Evt::Playback(p.idx, p.frames.len(), false), 250));
                self.playback = Some(p);
                assert(effects_view(fx@) =~= seq![
                    Self::shows_position(&old(self).playback->0, false),
                ]);
            },
        }
        fx
    }

    /// What cancelling changes.
    pub open spec fn cancels(&self, before: &Controller, fx: Seq<EffectView>) -> bool {
        &&& self.same_but_playback(before)
        &&& match before.playback {
            None => self.playback is None && fx.len() == 0,
            Some(p) => self.playback == Some(
                Playback { idx: 0, playing: false, paused: false, ..p },
            ) && fx == seq![
                EffectView::Critical(EvtView::Playback(0, p.frames@.len() as usize, false), 250),
                logs("已取消回放"@),
            ],
        }
    }

    fn cancel(&mut self) -> (r: Vec<Effect>)
        requires
            old(self).wf(),
        ensures
            final(self).wf(),
            final(self).cancels(old(self), effects_view(r@)),
    {
        let mut fx: Vec<Effect> = Vec::new();
        match self.playback.take() {
            None => {},
            Some(p) => {
                let mut p = p;
                p.cancel();
                fx.push(Effect::Critical(Evt::Playback(0, p.frames.len(), false), 250));
                fx.push(log_effect("已取消回放"));
                self.playback = Some(p);
                assert(effects_view(fx@) =~= seq![
                    EffectView::Critical(
                        EvtView::Playback(
                            0,
                            old(self).playback->0.frames@.len() as usize,
                            false,
                        ),
                        250,
                    ),
                    logs("已取消回放"@),
                ]);
            },
        }
        fx
    }

    /// What seeking changes; an empty recording has no positions.
    pub open spec fn seeks(&self, before: &Controller, frac: Ratio, now: u64, fx: Seq<EffectView>) -> bool {
        &&& self.same_but_playback(before)
        &&& match before.playback {
            None => self.playback is None && fx.len() == 0,
            Some(p) => if p.frames@.len() == 0 {
                self.playback == before.playback && fx.len() == 0
            } else {
                let at = p.position_for(frac);
                &&& self.playback == Some(
                    Playback { idx: at as usize, base: now, base_t: p.frames@[at].t, ..p },
                )
                &&& fx == seq![
                    EffectView::Critical(
                        EvtView::Playback(at as usize, p.frames@.len() as usize, p.playing),
                        250,
                    ),
                ]
            },
        }
    }

    fn seek(&mut self, frac: Ratio, now: u64) -> (r: Vec<Effect>)
        requires
            old(self).wf(),
        ensures
            final(self).wf(),
            final(self).seeks(old(self), frac, now, effects_view(r@)),
    {
        let mut fx: Vec<Effect> = Vec::new();
        match self.playback.take() {
            None => {},
            Some(p) => {
                let mut p = p;
                if p.seek(frac, now) {
                    fx.push(
                        Effect::Critical(Evt::Playback(p.idx, p.frames.len(), p.playing), 250),
                    );
                    proof {
                        let q = old(self).playback->0;
                        assert(effects_view(fx@) =~= seq![
                            EffectView::Critical(
                                EvtView::Playback(
                                    q.position_for(frac) as usize,
                                    q.frames@.len() as usize,
                                    q.playing,
                                ),
                                250,
                            ),
                        ]);
                    }
                }
                self.playback = Some(p);
            },
        }
        fx
    }

    /// What a single step asks for: it stops the replay and covers a tenth of a second.
    pub open spec fn steps(&self, before: &Controller, fx: Seq<EffectView>) -> bool {
        &&& self.same_but_playback(before)
        &&& match before.playback {
            None => self.playback is None && fx.len() == 0,
            Some(p) => {
                &&& self.playback == Some(Playback { playing: false, ..p })
                &&& fx == seq![
                    EffectView::Step {
                        end: crate::can::playback::run_end(
                            p.frames@,
                            p.idx as int,
                            p.time_here() + PLAYBACK_STEP,
                        ) as usize,
                        online: p.online,
                    },
                ]
            },
        }
    }

    fn step(&mut self) -> (r: Vec<Effect>)
        requires
            old(self).wf(),
        ensures
            final(self).wf(),
            final(self).steps(old(self), effects_view(r@)),
    {
        let mut fx: Vec<Effect> = Vec::new();
        match self.playback.take() {
            None => {},
            Some(p) => {
                let mut p = p;
                let end: usize = p.begin_step();
                fx.push(Effect::Step { end, online: p.online });
                self.playback = Some(p);
                proof {
                    let q = old(self).playback->0;
                    assert(effects_view(fx@) =~= seq![
                        EffectView::Step {
                            end: crate::can::playback::run_end(
                                q.frames@,
                                q.idx as int,
                                q.time_here() + PLAYBACK_STEP,
                            ) as usize,
                            online: q.online,
                        },
                    ]);
                }
            },
        }
        fx
    }

    /// The event after a step: the position it reached.
    pub fn stepped(&self) -> (r: Option<Effect>)
        ensures
            match self.playback {
                None => r is None,
                Some(p) => r matches Some(e) && e@ == Self::shows_position(&p, false),
            },
    {
        match &self.playback {
            None => None,
            Some(p) => Some(Effect::Critical(Evt::Playback(p.idx, p.frames.len(), false), 250)),
        }
    }

    // ------------------------------------------------------------ ending

    /// What a shutdown leaves and asks for.
    pub open spec fn shuts_down(&self, before: &Controller, fx: Seq<EffectView>) -> bool {
        &&& self.idle()
        &&& self.same_history(before)
        &&& self.loss_streaks.map() == Map::<u64, (u8, u64)>::empty()
        &&& self.sims@.len() == 0
        &&& self.playback == before.playback
        &&& fx == seq![
            EffectView::CloseAdapters,
            EffectView::ClearDevices,
            EffectView::Critical(EvtView::ShutdownFinished, 1000),
            EffectView::Exit,
        ]
    }

    /// Shuts the controller down.
    pub fn shutdown(&mut self) -> (r: Vec<Effect>)
        requires
            old(self).wf(),
        ensures
            final(self).wf(),
            final(self).shuts_down(old(self), effects_view(r@)),
    {
        self.go_idle();
        self.sims.clear();
        let mut fx: Vec<Effect> = Vec::new();
        fx.push(Effect::CloseAdapters);
        fx.push(Effect::ClearDevices);
        fx.push(Effect::Critical(Evt::ShutdownFinished, 1000));
        fx.push(Effect::Exit);
        assert(effects_view(fx@) =~= seq![
            EffectView::CloseAdapters,
            EffectView::ClearDevices,
            EffectView::Critical(EvtView::ShutdownFinished, 1000),
            EffectView::Exit,
        ]);
        fx
    }

    // ------------------------------------------------------------ commands

    /// What a command changes and asks for.
    pub open spec fn obeys(
        &self,
        before: &Controller,
        cmd: Cmd,
        now: u64,
        t: i64,
        fx: Seq<EffectView>,
    ) -> bool {
        match cmd {
            Cmd::Connect => self.connects_first(before, fx),
            Cmd::ConnectConfig(cfg) => self.connects(before, seq![cfg@], fx),
            Cmd::ConnectChannels(cfgs) => self.connects(before, configs_view(cfgs@), fx),
            Cmd::Disconnect => self.disconnects(before, fx),
            Cmd::Start => self.starts(before, fx),
            Cmd::Stop => self.stops(before, fx),
            Cmd::SendOnce(f) => self.sends_once(before, f@, t, fx),
            Cmd::SendSequence { frame, count, id_increment, data_increment } => self.sends_sequence(
                before,
                frame@,
                count,
                id_increment,
                data_increment,
                fx,
            ),
            Cmd::SendBatch { frames, repeat, ack } => self.sends_batch(
                before,
                frames_view(frames@),
                repeat,
                ack,
                fx,
            ),
            Cmd::OtaRun(job) => *self == *before && fx == seq![EffectView::Update(job)],
            Cmd::SetPeriodic { handle, frame, period_ms, repeat, enable } => self.sets_periodic(
                before,
                handle,
                frame,
                period_ms,
                repeat,
                enable,
                now,
            ) && fx.len() == 0,
            Cmd::StopPeriodic { handle } => self.stops_periodic(before, handle) && fx.len() == 0,
            Cmd::SetDynamicPeriodic { handle, config } => self.sets_dynamic(
                before,
                handle,
                config,
                now,
            ) && fx.len() == 0,
            Cmd::SetSimulationPeriodics(configs) => self.sets_simulation(before, configs@, now)
                && fx.len() == 0,
            Cmd::PlaybackLoad(frames) => self.loads(before, frames, now, fx),
            Cmd::PlaybackPlay { online, speed_ppm, speed_text, loop_play } => self.plays(
                before,
                online,
                speed_ppm,
                speed_text@,
                loop_play,
                now,
                fx,
            ),
            Cmd::PlaybackStep => self.steps(before, fx),
            Cmd::PlaybackPause => self.pauses(before, fx),
            Cmd::PlaybackCancel => self.cancels(before, fx),
            Cmd::PlaybackSeek(frac) => self.seeks(before, frac, now, fx),
            Cmd::Shutdown => self.shuts_down(before, fx),
        }
    }

    /// Obeys a command. `now` is the time in nanoseconds, `t` the time as frames carry it.
    pub fn command(&mut self, cmd: Cmd, now: u64, t: i64) -> (r: Vec<Effect>)
        requires
            old(self).wf(),
        ensures
            final(self).wf(),
            final(self).obeys(old(self), cmd, now, t, effects_view(r@)),
    {
        match cmd {
            Cmd::Connect => {
                self.start_over();
                let mut fx: Vec<Effect> = Vec::new();
                fx.push(Effect::BeginTimestampSession);
                fx.push(Effect::OpenFirst);
                assert(effects_view(fx@) =~= seq![
                    EffectView::BeginTimestampSession,
                    EffectView::OpenFirst,
                ]);
                fx
            },
            Cmd::ConnectConfig(cfg) => {
                let mut cfgs: Vec<DeviceConfig> = Vec::new();
                cfgs.push(cfg);
                assert(configs_view(cfgs@) =~= seq![cfg@]);
                self.connect_channels(cfgs)
            },
            Cmd::ConnectChannels(cfgs) => self.connect_channels(cfgs),
            Cmd::Disconnect => self.disconnect(),
            Cmd::Start => self.start(),
            Cmd::Stop => self.stop(),
            Cmd::SendOnce(f) => {
                let mut fx: Vec<Effect> = Vec::new();
                assert(effects_view(fx@) =~= seq![]);
                if self.links.len() > 0 {
                    let mut frame = f;
                    frame.t = t;
                    fx.push(Effect::Transmit(frame));
                    assert(effects_view(fx@) =~= seq![EffectView::Transmit(frame@)]);
                }
                fx
            },
            Cmd::SendSequence { frame, count, id_increment, data_increment } => self.send_sequence(
                frame,
                count,
                id_increment,
                data_increment,
            ),
            Cmd::SendBatch { frames, repeat, ack } => self.send_batch(frames, repeat, ack),
            Cmd::OtaRun(job) => {
                let mut fx: Vec<Effect> = Vec::new();
                fx.push(Effect::Update(job));
                assert(effects_view(fx@) =~= seq![EffectView::Update(job)]);
                fx
            },
            Cmd::SetPeriodic { handle, frame, period_ms, repeat, enable } => {
                self.set_periodic(handle, frame, period_ms, repeat, enable, now);
                Vec::new()
            },
            Cmd::StopPeriodic { handle } => {
                self.stop_periodic(handle);
                Vec::new()
            },
            Cmd::SetDynamicPeriodic { handle, config } => {
                self.set_dynamic(handle, config, now);
                Vec::new()
            },
            Cmd::SetSimulationPeriodics(configs) => {
                self.set_simulation(configs, now);
                Vec::new()
            },
            Cmd::PlaybackLoad(frames) => self.load(frames, now),
            Cmd::PlaybackPlay { online, speed_ppm, speed_text, loop_play } => self.play(
                online,
                speed_ppm,
                speed_text,
                loop_play,
                now,
            ),
            Cmd::PlaybackStep => self.step(),
            Cmd::PlaybackPause => self.pause(),
            Cmd::PlaybackCancel => self.cancel(),
            Cmd::PlaybackSeek(frac) => self.seek(frac, now),
            Cmd::Shutdown => self.shutdown(),
        }
    }

    // ------------------------------------------------------------ supervision

    /// `a + b`, held at the end of the range.
    pub open spec fn capped(a: u64, b: u64) -> u64 {
        if a + b > u64::MAX {
            u64::MAX
        } else {
            (a + b) as u64
        }
    }

    /// Takes the report of one adapter. Gives the message to write, where it is worth one, and the
    /// reason where the loss of the connection is now confirmed. `watch` is false once another
    /// adapter was found lost in the same round.
    pub fn polled(&mut self, channel: u8, report: PollReport, watch: bool, now: u64) -> (r: (
        Option<String>,
        Option<String>,
    ))
        requires
            old(self).wf(),
        ensures
            final(self).wf(),
            final(self).same_links(old(self)),
            final(self).same_jobs(old(self)),
            final(self).pending == old(self).pending,
            final(self).playback == old(self).playback,
            final(self).send_errors == old(self).send_errors,
            final(self).last_health_report == old(self).last_health_report,
            final(self).hardware_overruns == Self::capped(
                old(self).hardware_overruns,
                report.receive_overruns,
            ),
            final(self).hardware_errors == Self::capped(
                old(self).hardware_errors,
                report.driver_errors,
            ),
            match report.message {
                Some(m) => remembers(
                    old(self).adapter_errors.map(),
                    channel,
                    m@,
                    now,
                    final(self).adapter_errors.map(),
                ),
                None => final(self).adapter_errors == old(self).adapter_errors,
            },
            r.0 is Some <==> (report.message matches Some(m) && worth_logging(
                old(self).adapter_errors.map(),
                channel,
                m@,
                now,
            )),
            r.0 matches Some(line) ==> line@ == can_then(
                channel,
                ": "@ + optional_text(report.message)->0,
            ),
            r.1 is Some <==> watch && report.connection_lost && next_streak(
                streak_of(old(self).loss_streaks.map(), channel),
                now,
            ).0 >= CONNECTION_LOSS_CONFIRMATIONS,
            r.1 matches Some(reason) ==> reason@ == match report.message {
                Some(m) => m@,
                None => "设备连接已丢失"@,
            },
            final(self).loss_streaks.map() == if watch && report.connection_lost {
                old(self).loss_streaks.map().insert(
                    channel as u64,
                    next_streak(streak_of(old(self).loss_streaks.map(), channel), now),
                )
            } else {
                old(self).loss_streaks.map()
            },
    {
        self.hardware_overruns = self.hardware_overruns.saturating_add(report.receive_overruns);
        self.hardware_errors = self.hardware_errors.saturating_add(report.driver_errors);
        let mut line: Option<String> = None;
        let reason = match &report.message {
            Some(m) => m.clone(),
            None => "设备连接已丢失".to_owned(),
        };
        if let Some(m) = &report.message {
            if should_log_send_error(&mut self.adapter_errors, channel, m.as_str(), now) {
                let mut out = "CAN".to_owned();
                text::push_decimal(&mut out, channel as u64);
                out.push_str(": ");
                out.push_str(m.as_str());
                assert(out@ =~= can_then(channel, ": "@ + m@));
                line = Some(out);
            }
        }
        let mut fatal: Option<String> = None;
        if watch && connection_loss_confirmed(
            &mut self.loss_streaks,
            channel,
            report.connection_lost,
            now,
        ) {
            fatal = Some(reason);
        }
        (line, fatal)
    }

    /// Ends the connection because an adapter is lost.
    pub fn lost(&mut self, channel: u8, reason: String) -> (r: Vec<Effect>)
        requires
            old(self).wf(),
        ensures
            final(self).wf(),
            final(self).idle(),
            final(self).same_history(old(self)),
            final(self).loss_streaks.map() == Map::<u64, (u8, u64)>::empty(),
            final(self).sims == old(self).sims,
            final(self).playback == old(self).playback,
            effects_view(r@) == seq![
                EffectView::CloseAdapters,
                EffectView::ClearDevices,
                EffectView::Event(EvtView::Running(false)),
                shows_disconnected(Some(reason@)),
                logs(can_then(channel, " 设备连接已丢失，采集已安全停止: "@ + reason@)),
            ],
    {
        self.go_idle();
        let mut fx: Vec<Effect> = Vec::new();
        fx.push(Effect::CloseAdapters);
        fx.push(Effect::ClearDevices);
        fx.push(running_event(false));
        let mut line = "CAN".to_owned();
        text::push_decimal(&mut line, channel as u64);
        line.push_str(" 设备连接已丢失，采集已安全停止: ");
        line.push_str(reason.as_str());
        assert(line@ =~= can_then(channel, " 设备连接已丢失，采集已安全停止: "@ + reason@));
        fx.push(disconnected_event(Some(reason)));
        fx.push(Effect::Event(Evt::Log(line)));
        assert(effects_view(fx@) =~= seq![
            EffectView::CloseAdapters,
            EffectView::ClearDevices,
            EffectView::Event(EvtView::Running(false)),
            shows_disconnected(Some(reason@)),
            logs(can_then(channel, " 设备连接已丢失，采集已安全停止: "@ + reason@)),
        ]);
        fx
    }

    /// Whether a health report is due; if so the time is remembered.
    pub fn health_report_due(&mut self, now: u64) -> (r: bool)
        requires
            old(self).wf(),
        ensures
            final(self).wf(),
            r == is_due(Some(old(self).last_health_report), now, HEALTH_REPORT_INTERVAL),
            *final(self) == (Controller {
                last_health_report: if r {
                    now
                } else {
                    old(self).last_health_report
                },
                ..*old(self)
            }),
    {
        if due(Some(self.last_health_report), now, HEALTH_REPORT_INTERVAL) {
            self.last_health_report = now;
            true
        } else {
            false
        }
    }

    /// The message on a failed transmission of a channel, where it is worth one.
    pub fn send_failed(&mut self, channel: u8, head: &str, error: &str, now: u64) -> (r: Option<
        String,
    >)
        requires
            old(self).wf(),
        ensures
            final(self).wf(),
            final(self).same_links(old(self)),
            final(self).same_jobs(old(self)),
            final(self).pending == old(self).pending,
            final(self).playback == old(self).playback,
            final(self).hardware_overruns == old(self).hardware_overruns,
            final(self).hardware_errors == old(self).hardware_errors,
            final(self).adapter_errors == old(self).adapter_errors,
            final(self).loss_streaks == old(self).loss_streaks,
            final(self).last_health_report == old(self).last_health_report,
            remembers(
                old(self).send_errors.map(),
                channel,
                error@,
                now,
                final(self).send_errors.map(),
            ),
            r is Some <==> worth_logging(old(self).send_errors.map(), channel, error@, now),
            r matches Some(line) ==> line@ == head@ + error@,
    {
        if should_log_send_error(&mut self.send_errors, channel, error, now) {
            let mut line = head.to_owned();
            line.push_str(error);
            Some(line)
        } else {
            None
        }
    }

    /// Counts a transmission of a periodic frame; the events that follow from it.
    pub fn periodic_sent(&mut self, handle: u64) -> (r: Option<(u64, bool)>)
        requires
            old(self).wf(),
        ensures
            final(self).wf(),
            final(self).same_but_jobs(old(self)),
            final(self).dynamics == old(self).dynamics,
            final(self).sims == old(self).sims,
            r is Some <==> old(self).periodics.map().dom().contains(handle),
            final(self).periodics.map().dom() =~= old(self).periodics.map().dom(),
            r is None ==> final(self).periodics.map() == old(self).periodics.map(),
            forall|h: u64|
                h != handle && old(self).periodics.map().dom().contains(h)
                    ==> #[trigger] final(self).periodics.map()[h] == old(self).periodics.map()[h],
            r matches Some((sent, done)) ==> {
                let job = old(self).periodics.map()[handle];
                &&& same_job(final(self).periodics.map()[handle], after_sending(job))
                &&& sent == (job.sent + 1) % 0x1_0000_0000_0000_0000
                &&& done == (job.remaining == 1)
            },
    {
        match count_sent(&mut self.periodics, handle) {
            Some(s) => Some((s.sent, s.done)),
            None => None,
        }
    }

    /// Removes a periodic frame that is done.
    pub fn periodic_done(&mut self, handle: u64) -> (r: Evt)
        requires
            old(self).wf(),
        ensures
            final(self).wf(),
            final(self).same_but_jobs(old(self)),
            final(self).dynamics == old(self).dynamics,
            final(self).sims == old(self).sims,
            final(self).periodics.map() == old(self).periodics.map().remove(handle),
            r@ == EvtView::PeriodicDone(handle),
    {
        let ghost rows = self.periodics.rows();
        let _ = self.periodics.remove(handle);
        proof {
            lemma_remove_keeps(rows, self.periodics.rows(), handle);
        }
        Evt::PeriodicDone(handle)
    }

    /// Removes an encoded frame that is done or failed.
    pub fn dynamic_done(&mut self, handle: u64) -> (r: Evt)
        requires
            old(self).wf(),
        ensures
            final(self).wf(),
            final(self).same_but_jobs(old(self)),
            final(self).periodics == old(self).periodics,
            final(self).sims == old(self).sims,
            final(self).dynamics.map() == old(self).dynamics.map().remove(handle),
            r@ == EvtView::PeriodicDone(handle),
    {
        let _ = self.dynamics.remove(handle);
        Evt::PeriodicDone(handle)
    }

    /// Milliseconds to wait before the next slice.
    pub fn pause_millis(&self, replaying: bool) -> (r: u64)
        ensures
            r == if self.running || replaying {
                1u64
            } else {
                10u64
            },
    {
        if self.running || replaying {
            1
        } else {
            10
        }
    }
}

/// A simulated frame at its start: its configuration, with all signals due at once.
pub open spec fn started_from(p: SimPeriodic, config: SimPeriodicConfig, now: u64) -> bool {
    &&& p.frame == config.frame
    &&& p.has_dbc == config.has_dbc
    &&& p.dbc_id == config.dbc_id
    &&& !p.failed
    &&& p.generators@.len() == config.generators@.len()
    &&& forall|i: int|
        0 <= i < config.generators@.len() ==> (#[trigger] p.generators@[i]).config
            == config.generators@[i] && p.generators@[i].next == now && p.generators@[i].tick == 0
}

proof fn lemma_insert_keeps(
    before: Seq<(u64, Periodic)>,
    after: Seq<(u64, Periodic)>,
    handle: u64,
    job: Periodic,
)
    requires
        crate::table::distinct_handles(before),
        crate::table::distinct_handles(after),
        jobs_wf(before),
        job.wf(),
        entries_map(after) == entries_map(before).insert(handle, job),
    ensures
        jobs_wf(after),
{
    crate::table::lemma_entries_map(before);
    crate::table::lemma_entries_map(after);
    assert forall|i: int| 0 <= i < after.len() implies (#[trigger] after[i]).1.wf() by {
        let k = after[i].0;
        assert(entries_map(after)[k] == after[i].1);
        assert(entries_map(after).dom().contains(k));
        if k != handle {
            assert(entries_map(before).dom().contains(k));
            let j = choose|j: int| 0 <= j < before.len() && (#[trigger] before[j]).0 == k;
            assert(before[j].1.wf());
            assert(entries_map(before)[before[j].0] == before[j].1);
        }
    }
}

proof fn lemma_remove_keeps(before: Seq<(u64, Periodic)>, after: Seq<(u64, Periodic)>, handle: u64)
    requires
        crate::table::distinct_handles(before),
        crate::table::distinct_handles(after),
        jobs_wf(before),
        entries_map(after) == entries_map(before).remove(handle),
    ensures
        jobs_wf(after),
{
    crate::table::lemma_entries_map(before);
    crate::table::lemma_entries_map(after);
    assert forall|i: int| 0 <= i < after.len() implies (#[trigger] after[i]).1.wf() by {
        let k = after[i].0;
        assert(entries_map(after)[k] == after[i].1);
        assert(entries_map(after).dom().contains(k));
        assert(entries_map(before).dom().contains(k));
        let j = choose|j: int| 0 <= j < before.len() && (#[trigger] before[j]).0 == k;
        assert(before[j].1.wf());
        assert(entries_map(before)[before[j].0] == before[j].1);
    }
}

/// The batches of a capture: the frames on their channel, in pieces of at most a batch.
pub open spec fn batch_at(frames: Seq<FrameView>, channel: u8, i: int) -> Seq<FrameView> {
    let start = i * CAPTURE_BATCH;
    let end = if start + CAPTURE_BATCH < frames.len() {
        start + CAPTURE_BATCH
    } else {
        frames.len() as int
    };
    frames.subrange(start, end).map_values(|f: FrameView| FrameView { ch: channel, ..f })
}

/// Splits captured frames into batches and puts them on their channel.
pub fn capture_batches(frames: &[CanFrame], channel: u8) -> (r: Vec<Vec<CanFrame>>)
    ensures
        r@.len() == (frames@.len() + CAPTURE_BATCH - 1) / CAPTURE_BATCH as int,
        forall|i: int|
            0 <= i < r@.len() ==> frames_view((#[trigger] r@[i])@) == batch_at(
                frames_view(frames@),
                channel,
                i,
            ),
{
    let ghost all = frames_view(frames@);
    let ghost on = |f: FrameView| FrameView { ch: channel, ..f };
    let mut out: Vec<Vec<CanFrame>> = Vec::new();
    let mut at: usize = 0;
    while at < frames.len()
        invariant
            all == frames_view(frames@),
            on == (|f: FrameView| FrameView { ch: channel, ..f }),
            at <= frames@.len(),
            at < frames@.len() ==> at == out@.len() * CAPTURE_BATCH,
            at == frames@.len() ==> out@.len() == (frames@.len() + CAPTURE_BATCH - 1)
                / CAPTURE_BATCH as int,
            forall|i: int|
                0 <= i < out@.len() ==> frames_view((#[trigger] out@[i])@) == batch_at(
                    all,
                    channel,
                    i,
                ),
        decreases frames@.len() - at,
    {
        let end: usize = if frames.len() - at > CAPTURE_BATCH {
            at + CAPTURE_BATCH
        } else {
            frames.len()
        };
        let mut batch: Vec<CanFrame> = Vec::new();
        let mut i: usize = at;
        assert(frames_view(batch@) =~= all.subrange(at as int, at as int).map_values(on));
        while i < end
            invariant
                at <= i <= end <= frames@.len(),
                all == frames_view(frames@),
                on == (|f: FrameView| FrameView { ch: channel, ..f }),
                frames_view(batch@) == all.subrange(at as int, i as int).map_values(on),
            decreases end - i,
        {
            let mut f = frames[i].clone();
            f.ch = channel;
            let ghost b0 = batch@;
            batch.push(f);
            proof {
                assert(frames_view(batch@) =~= frames_view(b0).push(on(all[i as int])));
                assert(all.subrange(at as int, i + 1).map_values(on) =~= all.subrange(
                    at as int,
                    i as int,
                ).map_values(on).push(on(all[i as int])));
            }
            i += 1;
        }
        let ghost n = out@.len();
        out.push(batch);
        proof {
            assert(frames_view(batch@) == batch_at(all, channel, n as int));
            assert forall|k: int| 0 <= k < out@.len() implies frames_view((#[trigger] out@[k])@)
                == batch_at(all, channel, k) by {}
        }
        at = end;
    }
    out
}

/// A refused set of channels leaves the connection, its state and its periodic frames untouched.
pub proof fn law_refused_channels_change_nothing(
    before: Controller,
    after: Controller,
    cfgs: Seq<DeviceConfigView>,
    fx: Seq<EffectView>,
)
    requires
        after.connects(&before, cfgs, fx),
        set_fault(cfgs) is Some,
    ensures
        after.links == before.links,
        after.running == before.running,
        after.periodics == before.periodics,
        !fx.contains(EffectView::CloseAdapters),
{
    assert forall|i: int| 0 <= i < fx.len() implies fx[i] != EffectView::CloseAdapters by {}
}

/// After a handle is stopped nothing goes on under it, and everything else does: the other periodic
/// frames, the simulation, what waits to be sent, the replay and the connection are as they were.
pub proof fn law_stopped_handles_are_silent(before: Controller, after: Controller, handle: u64)
    requires
        after.stops_periodic(&before, handle),
    ensures
        !after.periodics.map().dom().contains(handle),
        !after.dynamics.map().dom().contains(handle),
        forall|other: u64|
            #![trigger after.periodics.map().dom().contains(other)]
            #![trigger after.periodics.map()[other]]
            other != handle ==> {
                &&& after.periodics.map().dom().contains(other)
                    <==> before.periodics.map().dom().contains(other)
                &&& before.periodics.map().dom().contains(other) ==> after.periodics.map()[other]
                    == before.periodics.map()[other]
            },
        forall|other: u64|
            #![trigger after.dynamics.map().dom().contains(other)]
            #![trigger after.dynamics.map()[other]]
            other != handle ==> {
                &&& after.dynamics.map().dom().contains(other)
                    <==> before.dynamics.map().dom().contains(other)
                &&& before.dynamics.map().dom().contains(other) ==> after.dynamics.map()[other]
                    == before.dynamics.map()[other]
            },
        after.sims == before.sims,
        after.same_but_jobs(&before),
{
}

} // verus!
