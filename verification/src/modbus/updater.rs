//! The state behind the windows of the simulated server: what they show and which values move.
use crate::ends::{hand_over, mpsc_held, mpsc_made, mpsc_offered, open_channel, MpscOutbox};
use crate::lists::lemma_pushed;
use crate::modbus::adu::traffic_text;
use crate::modbus::chart::ChartState;
use crate::modbus::csv::{build_server_csv, export_text};
use crate::modbus::grid::SlaveView;
use crate::modbus::log::{copy_lines, lines_view, logged, push_log, LogLine};
use crate::modbus::log::{LOG_LIMIT, TRAFFIC_LIMIT};
use crate::modbus::sim::{apply_sim, bump_one, bumped, simulated, Xorshift};
use crate::modbus::slave::SlaveEvent;
use crate::modbus::store::{apply_edit, edited, DataStore, StoreView};
use crate::modbus::commands::{rejection, ENGINE_CONTROL_QUEUE_CAPACITY};
use crate::modbus::traffic::{direction, loss_report, loss_text, push_traffic, LossCounts};
use crate::modbus::{Area, SimCfg};
use crate::table::Table;
use crate::text;
use tokio::sync::mpsc::{Receiver, Sender};
use vstd::prelude::*;

verus! {

/// Events of the server that may wait for its windows.
pub const EVENT_QUEUE_CAPACITY: usize = 1024;

/// A request of the user to the server. An edit carries what its text reads as; the settings of
/// the display are kept by the display itself.
#[derive(Debug)]
pub enum SlaveMsg {
    Edit { address: u16, bit: Option<bool>, word: Option<u16> },
    EditAt { area: Area, address: u16, bit: Option<bool>, word: Option<u16> },
    SetName { address: u16, name: String },
    SetCellFormat { address: u16, format: Option<u32> },
    ExportCsv(String),
    SetView(SlaveView),
    SetScaling,
    SetColors,
    SetValueNames,
    SimStart(SimCfg),
    SimStop,
    ToggleAutoInc { address: u16 },
}

/// The way requests of the user reach the server.
#[derive(Debug)]
pub struct SlaveHandle {
    pub ctrl: Sender<SlaveMsg>,
}

impl SlaveHandle {
    /// A way for requests and its other end.
    pub fn new() -> (r: (SlaveHandle, Receiver<SlaveMsg>))
        ensures
            mpsc_made(ENGINE_CONTROL_QUEUE_CAPACITY, r.0.ctrl, r.1),
    {
        let ends = open_channel::<SlaveMsg>(ENGINE_CONTROL_QUEUE_CAPACITY);
        (SlaveHandle { ctrl: ends.0 }, ends.1)
    }

    /// Hands a request over without waiting. Where it finds no room the user is told so.
    pub fn send(&self, m: SlaveMsg) -> (r: Option<String>)
        ensures
            mpsc_offered(self.ctrl, m, r is None),
            r matches Some(told) ==> told@ == "Slave control queue full: command rejected"@,
    {
        rejection(hand_over(&self.ctrl, m), "Slave control queue full: command rejected")
    }
}

/// The way events of the server reach its windows.
pub struct SlaveEvents {
    pub out: MpscOutbox<SlaveEvent>,
    pub health: LossCounts,
}

impl SlaveEvents {
    /// A way for events and its other end.
    pub fn new() -> (r: (SlaveEvents, Receiver<SlaveEvent>))
        ensures
            mpsc_made(EVENT_QUEUE_CAPACITY, r.0.out.end(), r.1),
            r.0.out.record().len() == 0,
            r.0.health == (LossCounts { dropped: 0, dropped_bytes: 0, high_watermark: 0 }),
    {
        let ends = open_channel::<SlaveEvent>(EVENT_QUEUE_CAPACITY);
        (SlaveEvents { out: MpscOutbox::new(ends.0), health: LossCounts::new() }, ends.1)
    }

    /// Hands an event over without waiting; one that finds no room is lost and counted.
    pub fn send_event(&mut self, event: SlaveEvent) -> (r: bool)
        ensures
            final(self).out.end() == old(self).out.end(),
            final(self).out.record() == old(self).out.record().push((event, r)),
            exists|depth: usize|
                final(self).health == #[trigger] old(self).health.counted(r, 0, depth) && (r
                    ==> mpsc_held(old(self).out.end(), depth)),
    {
        let accepted: bool = self.out.hand(event);
        let depth: usize = if accepted {
            self.out.depth()
        } else {
            0
        };
        self.health.count(accepted, 0, depth);
        assert(self.health == old(self).health.counted(accepted, 0, depth));
        accepted
    }
}

/// What is to be done after a request of the user.
#[derive(Debug)]
pub enum SlaveAction {
    /// The windows are to be drawn anew.
    Render,
    /// A text is to be written to a file.
    Write { path: String, text: String },
    /// The simulation is to be run at this interval.
    SimulateEvery(u64),
    Nothing,
}

/// The state behind the windows of the server.
#[derive(Debug)]
pub struct SlaveUpdater {
    pub view: SlaveView,
    pub names: Table<String>,
    pub cell_formats: Table<u32>,
    pub sim: Option<SimCfg>,
    pub rng: Xorshift,
    pub chart: ChartState,
    pub auto_inc: Vec<(Area, u16)>,
    pub log: ServerLog,
}

/// What the log and the traffic monitor of the server show.
#[derive(Debug)]
pub struct ServerLog {
    pub lines: Vec<LogLine>,
    pub traffic: Vec<LogLine>,
    pub lines_dirty: bool,
    pub traffic_dirty: bool,
    pub reported_traffic_drops: u64,
    pub reported_event_drops: u64,
    pub is_tcp: bool,
}

// ---------------------------------------------------------------- log and traffic

/// The report of lost events.
pub open spec fn event_loss_text(dropped: u64, high: usize) -> Seq<char> {
    "Slave event queue overflow: dropped "@ + text::decimal(dropped as nat) + ", H"@ + text::decimal(
        high as nat,
    ) + "/1024"@
}

fn event_loss_report(dropped: u64, high: usize) -> (r: String)
    ensures
        r@ == event_loss_text(dropped, high),
{
    let mut out = "Slave event queue overflow: dropped ".to_owned();
    text::push_decimal(&mut out, dropped);
    out.push_str(", H");
    text::push_decimal(&mut out, high as u64);
    out.push_str("/1024");
    out
}

impl ServerLog {
    /// A log that has seen nothing.
    pub fn new(is_tcp: bool) -> (r: ServerLog)
        ensures
            r.lines@.len() == 0,
            r.traffic@.len() == 0,
            !r.lines_dirty,
            !r.traffic_dirty,
            r.reported_traffic_drops == 0,
            r.reported_event_drops == 0,
            r.is_tcp == is_tcp,
    {
        ServerLog {
            lines: Vec::new(),
            traffic: Vec::new(),
            lines_dirty: false,
            traffic_dirty: false,
            reported_traffic_drops: 0,
            reported_event_drops: 0,
            is_tcp,
        }
    }

    /// An event of the server came. Whether the windows are to be drawn anew.
    pub fn event(&mut self, event: SlaveEvent, secs: u64) -> (r: bool)
        ensures
            final(self).traffic == old(self).traffic,
            final(self).traffic_dirty == old(self).traffic_dirty,
            final(self).reported_traffic_drops == old(self).reported_traffic_drops,
            final(self).reported_event_drops == old(self).reported_event_drops,
            final(self).is_tcp == old(self).is_tcp,
            match event {
                SlaveEvent::Changed => {
                    &&& r
                    &&& final(self).lines == old(self).lines
                    &&& final(self).lines_dirty == old(self).lines_dirty
                },
                SlaveEvent::Log { dir, text } => {
                    &&& !r
                    &&& lines_view(final(self).lines@) == logged(
                        lines_view(old(self).lines@),
                        secs as nat,
                        dir@,
                        text@,
                        LOG_LIMIT as int,
                    )
                    &&& final(self).lines_dirty
                },
            },
    {
        match event {
            SlaveEvent::Changed => true,
            SlaveEvent::Log { dir, text } => {
                push_log(&mut self.lines, secs, dir.as_str(), text, LOG_LIMIT);
                self.lines_dirty = true;
                false
            },
        }
    }

    /// A chunk of traffic came.
    pub fn recorded(&mut self, is_tx: bool, bytes: &[u8], secs: u64)
        ensures
            final(self).lines == old(self).lines,
            final(self).lines_dirty == old(self).lines_dirty,
            final(self).reported_traffic_drops == old(self).reported_traffic_drops,
            final(self).reported_event_drops == old(self).reported_event_drops,
            final(self).is_tcp == old(self).is_tcp,
            final(self).traffic_dirty,
            lines_view(final(self).traffic@) == logged(
                lines_view(old(self).traffic@),
                secs as nat,
                direction(is_tx),
                traffic_text(is_tx, bytes@, old(self).is_tcp, "   │   "@),
                TRAFFIC_LIMIT as int,
            ),
    {
        let is_tcp: bool = self.is_tcp;
        push_traffic(&mut self.traffic, secs, is_tx, bytes, is_tcp, "   │   ");
        self.traffic_dirty = true;
    }

    /// The queues were looked at: losses that were not reported yet become lines. A report of lost
    /// events is also given as a message.
    pub fn health_checked(&mut self, lost: &LossCounts, events: &LossCounts, secs: u64) -> (r: Option<
        String,
    >)
        ensures
            final(self).is_tcp == old(self).is_tcp,
            if lost.dropped > old(self).reported_traffic_drops {
                &&& lines_view(final(self).traffic@) == logged(
                    lines_view(old(self).traffic@),
                    secs as nat,
                    "ERR"@,
                    loss_text(*lost),
                    TRAFFIC_LIMIT as int,
                )
                &&& final(self).traffic_dirty
                &&& final(self).reported_traffic_drops == lost.dropped
            } else {
                &&& final(self).traffic == old(self).traffic
                &&& final(self).traffic_dirty == old(self).traffic_dirty
                &&& final(self).reported_traffic_drops == old(self).reported_traffic_drops
            },
            if events.dropped > old(self).reported_event_drops {
                let report = event_loss_text(events.dropped, events.high_watermark);
                &&& lines_view(final(self).lines@) == logged(
                    lines_view(old(self).lines@),
                    secs as nat,
                    "ERR"@,
                    report,
                    LOG_LIMIT as int,
                )
                &&& final(self).lines_dirty
                &&& final(self).reported_event_drops == events.dropped
                &&& r is Some
                &&& r->0@ == report
            } else {
                &&& final(self).lines == old(self).lines
                &&& final(self).lines_dirty == old(self).lines_dirty
                &&& final(self).reported_event_drops == old(self).reported_event_drops
                &&& r is None
            },
    {
        if lost.dropped > self.reported_traffic_drops {
            push_log(&mut self.traffic, secs, "ERR", loss_report(lost), TRAFFIC_LIMIT);
            self.traffic_dirty = true;
            self.reported_traffic_drops = lost.dropped;
        }
        if events.dropped > self.reported_event_drops {
            let report = event_loss_report(events.dropped, events.high_watermark);
            push_log(&mut self.lines, secs, "ERR", report.clone(), LOG_LIMIT);
            self.lines_dirty = true;
            self.reported_event_drops = events.dropped;
            return Some(report);
        }
        None
    }

    /// The lines of the log to show, where there are new ones since the last time.
    pub fn flush_lines(&mut self) -> (r: Option<Vec<LogLine>>)
        ensures
            *final(self) == (ServerLog { lines_dirty: false, ..*old(self) }),
            r is Some <==> old(self).lines_dirty,
            r matches Some(lines) ==> lines_view(lines@) == lines_view(old(self).lines@),
    {
        if !self.lines_dirty {
            return None;
        }
        self.lines_dirty = false;
        Some(copy_lines(self.lines.as_slice()))
    }

    /// The lines of the traffic monitor to show, where there are new ones since the last time.
    pub fn flush_traffic(&mut self) -> (r: Option<Vec<LogLine>>)
        ensures
            *final(self) == (ServerLog { traffic_dirty: false, ..*old(self) }),
            r is Some <==> old(self).traffic_dirty,
            r matches Some(lines) ==> lines_view(lines@) == lines_view(old(self).traffic@),
    {
        if !self.traffic_dirty {
            return None;
        }
        self.traffic_dirty = false;
        Some(copy_lines(self.traffic.as_slice()))
    }
}

// ---------------------------------------------------------------- values that move

/// The tables after each of some entries counted up.
pub open spec fn all_bumped(s: StoreView, keys: Seq<(Area, u16)>) -> StoreView
    decreases keys.len(),
{
    if keys.len() == 0 {
        s
    } else {
        bumped(all_bumped(s, keys.drop_last()), keys.last().0, keys.last().1)
    }
}

/// Counting up two entries gives the same whichever counts first.
pub proof fn law_bumps_commute(s: StoreView, a: (Area, u16), b: (Area, u16))
    ensures
        bumped(bumped(s, a.0, a.1), b.0, b.1) == bumped(bumped(s, b.0, b.1), a.0, a.1),
{
    let x = bumped(bumped(s, a.0, a.1), b.0, b.1);
    let y = bumped(bumped(s, b.0, b.1), a.0, a.1);
    assert(x.coils =~= y.coils);
    assert(x.discrete_inputs =~= y.discrete_inputs);
    assert(x.holding =~= y.holding);
    assert(x.input =~= y.input);
}

/// The entries that count up after one was toggled.
pub open spec fn toggled(before: Seq<(Area, u16)>, after: Seq<(Area, u16)>, key: (Area, u16)) -> bool {
    &&& after.no_duplicates()
    &&& forall|k: (Area, u16)| #[trigger]
        after.contains(k) <==> if k == key {
            !before.contains(key)
        } else {
            before.contains(k)
        }
}

fn toggle(keys: &mut Vec<(Area, u16)>, area: Area, address: u16)
    requires
        old(keys)@.no_duplicates(),
    ensures
        toggled(old(keys)@, final(keys)@, (area, address)),
{
    let ghost before = keys@;
    let key = (area, address);
    let mut i: usize = 0;
    while i < keys.len()
        invariant
            keys@ == before,
            before == old(keys)@,
            before.no_duplicates(),
            key == (area, address),
            i <= keys@.len(),
            forall|j: int| 0 <= j < i ==> keys@[j] != key,
        decreases keys@.len() - i,
    {
        if keys[i].0 == area && keys[i].1 == address {
            let _ = keys.remove(i);
            proof {
                assert(before[i as int] == key);
                lemma_removed(before, i as int);
                assert(keys@ =~= before.remove(i as int));
                assert(before.contains(key));
            }
            return;
        }
        i += 1;
    }
    keys.push(key);
    proof {
        let after = keys@;
        assert(!before.contains(key));
        assert forall|k: (Area, u16)| #[trigger] after.contains(k) <==> if k == key {
            !before.contains(key)
        } else {
            before.contains(k)
        } by {
            lemma_pushed(before, key, k);
        }
    }
}

proof fn lemma_removed<T>(s: Seq<T>, i: int)
    requires
        0 <= i < s.len(),
        s.no_duplicates(),
    ensures
        s.remove(i).no_duplicates(),
        forall|a: T| #[trigger] s.remove(i).contains(a) <==> s.contains(a) && a != s[i],
{
    let r = s.remove(i);
    assert forall|a: T| #[trigger] r.contains(a) <==> s.contains(a) && a != s[i] by {
        if r.contains(a) {
            let j = choose|j: int| 0 <= j < r.len() && r[j] == a;
            if j < i {
                assert(s[j] == a);
            } else {
                assert(s[j + 1] == a);
            }
        }
        if s.contains(a) && a != s[i] {
            let j = choose|j: int| 0 <= j < s.len() && s[j] == a;
            if j < i {
                assert(r[j] == a);
            } else {
                assert(r[j - 1] == a);
            }
        }
    }
}

/// The interval of a simulation: at least 50 milliseconds.
pub open spec fn sim_interval(cfg: SimCfg) -> u64 {
    if cfg.interval_ms < 50 {
        50
    } else {
        cfg.interval_ms
    }
}

impl SlaveUpdater {
    /// The tables are in order, and the entries that count up are listed once.
    pub open spec fn wf(&self) -> bool {
        &&& self.names.wf()
        &&& self.cell_formats.wf()
        &&& self.chart.wf()
        &&& self.auto_inc@.no_duplicates()
    }

    /// The state of a server that was just started.
    pub fn new(view: SlaveView, is_tcp: bool, seed: u64) -> (r: SlaveUpdater)
        ensures
            r.wf(),
            r.view == view,
            r.names.map() == Map::<u64, String>::empty(),
            r.cell_formats.map() == Map::<u64, u32>::empty(),
            r.sim is None,
            r.rng.state == seed | 1,
            r.chart.addrs@.len() == 0,
            r.chart.right@.len() == 0,
            r.chart.page_start == 0,
            r.chart.total == 0,
            r.auto_inc@.len() == 0,
            r.log.is_tcp == is_tcp,
            r.log.lines@.len() == 0,
            r.log.traffic@.len() == 0,
            !r.log.lines_dirty,
            !r.log.traffic_dirty,
            r.log.reported_traffic_drops == 0,
            r.log.reported_event_drops == 0,
    {
        SlaveUpdater {
            view,
            names: Table::new(),
            cell_formats: Table::new(),
            sim: None,
            rng: Xorshift::new(seed),
            chart: ChartState::new(),
            auto_inc: Vec::new(),
            log: ServerLog::new(is_tcp),
        }
    }

    /// Everything is as it was, except for the parts named.
    pub open spec fn kept(
        &self,
        before: &SlaveUpdater,
        view: bool,
        names: bool,
        formats: bool,
        sim: bool,
        chart: bool,
        auto_inc: bool,
    ) -> bool {
        &&& view ==> self.view == before.view
        &&& names ==> self.names == before.names
        &&& formats ==> self.cell_formats == before.cell_formats
        &&& sim ==> self.sim == before.sim
        &&& chart ==> self.chart == before.chart
        &&& auto_inc ==> self.auto_inc == before.auto_inc
        &&& self.rng == before.rng
        &&& self.log == before.log
    }

    /// The curves start anew.
    pub open spec fn curves_restart(&self, before: &SlaveUpdater) -> bool {
        &&& self.chart.addrs@.len() == 0
        &&& self.chart.page_start == 0
        &&& self.chart.total == 0
        &&& self.chart.right == before.chart.right
    }

    /// What a request of the user does to the state and the tables, and what follows.
    pub open spec fn obeys(
        &self,
        before: &SlaveUpdater,
        tables: StoreView,
        tables_before: StoreView,
        msg: SlaveMsg,
        action: SlaveAction,
    ) -> bool {
        match msg {
            SlaveMsg::Edit { address, bit, word } => {
                &&& self.kept(before, true, true, true, true, true, true)
                &&& tables == edited(tables_before, before.view.area, address, bit, word)
                &&& action is Render
            },
            SlaveMsg::EditAt { area, address, bit, word } => {
                &&& self.kept(before, true, true, true, true, true, true)
                &&& tables == edited(tables_before, area, address, bit, word)
                &&& action is Render
            },
            SlaveMsg::SetName { address, name } => {
                &&& self.kept(before, true, false, true, true, true, true)
                &&& self.names.map() == if text::trim(name@).len() == 0 {
                    before.names.map().remove(address as u64)
                } else {
                    before.names.map().insert(address as u64, name)
                }
                &&& tables == tables_before
                &&& action is Render
            },
            SlaveMsg::SetCellFormat { address, format } => {
                &&& self.kept(before, true, true, false, true, true, true)
                &&& self.cell_formats.map() == match format {
                    Some(f) => before.cell_formats.map().insert(address as u64, f),
                    None => before.cell_formats.map().remove(address as u64),
                }
                &&& tables == tables_before
                &&& action is Render
            },
            SlaveMsg::ExportCsv(path) => {
                &&& self.kept(before, true, true, true, true, true, true)
                &&& tables == tables_before
                &&& action matches SlaveAction::Write { path: p, text } && p == path && text@
                    == export_text(tables_before, before.names.map())
            },
            SlaveMsg::SetView(view) => {
                &&& self.kept(before, false, true, true, true, false, true)
                &&& self.view == view
                &&& self.curves_restart(before)
                &&& tables == tables_before
                &&& action is Render
            },
            SlaveMsg::SetScaling => {
                &&& self.kept(before, true, true, true, true, false, true)
                &&& self.curves_restart(before)
                &&& tables == tables_before
                &&& action is Render
            },
            SlaveMsg::SetColors => {
                &&& self.kept(before, true, true, true, true, true, true)
                &&& tables == tables_before
                &&& action is Render
            },
            SlaveMsg::SetValueNames => {
                &&& self.kept(before, true, true, true, true, true, true)
                &&& tables == tables_before
                &&& action is Render
            },
            SlaveMsg::SimStart(cfg) => {
                &&& self.kept(before, true, true, true, false, true, true)
                &&& self.sim == Some(cfg)
                &&& tables == tables_before
                &&& action == SlaveAction::SimulateEvery(sim_interval(cfg))
            },
            SlaveMsg::SimStop => {
                &&& self.kept(before, true, true, true, false, true, true)
                &&& self.sim is None
                &&& tables == tables_before
                &&& action is Nothing
            },
            SlaveMsg::ToggleAutoInc { address } => {
                &&& self.kept(before, true, true, true, true, true, false)
                &&& toggled(before.auto_inc@, self.auto_inc@, (before.view.area, address))
                &&& tables == tables_before
                &&& action is Render
            },
        }
    }

    /// Does what the user asks for.
    pub fn message(&mut self, store: &mut DataStore, msg: SlaveMsg) -> (r: SlaveAction)
        requires
            old(self).wf(),
        ensures
            final(self).wf(),
            final(self).obeys(old(self), final(store)@, old(store)@, msg, r),
    {
        match msg {
            SlaveMsg::Edit { address, bit, word } => {
                apply_edit(store, self.view.area, address, bit, word);
                SlaveAction::Render
            },
            SlaveMsg::EditAt { area, address, bit, word } => {
                apply_edit(store, area, address, bit, word);
                SlaveAction::Render
            },
            SlaveMsg::SetName { address, name } => {
                let words = text::trimmed(name.as_str());
                if words.as_str().is_empty() {
                    let _ = self.names.remove(address as u64);
                } else {
                    self.names.insert(address as u64, name);
                }
                SlaveAction::Render
            },
            SlaveMsg::SetCellFormat { address, format } => {
                match format {
                    Some(f) => {
                        self.cell_formats.insert(address as u64, f);
                    },
                    None => {
                        let _ = self.cell_formats.remove(address as u64);
                    },
                }
                SlaveAction::Render
            },
            SlaveMsg::ExportCsv(path) => {
                let text = build_server_csv(store, &self.names);
                SlaveAction::Write { path, text }
            },
            SlaveMsg::SetView(view) => {
                self.view = view;
                self.chart.reset();
                SlaveAction::Render
            },
            SlaveMsg::SetScaling => {
                self.chart.reset();
                SlaveAction::Render
            },
            SlaveMsg::SetColors => SlaveAction::Render,
            SlaveMsg::SetValueNames => SlaveAction::Render,
            SlaveMsg::SimStart(cfg) => {
                let interval: u64 = if cfg.interval_ms < 50 {
                    50
                } else {
                    cfg.interval_ms
                };
                self.sim = Some(cfg);
                SlaveAction::SimulateEvery(interval)
            },
            SlaveMsg::SimStop => {
                self.sim = None;
                SlaveAction::Nothing
            },
            SlaveMsg::ToggleAutoInc { address } => {
                let area: Area = self.view.area;
                toggle(&mut self.auto_inc, area, address);
                SlaveAction::Render
            },
        }
    }

    /// A step of the simulation is due. Whether the windows are to be drawn anew.
    pub fn simulate(&mut self, store: &mut DataStore) -> (r: bool)
        requires
            old(self).wf(),
        ensures
            final(self).wf(),
            r == (old(self).sim is Some),
            match old(self).sim {
                Some(cfg) => {
                    &&& final(store)@ == simulated(old(store)@, cfg, old(self).rng.state).0
                    &&& final(self).rng.state == simulated(old(store)@, cfg, old(self).rng.state).1
                },
                None => {
                    &&& final(store)@ == old(store)@
                    &&& final(self).rng == old(self).rng
                },
            },
            (SlaveUpdater { rng: old(self).rng, ..*final(self) }) == *old(self),
    {
        match &self.sim {
            Some(cfg) => {
                apply_sim(store, cfg, &mut self.rng);
                true
            },
            None => false,
        }
    }

    /// The entries that count up by themselves do so. Whether the windows are to be drawn anew.
    pub fn count_up(&self, store: &mut DataStore) -> (r: bool)
        ensures
            final(store)@ == all_bumped(old(store)@, self.auto_inc@),
            r == (self.auto_inc@.len() > 0),
    {
        let ghost s0 = store@;
        let keys = &self.auto_inc;
        let mut i: usize = 0;
        assert(keys@.take(0) =~= seq![]);
        while i < keys.len()
            invariant
                i <= keys@.len(),
                store@ == all_bumped(s0, keys@.take(i as int)),
            decreases keys@.len() - i,
        {
            bump_one(store, keys[i].0, keys[i].1);
            proof {
                assert(keys@.take(i + 1).drop_last() =~= keys@.take(i as int));
            }
            i += 1;
        }
        assert(keys@.take(i as int) =~= keys@);
        keys.len() > 0
    }
}

} // verus!
