//! The polling windows, the server and the searches: who runs, and who gets which message.
use crate::ends::{mpsc_held, mpsc_made, open_channel, MpscOutbox};
use crate::modbus::commands::MasterMsg;
use crate::modbus::csv::{export_header, export_line, field_text, push_row_line};
use crate::modbus::grid::SlaveView;
use crate::modbus::master::ReadDef;
use crate::modbus::slave::SlaveService;
use crate::modbus::traffic::LossCounts;
use crate::modbus::updater::SlaveMsg;
use crate::modbus::{func_area_be, Area};
use crate::text;
use tokio::sync::mpsc::{Receiver, Sender};
use vstd::prelude::*;

verus! {

// ---------------------------------------------------------------- configurations

/// The settings of a window as the user interface has them, kept so that they can be shown again.
#[derive(Debug)]
pub struct UiCfg {
    pub transport: i32,
    pub host: String,
    pub port: i32,
    pub serial: String,
    pub baud_index: i32,
    pub databits_index: i32,
    pub parity: i32,
    pub stopbits: i32,
    pub slave_id: i32,
    pub function: i32,
    pub address: i32,
    pub quantity: i32,
    pub scanrate: i32,
    pub format: i32,
    pub scl_enabled: bool,
    pub scl_x1: String,
    pub scl_y1: String,
    pub scl_x2: String,
    pub scl_y2: String,
    pub scl_decimals: i32,
    pub col_normal: i32,
    pub col_op1: i32,
    pub col_v1: String,
    pub col_c1: i32,
    pub col_op2: i32,
    pub col_v2: String,
    pub col_c2: i32,
    pub vn_enabled: bool,
    pub vn_text: String,
}

impl Clone for UiCfg {
    fn clone(&self) -> (r: UiCfg)
        ensures
            r == *self,
    {
        UiCfg {
            transport: self.transport,
            host: self.host.clone(),
            port: self.port,
            serial: self.serial.clone(),
            baud_index: self.baud_index,
            databits_index: self.databits_index,
            parity: self.parity,
            stopbits: self.stopbits,
            slave_id: self.slave_id,
            function: self.function,
            address: self.address,
            quantity: self.quantity,
            scanrate: self.scanrate,
            format: self.format,
            scl_enabled: self.scl_enabled,
            scl_x1: self.scl_x1.clone(),
            scl_y1: self.scl_y1.clone(),
            scl_x2: self.scl_x2.clone(),
            scl_y2: self.scl_y2.clone(),
            scl_decimals: self.scl_decimals,
            col_normal: self.col_normal,
            col_op1: self.col_op1,
            col_v1: self.col_v1.clone(),
            col_c1: self.col_c1,
            col_op2: self.col_op2,
            col_v2: self.col_v2.clone(),
            col_c2: self.col_c2,
            vn_enabled: self.vn_enabled,
            vn_text: self.vn_text.clone(),
        }
    }
}

impl UiCfg {
    /// Nothing is set.
    pub open spec fn is_blank(&self) -> bool {
        &&& self.transport == 0 && self.port == 0 && self.slave_id == 0 && self.function == 0
        &&& self.address == 0 && self.quantity == 0 && self.scanrate == 0 && self.format == 0
        &&& !self.scl_enabled && !self.vn_enabled
        &&& self.baud_index == 0 && self.databits_index == 0 && self.parity == 0 && self.stopbits
            == 0
        &&& self.scl_decimals == 0 && self.col_normal == 0 && self.col_op1 == 0 && self.col_c1 == 0
        &&& self.col_op2 == 0 && self.col_c2 == 0
        &&& self.host@.len() == 0 && self.serial@.len() == 0 && self.vn_text@.len() == 0
        &&& self.scl_x1@.len() == 0 && self.scl_y1@.len() == 0 && self.scl_x2@.len() == 0
        &&& self.scl_y2@.len() == 0 && self.col_v1@.len() == 0 && self.col_v2@.len() == 0
    }
}

impl Default for UiCfg {
    fn default() -> (r: UiCfg)
        ensures
            r.is_blank(),
    {
        UiCfg {
            transport: 0,
            host: String::new(),
            port: 0,
            serial: String::new(),
            baud_index: 0,
            databits_index: 0,
            parity: 0,
            stopbits: 0,
            slave_id: 0,
            function: 0,
            address: 0,
            quantity: 0,
            scanrate: 0,
            format: 0,
            scl_enabled: false,
            scl_x1: String::new(),
            scl_y1: String::new(),
            scl_x2: String::new(),
            scl_y2: String::new(),
            scl_decimals: 0,
            col_normal: 0,
            col_op1: 0,
            col_v1: String::new(),
            col_c1: 0,
            col_op2: 0,
            col_v2: String::new(),
            col_c2: 0,
            vn_enabled: false,
            vn_text: String::new(),
        }
    }
}

/// How a server is reached.
#[derive(Debug)]
pub enum Transport {
    Tcp { host: String, port: u16 },
    Udp { host: String, port: u16 },
    RtuOverTcp { host: String, port: u16 },
    RtuOverUdp { host: String, port: u16 },
    Rtu { path: String, baud: u32, data_bits: u8, parity: u8, stop_bits: u8 },
}

impl Transport {
    /// Whether frames carry an MBAP header.
    pub open spec fn mbap(&self) -> bool {
        self is Tcp || self is Udp
    }

    /// Whether frames carry an MBAP header, in place of a checksum.
    pub fn is_mbap(&self) -> (r: bool)
        ensures
            r == self.mbap(),
    {
        match self {
            Transport::Tcp { host: _, port: _ } => true,
            Transport::Udp { host: _, port: _ } => true,
            _ => false,
        }
    }

    /// To whom a server on this transport answers. Units are ignored at most where the user says
    /// so, and never where serial frames travel over a network.
    pub fn service(&self, unit_id: u8, ignore_unit_id: bool) -> (r: SlaveService)
        ensures
            r == (SlaveService {
                unit_id,
                tcp: self.mbap(),
                ignore_unit_id: ignore_unit_id && !(self is RtuOverTcp || self is RtuOverUdp),
            }),
    {
        match self {
            Transport::Tcp { host: _, port: _ } => SlaveService {
                unit_id,
                tcp: true,
                ignore_unit_id,
            },
            Transport::Udp { host: _, port: _ } => SlaveService {
                unit_id,
                tcp: true,
                ignore_unit_id,
            },
            Transport::RtuOverTcp { host: _, port: _ } => SlaveService {
                unit_id,
                tcp: false,
                ignore_unit_id: false,
            },
            Transport::RtuOverUdp { host: _, port: _ } => SlaveService {
                unit_id,
                tcp: false,
                ignore_unit_id: false,
            },
            Transport::Rtu { path: _, baud: _, data_bits: _, parity: _, stop_bits: _ } =>
                SlaveService { unit_id, tcp: false, ignore_unit_id },
        }
    }

    /// The status of a server that listens.
    pub open spec fn listening(&self, local: Seq<char>, tls: bool) -> Seq<char> {
        match self {
            Transport::Tcp { host, port } => if tls {
                "Listening on "@ + local + " (TLS)"@
            } else {
                "Listening on "@ + local
            },
            Transport::Udp { host, port } => "Listening on "@ + local + " (Modbus UDP)"@,
            Transport::RtuOverTcp { host, port } => "Listening on "@ + local + " (RTU over TCP)"@,
            Transport::RtuOverUdp { host, port } => "Listening on "@ + local + " (RTU over UDP)"@,
            Transport::Rtu { path, baud, data_bits, parity, stop_bits } => "Serving on "@ + path@,
        }
    }

    /// The status of a server that listens at an address.
    pub fn listening_status(&self, local: &str, tls: bool) -> (r: String)
        ensures
            r@ == self.listening(local@, tls),
    {
        match self {
            Transport::Rtu { path, baud: _, data_bits: _, parity: _, stop_bits: _ } => {
                let mut out = "Serving on ".to_owned();
                out.push_str(path.as_str());
                out
            },
            Transport::Tcp { host: _, port: _ } => {
                let mut out = "Listening on ".to_owned();
                out.push_str(local);
                if tls {
                    out.push_str(" (TLS)");
                }
                out
            },
            Transport::Udp { host: _, port: _ } => {
                let mut out = "Listening on ".to_owned();
                out.push_str(local);
                out.push_str(" (Modbus UDP)");
                out
            },
            Transport::RtuOverTcp { host: _, port: _ } => {
                let mut out = "Listening on ".to_owned();
                out.push_str(local);
                out.push_str(" (RTU over TCP)");
                out
            },
            Transport::RtuOverUdp { host: _, port: _ } => {
                let mut out = "Listening on ".to_owned();
                out.push_str(local);
                out.push_str(" (RTU over UDP)");
                out
            },
        }
    }

    /// The status of a server that stopped for a reason.
    pub fn stopped_status(&self, error: &str) -> (r: String)
        ensures
            r@ == (match self {
                Transport::Udp { host, port } => "UDP server stopped: "@,
                Transport::RtuOverTcp { host, port } => "RTU/TCP server stopped: "@,
                Transport::RtuOverUdp { host, port } => "RTU/UDP server stopped: "@,
                _ => "Server stopped: "@,
            }) + error@,
    {
        let head: &str = match self {
            Transport::Udp { host: _, port: _ } => "UDP server stopped: ",
            Transport::RtuOverTcp { host: _, port: _ } => "RTU/TCP server stopped: ",
            Transport::RtuOverUdp { host: _, port: _ } => "RTU/UDP server stopped: ",
            _ => "Server stopped: ",
        };
        let mut out = head.to_owned();
        out.push_str(error);
        out
    }
}

/// The parity of a serial line.
#[derive(Clone, Copy, Debug, PartialEq, Eq, Structural)]
pub enum SerialParity {
    Even,
    Odd,
    Off,
}

/// The settings of a serial line.
#[derive(Clone, Copy, Debug, PartialEq, Eq, Structural)]
pub struct SerialSettings {
    pub data_bits: u8,
    pub parity: SerialParity,
    pub stop_bits: u8,
}

/// The settings of a serial line: what is not known stands for eight bits, no parity and one stop
/// bit.
pub fn serial_builder(data_bits: u8, parity: u8, stop_bits: u8) -> (r: SerialSettings)
    ensures
        r.data_bits == if 5 <= data_bits <= 7 {
            data_bits
        } else {
            8
        },
        r.parity == if parity == 1 {
            SerialParity::Even
        } else if parity == 2 {
            SerialParity::Odd
        } else {
            SerialParity::Off
        },
        r.stop_bits == if stop_bits == 2 {
            2u8
        } else {
            1u8
        },
{
    SerialSettings {
        data_bits: if 5 <= data_bits && data_bits <= 7 {
            data_bits
        } else {
            8
        },
        parity: if parity == 1 {
            SerialParity::Even
        } else if parity == 2 {
            SerialParity::Odd
        } else {
            SerialParity::Off
        },
        stop_bits: if stop_bits == 2 {
            2
        } else {
            1
        },
    }
}

/// How a window polls.
#[derive(Debug)]
pub struct MasterCfg {
    pub transport: Transport,
    pub slave_id: u8,
    pub def: ReadDef,
    pub format: u32,
    /// Milliseconds within which the server is to answer; zero for the usual ones.
    pub timeout_ms: u64,
    pub reconnect: bool,
    pub reconnect_ms: u64,
}

/// How the server is started.
#[derive(Debug)]
pub struct SlaveCfg {
    pub transport: Transport,
    pub unit_id: u8,
    pub ignore_unit_id: bool,
    pub view: SlaveView,
    pub english: bool,
}

/// A search for addresses.
#[derive(Debug)]
pub struct ScanCfg {
    pub transport: Transport,
    pub slave_id: u8,
    pub area: Area,
    pub start: u16,
    pub count: u16,
}

/// A search for servers.
#[derive(Debug)]
pub struct SlaveScanCfg {
    pub transport: Transport,
    pub area: Area,
    pub address: u16,
    pub from_id: u8,
    pub to_id: u8,
}

// ---------------------------------------------------------------- commands

/// Something that the user asks for.
#[derive(Debug)]
pub enum Cmd {
    NewWindow(UiCfg),
    SelectWindow { id: u32, current: UiCfg },
    CloseWindow { id: u32 },
    /// A floating window is to show what the window shows, or no longer.
    SetFloat { id: u32, float: bool },
    MasterConnect(MasterCfg),
    MasterDisconnect,
    /// A message to the engine of the active window.
    Master(MasterMsg),
    ScanAddress(ScanCfg),
    ScanSlave(SlaveScanCfg),
    ScanStop,
    SlaveStart(SlaveCfg),
    SlaveStop,
    /// A message to the server.
    Slave(SlaveMsg),
    /// All data are to be written to a file: those of the server, or those of the windows, of
    /// which the active one is given as text.
    ExportCsv { path: String, server: bool, active_id: u32, active_csv: String },
}

/// Commands that may wait.
pub const COMMAND_QUEUE_CAPACITY: usize = 512;

/// A command did not reach its receiver.
#[derive(Clone, Copy, Debug)]
pub struct CommandRejected;

/// The state of the command queue as it is shown.
#[derive(Debug)]
pub struct HealthReport {
    pub text: String,
    pub loss: bool,
}

/// The way commands reach the controller. Times are milliseconds of the clock of the machine.
pub struct CommandSender {
    pub out: MpscOutbox<Cmd>,
    pub health: LossCounts,
    pub last_report_ms: u64,
}

/// The text of a report.
pub open spec fn health_text(depth: usize, health: LossCounts) -> Seq<char> {
    "CMD "@ + text::decimal(depth as nat) + "/512 H"@ + text::decimal(health.high_watermark as nat)
        + " R"@ + text::decimal(health.dropped as nat)
}

/// Whether a report is due: after a loss at once, else half a second after the last one.
pub open spec fn report_due(force: bool, now_ms: u64, last_ms: u64) -> bool {
    force || now_ms - last_ms >= 500
}

/// Whether a report tells how many commands wait and what was lost.
pub open spec fn reports_queue(report: HealthReport, tx: Sender<Cmd>, health: LossCounts) -> bool {
    report.loss == (health.dropped > 0) && exists|depth: usize|
        mpsc_held(tx, depth) && report.text@ == #[trigger] health_text(depth, health)
}

impl CommandSender {
    /// A report of the queue, if one is due.
    pub fn report_health(&mut self, force: bool, now_ms: u64) -> (r: Option<HealthReport>)
        ensures
            final(self).out == old(self).out,
            final(self).health == old(self).health,
            r is Some <==> report_due(force, now_ms, old(self).last_report_ms),
            final(self).last_report_ms == if r is Some {
                now_ms
            } else {
                old(self).last_report_ms
            },
            r matches Some(report) ==> reports_queue(report, old(self).out.end(), old(self).health),
    {
        let elapsed: u64 = if now_ms > self.last_report_ms {
            now_ms - self.last_report_ms
        } else {
            0
        };
        if !force && elapsed < 500 {
            return None;
        }
        self.last_report_ms = now_ms;
        let depth: usize = self.out.depth();
        let mut out = "CMD ".to_owned();
        text::push_decimal(&mut out, depth as u64);
        out.push_str("/512 H");
        text::push_decimal(&mut out, self.health.high_watermark as u64);
        out.push_str(" R");
        text::push_decimal(&mut out, self.health.dropped);
        assert(out@ == health_text(depth, self.health));
        Some(HealthReport { text: out, loss: self.health.dropped > 0 })
    }

    /// Hands a command over without waiting; one that finds no room is rejected and counted.
    pub fn send(&mut self, command: Cmd, now_ms: u64) -> (r: (
        Result<(), CommandRejected>,
        Option<HealthReport>,
    ))
        ensures
            final(self).out.end() == old(self).out.end(),
            final(self).out.record() == old(self).out.record().push((command, r.0 is Ok)),
            exists|depth: usize|
                final(self).health == #[trigger] old(self).health.counted(r.0 is Ok, 0, depth) && (
                r.0 is Ok ==> mpsc_held(old(self).out.end(), depth)),
            r.1 is Some <==> report_due(r.0 is Err, now_ms, old(self).last_report_ms),
            final(self).last_report_ms == if r.1 is Some {
                now_ms
            } else {
                old(self).last_report_ms
            },
            r.1 matches Some(report) ==> reports_queue(report, old(self).out.end(), final(self).health),
    {
        let accepted: bool = self.out.hand(command);
        let depth: usize = if accepted {
            self.out.depth()
        } else {
            0
        };
        self.health.count(accepted, 0, depth);
        let outcome = if accepted {
            Ok(())
        } else {
            Err(CommandRejected)
        };
        assert(self.health == old(self).health.counted(outcome is Ok, 0, depth));
        let report = self.report_health(!accepted, now_ms);
        (outcome, report)
    }
}

/// The two ends of the command queue.
pub fn start_backend() -> (r: (CommandSender, Receiver<Cmd>))
    ensures
        mpsc_made(COMMAND_QUEUE_CAPACITY, r.0.out.end(), r.1),
        r.0.out.record().len() == 0,
        r.0.health == (LossCounts { dropped: 0, dropped_bytes: 0, high_watermark: 0 }),
        r.0.last_report_ms == 0,
{
    let ends = open_channel::<Cmd>(COMMAND_QUEUE_CAPACITY);
    (CommandSender { out: MpscOutbox::new(ends.0), health: LossCounts::new(), last_report_ms: 0 }, ends.1)
}

// ---------------------------------------------------------------- windows

/// A polling window.
#[derive(Debug)]
pub struct Win {
    pub id: u32,
    pub title: String,
    pub cfg: UiCfg,
    pub connected: bool,
    /// Whether its engine runs.
    pub engine: bool,
}

/// The windows and what else runs.
#[derive(Debug)]
pub struct Windows {
    pub list: Vec<Win>,
    pub active: u32,
    pub next_id: u32,
    pub slave: bool,
    pub scan: bool,
}

/// Something to be done.
#[derive(Debug)]
pub enum WinEffect {
    /// The tabs are to be drawn anew.
    Tabs,
    /// A window is to be shown, with its settings and what it showed last.
    Show(u32),
    /// A floating window is to show what a window shows, or no longer.
    Float { id: u32, float: bool },
    StopEngine(u32),
    StartEngine { id: u32, cfg: MasterCfg },
    /// The user is told that a window is disconnected.
    Disconnected(u32),
    ToEngine { id: u32, msg: MasterMsg },
    StopScan,
    ScanAddress(ScanCfg),
    ScanSlave(SlaveScanCfg),
    /// The user is told that the search was stopped.
    ScanStopped,
    StopSlave,
    StartSlave(SlaveCfg),
    /// The user is told that the server was stopped.
    SlaveStopped,
    ToSlave(SlaveMsg),
    /// The data of the windows are to be written to a file.
    ExportWindows { path: String, active_id: u32, active_csv: String },
}

/// The place of the window with a number.
pub open spec fn place_of(list: Seq<Win>, id: u32) -> Option<int> {
    if exists|i: int| 0 <= i < list.len() && (#[trigger] list[i]).id == id {
        Some(choose|i: int| 0 <= i < list.len() && (#[trigger] list[i]).id == id)
    } else {
        None
    }
}

/// The windows with the settings of one replaced.
pub open spec fn with_cfg(list: Seq<Win>, id: u32, cfg: UiCfg) -> Seq<Win> {
    match place_of(list, id) {
        Some(i) => list.update(i, Win { cfg, ..list[i] }),
        None => list,
    }
}

/// The window of a number that was just opened.
pub open spec fn fresh(w: Win, id: u32, cfg: UiCfg) -> bool {
    &&& w.id == id
    &&& w.title@ == "Poll "@ + text::decimal(id as nat)
    &&& w.cfg == cfg
    &&& !w.connected
    &&& !w.engine
}

impl Windows {
    /// There is a window, numbers are used once, and the next one is free.
    pub open spec fn wf(&self) -> bool {
        &&& self.list@.len() > 0
        &&& forall|i: int, j: int|
            0 <= i < j < self.list@.len() ==> (#[trigger] self.list@[i]).id != (
            #[trigger] self.list@[j]).id
        &&& forall|i: int| 0 <= i < self.list@.len() ==> (#[trigger] self.list@[i]).id < self.next_id
    }

    /// One window.
    pub fn new() -> (r: Windows)
        ensures
            r.wf(),
            r.list@.len() == 1,
            r.list@[0].id == 1,
            r.list@[0].title@ == "Poll 1"@,
            r.list@[0].cfg.is_blank(),
            !r.list@[0].connected,
            !r.list@[0].engine,
            r.active == 1,
            r.next_id == 2,
            !r.slave,
            !r.scan,
    {
        let mut list: Vec<Win> = Vec::new();
        list.push(
            Win {
                id: 1,
                title: "Poll 1".to_owned(),
                cfg: UiCfg::default(),
                connected: false,
                engine: false,
            },
        );
        Windows { list, active: 1, next_id: 2, slave: false, scan: false }
    }

    fn find(&self, id: u32) -> (r: Option<usize>)
        requires
            self.wf(),
        ensures
            match r {
                Some(i) => place_of(self.list@, id) == Some(i as int) && i < self.list@.len()
                    && self.list@[i as int].id == id,
                None => place_of(self.list@, id) is None,
            },
    {
        let mut i: usize = 0;
        while i < self.list.len()
            invariant
                self.wf(),
                i <= self.list@.len(),
                forall|j: int| 0 <= j < i ==> (#[trigger] self.list@[j]).id != id,
            decreases self.list@.len() - i,
        {
            if self.list[i].id == id {
                assert(self.list@[i as int].id == id);
                return Some(i);
            }
            i += 1;
        }
        None
    }

    fn save_cfg(&mut self, id: u32, cfg: UiCfg)
        requires
            old(self).wf(),
        ensures
            final(self).wf(),
            final(self).list@ == with_cfg(old(self).list@, id, cfg),
            final(self).active == old(self).active,
            final(self).next_id == old(self).next_id,
            final(self).slave == old(self).slave,
            final(self).scan == old(self).scan,
    {
        match self.find(id) {
            Some(i) => {
                let ghost before = self.list@;
                self.list[i].cfg = cfg;
                assert(self.list@ =~= with_cfg(before, id, cfg));
            },
            None => {},
        }
    }

    /// The windows with the connections as they are by now.
    pub open spec fn with_connections(list: Seq<Win>, connected: Seq<bool>) -> Seq<Win> {
        Seq::new(list.len(), |i: int| Win { connected: connected[i], ..list[i] })
    }

    /// Takes over whether the windows are connected by now. Whether one of them changed.
    pub fn reconcile(&mut self, connected: &[bool]) -> (r: bool)
        requires
            old(self).wf(),
            connected@.len() == old(self).list@.len(),
        ensures
            final(self).wf(),
            final(self).list@ == Self::with_connections(old(self).list@, connected@),
            final(self).active == old(self).active,
            final(self).next_id == old(self).next_id,
            final(self).slave == old(self).slave,
            final(self).scan == old(self).scan,
            r == (exists|i: int|
                0 <= i < connected@.len() && (#[trigger] old(self).list@[i]).connected
                    != connected@[i]),
    {
        let ghost before = self.list@;
        let mut changed: bool = false;
        let mut i: usize = 0;
        while i < self.list.len()
            invariant
                i <= self.list@.len(),
                self.list@.len() == before.len() == connected@.len(),
                before == old(self).list@,
                self.active == old(self).active,
                self.next_id == old(self).next_id,
                self.slave == old(self).slave,
                self.scan == old(self).scan,
                forall|j: int|
                    0 <= j < i ==> #[trigger] self.list@[j] == (Win {
                        connected: connected@[j],
                        ..before[j]
                    }),
                forall|j: int| i <= j < before.len() ==> #[trigger] self.list@[j] == before[j],
                changed == (exists|j: int|
                    0 <= j < i && (#[trigger] before[j]).connected != connected@[j]),
            decreases self.list@.len() - i,
        {
            let now: bool = connected[i];
            assert(self.list@[i as int] == before[i as int]);
            if self.list[i].connected != now {
                self.list[i].connected = now;
                changed = true;
                assert(before[i as int].connected != connected@[i as int]);
            }
            i += 1;
        }
        assert(self.list@ =~= Self::with_connections(before, connected@));
        changed
    }

    /// Everything but the list and the active window is as it was.
    pub open spec fn rest_kept(&self, before: &Windows) -> bool {
        &&& self.next_id == before.next_id
        &&& self.slave == before.slave
        &&& self.scan == before.scan
    }

    /// The engine of the active window, if it runs.
    pub open spec fn active_engine(&self) -> Option<u32> {
        match place_of(self.list@, self.active) {
            Some(i) => if self.list@[i].engine {
                Some(self.active)
            } else {
                None
            },
            None => None,
        }
    }

    /// A window is shown where there is one with that number.
    pub open spec fn shown(list: Seq<Win>, id: u32) -> Seq<WinEffect> {
        if place_of(list, id) is Some {
            seq![WinEffect::Show(id)]
        } else {
            seq![]
        }
    }

    /// What a command does.
    pub open spec fn obeys(&self, before: &Windows, cmd: Cmd, effects: Seq<WinEffect>) -> bool {
        let list = self.list@;
        let list0 = before.list@;
        match cmd {
            Cmd::NewWindow(current) => {
                let saved = with_cfg(list0, before.active, current);
                let id = before.next_id;
                &&& list.len() == saved.len() + 1
                &&& list.drop_last() == saved
                &&& fresh(list.last(), id, current)
                &&& self.active == id
                &&& self.next_id == id + 1
                &&& self.slave == before.slave
                &&& self.scan == before.scan
                &&& effects == seq![WinEffect::Tabs, WinEffect::Show(id)]
            },
            Cmd::SelectWindow { id, current } => {
                &&& list == with_cfg(list0, before.active, current)
                &&& self.active == id
                &&& self.rest_kept(before)
                &&& effects == Self::shown(list, id).push(WinEffect::Tabs)
            },
            Cmd::SetFloat { id, float } => {
                &&& *self == *before
                &&& effects == if place_of(list0, id) is Some {
                    seq![WinEffect::Float { id, float }]
                } else {
                    seq![]
                }
            },
            Cmd::CloseWindow { id } => {
                &&& self.rest_kept(before)
                &&& match place_of(list0, id) {
                    Some(i) => if list0.len() > 1 {
                        let stopped = if list0[i].engine {
                            seq![WinEffect::StopEngine(id)]
                        } else {
                            seq![]
                        };
                        &&& list == list0.remove(i)
                        &&& if before.active == id {
                            &&& self.active == list[0].id
                            &&& effects == stopped + seq![
                                WinEffect::Show(list[0].id),
                                WinEffect::Tabs,
                            ]
                        } else {
                            &&& self.active == before.active
                            &&& effects == stopped + seq![WinEffect::Tabs]
                        }
                    } else {
                        &&& *self == *before
                        &&& effects.len() == 0
                    },
                    None => {
                        &&& *self == *before
                        &&& effects.len() == 0
                    },
                }
            },
            Cmd::MasterConnect(cfg) => {
                &&& self.active == before.active
                &&& self.rest_kept(before)
                &&& match place_of(list0, before.active) {
                    Some(i) => {
                        &&& list == list0.update(
                            i,
                            Win { connected: true, engine: true, ..list0[i] },
                        )
                        &&& effects == (if list0[i].engine {
                            seq![WinEffect::StopEngine(before.active)]
                        } else {
                            seq![]
                        }) + seq![
                            WinEffect::StartEngine { id: before.active, cfg },
                            WinEffect::Tabs,
                        ]
                    },
                    None => list == list0 && effects == seq![WinEffect::Tabs],
                }
            },
            Cmd::MasterDisconnect => {
                &&& self.active == before.active
                &&& self.rest_kept(before)
                &&& match place_of(list0, before.active) {
                    Some(i) => {
                        &&& list == list0.update(
                            i,
                            Win { connected: false, engine: false, ..list0[i] },
                        )
                        &&& effects == (if list0[i].engine {
                            seq![WinEffect::StopEngine(before.active)]
                        } else {
                            seq![]
                        }) + seq![WinEffect::Disconnected(before.active), WinEffect::Tabs]
                    },
                    None => list == list0 && effects == seq![WinEffect::Tabs],
                }
            },
            Cmd::Master(msg) => {
                &&& *self == *before
                &&& effects == match before.active_engine() {
                    Some(id) => seq![WinEffect::ToEngine { id, msg }],
                    None => seq![],
                }
            },
            Cmd::ScanAddress(cfg) => {
                &&& *self == (Windows { scan: true, ..*before })
                &&& effects == (if before.scan {
                    seq![WinEffect::StopScan]
                } else {
                    seq![]
                }).push(WinEffect::ScanAddress(cfg))
            },
            Cmd::ScanSlave(cfg) => {
                &&& *self == (Windows { scan: true, ..*before })
                &&& effects == (if before.scan {
                    seq![WinEffect::StopScan]
                } else {
                    seq![]
                }).push(WinEffect::ScanSlave(cfg))
            },
            Cmd::ScanStop => {
                &&& *self == (Windows { scan: false, ..*before })
                &&& effects == (if before.scan {
                    seq![WinEffect::StopScan]
                } else {
                    seq![]
                }).push(WinEffect::ScanStopped)
            },
            Cmd::SlaveStart(cfg) => {
                &&& *self == (Windows { slave: true, ..*before })
                &&& effects == (if before.slave {
                    seq![WinEffect::StopSlave]
                } else {
                    seq![]
                }).push(WinEffect::StartSlave(cfg))
            },
            Cmd::SlaveStop => {
                &&& *self == (Windows { slave: false, ..*before })
                &&& effects == (if before.slave {
                    seq![WinEffect::StopSlave]
                } else {
                    seq![]
                }).push(WinEffect::SlaveStopped)
            },
            Cmd::Slave(msg) => {
                &&& *self == *before
                &&& effects == if before.slave {
                    seq![WinEffect::ToSlave(msg)]
                } else {
                    seq![]
                }
            },
            Cmd::ExportCsv { path, server, active_id, active_csv } => {
                &&& *self == *before
                &&& effects == if !server {
                    seq![WinEffect::ExportWindows { path, active_id, active_csv }]
                } else if before.slave {
                    seq![WinEffect::ToSlave(SlaveMsg::ExportCsv(path))]
                } else {
                    seq![]
                }
            },
        }
    }

    fn open_window(&mut self, current: UiCfg) -> (r: u32)
        requires
            old(self).wf(),
            old(self).next_id < u32::MAX,
        ensures
            final(self).wf(),
            final(self).list@.len() == old(self).list@.len() + 1,
            final(self).list@.drop_last() == old(self).list@,
            fresh(final(self).list@.last(), old(self).next_id, current),
            r == old(self).next_id,
            final(self).active == r,
            final(self).next_id == r + 1,
            final(self).slave == old(self).slave,
            final(self).scan == old(self).scan,
    {
        let ghost before = self.list@;
        let id: u32 = self.next_id;
        self.next_id = id + 1;
        let mut title = "Poll ".to_owned();
        text::push_decimal(&mut title, id as u64);
        self.list.push(Win { id, title, cfg: current, connected: false, engine: false });
        self.active = id;
        assert(self.list@.drop_last() =~= before);
        id
    }

    fn close_window(&mut self, id: u32) -> (r: Vec<WinEffect>)
        requires
            old(self).wf(),
        ensures
            final(self).wf(),
            final(self).obeys(old(self), Cmd::CloseWindow { id }, r@),
    {
        let mut effects: Vec<WinEffect> = Vec::new();
        if self.list.len() <= 1 {
            return effects;
        }
        let place: usize = match self.find(id) {
            Some(i) => i,
            None => {
                return effects;
            },
        };
        let ghost before = self.list@;
        if self.list[place].engine {
            effects.push(WinEffect::StopEngine(id));
        }
        let ghost stopped = effects@;
        let _ = self.list.remove(place);
        assert(self.list@ =~= before.remove(place as int));
        assert forall|i: int, j: int| 0 <= i < j < self.list@.len() implies (
        #[trigger] self.list@[i]).id != (#[trigger] self.list@[j]).id by {
            let a = if i < place {
                i
            } else {
                i + 1
            };
            let b = if j < place {
                j
            } else {
                j + 1
            };
            assert(before[a].id != before[b].id);
        }
        if self.active == id {
            let first: u32 = self.list[0].id;
            self.active = first;
            effects.push(WinEffect::Show(first));
            effects.push(WinEffect::Tabs);
            assert(effects@ =~= stopped + seq![WinEffect::Show(first), WinEffect::Tabs]);
        } else {
            effects.push(WinEffect::Tabs);
            assert(effects@ =~= stopped + seq![WinEffect::Tabs]);
        }
        assert(stopped =~= if before[place as int].engine {
            seq![WinEffect::StopEngine(id)]
        } else {
            seq![]
        });
        effects
    }

    /// Stops or starts the engine of the active window.
    fn switch_engine(&mut self, start: Option<MasterCfg>) -> (r: Vec<WinEffect>)
        requires
            old(self).wf(),
        ensures
            final(self).wf(),
            final(self).obeys(
                old(self),
                match start {
                    Some(cfg) => Cmd::MasterConnect(cfg),
                    None => Cmd::MasterDisconnect,
                },
                r@,
            ),
    {
        let mut effects: Vec<WinEffect> = Vec::new();
        let id: u32 = self.active;
        let ghost before = self.list@;
        match self.find(id) {
            Some(i) => {
                if self.list[i].engine {
                    effects.push(WinEffect::StopEngine(id));
                }
                let ghost stopped = effects@;
                let run: bool = start.is_some();
                self.list[i].engine = run;
                self.list[i].connected = run;
                assert(self.list@ =~= before.update(
                    i as int,
                    Win { connected: run, engine: run, ..before[i as int] },
                ));
                assert(stopped =~= if before[i as int].engine {
                    seq![WinEffect::StopEngine(id)]
                } else {
                    seq![]
                });
                match start {
                    Some(cfg) => {
                        effects.push(WinEffect::StartEngine { id, cfg });
                        effects.push(WinEffect::Tabs);
                        assert(effects@ =~= stopped + seq![
                            WinEffect::StartEngine { id, cfg },
                            WinEffect::Tabs,
                        ]);
                    },
                    None => {
                        effects.push(WinEffect::Disconnected(id));
                        effects.push(WinEffect::Tabs);
                        assert(effects@ =~= stopped + seq![
                            WinEffect::Disconnected(id),
                            WinEffect::Tabs,
                        ]);
                    },
                }
            },
            None => {
                effects.push(WinEffect::Tabs);
                assert(effects@ =~= seq![WinEffect::Tabs]);
            },
        }
        effects
    }

    /// Does what the user asks for.
    pub fn command(&mut self, cmd: Cmd) -> (r: Vec<WinEffect>)
        requires
            old(self).wf(),
            cmd is NewWindow ==> old(self).next_id < u32::MAX,
        ensures
            final(self).wf(),
            final(self).obeys(old(self), cmd, r@),
    {
        let mut effects: Vec<WinEffect> = Vec::new();
        match cmd {
            Cmd::NewWindow(current) => {
                let active: u32 = self.active;
                self.save_cfg(active, current.clone());
                let id: u32 = self.open_window(current);
                effects.push(WinEffect::Tabs);
                effects.push(WinEffect::Show(id));
                assert(effects@ =~= seq![WinEffect::Tabs, WinEffect::Show(id)]);
            },
            Cmd::SelectWindow { id, current } => {
                let active: u32 = self.active;
                self.save_cfg(active, current);
                self.active = id;
                if self.find(id).is_some() {
                    effects.push(WinEffect::Show(id));
                }
                assert(effects@ =~= Self::shown(self.list@, id));
                effects.push(WinEffect::Tabs);
            },
            Cmd::SetFloat { id, float } => {
                if self.find(id).is_some() {
                    effects.push(WinEffect::Float { id, float });
                    assert(effects@ =~= seq![WinEffect::Float { id, float }]);
                }
            },
            Cmd::CloseWindow { id } => {
                return self.close_window(id);
            },
            Cmd::MasterConnect(cfg) => {
                return self.switch_engine(Some(cfg));
            },
            Cmd::MasterDisconnect => {
                return self.switch_engine(None);
            },
            Cmd::Master(msg) => {
                let id: u32 = self.active;
                match self.find(id) {
                    Some(i) => {
                        if self.list[i].engine {
                            effects.push(WinEffect::ToEngine { id, msg });
                            assert(effects@ =~= seq![WinEffect::ToEngine { id, msg }]);
                        }
                    },
                    None => {},
                }
            },
            Cmd::ScanAddress(cfg) => {
                if self.scan {
                    effects.push(WinEffect::StopScan);
                    assert(effects@ =~= seq![WinEffect::StopScan]);
                }
                self.scan = true;
                effects.push(WinEffect::ScanAddress(cfg));
            },
            Cmd::ScanSlave(cfg) => {
                if self.scan {
                    effects.push(WinEffect::StopScan);
                    assert(effects@ =~= seq![WinEffect::StopScan]);
                }
                self.scan = true;
                effects.push(WinEffect::ScanSlave(cfg));
            },
            Cmd::ScanStop => {
                if self.scan {
                    effects.push(WinEffect::StopScan);
                    assert(effects@ =~= seq![WinEffect::StopScan]);
                }
                self.scan = false;
                effects.push(WinEffect::ScanStopped);
            },
            Cmd::SlaveStart(cfg) => {
                if self.slave {
                    effects.push(WinEffect::StopSlave);
                    assert(effects@ =~= seq![WinEffect::StopSlave]);
                }
                self.slave = true;
                effects.push(WinEffect::StartSlave(cfg));
            },
            Cmd::SlaveStop => {
                if self.slave {
                    effects.push(WinEffect::StopSlave);
                    assert(effects@ =~= seq![WinEffect::StopSlave]);
                }
                self.slave = false;
                effects.push(WinEffect::SlaveStopped);
            },
            Cmd::Slave(msg) => {
                if self.slave {
                    effects.push(WinEffect::ToSlave(msg));
                    assert(effects@ =~= seq![WinEffect::ToSlave(msg)]);
                }
            },
            Cmd::ExportCsv { path, server, active_id, active_csv } => {
                if !server {
                    effects.push(WinEffect::ExportWindows { path, active_id, active_csv });
                    assert(effects@ =~= seq![
                        WinEffect::ExportWindows { path, active_id, active_csv },
                    ]);
                } else if self.slave {
                    effects.push(WinEffect::ToSlave(SlaveMsg::ExportCsv(path)));
                    assert(effects@ =~= seq![WinEffect::ToSlave(SlaveMsg::ExportCsv(path))]);
                }
            },
        }
        effects
    }
}

/// The last window stays: closing it changes nothing.
pub proof fn law_the_last_window_stays(
    before: Windows,
    after: Windows,
    id: u32,
    effects: Seq<WinEffect>,
)
    requires
        before.wf(),
        before.list@.len() == 1,
        after.obeys(&before, Cmd::CloseWindow { id }, effects),
    ensures
        after == before,
        effects.len() == 0,
{
}

/// The numbers of windows are never used again: a new window has a number that no window had.
pub proof fn law_window_numbers_are_fresh(
    before: Windows,
    after: Windows,
    current: UiCfg,
    effects: Seq<WinEffect>,
    i: int,
)
    requires
        before.wf(),
        after.obeys(&before, Cmd::NewWindow(current), effects),
        0 <= i < before.list@.len(),
    ensures
        after.list@.last().id > before.list@[i].id,
        after.next_id > after.list@.last().id,
{
}

// ---------------------------------------------------------------- export

/// A row that a window showed last.
#[derive(Debug)]
pub struct ShownRow {
    pub address: i32,
    pub name: String,
    pub value: String,
}

/// What a window showed last: the function that is selected in it, its rows, and the names that
/// they were given.
#[derive(Debug)]
pub struct ShownWindow {
    pub id: u32,
    pub function: i32,
    pub rows: Vec<ShownRow>,
    pub names: Vec<String>,
}

/// The table that a function selection means.
pub open spec fn selected_area(function: i32) -> Area {
    match function {
        0 | 4 | 6 => Area::Coils,
        1 => Area::DiscreteInputs,
        3 => Area::InputRegisters,
        _ => Area::HoldingRegisters,
    }
}

/// The lines of the rows of a window: a row has the name that it was given, else its own.
pub open spec fn window_lines(w: ShownWindow, k: int) -> Seq<char>
    decreases k,
{
    if k <= 0 {
        seq![]
    } else {
        let row = w.rows@[k - 1];
        window_lines(w, k - 1) + export_line(
            selected_area(w.function),
            row.address as int,
            if k - 1 < w.names@.len() {
                w.names@[k - 1]@
            } else {
                row.name@
            },
            field_text(row.value@),
        )
    }
}

/// The lines of all windows but the active one.
pub open spec fn other_lines(windows: Seq<ShownWindow>, active_id: u32) -> Seq<char>
    decreases windows.len(),
{
    if windows.len() == 0 {
        seq![]
    } else {
        let w = windows.last();
        other_lines(windows.drop_last(), active_id) + (if w.id != active_id {
            window_lines(w, w.rows@.len() as int)
        } else {
            seq![]
        })
    }
}

/// The export of the windows: the active one as it is given, then the others.
pub fn export_windows(active_csv: &str, active_id: u32, windows: &[ShownWindow]) -> (r: String)
    ensures
        r@ == export_header() + active_csv@ + other_lines(windows@, active_id),
{
    let mut out = "Import,Function,Address,Name,Value\n".to_owned();
    out.push_str(active_csv);
    let ghost head = out@;
    let mut i: usize = 0;
    assert(windows@.take(0) =~= seq![]);
    assert(out@ =~= head + other_lines(windows@.take(0), active_id));
    while i < windows.len()
        invariant
            i <= windows@.len(),
            out@ == head + other_lines(windows@.take(i as int), active_id),
        decreases windows@.len() - i,
    {
        let w = &windows[i];
        let ghost before = out@;
        if w.id != active_id {
            let area = func_area_be(w.function);
            let mut k: usize = 0;
            assert(out@ =~= before + window_lines(*w, 0));
            while k < w.rows.len()
                invariant
                    k <= w.rows@.len(),
                    area == selected_area(w.function),
                    out@ == before + window_lines(*w, k as int),
                decreases w.rows@.len() - k,
            {
                let row = &w.rows[k];
                let name: &str = if k < w.names.len() {
                    w.names[k].as_str()
                } else {
                    row.name.as_str()
                };
                push_row_line(&mut out, area, row.address, name, row.value.as_str());
                assert(out@ =~= before + window_lines(*w, k + 1));
                k += 1;
            }
        }
        proof {
            assert(windows@.take(i + 1).drop_last() =~= windows@.take(i as int));
            assert(out@ =~= head + other_lines(windows@.take(i + 1), active_id));
        }
        i += 1;
    }
    assert(windows@.take(i as int) =~= windows@);
    out
}

/// What is said of a file that was written, or could not be.
pub fn file_result(action: &str, path: &str, error: Option<&str>) -> (r: String)
    ensures
        r@ == match error {
            None => action@ + "成功: "@ + path@,
            Some(e) => action@ + "失败: "@ + path@ + " — "@ + e@,
        },
{
    let mut out = action.to_owned();
    match error {
        None => {
            out.push_str("成功: ");
            out.push_str(path);
        },
        Some(e) => {
            out.push_str("失败: ");
            out.push_str(path);
            out.push_str(" — ");
            out.push_str(e);
        },
    }
    out
}

} // verus!
