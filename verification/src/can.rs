//! The CAN side of the workbench: frames, device configurations, commands and events.
use crate::bytes::copy_bytes;
use crate::ratio::Ratio;
use crate::text;
use vstd::prelude::*;

pub mod adapters;
pub mod bitrate;
pub mod controller;
pub mod ip_text;
pub mod ota;
pub mod payload;
pub mod pcan;
pub mod pcan_ffi;
pub mod playback;
pub mod queue;
pub mod schedule;
pub mod send_queue;
pub mod supervision;
pub mod timebase;
pub mod vci;
pub mod vci_setup;
pub mod win_pnp_ffi;
pub mod zcan;
pub mod zcan_bus;
pub mod zcan_ffi;
pub mod zcan_scan;
pub mod zcan_setup;
pub mod zlg_ffi;

verus! {

/// A CAN or CAN FD frame. `t` is its time in nanoseconds on the capture timeline.
#[derive(Debug)]
pub struct CanFrame {
    pub t: i64,
    pub ch: u8,
    pub tx: bool,
    pub id: u32,
    pub ext: bool,
    pub fd: bool,
    pub brs: bool,
    pub remote: bool,
    pub error: bool,
    pub data: Vec<u8>,
}

/// What a frame is, with its payload as a sequence of bytes.
pub struct FrameView {
    pub t: i64,
    pub ch: u8,
    pub tx: bool,
    pub id: u32,
    pub ext: bool,
    pub fd: bool,
    pub brs: bool,
    pub remote: bool,
    pub error: bool,
    pub data: Seq<u8>,
}

impl View for CanFrame {
    type V = FrameView;

    open spec fn view(&self) -> FrameView {
        FrameView {
            t: self.t,
            ch: self.ch,
            tx: self.tx,
            id: self.id,
            ext: self.ext,
            fd: self.fd,
            brs: self.brs,
            remote: self.remote,
            error: self.error,
            data: self.data@,
        }
    }
}

/// The views of a list of frames.
pub open spec fn frames_view(frames: Seq<CanFrame>) -> Seq<FrameView> {
    frames.map_values(|f: CanFrame| f@)
}

impl Clone for CanFrame {
    fn clone(&self) -> (r: CanFrame)
        ensures
            r@ == self@,
    {
        CanFrame {
            t: self.t,
            ch: self.ch,
            tx: self.tx,
            id: self.id,
            ext: self.ext,
            fd: self.fd,
            brs: self.brs,
            remote: self.remote,
            error: self.error,
            data: copy_bytes(self.data.as_slice()),
        }
    }
}

impl CanFrame {
    /// The payload as two-digit hexadecimal bytes with a blank between them.
    pub fn data_hex(&self) -> (r: String)
        ensures
            r@ == text::hex_bytes(self.data@),
    {
        text::hex_text(self.data.as_slice())
    }
}

/// The settings of one software channel.
#[derive(Debug)]
pub struct DeviceConfig {
    pub sw_channel: u8,
    pub is_fd: bool,
    pub device_type: String,
    pub hardware_label: String,
    /// Identity of the physical endpoint, stable across replugging; empty for a manual mapping.
    pub hardware_id: String,
    pub device_index: u32,
    pub channel_index: u32,
    pub baud: String,
    pub data_baud: String,
    /// A complete PCAN FD timing text, or empty.
    pub custom_bitrate: String,
    pub termination: bool,
    pub listen_only: bool,
    pub fd_non_iso: bool,
    pub net_server: bool,
    pub ip: String,
    pub port: String,
}

/// What a device configuration says, with its texts as character sequences.
pub struct DeviceConfigView {
    pub sw_channel: u8,
    pub is_fd: bool,
    pub device_type: Seq<char>,
    pub hardware_label: Seq<char>,
    pub hardware_id: Seq<char>,
    pub device_index: u32,
    pub channel_index: u32,
    pub baud: Seq<char>,
    pub data_baud: Seq<char>,
    pub custom_bitrate: Seq<char>,
    pub termination: bool,
    pub listen_only: bool,
    pub fd_non_iso: bool,
    pub net_server: bool,
    pub ip: Seq<char>,
    pub port: Seq<char>,
}

impl View for DeviceConfig {
    type V = DeviceConfigView;

    open spec fn view(&self) -> DeviceConfigView {
        DeviceConfigView {
            sw_channel: self.sw_channel,
            is_fd: self.is_fd,
            device_type: self.device_type@,
            hardware_label: self.hardware_label@,
            hardware_id: self.hardware_id@,
            device_index: self.device_index,
            channel_index: self.channel_index,
            baud: self.baud@,
            data_baud: self.data_baud@,
            custom_bitrate: self.custom_bitrate@,
            termination: self.termination,
            listen_only: self.listen_only,
            fd_non_iso: self.fd_non_iso,
            net_server: self.net_server,
            ip: self.ip@,
            port: self.port@,
        }
    }
}

/// The views of a list of configurations.
pub open spec fn configs_view(configs: Seq<DeviceConfig>) -> Seq<DeviceConfigView> {
    configs.map_values(|c: DeviceConfig| c@)
}

impl Clone for DeviceConfig {
    fn clone(&self) -> (r: DeviceConfig)
        ensures
            r@ == self@,
    {
        DeviceConfig {
            sw_channel: self.sw_channel,
            is_fd: self.is_fd,
            device_type: self.device_type.clone(),
            hardware_label: self.hardware_label.clone(),
            hardware_id: self.hardware_id.clone(),
            device_index: self.device_index,
            channel_index: self.channel_index,
            baud: self.baud.clone(),
            data_baud: self.data_baud.clone(),
            custom_bitrate: self.custom_bitrate.clone(),
            termination: self.termination,
            listen_only: self.listen_only,
            fd_non_iso: self.fd_non_iso,
            net_server: self.net_server,
            ip: self.ip.clone(),
            port: self.port.clone(),
        }
    }
}

impl Default for DeviceConfig {
    fn default() -> (r: DeviceConfig)
        ensures
            r@ == (DeviceConfigView {
                sw_channel: 0,
                is_fd: false,
                device_type: seq![],
                hardware_label: seq![],
                hardware_id: seq![],
                device_index: 0,
                channel_index: 0,
                baud: seq![],
                data_baud: seq![],
                custom_bitrate: seq![],
                termination: false,
                listen_only: false,
                fd_non_iso: false,
                net_server: false,
                ip: seq![],
                port: seq![],
            }),
    {
        DeviceConfig {
            sw_channel: 0,
            is_fd: false,
            device_type: String::new(),
            hardware_label: String::new(),
            hardware_id: String::new(),
            device_index: 0,
            channel_index: 0,
            baud: String::new(),
            data_baud: String::new(),
            custom_bitrate: String::new(),
            termination: false,
            listen_only: false,
            fd_non_iso: false,
            net_server: false,
            ip: String::new(),
            port: String::new(),
        }
    }
}

/// What one poll of an adapter found besides frames.
#[derive(Debug)]
pub struct PollReport {
    pub receive_overruns: u64,
    pub driver_errors: u64,
    pub connection_lost: bool,
    pub message: Option<String>,
}

impl Default for PollReport {
    fn default() -> (r: PollReport)
        ensures
            r.receive_overruns == 0,
            r.driver_errors == 0,
            !r.connection_lost,
            r.message is None,
    {
        PollReport { receive_overruns: 0, driver_errors: 0, connection_lost: false, message: None }
    }
}

/// One CAN interface, whatever drives it.
pub trait CanAdapter {
    /// Takes the received frames and the state of the hardware.
    fn poll(&mut self, out: &mut Vec<CanFrame>) -> PollReport;

    /// Whether one call of `send` with a frame takes an adapter from one state to another and gives
    /// this answer. What that means for a kind of adapter is up to its implementation, which says
    /// it by a body of its own; what is proved for every kind of adapter cannot rest on a body.
    open spec fn transmitted(
        before: &Self,
        f: &CanFrame,
        answer: Result<(), String>,
        after: &Self,
    ) -> bool {
        true
    }

    /// Puts a frame on the bus.
    fn send(&mut self, f: &CanFrame) -> (r: Result<(), String>)
        ensures
            Self::transmitted(old(self), f, r, final(self)),
    ;

    /// The name shown to the user.
    fn name(&self) -> String;
}

/// A bit rate as written, in upper case and without blanks.
pub open spec fn compact_baud(baud: Seq<char>) -> Seq<char> {
    text::without(text::upper(text::trim(baud)), ' ')
}

/// The canonical form of a bit rate; unknown rates stay as they are written.
pub open spec fn normalized_baud(baud: Seq<char>) -> Seq<char> {
    let b = compact_baud(baud);
    if b == "125"@ || b == "125KBPS"@ || b == "125K"@ {
        "125K"@
    } else if b == "250"@ || b == "250KBPS"@ || b == "250K"@ {
        "250K"@
    } else if b == "500"@ || b == "500KBPS"@ || b == "500K"@ {
        "500K"@
    } else if b == "1000"@ || b == "1000KBPS"@ || b == "1000K"@ || b == "1M"@ || b == "1MBPS"@ {
        "1000K"@
    } else {
        b
    }
}

/// Brings a bit rate into its canonical form.
pub fn normalize_baud(baud: &str) -> (r: String)
    ensures
        r@ == normalized_baud(baud@),
{
    let trimmed = text::trimmed(baud);
    let raised = text::to_upper(trimmed.as_str());
    let chars = text::chars_of(raised.as_str());
    let compact = text::remove_char(chars.as_slice(), ' ');
    let b = text::string_of(compact.as_slice());
    let s = b.as_str();
    if text::same_text(s, "125") || text::same_text(s, "125KBPS") || text::same_text(s, "125K") {
        "125K".to_owned()
    } else if text::same_text(s, "250") || text::same_text(s, "250KBPS") || text::same_text(
        s,
        "250K",
    ) {
        "250K".to_owned()
    } else if text::same_text(s, "500") || text::same_text(s, "500KBPS") || text::same_text(
        s,
        "500K",
    ) {
        "500K".to_owned()
    } else if text::same_text(s, "1000") || text::same_text(s, "1000KBPS") || text::same_text(
        s,
        "1000K",
    ) || text::same_text(s, "1M") || text::same_text(s, "1MBPS") {
        "1000K".to_owned()
    } else {
        b
    }
}

/// The two timing registers of an SJA1000 for a bit rate.
pub open spec fn sja1000_timing(baud: Seq<char>) -> Option<(u8, u8)> {
    let b = normalized_baud(baud);
    if b == "1000K"@ {
        Some((0x00u8, 0x14u8))
    } else if b == "800K"@ {
        Some((0x00u8, 0x16u8))
    } else if b == "500K"@ {
        Some((0x00u8, 0x1Cu8))
    } else if b == "250K"@ {
        Some((0x01u8, 0x1Cu8))
    } else if b == "125K"@ {
        Some((0x03u8, 0x1Cu8))
    } else if b == "100K"@ {
        Some((0x04u8, 0x1Cu8))
    } else if b == "50K"@ {
        Some((0x09u8, 0x1Cu8))
    } else if b == "20K"@ {
        Some((0x18u8, 0x1Cu8))
    } else if b == "10K"@ {
        Some((0x31u8, 0x1Cu8))
    } else if b == "5K"@ {
        Some((0xBFu8, 0xFFu8))
    } else {
        None
    }
}

/// The timing registers for a bit rate, where the controller supports it.
pub fn zlg_timing(baud: &str) -> (r: Option<(u8, u8)>)
    ensures
        r == sja1000_timing(baud@),
{
    let b = normalize_baud(baud);
    let s = b.as_str();
    if text::same_text(s, "1000K") {
        Some((0x00, 0x14))
    } else if text::same_text(s, "800K") {
        Some((0x00, 0x16))
    } else if text::same_text(s, "500K") {
        Some((0x00, 0x1C))
    } else if text::same_text(s, "250K") {
        Some((0x01, 0x1C))
    } else if text::same_text(s, "125K") {
        Some((0x03, 0x1C))
    } else if text::same_text(s, "100K") {
        Some((0x04, 0x1C))
    } else if text::same_text(s, "50K") {
        Some((0x09, 0x1C))
    } else if text::same_text(s, "20K") {
        Some((0x18, 0x1C))
    } else if text::same_text(s, "10K") {
        Some((0x31, 0x1C))
    } else if text::same_text(s, "5K") {
        Some((0xBF, 0xFF))
    } else {
        None
    }
}


// ---------------------------------------------------------------- commands and events

/// A periodic frame whose payload is encoded anew for each transmission. The signals and their
/// databases stay with whoever encodes; the controller decides when and how often.
#[derive(Debug)]
pub struct DynamicPeriodicConfig {
    pub frame: CanFrame,
    pub dbc_id: u32,
    pub period_ms: u64,
    /// Transmissions in all; negative for no end.
    pub repeat: i64,
    pub start_sent: u64,
}

/// How a simulated signal moves. The parameters are the bit patterns of floating-point numbers.
#[derive(Clone, Copy, Debug)]
pub enum SimGeneratorMode {
    Constant { value: u64 },
    Ramp { min: u64, max: u64, step: u64 },
    Sine { min: u64, max: u64 },
}

/// A simulated signal; without a name it drives the first byte of its frame.
#[derive(Debug)]
pub struct SimSignalGenerator {
    pub signal: String,
    pub mode: SimGeneratorMode,
    pub period_ms: u64,
}

/// A frame that simulated signals fill.
#[derive(Debug)]
pub struct SimPeriodicConfig {
    pub frame: CanFrame,
    /// Whether there is a database to encode named signals with.
    pub has_dbc: bool,
    pub dbc_id: u32,
    pub generators: Vec<SimSignalGenerator>,
}

/// A firmware update: frames that are sent one after the other, each acknowledged.
#[derive(Debug)]
pub struct OtaJob {
    pub name: String,
    pub steps: Vec<OtaStep>,
    pub timeout_ms: u64,
    pub retries: u32,
}

/// One frame of a firmware update.
#[derive(Debug)]
pub struct OtaStep {
    pub frame: CanFrame,
    pub ack: OtaAck,
    pub timeout_ms: u64,
    pub retries: u32,
}

/// Which identifiers a response may have.
#[derive(Clone, Copy, Debug)]
pub enum OtaResponseId {
    Exact(u32),
    /// Any identifier that differs in its lowest byte only.
    WildcardBase(u32),
}

/// The response that a frame of a firmware update waits for.
#[derive(Clone, Copy, Debug)]
pub enum OtaAck {
    /// Nothing is waited for.
    Unneeded,
    XcpConnect { response: OtaResponseId },
    XcpAck { response: OtaResponseId },
    UdsFlowControl,
    UdsPositive { service: u8 },
}

/// What the user asks of the controller.
#[allow(inconsistent_fields)]
#[derive(Debug)]
pub enum Cmd {
    Connect,
    ConnectConfig(DeviceConfig),
    ConnectChannels(Vec<DeviceConfig>),
    Disconnect,
    Start,
    Stop,
    SendOnce(CanFrame),
    SendSequence { frame: CanFrame, count: u64, id_increment: bool, data_increment: bool },
    /// `ack` names whoever waits for the outcome.
    SendBatch { frames: Vec<CanFrame>, repeat: u32, ack: Option<u64> },
    OtaRun(OtaJob),
    SetPeriodic { handle: u64, frame: CanFrame, period_ms: u64, repeat: i64, enable: bool },
    StopPeriodic { handle: u64 },
    SetDynamicPeriodic { handle: u64, config: Option<DynamicPeriodicConfig> },
    SetSimulationPeriodics(Vec<SimPeriodicConfig>),
    PlaybackLoad(Vec<CanFrame>),
    /// The speed in millionths of real time, zero or less for as fast as possible, and as text.
    PlaybackPlay { online: bool, speed_ppm: i64, speed_text: String, loop_play: bool },
    PlaybackStep,
    PlaybackPause,
    PlaybackCancel,
    /// The position as a fraction of the whole.
    PlaybackSeek(Ratio),
    Shutdown,
}

/// How well hardware timestamps and arrival times agree.
#[derive(Clone, Copy, Debug)]
pub struct TimestampHealth {
    pub samples: u64,
    pub latest_jitter_nanos: i64,
    pub max_jitter_nanos: i64,
    pub drift_ppb: i64,
    pub monotonic_violations: u64,
}

/// What the controller tells the user.
#[derive(Debug)]
pub enum Evt {
    Frame(CanFrame),
    Frames(Vec<CanFrame>),
    PlaybackFrame(CanFrame),
    PlaybackFrames(Vec<CanFrame>),
    Log(String),
    OtaProgress(usize, usize, String),
    Connected { channels: Vec<u8>, name: String, error: Option<String> },
    Running(bool),
    Playback(usize, usize, bool),
    PeriodicDone(u64),
    PeriodicProgress { handle: u64, sent: u64 },
    /// Signal values are the bit patterns of floating-point numbers.
    DynamicUpdate { handle: u64, data: Vec<u8>, signal_values: Vec<(String, u64)>, sent: u64 },
    CaptureHealth {
        dropped_frames: u64,
        dropped_events: u64,
        hardware_overruns: u64,
        hardware_errors: u64,
        queue_depth: usize,
        queue_capacity: usize,
        queue_high_watermark: usize,
        command_rejected: u64,
        command_queue_depth: usize,
        command_queue_capacity: usize,
        command_queue_high_watermark: usize,
        timestamp: TimestampHealth,
    },
    ShutdownFinished,
}

/// What an event says, with its texts and payloads as sequences.
pub enum EvtView {
    Frame(FrameView),
    Frames(Seq<FrameView>),
    PlaybackFrame(FrameView),
    PlaybackFrames(Seq<FrameView>),
    Log(Seq<char>),
    OtaProgress(usize, usize, Seq<char>),
    Connected { channels: Seq<u8>, name: Seq<char>, error: Option<Seq<char>> },
    Running(bool),
    Playback(usize, usize, bool),
    PeriodicDone(u64),
    PeriodicProgress { handle: u64, sent: u64 },
    DynamicUpdate { handle: u64, data: Seq<u8>, signal_values: Seq<(Seq<char>, u64)>, sent: u64 },
    CaptureHealth(Evt),
    ShutdownFinished,
}

/// The text of an optional message.
pub open spec fn optional_text(m: Option<String>) -> Option<Seq<char>> {
    match m {
        Some(s) => Some(s@),
        None => None,
    }
}

impl View for Evt {
    type V = EvtView;

    open spec fn view(&self) -> EvtView {
        match *self {
            Evt::Frame(f) => EvtView::Frame(f@),
            Evt::Frames(f) => EvtView::Frames(frames_view(f@)),
            Evt::PlaybackFrame(f) => EvtView::PlaybackFrame(f@),
            Evt::PlaybackFrames(f) => EvtView::PlaybackFrames(frames_view(f@)),
            Evt::Log(s) => EvtView::Log(s@),
            Evt::OtaProgress(a, b, s) => EvtView::OtaProgress(a, b, s@),
            Evt::Connected { channels, name, error } => EvtView::Connected {
                channels: channels@,
                name: name@,
                error: optional_text(error),
            },
            Evt::Running(b) => EvtView::Running(b),
            Evt::Playback(a, b, c) => EvtView::Playback(a, b, c),
            Evt::PeriodicDone(h) => EvtView::PeriodicDone(h),
            Evt::PeriodicProgress { handle, sent } => EvtView::PeriodicProgress { handle, sent },
            Evt::DynamicUpdate { handle, data, signal_values, sent } => EvtView::DynamicUpdate {
                handle,
                data: data@,
                signal_values: signal_values@.map_values(|p: (String, u64)| (p.0@, p.1)),
                sent,
            },
            Evt::CaptureHealth { .. } => EvtView::CaptureHealth(*self),
            Evt::ShutdownFinished => EvtView::ShutdownFinished,
        }
    }
}

/// The views of a list of events.
pub open spec fn events_view(events: Seq<Evt>) -> Seq<EvtView> {
    events.map_values(|e: Evt| e@)
}

/// Advances the seed of a form past the frames that were just queued, so that repeated sends go on
/// counting instead of starting over.
pub fn advance_send_sequence_seed(
    frame: &mut CanFrame,
    steps: u64,
    id_increment: bool,
    data_increment: bool,
)
    ensures
        final(frame)@ == send_queue::in_sequence(
            old(frame)@,
            steps as nat,
            id_increment,
            data_increment,
        ),
{
    send_queue::advance_sequence_frame(frame, steps, id_increment, data_increment);
}

} // verus!
