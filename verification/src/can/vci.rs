//! VCI adapters (GCAN, ZHCX): messages, error supervision and Bus-Off recovery.
//!
//! Polling and sending alternate calls into the driver with decisions. The decisions are the
//! methods of `VciBus`: each takes the answer to one call and says what follows.
use crate::can::payload::{head_of_8, padded_8, zero_padded};
use crate::can::pcan::reports_nothing;
use crate::can::zlg_ffi::{VCI_CAN_OBJ, VCI_CAN_STATUS, VCI_INIT_CONFIG};
use crate::can::{
    frames_view, normalize_baud, normalized_baud, sja1000_timing, zlg_timing, CanFrame,
    DeviceConfig, FrameView, PollReport,
};
use crate::text;
use vstd::prelude::*;

verus! {

/// Nanoseconds between two checks of a channel's health.
pub const HEALTH_CHECK_INTERVAL: u64 = 250_000_000;

/// Nanoseconds between two checks that the device is still plugged in.
pub const PHYSICAL_CHECK_INTERVAL: u64 = 1_000_000_000;

/// Nanoseconds between two attempts to recover from Bus-Off.
pub const RECOVERY_INTERVAL: u64 = 1_000_000_000;

/// Failed transmissions in a row after which the device itself is in doubt.
pub const SEND_FAILURE_LIMIT: u8 = 10;

/// Messages that one poll takes at most.
pub const VCI_RECEIVE_BATCH: u32 = 256;

/// The instance prefix of GCAN adapters among the Windows devices.
pub const GCAN_INSTANCE_PREFIX: &'static str = "USB\\VID_0C66&PID_000C\\";

/// Whether at least `interval` went by since `last`; what never happened is due.
pub open spec fn is_due(last: Option<u64>, now: u64, interval: u64) -> bool {
    match last {
        None => true,
        Some(then) => now >= then && now - then >= interval,
    }
}

/// Whether at least `interval` went by since `last`.
pub fn due(last: Option<u64>, now: u64, interval: u64) -> (r: bool)
    requires
        interval > 0,
    ensures
        r == is_due(last, now, interval),
{
    match last {
        None => true,
        Some(then) => now.saturating_sub(then) >= interval,
    }
}

/// A channel of a VCI adapter. Times are nanoseconds on the capture timeline.
#[derive(Debug)]
pub struct VciBus {
    /// What the driver's entry points begin with.
    pub prefix: String,
    pub device_type: u32,
    pub device_index: u32,
    pub channel_index: u32,
    pub timing0: u8,
    pub timing1: u8,
    pub listen_only: bool,
    pub last_health_check: Option<u64>,
    pub last_physical_check: Option<u64>,
    pub last_busoff_recovery: Option<u64>,
    pub consecutive_send_failures: u8,
    pub name: String,
}

/// The identity of a device among those that are open.
pub open spec fn device_key(library: Seq<char>, prefix: Seq<char>, device_type: u32, device_index: u32) -> Seq<
    char,
> {
    library + "|"@ + prefix + "|"@ + text::decimal(device_type as nat) + "|"@ + text::decimal(
        device_index as nat,
    )
}

/// The identity of a device among those that are open; the first library candidate counts.
pub fn vci_device_key(libraries: &[String], prefix: &str, device_type: u32, device_index: u32) -> (r:
    String)
    ensures
        r@ == device_key(
            if libraries@.len() > 0 {
                libraries@[0]@
            } else {
                seq![]
            },
            prefix@,
            device_type,
            device_index,
        ),
{
    let mut key = if libraries.len() > 0 {
        libraries[0].clone()
    } else {
        String::new()
    };
    key.push_str("|");
    key.push_str(prefix);
    key.push_str("|");
    text::push_decimal(&mut key, device_type as u64);
    key.push_str("|");
    text::push_decimal(&mut key, device_index as u64);
    key
}

/// The name of a driver entry point as a zero-terminated byte string.
pub fn entry_symbol(prefix: &str, entry: &str) -> (r: Vec<u8>)
    ensures
        r@ == vstd::utf8::encode_utf8(prefix@ + entry@).push(0u8),
{
    let mut name = prefix.to_owned();
    name.push_str(entry);
    let mut out = crate::bytes::copy_bytes(name.as_str().as_bytes());
    out.push(0);
    out
}

/// What came of a call into the driver.
#[derive(Debug)]
pub enum DriverCall {
    /// The driver has no such entry point; the loader's message.
    Missing(String),
    /// The entry point returned this value.
    Returned(u32),
}

/// Whether a call succeeded: VCI entry points return one on success.
pub fn call_outcome(prefix: &str, entry: &str, failure: &str, call: DriverCall) -> (r: Result<
    (),
    String,
>)
    ensures
        match call {
            DriverCall::Missing(error) => r matches Err(m) && m@ == prefix@ + entry@ + " 未找到: "@
                + error@,
            DriverCall::Returned(value) => if value == 1 {
                r is Ok
            } else {
                r matches Err(m) && m@ == prefix@ + entry@ + failure@
            },
        },
{
    let mut message = prefix.to_owned();
    message.push_str(entry);
    match call {
        DriverCall::Missing(error) => {
            message.push_str(" 未找到: ");
            message.push_str(error.as_str());
            Err(message)
        },
        DriverCall::Returned(value) => if value == 1 {
            Ok(())
        } else {
            message.push_str(failure);
            Err(message)
        },
    }
}

/// The settings that a channel is initialised with.
pub open spec fn init_settings(timing0: u8, timing1: u8, listen_only: bool) -> VCI_INIT_CONFIG {
    VCI_INIT_CONFIG {
        acc_code: 0,
        acc_mask: 0xFFFF_FFFF,
        reserved: 0,
        filter: 1,
        timing0,
        timing1,
        mode: if listen_only { 1 } else { 0 },
    }
}

/// Whether a status shows Bus-Off.
pub open spec fn shows_bus_off(status: VCI_CAN_STATUS) -> bool {
    status.reg_status & 0x80 != 0 || status.reg_te_counter == 255
}

/// Whether a status shows the error-passive state.
pub open spec fn shows_error_passive(status: VCI_CAN_STATUS) -> bool {
    status.reg_re_counter >= 128 || status.reg_te_counter >= 128
}

/// Whether a status shows an error warning.
pub open spec fn shows_error_warning(status: VCI_CAN_STATUS) -> bool {
    ||| status.reg_status & 0x40 != 0
    ||| shows_error_passive(status)
    ||| status.reg_ew_limit != 0 && (status.reg_re_counter >= status.reg_ew_limit
        || status.reg_te_counter >= status.reg_ew_limit)
}

/// What the supervision of a channel asks for next.
#[derive(Debug)]
pub enum VciStep {
    /// Look the device up among the attached ones; the answer goes to `after_lookup`.
    LookUpDevice,
    /// Read the status registers because of failed transmissions, then `after_doubtful_status`.
    ReadDoubtfulStatus,
    /// Ask whether the device still answers, then `after_presence`.
    CheckPresence,
    /// Read the status registers, then `after_status`.
    ReadStatus,
    /// Reset and restart the channel with these settings, then `after_recovery`.
    Recover { settings: VCI_INIT_CONFIG, status: VCI_CAN_STATUS },
    /// The poll is over.
    Done(PollReport),
}

/// A report of a driver error with a message.
pub open spec fn reports_error(r: PollReport, connection_lost: bool, message: Seq<char>) -> bool {
    &&& r.receive_overruns == 0
    &&& r.driver_errors == 1
    &&& r.connection_lost == connection_lost
    &&& r.message matches Some(m) && m@ == message
}

fn error_report(connection_lost: bool, message: String) -> (r: PollReport)
    ensures
        reports_error(r, connection_lost, message@),
{
    PollReport { receive_overruns: 0, driver_errors: 1, connection_lost, message: Some(message) }
}

/// The frame of a received message.
pub open spec fn vci_frame(msg: VCI_CAN_OBJ, channel_index: u32, t: i64) -> FrameView {
    FrameView {
        t,
        ch: ((channel_index + 1) % 256) as u8,
        tx: false,
        id: msg.id,
        ext: msg.extern_flag != 0,
        fd: false,
        brs: false,
        remote: msg.remote_flag != 0,
        error: false,
        data: msg.data@.take(if msg.data_len < 8 { msg.data_len as int } else { 8 }),
    }
}

/// The message that carries a frame.
pub open spec fn vci_carries(msg: VCI_CAN_OBJ, f: FrameView) -> bool {
    &&& msg.id == f.id
    &&& msg.time_stamp == 0
    &&& msg.time_flag == 0
    &&& msg.send_type == 0
    &&& msg.remote_flag == if f.remote { 1u8 } else { 0u8 }
    &&& msg.extern_flag == if f.ext { 1u8 } else { 0u8 }
    &&& msg.data_len == f.data.len()
    &&& msg.data@ == zero_padded(f.data, 8)
    &&& msg.reserved@ == seq![0u8, 0u8, 0u8]
}

/// The counters of a status in a message.
pub open spec fn counters_text(status: VCI_CAN_STATUS) -> Seq<char> {
    "REC="@ + text::decimal(status.reg_re_counter as nat) + " TEC="@ + text::decimal(
        status.reg_te_counter as nat,
    )
}

fn push_counters(out: &mut String, status: VCI_CAN_STATUS)
    ensures
        final(out)@ == old(out)@ + counters_text(status),
{
    let ghost before = out@;
    out.push_str("REC=");
    text::push_decimal(out, status.reg_re_counter as u64);
    out.push_str(" TEC=");
    text::push_decimal(out, status.reg_te_counter as u64);
    assert(out@ =~= before + counters_text(status));
}

/// The registers of a status in a message.
pub open spec fn registers_text(status: VCI_CAN_STATUS) -> Seq<char> {
    "（SR=0x"@ + text::hex_padded(status.reg_status as nat, 2) + " "@ + counters_text(status)
        + "）"@
}

fn push_registers(out: &mut String, status: VCI_CAN_STATUS)
    ensures
        final(out)@ == old(out)@ + registers_text(status),
{
    let ghost before = out@;
    out.push_str("（SR=0x");
    text::push_hex_padded(out, status.reg_status as u64, 2);
    out.push_str(" ");
    push_counters(out, status);
    out.push_str("）");
    assert(out@ =~= before + registers_text(status));
}

impl VciBus {
    /// The fields that supervision never changes.
    pub open spec fn same_channel(&self, other: &VciBus) -> bool {
        &&& self.prefix == other.prefix
        &&& self.device_type == other.device_type
        &&& self.device_index == other.device_index
        &&& self.channel_index == other.channel_index
        &&& self.timing0 == other.timing0
        &&& self.timing1 == other.timing1
        &&& self.listen_only == other.listen_only
        &&& self.name == other.name
    }

    /// Nothing but the failure count and the times of the checks changed; here not even those.
    pub open spec fn unchanged(&self, other: &VciBus) -> bool {
        &&& self.same_channel(other)
        &&& self.last_health_check == other.last_health_check
        &&& self.last_physical_check == other.last_physical_check
        &&& self.last_busoff_recovery == other.last_busoff_recovery
        &&& self.consecutive_send_failures == other.consecutive_send_failures
    }

    /// The driver's prefix and the channel, counted from one.
    pub open spec fn label(&self) -> Seq<char> {
        self.prefix@ + "CAN"@ + text::decimal((self.channel_index + 1) as nat)
    }

    fn push_label(&self, out: &mut String)
        ensures
            final(out)@ == old(out)@ + self.label(),
    {
        let ghost before = out@;
        out.push_str(self.prefix.as_str());
        out.push_str("CAN");
        text::push_decimal(out, self.channel_index as u64 + 1);
        assert(out@ =~= before + self.label());
    }

    /// The channel of a configuration, ready to be initialised with the settings of `settings`.
    pub fn open(cfg: &DeviceConfig, prefix: &str, device_type: u32) -> (r: Result<VciBus, String>)
        ensures
            r is Ok <==> sja1000_timing(cfg.baud@) is Some,
            r matches Err(m) ==> m@ == "不支持的波特率: "@ + cfg.baud@,
            r matches Ok(bus) ==> {
                &&& bus.prefix@ == prefix@
                &&& bus.device_type == device_type
                &&& bus.device_index == cfg.device_index
                &&& bus.channel_index == cfg.channel_index
                &&& Some((bus.timing0, bus.timing1)) == sja1000_timing(cfg.baud@)
                &&& bus.listen_only == cfg.listen_only
                &&& bus.last_health_check is None
                &&& bus.last_physical_check is None
                &&& bus.last_busoff_recovery is None
                &&& bus.consecutive_send_failures == 0
                &&& bus.name@ == cfg.device_type@ + " dev"@ + text::decimal(
                    cfg.device_index as nat,
                ) + " CAN"@ + text::decimal(cfg.channel_index as nat) + " @"@ + normalized_baud(
                    cfg.baud@,
                )
            },
    {
        let (timing0, timing1): (u8, u8) = match zlg_timing(cfg.baud.as_str()) {
            Some(timing) => timing,
            None => {
                let mut message = "不支持的波特率: ".to_owned();
                message.push_str(cfg.baud.as_str());
                return Err(message);
            },
        };
        let mut name = cfg.device_type.clone();
        name.push_str(" dev");
        text::push_decimal(&mut name, cfg.device_index as u64);
        name.push_str(" CAN");
        text::push_decimal(&mut name, cfg.channel_index as u64);
        name.push_str(" @");
        let rate = normalize_baud(cfg.baud.as_str());
        name.push_str(rate.as_str());
        Ok(
            VciBus {
                prefix: prefix.to_owned(),
                device_type,
                device_index: cfg.device_index,
                channel_index: cfg.channel_index,
                timing0,
                timing1,
                listen_only: cfg.listen_only,
                last_health_check: None,
                last_physical_check: None,
                last_busoff_recovery: None,
                consecutive_send_failures: 0,
                name,
            },
        )
    }

    /// The settings that the channel is initialised with.
    pub fn settings(&self) -> (r: VCI_INIT_CONFIG)
        ensures
            r == init_settings(self.timing0, self.timing1, self.listen_only),
    {
        let mode: u8 = if self.listen_only {
            1
        } else {
            0
        };
        VCI_INIT_CONFIG {
            acc_code: 0,
            acc_mask: 0xFFFF_FFFF,
            reserved: 0,
            filter: 1,
            timing0: self.timing0,
            timing1: self.timing1,
            mode,
        }
    }

    /// Takes the messages of a receive call that reported `received`. A report ends the poll.
    pub fn received(&self, received: u32, buffer: &[VCI_CAN_OBJ], t: i64, out: &mut Vec<CanFrame>) -> (r:
        Option<PollReport>)
        requires
            self.channel_index < u32::MAX,
        ensures
            received == u32::MAX ==> final(out)@ == old(out)@ && (r matches Some(report)
                && reports_error(report, true, self.prefix@ + "Receive 返回驱动错误"@)),
            received != u32::MAX ==> r is None && frames_view(final(out)@) == frames_view(old(out)@)
                + buffer@.take(
                if received < buffer@.len() {
                    received as int
                } else {
                    buffer@.len() as int
                },
            ).map_values(|m: VCI_CAN_OBJ| vci_frame(m, self.channel_index, t)),
    {
        if received == u32::MAX {
            let mut message = self.prefix.clone();
            message.push_str("Receive 返回驱动错误");
            return Some(error_report(true, message));
        }
        let n: usize = if (received as usize) < buffer.len() {
            received as usize
        } else {
            buffer.len()
        };
        let ghost first = frames_view(out@);
        let ghost f = |m: VCI_CAN_OBJ| vci_frame(m, self.channel_index, t);
        let mut i: usize = 0;
        assert(frames_view(out@) =~= first + buffer@.take(0).map_values(f));
        while i < n
            invariant
                i <= n <= buffer@.len(),
                self.channel_index < u32::MAX,
                f == (|m: VCI_CAN_OBJ| vci_frame(m, self.channel_index, t)),
                frames_view(out@) == first + buffer@.take(i as int).map_values(f),
            decreases n - i,
        {
            let msg: VCI_CAN_OBJ = buffer[i];
            let len: usize = if msg.data_len < 8 {
                msg.data_len as usize
            } else {
                8
            };
            let frame = CanFrame {
                t,
                ch: ((self.channel_index + 1) % 256) as u8,
                tx: false,
                id: msg.id,
                ext: msg.extern_flag != 0,
                fd: false,
                brs: false,
                remote: msg.remote_flag != 0,
                error: false,
                data: head_of_8(&msg.data, len),
            };
            let ghost before = out@;
            out.push(frame);
            proof {
                assert(frame@ == f(buffer@[i as int]));
                assert(frames_view(out@) =~= frames_view(before).push(frame@));
                assert(first + buffer@.take(i + 1).map_values(f) =~= (first + buffer@.take(
                    i as int,
                ).map_values(f)).push(frame@));
            }
            i += 1;
        }
        None
    }

    /// Begins the supervision that follows the receive call, at most every quarter of a second.
    /// Drivers without a prefix are looked up among the attached devices once a second.
    pub fn begin_health(&mut self, now: u64) -> (r: VciStep)
        ensures
            final(self).same_channel(old(self)),
            final(self).last_busoff_recovery == old(self).last_busoff_recovery,
            final(self).consecutive_send_failures == old(self).consecutive_send_failures,
            !is_due(old(self).last_health_check, now, HEALTH_CHECK_INTERVAL) ==> final(self).unchanged(old(self)) && (r matches VciStep::Done(report) && reports_nothing(report)),
            is_due(old(self).last_health_check, now, HEALTH_CHECK_INTERVAL) ==> {
                let look_up = old(self).prefix@.len() == 0 && is_due(
                    old(self).last_physical_check,
                    now,
                    PHYSICAL_CHECK_INTERVAL,
                );
                &&& final(self).last_health_check == Some(now)
                &&& final(self).last_physical_check == if look_up {
                    Some(now)
                } else {
                    old(self).last_physical_check
                }
                &&& r == if look_up {
                    VciStep::LookUpDevice
                } else {
                    old(self).first_query()
                }
            },
    {
        if !due(self.last_health_check, now, HEALTH_CHECK_INTERVAL) {
            return VciStep::Done(PollReport::default());
        }
        self.last_health_check = Some(now);
        if self.prefix.as_str().is_empty() && due(
            self.last_physical_check,
            now,
            PHYSICAL_CHECK_INTERVAL,
        ) {
            self.last_physical_check = Some(now);
            return VciStep::LookUpDevice;
        }
        self.query()
    }

    /// The first query of a supervision: the status where transmissions kept failing.
    pub open spec fn first_query(&self) -> VciStep {
        if self.consecutive_send_failures >= SEND_FAILURE_LIMIT {
            VciStep::ReadDoubtfulStatus
        } else {
            VciStep::CheckPresence
        }
    }

    fn query(&self) -> (r: VciStep)
        ensures
            r == self.first_query(),
    {
        if self.consecutive_send_failures >= SEND_FAILURE_LIMIT {
            VciStep::ReadDoubtfulStatus
        } else {
            VciStep::CheckPresence
        }
    }

    /// Takes the answer of the device lookup; an unknown answer counts as present.
    pub fn after_lookup(&self, present: Option<bool>) -> (r: VciStep)
        ensures
            present == Some(false) ==> (r matches VciStep::Done(report) && reports_error(
                report,
                true,
                "GCAN USB 设备已从 Windows PnP 设备树移除"@,
            )),
            present != Some(false) ==> r == self.first_query(),
    {
        match present {
            Some(false) => VciStep::Done(
                error_report(true, "GCAN USB 设备已从 Windows PnP 设备树移除".to_owned()),
            ),
            _ => self.query(),
        }
    }

    /// Takes the status that was read because transmissions kept failing. Registers that are all
    /// zero mean that the handle is dead.
    pub fn after_doubtful_status(&self, status: Result<Option<VCI_CAN_STATUS>, String>) -> (r:
        VciStep)
        ensures
            match status {
                Err(error) => r matches VciStep::Done(report) && reports_error(report, true, error@),
                Ok(Some(s)) => if s.reg_status == 0 && s.reg_re_counter == 0 && s.reg_te_counter
                    == 0 {
                    r matches VciStep::Done(report) && reports_error(
                        report,
                        true,
                        self.prefix@
                            + "设备连续发送失败且状态寄存器无响应，判定 USB 句柄已失效"@,
                    )
                } else {
                    r is CheckPresence
                },
                Ok(None) => r is CheckPresence,
            },
    {
        match status {
            Err(error) => VciStep::Done(error_report(true, error)),
            Ok(Some(s)) => if s.reg_status == 0 && s.reg_re_counter == 0 && s.reg_te_counter == 0 {
                let mut message = self.prefix.clone();
                message.push_str("设备连续发送失败且状态寄存器无响应，判定 USB 句柄已失效");
                VciStep::Done(error_report(true, message))
            } else {
                VciStep::CheckPresence
            },
            Ok(None) => VciStep::CheckPresence,
        }
    }

    /// Takes the answer of the device to whether it is present.
    pub fn after_presence(&self, present: Result<(), String>) -> (r: VciStep)
        ensures
            match present {
                Ok(()) => r is ReadStatus,
                Err(error) => r matches VciStep::Done(report) && reports_error(report, true, error@),
            },
    {
        match present {
            Ok(()) => VciStep::ReadStatus,
            Err(error) => VciStep::Done(error_report(true, error)),
        }
    }

    /// Whether a status calls for a recovery: Bus-Off, or error-passive while transmissions keep
    /// failing.
    pub open spec fn needs_recovery(&self, status: VCI_CAN_STATUS) -> bool {
        shows_bus_off(status) || (shows_error_passive(status) && self.consecutive_send_failures
            >= SEND_FAILURE_LIMIT)
    }

    /// Takes the status registers. A fault that calls for a recovery gets one at most every
    /// second; otherwise a warning is reported.
    pub fn after_status(&mut self, now: u64, status: Result<Option<VCI_CAN_STATUS>, String>) -> (r:
        VciStep)
        ensures
            final(self).same_channel(old(self)),
            final(self).last_health_check == old(self).last_health_check,
            final(self).last_physical_check == old(self).last_physical_check,
            final(self).consecutive_send_failures == old(self).consecutive_send_failures,
            !(r is Recover) ==> final(self).last_busoff_recovery == old(self).last_busoff_recovery,
            match status {
                Err(error) => r matches VciStep::Done(report) && reports_error(report, true, error@),
                Ok(None) => r matches VciStep::Done(report) && reports_nothing(report),
                Ok(Some(s)) => if old(self).needs_recovery(s) && is_due(
                    old(self).last_busoff_recovery,
                    now,
                    RECOVERY_INTERVAL,
                ) {
                    &&& final(self).last_busoff_recovery == Some(now)
                    &&& r == (VciStep::Recover {
                        settings: init_settings(
                            old(self).timing0,
                            old(self).timing1,
                            old(self).listen_only,
                        ),
                        status: s,
                    })
                } else if !old(self).needs_recovery(s) && shows_error_warning(s) {
                    r matches VciStep::Done(report) && reports_error(
                        report,
                        false,
                        old(self).label() + " 总线错误警告"@ + registers_text(s),
                    )
                } else {
                    r matches VciStep::Done(report) && reports_nothing(report)
                },
            },
    {
        let s: VCI_CAN_STATUS = match status {
            Err(error) => {
                return VciStep::Done(error_report(true, error));
            },
            Ok(None) => {
                return VciStep::Done(PollReport::default());
            },
            Ok(Some(s)) => s,
        };
        let bus_off: bool = s.reg_status & 0x80 != 0 || s.reg_te_counter == 255;
        let passive: bool = s.reg_re_counter >= 128 || s.reg_te_counter >= 128;
        let warning: bool = s.reg_status & 0x40 != 0 || passive || (s.reg_ew_limit != 0 && (
        s.reg_re_counter >= s.reg_ew_limit || s.reg_te_counter >= s.reg_ew_limit));
        if bus_off || (passive && self.consecutive_send_failures >= SEND_FAILURE_LIMIT) {
            if due(self.last_busoff_recovery, now, RECOVERY_INTERVAL) {
                self.last_busoff_recovery = Some(now);
                return VciStep::Recover { settings: self.settings(), status: s };
            }
        } else if warning {
            let mut message = String::new();
            self.push_label(&mut message);
            message.push_str(" 总线错误警告");
            push_registers(&mut message, s);
            assert(message@ =~= self.label() + " 总线错误警告"@ + registers_text(s));
            return VciStep::Done(error_report(false, message));
        }
        VciStep::Done(PollReport::default())
    }

    /// Takes the outcome of a recovery from the fault that `status` showed.
    pub fn after_recovery(&mut self, status: VCI_CAN_STATUS, recovery: Result<(), String>) -> (r:
        PollReport)
        ensures
            final(self).same_channel(old(self)),
            final(self).last_health_check == old(self).last_health_check,
            final(self).last_physical_check == old(self).last_physical_check,
            final(self).last_busoff_recovery == old(self).last_busoff_recovery,
            final(self).consecutive_send_failures == if recovery is Ok {
                0
            } else {
                old(self).consecutive_send_failures
            },
            ({
                let fault = old(self).label() + " "@ + if shows_bus_off(status) {
                    "Bus-Off"@
                } else {
                    "Bus-Off 等效错误被动（驱动未上报 Bus-Off 位）"@
                };
                match recovery {
                    Ok(()) => reports_error(
                        r,
                        false,
                        fault + "，已自动复位恢复（"@ + counters_text(status) + "）"@,
                    ),
                    Err(error) => reports_error(r, true, fault + "恢复失败: "@ + error@),
                }
            }),
    {
        let mut message = String::new();
        self.push_label(&mut message);
        message.push_str(" ");
        if status.reg_status & 0x80 != 0 || status.reg_te_counter == 255 {
            message.push_str("Bus-Off");
        } else {
            message.push_str("Bus-Off 等效错误被动（驱动未上报 Bus-Off 位）");
        }
        let ghost fault = message@;
        proof {
            assert(fault =~= self.label() + " "@ + if shows_bus_off(status) {
                "Bus-Off"@
            } else {
                "Bus-Off 等效错误被动（驱动未上报 Bus-Off 位）"@
            });
        }
        match recovery {
            Ok(()) => {
                self.consecutive_send_failures = 0;
                message.push_str("，已自动复位恢复（");
                push_counters(&mut message, status);
                message.push_str("）");
                error_report(false, message)
            },
            Err(error) => {
                message.push_str("恢复失败: ");
                message.push_str(error.as_str());
                error_report(true, message)
            },
        }
    }

    /// Builds the message for a frame. A listening channel sends nothing, and VCI adapters know
    /// neither FD frames nor payloads of more than eight bytes.
    pub fn message(&self, f: &CanFrame) -> (r: Result<VCI_CAN_OBJ, String>)
        ensures
            r is Ok <==> !self.listen_only && !f.fd && f.data@.len() <= 8,
            r matches Ok(msg) ==> vci_carries(msg, f@),
            r matches Err(m) ==> m@ == if self.listen_only {
                "监听模式禁止发送 CAN 报文"@
            } else {
                "当前 VCI 适配器不支持 CAN FD 发送"@
            },
    {
        if self.listen_only {
            return Err("监听模式禁止发送 CAN 报文".to_owned());
        }
        if f.fd || f.data.len() > 8 {
            return Err("当前 VCI 适配器不支持 CAN FD 发送".to_owned());
        }
        let data: [u8; 8] = padded_8(f.data.as_slice());
        let reserved: [u8; 3] = [0;3];
        assert(reserved@ =~= seq![0u8, 0u8, 0u8]);
        let remote_flag: u8 = if f.remote {
            1
        } else {
            0
        };
        let extern_flag: u8 = if f.ext {
            1
        } else {
            0
        };
        Ok(
            VCI_CAN_OBJ {
                id: f.id,
                time_stamp: 0,
                time_flag: 0,
                send_type: 0,
                remote_flag,
                extern_flag,
                data_len: f.data.len() as u8,
                data,
                reserved,
            },
        )
    }

    /// Takes the outcome of a transmission of one message and counts failures in a row. `status`
    /// is what the registers said after a failure.
    pub fn transmitted(&mut self, transmitted: u32, status: Option<VCI_CAN_STATUS>) -> (r: Result<
        (),
        String,
    >)
        ensures
            final(self).same_channel(old(self)),
            final(self).last_health_check == old(self).last_health_check,
            final(self).last_physical_check == old(self).last_physical_check,
            final(self).last_busoff_recovery == old(self).last_busoff_recovery,
            r is Ok <==> transmitted == 1,
            final(self).consecutive_send_failures == if transmitted == 1 {
                0
            } else if old(self).consecutive_send_failures == 255 {
                255
            } else {
                old(self).consecutive_send_failures + 1
            },
            r matches Err(m) ==> m@ == old(self).prefix@ + "Transmit 失败"@ + match status {
                Some(s) => registers_text(s),
                None => seq![],
            },
    {
        if transmitted == 1 {
            self.consecutive_send_failures = 0;
            return Ok(());
        }
        self.consecutive_send_failures = self.consecutive_send_failures.saturating_add(1);
        let mut message = self.prefix.clone();
        message.push_str("Transmit 失败");
        if let Some(s) = status {
            push_registers(&mut message, s);
        }
        assert(message@ =~= self.prefix@ + "Transmit 失败"@ + match status {
            Some(s) => registers_text(s),
            None => seq![],
        });
        Err(message)
    }
}

/// What was sent comes back: a frame received from the message that carries it is the frame that
/// was sent, on the channel that received it.
pub proof fn law_vci_messages_round_trip(f: FrameView, msg: VCI_CAN_OBJ, channel_index: u32, t: i64)
    requires
        vci_carries(msg, f),
        !f.fd,
        !f.brs,
        f.data.len() <= 8,
    ensures
        vci_frame(msg, channel_index, t) == (FrameView {
            t,
            ch: ((channel_index + 1) % 256) as u8,
            tx: false,
            error: false,
            ..f
        }),
{
    assert(msg.data@.take(f.data.len() as int) =~= f.data);
}

} // verus!
