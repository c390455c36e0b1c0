//! Channels of ZLG adapters: opening, error supervision, receiving and sending.
//!
//! As with the VCI adapters, each method takes the answer to one driver call and says what
//! follows.
use crate::can::bitrate::{baud_to_bps, bits_per_second};
use crate::can::payload::{head_of_64, head_of_8, padded_64, padded_8, zero_padded};
use crate::can::pcan::reports_nothing;
use crate::can::timebase::HardwareTimebase;
use crate::can::vci::{due, is_due, reports_error, DriverCall};
use crate::can::zcan::{
    profile_of, zcan_driver_channel_type, zcan_profile, ZcanDeviceFamily, ZcanDeviceProfile,
};
use crate::can::zcan_ffi::{le_bytes, zero_status, CanFrameC, CanfdFrameC, ZcanChannelStatus, ZcanReceiveData, ZcanReceiveFdData, ZcanTransmitData, ZcanTransmitFdData, EFF, ERROR_BUFFERCREATE, ERROR_BUFFEROVERFLOW, ERROR_CAN_BUFFER_OVERFLOW, ERROR_CAN_BUSERR, ERROR_CAN_BUSOFF, ERROR_CAN_ERRALARM, ERROR_CAN_LOSE, ERROR_CAN_OVERFLOW, ERROR_CAN_PASSIVE, ERROR_CMDFAILED, ERROR_DEVICENOTEXIST, ERROR_DEVICENOTOPEN, ERROR_DEVICEOPEN, ERROR_DEVICEOPENED, ERROR_LOADKERNELDLL, ID_MASK, RTR};
use crate::can::{
    frames_view, normalize_baud, normalized_baud, CanFrame, DeviceConfig, DeviceConfigView,
    FrameView, PollReport,
};
use crate::text;
use vstd::prelude::*;

verus! {

/// Nanoseconds between two checks of a channel's health.
pub const ZCAN_HEALTH_INTERVAL: u64 = 200_000_000;

/// Nanoseconds between two attempts to recover from Bus-Off.
pub const ZCAN_RECOVERY_INTERVAL: u64 = 1_000_000_000;

/// Messages that one receive call takes at most.
pub const ZCAN_RECEIVE_BATCH: u32 = 256;

// ---------------------------------------------------------------- error codes

/// Whether an error code says that the device is gone or was never open.
pub open spec fn code_means_loss(code: u32) -> bool {
    code & (ERROR_DEVICEOPEN | ERROR_DEVICENOTOPEN | ERROR_DEVICENOTEXIST | ERROR_LOADKERNELDLL)
        != 0
}

/// Whether an error code says that the device is gone or was never open.
pub fn zcan_error_is_connection_lost(error_code: u32) -> (r: bool)
    ensures
        r == code_means_loss(error_code),
{
    error_code & (ERROR_DEVICEOPEN | ERROR_DEVICENOTOPEN | ERROR_DEVICENOTEXIST
        | ERROR_LOADKERNELDLL) != 0
}

/// Bus errors alone are no reason to give the device up.
pub proof fn law_bus_errors_keep_the_connection(code: u32)
    requires
        code <= 0x7F,
    ensures
        !code_means_loss(code),
{
    assert(code <= 0x7F ==> code & (0x0200u32 | 0x0400u32 | 0x1000u32 | 0x2000u32) == 0)
        by (bit_vector);
}

/// One text where the condition holds, none otherwise.
pub open spec fn cause_if(holds: bool, cause: Seq<char>) -> Seq<Seq<char>> {
    if holds {
        seq![cause]
    } else {
        seq![]
    }
}

/// The causes that an error code names.
pub open spec fn named_causes(code: u32) -> Seq<Seq<char>> {
    cause_if(code & ERROR_CAN_OVERFLOW != 0, "控制器接收溢出"@) + cause_if(
        code & ERROR_CAN_BUFFER_OVERFLOW != 0 || code & ERROR_BUFFEROVERFLOW != 0,
        "驱动接收缓冲区溢出"@,
    ) + cause_if(code & ERROR_CAN_ERRALARM != 0, "错误计数达到报警阈值"@) + cause_if(
        code & ERROR_CAN_PASSIVE != 0,
        "CAN 控制器进入错误被动状态"@,
    ) + cause_if(code & ERROR_CAN_LOSE != 0, "仲裁丢失"@) + cause_if(
        code & ERROR_CAN_BUSERR != 0,
        "CAN 总线错误：检查 CAN_H/CAN_L、共地、两端 120Ω、波特率以及是否存在可应答节点"@,
    ) + cause_if(code & ERROR_CAN_BUSOFF != 0, "CAN 控制器 Bus-Off"@) + cause_if(
        code & ERROR_DEVICEOPENED != 0,
        "设备已被其他程序占用"@,
    ) + cause_if(code & ERROR_DEVICEOPEN != 0, "设备打开失败"@) + cause_if(
        code & ERROR_DEVICENOTOPEN != 0,
        "设备未打开"@,
    ) + cause_if(code & ERROR_DEVICENOTEXIST != 0, "设备不存在或 USB 已断开"@) + cause_if(
        code & ERROR_LOADKERNELDLL != 0,
        "ZLG 内核驱动 DLL 加载失败"@,
    ) + cause_if(code & ERROR_CMDFAILED != 0, "驱动命令执行失败"@) + cause_if(
        code & ERROR_BUFFERCREATE != 0,
        "驱动缓冲区创建失败"@,
    )
}

/// The message for an error code, with the error counters where they are known.
pub open spec fn error_text(code: u32, status: Option<ZcanChannelStatus>) -> Seq<char> {
    let causes = if named_causes(code).len() == 0 {
        seq!["未知 ZLG 驱动错误"@]
    } else {
        named_causes(code)
    };
    "ZLG 错误 0x"@ + text::hex_padded(code as nat, 8) + "："@ + text::joined(causes, "；"@)
        + match status {
        None => seq![],
        Some(s) => "，RXErr="@ + text::decimal(s.reg_re_counter as nat) + " TXErr="@
            + text::decimal(s.reg_te_counter as nat) + " Status=0x"@ + text::hex_padded(
            s.reg_status as nat,
            2,
        ),
    }
}

fn push_cause(causes: &mut Vec<String>, holds: bool, cause: &str)
    ensures
        text::texts(final(causes)@) == text::texts(old(causes)@) + cause_if(holds, cause@),
{
    let ghost before = causes@;
    if holds {
        causes.push(cause.to_owned());
    }
    assert(text::texts(causes@) =~= text::texts(before) + cause_if(holds, cause@));
}

/// The message for an error code.
pub fn zcan_error_message(error_code: u32, status: Option<ZcanChannelStatus>) -> (r: String)
    ensures
        r@ == error_text(error_code, status),
{
    let code: u32 = error_code;
    let mut causes: Vec<String> = Vec::new();
    assert(text::texts(causes@) =~= Seq::<Seq<char>>::empty());
    push_cause(&mut causes, code & ERROR_CAN_OVERFLOW != 0, "控制器接收溢出");
    assert(text::texts(causes@) =~= cause_if(code & ERROR_CAN_OVERFLOW != 0, "控制器接收溢出"@));
    push_cause(
        &mut causes,
        code & ERROR_CAN_BUFFER_OVERFLOW != 0 || code & ERROR_BUFFEROVERFLOW != 0,
        "驱动接收缓冲区溢出",
    );
    push_cause(&mut causes, code & ERROR_CAN_ERRALARM != 0, "错误计数达到报警阈值");
    push_cause(&mut causes, code & ERROR_CAN_PASSIVE != 0, "CAN 控制器进入错误被动状态");
    push_cause(&mut causes, code & ERROR_CAN_LOSE != 0, "仲裁丢失");
    push_cause(
        &mut causes,
        code & ERROR_CAN_BUSERR != 0,
        "CAN 总线错误：检查 CAN_H/CAN_L、共地、两端 120Ω、波特率以及是否存在可应答节点",
    );
    push_cause(&mut causes, code & ERROR_CAN_BUSOFF != 0, "CAN 控制器 Bus-Off");
    push_cause(&mut causes, code & ERROR_DEVICEOPENED != 0, "设备已被其他程序占用");
    push_cause(&mut causes, code & ERROR_DEVICEOPEN != 0, "设备打开失败");
    push_cause(&mut causes, code & ERROR_DEVICENOTOPEN != 0, "设备未打开");
    push_cause(&mut causes, code & ERROR_DEVICENOTEXIST != 0, "设备不存在或 USB 已断开");
    push_cause(&mut causes, code & ERROR_LOADKERNELDLL != 0, "ZLG 内核驱动 DLL 加载失败");
    push_cause(&mut causes, code & ERROR_CMDFAILED != 0, "驱动命令执行失败");
    push_cause(&mut causes, code & ERROR_BUFFERCREATE != 0, "驱动缓冲区创建失败");
    assert(text::texts(causes@) == named_causes(code));
    assert(causes@.len() == named_causes(code).len());
    if causes.len() == 0 {
        causes.push("未知 ZLG 驱动错误".to_owned());
        assert(text::texts(causes@) =~= seq!["未知 ZLG 驱动错误"@]);
    }
    let listed = text::join(causes.as_slice(), "；");
    let mut message = "ZLG 错误 0x".to_owned();
    text::push_hex_padded(&mut message, code as u64, 8);
    message.push_str("：");
    message.push_str(listed.as_str());
    let ghost head = message@;
    if let Some(s) = status {
        message.push_str("，RXErr=");
        text::push_decimal(&mut message, s.reg_re_counter as u64);
        message.push_str(" TXErr=");
        text::push_decimal(&mut message, s.reg_te_counter as u64);
        message.push_str(" Status=0x");
        text::push_hex_padded(&mut message, s.reg_status as u64, 2);
    }
    assert(message@ =~= error_text(code, status));
    message
}

/// `a + b`, held at the end of the range of `u64`.
pub open spec fn held_sum(a: u64, b: u64) -> u64 {
    if a + b > u64::MAX {
        u64::MAX
    } else {
        (a + b) as u64
    }
}

/// Adds a report to another: counts add up, a loss stays, the later message wins.
pub fn merge_poll_report(target: &mut PollReport, source: PollReport)
    ensures
        final(target).receive_overruns == held_sum(
            old(target).receive_overruns,
            source.receive_overruns,
        ),
        final(target).driver_errors == held_sum(old(target).driver_errors, source.driver_errors),
        final(target).connection_lost == (old(target).connection_lost || source.connection_lost),
        final(target).message == if source.message is Some {
            source.message
        } else {
            old(target).message
        },
{
    target.receive_overruns = target.receive_overruns.saturating_add(source.receive_overruns);
    target.driver_errors = target.driver_errors.saturating_add(source.driver_errors);
    target.connection_lost = target.connection_lost || source.connection_lost;
    if source.message.is_some() {
        target.message = source.message;
    }
}

/// Adds a failed driver call to a report.
pub fn add_driver_failure(target: &mut PollReport, message: &str)
    ensures
        final(target).receive_overruns == old(target).receive_overruns,
        final(target).driver_errors == held_sum(old(target).driver_errors, 1),
        final(target).connection_lost == old(target).connection_lost,
        final(target).message matches Some(m) && m@ == message@,
{
    target.driver_errors = target.driver_errors.saturating_add(1);
    target.message = Some(message.to_owned());
}

// ---------------------------------------------------------------- opening

/// A device property that is set before a channel is initialised.
#[derive(Debug)]
pub struct ZcanProperty {
    pub key: String,
    pub value: String,
    /// Whether opening fails where the property cannot be set.
    pub required: bool,
}

/// What a property is, with its texts as character sequences.
pub struct PropertyView {
    pub key: Seq<char>,
    pub value: Seq<char>,
    pub required: bool,
}

impl View for ZcanProperty {
    type V = PropertyView;

    open spec fn view(&self) -> PropertyView {
        PropertyView { key: self.key@, value: self.value@, required: self.required }
    }
}

impl ZcanProperty {
    /// The path under which the driver keeps the property of a channel.
    pub fn path(&self, channel_index: u32) -> (r: String)
        ensures
            r@ == text::decimal(channel_index as nat) + "/"@ + self.key@,
    {
        let mut path = text::decimal_string(channel_index as u64);
        path.push_str("/");
        path.push_str(self.key.as_str());
        path
    }

    /// What follows from the driver's answer to setting the property.
    pub fn set_outcome(&self, answer: u32) -> (r: Result<(), String>)
        ensures
            r is Err <==> self.required && answer != 1,
            r matches Err(m) ==> m@ == "设置 "@ + self.key@ + "="@ + self.value@ + " 失败"@,
    {
        if !self.required || answer == 1 {
            return Ok(());
        }
        let mut message = "设置 ".to_owned();
        message.push_str(self.key.as_str());
        message.push_str("=");
        message.push_str(self.value.as_str());
        message.push_str(" 失败");
        Err(message)
    }
}

/// `1` or `0`.
pub open spec fn switch_text(on: bool) -> Seq<char> {
    if on {
        "1"@
    } else {
        "0"@
    }
}

fn switch(on: bool) -> (r: String)
    ensures
        r@ == switch_text(on),
{
    if on {
        "1".to_owned()
    } else {
        "0".to_owned()
    }
}

pub open spec fn required_property(key: Seq<char>, value: Seq<char>) -> PropertyView {
    PropertyView { key, value, required: true }
}

pub open spec fn optional_property(key: Seq<char>, value: Seq<char>) -> PropertyView {
    PropertyView { key, value, required: false }
}

/// The properties that a channel needs before it is initialised, in order.
pub open spec fn opening_properties(cfg: DeviceConfigView, profile: ZcanDeviceProfile) -> Seq<
    PropertyView,
> {
    let arbitration = text::decimal(bits_per_second(cfg.baud) as nat);
    let data = if cfg.is_fd {
        text::decimal(bits_per_second(cfg.data_baud) as nat)
    } else {
        arbitration
    };
    match profile.family {
        ZcanDeviceFamily::NetworkTcp => seq![
            required_property("work_mode"@, switch_text(cfg.net_server)),
            required_property("ip"@, cfg.ip),
            required_property("work_port"@, cfg.port),
        ],
        ZcanDeviceFamily::NetworkUdp => seq![
            required_property("local_port"@, cfg.port),
            required_property("ip"@, cfg.ip),
            required_property("work_port"@, cfg.port),
        ],
        ZcanDeviceFamily::UsbCanFd => seq![
            optional_property("canfd_standard"@, switch_text(cfg.fd_non_iso)),
            optional_property("work_mode"@, switch_text(cfg.listen_only)),
            required_property("canfd_abit_baud_rate"@, arbitration),
            required_property("canfd_dbit_baud_rate"@, data),
        ],
        ZcanDeviceFamily::UsbClassic => seq![required_property("baud_rate"@, arbitration)],
    }
}

/// The views of a list of properties.
pub open spec fn properties_view(properties: Seq<ZcanProperty>) -> Seq<PropertyView> {
    properties.map_values(|p: ZcanProperty| p@)
}

/// What has to be done to open a channel.
#[derive(Debug)]
pub struct ZcanOpening {
    pub profile: ZcanDeviceProfile,
    /// Set before initialisation, in order.
    pub properties: Vec<ZcanProperty>,
    /// Whether the driver's bit rate is read back for the channel's name.
    pub reads_back_rate: bool,
    /// The channel type of the initialisation call.
    pub can_type: u32,
    /// Set after initialisation.
    pub termination: Option<ZcanProperty>,
}

fn property(key: &str, value: String, required: bool) -> (r: ZcanProperty)
    ensures
        r@ == (PropertyView { key: key@, value: value@, required }),
{
    ZcanProperty { key: key.to_owned(), value, required }
}

/// A channel of a ZLG adapter. Times are nanoseconds on the capture timeline.
#[derive(Debug)]
pub struct ZcanFdBus {
    pub channel_is_fd: bool,
    pub listen_only: bool,
    pub timestamp: HardwareTimebase,
    pub name: String,
    pub last_health_check: Option<u64>,
    pub last_error_code: u32,
    pub last_busoff_recovery: Option<u64>,
    pub last_error_counters: Option<(u8, u8)>,
    pub pending_error_frames: Vec<CanFrame>,
}

/// The name of an opened channel.
pub open spec fn zcan_bus_name(
    cfg: DeviceConfigView,
    profile: ZcanDeviceProfile,
    read_back: Option<Seq<char>>,
) -> Seq<char> {
    if profile.networked() {
        cfg.device_type + " "@ + cfg.ip + ":"@ + cfg.port
    } else {
        cfg.device_type + " dev"@ + text::decimal(cfg.device_index as nat) + " CAN"@
            + text::decimal(cfg.channel_index as nat) + " @"@ + normalized_baud(cfg.baud) + (
        if cfg.is_fd {
            "/"@ + normalized_baud(cfg.data_baud)
        } else {
            seq![]
        }) + match read_back {
            Some(value) => if value.len() > 0 {
                " [driver="@ + value + "]"@
            } else {
                seq![]
            },
            None => seq![],
        }
    }
}

/// A check on the way to an open channel.
#[derive(Clone, Copy, Debug)]
pub enum ZcanOpenCheck {
    /// Whether initialisation gave a channel handle.
    Initialized(bool),
    /// The answer to starting the channel.
    Started(u32),
    /// The answer to whether the device is online.
    Online(u32),
}

/// What follows from a check on the way to an open channel.
pub fn open_check(check: ZcanOpenCheck) -> (r: Result<(), String>)
    ensures
        match check {
            ZcanOpenCheck::Initialized(ok) => if ok {
                r is Ok
            } else {
                r matches Err(m) && m@ == "ZCAN_InitCAN 失败"@
            },
            ZcanOpenCheck::Started(answer) => if answer == 1 {
                r is Ok
            } else {
                r matches Err(m) && m@ == "ZCAN_StartCAN 失败"@
            },
            ZcanOpenCheck::Online(answer) => if answer != 0 {
                r is Ok
            } else {
                r matches Err(m) && m@
                    == "ZLG 设备打开后报告离线，请检查 USB、驱动和设备占用状态"@
            },
        },
{
    match check {
        ZcanOpenCheck::Initialized(ok) => if ok {
            Ok(())
        } else {
            Err("ZCAN_InitCAN 失败".to_owned())
        },
        ZcanOpenCheck::Started(answer) => if answer == 1 {
            Ok(())
        } else {
            Err("ZCAN_StartCAN 失败".to_owned())
        },
        ZcanOpenCheck::Online(answer) => if answer != 0 {
            Ok(())
        } else {
            Err("ZLG 设备打开后报告离线，请检查 USB、驱动和设备占用状态".to_owned())
        },
    }
}

/// The message for a device that could not be opened.
pub fn device_refused(profile: ZcanDeviceProfile) -> (r: String)
    ensures
        r@ == if profile.family == ZcanDeviceFamily::UsbClassic {
            "ZCAN_OpenDevice 失败（USBCAN-E-U 驱动未启动或设备被占用；请重新插拔设备，或以管理员权限重新安装官方驱动）"@
        } else {
            "ZCAN_OpenDevice 失败（设备未连接、被其他程序占用或 ZLG 驱动不可用；请关闭 ZCANPRO 等工具、重新插拔设备后重试）"@
        },
{
    match profile.family {
        ZcanDeviceFamily::UsbClassic => "ZCAN_OpenDevice 失败（USBCAN-E-U 驱动未启动或设备被占用；请重新插拔设备，或以管理员权限重新安装官方驱动）".to_owned(),
        _ => "ZCAN_OpenDevice 失败（设备未连接、被其他程序占用或 ZLG 驱动不可用；请关闭 ZCANPRO 等工具、重新插拔设备后重试）".to_owned(),
    }
}

impl ZcanFdBus {
    /// Plans to open a configured channel.
    pub fn open(cfg: &DeviceConfig) -> (r: Result<ZcanOpening, String>)
        ensures
            r is Ok <==> profile_of(cfg.device_type@) is Some,
            r matches Err(m) ==> m@ == "非新版 ZLG 设备类型: "@ + cfg.device_type@,
            r matches Ok(o) ==> {
                &&& Some(o.profile) == profile_of(cfg.device_type@)
                &&& properties_view(o.properties@) == opening_properties(cfg@, o.profile)
                &&& o.reads_back_rate == (o.profile.family == ZcanDeviceFamily::UsbClassic)
                &&& o.can_type == (if o.profile.family == ZcanDeviceFamily::UsbCanFd || cfg.is_fd {
                    1u32
                } else {
                    0u32
                })
                &&& o.termination is Some <==> o.profile.family == ZcanDeviceFamily::UsbCanFd
                &&& o.termination matches Some(p) ==> p@ == optional_property(
                    "initenal_resistance"@,
                    switch_text(cfg.termination),
                )
            },
    {
        let profile: ZcanDeviceProfile = match zcan_profile(cfg.device_type.as_str()) {
            Some(profile) => profile,
            None => {
                let mut message = "非新版 ZLG 设备类型: ".to_owned();
                message.push_str(cfg.device_type.as_str());
                return Err(message);
            },
        };
        let mut properties: Vec<ZcanProperty> = Vec::new();
        let mut termination: Option<ZcanProperty> = None;
        let mut reads_back_rate: bool = false;
        let arbitration = text::decimal_string(baud_to_bps(cfg.baud.as_str()) as u64);
        match profile.family {
            ZcanDeviceFamily::NetworkTcp => {
                properties.push(property("work_mode", switch(cfg.net_server), true));
                properties.push(property("ip", cfg.ip.clone(), true));
                properties.push(property("work_port", cfg.port.clone(), true));
            },
            ZcanDeviceFamily::NetworkUdp => {
                properties.push(property("local_port", cfg.port.clone(), true));
                properties.push(property("ip", cfg.ip.clone(), true));
                properties.push(property("work_port", cfg.port.clone(), true));
            },
            ZcanDeviceFamily::UsbCanFd => {
                properties.push(property("canfd_standard", switch(cfg.fd_non_iso), false));
                properties.push(property("work_mode", switch(cfg.listen_only), false));
                let data = if cfg.is_fd {
                    text::decimal_string(baud_to_bps(cfg.data_baud.as_str()) as u64)
                } else {
                    arbitration.clone()
                };
                properties.push(property("canfd_abit_baud_rate", arbitration, true));
                properties.push(property("canfd_dbit_baud_rate", data, true));
                termination = Some(
                    property("initenal_resistance", switch(cfg.termination), false),
                );
            },
            ZcanDeviceFamily::UsbClassic => {
                properties.push(property("baud_rate", arbitration, true));
                reads_back_rate = true;
            },
        }
        assert(properties_view(properties@) =~= opening_properties(cfg@, profile));
        Ok(
            ZcanOpening {
                profile,
                properties,
                reads_back_rate,
                can_type: zcan_driver_channel_type(profile, cfg.is_fd) as u32,
                termination,
            },
        )
    }

    /// The channel once the driver has started it.
    pub fn opened(cfg: &DeviceConfig, profile: ZcanDeviceProfile, read_back: Option<String>) -> (r:
        ZcanFdBus)
        ensures
            r.channel_is_fd == cfg.is_fd,
            r.listen_only == cfg.listen_only,
            r.timestamp == (HardwareTimebase {
                tick_nanos: 1000,
                wrap_modulus: None,
                wrap_offset: 0,
                previous_raw: None,
                anchor_raw: None,
                anchor_host: 0,
            }),
            r.last_health_check is None,
            r.last_error_code == 0,
            r.last_busoff_recovery is None,
            r.last_error_counters is None,
            r.pending_error_frames@.len() == 0,
            r.name@ == zcan_bus_name(
                cfg@,
                profile,
                match read_back {
                    Some(s) => Some(s@),
                    None => None,
                },
            ),
    {
        let mut name = cfg.device_type.clone();
        if profile.is_network() {
            name.push_str(" ");
            name.push_str(cfg.ip.as_str());
            name.push_str(":");
            name.push_str(cfg.port.as_str());
        } else {
            name.push_str(" dev");
            text::push_decimal(&mut name, cfg.device_index as u64);
            name.push_str(" CAN");
            text::push_decimal(&mut name, cfg.channel_index as u64);
            name.push_str(" @");
            let rate = normalize_baud(cfg.baud.as_str());
            name.push_str(rate.as_str());
            let ghost head = name@;
            if cfg.is_fd {
                name.push_str("/");
                let data = normalize_baud(cfg.data_baud.as_str());
                name.push_str(data.as_str());
            }
            let ghost with_data = name@;
            assert(with_data =~= head + (if cfg.is_fd {
                "/"@ + normalized_baud(cfg.data_baud@)
            } else {
                seq![]
            }));
            if let Some(value) = &read_back {
                if !value.as_str().is_empty() {
                    name.push_str(" [driver=");
                    name.push_str(value.as_str());
                    name.push_str("]");
                }
            }
            assert(name@ =~= with_data + match read_back {
                Some(value) => if value@.len() > 0 {
                    " [driver="@ + value@ + "]"@
                } else {
                    seq![]
                },
                None => seq![],
            });
        }
        ZcanFdBus {
            channel_is_fd: cfg.is_fd,
            listen_only: cfg.listen_only,
            timestamp: HardwareTimebase::new(1000, None),
            name,
            last_health_check: None,
            last_error_code: 0,
            last_busoff_recovery: None,
            last_error_counters: None,
            pending_error_frames: Vec::new(),
        }
    }
}


// ---------------------------------------------------------------- supervision

/// What the supervision of a channel asks for next.
#[derive(Debug)]
pub enum ZcanStep {
    /// Ask whether the device is online, then `after_online`.
    QueryOnline,
    /// Read the error code and the status registers, then `after_errors`.
    QueryErrors,
    /// Reset, clear and restart the channel, then `after_recovery` with this report.
    Recover(PollReport),
    /// The supervision is over.
    Done(PollReport),
}

/// An error frame of the capture.
pub open spec fn error_frame(t: i64, id: u32, data: Seq<u8>) -> FrameView {
    FrameView {
        t,
        ch: 1,
        tx: false,
        id,
        ext: false,
        fd: false,
        brs: false,
        remote: false,
        error: true,
        data,
    }
}

/// The error frames that a supervision adds: one where the error counters moved, one for an error
/// code that was not reported last time.
pub open spec fn new_error_frames(
    counters: Option<(u8, u8)>,
    last_code: u32,
    code: u32,
    status: Option<ZcanChannelStatus>,
    t: i64,
) -> Seq<FrameView> {
    let moved = counters is Some && status is Some && counters->0 != (
        status->0.reg_re_counter,
        status->0.reg_te_counter,
    );
    let s = if status is Some {
        status->0
    } else {
        zero_status()
    };
    let head = seq![0u8, s.reg_ec_capture, s.reg_re_counter, s.reg_te_counter];
    (if moved {
        seq![error_frame(t, 0, head)]
    } else {
        seq![]
    }) + (if code != 0 && code != last_code {
        seq![error_frame(t, 8, head + le_bytes(code))]
    } else {
        seq![]
    })
}

/// The report for an error code other than zero.
pub open spec fn reports_code(
    r: PollReport,
    code: u32,
    status: Option<ZcanChannelStatus>,
    is_new: bool,
) -> bool {
    &&& r.receive_overruns == if code & (ERROR_CAN_OVERFLOW | ERROR_CAN_BUFFER_OVERFLOW
        | ERROR_BUFFEROVERFLOW) != 0 {
        1u64
    } else {
        0u64
    }
    &&& r.driver_errors == if is_new { 1u64 } else { 0u64 }
    &&& r.connection_lost == code_means_loss(code)
    &&& r.message matches Some(m) && m@ == error_text(code, status)
}

fn push_error_frame(frames: &mut Vec<CanFrame>, t: i64, id: u32, data: Vec<u8>)
    ensures
        frames_view(final(frames)@) == frames_view(old(frames)@).push(error_frame(t, id, data@)),
{
    let ghost before = frames@;
    frames.push(
        CanFrame {
            t,
            ch: 1,
            tx: false,
            id,
            ext: false,
            fd: false,
            brs: false,
            remote: false,
            error: true,
            data,
        },
    );
    assert(frames_view(frames@) =~= frames_view(before).push(error_frame(t, id, data@)));
}

impl ZcanFdBus {
    /// The fields that supervision never changes.
    pub open spec fn same_channel(&self, other: &ZcanFdBus) -> bool {
        &&& self.channel_is_fd == other.channel_is_fd
        &&& self.listen_only == other.listen_only
        &&& self.timestamp == other.timestamp
        &&& self.name == other.name
    }

    /// Begins a supervision, at most five times a second unless it is forced.
    pub fn begin_health(&mut self, force: bool, now: u64) -> (r: ZcanStep)
        ensures
            final(self).same_channel(old(self)),
            final(self).last_error_code == old(self).last_error_code,
            final(self).last_busoff_recovery == old(self).last_busoff_recovery,
            final(self).last_error_counters == old(self).last_error_counters,
            final(self).pending_error_frames == old(self).pending_error_frames,
            force || is_due(old(self).last_health_check, now, ZCAN_HEALTH_INTERVAL) ==> r
                is QueryOnline && final(self).last_health_check == Some(now),
            !force && !is_due(old(self).last_health_check, now, ZCAN_HEALTH_INTERVAL) ==> final(self).last_health_check == old(self).last_health_check && (r matches ZcanStep::Done(report)
                && reports_nothing(report)),
    {
        if !force && !due(self.last_health_check, now, ZCAN_HEALTH_INTERVAL) {
            return ZcanStep::Done(PollReport::default());
        }
        self.last_health_check = Some(now);
        ZcanStep::QueryOnline
    }

    /// Takes the answer to whether the device is online.
    pub fn after_online(&self, answer: DriverCall) -> (r: ZcanStep)
        ensures
            match answer {
                DriverCall::Missing(error) => r matches ZcanStep::Done(report) && reports_error(
                    report,
                    true,
                    "ZCAN_IsDeviceOnLine 未找到: "@ + error@,
                ),
                DriverCall::Returned(value) => if value == 0 {
                    r matches ZcanStep::Done(report) && reports_error(
                        report,
                        true,
                        "ZLG 设备离线或 USB 已断开"@,
                    )
                } else {
                    r is QueryErrors
                },
            },
    {
        let message = match answer {
            DriverCall::Missing(error) => {
                let mut message = "ZCAN_IsDeviceOnLine 未找到: ".to_owned();
                message.push_str(error.as_str());
                message
            },
            DriverCall::Returned(value) => {
                if value != 0 {
                    return ZcanStep::QueryErrors;
                }
                "ZLG 设备离线或 USB 已断开".to_owned()
            },
        };
        ZcanStep::Done(
            PollReport {
                receive_overruns: 0,
                driver_errors: 1,
                connection_lost: true,
                message: Some(message),
            },
        )
    }

    /// Takes the error code and, where they could be read, the status registers. An error code is
    /// counted once until it changes; Bus-Off asks for a recovery at most once a second.
    pub fn after_errors(
        &mut self,
        now: u64,
        t: i64,
        error_code: u32,
        status: Option<ZcanChannelStatus>,
    ) -> (r: ZcanStep)
        ensures
            final(self).same_channel(old(self)),
            final(self).last_health_check == old(self).last_health_check,
            final(self).last_error_code == error_code,
            final(self).last_error_counters == match status {
                Some(s) => Some((s.reg_re_counter, s.reg_te_counter)),
                None => old(self).last_error_counters,
            },
            frames_view(final(self).pending_error_frames@) == frames_view(
                old(self).pending_error_frames@,
            ) + new_error_frames(
                old(self).last_error_counters,
                old(self).last_error_code,
                error_code,
                status,
                t,
            ),
            error_code == 0 ==> final(self).last_busoff_recovery == old(self).last_busoff_recovery
                && (r matches ZcanStep::Done(report) && reports_nothing(report)),
            error_code != 0 ==> {
                let is_new = error_code != old(self).last_error_code;
                if error_code & ERROR_CAN_BUSOFF != 0 && is_due(
                    old(self).last_busoff_recovery,
                    now,
                    ZCAN_RECOVERY_INTERVAL,
                ) {
                    &&& final(self).last_busoff_recovery == Some(now)
                    &&& r matches ZcanStep::Recover(report) && reports_code(
                        report,
                        error_code,
                        status,
                        is_new,
                    )
                } else {
                    &&& final(self).last_busoff_recovery == old(self).last_busoff_recovery
                    &&& r matches ZcanStep::Done(report) && reports_code(
                        report,
                        error_code,
                        status,
                        is_new,
                    )
                }
            },
    {
        let ghost pending = frames_view(self.pending_error_frames@);
        let ghost counters_before = self.last_error_counters;
        let ghost s0 = if status is Some {
            status->0
        } else {
            zero_status()
        };
        let ghost head = seq![0u8, s0.reg_ec_capture, s0.reg_re_counter, s0.reg_te_counter];
        let ghost moved = counters_before is Some && status is Some && counters_before->0 != (
            status->0.reg_re_counter,
            status->0.reg_te_counter,
        );
        if let Some(s) = status {
            if let Some((rx, tx)) = self.last_error_counters {
                if rx != s.reg_re_counter || tx != s.reg_te_counter {
                    let mut data: Vec<u8> = Vec::new();
                    data.push(0);
                    data.push(s.reg_ec_capture);
                    data.push(s.reg_re_counter);
                    data.push(s.reg_te_counter);
                    assert(data@ =~= head);
                    push_error_frame(&mut self.pending_error_frames, t, 0, data);
                }
            }
            self.last_error_counters = Some((s.reg_re_counter, s.reg_te_counter));
        }
        let ghost middle = frames_view(self.pending_error_frames@);
        assert(middle =~= pending + (if moved {
            seq![error_frame(t, 0, head)]
        } else {
            seq![]
        }));
        if error_code == 0 {
            self.last_error_code = 0;
            assert(middle =~= pending + new_error_frames(
                counters_before,
                old(self).last_error_code,
                error_code,
                status,
                t,
            ));
            return ZcanStep::Done(PollReport::default());
        }
        let is_new: bool = error_code != self.last_error_code;
        self.last_error_code = error_code;
        let message = zcan_error_message(error_code, status);
        if is_new {
            let s: ZcanChannelStatus = match status {
                Some(s) => s,
                None => ZcanChannelStatus::default(),
            };
            let mut data: Vec<u8> = Vec::new();
            data.push(0);
            data.push(s.reg_ec_capture);
            data.push(s.reg_re_counter);
            data.push(s.reg_te_counter);
            data.push((error_code % 0x100) as u8);
            data.push((error_code / 0x100 % 0x100) as u8);
            data.push((error_code / 0x1_0000 % 0x100) as u8);
            data.push((error_code / 0x100_0000) as u8);
            assert(data@ =~= head + le_bytes(error_code));
            push_error_frame(&mut self.pending_error_frames, t, 8, data);
        }
        assert(frames_view(self.pending_error_frames@) =~= pending + new_error_frames(
            counters_before,
            old(self).last_error_code,
            error_code,
            status,
            t,
        ));
        let receive_overruns: u64 = if error_code & (ERROR_CAN_OVERFLOW | ERROR_CAN_BUFFER_OVERFLOW
            | ERROR_BUFFEROVERFLOW) != 0 {
            1
        } else {
            0
        };
        let driver_errors: u64 = if is_new {
            1
        } else {
            0
        };
        let report = PollReport {
            receive_overruns,
            driver_errors,
            connection_lost: zcan_error_is_connection_lost(error_code),
            message: Some(message),
        };
        if error_code & ERROR_CAN_BUSOFF != 0 && due(
            self.last_busoff_recovery,
            now,
            ZCAN_RECOVERY_INTERVAL,
        ) {
            self.last_busoff_recovery = Some(now);
            return ZcanStep::Recover(report);
        }
        ZcanStep::Done(report)
    }

    /// Whether a report is another one with the outcome of a recovery added.
    pub open spec fn recovery_reported(before: PollReport, recovered: bool, r: PollReport) -> bool {
        &&& r.receive_overruns == before.receive_overruns
        &&& r.driver_errors == before.driver_errors
        &&& r.connection_lost == before.connection_lost
        &&& r.message matches Some(m) && m@ == (match before.message {
            Some(words) => words@,
            None => seq![],
        }) + if recovered {
            "；已自动复位并重新启动通道"@
        } else {
            "；自动恢复失败，请断开设备后重新连接"@
        }
    }

    /// Adds the outcome of a recovery to the report that asked for it.
    pub fn after_recovery(report: PollReport, recovered: bool) -> (r: PollReport)
        ensures
            Self::recovery_reported(report, recovered, r),
    {
        let mut report = report;
        let mut message = match report.message {
            Some(message) => message,
            None => String::new(),
        };
        if recovered {
            message.push_str("；已自动复位并重新启动通道");
        } else {
            message.push_str("；自动恢复失败，请断开设备后重新连接");
        }
        report.message = Some(message);
        report
    }

    /// Hands the error frames that supervision collected to the capture.
    pub fn take_error_frames(&mut self, out: &mut Vec<CanFrame>)
        ensures
            final(self).same_channel(old(self)),
            final(self).last_health_check == old(self).last_health_check,
            final(self).last_error_code == old(self).last_error_code,
            final(self).last_busoff_recovery == old(self).last_busoff_recovery,
            final(self).last_error_counters == old(self).last_error_counters,
            final(self).pending_error_frames@.len() == 0,
            frames_view(final(out)@) == frames_view(old(out)@) + frames_view(
                old(self).pending_error_frames@,
            ).map_values(|f: FrameView| FrameView { ch: 1, ..f }),
    {
        let ghost all = frames_view(self.pending_error_frames@);
        let ghost first = frames_view(out@);
        let ghost on_one = |f: FrameView| FrameView { ch: 1, ..f };
        let ghost raw = self.pending_error_frames@;
        let mut i: usize = 0;
        assert(first + all.take(0).map_values(on_one) =~= first);
        while i < self.pending_error_frames.len()
            invariant
                i <= self.pending_error_frames@.len(),
                raw == self.pending_error_frames@,
                all == frames_view(raw),
                on_one == (|f: FrameView| FrameView { ch: 1, ..f }),
                frames_view(out@) == first + all.take(i as int).map_values(on_one),
                self.same_channel(old(self)),
                self.last_health_check == old(self).last_health_check,
                self.last_error_code == old(self).last_error_code,
                self.last_busoff_recovery == old(self).last_busoff_recovery,
                self.last_error_counters == old(self).last_error_counters,
            decreases self.pending_error_frames@.len() - i,
        {
            let mut frame = self.pending_error_frames[i].clone();
            frame.ch = 1;
            let ghost before = out@;
            out.push(frame);
            proof {
                assert(frame@ == on_one(all[i as int]));
                assert(frames_view(out@) =~= frames_view(before).push(frame@));
                assert(first + all.take(i + 1).map_values(on_one) =~= (first + all.take(
                    i as int,
                ).map_values(on_one)).push(frame@));
            }
            i += 1;
        }
        assert(all.take(i as int) =~= all);
        self.pending_error_frames.clear();
    }
}

// ---------------------------------------------------------------- receiving

/// The frame of a received classical message.
pub open spec fn zcan_classic_frame(m: CanFrameC, t: i64) -> FrameView {
    FrameView {
        t,
        ch: 1,
        tx: false,
        id: m.can_id & ID_MASK,
        ext: m.can_id & EFF != 0,
        fd: false,
        brs: false,
        remote: m.can_id & RTR != 0,
        error: false,
        data: m.data@.take(if m.can_dlc < 8 { m.can_dlc as int } else { 8 }),
    }
}

/// The frame of a received CAN FD message.
pub open spec fn zcan_fd_frame(m: CanfdFrameC, t: i64) -> FrameView {
    FrameView {
        t,
        ch: 1,
        tx: false,
        id: m.can_id & ID_MASK,
        ext: m.can_id & EFF != 0,
        fd: true,
        brs: m.flags & 0x01 != 0,
        remote: m.can_id & RTR != 0,
        error: false,
        data: m.data@.take(if m.len < 64 { m.len as int } else { 64 }),
    }
}

/// The frames of a row of classical messages, and the clock after them.
pub open spec fn zcan_classic_frames(
    messages: Seq<ZcanReceiveData>,
    clock: HardwareTimebase,
    host_now: i64,
) -> (Seq<FrameView>, HardwareTimebase)
    decreases messages.len(),
{
    if messages.len() == 0 {
        (seq![], clock)
    } else {
        let before = zcan_classic_frames(messages.drop_last(), clock, host_now);
        let m = messages.last();
        let t = before.1.time_of(m.timestamp, host_now) as i64;
        (before.0.push(zcan_classic_frame(m.frame, t)), before.1.after(m.timestamp, host_now))
    }
}

/// The frames of a row of CAN FD messages, and the clock after them.
pub open spec fn zcan_fd_frames(
    messages: Seq<ZcanReceiveFdData>,
    clock: HardwareTimebase,
    host_now: i64,
) -> (Seq<FrameView>, HardwareTimebase)
    decreases messages.len(),
{
    if messages.len() == 0 {
        (seq![], clock)
    } else {
        let before = zcan_fd_frames(messages.drop_last(), clock, host_now);
        let m = messages.last();
        let t = before.1.time_of(m.timestamp, host_now) as i64;
        (before.0.push(zcan_fd_frame(m.frame, t)), before.1.after(m.timestamp, host_now))
    }
}

/// How many messages to ask for where `available` wait; `None` where the query failed.
pub fn receive_request(available: u32) -> (r: Option<u32>)
    ensures
        r is None <==> available == u32::MAX,
        r matches Some(n) ==> n == if available < ZCAN_RECEIVE_BATCH {
            available
        } else {
            ZCAN_RECEIVE_BATCH
        },
{
    if available == u32::MAX {
        None
    } else if available < ZCAN_RECEIVE_BATCH {
        Some(available)
    } else {
        Some(ZCAN_RECEIVE_BATCH)
    }
}

impl ZcanFdBus {
    /// Takes the classical messages that a receive call filled in.
    pub fn received_classic(
        &mut self,
        messages: &[ZcanReceiveData],
        host_now: i64,
        out: &mut Vec<CanFrame>,
    )
        ensures
            *final(self) == (ZcanFdBus {
                timestamp: zcan_classic_frames(messages@, old(self).timestamp, host_now).1,
                ..*old(self)
            }),
            frames_view(final(out)@) == frames_view(old(out)@) + zcan_classic_frames(
                messages@,
                old(self).timestamp,
                host_now,
            ).0,
    {
        let ghost clock = self.timestamp;
        let ghost first = frames_view(out@);
        let mut i: usize = 0;
        assert(messages@.take(0) =~= Seq::<ZcanReceiveData>::empty());
        assert(first + zcan_classic_frames(messages@.take(0), clock, host_now).0 =~= first);
        while i < messages.len()
            invariant
                i <= messages.len(),
                *self == (ZcanFdBus {
                    timestamp: zcan_classic_frames(messages@.take(i as int), clock, host_now).1,
                    ..*old(self)
                }),
                frames_view(out@) == first + zcan_classic_frames(
                    messages@.take(i as int),
                    clock,
                    host_now,
                ).0,
            decreases messages.len() - i,
        {
            let m: ZcanReceiveData = messages[i];
            let t: i64 = self.timestamp.map(m.timestamp, host_now);
            let len: usize = if m.frame.can_dlc < 8 {
                m.frame.can_dlc as usize
            } else {
                8
            };
            let frame = CanFrame {
                t,
                ch: 1,
                tx: false,
                id: m.frame.can_id & ID_MASK,
                ext: m.frame.can_id & EFF != 0,
                fd: false,
                brs: false,
                remote: m.frame.can_id & RTR != 0,
                error: false,
                data: head_of_8(&m.frame.data, len),
            };
            let ghost before = out@;
            out.push(frame);
            proof {
                let row = messages@.take(i + 1);
                assert(row.drop_last() =~= messages@.take(i as int));
                assert(row.last() == m);
                assert(frame@ == zcan_classic_frame(m.frame, t));
                assert(frames_view(out@) =~= frames_view(before).push(frame@));
                assert(frames_view(out@) =~= first + zcan_classic_frames(row, clock, host_now).0);
            }
            i += 1;
        }
        assert(messages@.take(i as int) =~= messages@);
    }

    /// Takes the CAN FD messages that a receive call filled in.
    pub fn received_fd(
        &mut self,
        messages: &[ZcanReceiveFdData],
        host_now: i64,
        out: &mut Vec<CanFrame>,
    )
        ensures
            *final(self) == (ZcanFdBus {
                timestamp: zcan_fd_frames(messages@, old(self).timestamp, host_now).1,
                ..*old(self)
            }),
            frames_view(final(out)@) == frames_view(old(out)@) + zcan_fd_frames(
                messages@,
                old(self).timestamp,
                host_now,
            ).0,
    {
        let ghost clock = self.timestamp;
        let ghost first = frames_view(out@);
        let mut i: usize = 0;
        assert(messages@.take(0) =~= Seq::<ZcanReceiveFdData>::empty());
        assert(first + zcan_fd_frames(messages@.take(0), clock, host_now).0 =~= first);
        while i < messages.len()
            invariant
                i <= messages.len(),
                *self == (ZcanFdBus {
                    timestamp: zcan_fd_frames(messages@.take(i as int), clock, host_now).1,
                    ..*old(self)
                }),
                frames_view(out@) == first + zcan_fd_frames(
                    messages@.take(i as int),
                    clock,
                    host_now,
                ).0,
            decreases messages.len() - i,
        {
            let m: ZcanReceiveFdData = messages[i];
            let t: i64 = self.timestamp.map(m.timestamp, host_now);
            let len: usize = if m.frame.len < 64 {
                m.frame.len as usize
            } else {
                64
            };
            let frame = CanFrame {
                t,
                ch: 1,
                tx: false,
                id: m.frame.can_id & ID_MASK,
                ext: m.frame.can_id & EFF != 0,
                fd: true,
                brs: m.frame.flags & 0x01 != 0,
                remote: m.frame.can_id & RTR != 0,
                error: false,
                data: head_of_64(&m.frame.data, len),
            };
            let ghost before = out@;
            out.push(frame);
            proof {
                let row = messages@.take(i + 1);
                assert(row.drop_last() =~= messages@.take(i as int));
                assert(row.last() == m);
                assert(frame@ == zcan_fd_frame(m.frame, t));
                assert(frames_view(out@) =~= frames_view(before).push(frame@));
                assert(frames_view(out@) =~= first + zcan_fd_frames(row, clock, host_now).0);
            }
            i += 1;
        }
        assert(messages@.take(i as int) =~= messages@);
    }
}

// ---------------------------------------------------------------- sending

/// A message for one of the two transmit entry points.
#[derive(Clone, Copy, Debug)]
pub enum ZcanMessage {
    Classic(ZcanTransmitData),
    Fd(ZcanTransmitFdData),
}

/// The identifier of a frame with its format bits.
pub open spec fn driver_id(f: FrameView) -> u32 {
    (f.id % 0x2000_0000 + (if f.ext { 0x8000_0000int } else { 0 }) + (if f.remote {
        0x4000_0000int
    } else {
        0
    })) as u32
}

/// Why a channel does not send a frame.
pub open spec fn send_fault(listen_only: bool, channel_is_fd: bool, f: FrameView) -> Option<Seq<char>> {
    if listen_only {
        Some("监听模式禁止发送 CAN 报文"@)
    } else if f.fd && !channel_is_fd {
        Some("当前 ZLG 通道按 Classical CAN 初始化，不能发送 CAN FD 帧"@)
    } else if !f.fd && f.data.len() > 8 {
        Some("Classical CAN 数据长度不能超过 8 字节"@)
    } else {
        None
    }
}

/// The message that carries a frame.
pub open spec fn zcan_carries(msg: ZcanMessage, f: FrameView) -> bool {
    match msg {
        ZcanMessage::Classic(m) => {
            &&& !f.fd
            &&& m.transmit_type == 0
            &&& m.frame.can_id == driver_id(f)
            &&& m.frame.can_dlc == f.data.len()
            &&& m.frame.pad == 0 && m.frame.res0 == 0 && m.frame.res1 == 0
            &&& m.frame.data@ == zero_padded(f.data, 8)
        },
        ZcanMessage::Fd(m) => {
            let len = if f.data.len() < 64 { f.data.len() as int } else { 64 };
            &&& f.fd
            &&& m.transmit_type == 0
            &&& m.frame.can_id == driver_id(f)
            &&& m.frame.len == len
            &&& m.frame.flags == if f.brs { 1u8 } else { 0u8 }
            &&& m.frame.res0 == 0 && m.frame.res1 == 0
            &&& m.frame.data@ == zero_padded(f.data.take(len), 64)
        },
    }
}

impl ZcanFdBus {
    /// Builds the message for a frame.
    pub fn message(&self, f: &CanFrame) -> (r: Result<ZcanMessage, String>)
        ensures
            match r {
                Ok(msg) => send_fault(self.listen_only, self.channel_is_fd, f@) is None
                    && zcan_carries(msg, f@),
                Err(m) => send_fault(self.listen_only, self.channel_is_fd, f@) == Some(m@),
            },
    {
        if self.listen_only {
            return Err("监听模式禁止发送 CAN 报文".to_owned());
        }
        if f.fd && !self.channel_is_fd {
            return Err(
                "当前 ZLG 通道按 Classical CAN 初始化，不能发送 CAN FD 帧".to_owned(),
            );
        }
        if !f.fd && f.data.len() > 8 {
            return Err("Classical CAN 数据长度不能超过 8 字节".to_owned());
        }
        let mut can_id: u32 = f.id % 0x2000_0000;
        if f.ext {
            can_id = can_id + 0x8000_0000;
        }
        if f.remote {
            can_id = can_id + 0x4000_0000;
        }
        if f.fd {
            let len: usize = if f.data.len() < 64 {
                f.data.len()
            } else {
                64
            };
            let flags: u8 = if f.brs {
                1
            } else {
                0
            };
            let data: [u8; 64] = padded_64(f.data.as_slice(), len);
            Ok(
                ZcanMessage::Fd(
                    ZcanTransmitFdData {
                        frame: CanfdFrameC { can_id, len: len as u8, flags, res0: 0, res1: 0, data },
                        transmit_type: 0,
                    },
                ),
            )
        } else {
            let data: [u8; 8] = padded_8(f.data.as_slice());
            Ok(
                ZcanMessage::Classic(
                    ZcanTransmitData {
                        frame: CanFrameC {
                            can_id,
                            can_dlc: f.data.len() as u8,
                            pad: 0,
                            res0: 0,
                            res1: 0,
                            data,
                        },
                        transmit_type: 0,
                    },
                ),
            )
        }
    }
}

/// The message for a transmission that the driver refused, with what a supervision found out.
pub fn transmit_error(operation: &str, health: PollReport) -> (r: String)
    ensures
        r@ == operation@ + match health.message {
            Some(m) => " 失败；"@ + m@,
            None => " 失败：驱动未接收该帧，请检查通道模式、总线接线、终端电阻和节点 ACK"@,
        },
{
    let mut out = operation.to_owned();
    match health.message {
        Some(m) => {
            out.push_str(" 失败；");
            out.push_str(m.as_str());
            assert(out@ =~= operation@ + (" 失败；"@ + m@));
        },
        None => {
            out.push_str(
                " 失败：驱动未接收该帧，请检查通道模式、总线接线、终端电阻和节点 ACK",
            );
        },
    }
    out
}

proof fn lemma_driver_id(id: u32, ext: bool, remote: bool)
    ensures
        ({
            let x = (id % 0x2000_0000 + (if ext { 0x8000_0000int } else { 0 }) + (if remote {
                0x4000_0000int
            } else {
                0
            })) as u32;
            &&& x & ID_MASK == id % 0x2000_0000
            &&& (x & EFF != 0) == ext
            &&& (x & RTR != 0) == remote
        }),
{
    let x = (id % 0x2000_0000 + (if ext { 0x8000_0000int } else { 0 }) + (if remote {
        0x4000_0000int
    } else {
        0
    })) as u32;
    let a: u32 = (id % 0x2000_0000) as u32;
    let e: u32 = (if ext { 1int } else { 0 }) as u32;
    let r: u32 = (if remote { 1int } else { 0 }) as u32;
    assert(x == a + e * 0x8000_0000 + r * 0x4000_0000);
    assert(a < 0x2000_0000 && e <= 1 && r <= 1 && x == a + e * 0x8000_0000 + r * 0x4000_0000 ==> x
        & 0x1FFF_FFFF == a && (x & 0x8000_0000 != 0) == (e == 1) && (x & 0x4000_0000 != 0) == (r
        == 1)) by (bit_vector);
}

/// What was sent comes back: a frame within its identifier range and payload limit, received from
/// the message that carries it, is the frame that was sent.
pub proof fn law_zcan_messages_round_trip(f: FrameView, msg: ZcanMessage, t: i64)
    requires
        zcan_carries(msg, f),
        f.id < 0x2000_0000,
        f.data.len() <= if f.fd { 64int } else { 8int },
        f.brs ==> f.fd,
    ensures
        match msg {
            ZcanMessage::Classic(m) => zcan_classic_frame(m.frame, t),
            ZcanMessage::Fd(m) => zcan_fd_frame(m.frame, t),
        } == (FrameView { t, ch: 1, tx: false, error: false, ..f }),
{
    lemma_driver_id(f.id, f.ext, f.remote);
    let n = f.data.len() as int;
    assert(f.data.take(n) =~= f.data);
    match msg {
        ZcanMessage::Classic(m) => {
            assert(m.frame.data@.take(n) =~= f.data);
        },
        ZcanMessage::Fd(m) => {
            assert(m.frame.data@.take(n) =~= f.data);
            assert(1u8 & 0x01u8 != 0 && 0u8 & 0x01u8 == 0) by (bit_vector);
        },
    }
}

} // verus!
