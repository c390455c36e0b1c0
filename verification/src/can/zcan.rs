//! Adapter families, endpoint identities and the rules for channel configurations.
use crate::can::bitrate::{baud_to_bps, bits_per_second};
use crate::can::ip_text;
use crate::can::pcan::{fd_timing, pcan_fd_bitrate};
use crate::can::zcan_ffi::{TYPE_CAN, TYPE_CANFD};
use crate::can::{
    configs_view, normalize_baud, normalized_baud, sja1000_timing, zlg_timing, DeviceConfig,
    DeviceConfigView,
};
use crate::text;
use vstd::prelude::*;

verus! {

/// How a ZLG device is attached and what it speaks.
#[derive(Clone, Copy, Debug, PartialEq, Eq, Structural)]
pub enum ZcanDeviceFamily {
    UsbClassic,
    UsbCanFd,
    NetworkTcp,
    NetworkUdp,
}

/// What the driver has to know of a ZLG device.
#[derive(Clone, Copy, Debug, PartialEq, Eq, Structural)]
pub struct ZcanDeviceProfile {
    pub device_type: u32,
    pub family: ZcanDeviceFamily,
    pub fd_capable: bool,
}

impl ZcanDeviceProfile {
    /// Whether the device is reached over the network.
    pub open spec fn networked(self) -> bool {
        self.family == ZcanDeviceFamily::NetworkTcp || self.family == ZcanDeviceFamily::NetworkUdp
    }

    /// Whether the device is reached over the network.
    pub fn is_network(self) -> (r: bool)
        ensures
            r == self.networked(),
    {
        match self.family {
            ZcanDeviceFamily::NetworkTcp | ZcanDeviceFamily::NetworkUdp => true,
            _ => false,
        }
    }

    /// Whether the device is reached over TCP.
    pub fn is_tcp(self) -> (r: bool)
        ensures
            r == (self.family == ZcanDeviceFamily::NetworkTcp),
    {
        match self.family {
            ZcanDeviceFamily::NetworkTcp => true,
            _ => false,
        }
    }
}

/// The channel type that the driver is opened with. USB CAN FD hardware only starts as a CAN FD
/// channel, which carries classical frames as well.
pub fn zcan_driver_channel_type(profile: ZcanDeviceProfile, frame_fd_enabled: bool) -> (r: u8)
    ensures
        r == if profile.family == ZcanDeviceFamily::UsbCanFd || frame_fd_enabled {
            TYPE_CANFD
        } else {
            TYPE_CAN
        },
{
    match profile.family {
        ZcanDeviceFamily::UsbCanFd => TYPE_CANFD,
        _ => if frame_fd_enabled {
            TYPE_CANFD
        } else {
            TYPE_CAN
        },
    }
}

/// The kernel library that a device needs next to the common one.
pub fn zlg_kernel_library(profile: ZcanDeviceProfile) -> (r: Option<&'static str>)
    ensures
        r is None <==> profile.networked(),
        r matches Some(path) ==> path@ == match profile.family {
            ZcanDeviceFamily::UsbClassic => if profile.device_type == 3 || profile.device_type == 4 {
                "kerneldlls/USBCAN.dll"@
            } else {
                "kerneldlls/USBCAN_E_64.dll"@
            },
            _ => if profile.device_type == 59 {
                "kerneldlls/USBCANFD800U.dll"@
            } else {
                "kerneldlls/USBCANFD.dll"@
            },
        },
{
    match profile.family {
        ZcanDeviceFamily::UsbClassic => if profile.device_type == 3 || profile.device_type == 4 {
            Some("kerneldlls/USBCAN.dll")
        } else {
            Some("kerneldlls/USBCAN_E_64.dll")
        },
        ZcanDeviceFamily::UsbCanFd => if profile.device_type == 59 {
            Some("kerneldlls/USBCANFD800U.dll")
        } else {
            Some("kerneldlls/USBCANFD.dll")
        },
        ZcanDeviceFamily::NetworkTcp | ZcanDeviceFamily::NetworkUdp => None,
    }
}

/// The profile with the given parts.
pub open spec fn profile(device_type: u32, family: ZcanDeviceFamily, fd_capable: bool) -> Option<
    ZcanDeviceProfile,
> {
    Some(ZcanDeviceProfile { device_type, family, fd_capable })
}

/// The profile of a ZLG device by its name; case and blanks do not matter.
pub open spec fn profile_of(device_type: Seq<char>) -> Option<ZcanDeviceProfile> {
    let d = text::without(text::upper(text::trim(device_type)), ' ');
    if d == "USBCAN1"@ {
        profile(3, ZcanDeviceFamily::UsbClassic, false)
    } else if d == "USBCAN"@ || d == "USBCAN2"@ {
        profile(4, ZcanDeviceFamily::UsbClassic, false)
    } else if d == "USBCANFD"@ || d == "USBCANFD-200U"@ || d == "USBCANFD200U"@ {
        profile(41, ZcanDeviceFamily::UsbCanFd, true)
    } else if d == "USBCANFD-100U"@ || d == "USBCANFD100U"@ {
        profile(42, ZcanDeviceFamily::UsbCanFd, true)
    } else if d == "USBCANFD-MINI"@ || d == "USBCANFDMINI"@ {
        profile(43, ZcanDeviceFamily::UsbCanFd, true)
    } else if d == "USBCANFD-800U"@ || d == "USBCANFD800U"@ {
        profile(59, ZcanDeviceFamily::UsbCanFd, true)
    } else if d == "USBCAN-E-U"@ || d == "USBCANEU"@ {
        profile(20, ZcanDeviceFamily::UsbClassic, false)
    } else if d == "USBCAN-2E-U"@ || d == "USBCAN2EU"@ {
        profile(21, ZcanDeviceFamily::UsbClassic, false)
    } else if d == "CANFDNET"@ || d == "CANFDNET-TCP"@ || d == "CANFDNETTCP"@ {
        profile(48, ZcanDeviceFamily::NetworkTcp, true)
    } else if d == "CANFDNET-UDP"@ || d == "CANFDNETUDP"@ {
        profile(49, ZcanDeviceFamily::NetworkUdp, true)
    } else if d == "CANFDWIFI"@ || d == "CANFDWIFI-TCP"@ || d == "CANFDWIFITCP"@ {
        profile(50, ZcanDeviceFamily::NetworkTcp, true)
    } else if d == "CANFDWIFI-UDP"@ || d == "CANFDWIFIUDP"@ {
        profile(51, ZcanDeviceFamily::NetworkUdp, true)
    } else {
        None
    }
}

fn make_profile(device_type: u32, family: ZcanDeviceFamily, fd_capable: bool) -> (r: Option<
    ZcanDeviceProfile,
>)
    ensures
        r == profile(device_type, family, fd_capable),
{
    Some(ZcanDeviceProfile { device_type, family, fd_capable })
}

/// The profile of a ZLG device by its name.
pub fn zcan_profile(device_type: &str) -> (r: Option<ZcanDeviceProfile>)
    ensures
        r == profile_of(device_type@),
{
    let trimmed = text::trimmed(device_type);
    let raised = text::to_upper(trimmed.as_str());
    let chars = text::chars_of(raised.as_str());
    let compact = text::remove_char(chars.as_slice(), ' ');
    let name = text::string_of(compact.as_slice());
    let d = name.as_str();
    if text::same_text(d, "USBCAN1") {
        make_profile(3, ZcanDeviceFamily::UsbClassic, false)
    } else if text::same_text(d, "USBCAN") || text::same_text(d, "USBCAN2") {
        make_profile(4, ZcanDeviceFamily::UsbClassic, false)
    } else if text::same_text(d, "USBCANFD") || text::same_text(d, "USBCANFD-200U")
        || text::same_text(d, "USBCANFD200U") {
        make_profile(41, ZcanDeviceFamily::UsbCanFd, true)
    } else if text::same_text(d, "USBCANFD-100U") || text::same_text(d, "USBCANFD100U") {
        make_profile(42, ZcanDeviceFamily::UsbCanFd, true)
    } else if text::same_text(d, "USBCANFD-MINI") || text::same_text(d, "USBCANFDMINI") {
        make_profile(43, ZcanDeviceFamily::UsbCanFd, true)
    } else if text::same_text(d, "USBCANFD-800U") || text::same_text(d, "USBCANFD800U") {
        make_profile(59, ZcanDeviceFamily::UsbCanFd, true)
    } else if text::same_text(d, "USBCAN-E-U") || text::same_text(d, "USBCANEU") {
        make_profile(20, ZcanDeviceFamily::UsbClassic, false)
    } else if text::same_text(d, "USBCAN-2E-U") || text::same_text(d, "USBCAN2EU") {
        make_profile(21, ZcanDeviceFamily::UsbClassic, false)
    } else if text::same_text(d, "CANFDNET") || text::same_text(d, "CANFDNET-TCP")
        || text::same_text(d, "CANFDNETTCP") {
        make_profile(48, ZcanDeviceFamily::NetworkTcp, true)
    } else if text::same_text(d, "CANFDNET-UDP") || text::same_text(d, "CANFDNETUDP") {
        make_profile(49, ZcanDeviceFamily::NetworkUdp, true)
    } else if text::same_text(d, "CANFDWIFI") || text::same_text(d, "CANFDWIFI-TCP")
        || text::same_text(d, "CANFDWIFITCP") {
        make_profile(50, ZcanDeviceFamily::NetworkTcp, true)
    } else if text::same_text(d, "CANFDWIFI-UDP") || text::same_text(d, "CANFDWIFIUDP") {
        make_profile(51, ZcanDeviceFamily::NetworkUdp, true)
    } else {
        None
    }
}

// ---------------------------------------------------------------- identities

/// The identity of the hardware endpoint that a configuration binds: the stable hardware id where
/// there is one, otherwise the device with its address and channel.
pub open spec fn endpoint_of(cfg: DeviceConfigView) -> Seq<char> {
    let id = text::trim(cfg.hardware_id);
    let device = text::without(
        text::without(text::upper(text::trim(cfg.device_type)), ' '),
        '_',
    );
    if id.len() > 0 {
        text::upper(id)
    } else if profile_of(cfg.device_type) is Some && profile_of(cfg.device_type)->0.networked() {
        device + ":"@ + text::trim(cfg.ip) + ":"@ + text::trim(cfg.port) + ":"@ + text::decimal(
            cfg.channel_index as nat,
        )
    } else {
        device + ":"@ + text::decimal(cfg.device_index as nat) + ":"@ + text::decimal(
            cfg.channel_index as nat,
        )
    }
}

/// The identity of the hardware endpoint that a configuration binds.
pub fn adapter_key(cfg: &DeviceConfig) -> (r: String)
    ensures
        r@ == endpoint_of(cfg@),
{
    let id = text::trimmed(cfg.hardware_id.as_str());
    if !id.as_str().is_empty() {
        return text::to_upper(id.as_str());
    }
    let trimmed = text::trimmed(cfg.device_type.as_str());
    let raised = text::to_upper(trimmed.as_str());
    let chars = text::chars_of(raised.as_str());
    let unspaced = text::remove_char(chars.as_slice(), ' ');
    let compact = text::remove_char(unspaced.as_slice(), '_');
    let mut key = text::string_of(compact.as_slice());
    let network: bool = match zcan_profile(cfg.device_type.as_str()) {
        Some(p) => p.is_network(),
        None => false,
    };
    key.push_str(":");
    if network {
        let ip = text::trimmed(cfg.ip.as_str());
        let port = text::trimmed(cfg.port.as_str());
        key.push_str(ip.as_str());
        key.push_str(":");
        key.push_str(port.as_str());
        key.push_str(":");
        text::push_decimal(&mut key, cfg.channel_index as u64);
    } else {
        text::push_decimal(&mut key, cfg.device_index as u64);
        key.push_str(":");
        text::push_decimal(&mut key, cfg.channel_index as u64);
    }
    key
}

/// `true` or `false` as text.
pub open spec fn bool_text(b: bool) -> Seq<char> {
    if b {
        "true"@
    } else {
        "false"@
    }
}

/// The identity of the device that channels share. Network fields count for network devices only.
pub open spec fn shared_device(profile: ZcanDeviceProfile, cfg: DeviceConfigView) -> Seq<char> {
    if profile.networked() {
        "net:"@ + text::decimal(profile.device_type as nat) + ":"@ + text::decimal(
            cfg.device_index as nat,
        ) + ":"@ + cfg.ip + ":"@ + cfg.port + ":"@ + bool_text(cfg.net_server)
    } else {
        "usb:"@ + text::decimal(profile.device_type as nat) + ":"@ + text::decimal(
            cfg.device_index as nat,
        )
    }
}

/// The identity of the device that channels share.
pub fn zcan_device_key(profile: ZcanDeviceProfile, cfg: &DeviceConfig) -> (r: String)
    ensures
        r@ == shared_device(profile, cfg@),
{
    let network: bool = profile.is_network();
    let mut key = if network {
        "net:".to_owned()
    } else {
        "usb:".to_owned()
    };
    text::push_decimal(&mut key, profile.device_type as u64);
    key.push_str(":");
    text::push_decimal(&mut key, cfg.device_index as u64);
    if network {
        key.push_str(":");
        key.push_str(cfg.ip.as_str());
        key.push_str(":");
        key.push_str(cfg.port.as_str());
        key.push_str(":");
        if cfg.net_server {
            key.push_str("true");
        } else {
            key.push_str("false");
        }
    }
    key
}

/// Two channels of one USB device share it, whatever their network fields still hold.
pub proof fn law_usb_channels_share_their_device(
    profile: ZcanDeviceProfile,
    a: DeviceConfigView,
    b: DeviceConfigView,
)
    requires
        !profile.networked(),
        a.device_index == b.device_index,
    ensures
        shared_device(profile, a) == shared_device(profile, b),
{
}

// ---------------------------------------------------------------- rules for one channel

/// `CAN` and the number of the software channel.
pub open spec fn can_name(channel: u8) -> Seq<char> {
    "CAN"@ + text::decimal(channel as nat)
}

/// What is wrong with the configuration of a PCAN channel, the first rule that it breaks.
pub open spec fn pcan_fault(cfg: DeviceConfigView) -> Option<Seq<char>> {
    let name = can_name(cfg.sw_channel);
    let custom = text::trim(cfg.custom_bitrate);
    let rate = normalized_baud(cfg.baud);
    let timing = fd_timing(if custom.len() == 0 { cfg.baud } else { custom }, cfg.data_baud);
    if cfg.channel_index >= 16 {
        Some(name + " PCAN 硬件通道必须为 0..15"@)
    } else if cfg.is_fd && timing is Err {
        Some(timing->Err_0)
    } else if !cfg.is_fd && rate != "125K"@ && rate != "250K"@ && rate != "500K"@ && rate
        != "1000K"@ {
        Some(name + " PCAN 不支持波特率 "@ + cfg.baud)
    } else if cfg.listen_only {
        Some(name + " PCAN 监听模式尚未由当前后端实现"@)
    } else if cfg.fd_non_iso {
        Some(name + " PCAN Non-ISO CAN FD 尚未由当前后端实现"@)
    } else {
        None
    }
}

/// What is wrong with the configuration of a VCI channel.
pub open spec fn vci_fault(cfg: DeviceConfigView) -> Option<Seq<char>> {
    let name = can_name(cfg.sw_channel) + " 的 "@ + cfg.device_type;
    if text::trim(cfg.custom_bitrate).len() > 0 {
        Some(name + " 不支持 PCAN 自定义位时序串"@)
    } else if cfg.is_fd {
        Some(name + " 仅支持 Classical CAN"@)
    } else if cfg.fd_non_iso {
        Some(name + " 不支持 Non-ISO CAN FD"@)
    } else if sja1000_timing(cfg.baud) is None {
        Some(name + " 不支持波特率 "@ + cfg.baud)
    } else {
        None
    }
}

/// What is wrong with the configuration of a ZLG channel.
pub open spec fn zlg_fault(cfg: DeviceConfigView, profile: ZcanDeviceProfile) -> Option<Seq<char>> {
    let can = can_name(cfg.sw_channel);
    let name = can + " 的 "@ + cfg.device_type;
    let arbitration = bits_per_second(cfg.baud);
    let data = bits_per_second(cfg.data_baud);
    let port = text::unsigned_value(text::trim(cfg.port), 10, 65535);
    if text::trim(cfg.custom_bitrate).len() > 0 {
        Some(name + " 不支持 PCAN 自定义位时序串"@)
    } else if cfg.is_fd && !profile.fd_capable {
        Some(name + " 不支持 CAN FD"@)
    } else if cfg.fd_non_iso && (!cfg.is_fd || !profile.fd_capable) {
        Some(can + " 只有 CAN FD 硬件才能使用 Non-ISO 模式"@)
    } else if arbitration == 0 {
        Some(can + " 仲裁波特率无效: "@ + cfg.baud)
    } else if cfg.is_fd && data == 0 {
        Some(can + " 数据波特率无效: "@ + cfg.data_baud)
    } else if cfg.is_fd && data < arbitration {
        Some(can + " 数据波特率 "@ + cfg.data_baud + " 不能低于仲裁波特率 "@ + cfg.baud)
    } else if profile.networked() && !ip_text::is_ip(text::trim(cfg.ip)) {
        Some(can + " 网络适配器 IP 无效: "@ + cfg.ip)
    } else if profile.networked() && port is None {
        Some(can + " 网络适配器端口无效: "@ + cfg.port)
    } else if profile.networked() && port == Some(0nat) {
        Some(can + " 网络适配器端口不能为 0"@)
    } else {
        None
    }
}

/// What is wrong with a configuration, the first rule that it breaks.
pub open spec fn config_fault(cfg: DeviceConfigView) -> Option<Seq<char>> {
    let device = text::upper(text::trim(cfg.device_type));
    let name = can_name(cfg.sw_channel);
    if cfg.sw_channel == 0 {
        Some("软件 CAN 通道必须从 1 开始"@)
    } else if device.len() == 0 {
        Some(name + " 未选择设备类型"@)
    } else if device == "VIRTUAL"@ || device == "SIM"@ {
        Some(name + " 的虚拟总线已移除，请选择硬件适配器"@)
    } else if device == "PCAN"@ {
        pcan_fault(cfg)
    } else if device == "GCAN"@ || device == "ZHCX"@ || device == "ZHCXCAN"@ {
        vci_fault(cfg)
    } else {
        match profile_of(cfg.device_type) {
            Some(profile) => zlg_fault(cfg, profile),
            None => Some(name + " 未知设备类型: "@ + cfg.device_type),
        }
    }
}

/// An outcome stands for a fault.
pub open spec fn states_fault(r: Result<(), String>, fault: Option<Seq<char>>) -> bool {
    match r {
        Ok(()) => fault is None,
        Err(m) => fault == Some(m@),
    }
}

/// `CAN`, the number of the software channel and a text.
fn can_text(channel: u8, rest: &str) -> (r: String)
    ensures
        r@ == can_name(channel) + rest@,
{
    let mut out = "CAN".to_owned();
    text::push_decimal(&mut out, channel as u64);
    out.push_str(rest);
    out
}

/// The same with a value at the end.
fn can_text_with(channel: u8, middle: &str, value: &str) -> (r: String)
    ensures
        r@ == can_name(channel) + middle@ + value@,
{
    let mut out = can_text(channel, middle);
    out.push_str(value);
    out
}

/// The channel, its device and a text.
fn device_text(cfg: &DeviceConfig, rest: &str) -> (r: String)
    ensures
        r@ == can_name(cfg.sw_channel) + " 的 "@ + cfg.device_type@ + rest@,
{
    let mut out = can_text_with(cfg.sw_channel, " 的 ", cfg.device_type.as_str());
    out.push_str(rest);
    out
}

fn validate_pcan(cfg: &DeviceConfig) -> (r: Result<(), String>)
    ensures
        states_fault(r, pcan_fault(cfg@)),
{
    let n: u8 = cfg.sw_channel;
    if cfg.channel_index >= 16 {
        return Err(can_text(n, " PCAN 硬件通道必须为 0..15"));
    }
    if cfg.is_fd {
        let custom = text::trimmed(cfg.custom_bitrate.as_str());
        let arb = if custom.as_str().is_empty() {
            cfg.baud.as_str()
        } else {
            custom.as_str()
        };
        if let Err(message) = pcan_fd_bitrate(arb, cfg.data_baud.as_str()) {
            return Err(message);
        }
    } else {
        let rate = normalize_baud(cfg.baud.as_str());
        let s = rate.as_str();
        if !text::same_text(s, "125K") && !text::same_text(s, "250K") && !text::same_text(s, "500K")
            && !text::same_text(s, "1000K") {
            return Err(can_text_with(n, " PCAN 不支持波特率 ", cfg.baud.as_str()));
        }
    }
    if cfg.listen_only {
        return Err(can_text(n, " PCAN 监听模式尚未由当前后端实现"));
    }
    if cfg.fd_non_iso {
        return Err(can_text(n, " PCAN Non-ISO CAN FD 尚未由当前后端实现"));
    }
    Ok(())
}

fn validate_vci(cfg: &DeviceConfig) -> (r: Result<(), String>)
    ensures
        states_fault(r, vci_fault(cfg@)),
{
    let custom = text::trimmed(cfg.custom_bitrate.as_str());
    if !custom.as_str().is_empty() {
        return Err(device_text(cfg, " 不支持 PCAN 自定义位时序串"));
    }
    if cfg.is_fd {
        return Err(device_text(cfg, " 仅支持 Classical CAN"));
    }
    if cfg.fd_non_iso {
        return Err(device_text(cfg, " 不支持 Non-ISO CAN FD"));
    }
    if zlg_timing(cfg.baud.as_str()).is_none() {
        let mut message = device_text(cfg, " 不支持波特率 ");
        message.push_str(cfg.baud.as_str());
        return Err(message);
    }
    Ok(())
}

fn validate_zlg(cfg: &DeviceConfig, profile: ZcanDeviceProfile) -> (r: Result<(), String>)
    ensures
        states_fault(r, zlg_fault(cfg@, profile)),
{
    let n: u8 = cfg.sw_channel;
    let custom = text::trimmed(cfg.custom_bitrate.as_str());
    if !custom.as_str().is_empty() {
        return Err(device_text(cfg, " 不支持 PCAN 自定义位时序串"));
    }
    if cfg.is_fd && !profile.fd_capable {
        return Err(device_text(cfg, " 不支持 CAN FD"));
    }
    if cfg.fd_non_iso && (!cfg.is_fd || !profile.fd_capable) {
        return Err(can_text(n, " 只有 CAN FD 硬件才能使用 Non-ISO 模式"));
    }
    let arbitration: u32 = baud_to_bps(cfg.baud.as_str());
    if arbitration == 0 {
        return Err(can_text_with(n, " 仲裁波特率无效: ", cfg.baud.as_str()));
    }
    if cfg.is_fd {
        let data: u32 = baud_to_bps(cfg.data_baud.as_str());
        if data == 0 {
            return Err(can_text_with(n, " 数据波特率无效: ", cfg.data_baud.as_str()));
        }
        if data < arbitration {
            let mut message = can_text_with(n, " 数据波特率 ", cfg.data_baud.as_str());
            message.push_str(" 不能低于仲裁波特率 ");
            message.push_str(cfg.baud.as_str());
            return Err(message);
        }
    }
    if profile.is_network() {
        let ip = text::chars_of(cfg.ip.as_str());
        let ip = text::trim_chars(ip.as_slice());
        if !ip_text::valid_ip(ip.as_slice()) {
            return Err(can_text_with(n, " 网络适配器 IP 无效: ", cfg.ip.as_str()));
        }
        let port = text::chars_of(cfg.port.as_str());
        let port = text::trim_chars(port.as_slice());
        match text::read_unsigned(port.as_slice(), 10, 65535) {
            None => {
                return Err(can_text_with(n, " 网络适配器端口无效: ", cfg.port.as_str()));
            },
            Some(port) => {
                if port == 0 {
                    return Err(can_text(n, " 网络适配器端口不能为 0"));
                }
            },
        }
    }
    Ok(())
}

/// Checks the configuration of one channel against the rules of its adapter.
pub fn validate_device_config(cfg: &DeviceConfig) -> (r: Result<(), String>)
    ensures
        states_fault(r, config_fault(cfg@)),
{
    let n: u8 = cfg.sw_channel;
    if n == 0 {
        return Err("软件 CAN 通道必须从 1 开始".to_owned());
    }
    let trimmed = text::trimmed(cfg.device_type.as_str());
    let device = text::to_upper(trimmed.as_str());
    let d = device.as_str();
    if d.is_empty() {
        return Err(can_text(n, " 未选择设备类型"));
    }
    if text::same_text(d, "VIRTUAL") || text::same_text(d, "SIM") {
        return Err(can_text(n, " 的虚拟总线已移除，请选择硬件适配器"));
    }
    if text::same_text(d, "PCAN") {
        return validate_pcan(cfg);
    }
    if text::same_text(d, "GCAN") || text::same_text(d, "ZHCX") || text::same_text(d, "ZHCXCAN") {
        return validate_vci(cfg);
    }
    match zcan_profile(cfg.device_type.as_str()) {
        Some(profile) => validate_zlg(cfg, profile),
        None => Err(can_text_with(n, " 未知设备类型: ", cfg.device_type.as_str())),
    }
}

// ---------------------------------------------------------------- rules for a set of channels

/// What is wrong with the `i`th channel beside those before it.
pub open spec fn fault_at(cfgs: Seq<DeviceConfigView>, i: int) -> Option<Seq<char>> {
    let cfg = cfgs[i];
    if config_fault(cfg) is Some {
        config_fault(cfg)
    } else if exists|j: int| 0 <= j < i && (#[trigger] cfgs[j]).sw_channel == cfg.sw_channel {
        Some("软件通道 CAN"@ + text::decimal(cfg.sw_channel as nat) + " 重复"@)
    } else if exists|j: int| 0 <= j < i && endpoint_of(#[trigger] cfgs[j]) == endpoint_of(cfg) {
        Some(
            can_name(cfg.sw_channel) + " 与其他通道绑定了同一硬件端点 "@ + cfg.device_type + " dev"@
                + text::decimal(cfg.device_index as nat) + " ch"@ + text::decimal(
                cfg.channel_index as nat,
            ),
        )
    } else {
        None
    }
}

/// The first fault from the `i`th channel on.
pub open spec fn first_fault(cfgs: Seq<DeviceConfigView>, i: int) -> Option<Seq<char>>
    decreases cfgs.len() - i,
{
    if i >= cfgs.len() {
        None
    } else if fault_at(cfgs, i) is Some {
        fault_at(cfgs, i)
    } else {
        first_fault(cfgs, i + 1)
    }
}

/// What is wrong with a set of channels.
pub open spec fn set_fault(cfgs: Seq<DeviceConfigView>) -> Option<Seq<char>> {
    if cfgs.len() == 0 {
        Some("至少需要配置一个 CAN 通道"@)
    } else {
        first_fault(cfgs, 0)
    }
}

/// Checks a set of channels: each by itself, then that no two share a software channel or a
/// hardware endpoint.
pub fn validate_channel_set(cfgs: &[DeviceConfig]) -> (r: Result<(), String>)
    ensures
        states_fault(r, set_fault(configs_view(cfgs@))),
{
    if cfgs.len() == 0 {
        return Err("至少需要配置一个 CAN 通道".to_owned());
    }
    let ghost views = configs_view(cfgs@);
    let mut keys: Vec<String> = Vec::new();
    let mut i: usize = 0;
    while i < cfgs.len()
        invariant
            i <= cfgs.len(),
            cfgs.len() > 0,
            views == configs_view(cfgs@),
            keys@.len() == i,
            forall|j: int| 0 <= j < i ==> (#[trigger] keys@[j])@ == endpoint_of(views[j]),
            first_fault(views, 0) == first_fault(views, i as int),
        decreases cfgs.len() - i,
    {
        let cfg = &cfgs[i];
        assert(views[i as int] == cfg@);
        if let Err(message) = validate_device_config(cfg) {
            return Err(message);
        }
        let mut j: usize = 0;
        while j < i
            invariant
                j <= i < cfgs.len(),
                views == configs_view(cfgs@),
                views[i as int] == cfg@,
                config_fault(cfg@) is None,
                set_fault(views) == first_fault(views, i as int),
                forall|k: int| 0 <= k < j ==> (#[trigger] views[k]).sw_channel != cfg.sw_channel,
            decreases i - j,
        {
            assert(views[j as int] == cfgs@[j as int]@);
            if cfgs[j].sw_channel == cfg.sw_channel {
                let mut message = "软件通道 CAN".to_owned();
                text::push_decimal(&mut message, cfg.sw_channel as u64);
                message.push_str(" 重复");
                assert(views[j as int].sw_channel == cfg.sw_channel);
                return Err(message);
            }
            j += 1;
        }
        let key = adapter_key(cfg);
        let mut j: usize = 0;
        while j < i
            invariant
                j <= i < cfgs.len(),
                views == configs_view(cfgs@),
                views[i as int] == cfg@,
                keys@.len() == i,
                key@ == endpoint_of(cfg@),
                config_fault(cfg@) is None,
                set_fault(views) == first_fault(views, i as int),
                forall|k: int| 0 <= k < i ==> (#[trigger] keys@[k])@ == endpoint_of(views[k]),
                forall|k: int| 0 <= k < i ==> (#[trigger] views[k]).sw_channel != cfg.sw_channel,
                forall|k: int| 0 <= k < j ==> endpoint_of(#[trigger] views[k]) != endpoint_of(cfg@),
            decreases i - j,
        {
            assert(keys@[j as int]@ == endpoint_of(views[j as int]));
            if text::same_text(keys[j].as_str(), key.as_str()) {
                let mut message = can_text_with(
                    cfg.sw_channel,
                    " 与其他通道绑定了同一硬件端点 ",
                    cfg.device_type.as_str(),
                );
                message.push_str(" dev");
                text::push_decimal(&mut message, cfg.device_index as u64);
                message.push_str(" ch");
                text::push_decimal(&mut message, cfg.channel_index as u64);
                return Err(message);
            }
            j += 1;
        }
        assert(fault_at(views, i as int) is None);
        keys.push(key);
        i += 1;
    }
    Ok(())
}

/// A set of channels is accepted exactly when it is not empty, every channel keeps the rules of
/// its adapter, and no two channels share a software channel or a hardware endpoint.
pub proof fn law_accepted_sets(cfgs: Seq<DeviceConfigView>)
    ensures
        set_fault(cfgs) is None <==> {
            &&& cfgs.len() > 0
            &&& forall|i: int| 0 <= i < cfgs.len() ==> config_fault(#[trigger] cfgs[i]) is None
            &&& forall|i: int, j: int|
                0 <= j < i < cfgs.len() ==> (#[trigger] cfgs[i]).sw_channel != (
                #[trigger] cfgs[j]).sw_channel && endpoint_of(cfgs[i]) != endpoint_of(cfgs[j])
        },
{
    lemma_first_fault(cfgs, 0);
    if cfgs.len() > 0 && set_fault(cfgs) is None {
        assert forall|i: int| 0 <= i < cfgs.len() implies config_fault(
            #[trigger] cfgs[i],
        ) is None by {
            assert(fault_at(cfgs, i) is None);
        }
        assert forall|i: int, j: int| 0 <= j < i < cfgs.len() implies (
        #[trigger] cfgs[i]).sw_channel != (#[trigger] cfgs[j]).sw_channel && endpoint_of(cfgs[i])
            != endpoint_of(cfgs[j]) by {
            assert(fault_at(cfgs, i) is None);
        }
    }
    if cfgs.len() > 0 && (forall|i: int|
        0 <= i < cfgs.len() ==> config_fault(#[trigger] cfgs[i]) is None) && (forall|i: int, j: int|
        0 <= j < i < cfgs.len() ==> (#[trigger] cfgs[i]).sw_channel != (
        #[trigger] cfgs[j]).sw_channel && endpoint_of(cfgs[i]) != endpoint_of(cfgs[j])) {
        assert forall|i: int| 0 <= i < cfgs.len() implies #[trigger] fault_at(cfgs, i) is None by {
            assert(config_fault(cfgs[i]) is None);
        }
    }
}

proof fn lemma_first_fault(cfgs: Seq<DeviceConfigView>, i: int)
    requires
        0 <= i,
    ensures
        first_fault(cfgs, i) is None <==> forall|k: int|
            i <= k < cfgs.len() ==> #[trigger] fault_at(cfgs, k) is None,
    decreases cfgs.len() - i,
{
    if i < cfgs.len() {
        lemma_first_fault(cfgs, i + 1);
    }
}

} // verus!
