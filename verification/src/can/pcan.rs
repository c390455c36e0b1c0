//! PEAK PCAN adapters: channel numbering, bit rates, message layout and receive states.
use crate::can::pcan_ffi::{
    TPCANChannelInformation, TPCANMsg, TPCANMsgFD, TPCANTimestamp, MSGTYPE_BRS, MSGTYPE_ERRFRAME,
    MSGTYPE_EXTENDED, MSGTYPE_FD, MSGTYPE_RTR, MSGTYPE_STATUS, PCAN_BAUD_125K, PCAN_BAUD_1M,
    PCAN_BAUD_250K, PCAN_BAUD_500K, PCAN_ERROR_BUSHEAVY, PCAN_ERROR_BUSLIGHT, PCAN_ERROR_BUSOFF,
    PCAN_ERROR_ILLHW, PCAN_ERROR_INITIALIZE, PCAN_ERROR_NODRIVER, PCAN_ERROR_OK,
    PCAN_ERROR_OVERRUN, PCAN_ERROR_QOVERRUN, PCAN_ERROR_QRCVEMPTY, PCAN_FEATURE_FD_CAPABLE,
};
use crate::can::payload::{head_of_64, head_of_8, padded_64, padded_8, zero_padded};
use crate::can::timebase::HardwareTimebase;
use crate::can::{
    frames_view, normalize_baud, normalized_baud, CanFrame, DeviceConfig, FrameView,
    PollReport,
};
use crate::text;
use vstd::prelude::*;

verus! {

/// A PCAN channel that the driver reports as attached.
#[derive(Debug)]
pub struct PcanChannelInfo {
    pub channel_index: u32,
    pub channel_name: String,
    pub device_name: String,
    pub device_id: u32,
    pub fd_capable: bool,
    pub channel_condition: u32,
}

/// What an attached PCAN channel is, with its texts as character sequences.
pub struct PcanChannelView {
    pub channel_index: u32,
    pub channel_name: Seq<char>,
    pub device_name: Seq<char>,
    pub device_id: u32,
    pub fd_capable: bool,
    pub channel_condition: u32,
}

impl View for PcanChannelInfo {
    type V = PcanChannelView;

    open spec fn view(&self) -> PcanChannelView {
        PcanChannelView {
            channel_index: self.channel_index,
            channel_name: self.channel_name@,
            device_name: self.device_name@,
            device_id: self.device_id,
            fd_capable: self.fd_capable,
            channel_condition: self.channel_condition,
        }
    }
}

impl Clone for PcanChannelInfo {
    fn clone(&self) -> (r: PcanChannelInfo)
        ensures
            r@ == self@,
    {
        PcanChannelInfo {
            channel_index: self.channel_index,
            channel_name: self.channel_name.clone(),
            device_name: self.device_name.clone(),
            device_id: self.device_id,
            fd_capable: self.fd_capable,
            channel_condition: self.channel_condition,
        }
    }
}

/// The views of a list of attached channels.
pub open spec fn pcan_views(channels: Seq<PcanChannelInfo>) -> Seq<PcanChannelView> {
    channels.map_values(|c: PcanChannelInfo| c@)
}

// ---------------------------------------------------------------- channel numbering

/// The index of a USB channel handle: 0 to 7 and 8 to 15 lie in two ranges of handles.
pub open spec fn usb_channel_index(handle: u16) -> Option<u32> {
    if 0x51 <= handle <= 0x58 {
        Some((handle - 0x51) as u32)
    } else if 0x509 <= handle <= 0x510 {
        Some((handle - 0x509 + 8) as u32)
    } else {
        None
    }
}

/// The handle of a USB channel index.
pub open spec fn usb_channel_handle(index: u32) -> Option<u16> {
    if index < 8 {
        Some((0x51 + index) as u16)
    } else if index < 16 {
        Some((0x509 + index - 8) as u16)
    } else {
        None
    }
}

/// The index of a USB channel handle.
pub fn pcan_channel_index(handle: u16) -> (r: Option<u32>)
    ensures
        r == usb_channel_index(handle),
{
    if 0x51 <= handle && handle <= 0x58 {
        Some((handle - 0x51) as u32)
    } else if 0x509 <= handle && handle <= 0x510 {
        Some((handle - 0x509 + 8) as u32)
    } else {
        None
    }
}

/// The handle of a USB channel index.
pub fn pcan_usb_channel(index: u32) -> (r: Option<u16>)
    ensures
        r == usb_channel_handle(index),
{
    if index < 8 {
        Some((0x51 + index) as u16)
    } else if index < 16 {
        Some((0x509 + index - 8) as u16)
    } else {
        None
    }
}

/// Handles and indices name the same sixteen channels, each the inverse of the other.
pub proof fn law_channel_numbers_are_inverse(index: u32, handle: u16)
    ensures
        usb_channel_handle(index) == Some(handle) <==> usb_channel_index(handle) == Some(index),
        usb_channel_handle(index) is Some <==> index < 16,
{
}

/// The name of a USB channel, counted from one.
pub open spec fn usb_channel_name(index: u32) -> Seq<char> {
    "PCAN_USBBUS"@ + text::decimal((index + 1) as nat)
}

/// The name of a USB channel.
pub fn pcan_channel_name(index: u32) -> (r: String)
    requires
        index < u32::MAX,
    ensures
        r@ == usb_channel_name(index),
{
    let mut out = "PCAN_USBBUS".to_owned();
    text::push_decimal(&mut out, index as u64 + 1);
    out
}

// ---------------------------------------------------------------- attached channels

/// The text that `String::from_utf8_lossy` reads from bytes.
pub uninterp spec fn lossy_text(bytes: Seq<u8>) -> Seq<char>;

/// `String::from_utf8_lossy`: the text of the bytes with each invalid sequence replaced. Bytes
/// that are valid UTF-8 give the text that they encode.
#[verifier::external_body]
pub(crate) fn utf8_lossy(bytes: &[u8]) -> (r: String)
    ensures
        r@ == lossy_text(bytes@),
        vstd::utf8::valid_utf8(bytes@) ==> r@ == vstd::utf8::decode_utf8(bytes@),
{
    String::from_utf8_lossy(bytes).into_owned()
}

/// The bytes of a zero-terminated name, up to its end.
pub open spec fn name_bytes(raw: Seq<i8>) -> Seq<u8>
    decreases raw.len(),
{
    if raw.len() == 0 || raw[0] == 0 {
        seq![]
    } else {
        seq![(if raw[0] < 0 { raw[0] + 256 } else { raw[0] as int }) as u8] + name_bytes(
            raw.drop_first(),
        )
    }
}

/// The name of a device as the driver reports it.
pub fn pcan_device_name(raw: &[i8; 33]) -> (r: String)
    ensures
        r@ == text::trim(lossy_text(name_bytes(raw@))),
{
    let mut bytes: Vec<u8> = Vec::new();
    let mut i: usize = 0;
    assert(raw@.skip(0) =~= raw@);
    assert(bytes@ + name_bytes(raw@) =~= name_bytes(raw@));
    while i < 33 && raw[i] != 0
        invariant
            i <= 33,
            raw@.len() == 33,
            bytes@ + name_bytes(raw@.skip(i as int)) == name_bytes(raw@),
        decreases 33 - i,
    {
        let c: i8 = raw[i];
        let byte: u8 = if c < 0 {
            (c as i16 + 256) as u8
        } else {
            c as u8
        };
        let ghost rest = raw@.skip(i as int);
        let ghost before = bytes@;
        bytes.push(byte);
        proof {
            assert(rest.drop_first() =~= raw@.skip(i + 1));
            assert(bytes@ + name_bytes(raw@.skip(i + 1)) =~= before + name_bytes(rest));
        }
        i += 1;
    }
    assert(name_bytes(raw@.skip(i as int)) =~= Seq::<u8>::empty());
    assert(bytes@ =~= name_bytes(raw@));
    let name = utf8_lossy(bytes.as_slice());
    text::trimmed(name.as_str())
}

/// The attached channel that a driver record describes, where its handle is a USB channel.
pub open spec fn attached_channel(info: TPCANChannelInformation) -> Option<PcanChannelView> {
    match usb_channel_index(info.channel_handle) {
        None => None,
        Some(index) => {
            let fd_capable = info.device_features & PCAN_FEATURE_FD_CAPABLE != 0;
            let name = text::trim(lossy_text(name_bytes(info.device_name@)));
            Some(
                PcanChannelView {
                    channel_index: index,
                    channel_name: usb_channel_name(index),
                    device_name: if name.len() > 0 {
                        name
                    } else if fd_capable {
                        "PCAN-USB FD"@
                    } else {
                        "PCAN-USB"@
                    },
                    device_id: info.device_id,
                    fd_capable,
                    channel_condition: info.channel_condition,
                },
            )
        },
    }
}

/// The attached channels of a list of driver records, in order.
pub open spec fn attached_channels(raw: Seq<TPCANChannelInformation>) -> Seq<PcanChannelView>
    decreases raw.len(),
{
    if raw.len() == 0 {
        seq![]
    } else {
        let before = attached_channels(raw.drop_last());
        match attached_channel(raw.last()) {
            Some(c) => before.push(c),
            None => before,
        }
    }
}

/// Reads the driver's list of attached channels. `count_status` and `list_status` are the answers
/// to the two queries, `raw` the records that the second one filled in.
pub fn pcan_attached_channels(
    count_status: u32,
    list_status: u32,
    raw: &[TPCANChannelInformation],
) -> (r: Vec<PcanChannelInfo>)
    ensures
        pcan_views(r@) == if count_status != PCAN_ERROR_OK || list_status != PCAN_ERROR_OK {
            seq![]
        } else {
            attached_channels(raw@)
        },
{
    let mut out: Vec<PcanChannelInfo> = Vec::new();
    assert(pcan_views(out@) =~= Seq::<PcanChannelView>::empty());
    if count_status != PCAN_ERROR_OK || list_status != PCAN_ERROR_OK {
        return out;
    }
    let mut i: usize = 0;
    while i < raw.len()
        invariant
            i <= raw.len(),
            pcan_views(out@) == attached_channels(raw@.take(i as int)),
        decreases raw.len() - i,
    {
        let ghost before = out@;
        assert(raw@.take(i + 1).drop_last() =~= raw@.take(i as int));
        if let Some(channel_index) = pcan_channel_index(raw[i].channel_handle) {
            let fd_capable: bool = raw[i].device_features & PCAN_FEATURE_FD_CAPABLE != 0;
            let mut device_name = pcan_device_name(&raw[i].device_name);
            if device_name.as_str().is_empty() {
                device_name = if fd_capable {
                    "PCAN-USB FD".to_owned()
                } else {
                    "PCAN-USB".to_owned()
                };
            }
            out.push(
                PcanChannelInfo {
                    channel_index,
                    channel_name: pcan_channel_name(channel_index),
                    device_name,
                    device_id: raw[i].device_id,
                    fd_capable,
                    channel_condition: raw[i].channel_condition,
                },
            );
            assert(pcan_views(out@) =~= pcan_views(before).push(out@.last()@));
        }
        i += 1;
    }
    assert(raw@.take(i as int) =~= raw@);
    out
}

// ---------------------------------------------------------------- payload lengths

/// The length code of the shortest CAN FD payload that holds `len` bytes.
pub open spec fn dlc_of_len(len: int) -> u8 {
    if len <= 8 {
        len as u8
    } else if len <= 12 {
        9
    } else if len <= 16 {
        10
    } else if len <= 20 {
        11
    } else if len <= 24 {
        12
    } else if len <= 32 {
        13
    } else if len <= 48 {
        14
    } else {
        15
    }
}

/// The payload length of a CAN FD length code.
pub open spec fn len_of_dlc(dlc: u8) -> int {
    let n = dlc % 16;
    if n <= 8 {
        n as int
    } else if n == 9 {
        12
    } else if n == 10 {
        16
    } else if n == 11 {
        20
    } else if n == 12 {
        24
    } else if n == 13 {
        32
    } else if n == 14 {
        48
    } else {
        64
    }
}

/// The length code for a payload of `len` bytes.
pub fn fd_len_to_dlc(len: usize) -> (r: u8)
    ensures
        r == dlc_of_len(len as int),
        r <= 15,
{
    if len <= 8 {
        len as u8
    } else if len <= 12 {
        9
    } else if len <= 16 {
        10
    } else if len <= 20 {
        11
    } else if len <= 24 {
        12
    } else if len <= 32 {
        13
    } else if len <= 48 {
        14
    } else {
        15
    }
}

/// The payload length of a length code; only its low four bits count.
pub fn fd_dlc_to_len(dlc: u8) -> (r: usize)
    ensures
        r as int == len_of_dlc(dlc),
        r <= 64,
{
    let n: u8 = dlc & 0x0F;
    assert(dlc & 0x0F == dlc % 16) by (bit_vector);
    if n <= 8 {
        n as usize
    } else if n == 9 {
        12
    } else if n == 10 {
        16
    } else if n == 11 {
        20
    } else if n == 12 {
        24
    } else if n == 13 {
        32
    } else if n == 14 {
        48
    } else {
        64
    }
}

/// Length codes and the lengths they stand for are inverse to each other, and a payload of up to
/// 64 bytes gets the code of the shortest length that holds it.
pub proof fn law_length_codes(len: int, dlc: u8)
    requires
        0 <= len <= 64,
        dlc <= 15,
    ensures
        dlc_of_len(len_of_dlc(dlc)) == dlc,
        len <= len_of_dlc(dlc_of_len(len)),
        len <= len_of_dlc(dlc) ==> len_of_dlc(dlc_of_len(len)) <= len_of_dlc(dlc),
{
}

// ---------------------------------------------------------------- bit rates

/// The nominal segment of a CAN FD timing text for an arbitration rate.
pub open spec fn nominal_segment(rate: Seq<char>) -> Option<Seq<char>> {
    if rate == "1M"@ || rate == "1000K"@ {
        Some("nom_brp=2,nom_tseg1=31,nom_tseg2=8,nom_sjw=8"@)
    } else if rate == "800K"@ {
        Some("nom_brp=5,nom_tseg1=15,nom_tseg2=4,nom_sjw=4"@)
    } else if rate == "500K"@ {
        Some("nom_brp=2,nom_tseg1=63,nom_tseg2=16,nom_sjw=16"@)
    } else if rate == "250K"@ {
        Some("nom_brp=4,nom_tseg1=63,nom_tseg2=16,nom_sjw=16"@)
    } else if rate == "125K"@ {
        Some("nom_brp=8,nom_tseg1=63,nom_tseg2=16,nom_sjw=16"@)
    } else {
        None
    }
}

/// The data segment of a CAN FD timing text for a data rate.
pub open spec fn data_segment(rate: Seq<char>) -> Option<Seq<char>> {
    if rate == "8M"@ || rate == "8000K"@ {
        Some("data_brp=1,data_tseg1=7,data_tseg2=2,data_sjw=2"@)
    } else if rate == "5M"@ || rate == "5000K"@ {
        Some("data_brp=1,data_tseg1=12,data_tseg2=3,data_sjw=3"@)
    } else if rate == "4M"@ || rate == "4000K"@ {
        Some("data_brp=1,data_tseg1=15,data_tseg2=4,data_sjw=4"@)
    } else if rate == "2M"@ || rate == "2000K"@ {
        Some("data_brp=2,data_tseg1=15,data_tseg2=4,data_sjw=4"@)
    } else if rate == "1M"@ || rate == "1000K"@ {
        Some("data_brp=4,data_tseg1=15,data_tseg2=4,data_sjw=4"@)
    } else if rate == "800K"@ {
        Some("data_brp=5,data_tseg1=15,data_tseg2=4,data_sjw=4"@)
    } else if rate == "500K"@ {
        Some("data_brp=8,data_tseg1=15,data_tseg2=4,data_sjw=4"@)
    } else if rate == "250K"@ {
        Some("data_brp=16,data_tseg1=15,data_tseg2=4,data_sjw=4"@)
    } else if rate == "125K"@ {
        Some("data_brp=32,data_tseg1=15,data_tseg2=4,data_sjw=4"@)
    } else {
        None
    }
}

/// The first text that applies: the segment for a rate.
fn nominal_segment_of(rate: &str) -> (r: Option<&'static str>)
    ensures
        r is Some <==> nominal_segment(rate@) is Some,
        r matches Some(s) ==> Some(s@) == nominal_segment(rate@),
{
    if text::same_text(rate, "1M") || text::same_text(rate, "1000K") {
        Some("nom_brp=2,nom_tseg1=31,nom_tseg2=8,nom_sjw=8")
    } else if text::same_text(rate, "800K") {
        Some("nom_brp=5,nom_tseg1=15,nom_tseg2=4,nom_sjw=4")
    } else if text::same_text(rate, "500K") {
        Some("nom_brp=2,nom_tseg1=63,nom_tseg2=16,nom_sjw=16")
    } else if text::same_text(rate, "250K") {
        Some("nom_brp=4,nom_tseg1=63,nom_tseg2=16,nom_sjw=16")
    } else if text::same_text(rate, "125K") {
        Some("nom_brp=8,nom_tseg1=63,nom_tseg2=16,nom_sjw=16")
    } else {
        None
    }
}

/// The data segment for a rate.
fn data_segment_of(rate: &str) -> (r: Option<&'static str>)
    ensures
        r is Some <==> data_segment(rate@) is Some,
        r matches Some(s) ==> Some(s@) == data_segment(rate@),
{
    if text::same_text(rate, "8M") || text::same_text(rate, "8000K") {
        Some("data_brp=1,data_tseg1=7,data_tseg2=2,data_sjw=2")
    } else if text::same_text(rate, "5M") || text::same_text(rate, "5000K") {
        Some("data_brp=1,data_tseg1=12,data_tseg2=3,data_sjw=3")
    } else if text::same_text(rate, "4M") || text::same_text(rate, "4000K") {
        Some("data_brp=1,data_tseg1=15,data_tseg2=4,data_sjw=4")
    } else if text::same_text(rate, "2M") || text::same_text(rate, "2000K") {
        Some("data_brp=2,data_tseg1=15,data_tseg2=4,data_sjw=4")
    } else if text::same_text(rate, "1M") || text::same_text(rate, "1000K") {
        Some("data_brp=4,data_tseg1=15,data_tseg2=4,data_sjw=4")
    } else if text::same_text(rate, "800K") {
        Some("data_brp=5,data_tseg1=15,data_tseg2=4,data_sjw=4")
    } else if text::same_text(rate, "500K") {
        Some("data_brp=8,data_tseg1=15,data_tseg2=4,data_sjw=4")
    } else if text::same_text(rate, "250K") {
        Some("data_brp=16,data_tseg1=15,data_tseg2=4,data_sjw=4")
    } else if text::same_text(rate, "125K") {
        Some("data_brp=32,data_tseg1=15,data_tseg2=4,data_sjw=4")
    } else {
        None
    }
}

/// The timing text that `CAN_InitializeFD` gets for an arbitration and a data rate. A text that
/// already names the clock or the nominal prescaler is taken as it stands.
pub open spec fn fd_timing(arb: Seq<char>, data: Seq<char>) -> Result<Seq<char>, Seq<char>> {
    let a = normalized_baud(arb);
    let d = normalized_baud(data);
    if text::has_part(a, "F_CLOCK"@) || text::has_part(a, "NOM_BRP"@) {
        Ok(arb)
    } else if nominal_segment(a) is None {
        Err(
            "CAN FD 不支持的仲裁速率: "@ + a
                + "（支持 1M/500K/250K/125K，或直接填完整 f_clock 串）"@,
        )
    } else if data_segment(d) is None {
        Err(
            "CAN FD 不支持的数据速率: "@ + d
                + "（支持 8M/5M/4M/2M/1M/500K，或直接填完整 f_clock 串）"@,
        )
    } else {
        Ok("f_clock=80000000,"@ + nominal_segment(a)->0 + ","@ + data_segment(d)->0)
    }
}

/// A result of strings stands for a result of texts.
pub open spec fn same_outcome(r: Result<String, String>, s: Result<Seq<char>, Seq<char>>) -> bool {
    match (r, s) {
        (Ok(a), Ok(b)) => a@ == b,
        (Err(a), Err(b)) => a@ == b,
        _ => false,
    }
}

/// The timing text for an arbitration and a data rate.
pub fn pcan_fd_bitrate(arb: &str, data: &str) -> (r: Result<String, String>)
    ensures
        same_outcome(r, fd_timing(arb@, data@)),
{
    let a = normalize_baud(arb);
    if text::contains_text(a.as_str(), "F_CLOCK") || text::contains_text(a.as_str(), "NOM_BRP") {
        return Ok(arb.to_owned());
    }
    let nominal = match nominal_segment_of(a.as_str()) {
        Some(s) => s,
        None => {
            let mut message = "CAN FD 不支持的仲裁速率: ".to_owned();
            message.push_str(a.as_str());
            message.push_str("（支持 1M/500K/250K/125K，或直接填完整 f_clock 串）");
            return Err(message);
        },
    };
    let d = normalize_baud(data);
    let segment = match data_segment_of(d.as_str()) {
        Some(s) => s,
        None => {
            let mut message = "CAN FD 不支持的数据速率: ".to_owned();
            message.push_str(d.as_str());
            message.push_str("（支持 8M/5M/4M/2M/1M/500K，或直接填完整 f_clock 串）");
            return Err(message);
        },
    };
    let mut out = "f_clock=80000000,".to_owned();
    out.push_str(nominal);
    out.push_str(",");
    out.push_str(segment);
    Ok(out)
}


// ---------------------------------------------------------------- receive states

/// The bus state that a status reports, worst first.
pub open spec fn bus_state(status: u32) -> Seq<char> {
    if status & PCAN_ERROR_BUSOFF != 0 {
        " bus-off"@
    } else if status & PCAN_ERROR_BUSHEAVY != 0 {
        " bus-heavy"@
    } else if status & PCAN_ERROR_BUSLIGHT != 0 {
        " bus-light"@
    } else {
        ""@
    }
}

/// Whether a status says that the hardware or its driver is gone.
pub open spec fn means_connection_loss(status: u32) -> bool {
    status == PCAN_ERROR_ILLHW || status & PCAN_ERROR_NODRIVER != 0 || status
        & PCAN_ERROR_INITIALIZE != 0
}

/// The report that a failed read makes.
pub open spec fn reports_failed_read(r: PollReport, status: u32) -> bool {
    &&& r.receive_overruns == if status & (PCAN_ERROR_QOVERRUN | PCAN_ERROR_OVERRUN) != 0 {
        1u64
    } else {
        0u64
    }
    &&& r.driver_errors == 1
    &&& r.connection_lost == means_connection_loss(status)
    &&& r.message matches Some(m) && m@ == "PCAN 接收状态 0x"@ + text::hex_padded(
        status as nat,
        8,
    ) + bus_state(status)
}

/// A report that nothing happened besides frames.
pub open spec fn reports_nothing(r: PollReport) -> bool {
    r.receive_overruns == 0 && r.driver_errors == 0 && !r.connection_lost && r.message is None
}

/// Turns the status of a failed read into a report.
pub fn pcan_poll_error(status: u32) -> (r: PollReport)
    ensures
        reports_failed_read(r, status),
{
    let receive_overruns: u64 = if status & (PCAN_ERROR_QOVERRUN | PCAN_ERROR_OVERRUN) != 0 {
        1
    } else {
        0
    };
    let state = if status & PCAN_ERROR_BUSOFF != 0 {
        " bus-off"
    } else if status & PCAN_ERROR_BUSHEAVY != 0 {
        " bus-heavy"
    } else if status & PCAN_ERROR_BUSLIGHT != 0 {
        " bus-light"
    } else {
        ""
    };
    let mut message = "PCAN 接收状态 0x".to_owned();
    text::push_hex_padded(&mut message, status as u64, 8);
    message.push_str(state);
    PollReport {
        receive_overruns,
        driver_errors: 1,
        connection_lost: status == PCAN_ERROR_ILLHW || status & PCAN_ERROR_NODRIVER != 0 || status
            & PCAN_ERROR_INITIALIZE != 0,
        message: Some(message),
    }
}

/// The report for a driver that lacks an entry point.
pub fn missing_entry_report(entry: &str, error: &str) -> (r: PollReport)
    ensures
        r.receive_overruns == 0,
        r.driver_errors == 1,
        r.connection_lost,
        r.message matches Some(m) && m@ == "找不到 "@ + entry@ + ": "@ + error@,
{
    let mut message = "找不到 ".to_owned();
    message.push_str(entry);
    message.push_str(": ");
    message.push_str(error);
    PollReport { receive_overruns: 0, driver_errors: 1, connection_lost: true, message: Some(message) }
}

// ---------------------------------------------------------------- receiving

/// Reads that one poll makes at most.
pub const PCAN_READS_PER_POLL: usize = 512;

/// One answer of `CAN_Read`.
#[derive(Clone, Copy, Debug)]
pub struct PcanRead {
    pub status: u32,
    pub msg: TPCANMsg,
    pub ts: TPCANTimestamp,
}

/// One answer of `CAN_ReadFD`.
#[derive(Clone, Copy, Debug)]
pub struct PcanFdRead {
    pub status: u32,
    pub msg: TPCANMsgFD,
    pub ts: u64,
}

/// The microseconds of a classical timestamp.
pub open spec fn timestamp_micros(ts: TPCANTimestamp) -> u64 {
    ((ts.millis_overflow * 0x1_0000_0000 + ts.millis) * 1000 + ts.micros) as u64
}

/// The microseconds of a classical timestamp.
fn to_micros(ts: TPCANTimestamp) -> (r: u64)
    ensures
        r == timestamp_micros(ts),
{
    (ts.millis_overflow as u64 * 0x1_0000_0000 + ts.millis as u64) * 1000 + ts.micros as u64
}

/// The frame of a classical message.
pub open spec fn classic_frame(msg: TPCANMsg, t: i64) -> FrameView {
    FrameView {
        t,
        ch: 1,
        tx: false,
        id: msg.id,
        ext: msg.msgtype & MSGTYPE_EXTENDED != 0,
        fd: false,
        brs: false,
        remote: msg.msgtype & MSGTYPE_RTR != 0,
        error: msg.msgtype & MSGTYPE_ERRFRAME != 0,
        data: msg.data@.take(if msg.len < 8 { msg.len as int } else { 8 }),
    }
}

/// The payload length of a message read through the FD interface.
pub open spec fn fd_message_len(msg: TPCANMsgFD) -> int {
    if msg.msgtype & MSGTYPE_FD != 0 {
        len_of_dlc(msg.dlc)
    } else if msg.dlc < 8 {
        msg.dlc as int
    } else {
        8
    }
}

/// The frame of a message read through the FD interface.
pub open spec fn fd_frame(msg: TPCANMsgFD, t: i64) -> FrameView {
    FrameView {
        t,
        ch: 1,
        tx: false,
        id: msg.id,
        ext: msg.msgtype & MSGTYPE_EXTENDED != 0,
        fd: msg.msgtype & MSGTYPE_FD != 0,
        brs: msg.msgtype & MSGTYPE_BRS != 0,
        remote: msg.msgtype & MSGTYPE_RTR != 0,
        error: msg.msgtype & MSGTYPE_ERRFRAME != 0,
        data: msg.data@.take(fd_message_len(msg)),
    }
}

/// The frames of a row of reads, up to the first that brings no message, and the clock after
/// them. Status messages carry no frame.
pub open spec fn classic_frames(reads: Seq<PcanRead>, clock: HardwareTimebase, host_now: i64) -> (
    Seq<FrameView>,
    HardwareTimebase,
)
    decreases reads.len(),
{
    if reads.len() == 0 || reads[0].status != PCAN_ERROR_OK {
        (seq![], clock)
    } else if reads[0].msg.msgtype & MSGTYPE_STATUS != 0 {
        classic_frames(reads.drop_first(), clock, host_now)
    } else {
        let raw = timestamp_micros(reads[0].ts);
        let t = clock.time_of(raw, host_now) as i64;
        let rest = classic_frames(reads.drop_first(), clock.after(raw, host_now), host_now);
        (seq![classic_frame(reads[0].msg, t)] + rest.0, rest.1)
    }
}

/// The same for reads through the FD interface.
pub open spec fn fd_frames(reads: Seq<PcanFdRead>, clock: HardwareTimebase, host_now: i64) -> (
    Seq<FrameView>,
    HardwareTimebase,
)
    decreases reads.len(),
{
    if reads.len() == 0 || reads[0].status != PCAN_ERROR_OK {
        (seq![], clock)
    } else if reads[0].msg.msgtype & MSGTYPE_STATUS != 0 {
        fd_frames(reads.drop_first(), clock, host_now)
    } else {
        let t = clock.time_of(reads[0].ts, host_now) as i64;
        let rest = fd_frames(reads.drop_first(), clock.after(reads[0].ts, host_now), host_now);
        (seq![fd_frame(reads[0].msg, t)] + rest.0, rest.1)
    }
}

/// The status that ends a row of reads: the first one that is not OK.
pub open spec fn ending_status(statuses: Seq<u32>) -> Option<u32>
    decreases statuses.len(),
{
    if statuses.len() == 0 {
        None
    } else if statuses[0] != PCAN_ERROR_OK {
        Some(statuses[0])
    } else {
        ending_status(statuses.drop_first())
    }
}

/// The report of a poll whose reads ended with `end`.
pub open spec fn reports_poll(r: PollReport, end: Option<u32>) -> bool {
    match end {
        Some(status) if status != PCAN_ERROR_QRCVEMPTY => reports_failed_read(r, status),
        _ => reports_nothing(r),
    }
}

/// Evaluates the reads of one poll of a classical channel: appends the frames and reports how the
/// reads ended.
pub fn poll_classic(
    reads: &[PcanRead],
    clock: &mut HardwareTimebase,
    host_now: i64,
    out: &mut Vec<CanFrame>,
) -> (r: PollReport)
    ensures
        frames_view(final(out)@) == frames_view(old(out)@) + classic_frames(
            reads@,
            *old(clock),
            host_now,
        ).0,
        *final(clock) == classic_frames(reads@, *old(clock), host_now).1,
        reports_poll(r, ending_status(reads@.map_values(|x: PcanRead| x.status))),
{
    let ghost statuses = reads@.map_values(|x: PcanRead| x.status);
    let ghost frames = classic_frames(reads@, *clock, host_now);
    let ghost first = frames_view(out@);
    let mut i: usize = 0;
    assert(reads@.skip(0) =~= reads@);
    assert(statuses.skip(0) =~= statuses);
    assert(first + frames.0 =~= first + frames.0);
    while i < reads.len()
        invariant
            i <= reads.len(),
            statuses == reads@.map_values(|x: PcanRead| x.status),
            frames_view(out@) + classic_frames(reads@.skip(i as int), *clock, host_now).0 == first
                + frames.0,
            classic_frames(reads@.skip(i as int), *clock, host_now).1 == frames.1,
            ending_status(statuses.skip(i as int)) == ending_status(statuses),
            first == frames_view(old(out)@),
            frames == classic_frames(reads@, *old(clock), host_now),
        decreases reads.len() - i,
    {
        let ghost rest = reads@.skip(i as int);
        let ghost done = frames_view(out@);
        let ghost before = out@;
        proof {
            assert(rest.drop_first() =~= reads@.skip(i + 1));
            assert(statuses.skip(i as int).drop_first() =~= statuses.skip(i + 1));
            assert(statuses.skip(i as int)[0] == reads@[i as int].status);
        }
        let read: PcanRead = reads[i];
        if read.status == PCAN_ERROR_QRCVEMPTY {
            assert(done + classic_frames(rest, *clock, host_now).0 =~= done);
            return PollReport::default();
        }
        if read.status != PCAN_ERROR_OK {
            assert(done + classic_frames(rest, *clock, host_now).0 =~= done);
            return pcan_poll_error(read.status);
        }
        if read.msg.msgtype & MSGTYPE_STATUS == 0 {
            let t: i64 = clock.map(to_micros(read.ts), host_now);
            let len: usize = if read.msg.len < 8 {
                read.msg.len as usize
            } else {
                8
            };
            let frame = CanFrame {
                t,
                ch: 1,
                tx: false,
                id: read.msg.id,
                ext: read.msg.msgtype & MSGTYPE_EXTENDED != 0,
                fd: false,
                brs: false,
                remote: read.msg.msgtype & MSGTYPE_RTR != 0,
                error: read.msg.msgtype & MSGTYPE_ERRFRAME != 0,
                data: head_of_8(&read.msg.data, len),
            };
            out.push(frame);
            proof {
                assert(frame@ == classic_frame(rest[0].msg, t));
                assert(frames_view(out@) =~= done.push(frame@));
                let tail = classic_frames(rest.drop_first(), *clock, host_now).0;
                assert(done.push(frame@) + tail =~= done + (seq![frame@] + tail));
            }
        }
        i += 1;
    }
    proof {
        assert(frames_view(out@) + Seq::<FrameView>::empty() =~= frames_view(out@));
    }
    PollReport::default()
}

/// Evaluates the reads of one poll of a channel opened through the FD interface.
pub fn poll_fd(
    reads: &[PcanFdRead],
    clock: &mut HardwareTimebase,
    host_now: i64,
    out: &mut Vec<CanFrame>,
) -> (r: PollReport)
    ensures
        frames_view(final(out)@) == frames_view(old(out)@) + fd_frames(
            reads@,
            *old(clock),
            host_now,
        ).0,
        *final(clock) == fd_frames(reads@, *old(clock), host_now).1,
        reports_poll(r, ending_status(reads@.map_values(|x: PcanFdRead| x.status))),
{
    let ghost statuses = reads@.map_values(|x: PcanFdRead| x.status);
    let ghost frames = fd_frames(reads@, *clock, host_now);
    let ghost first = frames_view(out@);
    let mut i: usize = 0;
    assert(reads@.skip(0) =~= reads@);
    assert(statuses.skip(0) =~= statuses);
    assert(first + frames.0 =~= first + frames.0);
    while i < reads.len()
        invariant
            i <= reads.len(),
            statuses == reads@.map_values(|x: PcanFdRead| x.status),
            frames_view(out@) + fd_frames(reads@.skip(i as int), *clock, host_now).0 == first
                + frames.0,
            fd_frames(reads@.skip(i as int), *clock, host_now).1 == frames.1,
            ending_status(statuses.skip(i as int)) == ending_status(statuses),
            first == frames_view(old(out)@),
            frames == fd_frames(reads@, *old(clock), host_now),
        decreases reads.len() - i,
    {
        let ghost rest = reads@.skip(i as int);
        let ghost done = frames_view(out@);
        proof {
            assert(rest.drop_first() =~= reads@.skip(i + 1));
            assert(statuses.skip(i as int).drop_first() =~= statuses.skip(i + 1));
            assert(statuses.skip(i as int)[0] == reads@[i as int].status);
        }
        let read: PcanFdRead = reads[i];
        if read.status == PCAN_ERROR_QRCVEMPTY {
            assert(done + fd_frames(rest, *clock, host_now).0 =~= done);
            return PollReport::default();
        }
        if read.status != PCAN_ERROR_OK {
            assert(done + fd_frames(rest, *clock, host_now).0 =~= done);
            return pcan_poll_error(read.status);
        }
        if read.msg.msgtype & MSGTYPE_STATUS == 0 {
            let t: i64 = clock.map(read.ts, host_now);
            let fd: bool = read.msg.msgtype & MSGTYPE_FD != 0;
            let len: usize = if fd {
                fd_dlc_to_len(read.msg.dlc)
            } else if read.msg.dlc < 8 {
                read.msg.dlc as usize
            } else {
                8
            };
            let frame = CanFrame {
                t,
                ch: 1,
                tx: false,
                id: read.msg.id,
                ext: read.msg.msgtype & MSGTYPE_EXTENDED != 0,
                fd,
                brs: read.msg.msgtype & MSGTYPE_BRS != 0,
                remote: read.msg.msgtype & MSGTYPE_RTR != 0,
                error: read.msg.msgtype & MSGTYPE_ERRFRAME != 0,
                data: head_of_64(&read.msg.data, len),
            };
            out.push(frame);
            proof {
                assert(frame@ == fd_frame(rest[0].msg, t));
                assert(frames_view(out@) =~= done.push(frame@));
                let tail = fd_frames(rest.drop_first(), *clock, host_now).0;
                assert(done.push(frame@) + tail =~= done + (seq![frame@] + tail));
            }
        }
        i += 1;
    }
    proof {
        assert(frames_view(out@) + Seq::<FrameView>::empty() =~= frames_view(out@));
    }
    PollReport::default()
}

// ---------------------------------------------------------------- sending

/// A message for one of the two write entry points.
#[derive(Clone, Copy, Debug)]
pub enum PcanMessage {
    Classic(TPCANMsg),
    Fd(TPCANMsgFD),
}

/// The type of a message for the FD interface.
pub open spec fn fd_message_type(f: FrameView) -> u8 {
    let fd = f.fd || f.data.len() > 8;
    ((if f.ext { MSGTYPE_EXTENDED as int } else { 0 }) + (if fd { MSGTYPE_FD as int } else { 0 })
        + (if fd && f.brs { MSGTYPE_BRS as int } else { 0 }) + (if f.remote { MSGTYPE_RTR as int } else {
        0
    })) as u8
}

/// The message that carries a frame over the FD interface.
pub open spec fn carries_over_fd(msg: TPCANMsgFD, f: FrameView) -> bool {
    let len = if f.data.len() < 64 { f.data.len() as int } else { 64 };
    &&& msg.id == f.id
    &&& msg.msgtype == fd_message_type(f)
    &&& msg.dlc == dlc_of_len(len)
    &&& msg.data@ == zero_padded(f.data.take(len), 64)
}

/// The message that carries a classical frame.
pub open spec fn carries_classic(msg: TPCANMsg, f: FrameView) -> bool {
    &&& msg.id == f.id
    &&& msg.msgtype == ((if f.ext { MSGTYPE_EXTENDED as int } else { 0 }) + (if f.remote {
        MSGTYPE_RTR as int
    } else {
        0
    })) as u8
    &&& msg.len == f.data.len()
    &&& msg.data@ == zero_padded(f.data, 8)
}

/// Builds the message for a frame. A channel that was not opened for CAN FD takes neither FD
/// frames nor payloads of more than eight bytes.
pub fn pcan_message(opened_for_fd: bool, f: &CanFrame) -> (r: Result<PcanMessage, String>)
    ensures
        r is Err <==> !opened_for_fd && (f.fd || f.data@.len() > 8),
        r matches Err(m) ==> m@
            == "当前 PCAN 适配器未按 CAN FD 初始化（请在设备配置里选 CAN FD）"@,
        r matches Ok(msg) ==> match msg {
            PcanMessage::Fd(m) => opened_for_fd && carries_over_fd(m, f@),
            PcanMessage::Classic(m) => !opened_for_fd && carries_classic(m, f@),
        },
{
    if opened_for_fd {
        let len: usize = if f.data.len() < 64 {
            f.data.len()
        } else {
            64
        };
        let data: [u8; 64] = padded_64(f.data.as_slice(), len);
        let fd: bool = f.fd || len > 8;
        let mut msgtype: u8 = if f.ext {
            MSGTYPE_EXTENDED
        } else {
            0
        };
        if fd {
            msgtype = msgtype + MSGTYPE_FD;
            if f.brs {
                msgtype = msgtype + MSGTYPE_BRS;
            }
        }
        if f.remote {
            msgtype = msgtype + MSGTYPE_RTR;
        }
        return Ok(PcanMessage::Fd(TPCANMsgFD { id: f.id, msgtype, dlc: fd_len_to_dlc(len), data }));
    }
    if f.fd || f.data.len() > 8 {
        return Err(
            "当前 PCAN 适配器未按 CAN FD 初始化（请在设备配置里选 CAN FD）".to_owned(),
        );
    }
    let len: usize = f.data.len();
    let data: [u8; 8] = padded_8(f.data.as_slice());
    let mut msgtype: u8 = if f.ext {
        MSGTYPE_EXTENDED
    } else {
        0
    };
    if f.remote {
        msgtype = msgtype + MSGTYPE_RTR;
    }
    Ok(PcanMessage::Classic(TPCANMsg { id: f.id, msgtype, len: len as u8, data }))
}

/// The outcome of a write with the given status.
pub fn pcan_write_result(opened_for_fd: bool, status: u32) -> (r: Result<(), String>)
    ensures
        r is Ok <==> status == PCAN_ERROR_OK,
        r matches Err(m) ==> m@ == (if opened_for_fd {
            "CAN_WriteFD 失败 status=0x"@
        } else {
            "CAN_Write 失败 status=0x"@
        }) + text::hex_padded(status as nat, 8),
{
    if status == PCAN_ERROR_OK {
        return Ok(());
    }
    let mut message = if opened_for_fd {
        "CAN_WriteFD 失败 status=0x".to_owned()
    } else {
        "CAN_Write 失败 status=0x".to_owned()
    };
    text::push_hex_padded(&mut message, status as u64, 8);
    Err(message)
}

/// Which flags a sum of message type bits holds.
proof fn lemma_type_bits(ext: bool, fd: bool, brs: bool, remote: bool)
    ensures
        ({
            let m = ((if ext { 2int } else { 0 }) + (if fd { 4int } else { 0 }) + (if brs { 8int } else {
                0
            }) + (if remote { 1int } else { 0 })) as u8;
            &&& (m & MSGTYPE_EXTENDED != 0) == ext
            &&& (m & MSGTYPE_FD != 0) == fd
            &&& (m & MSGTYPE_BRS != 0) == brs
            &&& (m & MSGTYPE_RTR != 0) == remote
            &&& m & MSGTYPE_ERRFRAME == 0
            &&& m & MSGTYPE_STATUS == 0
        }),
{
    let m = ((if ext { 2int } else { 0 }) + (if fd { 4int } else { 0 }) + (if brs { 8int } else {
        0
    }) + (if remote { 1int } else { 0 })) as u8;
    let e = (if ext { 1int } else { 0 }) as u8;
    let f = (if fd { 1int } else { 0 }) as u8;
    let b = (if brs { 1int } else { 0 }) as u8;
    let r = (if remote { 1int } else { 0 }) as u8;
    assert(m == 2 * e + 4 * f + 8 * b + r);
    assert(e <= 1 && f <= 1 && b <= 1 && r <= 1 && m == 2 * e + 4 * f + 8 * b + r ==> (m & 2 != 0) == (e
        == 1) && (m & 4 != 0) == (f == 1) && (m & 8 != 0) == (b == 1) && (m & 1 != 0) == (r == 1) && m
        & 0x40 == 0 && m & 0x80 == 0) by (bit_vector);
}

/// What was written comes back: a frame that fits the FD interface, received from the message that
/// carries it, is the frame that was sent.
pub proof fn law_fd_messages_round_trip(f: FrameView, msg: TPCANMsgFD, t: i64)
    requires
        carries_over_fd(msg, f),
        f.fd || f.data.len() <= 8,
        f.fd ==> exists|dlc: u8| len_of_dlc(dlc) == f.data.len(),
        f.brs ==> f.fd,
    ensures
        fd_frame(msg, t) == (FrameView { t, ch: 1, tx: false, error: false, ..f }),
        msg.msgtype & MSGTYPE_STATUS == 0,
{
    let n = f.data.len() as int;
    lemma_type_bits(f.ext, f.fd, f.fd && f.brs, f.remote);
    if f.fd {
        let dlc = choose|dlc: u8| len_of_dlc(dlc) == f.data.len();
        law_length_codes(n, (dlc % 16) as u8);
        assert(n <= 64);
    }
    assert(f.data.take(n) =~= f.data);
    assert(msg.data@.take(n) =~= f.data);
    assert(fd_message_len(msg) == n);
}

/// What was written comes back: a classical frame, received from the message that carries it, is
/// the frame that was sent.
pub proof fn law_classic_messages_round_trip(f: FrameView, msg: TPCANMsg, t: i64)
    requires
        carries_classic(msg, f),
        !f.fd,
        !f.brs,
        f.data.len() <= 8,
    ensures
        classic_frame(msg, t) == (FrameView { t, ch: 1, tx: false, error: false, ..f }),
        msg.msgtype & MSGTYPE_STATUS == 0,
{
    lemma_type_bits(f.ext, false, false, f.remote);
    assert(msg.data@.take(f.data.len() as int) =~= f.data);
}


// ---------------------------------------------------------------- opening

/// An opened PCAN channel.
#[derive(Debug)]
pub struct PcanBus {
    pub channel: u16,
    /// Whether the channel was opened through the FD interface.
    pub is_fd: bool,
    pub timestamp: HardwareTimebase,
    pub name: String,
}

/// What has to be called to open a channel.
#[derive(Debug)]
pub enum PcanOpening {
    /// `CAN_Initialize` with a baud code; the bit rate is kept for a second attempt.
    Classic { channel: u16, baud_code: u16, baud: String, name: String },
    /// `CAN_InitializeFD` with a timing text.
    Fd { channel: u16, bitrate: String, name: String },
}

/// The baud code of the classical interface for a bit rate.
pub open spec fn classic_baud_code(baud: Seq<char>) -> Option<u16> {
    let b = normalized_baud(baud);
    if b == "125K"@ {
        Some(PCAN_BAUD_125K)
    } else if b == "250K"@ {
        Some(PCAN_BAUD_250K)
    } else if b == "500K"@ {
        Some(PCAN_BAUD_500K)
    } else if b == "1000K"@ || b == "1M"@ {
        Some(PCAN_BAUD_1M)
    } else {
        None
    }
}

/// The message for a channel index that no USB channel has.
pub open spec fn bad_channel_message(index: u32) -> Seq<char> {
    "PCAN only supports configured USB channel index 0..15, got "@ + text::decimal(index as nat)
}

/// The name of a channel opened at a single bit rate.
pub open spec fn classic_bus_name(index: u32, baud: Seq<char>) -> Seq<char> {
    usb_channel_name(index) + " @"@ + normalized_baud(baud)
}

/// The outcome of planning a classical opening.
pub open spec fn plans_classic(r: Result<PcanOpening, String>, index: u32, baud: Seq<char>) -> bool {
    match r {
        Ok(PcanOpening::Classic { channel, baud_code, baud: kept, name }) => {
            &&& usb_channel_handle(index) == Some(channel)
            &&& classic_baud_code(baud) == Some(baud_code)
            &&& kept@ == baud
            &&& name@ == classic_bus_name(index, baud)
        },
        Ok(PcanOpening::Fd { .. }) => false,
        Err(m) => if usb_channel_handle(index) is None {
            m@ == bad_channel_message(index)
        } else {
            &&& classic_baud_code(baud) is None
            &&& m@ == "Unsupported PCAN baud rate: "@ + normalized_baud(baud)
        },
    }
}

/// The outcome of planning an opening through the FD interface with a timing text.
pub open spec fn plans_fd(
    r: Result<PcanOpening, String>,
    index: u32,
    timing: Result<Seq<char>, Seq<char>>,
    bus_name: Seq<char>,
) -> bool {
    match r {
        Ok(PcanOpening::Fd { channel, bitrate, name }) => {
            &&& usb_channel_handle(index) == Some(channel)
            &&& timing == Ok::<Seq<char>, Seq<char>>(bitrate@)
            &&& name@ == bus_name
        },
        Ok(PcanOpening::Classic { .. }) => false,
        Err(m) => if usb_channel_handle(index) is None {
            m@ == bad_channel_message(index)
        } else {
            timing == Err::<Seq<char>, Seq<char>>(m@)
        },
    }
}

fn bad_channel(index: u32) -> (r: String)
    ensures
        r@ == bad_channel_message(index),
{
    let mut message = "PCAN only supports configured USB channel index 0..15, got ".to_owned();
    text::push_decimal(&mut message, index as u64);
    message
}

fn plan_fd(index: u32, arb: &str, data: &str, suffix: &str) -> (r: Result<PcanOpening, String>)
    ensures
        plans_fd(
            r,
            index,
            fd_timing(arb@, data@),
            usb_channel_name(index) + suffix@,
        ),
{
    let channel: u16 = match pcan_usb_channel(index) {
        Some(channel) => channel,
        None => {
            return Err(bad_channel(index));
        },
    };
    match pcan_fd_bitrate(arb, data) {
        Ok(bitrate) => {
            let mut name = pcan_channel_name(index);
            name.push_str(suffix);
            Ok(PcanOpening::Fd { channel, bitrate, name })
        },
        Err(message) => Err(message),
    }
}

impl PcanBus {
    /// Plans to open the first channel at 500 kbit/s.
    pub fn open() -> (r: Result<PcanOpening, String>)
        ensures
            plans_classic(r, 0, "500K"@),
    {
        PcanBus::open_config(0, "500K")
    }

    /// Plans to open a classical channel.
    pub fn open_config(channel_index: u32, baud: &str) -> (r: Result<PcanOpening, String>)
        ensures
            plans_classic(r, channel_index, baud@),
    {
        let channel: u16 = match pcan_usb_channel(channel_index) {
            Some(channel) => channel,
            None => {
                return Err(bad_channel(channel_index));
            },
        };
        let rate = normalize_baud(baud);
        let s = rate.as_str();
        let baud_code: u16 = if text::same_text(s, "125K") {
            PCAN_BAUD_125K
        } else if text::same_text(s, "250K") {
            PCAN_BAUD_250K
        } else if text::same_text(s, "500K") {
            PCAN_BAUD_500K
        } else if text::same_text(s, "1000K") || text::same_text(s, "1M") {
            PCAN_BAUD_1M
        } else {
            let mut message = "Unsupported PCAN baud rate: ".to_owned();
            message.push_str(s);
            return Err(message);
        };
        let mut name = pcan_channel_name(channel_index);
        name.push_str(" @");
        name.push_str(s);
        Ok(PcanOpening::Classic { channel, baud_code, baud: baud.to_owned(), name })
    }

    /// Plans to open a configured channel. Hardware that can do CAN FD is opened through the FD
    /// interface even for classical CAN, with the arbitration rate as data rate.
    pub fn open_cfg(cfg: &DeviceConfig, fd_capable: bool) -> (r: Result<PcanOpening, String>)
        ensures
            !cfg.is_fd && !fd_capable ==> plans_classic(r, cfg.channel_index, cfg.baud@),
            !cfg.is_fd && fd_capable ==> plans_fd(
                r,
                cfg.channel_index,
                fd_timing(cfg.baud@, cfg.baud@),
                classic_bus_name(cfg.channel_index, cfg.baud@) + " (FD API, Classical CAN)"@,
            ),
            cfg.is_fd ==> plans_fd(
                r,
                cfg.channel_index,
                fd_timing(
                    if text::trim(cfg.custom_bitrate@).len() == 0 {
                        cfg.baud@
                    } else {
                        text::trim(cfg.custom_bitrate@)
                    },
                    cfg.data_baud@,
                ),
                usb_channel_name(cfg.channel_index) + " FD @"@ + normalized_baud(cfg.baud@) + "/"@
                    + normalized_baud(cfg.data_baud@),
            ),
    {
        let rate = normalize_baud(cfg.baud.as_str());
        if !cfg.is_fd {
            if !fd_capable {
                return PcanBus::open_config(cfg.channel_index, cfg.baud.as_str());
            }
            let mut suffix = " @".to_owned();
            suffix.push_str(rate.as_str());
            suffix.push_str(" (FD API, Classical CAN)");
            proof {
                let n = usb_channel_name(cfg.channel_index);
                assert(n + suffix@ =~= classic_bus_name(cfg.channel_index, cfg.baud@)
                    + " (FD API, Classical CAN)"@);
            }
            return plan_fd(
                cfg.channel_index,
                cfg.baud.as_str(),
                cfg.baud.as_str(),
                suffix.as_str(),
            );
        }
        let custom = text::trimmed(cfg.custom_bitrate.as_str());
        let arb = if custom.as_str().is_empty() {
            cfg.baud.as_str()
        } else {
            custom.as_str()
        };
        let data_rate = normalize_baud(cfg.data_baud.as_str());
        let mut suffix = " FD @".to_owned();
        suffix.push_str(rate.as_str());
        suffix.push_str("/");
        suffix.push_str(data_rate.as_str());
        proof {
            let n = usb_channel_name(cfg.channel_index);
            assert(n + suffix@ =~= n + " FD @"@ + normalized_baud(cfg.baud@) + "/"@
                + normalized_baud(cfg.data_baud@));
        }
        plan_fd(cfg.channel_index, arb, cfg.data_baud.as_str(), suffix.as_str())
    }
}

/// What follows an initialisation call.
#[derive(Debug)]
pub enum PcanInitStep {
    Opened(PcanBus),
    /// The classical entry point refused the hardware: `CAN_InitializeFD` is tried with this text.
    RetryFd { channel: u16, bitrate: String, name: String },
    Failed(String),
}

/// A freshly opened bus.
pub open spec fn freshly_opened(bus: PcanBus, channel: u16, is_fd: bool, name: Seq<char>) -> bool {
    &&& bus.channel == channel
    &&& bus.is_fd == is_fd
    &&& bus.name@ == name
    &&& bus.timestamp == (HardwareTimebase {
        tick_nanos: 1000,
        wrap_modulus: None,
        wrap_offset: 0,
        previous_raw: None,
        anchor_raw: None,
        anchor_host: 0,
    })
}

impl PcanOpening {
    /// Evaluates the status of the initialisation call.
    pub fn initialized(self, status: u32) -> (r: PcanInitStep)
        ensures
            match self {
                PcanOpening::Classic { channel, baud_code, baud, name } => match r {
                    PcanInitStep::Opened(bus) => status == PCAN_ERROR_OK && freshly_opened(
                        bus,
                        channel,
                        false,
                        name@,
                    ),
                    PcanInitStep::RetryFd { channel: c, bitrate, name: n } => {
                        &&& status == PCAN_ERROR_ILLHW
                        &&& c == channel
                        &&& fd_timing(baud@, baud@) == Ok::<Seq<char>, Seq<char>>(bitrate@)
                        &&& n@ == name@
                    },
                    PcanInitStep::Failed(m) => if status == PCAN_ERROR_ILLHW {
                        fd_timing(baud@, baud@) == Err::<Seq<char>, Seq<char>>(m@)
                    } else {
                        &&& status != PCAN_ERROR_OK
                        &&& m@ == "CAN_Initialize 失败, status=0x"@ + text::hex_padded(
                            status as nat,
                            8,
                        )
                            + "（设备未连接、通道被其他程序占用或 PEAK 驱动不可用；请关闭其他 CAN 工具后重试）"@
                    },
                },
                PcanOpening::Fd { channel, bitrate, name } => match r {
                    PcanInitStep::Opened(bus) => status == PCAN_ERROR_OK && freshly_opened(
                        bus,
                        channel,
                        true,
                        name@,
                    ),
                    PcanInitStep::RetryFd { .. } => false,
                    PcanInitStep::Failed(m) => {
                        &&& status != PCAN_ERROR_OK
                        &&& m@ == "CAN_InitializeFD 失败, status=0x"@ + text::hex_padded(
                            status as nat,
                            8,
                        ) + "（检查卡是否支持 FD/时钟，比特率串: "@ + bitrate@ + "）"@
                    },
                },
            },
    {
        match self {
            PcanOpening::Classic { channel, baud_code, baud, name } => {
                if status == PCAN_ERROR_OK {
                    return PcanInitStep::Opened(
                        PcanBus {
                            channel,
                            is_fd: false,
                            timestamp: HardwareTimebase::new(1000, None),
                            name,
                        },
                    );
                }
                if status == PCAN_ERROR_ILLHW {
                    return match pcan_fd_bitrate(baud.as_str(), baud.as_str()) {
                        Ok(bitrate) => PcanInitStep::RetryFd { channel, bitrate, name },
                        Err(message) => PcanInitStep::Failed(message),
                    };
                }
                let mut message = "CAN_Initialize 失败, status=0x".to_owned();
                text::push_hex_padded(&mut message, status as u64, 8);
                message.push_str(
                    "（设备未连接、通道被其他程序占用或 PEAK 驱动不可用；请关闭其他 CAN 工具后重试）",
                );
                PcanInitStep::Failed(message)
            },
            PcanOpening::Fd { channel, bitrate, name } => {
                if status == PCAN_ERROR_OK {
                    return PcanInitStep::Opened(
                        PcanBus {
                            channel,
                            is_fd: true,
                            timestamp: HardwareTimebase::new(1000, None),
                            name,
                        },
                    );
                }
                let mut message = "CAN_InitializeFD 失败, status=0x".to_owned();
                text::push_hex_padded(&mut message, status as u64, 8);
                message.push_str("（检查卡是否支持 FD/时钟，比特率串: ");
                message.push_str(bitrate.as_str());
                message.push_str("）");
                PcanInitStep::Failed(message)
            },
        }
    }
}

/// Evaluates the second attempt through the FD interface after the classical one was refused with
/// `status`.
pub fn retried_fd(channel: u16, name: String, status: u32, fd_status: u32) -> (r: Result<
    PcanBus,
    String,
>)
    ensures
        r is Ok <==> fd_status == PCAN_ERROR_OK,
        r matches Ok(bus) ==> freshly_opened(bus, channel, true, name@),
        r matches Err(m) ==> m@ == "CAN_Initialize 失败 0x"@ + text::hex_padded(status as nat, 8)
            + "，FD API 回退也失败 0x"@ + text::hex_padded(fd_status as nat, 8),
{
    if fd_status == PCAN_ERROR_OK {
        return Ok(
            PcanBus { channel, is_fd: true, timestamp: HardwareTimebase::new(1000, None), name },
        );
    }
    let mut message = "CAN_Initialize 失败 0x".to_owned();
    text::push_hex_padded(&mut message, status as u64, 8);
    message.push_str("，FD API 回退也失败 0x");
    text::push_hex_padded(&mut message, fd_status as u64, 8);
    Err(message)
}

} // verus!
