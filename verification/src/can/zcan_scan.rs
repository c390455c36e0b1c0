//! Finding attached ZLG, GCAN and ZHCX channels.
use crate::can::pcan::{lossy_text, utf8_lossy};
use crate::can::zcan::{ZcanDeviceFamily, ZcanDeviceProfile};
use crate::can::zcan_ffi::ZcanDeviceInfo;
use crate::can::zlg_ffi::VCI_BOARD_INFO;
use crate::text;
use vstd::prelude::*;

verus! {

/// A channel of an attached USB adapter.
#[derive(Debug)]
pub struct ZcanUsbChannelInfo {
    pub device_type: String,
    pub hardware_label: String,
    pub serial_number: String,
    pub device_index: u32,
    pub channel_index: u32,
    pub fd_capable: bool,
}

/// What an attached channel is, with its texts as character sequences.
pub struct UsbChannelView {
    pub device_type: Seq<char>,
    pub hardware_label: Seq<char>,
    pub serial_number: Seq<char>,
    pub device_index: u32,
    pub channel_index: u32,
    pub fd_capable: bool,
}

impl View for ZcanUsbChannelInfo {
    type V = UsbChannelView;

    open spec fn view(&self) -> UsbChannelView {
        UsbChannelView {
            device_type: self.device_type@,
            hardware_label: self.hardware_label@,
            serial_number: self.serial_number@,
            device_index: self.device_index,
            channel_index: self.channel_index,
            fd_capable: self.fd_capable,
        }
    }
}

impl Clone for ZcanUsbChannelInfo {
    fn clone(&self) -> (r: ZcanUsbChannelInfo)
        ensures
            r@ == self@,
    {
        ZcanUsbChannelInfo {
            device_type: self.device_type.clone(),
            hardware_label: self.hardware_label.clone(),
            serial_number: self.serial_number.clone(),
            device_index: self.device_index,
            channel_index: self.channel_index,
            fd_capable: self.fd_capable,
        }
    }
}

/// The views of a list of attached channels.
pub open spec fn usb_views(channels: Seq<ZcanUsbChannelInfo>) -> Seq<UsbChannelView> {
    channels.map_values(|c: ZcanUsbChannelInfo| c@)
}

// ---------------------------------------------------------------- texts of driver records

/// The bytes before the first zero.
pub open spec fn until_zero(bytes: Seq<u8>) -> Seq<u8>
    decreases bytes.len(),
{
    if bytes.len() == 0 || bytes[0] == 0 {
        seq![]
    } else {
        seq![bytes[0]] + until_zero(bytes.drop_first())
    }
}

fn before_zero(bytes: &[u8]) -> (r: Vec<u8>)
    ensures
        r@ == until_zero(bytes@),
{
    let mut out: Vec<u8> = Vec::new();
    let mut i: usize = 0;
    assert(bytes@.skip(0) =~= bytes@);
    assert(out@ + until_zero(bytes@) =~= until_zero(bytes@));
    while i < bytes.len() && bytes[i] != 0
        invariant
            i <= bytes.len(),
            out@ + until_zero(bytes@.skip(i as int)) == until_zero(bytes@),
        decreases bytes.len() - i,
    {
        let ghost rest = bytes@.skip(i as int);
        let ghost before = out@;
        out.push(bytes[i]);
        proof {
            assert(rest.drop_first() =~= bytes@.skip(i + 1));
            assert(out@ + until_zero(bytes@.skip(i + 1)) =~= before + until_zero(rest));
        }
        i += 1;
    }
    assert(until_zero(bytes@.skip(i as int)) =~= Seq::<u8>::empty());
    assert(out@ =~= until_zero(bytes@));
    out
}

/// The text of a zero-terminated field.
pub open spec fn field_text(bytes: Seq<u8>) -> Seq<char> {
    text::trim(lossy_text(until_zero(bytes)))
}

/// The text of a zero-terminated field.
pub fn zcan_info_text(bytes: &[u8]) -> (r: String)
    ensures
        r@ == field_text(bytes@),
{
    let head = before_zero(bytes);
    let s = utf8_lossy(head.as_slice());
    text::trimmed(s.as_str())
}

/// Whether a byte is a printable ASCII character.
pub open spec fn is_printable(b: u8) -> bool {
    0x20 <= b <= 0x7e
}

/// The printable characters of a zero-terminated field.
pub open spec fn printable_text(bytes: Seq<u8>) -> Seq<char> {
    text::trim(
        until_zero(bytes).filter(|b: u8| is_printable(b)).map_values(|b: u8| b as char),
    )
}

/// The printable characters of a zero-terminated field.
pub fn printable_vci_text(bytes: &[u8]) -> (r: String)
    ensures
        r@ == printable_text(bytes@),
{
    let head = before_zero(bytes);
    let ghost keep = |b: u8| is_printable(b);
    let ghost to_char = |b: u8| b as char;
    let mut out = String::new();
    let mut i: usize = 0;
    proof {
        reveal(Seq::filter);
        assert(head@.take(0).filter(keep).map_values(to_char) =~= Seq::<char>::empty());
    }
    while i < head.len()
        invariant
            i <= head.len(),
            keep == (|b: u8| is_printable(b)),
            to_char == (|b: u8| b as char),
            out@ == head@.take(i as int).filter(keep).map_values(to_char),
        decreases head.len() - i,
    {
        let b: u8 = head[i];
        proof {
            reveal(Seq::filter);
            assert(head@.take(i + 1).drop_last() =~= head@.take(i as int));
        }
        let ghost before = head@.take(i as int).filter(keep);
        if 0x20 <= b && b <= 0x7e {
            out.push(b as char);
            assert(before.push(b).map_values(to_char) =~= before.map_values(to_char).push(
                b as char,
            ));
        }
        i += 1;
    }
    assert(head@.take(i as int) =~= head@);
    text::trimmed(out.as_str())
}

// ---------------------------------------------------------------- ZLG devices

/// One device that answered to the ZLG driver.
#[derive(Clone, Copy, Debug)]
pub struct ZcanScan {
    pub profile: ZcanDeviceProfile,
    pub device_index: u32,
    pub info: ZcanDeviceInfo,
}

/// The model of a device: the type it was opened as, refined by what it says about itself.
pub open spec fn model_name(profile: ZcanDeviceProfile, label: Seq<char>, can_num: u8) -> Seq<char> {
    let u = text::upper(label);
    if profile.device_type == 3 {
        "USBCAN1"@
    } else if profile.device_type == 4 {
        "USBCAN2"@
    } else if profile.family == ZcanDeviceFamily::UsbCanFd {
        if text::has_part(u, "200U"@) {
            "USBCANFD-200U"@
        } else if text::has_part(u, "100U"@) {
            "USBCANFD-100U"@
        } else if text::has_part(u, "MINI"@) {
            "USBCANFD-MINI"@
        } else if text::has_part(u, "800U"@) {
            "USBCANFD-800U"@
        } else {
            "USBCANFD-200U"@
        }
    } else if can_num > 1 {
        "USBCAN-2E-U"@
    } else {
        "USBCAN-E-U"@
    }
}

fn model_of(profile: ZcanDeviceProfile, label: &str, can_num: u8) -> (r: String)
    ensures
        r@ == model_name(profile, label@, can_num),
{
    let raised = text::to_upper(label);
    let u = raised.as_str();
    if profile.device_type == 3 {
        "USBCAN1".to_owned()
    } else if profile.device_type == 4 {
        "USBCAN2".to_owned()
    } else if matches!(profile.family, ZcanDeviceFamily::UsbCanFd) {
        if text::contains_text(u, "200U") {
            "USBCANFD-200U".to_owned()
        } else if text::contains_text(u, "100U") {
            "USBCANFD-100U".to_owned()
        } else if text::contains_text(u, "MINI") {
            "USBCANFD-MINI".to_owned()
        } else if text::contains_text(u, "800U") {
            "USBCANFD-800U".to_owned()
        } else {
            "USBCANFD-200U".to_owned()
        }
    } else if can_num > 1 {
        "USBCAN-2E-U".to_owned()
    } else {
        "USBCAN-E-U".to_owned()
    }
}

/// The channels of a device that answered.
pub open spec fn scanned_channels(scan: ZcanScan) -> Seq<UsbChannelView> {
    let label = field_text(scan.info.hardware_type@);
    let model = model_name(scan.profile, label, scan.info.can_num);
    let count = if scan.info.can_num > 1 { scan.info.can_num as nat } else { 1 };
    Seq::new(
        count,
        |i: int|
            UsbChannelView {
                device_type: model,
                hardware_label: if label.len() == 0 { model } else { label },
                serial_number: field_text(scan.info.serial_number@),
                device_index: scan.device_index,
                channel_index: i as u32,
                fd_capable: scan.profile.family == ZcanDeviceFamily::UsbCanFd,
            },
    )
}

/// The channels of all devices that answered, in order.
pub open spec fn all_scanned(scans: Seq<ZcanScan>) -> Seq<UsbChannelView>
    decreases scans.len(),
{
    if scans.len() == 0 {
        seq![]
    } else {
        all_scanned(scans.drop_last()) + scanned_channels(scans.last())
    }
}

/// What tells physical endpoints apart: the serial number and the channel, or the device where it
/// has no serial number.
pub open spec fn endpoint_identity(c: UsbChannelView) -> Seq<char> {
    if c.serial_number.len() == 0 {
        c.device_type + ":"@ + text::decimal(c.device_index as nat) + ":"@ + text::decimal(
            c.channel_index as nat,
        )
    } else {
        c.serial_number + ":"@ + text::decimal(c.channel_index as nat)
    }
}

/// Whether an endpoint is among the given channels.
pub open spec fn seen_in(channels: Seq<UsbChannelView>, c: UsbChannelView) -> bool {
    exists|j: int|
        0 <= j < channels.len() && endpoint_identity(#[trigger] channels[j]) == endpoint_identity(c)
}

/// The channels without those whose endpoint came up before.
pub open spec fn first_of_each(channels: Seq<UsbChannelView>) -> Seq<UsbChannelView>
    decreases channels.len(),
{
    if channels.len() == 0 {
        seq![]
    } else if seen_in(channels.drop_last(), channels.last()) {
        first_of_each(channels.drop_last())
    } else {
        first_of_each(channels.drop_last()).push(channels.last())
    }
}

fn identity_of(c: &ZcanUsbChannelInfo) -> (r: String)
    ensures
        r@ == endpoint_identity(c@),
{
    let mut out: String;
    if c.serial_number.as_str().is_empty() {
        out = c.device_type.clone();
        out.push_str(":");
        text::push_decimal(&mut out, c.device_index as u64);
    } else {
        out = c.serial_number.clone();
    }
    out.push_str(":");
    text::push_decimal(&mut out, c.channel_index as u64);
    out
}

fn push_scanned(out: &mut Vec<ZcanUsbChannelInfo>, scan: &ZcanScan)
    ensures
        usb_views(final(out)@) == usb_views(old(out)@) + scanned_channels(*scan),
{
    let label = zcan_info_text(scan.info.hardware_type.as_slice());
    let model = model_of(scan.profile, label.as_str(), scan.info.can_num);
    let serial = zcan_info_text(scan.info.serial_number.as_slice());
    let fd_capable: bool = matches!(scan.profile.family, ZcanDeviceFamily::UsbCanFd);
    let count: u32 = if scan.info.can_num > 1 {
        scan.info.can_num as u32
    } else {
        1
    };
    let ghost channels = scanned_channels(*scan);
    let ghost first = usb_views(out@);
    let mut i: u32 = 0;
    assert(first + channels.take(0) =~= first);
    while i < count
        invariant
            i <= count,
            count == channels.len(),
            channels == scanned_channels(*scan),
            label@ == field_text(scan.info.hardware_type@),
            model@ == model_name(scan.profile, label@, scan.info.can_num),
            serial@ == field_text(scan.info.serial_number@),
            fd_capable == (scan.profile.family == ZcanDeviceFamily::UsbCanFd),
            usb_views(out@) == first + channels.take(i as int),
        decreases count - i,
    {
        let hardware_label = if label.as_str().is_empty() {
            model.clone()
        } else {
            label.clone()
        };
        let ghost before = out@;
        out.push(
            ZcanUsbChannelInfo {
                device_type: model.clone(),
                hardware_label,
                serial_number: serial.clone(),
                device_index: scan.device_index,
                channel_index: i,
                fd_capable,
            },
        );
        proof {
            assert(out@.last()@ == channels[i as int]);
            assert(usb_views(out@) =~= usb_views(before).push(channels[i as int]));
            assert(first + channels.take(i + 1) =~= (first + channels.take(i as int)).push(
                channels[i as int],
            ));
        }
        i += 1;
    }
    assert(channels.take(i as int) =~= channels);
}

/// The attached channels: those of the ZLG devices that answered, each physical endpoint once,
/// then those of the older drivers.
pub fn zcan_attached_channels(scans: &[ZcanScan], older: Vec<ZcanUsbChannelInfo>) -> (r: Vec<
    ZcanUsbChannelInfo,
>)
    ensures
        usb_views(r@) == first_of_each(all_scanned(scans@)) + usb_views(older@),
{
    let mut detected: Vec<ZcanUsbChannelInfo> = Vec::new();
    assert(usb_views(detected@) =~= Seq::<UsbChannelView>::empty());
    let mut i: usize = 0;
    while i < scans.len()
        invariant
            i <= scans.len(),
            usb_views(detected@) == all_scanned(scans@.take(i as int)),
        decreases scans.len() - i,
    {
        assert(scans@.take(i + 1).drop_last() =~= scans@.take(i as int));
        push_scanned(&mut detected, &scans[i]);
        i += 1;
    }
    assert(scans@.take(i as int) =~= scans@);
    let ghost all = usb_views(detected@);
    let mut identities: Vec<String> = Vec::new();
    let mut kept: Vec<ZcanUsbChannelInfo> = Vec::new();
    assert(usb_views(kept@) =~= Seq::<UsbChannelView>::empty());
    let mut i: usize = 0;
    while i < detected.len()
        invariant
            i <= detected.len(),
            all == usb_views(detected@),
            all == all_scanned(scans@),
            identities@.len() == i,
            forall|j: int| 0 <= j < i ==> (#[trigger] identities@[j])@ == endpoint_identity(all[j]),
            usb_views(kept@) == first_of_each(all.take(i as int)),
        decreases detected.len() - i,
    {
        let identity = identity_of(&detected[i]);
        assert(all[i as int] == detected@[i as int]@);
        let mut known: bool = false;
        let mut j: usize = 0;
        while j < i
            invariant
                j <= i,
                identities@.len() == i,
                i < all.len(),
                forall|k: int|
                    0 <= k < i ==> (#[trigger] identities@[k])@ == endpoint_identity(all[k]),
                identity@ == endpoint_identity(all[i as int]),
                known <==> exists|k: int|
                    0 <= k < j && endpoint_identity(#[trigger] all[k]) == identity@,
            decreases i - j,
        {
            if text::same_text(identities[j].as_str(), identity.as_str()) {
                assert(endpoint_identity(all[j as int]) == identity@);
                known = true;
            }
            j += 1;
        }
        let ghost row = all.take(i + 1);
        proof {
            assert(row.drop_last() =~= all.take(i as int));
            assert(row.last() == all[i as int]);
            assert(known == seen_in(row.drop_last(), row.last())) by {
                if known {
                    let k = choose|k: int|
                        0 <= k < i && endpoint_identity(#[trigger] all[k]) == identity@;
                    assert(row.drop_last()[k] == all[k]);
                }
                if seen_in(row.drop_last(), row.last()) {
                    let k = choose|k: int|
                        0 <= k < row.drop_last().len() && endpoint_identity(
                            #[trigger] row.drop_last()[k],
                        ) == endpoint_identity(row.last());
                    assert(all[k] == row.drop_last()[k]);
                }
            }
        }
        if !known {
            let ghost before = kept@;
            kept.push(detected[i].clone());
            assert(usb_views(kept@) =~= usb_views(before).push(all[i as int]));
        }
        identities.push(identity);
        i += 1;
    }
    assert(all.take(i as int) =~= all);
    let ghost front = usb_views(kept@);
    let mut older = older;
    let ghost tail = usb_views(older@);
    let ghost kept_before = kept@;
    let ghost older_before = older@;
    kept.append(&mut older);
    assert(usb_views(kept@) =~= front + tail) by {
        assert(kept@ =~= kept_before + older_before);
    }
    kept
}

/// Every kept channel was detected.
proof fn lemma_kept_was_detected(channels: Seq<UsbChannelView>, i: int)
    requires
        0 <= i < first_of_each(channels).len(),
    ensures
        exists|k: int| 0 <= k < channels.len() && channels[k] == first_of_each(channels)[i],
    decreases channels.len(),
{
    let front = channels.drop_last();
    let kept = first_of_each(front);
    if i < kept.len() {
        lemma_kept_was_detected(front, i);
        let k = choose|k: int| 0 <= k < front.len() && front[k] == kept[i];
        assert(channels[k] == first_of_each(channels)[i]);
    } else {
        assert(channels[channels.len() - 1] == first_of_each(channels)[i]);
    }
}

proof fn lemma_kept_once(channels: Seq<UsbChannelView>, i: int, j: int)
    requires
        0 <= i < j < first_of_each(channels).len(),
    ensures
        endpoint_identity(first_of_each(channels)[i]) != endpoint_identity(
            first_of_each(channels)[j],
        ),
    decreases channels.len(),
{
    let front = channels.drop_last();
    let kept = first_of_each(front);
    if j < kept.len() {
        lemma_kept_once(front, i, j);
    } else {
        lemma_kept_was_detected(front, i);
        let k = choose|k: int| 0 <= k < front.len() && front[k] == kept[i];
        assert(!seen_in(front, channels.last()));
        assert(endpoint_identity(front[k]) != endpoint_identity(channels.last()));
    }
}

proof fn lemma_detected_is_kept(channels: Seq<UsbChannelView>, i: int)
    requires
        0 <= i < channels.len(),
    ensures
        seen_in(first_of_each(channels), channels[i]),
    decreases channels.len(),
{
    let front = channels.drop_last();
    let last = channels.last();
    let kept = first_of_each(front);
    let all = first_of_each(channels);
    if i < front.len() {
        lemma_detected_is_kept(front, i);
        let k = choose|k: int|
            0 <= k < kept.len() && endpoint_identity(#[trigger] kept[k]) == endpoint_identity(
                front[i],
            );
        assert(endpoint_identity(all[k]) == endpoint_identity(channels[i]));
    } else if seen_in(front, last) {
        let m = choose|m: int|
            0 <= m < front.len() && endpoint_identity(#[trigger] front[m]) == endpoint_identity(
                last,
            );
        lemma_detected_is_kept(front, m);
        let k = choose|k: int|
            0 <= k < kept.len() && endpoint_identity(#[trigger] kept[k]) == endpoint_identity(
                front[m],
            );
        assert(endpoint_identity(all[k]) == endpoint_identity(channels[i]));
    } else {
        assert(endpoint_identity(all[all.len() - 1]) == endpoint_identity(channels[i]));
    }
}

/// No two of the kept channels are the same physical endpoint, every endpoint that was detected is
/// kept, and nothing else is.
pub proof fn law_each_endpoint_once(channels: Seq<UsbChannelView>)
    ensures
        forall|i: int, j: int|
            0 <= i < j < first_of_each(channels).len() ==> endpoint_identity(
                #[trigger] first_of_each(channels)[i],
            ) != endpoint_identity(#[trigger] first_of_each(channels)[j]),
        forall|i: int|
            0 <= i < channels.len() ==> seen_in(first_of_each(channels), #[trigger] channels[i]),
        forall|i: int|
            0 <= i < first_of_each(channels).len() ==> exists|k: int|
                0 <= k < channels.len() && channels[k] == #[trigger] first_of_each(channels)[i],
{
    assert forall|i: int, j: int| 0 <= i < j < first_of_each(channels).len() implies endpoint_identity(
        #[trigger] first_of_each(channels)[i],
    ) != endpoint_identity(#[trigger] first_of_each(channels)[j]) by {
        lemma_kept_once(channels, i, j);
    }
    assert forall|i: int| 0 <= i < channels.len() implies seen_in(
        first_of_each(channels),
        #[trigger] channels[i],
    ) by {
        lemma_detected_is_kept(channels, i);
    }
    assert forall|i: int| 0 <= i < first_of_each(channels).len() implies exists|k: int|
        0 <= k < channels.len() && channels[k] == #[trigger] first_of_each(channels)[i] by {
        lemma_kept_was_detected(channels, i);
    }
}

/// The device index to try after `device_index`: a gap ends the search, but for the first index.
pub fn next_scan_index(device_index: u32, opened: bool) -> (r: Option<u32>)
    ensures
        r == if device_index < 7 && (opened || device_index == 0) {
            Some((device_index + 1) as u32)
        } else {
            None
        },
{
    if device_index < 7 && (opened || device_index == 0) {
        Some(device_index + 1)
    } else {
        None
    }
}

// ---------------------------------------------------------------- older drivers

/// The search for devices of an older driver: eight indices, ended by two misses in a row.
#[derive(Clone, Copy, Debug)]
pub struct VciProbe {
    pub next: u32,
    pub misses: u32,
}

impl VciProbe {
    /// A search that has not begun.
    pub fn new() -> (r: VciProbe)
        ensures
            r.next == 0,
            r.misses == 0,
    {
        VciProbe { next: 0, misses: 0 }
    }

    /// The device index to open next.
    pub fn wanted(&self) -> (r: Option<u32>)
        ensures
            r == if self.next < 8 && self.misses < 2 {
                Some(self.next)
            } else {
                None
            },
    {
        if self.next < 8 && self.misses < 2 {
            Some(self.next)
        } else {
            None
        }
    }

    /// Takes whether the wanted device could be opened.
    pub fn answer(&mut self, opened: bool)
        requires
            old(self).next < 8,
            old(self).misses < 2,
        ensures
            final(self).next == old(self).next + 1,
            final(self).misses == if opened {
                0
            } else {
                old(self).misses + 1
            },
    {
        self.next = self.next + 1;
        self.misses = if opened {
            0
        } else {
            self.misses + 1
        };
    }
}

/// The channels of a device of an older driver.
pub open spec fn probed_channels(
    device_name: Seq<char>,
    fallback_label: Seq<char>,
    fixed_count: u8,
    device_index: u32,
    info: VCI_BOARD_INFO,
) -> Seq<UsbChannelView> {
    let reported = printable_text(info.hardware_type@);
    let count = if fixed_count != 0 {
        fixed_count
    } else if info.can_num < 1 {
        1
    } else if info.can_num > 8 {
        8
    } else {
        info.can_num
    };
    Seq::new(
        count as nat,
        |i: int|
            UsbChannelView {
                device_type: device_name,
                hardware_label: if device_name == "GCAN"@ || reported.len() == 0 {
                    fallback_label
                } else {
                    reported
                },
                serial_number: printable_text(info.serial_number@),
                device_index,
                channel_index: i as u32,
                fd_capable: false,
            },
    )
}

/// The channels of a device of an older driver; a fixed count of zero stands for the reported one.
pub fn probe_vci_device(
    device_name: &str,
    fallback_label: &str,
    fixed_count: u8,
    device_index: u32,
    info: &VCI_BOARD_INFO,
) -> (r: Vec<ZcanUsbChannelInfo>)
    ensures
        usb_views(r@) == probed_channels(
            device_name@,
            fallback_label@,
            fixed_count,
            device_index,
            *info,
        ),
{
    let serial = printable_vci_text(info.serial_number.as_slice());
    let reported = printable_vci_text(info.hardware_type.as_slice());
    let label = if text::same_text(device_name, "GCAN") || reported.as_str().is_empty() {
        fallback_label.to_owned()
    } else {
        reported
    };
    let count: u8 = if fixed_count != 0 {
        fixed_count
    } else if info.can_num < 1 {
        1
    } else if info.can_num > 8 {
        8
    } else {
        info.can_num
    };
    let ghost channels = probed_channels(
        device_name@,
        fallback_label@,
        fixed_count,
        device_index,
        *info,
    );
    let mut out: Vec<ZcanUsbChannelInfo> = Vec::new();
    let mut i: u32 = 0;
    assert(usb_views(out@) =~= channels.take(0));
    while i < count as u32
        invariant
            i <= count,
            count == channels.len(),
            channels == probed_channels(
                device_name@,
                fallback_label@,
                fixed_count,
                device_index,
                *info,
            ),
            serial@ == printable_text(info.serial_number@),
            count > 0 ==> label@ == channels[0].hardware_label,
            usb_views(out@) == channels.take(i as int),
        decreases count - i,
    {
        let ghost before = out@;
        out.push(
            ZcanUsbChannelInfo {
                device_type: device_name.to_owned(),
                hardware_label: label.clone(),
                serial_number: serial.clone(),
                device_index,
                channel_index: i,
                fd_capable: false,
            },
        );
        proof {
            assert(out@.last()@ == channels[i as int]);
            assert(usb_views(out@) =~= usb_views(before).push(channels[i as int]));
            assert(usb_views(out@) =~= channels.take(i + 1));
        }
        i += 1;
    }
    assert(channels.take(i as int) =~= channels);
    out
}

/// The text that `String::from_utf16_lossy` reads from 16-bit units.
pub uninterp spec fn lossy_utf16_text(units: Seq<u16>) -> Seq<char>;

/// `String::from_utf16_lossy`: the text of the units with each lone surrogate replaced.
#[verifier::external_body]
fn utf16_lossy(units: &[u16]) -> (r: String)
    ensures
        r@ == lossy_utf16_text(units@),
{
    String::from_utf16_lossy(units)
}

/// The units before the first zero.
pub open spec fn units_until_zero(units: Seq<u16>) -> Seq<u16>
    decreases units.len(),
{
    if units.len() == 0 || units[0] == 0 {
        seq![]
    } else {
        seq![units[0]] + units_until_zero(units.drop_first())
    }
}

/// Whether a zero-terminated device instance id begins with a prefix, whatever the case.
pub fn instance_id_matches(buffer: &[u16], instance_prefix: &str) -> (r: bool)
    ensures
        r == text::has_prefix(
            text::upper(lossy_utf16_text(units_until_zero(buffer@))),
            text::upper(instance_prefix@),
        ),
{
    let mut units: Vec<u16> = Vec::new();
    let mut i: usize = 0;
    assert(buffer@.skip(0) =~= buffer@);
    assert(units@ + units_until_zero(buffer@) =~= units_until_zero(buffer@));
    while i < buffer.len() && buffer[i] != 0
        invariant
            i <= buffer.len(),
            units@ + units_until_zero(buffer@.skip(i as int)) == units_until_zero(buffer@),
        decreases buffer.len() - i,
    {
        let ghost rest = buffer@.skip(i as int);
        let ghost before = units@;
        units.push(buffer[i]);
        proof {
            assert(rest.drop_first() =~= buffer@.skip(i + 1));
            assert(units@ + units_until_zero(buffer@.skip(i + 1)) =~= before + units_until_zero(
                rest,
            ));
        }
        i += 1;
    }
    assert(units_until_zero(buffer@.skip(i as int)) =~= Seq::<u16>::empty());
    assert(units@ =~= units_until_zero(buffer@));
    let id = utf16_lossy(units.as_slice());
    instance_text_matches(id.as_str(), instance_prefix)
}

/// Whether an instance id begins with a prefix, whatever the case.
pub fn instance_text_matches(id: &str, instance_prefix: &str) -> (r: bool)
    ensures
        r == text::has_prefix(text::upper(id@), text::upper(instance_prefix@)),
{
    let id = text::to_upper(id);
    let expected = text::to_upper(instance_prefix);
    text::starts_with_text(id.as_str(), expected.as_str())
}

} // verus!
