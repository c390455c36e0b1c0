//! Attached adapters: how channels find them again, and the rows that show them.
use crate::can::pcan::{PcanChannelInfo, PcanChannelView};
use crate::can::zcan_scan::{UsbChannelView, ZcanUsbChannelInfo};
use crate::can::{configs_view, DeviceConfig, DeviceConfigView};
use crate::text;
use crate::workbench::channels::{pcan_view, ChannelEditSession, ChannelList};
use vstd::prelude::*;

verus! {

/// The views of the attached channels of other vendors.
pub open spec fn usb_view(devices: Seq<ZcanUsbChannelInfo>) -> Seq<UsbChannelView> {
    devices.map_values(|d: ZcanUsbChannelInfo| d@)
}

// ---------------------------------------------------------------- identities

/// The identity of an attached PCAN channel: the number of its device and its index.
pub open spec fn pcan_identity(hw: PcanChannelView) -> Seq<char> {
    "PCAN:"@ + text::hex_padded(hw.device_id as nat, 8) + ":"@ + text::decimal(
        hw.channel_index as nat,
    )
}

/// The identity of an attached PCAN channel.
pub fn pcan_hardware_id(hw: &PcanChannelInfo) -> (r: String)
    ensures
        r@ == pcan_identity(hw@),
{
    let mut out = "PCAN:".to_owned();
    text::push_hex_padded(&mut out, hw.device_id as u64, 8);
    out.push_str(":");
    text::push_decimal(&mut out, hw.channel_index as u64);
    out
}

/// The identity of an attached channel: its kind, the serial number of its device, or the index
/// of the device where it has none, and its index.
pub open spec fn usb_identity(hw: UsbChannelView) -> Seq<char> {
    let serial = text::trim(hw.serial_number);
    text::upper(text::trim(hw.device_type)) + ":"@ + (if serial.len() == 0 {
        "DEV"@ + text::decimal(hw.device_index as nat)
    } else {
        text::upper(serial)
    }) + ":"@ + text::decimal(hw.channel_index as nat)
}

/// The identity of an attached channel.
pub fn zcan_hardware_id(hw: &ZcanUsbChannelInfo) -> (r: String)
    ensures
        r@ == usb_identity(hw@),
{
    let kind = text::trimmed(hw.device_type.as_str());
    let mut out = text::to_upper(kind.as_str());
    out.push_str(":");
    let ghost head = out@;
    let serial = text::trimmed(hw.serial_number.as_str());
    if serial.as_str().is_empty() {
        out.push_str("DEV");
        text::push_decimal(&mut out, hw.device_index as u64);
        assert(out@ =~= head + ("DEV"@ + text::decimal(hw.device_index as nat)));
    } else {
        let up = text::to_upper(serial.as_str());
        out.push_str(up.as_str());
    }
    out.push_str(":");
    text::push_decimal(&mut out, hw.channel_index as u64);
    out
}

/// The first place, from one on, at which a flag is set.
pub open spec fn first_set(flags: Seq<bool>, from: int) -> Option<int>
    decreases flags.len() - from,
{
    if from < 0 || from >= flags.len() {
        None
    } else if flags[from] {
        Some(from)
    } else {
        first_set(flags, from + 1)
    }
}

/// Which PCAN channels have an identity.
pub open spec fn pcan_named(devices: Seq<PcanChannelView>, id: Seq<char>) -> Seq<bool> {
    devices.map_values(|d: PcanChannelView| pcan_identity(d) == id)
}

/// Which other channels have an identity.
pub open spec fn usb_named(devices: Seq<UsbChannelView>, id: Seq<char>) -> Seq<bool> {
    devices.map_values(|d: UsbChannelView| usb_identity(d) == id)
}

fn find_pcan_named(devices: &[PcanChannelInfo], id: &str) -> (r: Option<usize>)
    ensures
        match r {
            Some(i) => first_set(pcan_named(pcan_view(devices@), id@), 0) == Some(i as int) && i
                < devices@.len(),
            None => first_set(pcan_named(pcan_view(devices@), id@), 0) is None,
        },
{
    let ghost flags = pcan_named(pcan_view(devices@), id@);
    let mut i: usize = 0;
    while i < devices.len()
        invariant
            i <= devices@.len(),
            flags == pcan_named(pcan_view(devices@), id@),
            first_set(flags, 0) == first_set(flags, i as int),
        decreases devices@.len() - i,
    {
        let own = pcan_hardware_id(&devices[i]);
        assert(flags[i as int] == (own@ == id@));
        if text::same_text(own.as_str(), id) {
            return Some(i);
        }
        i += 1;
    }
    None
}

fn find_usb_named(devices: &[ZcanUsbChannelInfo], id: &str) -> (r: Option<usize>)
    ensures
        match r {
            Some(i) => first_set(usb_named(usb_view(devices@), id@), 0) == Some(i as int) && i
                < devices@.len(),
            None => first_set(usb_named(usb_view(devices@), id@), 0) is None,
        },
{
    let ghost flags = usb_named(usb_view(devices@), id@);
    let mut i: usize = 0;
    while i < devices.len()
        invariant
            i <= devices@.len(),
            flags == usb_named(usb_view(devices@), id@),
            first_set(flags, 0) == first_set(flags, i as int),
        decreases devices@.len() - i,
    {
        let own = zcan_hardware_id(&devices[i]);
        assert(flags[i as int] == (own@ == id@));
        if text::same_text(own.as_str(), id) {
            return Some(i);
        }
        i += 1;
    }
    None
}

// ---------------------------------------------------------------- reconciling

/// A channel that has found its adapter again: the numbers are those that the adapter has now. The
/// label is filled in where `label` says so and there is none.
pub open spec fn reconciled(
    c: DeviceConfigView,
    pcan: Seq<PcanChannelView>,
    usb: Seq<UsbChannelView>,
    label: bool,
) -> DeviceConfigView {
    let fill = label && text::trim(c.hardware_label).len() == 0;
    if c.hardware_id.len() == 0 {
        c
    } else {
        match first_set(pcan_named(pcan, c.hardware_id), 0) {
            Some(i) => DeviceConfigView {
                device_type: "PCAN"@,
                device_index: 0,
                channel_index: pcan[i].channel_index,
                hardware_label: if fill {
                    pcan[i].device_name
                } else {
                    c.hardware_label
                },
                ..c
            },
            None => match first_set(usb_named(usb, c.hardware_id), 0) {
                Some(i) => DeviceConfigView {
                    device_type: usb[i].device_type,
                    device_index: usb[i].device_index,
                    channel_index: usb[i].channel_index,
                    hardware_label: if fill {
                        usb[i].hardware_label
                    } else {
                        c.hardware_label
                    },
                    ..c
                },
                None => c,
            },
        }
    }
}

/// Finding the adapters again a second time changes nothing.
pub proof fn law_reconciling_is_settled(
    c: DeviceConfigView,
    pcan: Seq<PcanChannelView>,
    usb: Seq<UsbChannelView>,
    label: bool,
)
    ensures
        reconciled(reconciled(c, pcan, usb, label), pcan, usb, label) == reconciled(
            c,
            pcan,
            usb,
            label,
        ),
        reconciled(c, pcan, usb, label).hardware_id == c.hardware_id,
{
}

fn reconcile_channel(
    c: &mut DeviceConfig,
    pcan: &[PcanChannelInfo],
    usb: &[ZcanUsbChannelInfo],
    label: bool,
)
    ensures
        final(c)@ == reconciled(old(c)@, pcan_view(pcan@), usb_view(usb@), label),
{
    if c.hardware_id.as_str().is_empty() {
        return;
    }
    let bare = text::trimmed(c.hardware_label.as_str());
    let fill: bool = label && bare.as_str().is_empty();
    match find_pcan_named(pcan, c.hardware_id.as_str()) {
        Some(i) => {
            assert(pcan_view(pcan@)[i as int] == pcan@[i as int]@);
            c.device_type = "PCAN".to_owned();
            c.device_index = 0;
            c.channel_index = pcan[i].channel_index;
            if fill {
                c.hardware_label = pcan[i].device_name.clone();
            }
        },
        None => match find_usb_named(usb, c.hardware_id.as_str()) {
            Some(i) => {
                assert(usb_view(usb@)[i as int] == usb@[i as int]@);
                c.device_type = usb[i].device_type.clone();
                c.device_index = usb[i].device_index;
                c.channel_index = usb[i].channel_index;
                if fill {
                    c.hardware_label = usb[i].hardware_label.clone();
                }
            },
            None => {},
        },
    }
}

/// All channels of a list, reconciled.
pub open spec fn all_reconciled(
    channels: Seq<DeviceConfigView>,
    pcan: Seq<PcanChannelView>,
    usb: Seq<UsbChannelView>,
    label: bool,
) -> Seq<DeviceConfigView> {
    channels.map_values(|c: DeviceConfigView| reconciled(c, pcan, usb, label))
}

fn reconcile_list(
    channels: &mut Vec<DeviceConfig>,
    pcan: &[PcanChannelInfo],
    usb: &[ZcanUsbChannelInfo],
    label: bool,
)
    ensures
        configs_view(final(channels)@) == all_reconciled(
            configs_view(old(channels)@),
            pcan_view(pcan@),
            usb_view(usb@),
            label,
        ),
{
    let ghost before = configs_view(channels@);
    let mut i: usize = 0;
    while i < channels.len()
        invariant
            i <= channels@.len() == before.len(),
            before == configs_view(old(channels)@),
            forall|j: int|
                0 <= j < i ==> (#[trigger] channels@[j])@ == reconciled(
                    before[j],
                    pcan_view(pcan@),
                    usb_view(usb@),
                    label,
                ),
            forall|j: int| i <= j < before.len() ==> (#[trigger] channels@[j])@ == before[j],
        decreases channels@.len() - i,
    {
        assert(channels@[i as int]@ == before[i as int]);
        reconcile_channel(&mut channels[i], pcan, usb, label);
        i += 1;
    }
    assert(configs_view(channels@) =~= all_reconciled(
        before,
        pcan_view(pcan@),
        usb_view(usb@),
        label,
    ));
}

/// What is being edited after the adapters were found again.
pub open spec fn edit_reconciled(
    after: Option<ChannelEditSession>,
    before: Option<ChannelEditSession>,
    pcan: Seq<PcanChannelView>,
    usb: Seq<UsbChannelView>,
) -> bool {
    match before {
        None => after is None,
        Some(session) => {
            &&& after is Some
            &&& after->0.selected == session.selected
            &&& after->0.dirty == session.dirty
            &&& configs_view(after->0.channels@) == all_reconciled(
                configs_view(session.channels@),
                pcan,
                usb,
                false,
            )
        },
    }
}

/// The channels, and those that are being edited, find their adapters again by their identities.
/// Labels are filled in where there is none, but not while they are being edited.
pub fn reconcile_stable_hardware(
    list: &mut ChannelList,
    pcan: &[PcanChannelInfo],
    usb: &[ZcanUsbChannelInfo],
)
    ensures
        final(list).selected == old(list).selected,
        configs_view(final(list).channels@) == all_reconciled(
            configs_view(old(list).channels@),
            pcan_view(pcan@),
            usb_view(usb@),
            true,
        ),
        edit_reconciled(final(list).edit, old(list).edit, pcan_view(pcan@), usb_view(usb@)),
{
    reconcile_list(&mut list.channels, pcan, usb, true);
    let taken = list.edit.take();
    match taken {
        Some(session) => {
            let mut session = session;
            reconcile_list(&mut session.channels, pcan, usb, false);
            list.edit = Some(session);
        },
        None => {},
    }
}

/// Whether a channel is set to a PCAN adapter.
pub open spec fn is_pcan(c: DeviceConfigView) -> bool {
    text::upper(c.device_type) == text::upper("PCAN"@)
}

/// How many of the first channels are set to a PCAN adapter.
pub open spec fn pcan_count(channels: Seq<DeviceConfigView>) -> nat
    decreases channels.len(),
{
    if channels.len() == 0 {
        0
    } else {
        pcan_count(channels.drop_last()) + if is_pcan(channels.last()) {
            1nat
        } else {
            0nat
        }
    }
}

/// The channels with the PCAN one set to the one PCAN channel that is attached.
pub open spec fn corrected(
    channels: Seq<DeviceConfigView>,
    at: int,
    hw: PcanChannelView,
) -> Seq<DeviceConfigView> {
    let c = channels[at];
    channels.update(
        at,
        DeviceConfigView {
            channel_index: hw.channel_index,
            hardware_label: if text::trim(c.hardware_label).len() == 0 {
                hw.device_name
            } else {
                c.hardware_label
            },
            ..c
        },
    )
}

/// Whether the only PCAN channel stands at a place with a number other than that of the only PCAN
/// channel that is attached.
pub open spec fn needs_correction(
    channels: Seq<DeviceConfigView>,
    pcan: Seq<PcanChannelView>,
    at: int,
) -> bool {
    &&& 0 <= at < channels.len()
    &&& is_pcan(channels[at])
    &&& pcan_count(channels) == 1
    &&& pcan.len() == 1
    &&& channels[at].channel_index != pcan[0].channel_index
}

/// The line of the log that tells of a correction.
pub open spec fn correction_text(before: u32, hw: PcanChannelView) -> Seq<char> {
    "PCAN 硬件通道已自动校正: PCAN_USBBUS"@ + text::decimal((before + 1) as nat) + " → "@ + hw.channel_name
}

proof fn lemma_pcan_count(channels: Seq<DeviceConfigView>, i: int, j: int)
    requires
        0 <= i < j < channels.len(),
        is_pcan(channels[i]),
        is_pcan(channels[j]),
    ensures
        pcan_count(channels) >= 2,
    decreases channels.len(),
{
    let rest = channels.drop_last();
    if j == channels.len() - 1 {
        lemma_pcan_some(rest, i);
    } else {
        lemma_pcan_count(rest, i, j);
    }
}

proof fn lemma_pcan_some(channels: Seq<DeviceConfigView>, i: int)
    requires
        0 <= i < channels.len(),
        is_pcan(channels[i]),
    ensures
        pcan_count(channels) >= 1,
    decreases channels.len(),
{
    if i < channels.len() - 1 {
        lemma_pcan_some(channels.drop_last(), i);
    }
}

/// Sets the only PCAN channel to the only PCAN channel that is attached, and tells of it.
fn correct_single_pcan(channels: &mut Vec<DeviceConfig>, pcan: &[PcanChannelInfo]) -> (r: Option<
    String,
>)
    ensures
        match r {
            None => {
                &&& final(channels)@ == old(channels)@
                &&& forall|at: int|
                    !#[trigger] needs_correction(
                        configs_view(old(channels)@),
                        pcan_view(pcan@),
                        at,
                    )
            },
            Some(line) => exists|at: int| #[trigger]
                needs_correction(configs_view(old(channels)@), pcan_view(pcan@), at) && configs_view(
                    final(channels)@,
                ) == corrected(configs_view(old(channels)@), at, pcan@[0]@) && line@
                    == correction_text(old(channels)@[at].channel_index, pcan@[0]@),
        },
{
    let ghost before = configs_view(channels@);
    let ghost attached = pcan_view(pcan@);
    let mut count: usize = 0;
    let mut place: usize = 0;
    let mut i: usize = 0;
    assert(before.take(0) =~= seq![]);
    while i < channels.len()
        invariant
            i <= channels@.len(),
            channels@ == old(channels)@,
            before == configs_view(channels@),
            count <= i,
            count == pcan_count(before.take(i as int)),
            count > 0 ==> place < i && is_pcan(before[place as int]),
        decreases channels@.len() - i,
    {
        assert(before.take(i + 1).drop_last() =~= before.take(i as int));
        assert(before[i as int] == channels@[i as int]@);
        if text::same_ignoring_case(channels[i].device_type.as_str(), "PCAN") {
            count += 1;
            place = i;
        }
        i += 1;
    }
    assert(before.take(i as int) =~= before);
    if count != 1 || pcan.len() != 1 {
        return None;
    }
    let hw = &pcan[0];
    assert(attached[0] == hw@);
    let was: u32 = channels[place].channel_index;
    assert(before[place as int] == channels@[place as int]@);
    if was == hw.channel_index {
        proof {
            assert forall|at: int| !#[trigger] needs_correction(before, attached, at) by {
                if needs_correction(before, attached, at) && at != place {
                    if at < place {
                        lemma_pcan_count(before, at, place as int);
                    } else {
                        lemma_pcan_count(before, place as int, at);
                    }
                }
            }
        }
        return None;
    }
    assert(needs_correction(before, attached, place as int));
    channels[place].channel_index = hw.channel_index;
    let bare = text::trimmed(channels[place].hardware_label.as_str());
    if bare.as_str().is_empty() {
        channels[place].hardware_label = hw.device_name.clone();
    }
    assert(configs_view(channels@) =~= corrected(before, place as int, hw@));
    let mut line = "PCAN 硬件通道已自动校正: PCAN_USBBUS".to_owned();
    text::push_decimal(&mut line, was as u64 + 1);
    line.push_str(" → ");
    line.push_str(hw.channel_name.as_str());
    Some(line)
}

/// What a scan of the adapters changes: channels find their adapters by their identities, and the
/// only PCAN channel is set to the only PCAN channel that is attached.
pub fn refresh_and_reconcile_pcan(
    list: &mut ChannelList,
    pcan: &[PcanChannelInfo],
    usb: &[ZcanUsbChannelInfo],
) -> (r: Option<String>)
    ensures
        final(list).selected == old(list).selected,
        edit_reconciled(final(list).edit, old(list).edit, pcan_view(pcan@), usb_view(usb@)),
        ({
            let found = all_reconciled(
                configs_view(old(list).channels@),
                pcan_view(pcan@),
                usb_view(usb@),
                true,
            );
            match r {
                None => {
                    &&& configs_view(final(list).channels@) == found
                    &&& forall|at: int| !#[trigger] needs_correction(found, pcan_view(pcan@), at)
                },
                Some(line) => exists|at: int| #[trigger]
                    needs_correction(found, pcan_view(pcan@), at) && configs_view(
                        final(list).channels@,
                    ) == corrected(found, at, pcan@[0]@) && line@ == correction_text(
                        found[at].channel_index,
                        pcan@[0]@,
                    ),
            }
        }),
{
    reconcile_stable_hardware(list, pcan, usb);
    let ghost found = configs_view(list.channels@);
    let r = correct_single_pcan(&mut list.channels, pcan);
    r
}

// ---------------------------------------------------------------- scanning

/// Nanoseconds between two scans.
pub const MIN_SCAN_INTERVAL: u64 = 2_000_000_000;

/// When adapters were scanned last and whether a scan runs.
#[derive(Debug)]
pub struct HardwareScan {
    pub last: Option<u64>,
    pub in_progress: bool,
    pub status: String,
}

impl HardwareScan {
    /// Whether the last scan is too recent.
    pub open spec fn too_soon(&self, now: u64) -> bool {
        match self.last {
            Some(t) => now < t || now - t < MIN_SCAN_INTERVAL,
            None => false,
        }
    }

    /// Begins a scan, unless one began within the last two seconds or still runs.
    pub fn begin(&mut self, now: u64, english: bool) -> (r: bool)
        ensures
            r == (!old(self).too_soon(now) && !old(self).in_progress),
            final(self).last == if old(self).too_soon(now) {
                old(self).last
            } else {
                Some(now)
            },
            final(self).in_progress == (old(self).in_progress || r),
            final(self).status@ == if !r {
                old(self).status@
            } else if english {
                "Scanning PEAK, ZLG, GCAN and ZHCX drivers..."@
            } else {
                "正在扫描 PEAK、ZLG、GCAN 与 ZHCX 驱动..."@
            },
    {
        match self.last {
            Some(t) => {
                if now < t || now - t < MIN_SCAN_INTERVAL {
                    return false;
                }
            },
            None => {},
        }
        self.last = Some(now);
        if self.in_progress {
            return false;
        }
        self.in_progress = true;
        self.status = if english {
            "Scanning PEAK, ZLG, GCAN and ZHCX drivers...".to_owned()
        } else {
            "正在扫描 PEAK、ZLG、GCAN 与 ZHCX 驱动...".to_owned()
        };
        true
    }
}

/// The USB channels that a scan takes over without asking the drivers: while a connection stands
/// those that are known, as asking would disturb it. Without one the drivers are asked.
pub fn retained_channels(connected: bool, known: &[ZcanUsbChannelInfo]) -> (r: Option<
    Vec<ZcanUsbChannelInfo>,
>)
    ensures
        match r {
            Some(kept) => connected && usb_view(kept@) == usb_view(known@),
            None => !connected,
        },
{
    if !connected {
        return None;
    }
    let ghost all = usb_view(known@);
    let mut out: Vec<ZcanUsbChannelInfo> = Vec::new();
    let mut i: usize = 0;
    assert(usb_view(out@) =~= all.take(0));
    while i < known.len()
        invariant
            i <= known@.len(),
            all == usb_view(known@),
            usb_view(out@) == all.take(i as int),
        decreases known@.len() - i,
    {
        let ghost before = out@;
        out.push(known[i].clone());
        assert(usb_view(out@) =~= usb_view(before).push(all[i as int]));
        assert(all.take(i + 1) =~= all.take(i as int).push(all[i as int]));
        i += 1;
    }
    assert(all.take(i as int) =~= all);
    Some(out)
}

} // verus!
