//! The rows that show the attached adapters, in groups.
use crate::can::pcan::{PcanChannelInfo, PcanChannelView};
use crate::can::zcan_scan::{UsbChannelView, ZcanUsbChannelInfo};
use crate::can::{configs_view, DeviceConfig, DeviceConfigView};
use crate::lists::lemma_pushed;
use crate::order::{
    ascending, insert_key, key_before, keys_view, law_keys_are_sorted, lemma_key_order, sorted_keys,
    Key,
};
use crate::text;
use crate::workbench::channels::pcan_view;
use crate::workbench::hardware::{pcan_hardware_id, pcan_identity, usb_identity, usb_view};
use crate::workbench::hardware::zcan_hardware_id;
use vstd::prelude::*;

verus! {

/// A row that shows an adapter or one of its channels.
#[derive(Debug)]
pub struct HardwareRow {
    pub title: String,
    pub detail: String,
    /// Whether the channel is in the list of channels.
    pub added: bool,
    /// Whether the row is the head of a group.
    pub group: bool,
    /// The number of the channel among all attached ones, or -1.
    pub source: i32,
    pub enabled: bool,
}

/// What a row shows.
pub struct HardwareRowView {
    pub title: Seq<char>,
    pub detail: Seq<char>,
    pub added: bool,
    pub group: bool,
    pub source: int,
    pub enabled: bool,
}

impl View for HardwareRow {
    type V = HardwareRowView;

    open spec fn view(&self) -> HardwareRowView {
        HardwareRowView {
            title: self.title@,
            detail: self.detail@,
            added: self.added,
            group: self.group,
            source: self.source as int,
            enabled: self.enabled,
        }
    }
}

/// What some rows show.
pub open spec fn hardware_view(rows: Seq<HardwareRow>) -> Seq<HardwareRowView> {
    rows.map_values(|r: HardwareRow| r@)
}

fn push_row(rows: &mut Vec<HardwareRow>, row: HardwareRow)
    ensures
        hardware_view(final(rows)@) == hardware_view(old(rows)@).push(row@),
        final(rows)@.len() == old(rows)@.len() + 1,
{
    let ghost before = rows@;
    rows.push(row);
    assert(hardware_view(rows@) =~= hardware_view(before).push(row@));
}

/// The head of a group.
pub open spec fn group_head(title: Seq<char>, detail: Seq<char>) -> HardwareRowView {
    HardwareRowView { title, detail, added: false, group: true, source: -1, enabled: false }
}

/// How many of the first `n` keys are a given one.
pub open spec fn occurrences(keys: Seq<Key>, k: Key, n: int) -> nat
    decreases n,
{
    if n <= 0 {
        0
    } else {
        occurrences(keys, k, n - 1) + if keys[n - 1] == k {
            1nat
        } else {
            0nat
        }
    }
}

/// The first place of a key, from one on.
pub open spec fn first_place(keys: Seq<Key>, k: Key, from: int) -> int
    decreases keys.len() - from,
{
    if from < 0 || from >= keys.len() {
        from
    } else if keys[from] == k {
        from
    } else {
        first_place(keys, k, from + 1)
    }
}

fn same_key(a: &(u32, Vec<char>), b: &(u32, Vec<char>)) -> (r: bool)
    ensures
        r == ((a.0, a.1@) == (b.0, b.1@)),
{
    a.0 == b.0 && text::same(a.1.as_slice(), b.1.as_slice())
}

fn sort_keys(keys: &[(u32, Vec<char>)]) -> (r: Vec<(u32, Vec<char>)>)
    ensures
        keys_view(r@) == sorted_keys(keys_view(keys@)),
{
    let mut out: Vec<(u32, Vec<char>)> = Vec::new();
    let ghost all = keys_view(keys@);
    let mut i: usize = 0;
    assert(all.take(0) =~= seq![]);
    assert(keys_view(out@) =~= seq![]);
    while i < keys.len()
        invariant
            i <= keys@.len(),
            all == keys_view(keys@),
            keys_view(out@) == sorted_keys(all.take(i as int)),
        decreases keys@.len() - i,
    {
        let chars = text::copy_range(keys[i].1.as_slice(), 0, keys[i].1.len());
        proof {
            assert(chars@ =~= keys@[i as int].1@);
            assert(all.take(i + 1).drop_last() =~= all.take(i as int));
            assert(all.take(i + 1).last() == (keys@[i as int].0, keys@[i as int].1@));
        }
        insert_key(&mut out, keys[i].0, chars);
        i += 1;
    }
    assert(all.take(i as int) =~= all);
    out
}

fn count_key(keys: &[(u32, Vec<char>)], k: &(u32, Vec<char>)) -> (r: usize)
    ensures
        r == occurrences(keys_view(keys@), (k.0, k.1@), keys@.len() as int),
        r <= keys@.len(),
{
    let mut n: usize = 0;
    let mut i: usize = 0;
    while i < keys.len()
        invariant
            i <= keys@.len(),
            n <= i,
            n == occurrences(keys_view(keys@), (k.0, k.1@), i as int),
        decreases keys@.len() - i,
    {
        if same_key(&keys[i], k) {
            n += 1;
        }
        i += 1;
    }
    n
}

// ---------------------------------------------------------------- PCAN

/// The keys by which PCAN channels are grouped: the device and its name.
pub open spec fn pcan_keys(devices: Seq<PcanChannelView>) -> Seq<Key> {
    devices.map_values(|d: PcanChannelView| (d.device_id, d.device_name))
}

/// Whether a PCAN channel is in the list of channels.
pub open spec fn pcan_in_list(hw: PcanChannelView, channels: Seq<DeviceConfigView>) -> bool {
    exists|i: int|
        0 <= i < channels.len() && ((#[trigger] channels[i]).hardware_id.len() > 0
            && channels[i].hardware_id == pcan_identity(hw) || text::upper(channels[i].device_type)
            == text::upper("PCAN"@) && channels[i].channel_index == hw.channel_index)
}

/// The state of a PCAN channel in words.
pub open spec fn condition_text(condition: u32, english: bool) -> Seq<char> {
    if condition == 1 {
        if english {
            "available"@
        } else {
            "可用"@
        }
    } else if condition == 2 || condition == 4 {
        if english {
            "in use"@
        } else {
            "已占用"@
        }
    } else if english {
        "unavailable"@
    } else {
        "不可用"@
    }
}

/// The kind of CAN that a channel can do.
pub open spec fn kind_text(fd: bool) -> Seq<char> {
    if fd {
        "CAN FD"@
    } else {
        "Classical CAN"@
    }
}

/// The row of a PCAN channel.
pub open spec fn pcan_row(
    hw: PcanChannelView,
    source: int,
    channels: Seq<DeviceConfigView>,
    english: bool,
) -> HardwareRowView {
    let added = pcan_in_list(hw, channels);
    HardwareRowView {
        title: "↳ "@ + hw.channel_name,
        detail: kind_text(hw.fd_capable) + " · "@ + condition_text(hw.channel_condition, english),
        added,
        group: false,
        source,
        enabled: hw.channel_condition == 1 || added,
    }
}

/// The head of a group of PCAN channels.
pub open spec fn pcan_head(k: Key, count: nat) -> HardwareRowView {
    group_head(
        "PEAK  "@ + k.1,
        "Device ID "@ + text::hex_padded(k.0 as nat, 8) + "h · "@ + text::decimal(count)
            + " channel(s)"@,
    )
}

/// The rows of the first `n` PCAN channels that belong to a group.
pub open spec fn pcan_members(
    devices: Seq<PcanChannelView>,
    channels: Seq<DeviceConfigView>,
    english: bool,
    k: Key,
    n: int,
) -> Seq<HardwareRowView>
    decreases n,
{
    if n <= 0 {
        seq![]
    } else {
        let before = pcan_members(devices, channels, english, k, n - 1);
        if pcan_keys(devices)[n - 1] == k {
            before.push(pcan_row(devices[n - 1], n - 1, channels, english))
        } else {
            before
        }
    }
}

/// The rows of the first groups of PCAN channels.
pub open spec fn pcan_groups(
    devices: Seq<PcanChannelView>,
    channels: Seq<DeviceConfigView>,
    english: bool,
    groups: Seq<Key>,
) -> Seq<HardwareRowView>
    decreases groups.len(),
{
    if groups.len() == 0 {
        seq![]
    } else {
        let k = groups.last();
        let n = devices.len() as int;
        pcan_groups(devices, channels, english, groups.drop_last()).push(
            pcan_head(k, occurrences(pcan_keys(devices), k, n)),
        ) + pcan_members(devices, channels, english, k, n)
    }
}

fn pcan_added(hw: &PcanChannelInfo, channels: &[DeviceConfig]) -> (r: bool)
    ensures
        r == pcan_in_list(hw@, configs_view(channels@)),
{
    let id = pcan_hardware_id(hw);
    let ghost all = configs_view(channels@);
    let mut i: usize = 0;
    while i < channels.len()
        invariant
            i <= channels@.len(),
            all == configs_view(channels@),
            id@ == pcan_identity(hw@),
            forall|j: int|
                0 <= j < i ==> !((#[trigger] all[j]).hardware_id.len() > 0 && all[j].hardware_id
                    == pcan_identity(hw@) || text::upper(all[j].device_type) == text::upper("PCAN"@)
                    && all[j].channel_index == hw@.channel_index),
        decreases channels@.len() - i,
    {
        let c = &channels[i];
        assert(all[i as int] == c@);
        if !c.hardware_id.as_str().is_empty() && text::same_text(
            c.hardware_id.as_str(),
            id.as_str(),
        ) {
            return true;
        }
        if text::same_ignoring_case(c.device_type.as_str(), "PCAN") && c.channel_index
            == hw.channel_index {
            return true;
        }
        i += 1;
    }
    false
}

fn pcan_row_of(hw: &PcanChannelInfo, source: i32, channels: &[DeviceConfig], english: bool) -> (r:
    HardwareRow)
    ensures
        r@ == pcan_row(hw@, source as int, configs_view(channels@), english),
{
    let added: bool = pcan_added(hw, channels);
    let mut title = "↳ ".to_owned();
    title.push_str(hw.channel_name.as_str());
    let kind: &str = if hw.fd_capable {
        "CAN FD"
    } else {
        "Classical CAN"
    };
    let mut detail = kind.to_owned();
    detail.push_str(" · ");
    let condition: &str = if hw.channel_condition == 1 {
        if english {
            "available"
        } else {
            "可用"
        }
    } else if hw.channel_condition == 2 || hw.channel_condition == 4 {
        if english {
            "in use"
        } else {
            "已占用"
        }
    } else if english {
        "unavailable"
    } else {
        "不可用"
    };
    detail.push_str(condition);
    HardwareRow {
        title,
        detail,
        added,
        group: false,
        source,
        enabled: hw.channel_condition == 1 || added,
    }
}

fn pcan_key_list(devices: &[PcanChannelInfo]) -> (r: Vec<(u32, Vec<char>)>)
    ensures
        keys_view(r@) == pcan_keys(pcan_view(devices@)),
{
    let mut out: Vec<(u32, Vec<char>)> = Vec::new();
    let ghost all = pcan_keys(pcan_view(devices@));
    let mut i: usize = 0;
    while i < devices.len()
        invariant
            i <= devices@.len(),
            all == pcan_keys(pcan_view(devices@)),
            keys_view(out@) =~= all.take(i as int),
        decreases devices@.len() - i,
    {
        let ghost before = out@;
        let name = text::chars_of(devices[i].device_name.as_str());
        out.push((devices[i].device_id, name));
        assert(keys_view(out@) =~= keys_view(before).push(all[i as int]));
        i += 1;
    }
    assert(all.take(i as int) =~= all);
    out
}

fn push_pcan_groups(
    rows: &mut Vec<HardwareRow>,
    devices: &[PcanChannelInfo],
    channels: &[DeviceConfig],
    english: bool,
)
    requires
        devices@.len() <= i32::MAX,
    ensures
        hardware_view(final(rows)@) == hardware_view(old(rows)@) + pcan_groups(
            pcan_view(devices@),
            configs_view(channels@),
            english,
            sorted_keys(pcan_keys(pcan_view(devices@))),
        ),
{
    let ghost start = hardware_view(rows@);
    let ghost d = pcan_view(devices@);
    let ghost c = configs_view(channels@);
    let keys = pcan_key_list(devices);
    let groups = sort_keys(keys.as_slice());
    let ghost all = keys_view(groups@);
    let mut g: usize = 0;
    assert(all.take(0) =~= seq![]);
    assert(start + pcan_groups(d, c, english, all.take(0)) =~= start);
    while g < groups.len()
        invariant
            g <= groups@.len(),
            devices@.len() <= i32::MAX,
            d == pcan_view(devices@),
            c == configs_view(channels@),
            keys_view(keys@) == pcan_keys(d),
            keys@.len() == devices@.len(),
            all == keys_view(groups@),
            hardware_view(rows@) == start + pcan_groups(d, c, english, all.take(g as int)),
        decreases groups@.len() - g,
    {
        let ghost k = all[g as int];
        let group = &groups[g];
        assert(k == (group.0, group.1@));
        let count: usize = count_key(keys.as_slice(), group);
        let mut title = "PEAK  ".to_owned();
        text::push_chars(&mut title, group.1.as_slice());
        let mut detail = "Device ID ".to_owned();
        text::push_hex_padded(&mut detail, group.0 as u64, 8);
        detail.push_str("h · ");
        text::push_decimal(&mut detail, count as u64);
        detail.push_str(" channel(s)");
        let ghost before = hardware_view(rows@);
        push_row(
            rows,
            HardwareRow { title, detail, added: false, group: true, source: -1, enabled: false },
        );
        let ghost headed = hardware_view(rows@);
        assert(headed == before.push(pcan_head(k, count as nat)));
        let mut i: usize = 0;
        assert(headed + pcan_members(d, c, english, k, 0) =~= headed);
        while i < devices.len()
            invariant
                i <= devices@.len(),
                devices@.len() <= i32::MAX,
                d == pcan_view(devices@),
                c == configs_view(channels@),
                keys_view(keys@) == pcan_keys(d),
                keys@.len() == devices@.len(),
                k == (group.0, group.1@),
                hardware_view(rows@) == headed + pcan_members(d, c, english, k, i as int),
            decreases devices@.len() - i,
        {
            assert(pcan_keys(d)[i as int] == (keys@[i as int].0, keys@[i as int].1@));
            if same_key(&keys[i], group) {
                let row = pcan_row_of(&devices[i], i as i32, channels, english);
                assert(d[i as int] == devices@[i as int]@);
                push_row(rows, row);
            }
            assert(hardware_view(rows@) =~= headed + pcan_members(d, c, english, k, i + 1));
            i += 1;
        }
        proof {
            assert(all.take(g + 1).drop_last() =~= all.take(g as int));
            assert(hardware_view(rows@) =~= start + pcan_groups(d, c, english, all.take(g + 1)));
        }
        g += 1;
    }
    assert(all.take(g as int) =~= all);
}

// ---------------------------------------------------------------- other vendors

/// The identity of a device as it is shown.
pub open spec fn device_text(hw: UsbChannelView) -> Seq<char> {
    let serial = text::trim(hw.serial_number);
    if serial.len() == 0 {
        "dev"@ + text::decimal(hw.device_index as nat)
    } else {
        "SN "@ + serial
    }
}

/// The key by which a channel is grouped: the kind of its device, its identity and its label.
pub open spec fn usb_key(hw: UsbChannelView) -> Key {
    (0u32, hw.device_type + "|"@ + device_text(hw) + "|"@ + hw.hardware_label)
}

/// The keys by which channels are grouped.
pub open spec fn usb_keys(devices: Seq<UsbChannelView>) -> Seq<Key> {
    devices.map_values(|d: UsbChannelView| usb_key(d))
}

/// The vendor of a kind of device.
pub open spec fn vendor_text(device_type: Seq<char>) -> Seq<char> {
    let up = text::upper(device_type);
    if up == "GCAN"@ {
        "GCAN"@
    } else if up == "ZHCX"@ || up == "ZHCXCAN"@ {
        "ZHCX"@
    } else {
        "ZLG"@
    }
}

/// Whether a channel is in the list of channels.
pub open spec fn usb_in_list(hw: UsbChannelView, channels: Seq<DeviceConfigView>) -> bool {
    exists|i: int|
        0 <= i < channels.len() && ((#[trigger] channels[i]).hardware_id.len() > 0
            && channels[i].hardware_id == usb_identity(hw) || text::upper(channels[i].device_type)
            == text::upper(hw.device_type) && channels[i].device_index == hw.device_index
            && channels[i].channel_index == hw.channel_index)
}

/// The row of a channel.
pub open spec fn usb_row(hw: UsbChannelView, source: int, channels: Seq<DeviceConfigView>) -> HardwareRowView {
    HardwareRowView {
        title: "↳ CAN"@ + text::decimal((hw.channel_index + 1) as nat),
        detail: kind_text(hw.fd_capable) + " · dev"@ + text::decimal(hw.device_index as nat)
            + " ch"@ + text::decimal(hw.channel_index as nat),
        added: usb_in_list(hw, channels),
        group: false,
        source,
        enabled: true,
    }
}

/// The head of a group, of which the first channel is given.
pub open spec fn usb_head(first: UsbChannelView, count: nat) -> HardwareRowView {
    group_head(
        vendor_text(first.device_type) + "  "@ + first.hardware_label,
        device_text(first) + " · "@ + text::decimal(count) + " channel(s)"@,
    )
}

/// The rows of the first `n` channels that belong to a group.
pub open spec fn usb_members(
    devices: Seq<UsbChannelView>,
    channels: Seq<DeviceConfigView>,
    offset: int,
    k: Key,
    n: int,
) -> Seq<HardwareRowView>
    decreases n,
{
    if n <= 0 {
        seq![]
    } else {
        let before = usb_members(devices, channels, offset, k, n - 1);
        if usb_keys(devices)[n - 1] == k {
            before.push(usb_row(devices[n - 1], offset + n - 1, channels))
        } else {
            before
        }
    }
}

/// The rows of the first groups.
pub open spec fn usb_groups(
    devices: Seq<UsbChannelView>,
    channels: Seq<DeviceConfigView>,
    offset: int,
    groups: Seq<Key>,
) -> Seq<HardwareRowView>
    decreases groups.len(),
{
    if groups.len() == 0 {
        seq![]
    } else {
        let k = groups.last();
        let n = devices.len() as int;
        usb_groups(devices, channels, offset, groups.drop_last()).push(
            usb_head(
                devices[first_place(usb_keys(devices), k, 0)],
                occurrences(usb_keys(devices), k, n),
            ),
        ) + usb_members(devices, channels, offset, k, n)
    }
}

fn device_string(hw: &ZcanUsbChannelInfo) -> (r: String)
    ensures
        r@ == device_text(hw@),
{
    let serial = text::trimmed(hw.serial_number.as_str());
    if serial.as_str().is_empty() {
        let mut out = "dev".to_owned();
        text::push_decimal(&mut out, hw.device_index as u64);
        out
    } else {
        let mut out = "SN ".to_owned();
        out.push_str(serial.as_str());
        out
    }
}

fn usb_key_list(devices: &[ZcanUsbChannelInfo]) -> (r: Vec<(u32, Vec<char>)>)
    ensures
        keys_view(r@) == usb_keys(usb_view(devices@)),
{
    let mut out: Vec<(u32, Vec<char>)> = Vec::new();
    let ghost all = usb_keys(usb_view(devices@));
    let mut i: usize = 0;
    while i < devices.len()
        invariant
            i <= devices@.len(),
            all == usb_keys(usb_view(devices@)),
            keys_view(out@) =~= all.take(i as int),
        decreases devices@.len() - i,
    {
        let ghost before = out@;
        let hw = &devices[i];
        let mut key = hw.device_type.clone();
        key.push_str("|");
        let device = device_string(hw);
        key.push_str(device.as_str());
        key.push_str("|");
        key.push_str(hw.hardware_label.as_str());
        let chars = text::chars_of(key.as_str());
        assert(all[i as int] == (0u32, chars@));
        out.push((0, chars));
        assert(keys_view(out@) =~= keys_view(before).push(all[i as int]));
        i += 1;
    }
    assert(all.take(i as int) =~= all);
    out
}

fn usb_added(hw: &ZcanUsbChannelInfo, channels: &[DeviceConfig]) -> (r: bool)
    ensures
        r == usb_in_list(hw@, configs_view(channels@)),
{
    let id = zcan_hardware_id(hw);
    let ghost all = configs_view(channels@);
    let mut i: usize = 0;
    while i < channels.len()
        invariant
            i <= channels@.len(),
            all == configs_view(channels@),
            id@ == usb_identity(hw@),
            forall|j: int|
                0 <= j < i ==> !((#[trigger] all[j]).hardware_id.len() > 0 && all[j].hardware_id
                    == usb_identity(hw@) || text::upper(all[j].device_type) == text::upper(
                    hw@.device_type,
                ) && all[j].device_index == hw@.device_index && all[j].channel_index
                    == hw@.channel_index),
        decreases channels@.len() - i,
    {
        let c = &channels[i];
        assert(all[i as int] == c@);
        if !c.hardware_id.as_str().is_empty() && text::same_text(
            c.hardware_id.as_str(),
            id.as_str(),
        ) {
            return true;
        }
        if text::same_ignoring_case(c.device_type.as_str(), hw.device_type.as_str())
            && c.device_index == hw.device_index && c.channel_index == hw.channel_index {
            return true;
        }
        i += 1;
    }
    false
}

fn usb_row_of(hw: &ZcanUsbChannelInfo, source: i32, channels: &[DeviceConfig]) -> (r: HardwareRow)
    ensures
        r@ == usb_row(hw@, source as int, configs_view(channels@)),
{
    let mut title = "↳ CAN".to_owned();
    text::push_decimal(&mut title, hw.channel_index as u64 + 1);
    let kind: &str = if hw.fd_capable {
        "CAN FD"
    } else {
        "Classical CAN"
    };
    let mut detail = kind.to_owned();
    detail.push_str(" · dev");
    text::push_decimal(&mut detail, hw.device_index as u64);
    detail.push_str(" ch");
    text::push_decimal(&mut detail, hw.channel_index as u64);
    HardwareRow {
        title,
        detail,
        added: usb_added(hw, channels),
        group: false,
        source,
        enabled: true,
    }
}

fn vendor_name(device_type: &str) -> (r: &'static str)
    ensures
        r@ == vendor_text(device_type@),
{
    let up = text::to_upper(device_type);
    if text::same_text(up.as_str(), "GCAN") {
        "GCAN"
    } else if text::same_text(up.as_str(), "ZHCX") || text::same_text(up.as_str(), "ZHCXCAN") {
        "ZHCX"
    } else {
        "ZLG"
    }
}

fn find_key(keys: &[(u32, Vec<char>)], k: &(u32, Vec<char>)) -> (r: usize)
    requires
        keys_view(keys@).contains((k.0, k.1@)),
    ensures
        r < keys@.len(),
        r == first_place(keys_view(keys@), (k.0, k.1@), 0),
{
    let ghost all = keys_view(keys@);
    let ghost key = (k.0, k.1@);
    let mut i: usize = 0;
    while i < keys.len()
        invariant
            i <= keys@.len(),
            all == keys_view(keys@),
            key == (k.0, k.1@),
            all.contains(key),
            forall|j: int| 0 <= j < i ==> all[j] != key,
            first_place(all, key, 0) == first_place(all, key, i as int),
        decreases keys@.len() - i,
    {
        assert(all[i as int] == (keys@[i as int].0, keys@[i as int].1@));
        if same_key(&keys[i], k) {
            return i;
        }
        i += 1;
    }
    i
}

fn push_usb_groups(
    rows: &mut Vec<HardwareRow>,
    devices: &[ZcanUsbChannelInfo],
    channels: &[DeviceConfig],
    offset: usize,
)
    requires
        offset + devices@.len() <= i32::MAX,
    ensures
        hardware_view(final(rows)@) == hardware_view(old(rows)@) + usb_groups(
            usb_view(devices@),
            configs_view(channels@),
            offset as int,
            sorted_keys(usb_keys(usb_view(devices@))),
        ),
{
    let ghost start = hardware_view(rows@);
    let ghost d = usb_view(devices@);
    let ghost c = configs_view(channels@);
    let ghost o = offset as int;
    let keys = usb_key_list(devices);
    let groups = sort_keys(keys.as_slice());
    let ghost all = keys_view(groups@);
    proof {
        law_keys_are_sorted(usb_keys(d));
    }
    let mut g: usize = 0;
    assert(all.take(0) =~= seq![]);
    assert(start + usb_groups(d, c, o, all.take(0)) =~= start);
    while g < groups.len()
        invariant
            g <= groups@.len(),
            o == offset,
            offset + devices@.len() <= i32::MAX,
            d == usb_view(devices@),
            c == configs_view(channels@),
            keys_view(keys@) == usb_keys(d),
            keys@.len() == devices@.len(),
            all == keys_view(groups@),
            forall|x: Key| #[trigger] all.contains(x) <==> usb_keys(d).contains(x),
            hardware_view(rows@) == start + usb_groups(d, c, o, all.take(g as int)),
        decreases groups@.len() - g,
    {
        let ghost k = all[g as int];
        let group = &groups[g];
        assert(k == (group.0, group.1@));
        assert(all.contains(k));
        let count: usize = count_key(keys.as_slice(), group);
        let place: usize = find_key(keys.as_slice(), group);
        let first = &devices[place];
        assert(d[place as int] == first@);
        let mut title = vendor_name(first.device_type.as_str()).to_owned();
        title.push_str("  ");
        title.push_str(first.hardware_label.as_str());
        let mut detail = device_string(first);
        detail.push_str(" · ");
        text::push_decimal(&mut detail, count as u64);
        detail.push_str(" channel(s)");
        let ghost before = hardware_view(rows@);
        push_row(
            rows,
            HardwareRow { title, detail, added: false, group: true, source: -1, enabled: false },
        );
        let ghost headed = hardware_view(rows@);
        assert(headed == before.push(usb_head(first@, count as nat)));
        let mut i: usize = 0;
        assert(headed + usb_members(d, c, o, k, 0) =~= headed);
        while i < devices.len()
            invariant
                i <= devices@.len(),
                o == offset,
                offset + devices@.len() <= i32::MAX,
                d == usb_view(devices@),
                c == configs_view(channels@),
                keys_view(keys@) == usb_keys(d),
                keys@.len() == devices@.len(),
                k == (group.0, group.1@),
                hardware_view(rows@) == headed + usb_members(d, c, o, k, i as int),
            decreases devices@.len() - i,
        {
            assert(usb_keys(d)[i as int] == (keys@[i as int].0, keys@[i as int].1@));
            if same_key(&keys[i], group) {
                let row = usb_row_of(&devices[i], (offset + i) as i32, channels);
                assert(d[i as int] == devices@[i as int]@);
                push_row(rows, row);
            }
            assert(hardware_view(rows@) =~= headed + usb_members(d, c, o, k, i + 1));
            i += 1;
        }
        proof {
            assert(all.take(g + 1).drop_last() =~= all.take(g as int));
            assert(hardware_view(rows@) =~= start + usb_groups(d, c, o, all.take(g + 1)));
        }
        g += 1;
    }
    assert(all.take(g as int) =~= all);
}

// ---------------------------------------------------------------- all adapters

/// The row that tells that there are no adapters.
pub open spec fn nothing_row(english: bool) -> HardwareRowView {
    if english {
        group_head(
            "No CAN hardware detected"@,
            "Check USB connection, driver installation, and device occupancy"@,
        )
    } else {
        group_head(
            "未发现 CAN 硬件"@,
            "请检查 USB、驱动安装以及设备是否被其他软件占用"@,
        )
    }
}

/// The rows of all attached adapters: the groups of PCAN channels in order of their devices, then
/// the others in order of their kinds and devices.
pub open spec fn display_rows(
    devices: Seq<PcanChannelView>,
    usb: Seq<UsbChannelView>,
    channels: Seq<DeviceConfigView>,
    english: bool,
) -> Seq<HardwareRowView> {
    let rows = pcan_groups(devices, channels, english, sorted_keys(pcan_keys(devices)))
        + usb_groups(usb, channels, devices.len() as int, sorted_keys(usb_keys(usb)));
    if rows.len() == 0 {
        seq![nothing_row(english)]
    } else {
        rows
    }
}

/// The rows of all attached adapters.
pub fn hardware_display_rows(
    devices: &[PcanChannelInfo],
    zcan_devices: &[ZcanUsbChannelInfo],
    channels: &[DeviceConfig],
    english: bool,
) -> (r: Vec<HardwareRow>)
    requires
        devices@.len() + zcan_devices@.len() <= i32::MAX,
    ensures
        hardware_view(r@) == display_rows(
            pcan_view(devices@),
            usb_view(zcan_devices@),
            configs_view(channels@),
            english,
        ),
{
    let mut rows: Vec<HardwareRow> = Vec::new();
    assert(hardware_view(rows@) =~= seq![]);
    push_pcan_groups(&mut rows, devices, channels, english);
    push_usb_groups(&mut rows, zcan_devices, channels, devices.len());
    let ghost found = pcan_groups(
        pcan_view(devices@),
        configs_view(channels@),
        english,
        sorted_keys(pcan_keys(pcan_view(devices@))),
    ) + usb_groups(
        usb_view(zcan_devices@),
        configs_view(channels@),
        devices@.len() as int,
        sorted_keys(usb_keys(usb_view(zcan_devices@))),
    );
    assert(hardware_view(rows@) =~= found);
    assert(rows@.len() == found.len());
    if rows.len() == 0 {
        let title: &str = if english {
            "No CAN hardware detected"
        } else {
            "未发现 CAN 硬件"
        };
        let detail: &str = if english {
            "Check USB connection, driver installation, and device occupancy"
        } else {
            "请检查 USB、驱动安装以及设备是否被其他软件占用"
        };
        push_row(
            &mut rows,
            HardwareRow {
                title: title.to_owned(),
                detail: detail.to_owned(),
                added: false,
                group: true,
                source: -1,
                enabled: false,
            },
        );
        assert(hardware_view(rows@) =~= seq![nothing_row(english)]);
    }
    rows
}

/// How many rows stand for the channel with a number.
pub open spec fn rows_for(rows: Seq<HardwareRowView>, source: int) -> nat
    decreases rows.len(),
{
    if rows.len() == 0 {
        0
    } else {
        rows_for(rows.drop_last(), source) + if !rows.last().group && rows.last().source == source {
            1nat
        } else {
            0nat
        }
    }
}

/// Whether each row that stands for the channel with a number is a given one.
pub open spec fn only_row(rows: Seq<HardwareRowView>, source: int, row: HardwareRowView) -> bool {
    forall|r: int|
        0 <= r < rows.len() && !(#[trigger] rows[r]).group && rows[r].source == source ==> rows[r]
            == row
}

proof fn lemma_rows_add(a: Seq<HardwareRowView>, b: Seq<HardwareRowView>, source: int, row: HardwareRowView)
    ensures
        rows_for(a + b, source) == rows_for(a, source) + rows_for(b, source),
        only_row(a, source, row) && only_row(b, source, row) ==> only_row(a + b, source, row),
    decreases b.len(),
{
    if b.len() == 0 {
        assert(a + b =~= a);
    } else {
        lemma_rows_add(a, b.drop_last(), source, row);
        assert((a + b).drop_last() =~= a + b.drop_last());
    }
}

proof fn lemma_one_row(x: HardwareRowView, source: int)
    ensures
        rows_for(seq![x], source) == if !x.group && x.source == source {
            1nat
        } else {
            0nat
        },
{
    assert(seq![x].drop_last() =~= Seq::<HardwareRowView>::empty());
    assert(rows_for(Seq::<HardwareRowView>::empty(), source) == 0);
}

proof fn lemma_pcan_members(
    d: Seq<PcanChannelView>,
    c: Seq<DeviceConfigView>,
    english: bool,
    k: Key,
    n: int,
    i: int,
)
    requires
        0 <= n <= d.len(),
    ensures
        rows_for(pcan_members(d, c, english, k, n), i) == if 0 <= i < n && pcan_keys(d)[i] == k {
            1nat
        } else {
            0nat
        },
        only_row(pcan_members(d, c, english, k, n), i, pcan_row(d[i], i, c, english)),
    decreases n,
{
    if n > 0 {
        lemma_pcan_members(d, c, english, k, n - 1, i);
        let before = pcan_members(d, c, english, k, n - 1);
        let row = pcan_row(d[n - 1], n - 1, c, english);
        assert(before.push(row).drop_last() =~= before);
    }
}

proof fn lemma_pcan_groups(
    d: Seq<PcanChannelView>,
    c: Seq<DeviceConfigView>,
    english: bool,
    groups: Seq<Key>,
    i: int,
)
    requires
        ascending(groups),
    ensures
        rows_for(pcan_groups(d, c, english, groups), i) == if 0 <= i < d.len() && groups.contains(
            pcan_keys(d)[i],
        ) {
            1nat
        } else {
            0nat
        },
        only_row(pcan_groups(d, c, english, groups), i, pcan_row(d[i], i, c, english)),
    decreases groups.len(),
{
    if groups.len() > 0 {
        let n = d.len() as int;
        let k = groups.last();
        let rest = groups.drop_last();
        let row = pcan_row(d[i], i, c, english);
        lemma_last_key(groups, pcan_keys(d)[i]);
        lemma_pcan_groups(d, c, english, rest, i);
        lemma_pcan_members(d, c, english, k, n, i);
        let before = pcan_groups(d, c, english, rest);
        let head = pcan_head(k, occurrences(pcan_keys(d), k, n));
        let members = pcan_members(d, c, english, k, n);
        lemma_one_row(head, i);
        lemma_rows_add(before, seq![head], i, row);
        lemma_rows_add(before + seq![head], members, i, row);
        assert(pcan_groups(d, c, english, groups) =~= (before + seq![head]) + members);
    }
}

/// The last of keys in order stands once, and the others are those before it.
proof fn lemma_last_key(groups: Seq<Key>, x: Key)
    requires
        groups.len() > 0,
        ascending(groups),
    ensures
        ascending(groups.drop_last()),
        groups.contains(x) <==> groups.drop_last().contains(x) || x == groups.last(),
        !groups.drop_last().contains(groups.last()),
{
    let rest = groups.drop_last();
    let last = groups.len() - 1;
    assert forall|a: int, b: int| 0 <= a < b < rest.len() implies #[trigger] key_before(
        rest[a],
        rest[b],
    ) by {
        assert(key_before(groups[a], groups[b]));
    }
    assert(groups =~= rest.push(groups.last()));
    lemma_pushed(rest, groups.last(), x);
    if rest.contains(groups.last()) {
        let a = choose|a: int| 0 <= a < rest.len() && rest[a] == groups.last();
        assert(key_before(groups[a], groups[last]));
        lemma_key_order(groups[a], groups[last]);
    }
}

proof fn lemma_usb_members(
    d: Seq<UsbChannelView>,
    c: Seq<DeviceConfigView>,
    offset: int,
    k: Key,
    n: int,
    i: int,
)
    requires
        0 <= n <= d.len(),
    ensures
        rows_for(usb_members(d, c, offset, k, n), offset + i) == if 0 <= i < n && usb_keys(d)[i]
            == k {
            1nat
        } else {
            0nat
        },
        only_row(usb_members(d, c, offset, k, n), offset + i, usb_row(d[i], offset + i, c)),
    decreases n,
{
    if n > 0 {
        lemma_usb_members(d, c, offset, k, n - 1, i);
        let before = usb_members(d, c, offset, k, n - 1);
        let row = usb_row(d[n - 1], offset + n - 1, c);
        assert(before.push(row).drop_last() =~= before);
    }
}

proof fn lemma_usb_groups(
    d: Seq<UsbChannelView>,
    c: Seq<DeviceConfigView>,
    offset: int,
    groups: Seq<Key>,
    i: int,
)
    requires
        ascending(groups),
    ensures
        rows_for(usb_groups(d, c, offset, groups), offset + i) == if 0 <= i < d.len()
            && groups.contains(usb_keys(d)[i]) {
            1nat
        } else {
            0nat
        },
        only_row(usb_groups(d, c, offset, groups), offset + i, usb_row(d[i], offset + i, c)),
    decreases groups.len(),
{
    if groups.len() > 0 {
        let n = d.len() as int;
        let k = groups.last();
        let rest = groups.drop_last();
        let row = usb_row(d[i], offset + i, c);
        lemma_last_key(groups, usb_keys(d)[i]);
        lemma_usb_groups(d, c, offset, rest, i);
        lemma_usb_members(d, c, offset, k, n, i);
        let before = usb_groups(d, c, offset, rest);
        let head = usb_head(
            d[first_place(usb_keys(d), k, 0)],
            occurrences(usb_keys(d), k, n),
        );
        let members = usb_members(d, c, offset, k, n);
        lemma_one_row(head, offset + i);
        lemma_rows_add(before, seq![head], offset + i, row);
        lemma_rows_add(before + seq![head], members, offset + i, row);
        assert(usb_groups(d, c, offset, groups) =~= (before + seq![head]) + members);
    }
}

proof fn lemma_no_rows(rows: Seq<HardwareRowView>, source: int, row: HardwareRowView)
    requires
        rows_for(rows, source) == 0,
    ensures
        only_row(rows, source, row),
    decreases rows.len(),
{
    if rows.len() > 0 {
        lemma_no_rows(rows.drop_last(), source, row);
        assert forall|r: int|
            0 <= r < rows.len() && !(#[trigger] rows[r]).group && rows[r].source
                == source implies rows[r] == row by {
            if r < rows.len() - 1 {
                assert(rows.drop_last()[r] == rows[r]);
            }
        }
    }
}

/// Every attached channel has exactly one row, its own, under its number among all attached ones.
pub proof fn law_every_channel_has_a_row(
    d: Seq<PcanChannelView>,
    u: Seq<UsbChannelView>,
    c: Seq<DeviceConfigView>,
    english: bool,
    i: int,
)
    requires
        0 <= i < d.len() + u.len(),
    ensures
        rows_for(display_rows(d, u, c, english), i) == 1,
        only_row(
            display_rows(d, u, c, english),
            i,
            if i < d.len() {
                pcan_row(d[i], i, c, english)
            } else {
                usb_row(u[i - d.len()], i, c)
            },
        ),
{
    let n = d.len() as int;
    let pk = sorted_keys(pcan_keys(d));
    let uk = sorted_keys(usb_keys(u));
    let a = pcan_groups(d, c, english, pk);
    let b = usb_groups(u, c, n, uk);
    let row = if i < n {
        pcan_row(d[i], i, c, english)
    } else {
        usb_row(u[i - n], i, c)
    };
    law_keys_are_sorted(pcan_keys(d));
    law_keys_are_sorted(usb_keys(u));
    lemma_pcan_groups(d, c, english, pk, i);
    lemma_usb_groups(u, c, n, uk, i - n);
    if i < n {
        let k = pcan_keys(d)[i];
        assert(pcan_keys(d).contains(k));
        assert(pk.contains(k));
        lemma_no_rows(b, i, row);
    } else {
        let k = usb_keys(u)[i - n];
        assert(usb_keys(u).contains(k));
        assert(uk.contains(k));
        lemma_no_rows(a, i, row);
    }
    lemma_rows_add(a, b, i, row);
    assert((a + b).len() > 0);
}

} // verus!
