//! The list of channels that the user edits, and the rows that describe it.
use crate::can::pcan::{PcanChannelInfo, PcanChannelView};
use crate::can::{configs_view, DeviceConfig, DeviceConfigView};
use crate::text;
use vstd::prelude::*;

verus! {

/// What a new channel is set to.
pub open spec fn default_view() -> DeviceConfigView {
    DeviceConfigView {
        sw_channel: 1,
        is_fd: false,
        device_type: "Virtual"@,
        hardware_label: seq![],
        hardware_id: seq![],
        device_index: 0,
        channel_index: 0,
        baud: "500K"@,
        data_baud: "2M"@,
        custom_bitrate: seq![],
        termination: false,
        listen_only: false,
        fd_non_iso: false,
        net_server: true,
        ip: "192.168.0.178"@,
        port: "8000"@,
    }
}

/// A new channel.
pub fn default_channel() -> (r: DeviceConfig)
    ensures
        r@ == default_view(),
{
    let empty = String::new();
    assert(empty@ =~= seq![]);
    DeviceConfig {
        sw_channel: 1,
        is_fd: false,
        device_type: "Virtual".to_owned(),
        hardware_label: empty.clone(),
        hardware_id: empty.clone(),
        device_index: 0,
        channel_index: 0,
        baud: "500K".to_owned(),
        data_baud: "2M".to_owned(),
        custom_bitrate: empty,
        termination: false,
        listen_only: false,
        fd_non_iso: false,
        net_server: true,
        ip: "192.168.0.178".to_owned(),
        port: "8000".to_owned(),
    }
}

/// The channels numbered from one on, in 8 bits.
pub open spec fn renumbered(channels: Seq<DeviceConfigView>) -> Seq<DeviceConfigView> {
    Seq::new(
        channels.len(),
        |i: int| DeviceConfigView { sw_channel: ((i + 1) % 256) as u8, ..channels[i] },
    )
}

/// Numbers the channels from one on.
pub fn renumber_channel_slice(channels: &mut Vec<DeviceConfig>)
    ensures
        configs_view(final(channels)@) == renumbered(configs_view(old(channels)@)),
{
    let ghost before = configs_view(channels@);
    let mut i: usize = 0;
    while i < channels.len()
        invariant
            i <= channels@.len() == before.len(),
            before == configs_view(old(channels)@),
            forall|j: int|
                0 <= j < i ==> (#[trigger] channels@[j])@ == (DeviceConfigView {
                    sw_channel: ((j + 1) % 256) as u8,
                    ..before[j]
                }),
            forall|j: int| i <= j < before.len() ==> (#[trigger] channels@[j])@ == before[j],
        decreases channels@.len() - i,
    {
        assert(channels@[i as int]@ == before[i as int]);
        let n: usize = i % 256;
        channels[i].sw_channel = ((n + 1) % 256) as u8;
        assert((i % 256 + 1) % 256 == (i + 1) % 256);
        i += 1;
    }
    assert(configs_view(channels@) =~= renumbered(before));
}

/// Numbers up to the number of channels are told apart as long as there are at most 255.
pub proof fn law_numbers_are_distinct(channels: Seq<DeviceConfigView>, i: int, j: int)
    requires
        channels.len() <= 255,
        0 <= i < j < channels.len(),
    ensures
        renumbered(channels)[i].sw_channel != renumbered(channels)[j].sw_channel,
        renumbered(channels)[i].sw_channel != 0,
{
}

/// Channels that are being edited.
#[derive(Debug)]
pub struct ChannelEditSession {
    pub channels: Vec<DeviceConfig>,
    pub selected: i32,
    pub dirty: bool,
}

/// The channels, and those that are being edited, if there are any.
#[derive(Debug)]
pub struct ChannelList {
    pub channels: Vec<DeviceConfig>,
    pub selected: i32,
    pub edit: Option<ChannelEditSession>,
}

impl ChannelList {
    /// The channels that the windows show.
    pub open spec fn shown(&self) -> Seq<DeviceConfig> {
        match self.edit {
            Some(session) => session.channels@,
            None => self.channels@,
        }
    }

    /// The selection as it was made.
    pub open spec fn chosen(&self) -> i32 {
        match self.edit {
            Some(session) => session.selected,
            None => self.selected,
        }
    }

    /// The channels that the windows show: those that are being edited, if there are any.
    pub fn channel_configs(&self) -> (r: &[DeviceConfig])
        ensures
            r@ == self.shown(),
    {
        match &self.edit {
            Some(session) => session.channels.as_slice(),
            None => self.channels.as_slice(),
        }
    }

    /// The selection as it was made.
    pub fn channel_selected(&self) -> (r: i32)
        ensures
            r == self.chosen(),
    {
        match &self.edit {
            Some(session) => session.selected,
            None => self.selected,
        }
    }

    /// The selection within the channels, or -1 where there are none.
    pub fn normalized_channel_selection(&self) -> (r: i32)
        requires
            self.shown().len() <= i32::MAX,
        ensures
            r == if self.shown().len() == 0 {
                -1int
            } else if self.chosen() < 0 {
                0
            } else if self.chosen() >= self.shown().len() {
                self.shown().len() - 1
            } else {
                self.chosen() as int
            },
    {
        let count: i32 = self.channel_configs().len() as i32;
        let chosen: i32 = self.channel_selected();
        if count == 0 {
            -1
        } else if chosen < 0 {
            0
        } else if chosen >= count {
            count - 1
        } else {
            chosen
        }
    }

    /// Begins to edit a copy of the channels, unless that was begun already.
    pub fn ensure_channel_edit_session(&mut self)
        ensures
            final(self).channels == old(self).channels,
            final(self).selected == old(self).selected,
            final(self).edit is Some,
            match old(self).edit {
                Some(_) => final(self).edit == old(self).edit,
                None => {
                    let session = final(self).edit->0;
                    &&& configs_view(session.channels@) == configs_view(old(self).channels@)
                    &&& session.selected == old(self).selected
                    &&& !session.dirty
                },
            },
    {
        if self.edit.is_none() {
            let channels = copy_configs(self.channels.as_slice());
            self.edit = Some(ChannelEditSession { channels, selected: self.selected, dirty: false });
        }
    }
}

/// A copy of some channels.
pub fn copy_configs(channels: &[DeviceConfig]) -> (r: Vec<DeviceConfig>)
    ensures
        configs_view(r@) == configs_view(channels@),
{
    let mut out: Vec<DeviceConfig> = Vec::new();
    let mut i: usize = 0;
    while i < channels.len()
        invariant
            i <= channels@.len(),
            configs_view(out@) =~= configs_view(channels@.take(i as int)),
        decreases channels@.len() - i,
    {
        let ghost before = out@;
        out.push(channels[i].clone());
        proof {
            assert(configs_view(out@) =~= configs_view(before).push(channels@[i as int]@));
            assert(configs_view(channels@.take(i + 1)) =~= configs_view(
                channels@.take(i as int),
            ).push(channels@[i as int]@));
        }
        i += 1;
    }
    assert(channels@.take(i as int) =~= channels@);
    out
}

// ---------------------------------------------------------------- rows

/// The row of a channel.
pub open spec fn list_text(c: DeviceConfigView) -> Seq<char> {
    let label = text::trim(c.hardware_label);
    "CAN"@ + text::decimal(c.sw_channel as nat) + "  "@ + (if label.len() == 0 {
        "Unnamed"@
    } else {
        label
    }) + "  "@ + (if c.is_fd {
        "CAN FD"@
    } else {
        "CAN"@
    })
}

fn list_string(c: &DeviceConfig) -> (r: String)
    ensures
        r@ == list_text(c@),
{
    let mut out = "CAN".to_owned();
    text::push_decimal(&mut out, c.sw_channel as u64);
    out.push_str("  ");
    let label = text::trimmed(c.hardware_label.as_str());
    if label.as_str().is_empty() {
        out.push_str("Unnamed");
    } else {
        out.push_str(label.as_str());
    }
    out.push_str("  ");
    if c.is_fd {
        out.push_str("CAN FD");
    } else {
        out.push_str("CAN");
    }
    out
}

/// The rows of the channels.
pub fn chan_list_strings(channels: &[DeviceConfig]) -> (r: Vec<String>)
    ensures
        text::texts(r@) == channels@.map_values(|c: DeviceConfig| list_text(c@)),
{
    let ghost f = |c: DeviceConfig| list_text(c@);
    let mut out: Vec<String> = Vec::new();
    let mut i: usize = 0;
    while i < channels.len()
        invariant
            i <= channels@.len(),
            f == (|c: DeviceConfig| list_text(c@)),
            text::texts(out@) =~= channels@.take(i as int).map_values(f),
        decreases channels@.len() - i,
    {
        let ghost before = out@;
        out.push(list_string(&channels[i]));
        proof {
            assert(text::texts(out@) =~= text::texts(before).push(f(channels@[i as int])));
            assert(channels@.take(i + 1).map_values(f) =~= channels@.take(i as int).map_values(
                f,
            ).push(f(channels@[i as int])));
        }
        i += 1;
    }
    assert(channels@.take(i as int) =~= channels@);
    out
}

/// The views of the attached PCAN channels.
pub open spec fn pcan_view(devices: Seq<PcanChannelInfo>) -> Seq<PcanChannelView> {
    devices.map_values(|d: PcanChannelInfo| d@)
}

/// The first attached PCAN channel with an index, from a place on.
pub open spec fn pcan_at(devices: Seq<PcanChannelView>, index: u32, from: int) -> Option<int>
    decreases devices.len() - from,
{
    if from < 0 || from >= devices.len() {
        None
    } else if devices[from].channel_index == index {
        Some(from)
    } else {
        pcan_at(devices, index, from + 1)
    }
}

fn find_pcan(devices: &[PcanChannelInfo], index: u32) -> (r: Option<usize>)
    ensures
        match r {
            Some(i) => pcan_at(pcan_view(devices@), index, 0) == Some(i as int) && i
                < devices@.len(),
            None => pcan_at(pcan_view(devices@), index, 0) is None,
        },
{
    let mut i: usize = 0;
    while i < devices.len()
        invariant
            i <= devices@.len(),
            pcan_at(pcan_view(devices@), index, 0) == pcan_at(pcan_view(devices@), index, i as int),
        decreases devices@.len() - i,
    {
        assert(pcan_view(devices@)[i as int] == devices@[i as int]@);
        if devices[i].channel_index == index {
            return Some(i);
        }
        i += 1;
    }
    None
}

/// Where a channel is found: the attached PCAN channel, the address on the network, or the numbers
/// of adapter and channel.
pub open spec fn place_text(c: DeviceConfigView, devices: Seq<PcanChannelView>) -> Seq<char> {
    let dev = text::trim(c.device_type);
    let up = text::upper(dev);
    if up == text::upper("PCAN"@) {
        match pcan_at(devices, c.channel_index, 0) {
            Some(i) => devices[i].channel_name + " "@ + devices[i].device_name + ": Device ID "@
                + text::hex(devices[i].device_id as nat) + "h"@,
            None => "PCAN_USBBUS"@ + text::decimal((c.channel_index + 1) as nat) + " not detected"@,
        }
    } else if text::has_part(up, "NET"@) || text::has_part(up, "WIFI"@) {
        c.ip + ":"@ + c.port
    } else {
        "dev"@ + text::decimal(c.device_index as nat) + " CAN"@ + text::decimal(
            (c.channel_index + 1) as nat,
        )
    }
}

/// The protocol and rates of a channel. A mark tells that the attached PCAN channel cannot do CAN
/// FD.
pub open spec fn protocol_text(c: DeviceConfigView, devices: Seq<PcanChannelView>) -> Seq<char> {
    if !c.is_fd {
        "CAN "@ + c.baud
    } else {
        let s = "CANFD "@ + c.baud + "/"@ + c.data_baud;
        let at = pcan_at(devices, c.channel_index, 0);
        if text::upper(text::trim(c.device_type)) == text::upper("PCAN"@) && at is Some
            && !devices[at->0].fd_capable {
            s + " !"@
        } else {
            s
        }
    }
}

/// The details of a channel.
pub open spec fn detail_text(c: DeviceConfigView, devices: Seq<PcanChannelView>) -> Seq<char> {
    text::trim(c.device_type) + "  "@ + place_text(c, devices) + "  "@ + protocol_text(c, devices)
}

fn place_string(c: &DeviceConfig, devices: &[PcanChannelInfo]) -> (r: String)
    ensures
        r@ == place_text(c@, pcan_view(devices@)),
{
    let dev = text::trimmed(c.device_type.as_str());
    let up = text::to_upper(dev.as_str());
    if text::same_ignoring_case(dev.as_str(), "PCAN") {
        match find_pcan(devices, c.channel_index) {
            Some(i) => {
                let hw = &devices[i];
                assert(pcan_view(devices@)[i as int] == hw@);
                let mut out = hw.channel_name.clone();
                out.push_str(" ");
                out.push_str(hw.device_name.as_str());
                out.push_str(": Device ID ");
                text::push_hex(&mut out, hw.device_id as u64);
                out.push_str("h");
                out
            },
            None => {
                let mut out = "PCAN_USBBUS".to_owned();
                text::push_decimal(&mut out, c.channel_index as u64 + 1);
                out.push_str(" not detected");
                out
            },
        }
    } else if text::contains_text(up.as_str(), "NET") || text::contains_text(up.as_str(), "WIFI") {
        let mut out = c.ip.clone();
        out.push_str(":");
        out.push_str(c.port.as_str());
        out
    } else {
        let mut out = "dev".to_owned();
        text::push_decimal(&mut out, c.device_index as u64);
        out.push_str(" CAN");
        text::push_decimal(&mut out, c.channel_index as u64 + 1);
        out
    }
}

fn detail_string(c: &DeviceConfig, devices: &[PcanChannelInfo]) -> (r: String)
    ensures
        r@ == detail_text(c@, pcan_view(devices@)),
{
    let dev = text::trimmed(c.device_type.as_str());
    let mut out = dev.clone();
    out.push_str("  ");
    let place = place_string(c, devices);
    out.push_str(place.as_str());
    out.push_str("  ");
    let ghost head = out@;
    if c.is_fd {
        out.push_str("CANFD ");
        out.push_str(c.baud.as_str());
        out.push_str("/");
        out.push_str(c.data_baud.as_str());
        if text::same_ignoring_case(dev.as_str(), "PCAN") {
            match find_pcan(devices, c.channel_index) {
                Some(i) => {
                    assert(pcan_view(devices@)[i as int] == devices@[i as int]@);
                    if !devices[i].fd_capable {
                        out.push_str(" !");
                    }
                },
                None => {},
            }
        }
    } else {
        out.push_str("CAN ");
        out.push_str(c.baud.as_str());
    }
    assert(out@ =~= head + protocol_text(c@, pcan_view(devices@)));
    out
}

/// The details of the channels.
pub fn chan_detail_strings(channels: &[DeviceConfig], devices: &[PcanChannelInfo]) -> (r: Vec<
    String,
>)
    ensures
        text::texts(r@) == channels@.map_values(
            |c: DeviceConfig| detail_text(c@, pcan_view(devices@)),
        ),
{
    let ghost f = |c: DeviceConfig| detail_text(c@, pcan_view(devices@));
    let mut out: Vec<String> = Vec::new();
    let mut i: usize = 0;
    while i < channels.len()
        invariant
            i <= channels@.len(),
            f == (|c: DeviceConfig| detail_text(c@, pcan_view(devices@))),
            text::texts(out@) =~= channels@.take(i as int).map_values(f),
        decreases channels@.len() - i,
    {
        let ghost before = out@;
        out.push(detail_string(&channels[i], devices));
        proof {
            assert(text::texts(out@) =~= text::texts(before).push(f(channels@[i as int])));
            assert(channels@.take(i + 1).map_values(f) =~= channels@.take(i as int).map_values(
                f,
            ).push(f(channels@[i as int])));
        }
        i += 1;
    }
    assert(channels@.take(i as int) =~= channels@);
    out
}

} // verus!
