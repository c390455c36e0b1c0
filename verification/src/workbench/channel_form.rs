//! The form in which a channel is set up: what its adapter can do, and what is known of it.
use crate::can::pcan::{PcanChannelInfo, PcanChannelView};
use crate::can::zcan_scan::{UsbChannelView, ZcanUsbChannelInfo};
use crate::can::{DeviceConfig, DeviceConfigView};
use crate::text;
use crate::workbench::channels::pcan_view;
use crate::workbench::hardware::{first_set, pcan_hardware_id, pcan_identity, usb_identity};
use crate::workbench::hardware::{usb_view, zcan_hardware_id};
use vstd::prelude::*;

verus! {

/// What the form of a channel offers.
#[derive(Debug)]
pub struct ChannelForm {
    pub supports_fd: bool,
    pub supports_termination: bool,
    pub supports_listen_only: bool,
    pub supports_non_iso: bool,
    /// Whether the user maps the channel by hand.
    pub manual_mode: bool,
    pub identity: String,
    pub state: &'static str,
    pub arbitration: Vec<&'static str>,
    /// The index of the channel, counted from one.
    pub shown_index: u64,
}

/// Whether an attached PCAN channel is the one of a channel.
pub open spec fn pcan_matches(c: DeviceConfigView, hw: PcanChannelView) -> bool {
    (c.hardware_id.len() > 0 && c.hardware_id == pcan_identity(hw)) || (text::upper(
        text::trim(c.device_type),
    ) == "PCAN"@ && hw.channel_index == c.channel_index)
}

/// Whether an attached channel of another vendor is the one of a channel.
pub open spec fn usb_matches(c: DeviceConfigView, hw: UsbChannelView) -> bool {
    (c.hardware_id.len() > 0 && c.hardware_id == usb_identity(hw)) || (text::upper(hw.device_type)
        == text::upper(c.device_type) && hw.device_index == c.device_index && hw.channel_index
        == c.channel_index)
}

/// The attached PCAN channel of a channel.
pub open spec fn pcan_of(c: DeviceConfigView, pcan: Seq<PcanChannelView>) -> Option<int> {
    first_set(pcan.map_values(|hw: PcanChannelView| pcan_matches(c, hw)), 0)
}

/// The attached channel of another vendor of a channel.
pub open spec fn usb_of(c: DeviceConfigView, usb: Seq<UsbChannelView>) -> Option<int> {
    first_set(usb.map_values(|hw: UsbChannelView| usb_matches(c, hw)), 0)
}

/// The kind of a device in capitals.
pub open spec fn kind_of(c: DeviceConfigView) -> Seq<char> {
    text::upper(text::trim(c.device_type))
}

/// Whether the adapter of a channel can do CAN FD: as it says, or as its kind says where it is not
/// attached.
pub open spec fn can_fd(
    c: DeviceConfigView,
    pcan: Seq<PcanChannelView>,
    usb: Seq<UsbChannelView>,
) -> bool {
    match pcan_of(c, pcan) {
        Some(i) => pcan[i].fd_capable,
        None => match usb_of(c, usb) {
            Some(i) => usb[i].fd_capable,
            None => text::has_part(kind_of(c), "USBCANFD"@) || text::has_part(
                kind_of(c),
                "CANFDNET"@,
            ) || text::has_part(kind_of(c), "CANFDWIFI"@) || c.is_fd,
        },
    }
}

/// Whether the adapter of a channel can listen only.
pub open spec fn can_listen_only(c: DeviceConfigView, usb: Seq<UsbChannelView>) -> bool {
    let kind = kind_of(c);
    kind != "PCAN"@ && (usb_of(c, usb) is Some || text::has_part(kind, "USBCANFD"@)
        || text::has_part(kind, "USBCAN"@) || kind == "GCAN"@ || kind == "ZHCX"@ || kind
        == "ZHCXCAN"@)
}

/// The identity of the adapter of a channel: the one that is kept, or that of the attached one.
pub open spec fn identity_of(
    c: DeviceConfigView,
    pcan: Seq<PcanChannelView>,
    usb: Seq<UsbChannelView>,
) -> Seq<char> {
    if c.hardware_id.len() > 0 {
        c.hardware_id
    } else {
        match pcan_of(c, pcan) {
            Some(i) => pcan_identity(pcan[i]),
            None => match usb_of(c, usb) {
                Some(i) => usb_identity(usb[i]),
                None => seq![],
            },
        }
    }
}

/// What is said of the adapter of a channel.
pub open spec fn state_text(attached: bool, known: bool, english: bool) -> Seq<char> {
    if attached {
        if english {
            "Detected and matched"@
        } else {
            "已检测并匹配"@
        }
    } else if !known {
        if english {
            "Manual mapping; verify indices before connecting"@
        } else {
            "手动映射，连接前请核对索引"@
        }
    } else if english {
        "Saved hardware is currently offline"@
    } else {
        "已保存的硬件当前不在线"@
    }
}

/// The rates that a form offers.
pub open spec fn rates(pcan: bool, fd: bool) -> Seq<Seq<char>> {
    if fd {
        seq!["1M"@, "800K"@, "500K"@, "250K"@, "125K"@]
    } else if pcan {
        seq!["1M"@, "500K"@, "250K"@, "125K"@]
    } else {
        seq![
            "1M"@,
            "800K"@,
            "500K"@,
            "250K"@,
            "125K"@,
            "100K"@,
            "50K"@,
            "20K"@,
            "10K"@,
            "5K"@,
        ]
    }
}

/// The words of some texts.
pub open spec fn word_list(v: Seq<&'static str>) -> Seq<Seq<char>> {
    v.map_values(|s: &'static str| s@)
}

fn arbitration_rates(pcan: bool, fd: bool) -> (r: Vec<&'static str>)
    ensures
        word_list(r@) == rates(pcan, fd),
{
    let mut out: Vec<&'static str> = Vec::new();
    out.push("1M");
    if fd || !pcan {
        out.push("800K");
    }
    out.push("500K");
    out.push("250K");
    out.push("125K");
    if !fd && !pcan {
        out.push("100K");
        out.push("50K");
        out.push("20K");
        out.push("10K");
        out.push("5K");
    }
    assert(word_list(out@) =~= rates(pcan, fd));
    out
}

/// The rates of the data phase that a form offers.
pub fn data_rates() -> (r: Vec<&'static str>)
    ensures
        word_list(r@) == seq![
            "8M"@,
            "5M"@,
            "4M"@,
            "2M"@,
            "1M"@,
            "800K"@,
            "500K"@,
            "250K"@,
            "125K"@,
        ],
{
    let mut out: Vec<&'static str> = Vec::new();
    out.push("8M");
    out.push("5M");
    out.push("4M");
    out.push("2M");
    out.push("1M");
    out.push("800K");
    out.push("500K");
    out.push("250K");
    out.push("125K");
    assert(word_list(out@) =~= seq![
        "8M"@,
        "5M"@,
        "4M"@,
        "2M"@,
        "1M"@,
        "800K"@,
        "500K"@,
        "250K"@,
        "125K"@,
    ]);
    out
}

fn find_pcan_of(c: &DeviceConfig, kind: &str, pcan: &[PcanChannelInfo]) -> (r: Option<usize>)
    requires
        kind@ == kind_of(c@),
    ensures
        match r {
            Some(i) => pcan_of(c@, pcan_view(pcan@)) == Some(i as int) && i < pcan@.len(),
            None => pcan_of(c@, pcan_view(pcan@)) is None,
        },
{
    let ghost flags = pcan_view(pcan@).map_values(|hw: PcanChannelView| pcan_matches(c@, hw));
    let mut i: usize = 0;
    while i < pcan.len()
        invariant
            i <= pcan@.len(),
            kind@ == kind_of(c@),
            flags == pcan_view(pcan@).map_values(|hw: PcanChannelView| pcan_matches(c@, hw)),
            first_set(flags, 0) == first_set(flags, i as int),
        decreases pcan@.len() - i,
    {
        let hw = &pcan[i];
        assert(flags[i as int] == pcan_matches(c@, hw@));
        let id = pcan_hardware_id(hw);
        if (!c.hardware_id.as_str().is_empty() && text::same_text(
            c.hardware_id.as_str(),
            id.as_str(),
        )) || (text::same_text(kind, "PCAN") && hw.channel_index == c.channel_index) {
            return Some(i);
        }
        i += 1;
    }
    None
}

fn find_usb_of(c: &DeviceConfig, usb: &[ZcanUsbChannelInfo]) -> (r: Option<usize>)
    ensures
        match r {
            Some(i) => usb_of(c@, usb_view(usb@)) == Some(i as int) && i < usb@.len(),
            None => usb_of(c@, usb_view(usb@)) is None,
        },
{
    let ghost flags = usb_view(usb@).map_values(|hw: UsbChannelView| usb_matches(c@, hw));
    let mut i: usize = 0;
    while i < usb.len()
        invariant
            i <= usb@.len(),
            flags == usb_view(usb@).map_values(|hw: UsbChannelView| usb_matches(c@, hw)),
            first_set(flags, 0) == first_set(flags, i as int),
        decreases usb@.len() - i,
    {
        let hw = &usb[i];
        assert(flags[i as int] == usb_matches(c@, hw@));
        let id = zcan_hardware_id(hw);
        if (!c.hardware_id.as_str().is_empty() && text::same_text(
            c.hardware_id.as_str(),
            id.as_str(),
        )) || (text::same_ignoring_case(hw.device_type.as_str(), c.device_type.as_str())
            && hw.device_index == c.device_index && hw.channel_index == c.channel_index) {
            return Some(i);
        }
        i += 1;
    }
    None
}

/// The form of a channel.
pub fn set_chan_form(
    c: &DeviceConfig,
    pcan: &[PcanChannelInfo],
    usb: &[ZcanUsbChannelInfo],
    english: bool,
) -> (r: ChannelForm)
    ensures
        ({
            let p = pcan_view(pcan@);
            let u = usb_view(usb@);
            let kind = kind_of(c@);
            &&& r.supports_fd == can_fd(c@, p, u)
            &&& r.supports_termination == text::has_part(kind, "USBCANFD"@)
            &&& r.supports_listen_only == can_listen_only(c@, u)
            &&& r.supports_non_iso == (can_fd(c@, p, u) && kind != "PCAN"@)
            &&& r.manual_mode == (c@.hardware_id.len() == 0)
            &&& r.identity@ == identity_of(c@, p, u)
            &&& r.state@ == state_text(
                pcan_of(c@, p) is Some || usb_of(c@, u) is Some,
                identity_of(c@, p, u).len() > 0,
                english,
            )
            &&& word_list(r.arbitration@) == rates(kind == "PCAN"@, can_fd(c@, p, u))
            &&& r.shown_index == c.channel_index + 1
        }),
{
    let bare = text::trimmed(c.device_type.as_str());
    let kind = text::to_upper(bare.as_str());
    let k = kind.as_str();
    let detected_pcan = find_pcan_of(c, k, pcan);
    let detected_usb = find_usb_of(c, usb);
    let is_pcan: bool = text::same_text(k, "PCAN");
    let is_zlg_fd: bool = text::contains_text(k, "USBCANFD");
    let supports_fd: bool = match detected_pcan {
        Some(i) => {
            assert(pcan_view(pcan@)[i as int] == pcan@[i as int]@);
            pcan[i].fd_capable
        },
        None => match detected_usb {
            Some(i) => {
                assert(usb_view(usb@)[i as int] == usb@[i as int]@);
                usb[i].fd_capable
            },
            None => is_zlg_fd || text::contains_text(k, "CANFDNET") || text::contains_text(
                k,
                "CANFDWIFI",
            ) || c.is_fd,
        },
    };
    let supports_listen_only: bool = !is_pcan && (detected_usb.is_some() || is_zlg_fd
        || text::contains_text(k, "USBCAN") || text::same_text(k, "GCAN") || text::same_text(
        k,
        "ZHCX",
    ) || text::same_text(k, "ZHCXCAN"));
    let manual_mode: bool = c.hardware_id.as_str().is_empty();
    let identity = if !manual_mode {
        c.hardware_id.clone()
    } else {
        match detected_pcan {
            Some(i) => {
                assert(pcan_view(pcan@)[i as int] == pcan@[i as int]@);
                pcan_hardware_id(&pcan[i])
            },
            None => match detected_usb {
                Some(i) => {
                    assert(usb_view(usb@)[i as int] == usb@[i as int]@);
                    zcan_hardware_id(&usb[i])
                },
                None => {
                    let none = String::new();
                    assert(none@ =~= seq![]);
                    none
                },
            },
        }
    };
    let known: bool = !identity.as_str().is_empty();
    let state: &'static str = if detected_pcan.is_some() || detected_usb.is_some() {
        if english {
            "Detected and matched"
        } else {
            "已检测并匹配"
        }
    } else if !known {
        if english {
            "Manual mapping; verify indices before connecting"
        } else {
            "手动映射，连接前请核对索引"
        }
    } else if english {
        "Saved hardware is currently offline"
    } else {
        "已保存的硬件当前不在线"
    };
    ChannelForm {
        supports_fd,
        supports_termination: is_zlg_fd,
        supports_listen_only,
        supports_non_iso: supports_fd && !is_pcan,
        manual_mode,
        identity,
        state,
        arbitration: arbitration_rates(is_pcan, supports_fd),
        shown_index: c.channel_index as u64 + 1,
    }
}

} // verus!
