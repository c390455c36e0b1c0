//! Laws on finding adapters, opening them and starting them again.
use crate::can::pcan::{PcanChannelInfo, PcanChannelView};
use crate::can::vci::{DriverCall, VciBus};
use crate::can::vci_setup::{SetupCall, SetupNext};
use crate::can::zcan_bus::ZcanOpening;
use crate::can::zcan_scan::{
    next_scan_index, scanned_channels, until_zero, UsbChannelView, VciProbe, ZcanScan,
    ZcanUsbChannelInfo,
};
use crate::can::zcan_setup::{RecoveryNext, ZcanCall, ZcanOpenNext, ZcanRecovery};
use crate::can::{DeviceConfig, DeviceConfigView, PollReport};
use crate::workbench::channel_form::{set_chan_form, ChannelForm};
use crate::workbench::hardware_rows::{pcan_row, usb_row};
use vstd::prelude::*;

verus! {

// ---------------------------------------------------------------- starting channels

/// A channel is set up with its own timing, then started, then emptied; one that is set up again is
/// reset first. A call that does not succeed ends it, but for the last.
pub proof fn law_channels_are_set_up_in_order(
    bus: &VciBus,
    recovering: bool,
    first: SetupCall,
    made: SetupCall,
    answer: DriverCall,
    r: SetupNext,
)
    requires
        call_ensures(VciBus::begin_setup, (bus, recovering), first),
        call_ensures(VciBus::after_setup_call, (bus, recovering, made, answer), r),
    ensures
        recovering <==> first is Reset,
        first matches SetupCall::Init(s) ==> s.timing0 == bus.timing0 && s.timing1 == bus.timing1 && (
        s.mode == 1 <==> bus.listen_only),
        answer == DriverCall::Returned(1) && made is Reset ==> (r matches SetupNext::Call(
            SetupCall::Init(s),
        ) && s.timing0 == bus.timing0 && s.timing1 == bus.timing1),
        answer == DriverCall::Returned(1) && made is Init ==> r == SetupNext::Call(SetupCall::Start),
        answer == DriverCall::Returned(1) && made is Start ==> r == SetupNext::Call(
            SetupCall::ClearBuffer,
        ),
        made is ClearBuffer ==> (r matches SetupNext::Ended(e) && e is Ok),
        answer != DriverCall::Returned(1) && !(made is ClearBuffer) ==> (r matches SetupNext::Ended(e)
            && e is Err),
{
}

/// A channel that was restarted is fine only where each of its three calls succeeded.
pub proof fn law_restarts_need_every_call(
    report: PollReport,
    begun: ZcanRecovery,
    a: DriverCall,
    first: RecoveryNext,
    b: DriverCall,
    second: RecoveryNext,
    c: DriverCall,
    third: RecoveryNext,
)
    requires
        call_ensures(ZcanRecovery::begin, (report,), begun),
        call_ensures(ZcanRecovery::answered, (begun, a), first),
        first matches RecoveryNext::Call(s) && call_ensures(ZcanRecovery::answered, (s, b), second),
        second matches RecoveryNext::Call(s) && call_ensures(ZcanRecovery::answered, (s, c), third),
    ensures
        begun.call is Reset,
        first matches RecoveryNext::Call(s) && s.call is Clear && (s.fine <==> a
            == DriverCall::Returned(1)),
        second matches RecoveryNext::Call(s) && s.call is Start && (s.fine <==> a
            == DriverCall::Returned(1) && b == DriverCall::Returned(1)),
        third is Done,
{
}

/// A channel is initialised before it is started; a device that is not online, a call that is missing
/// and a setting that is needed and refused end the opening.
pub proof fn law_openings_end_at_a_fault(
    o: &ZcanOpening,
    first: ZcanCall,
    made: ZcanCall,
    answer: DriverCall,
    r: ZcanOpenNext,
)
    requires
        call_ensures(ZcanOpening::begin, (o,), first),
        call_ensures(ZcanOpening::after_call, (o, made, answer), r),
    ensures
        o.properties@.len() > 0 ==> first == ZcanCall::SetProperty(0),
        made is Initialize && answer == DriverCall::Returned(0) ==> r is Failed,
        made is Initialize && (answer matches DriverCall::Returned(v) && v != 0) ==> r
            == ZcanOpenNext::Call(ZcanCall::Reset),
        made is Clear && o.termination is Some ==> r == ZcanOpenNext::Call(ZcanCall::Terminate),
        made is Clear && o.termination is None ==> r == ZcanOpenNext::Call(ZcanCall::Start),
        made is Start && answer == DriverCall::Returned(1) ==> r == ZcanOpenNext::Call(
            ZcanCall::ClearStarted,
        ),
        made is Start && (answer matches DriverCall::Returned(v) && v != 1) ==> r
            == ZcanOpenNext::Call(ZcanCall::ResetUnstarted),
        made is ResetUnstarted ==> r is Failed,
        made is QueryOnline ==> (r is Opened <==> answer != DriverCall::Returned(0)),
        made matches ZcanCall::SetProperty(i) ==> i < o.properties@.len() && o.properties@[i as int].required
            && answer == DriverCall::Returned(0) ==> r is Failed,
        made matches ZcanCall::SetProperty(i) ==> i + 1 < o.properties@.len() && answer
            == DriverCall::Returned(1) ==> r == ZcanOpenNext::Call(
            ZcanCall::SetProperty((i + 1) as usize),
        ),
        r is Opened ==> made is QueryOnline,
{
}

// ---------------------------------------------------------------- finding adapters

/// A text in a field ends before its first zero.
pub proof fn law_fields_end_at_a_zero(bytes: Seq<u8>)
    ensures
        until_zero(bytes).len() <= bytes.len(),
        until_zero(bytes) == bytes.take(until_zero(bytes).len() as int),
        forall|i: int| 0 <= i < until_zero(bytes).len() ==> #[trigger] bytes[i] != 0,
        until_zero(bytes).len() < bytes.len() ==> bytes[until_zero(bytes).len() as int] == 0,
    decreases bytes.len(),
{
    let u = until_zero(bytes);
    if bytes.len() > 0 && bytes[0] != 0 {
        let rest = bytes.drop_first();
        law_fields_end_at_a_zero(rest);
        let n = u.len() as int;
        assert(u =~= bytes.take(n)) by {
            assert forall|i: int| 0 < i < n implies u[i] == bytes[i] by {
                assert(u[i] == until_zero(rest)[i - 1]);
                assert(rest.take(n - 1)[i - 1] == rest[i - 1]);
            }
        }
        assert forall|i: int| 0 <= i < n implies #[trigger] bytes[i] != 0 by {
            if i > 0 {
                assert(rest[i - 1] == bytes[i]);
            }
        }
        if n < bytes.len() {
            assert(rest[n - 1] == bytes[n]);
        }
    } else {
        assert(u =~= bytes.take(0));
    }
}

/// A device that is found offers each of its channels, one at least, under their own numbers.
pub proof fn law_devices_offer_their_channels(scan: ZcanScan, i: int)
    requires
        0 <= i < scan.info.can_num,
    ensures
        scanned_channels(scan).len() == scan.info.can_num,
        scanned_channels(scan)[i].channel_index == i,
        scanned_channels(scan)[i].device_index == scan.device_index,
        scanned_channels(scan)[i].fd_capable <==> scan.profile.family is UsbCanFd,
{
}

/// Eight devices of a kind are looked for, as long as each was there; the second is looked for in
/// any case.
pub proof fn law_devices_are_looked_for(index: u32, opened: bool, r: Option<u32>)
    requires
        call_ensures(next_scan_index, (index, opened), r),
    ensures
        r matches Some(n) ==> n == index + 1 && n <= 7,
        r is None <==> index >= 7 || index > 0 && !opened,
{
}

/// The search for older devices ends after eight, or after two in a row that were not there.
pub proof fn law_older_devices_are_looked_for(
    p: &mut VciProbe,
    opened: bool,
    w: Option<u32>,
    after: VciProbe,
    next: Option<u32>,
)
    requires
        call_ensures(VciProbe::wanted, (&*old(p),), w),
        w is Some,
        call_ensures(VciProbe::answer, (p, opened), ()),
        after == *final(p),
        call_ensures(VciProbe::wanted, (&after,), next),
    ensures
        next matches Some(n) ==> n == w->0 + 1 && n < 8,
        opened && w->0 < 7 ==> next is Some,
        !opened && old(p).misses == 1 ==> next is None,
        !opened && old(p).misses == 0 && w->0 < 7 ==> next is Some,
{
}

/// A row of the hardware list says of its channel whether it is in the list of channels already; a
/// PEAK channel that is taken by another program cannot be added.
pub proof fn law_rows_tell_what_is_added(
    hw: PcanChannelView,
    usb: UsbChannelView,
    source: int,
    channels: Seq<DeviceConfigView>,
    english: bool,
    i: int,
)
    requires
        0 <= i < channels.len(),
    ensures
        channels[i].hardware_id.len() > 0 && channels[i].hardware_id
            == crate::workbench::hardware::pcan_identity(hw) ==> pcan_row(hw, source, channels, english).added,
        channels[i].hardware_id.len() > 0 && channels[i].hardware_id
            == crate::workbench::hardware::usb_identity(usb) ==> usb_row(usb, source, channels).added,
        pcan_row(hw, source, channels, english).enabled <==> hw.channel_condition == 1 || pcan_row(
            hw,
            source,
            channels,
            english,
        ).added,
        usb_row(usb, source, channels).enabled,
        pcan_row(hw, source, channels, english).source == source && usb_row(usb, source, channels).source
            == source,
        pcan_row(hw, source, Seq::empty(), english).added == false && usb_row(usb, source, Seq::empty()).added
            == false,
{
}

/// The form of a channel offers what its hardware can do: a PEAK channel neither listens only nor
/// leaves the ISO format.
pub proof fn law_forms_offer_what_there_is(
    c: &DeviceConfig,
    pcan: &[PcanChannelInfo],
    usb: &[ZcanUsbChannelInfo],
    english: bool,
    r: ChannelForm,
)
    requires
        call_ensures(set_chan_form, (c, pcan, usb, english), r),
    ensures
        crate::text::upper(crate::text::trim(c.device_type@)) == "PCAN"@ ==> !r.supports_listen_only
            && !r.supports_non_iso,
        r.supports_non_iso ==> r.supports_fd,
        c.hardware_id@.len() > 0 ==> r.identity@ == c.hardware_id@ && !r.manual_mode,
        c.hardware_id@.len() == 0 ==> r.manual_mode,
        r.shown_index == c.channel_index + 1,
        pcan@.len() == 0 && usb@.len() == 0 && c.is_fd ==> r.supports_fd,
{
    if pcan@.len() == 0 && usb@.len() == 0 {
        let p = crate::workbench::channels::pcan_view(pcan@);
        let u = crate::workbench::hardware::usb_view(usb@);
        assert(p.len() == 0 && u.len() == 0);
    }
}

} // verus!
