//! Laws on what is told of frames, requests and adapters, and on what things begin as.
use crate::can::adapters::effective_channel;
use crate::can::controller::Controller;
use crate::can::pcan::{
    attached_channels, pcan_channel_index, pcan_poll_error, usb_channel_handle, usb_channel_index,
};
use crate::can::pcan_ffi::TPCANChannelInformation;
use crate::can::playback::Playback;
use crate::can::queue::EventSender;
use crate::can::vci::{DriverCall, VciBus, VciStep};
use crate::can::zcan_bus::{receive_request, ZcanFdBus, ZcanStep};
use crate::can::zlg_ffi::VCI_CAN_STATUS;
use crate::can::{CanFrame, DeviceConfig, Evt, PollReport, TimestampHealth};
use crate::modbus::adu::{frame_summary, unit_details};
use crate::modbus::commands::{longest, sample_heads, sample_line, sample_lines};
use crate::modbus::grid::counts_up;
use crate::modbus::master::{flatten_unit, Reply};
use crate::modbus::scan::{probe, ScanErr};
use crate::modbus::slave::SlaveService;
use crate::modbus::store::{window_bool, window_u16};
use crate::modbus::windows::Transport;
use crate::modbus::{Area, SimMode, WriteFunc};
use crate::text;
use crate::workbench::curves::{chart_full_range, Series};
use crate::workbench::message_rows::{trace_limit, MsgRow};
use crate::workbench::project::device_in_use;
use crate::workbench::scripts::{result_code, ScriptRun};
use crate::workbench::signals::{make_signal_row, Decoded};
use crate::workbench::snapshot::last_log;
use crate::workbench::status::{playback_status, project_name, LossState};
use crate::workbench::stress::accounted;
use vstd::prelude::*;

verus! {

// ---------------------------------------------------------------- adapters

/// The sixteen USB channels of PEAK have handles of their own, and each handle leads back to its
/// channel.
pub proof fn law_handles_lead_back(index: u32, handle: u16, r: Option<u32>)
    requires
        call_ensures(pcan_channel_index, (handle,), r),
    ensures
        usb_channel_handle(index) is Some <==> index < 16,
        index < 16 ==> usb_channel_index(usb_channel_handle(index)->0) == Some(index),
        r is Some ==> usb_channel_handle(r->0) == Some(handle),
        r is None ==> usb_channel_handle(index) != Some(handle),
        usb_channel_handle(0) == Some(0x51u16),
{
}

/// A channel that the driver lists is told with its number, its device and its state, and no other
/// is.
pub proof fn law_listed_channels_are_told(raw: Seq<TPCANChannelInformation>, i: int) -> (k: int)
    requires
        0 <= i < raw.len(),
        usb_channel_index(raw[i].channel_handle) is Some,
    ensures
        0 <= k <= i,
        k < attached_channels(raw).len(),
        attached_channels(raw)[k].channel_index == usb_channel_index(raw[i].channel_handle)->0,
        attached_channels(raw)[k].device_id == raw[i].device_id,
        attached_channels(raw)[k].channel_condition == raw[i].channel_condition,
        attached_channels(raw)[k].fd_capable <==> raw[i].device_features % 2 == 1,
    decreases raw.len(),
{
    lemma_listed_are_few(raw.drop_last());
    if i == raw.len() - 1 {
        let f = raw[i].device_features;
        assert(f & 0x01 != 0 <==> f % 2 == 1) by (bit_vector);
        attached_channels(raw).len() - 1
    } else {
        law_listed_channels_are_told(raw.drop_last(), i)
    }
}

proof fn lemma_listed_are_few(raw: Seq<TPCANChannelInformation>)
    ensures
        attached_channels(raw).len() <= raw.len(),
    decreases raw.len(),
{
    if raw.len() > 0 {
        lemma_listed_are_few(raw.drop_last());
    }
}

/// A read that fails is an error; it is a lost connection where the hardware is illegal, the driver
/// is gone or the channel was never initialised, and an overrun where a queue or the controller ran
/// over.
pub proof fn law_failed_reads_are_told(status: u32, r: PollReport)
    requires
        call_ensures(pcan_poll_error, (status,), r),
    ensures
        r.driver_errors == 1 && r.message is Some,
        r.connection_lost <==> status == 0x1400 || status / 0x200 % 2 == 1 || status / 0x400_0000 % 2
            == 1,
        status / 0x40 % 2 == 1 || status / 2 % 2 == 1 ==> r.receive_overruns == 1,
        status / 0x40 % 2 == 0 && status / 2 % 2 == 0 ==> r.receive_overruns == 0,
{
    assert(status & 0x200 != 0 <==> status / 0x200 % 2 == 1) by (bit_vector);
    assert(status & 0x400_0000 != 0 <==> status / 0x400_0000 % 2 == 1) by (bit_vector);
    assert(status & (0x40u32 | 0x2u32) != 0 <==> status / 0x40 % 2 == 1 || status / 2 % 2 == 1)
        by (bit_vector);
}

/// A device that is gone ends the watch with a lost connection; one that is there is asked for its
/// status.
pub proof fn law_missing_devices_are_told(
    b: &VciBus,
    found: Option<bool>,
    l: VciStep,
    present: Result<(), String>,
    p: VciStep,
    s: VCI_CAN_STATUS,
    d: VciStep,
)
    requires
        call_ensures(VciBus::after_lookup, (b, found), l),
        call_ensures(VciBus::after_presence, (b, present), p),
        call_ensures(VciBus::after_doubtful_status, (b, Ok(Some(s))), d),
    ensures
        found == Some(false) <==> l is Done,
        l matches VciStep::Done(report) ==> report.connection_lost,
        present is Ok ==> p is ReadStatus,
        present is Err ==> (p matches VciStep::Done(report) && report.connection_lost),
        d matches VciStep::Done(report) ==> report.connection_lost,
        d is Done <==> s.reg_status == 0 && s.reg_re_counter == 0 && s.reg_te_counter == 0,
{
}

/// A fast device that is offline is a lost connection; one that is online is asked for its errors. No
/// more than 256 frames are fetched at once.
pub proof fn law_offline_devices_are_told(
    b: &ZcanFdBus,
    answer: u32,
    r: ZcanStep,
    available: u32,
    n: Option<u32>,
)
    requires
        call_ensures(ZcanFdBus::after_online, (b, DriverCall::Returned(answer)), r),
        call_ensures(receive_request, (available,), n),
    ensures
        answer == 0 ==> (r matches ZcanStep::Done(report) && report.connection_lost),
        answer != 0 ==> r is QueryErrors,
        n is Some <==> available < u32::MAX,
        n is Some && available <= 256 ==> n->0 == available,
        n is Some && available > 256 ==> n->0 == 256,
{
}

/// Channel zero stands for the first.
pub proof fn law_channels_count_from_one(ch: u8, r: u8)
    requires
        call_ensures(effective_channel, (ch,), r),
    ensures
        r >= 1,
        ch >= 1 ==> r == ch,
        ch == 0 ==> r == 1,
{
}

/// A recording that was loaded stands at its beginning and waits, at its own pace and off the bus.
pub proof fn law_recordings_wait_at_their_beginning(frames: Vec<CanFrame>, now: u64, p: Playback)
    requires
        call_ensures(Playback::load, (frames, now), p),
    ensures
        p.frames == frames && p.idx == 0,
        !p.playing && !p.paused && !p.online && !p.loop_play,
        p.speed_ppm == 1_000_000,
{
}

/// While frames come or go the controller rests for a millisecond, else for ten.
pub proof fn law_the_controller_rests(c: &Controller, replaying: bool, r: u64)
    requires
        call_ensures(Controller::pause_millis, (c, replaying), r),
    ensures
        r == 1 <==> c.running || replaying,
        r == 10 <==> !c.running && !replaying,
{
}

// ---------------------------------------------------------------- frames of the protocol

/// The summary of a request tells its address and how many entries it asks for, whatever the
/// direction of the bytes before; on a serial line it does not depend on the checksum.
pub proof fn law_summaries_tell_the_request(
    fc: u8,
    a: u16,
    n: u16,
    x: Seq<u8>,
    y: Seq<u8>,
    is_tx: bool,
)
    requires
        x.len() == y.len(),
        x.len() >= 4,
        forall|i: int| 0 <= i < x.len() - 2 ==> #[trigger] x[i] == y[i],
    ensures
        1 <= fc <= 4 || fc == 15 || fc == 16 ==> unit_details(
            true,
            fc,
            seq![(a / 256) as u8, (a % 256) as u8, (n / 256) as u8, (n % 256) as u8],
        ) == " addr="@ + text::decimal(a as nat) + " qty="@ + text::decimal(n as nat),
        fc == 5 || fc == 6 ==> unit_details(
            true,
            fc,
            seq![(a / 256) as u8, (a % 256) as u8, (n / 256) as u8, (n % 256) as u8],
        ) == " addr="@ + text::decimal(a as nat) + " val=0x"@ + text::hex_padded(n as nat, 4),
        frame_summary(is_tx, x, false) == frame_summary(is_tx, y, false),
        frame_summary(is_tx, x, false) is Some,
{
    let p = seq![(a / 256) as u8, (a % 256) as u8, (n / 256) as u8, (n % 256) as u8];
    assert(crate::modbus::adu::lenient16(p, 0) == a);
    assert(crate::modbus::adu::lenient16(p, 2) == n);
    assert(" addr="@ + text::decimal(a as nat) + " qty="@ + text::decimal(n as nat)
        =~= crate::modbus::adu::field(" addr="@, a) + crate::modbus::adu::field(" qty="@, n));
    assert(" addr="@ + text::decimal(a as nat) + " val=0x"@ + text::hex_padded(n as nat, 4)
        =~= crate::modbus::adu::field(" addr="@, a) + crate::modbus::adu::hex_field(" val=0x"@, n));
    assert(x.subrange(1, x.len() - 2) =~= y.subrange(1, y.len() - 2));
}

/// A part of a table is shown from its beginning on, as far as the table goes.
pub proof fn law_parts_of_tables_are_shown(
    bits: &[bool],
    words: &[u16],
    start: usize,
    qty: usize,
    b: Vec<bool>,
    w: Vec<u16>,
    i: int,
)
    requires
        start + qty <= usize::MAX,
        call_ensures(window_bool, (bits, start, qty), b),
        call_ensures(window_u16, (words, start, qty), w),
        0 <= i < qty,
    ensures
        start + i < bits@.len() <==> i < b@.len(),
        start + i < words@.len() <==> i < w@.len(),
        i < b@.len() ==> b@[i] == bits@[start + i],
        i < w@.len() ==> w@[i] == words@[start + i],
        b@.len() <= qty && w@.len() <= qty,
{
}

/// A probe that was answered tells the value; one that was refused, failed or not answered tells
/// which.
pub proof fn law_probes_tell_what_came_back(
    area: Area,
    reply: Reply,
    r: Result<String, ScanErr>,
    f: Result<(), String>,
)
    requires
        call_ensures(probe, (area, reply), r),
        call_ensures(flatten_unit, (&reply,), f),
    ensures
        r is Ok <==> reply is Regs || reply is Bits,
        f is Ok <==> reply is Regs || reply is Bits,
        reply is Exception ==> (r matches Err(e) && e is Exception),
        reply is Timeout ==> (r matches Err(e) && e is Timeout),
        reply matches Reply::Failed(m) ==> (r matches Err(ScanErr::Io(e)) && e@ == m@),
{
}

/// Servers on a network share their line with no one and may answer for any unit; those on a serial
/// line, real or carried, answer for their own.
pub proof fn law_services_fit_their_line(t: &Transport, unit_id: u8, ignore: bool, s: SlaveService)
    requires
        call_ensures(Transport::service, (t, unit_id, ignore), s),
    ensures
        s.unit_id == unit_id,
        s.tcp <==> t is Tcp || t is Udp,
        t is RtuOverTcp || t is RtuOverUdp ==> !s.ignore_unit_id,
        !(t is RtuOverTcp || t is RtuOverUdp) ==> s.ignore_unit_id == ignore,
{
}

/// What the user chooses by place is what stands at that place.
pub proof fn law_choices_mean_their_place(
    i: i32,
    m: SimMode,
    w: WriteFunc,
    choice: i32,
    limit: usize,
)
    requires
        call_ensures(SimMode::from_index, (i,), m),
        call_ensures(WriteFunc::from_index, (i,), w),
        call_ensures(trace_limit, (choice,), limit),
    ensures
        m is Increment <==> i == 1,
        m is Decrement <==> i == 2,
        m is Random <==> i == 3,
        m is Toggle <==> i == 4,
        w is SingleCoil <==> i == 0,
        w is MultiCoils <==> i == 2,
        w is MultiRegs <==> i == 3,
        limit == 750 <==> choice == 1,
        limit == 1500 <==> choice == 2,
        limit == 300 <==> choice != 1 && choice != 2,
{
}

/// An entry counts up if its own table and address are marked.
pub proof fn law_marked_entries_count_up(marked: &[(Area, u16)], area: Area, address: u16, r: bool)
    requires
        call_ensures(counts_up, (marked, area, address), r),
    ensures
        r <==> exists|i: int| 0 <= i < marked@.len() && #[trigger] marked@[i] == (area, address),
{
}

// ---------------------------------------------------------------- exported curves

/// The longest of some curves is as long as one of them, and none is longer.
pub proof fn law_the_longest_curve_counts(series: Seq<Seq<Seq<char>>>, i: int)
    requires
        0 <= i < series.len(),
    ensures
        series[i].len() <= longest(series),
        exists|k: int| 0 <= k < series.len() && (#[trigger] series[k]).len() == longest(series),
    decreases series.len(),
{
    let rest = series.drop_last();
    if rest.len() > 0 {
        law_the_longest_curve_counts(rest, 0);
        let k = choose|k: int| 0 <= k < rest.len() && (#[trigger] rest[k]).len() == longest(rest);
        assert(series[k] == rest[k]);
        if i < rest.len() {
            law_the_longest_curve_counts(rest, i);
            assert(rest[i] == series[i]);
        }
    } else {
        assert(longest(rest) == 0);
    }
    if series.last().len() > longest(rest) || rest.len() == 0 {
        assert(series[series.len() - 1].len() == longest(series));
    }
}

/// A line of the exported curves is the number of its sample and the sample of each curve; one that
/// a curve does not have is left empty.
pub proof fn law_samples_stand_in_their_line(
    addrs: Seq<u16>,
    a: u16,
    series: Seq<Seq<Seq<char>>>,
    row: int,
    k: int,
)
    requires
        0 <= row,
        0 < k <= series.len(),
    ensures
        sample_line(row, series, 0) == text::decimal(row as nat),
        row < series[k - 1].len() ==> sample_line(row, series, k) == sample_line(row, series, k - 1)
            + ","@ + series[k - 1][row],
        row >= series[k - 1].len() ==> sample_line(row, series, k) == sample_line(row, series, k - 1)
            + ","@,
        sample_lines(series, row + 1) == sample_lines(series, row) + sample_line(
            row,
            series,
            series.len() as int,
        ) + "\n"@,
        sample_heads(addrs.push(a)) == sample_heads(addrs) + ",@"@ + text::decimal(a as nat),
{
    assert(addrs.push(a).drop_last() =~= addrs);
    if row >= series[k - 1].len() {
        assert(sample_line(row, series, k) =~= sample_line(row, series, k - 1) + ","@);
    }
}

// ---------------------------------------------------------------- the workbench

/// The whole of some curves reaches from their first sample to their last; hidden ones do not count.
pub proof fn law_charts_show_their_samples(series: &[Series], r: (i64, i64), i: int, k: int)
    requires
        call_ensures(chart_full_range, (series,), r),
        0 <= i < series@.len(),
        series@[i].visible,
        0 <= k < series@[i].samples@.len(),
    ensures
        r.0 <= series@[i].samples@[k].0 <= r.1,
{
    assert(crate::workbench::curves::has_time(series@, series@[i].samples@[k].0));
}

/// A replay is told to be done only at its end and at rest, and to run only while it runs.
pub proof fn law_replays_are_told(pos: usize, total: usize, playing: bool, r: &'static str)
    requires
        call_ensures(playback_status, (pos, total, playing, true), r),
    ensures
        r@ == "Playing"@ <==> total > 0 && playing,
        r@ == "Done"@ <==> total > 0 && !playing && pos >= total,
        r@ == "No file loaded"@ <==> total == 0,
{
    reveal_strlit("Playing");
    reveal_strlit("Done");
    reveal_strlit("No file loaded");
    reveal_strlit("Ready / Paused");
    assert("Playing"@.len() == 7 && "Done"@.len() == 4);
    assert("No file loaded"@[0] == 'N' && "Ready / Paused"@[0] == 'R');
}

/// A script has passed where its status begins so, has failed where it begins so, and else has no
/// result; its log is due once it is over and has something new.
pub proof fn law_results_are_told(status: &str, r: i32, s: &ScriptRun, due: bool)
    requires
        call_ensures(result_code, (status,), r),
        call_ensures(ScriptRun::log_due, (s,), due),
    ensures
        r == 1 <==> text::has_prefix(status@, "PASS"@),
        r == -1 ==> text::has_prefix(status@, "FAIL"@),
        r == 0 <==> !text::has_prefix(status@, "PASS"@) && !text::has_prefix(status@, "FAIL"@),
        due <==> s.dirty && !s.running,
{
}

/// A row of a signal shows its own name and place, and that it is out of its range; a branch that is
/// not selected is told as such.
pub proof fn law_signals_have_their_row(s: &Decoded, valid: bool, row: MsgRow)
    requires
        call_ensures(make_signal_row, (s, valid), row),
    ensures
        row.signal_name@ == s.name@,
        row.signal_out_of_range == s.out_of_range,
        row.is_signal && !row.can_expand,
        row.comment@ == "MuxInactive"@ <==> !s.mux_active && s.mux_value is Some,
        row.comment@ == "Normal"@ <==> !(!s.mux_active && s.mux_value is Some) && !s.out_of_range,
        row.name@.skip(2) == s.name@,
{
    reveal_strlit("MuxInactive");
    reveal_strlit("Normal");
    reveal_strlit("OutOfRange");
    reveal_strlit("  ");
    assert("MuxInactive"@.len() == 11 && "Normal"@.len() == 6 && "OutOfRange"@.len() == 10);
    assert(row.name@.skip(2) =~= s.name@);
}

/// The state of the capture is told with each count in its own place.
pub proof fn law_counts_stand_in_their_place(
    e: &EventSender,
    overruns: u64,
    errors: u64,
    depth: usize,
    rejected: u64,
    command_depth: usize,
    mark: usize,
    timestamp: TimestampHealth,
    r: Evt,
)
    requires
        call_ensures(
            EventSender::health_event,
            (e, overruns, errors, depth, rejected, command_depth, mark, timestamp),
            r,
        ),
    ensures
        r == (Evt::CaptureHealth {
            dropped_frames: e.dropped_frames,
            dropped_events: e.dropped_events,
            hardware_overruns: overruns,
            hardware_errors: errors,
            queue_depth: depth,
            queue_capacity: 1024,
            queue_high_watermark: e.high_watermark,
            command_rejected: rejected,
            command_queue_depth: command_depth,
            command_queue_capacity: 512,
            command_queue_high_watermark: mark,
            timestamp,
        }),
{
}

/// The device in use is the first of the channels, at its own rate; the last line is the one that
/// was written last.
pub proof fn law_the_first_device_is_in_use(
    channels: &[DeviceConfig],
    r: Option<(String, DeviceConfig)>,
    logs: &[String],
    last: String,
)
    requires
        call_ensures(device_in_use, (channels,), r),
        call_ensures(last_log, (logs,), last),
    ensures
        r is Some <==> channels@.len() > 0,
        r matches Some((baud, device)) ==> baud@ == channels@[0].baud@ && device@ == channels@[0]@,
        logs@.len() > 0 ==> last@ == logs@.last()@,
        logs@.len() == 0 ==> last@.len() == 0,
{
}

/// A project has the name that it was given, or else that of its file.
pub proof fn law_projects_have_a_name(name: &str, stem: &str, r: String, none: String)
    requires
        call_ensures(project_name, (name, Some(stem)), r),
        call_ensures(project_name, (name, None), none),
    ensures
        text::trim(name@).len() > 0 ==> r@ == name@ && none@ == name@,
        text::trim(name@).len() == 0 ==> r@ == stem@,
{
}

/// A loss is shown where anything was lost, and nothing is missing where it all adds up.
pub proof fn law_losses_add_up(s: &LossState, r: bool, a: u64, b: u64, c: u64, d: u64, fine: bool)
    requires
        call_ensures(LossState::any_loss, (s,), r),
        call_ensures(accounted, (a, b, c, d), fine),
    ensures
        !r <==> s.dropped_frames == 0 && s.dropped_events == 0 && s.hardware_overruns == 0
            && s.hardware_errors == 0 && s.command_rejected == 0 && s.monotonic_violations == 0
            && s.recorder_dropped == 0,
        fine <==> a - b - c == d,
{
}

} // verus!
