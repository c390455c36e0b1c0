//! Laws that relate what different parts do with the same things.
use crate::can::FrameView;
use crate::can::zcan_bus::new_error_frames;
use crate::can::zcan_ffi::{le_bytes, ZcanChannelStatus};
use crate::can::zcan_scan::probed_channels;
use crate::can::zlg_ffi::VCI_BOARD_INFO;
use crate::modbus::adu::{parse_datagram, DatagramRequest};
use crate::modbus::commands::{MasterAction, MasterMsg};
use crate::modbus::datalog::equal_numbers;
use crate::modbus::master::{MasterNotice, MasterState};
use crate::modbus::pdu::{decode_server_request_pdu, ExceptionCode, Request, Response};
use crate::modbus::slave::{serve_datagram, DatagramOutcome, SlaveReply, SlaveService};
use crate::modbus::span::{requests_view, validate_span, validate_write_items, write_items};
use crate::modbus::store::{handle_request, is_write, read_bits, read_words, DataStore};
use crate::modbus::windows::{Cmd, CommandRejected, CommandSender, HealthReport};
use crate::modbus::{WriteFunc, WriteItem};
use crate::text;
use crate::workbench::replay_files::{channel_texts, occurs};
use vstd::prelude::*;

verus! {

// ---------------------------------------------------------------- the server

/// A datagram is served as its request is: it changes the tables in the same way, and is answered
/// where the request is.
pub proof fn law_datagrams_are_served_as_requests(
    service: &SlaveService,
    store: &mut DataStore,
    requests: &mut u64,
    frame: &[u8],
    rtu: bool,
    r: DatagramOutcome,
    d: DatagramRequest,
    pdu: &[u8],
    request: Request,
    other: &mut DataStore,
    count: &mut u64,
    answer: SlaveReply,
)
    requires
        call_ensures(serve_datagram, (service, store, requests, frame, rtu), r),
        call_ensures(parse_datagram, (frame, rtu), Some(d)),
        pdu@ == d.pdu@,
        call_ensures(decode_server_request_pdu, (pdu,), Ok(request)),
        *old(other) == *old(store),
        *old(count) == *old(requests),
        call_ensures(SlaveService::call, (service, other, count, d.slave, &request), answer),
    ensures
        final(store)@ == final(other)@,
        *final(requests) == *final(count),
        r.reply is Some <==> answer.answer is Some,
        r.events@.len() == answer.events@.len(),
{
    assert(crate::modbus::slave::slave_events(r.events@).len() == r.events@.len());
    assert(crate::modbus::slave::slave_events(answer.events@).len() == answer.events@.len());
}

/// A datagram whose message cannot be read changes nothing; it is answered with an error, but on a
/// serial line not where it went to all.
pub proof fn law_unreadable_requests_are_answered(
    service: &SlaveService,
    store: &mut DataStore,
    requests: &mut u64,
    frame: &[u8],
    rtu: bool,
    r: DatagramOutcome,
    d: DatagramRequest,
    pdu: &[u8],
    e: ExceptionCode,
)
    requires
        call_ensures(serve_datagram, (service, store, requests, frame, rtu), r),
        call_ensures(parse_datagram, (frame, rtu), Some(d)),
        pdu@ == d.pdu@,
        call_ensures(decode_server_request_pdu, (pdu,), Err(e)),
    ensures
        final(store)@ == old(store)@,
        *final(requests) == *old(requests),
        r.reply is Some <==> !(rtu && d.slave == 0),
{
}

/// A request that is not a write changes no table.
pub proof fn law_only_writes_change_tables(
    store: &mut DataStore,
    req: &Request,
    r: Result<Response, ExceptionCode>,
)
    requires
        call_ensures(handle_request, (store, req), r),
        call_ensures(is_write, (req,), false),
    ensures
        final(store).coils@ == old(store).coils@,
        final(store).discrete_inputs@ == old(store).discrete_inputs@,
        final(store).holding@ == old(store).holding@,
        final(store).input@ == old(store).input@,
{
    assert(old(store)@.coils == old(store).coils@ && final(store)@.coils == final(store).coils@);
}

/// A request is of the function with which its message begins, and an answer of the function of what
/// was done.
pub proof fn law_requests_have_their_function(
    pdu: &[u8],
    request: Request,
    response: Response,
    f: u8,
)
    requires
        call_ensures(decode_server_request_pdu, (pdu,), Ok(request)),
        call_ensures(Response::function_code, (&response,), f),
        !(request is Unserved),
    ensures
        pdu@.len() > 0 && pdu@[0] == crate::laws::polling::function_of(request),
        response is ReadCoils ==> f == 1,
        response is ReadDiscreteInputs ==> f == 2,
        response is ReadHoldingRegisters ==> f == 3,
        response is ReadInputRegisters ==> f == 4,
        response is WriteSingleCoil ==> f == 5,
        response is WriteSingleRegister ==> f == 6,
        response is WriteMultipleCoils ==> f == 15,
        response is WriteMultipleRegisters ==> f == 16,
        response is MaskWriteRegister ==> f == 22,
        response is ReadWriteMultipleRegisters ==> f == 23,
{
}

/// A message is taken exactly if its length is that of its function, and where it counts its bytes,
/// if they are as many as its entries need. A function that is not served is told as such; anything
/// else that is wrong is a wrong value.
pub proof fn law_units_are_taken_whole(pdu: &[u8], r: Result<Request, ExceptionCode>)
    requires
        call_ensures(decode_server_request_pdu, (pdu,), r),
    ensures
        ({
            let p = pdu@;
            let n = p.len();
            let f = p[0];
            let entries = p[3] * 256 + p[4];
            let written = p[7] * 256 + p[8];
            let fits = 1 <= n <= 253;
            &&& !fits ==> r is Err
            &&& fits && (1 <= f <= 4 || f == 6) ==> (r is Ok <==> n == 5)
            &&& fits && f == 5 ==> (r is Ok <==> n == 5 && (entries == 0xFF00 || entries == 0))
            &&& fits && f == 15 ==> (r is Ok <==> n >= 6 && n == 6 + p[5] && entries <= 8 * p[5]
                && 8 * p[5] < entries + 8)
            &&& fits && f == 16 ==> (r is Ok <==> n >= 6 && n == 6 + p[5] && p[5] == 2 * entries)
            &&& fits && f == 22 ==> (r is Ok <==> n == 7)
            &&& fits && f == 23 ==> (r is Ok <==> n >= 10 && n == 10 + p[9] && p[9] == 2 * written)
            &&& r matches Err(e) ==> (e is IllegalFunction <==> fits && !(1 <= f <= 6) && f != 15 && f
                != 16 && f != 22 && f != 23) && (e is IllegalFunction || e is IllegalDataValue)
        }),
{
}

/// Blocks are read from their address on, or refused where they reach beyond the table.
pub proof fn law_blocks_are_read_whole(
    bits: &[bool],
    words: &[u16],
    a: u16,
    c: u16,
    b: Result<Vec<bool>, ExceptionCode>,
    w: Result<Vec<u16>, ExceptionCode>,
    i: int,
)
    requires
        call_ensures(read_bits, (bits, a, c), b),
        call_ensures(read_words, (words, a, c), w),
        0 <= i < c,
    ensures
        b is Ok <==> a + c <= bits@.len(),
        w is Ok <==> a + c <= words@.len(),
        b matches Ok(v) ==> v@.len() == c && v@[i] == bits@[a + i],
        w matches Ok(v) ==> v@.len() == c && v@[i] == words@[a + i],
        b matches Err(e) ==> e is IllegalDataAddress,
        w matches Err(e) ==> e is IllegalDataAddress,
{
}

/// A span is allowed where it holds something, no more than its limit, and nothing beyond the last
/// address; a list of values is written exactly if it is allowed.
pub proof fn law_spans_end_at_the_last_address(
    address: u16,
    quantity: usize,
    most: usize,
    label: &str,
    r: Result<(), String>,
    func: WriteFunc,
    items: &[WriteItem],
    checked: Result<(), String>,
    written: Result<Vec<Request>, String>,
)
    requires
        call_ensures(validate_span, (address, quantity, most, label), r),
        call_ensures(validate_write_items, (func, items), checked),
        call_ensures(write_items, (func, items), written),
    ensures
        r is Ok <==> 1 <= quantity <= most && address + quantity <= 65536,
        checked is Ok <==> written is Ok,
        func is SingleReg || func is SingleCoil ==> checked is Ok,
{
}

// ---------------------------------------------------------------- the engine

/// A list is written once with the requests that it is made of; where it cannot be, it is counted as
/// failed and nothing is sent.
pub proof fn law_lists_are_sent_as_their_requests(
    m: &mut MasterState,
    func: WriteFunc,
    items: Vec<WriteItem>,
    secs: u64,
    r: (MasterAction, Vec<MasterNotice>),
    i: int,
)
    requires
        old(m).wf(),
        call_ensures(MasterState::message, (m, MasterMsg::WriteOnce { func, items }, secs), r),
        0 <= i < items@.len(),
        old(m).counts.tx < u64::MAX && old(m).counts.err < u64::MAX,
    ensures
        final(m).counts.tx == old(m).counts.tx + 1,
        func is SingleReg ==> (r.0 matches MasterAction::Send { requests, .. } && requests@.len()
            == items@.len() && requests@[i] == Request::WriteSingleRegister(
            items@[i].address,
            items@[i].value,
        )),
        func is SingleCoil ==> (r.0 matches MasterAction::Send { requests, .. } && requests@.len()
            == items@.len() && requests@[i] == Request::WriteSingleCoil(
            items@[i].address,
            items@[i].value != 0,
        )),
        r.0 is Nothing ==> final(m).counts.err == old(m).counts.err + 1,
        r.0 is Send ==> final(m).counts.err == old(m).counts.err,
        r.0 is Send || r.0 is Nothing,
{
    if let MasterAction::Send { requests, .. } = r.0 {
        let v = requests_view(requests@);
        assert(v.len() == requests@.len());
        if func is SingleReg || func is SingleCoil {
            assert(v[i] == requests@[i]@);
        }
    }
}

/// The state of the command queue is reported twice a second, and at once where a command was lost.
pub proof fn law_lost_commands_are_reported(
    s: &mut CommandSender,
    command: Cmd,
    now: u64,
    r: (Result<(), CommandRejected>, Option<HealthReport>),
    q: &mut CommandSender,
    force: bool,
    p: Option<HealthReport>,
)
    requires
        call_ensures(CommandSender::send, (s, command, now), r),
        call_ensures(CommandSender::report_health, (q, force, now), p),
        old(s).health.dropped < u64::MAX,
    ensures
        r.0 is Err ==> r.1 is Some && final(s).health.dropped == old(s).health.dropped + 1,
        r.0 is Ok ==> final(s).health.dropped == old(s).health.dropped && (r.1 is Some <==> now
            >= old(s).last_report_ms + 500),
        r.1 is Some ==> final(s).last_report_ms == now,
        final(s).out.record().len() == old(s).out.record().len() + 1,
        final(s).out.record().last().0 == command,
        p is Some <==> force || now >= old(q).last_report_ms + 500,
        p matches Some(report) ==> (report.loss <==> old(q).health.dropped > 0),
{
}

/// The two zeros are the same number, nothing that is no number is the same as anything, and all
/// other numbers are the same only as themselves.
pub proof fn law_numbers_are_the_same(a: u64, b: u64)
    ensures
        equal_numbers(a, b) == equal_numbers(b, a),
        a <= 0x7FF0_0000_0000_0000 ==> equal_numbers(a, a),
        equal_numbers(0, 0x8000_0000_0000_0000),
        equal_numbers(a, b) && 0 < a < 0x8000_0000_0000_0000 ==> a == b,
        0x7FF0_0000_0000_0000 < a < 0x8000_0000_0000_0000 ==> !equal_numbers(a, b),
        a > 0xFFF0_0000_0000_0000 ==> !equal_numbers(a, b),
{
}

// ---------------------------------------------------------------- adapters

/// The four bytes of a number, the lowest first, make it up.
pub proof fn law_bytes_make_up_numbers(n: u32)
    ensures
        le_bytes(n).len() == 4,
        le_bytes(n)[0] + 256 * le_bytes(n)[1] + 65536 * le_bytes(n)[2] + 16777216 * le_bytes(n)[3] == n,
{
}

/// Errors of the bus are shown as frames: one when the counters moved, and one with the code when it
/// is a new one.
pub proof fn law_bus_errors_are_shown(
    counters: Option<(u8, u8)>,
    last: u32,
    code: u32,
    status: ZcanChannelStatus,
    t: i64,
)
    ensures
        ({
            let frames: Seq<FrameView> = new_error_frames(counters, last, code, Some(status), t);
            let moved = counters matches Some((re, te)) && (re != status.reg_re_counter || te
                != status.reg_te_counter);
            let news = code != 0 && code != last;
            &&& frames.len() == (if moved {
                1int
            } else {
                0
            }) + (if news {
                1int
            } else {
                0
            })
            &&& forall|i: int|
                0 <= i < frames.len() ==> (#[trigger] frames[i]).error && frames[i].t == t
                    && frames[i].data[2] == status.reg_re_counter && frames[i].data[3]
                    == status.reg_te_counter
            &&& news ==> frames.last().data.len() == 8 && frames.last().data[4] + 256
                * frames.last().data[5] + 65536 * frames.last().data[6] + 16777216
                * frames.last().data[7] == code
        }),
{
    let frames = new_error_frames(counters, last, code, Some(status), t);
    law_bytes_make_up_numbers(code);
    if code != 0 && code != last {
        let d = frames.last().data;
        assert(d[4] == le_bytes(code)[0] && d[5] == le_bytes(code)[1] && d[6] == le_bytes(code)[2]
            && d[7] == le_bytes(code)[3]);
    }
}

/// An older device offers as many channels as its kind has, or as it says, up to eight.
pub proof fn law_older_devices_offer_their_channels(
    name: Seq<char>,
    label: Seq<char>,
    fixed: u8,
    index: u32,
    info: VCI_BOARD_INFO,
    i: int,
)
    requires
        0 <= i < probed_channels(name, label, fixed, index, info).len(),
    ensures
        fixed != 0 ==> probed_channels(name, label, fixed, index, info).len() == fixed,
        fixed == 0 && 1 <= info.can_num <= 8 ==> probed_channels(name, label, fixed, index, info).len()
            == info.can_num,
        fixed == 0 && info.can_num > 8 ==> probed_channels(name, label, fixed, index, info).len() == 8,
        probed_channels(name, label, fixed, index, info)[i].channel_index == i,
        probed_channels(name, label, fixed, index, info)[i].device_index == index,
        probed_channels(name, label, fixed, index, info)[i].device_type == name,
        !probed_channels(name, label, fixed, index, info)[i].fd_capable,
{
}

// ---------------------------------------------------------------- recordings

/// The channels of a recording are listed in order: each that occurs, and no other.
pub proof fn law_recorded_channels_are_listed(frames: Seq<FrameView>, ch: nat, below: int)
    requires
        ch < below,
    ensures
        occurs(frames, ch as int) ==> channel_texts(frames, below).contains(text::decimal(ch)),
        occurs(frames, ch as int) ==> channel_texts(frames, ch as int + 1).last() == text::decimal(ch),
        !occurs(frames, ch as int) ==> channel_texts(frames, ch as int + 1) == channel_texts(
            frames,
            ch as int,
        ),
    decreases below,
{
    if below > ch + 1 {
        law_recorded_channels_are_listed(frames, ch, below - 1);
        if occurs(frames, ch as int) {
            let before = channel_texts(frames, below - 1);
            let all = channel_texts(frames, below);
            let k = choose|k: int| 0 <= k < before.len() && before[k] == text::decimal(ch);
            assert(all[k] == text::decimal(ch));
        }
    } else {
        if occurs(frames, ch as int) {
            let all = channel_texts(frames, below);
            assert(all[all.len() - 1] == text::decimal(ch));
        }
    }
}

} // verus!
