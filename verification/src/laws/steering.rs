//! Laws on the engine that polls a server, the windows that it works for and what is shown of its
//! traffic.
use crate::laws::serving::is_served;
use crate::modbus::chart::ChartState;
use crate::modbus::commands::{MasterAction, MasterMsg, Sent};
use crate::modbus::datalog::{Logger, LogStep, LogValue};
use crate::modbus::grid::PollData;
use crate::modbus::log::{lines_view, push_line, push_log, LogLine};
use crate::modbus::master::{notices_view, MasterNotice, MasterState, PollErr, ReadDef, Reply};
use crate::modbus::pdu::{ExceptionCode, Request, Response};
use crate::modbus::sim::bump_one;
use crate::modbus::slave::SlaveEvent;
use crate::modbus::span::requests_view;
use crate::modbus::store::{apply_edit, handle_request, put_bits, put_words, DataStore};
use crate::modbus::traffic::{LossCounts, TrafficMonitor};
use crate::modbus::updater::ServerLog;
use crate::modbus::windows::{
    serial_builder, Cmd, MasterCfg, SerialSettings, UiCfg, Windows, WinEffect,
};
use crate::modbus::{Area, WriteItem};
use crate::text;
use vstd::prelude::*;

verus! {

// ---------------------------------------------------------------- tables

/// A request is served from the tables as they are, and they are afterwards what it made of them.
pub proof fn law_requests_are_served(
    store: &mut DataStore,
    req: &Request,
    r: Result<Response, ExceptionCode>,
)
    requires
        call_ensures(handle_request, (store, req), r),
    ensures
        is_served(*old(store), *final(store), *req, r),
{
}

/// What was written to the holding registers is what is read from them.
pub proof fn law_reads_give_what_was_written(
    store: &mut DataStore,
    a: u16,
    values: Vec<u16>,
    w: Result<Response, ExceptionCode>,
    later: &mut DataStore,
    c: u16,
    r: Result<Response, ExceptionCode>,
)
    requires
        call_ensures(handle_request, (store, &Request::WriteMultipleRegisters(a, values)), w),
        w is Ok,
        *old(later) == *final(store),
        c == values@.len(),
        call_ensures(handle_request, (later, &Request::ReadHoldingRegisters(a, c)), r),
    ensures
        r matches Ok(Response::ReadHoldingRegisters(v)) && v@ == values@,
{
    assert(Request::WriteMultipleRegisters(a, values)@
        == crate::modbus::pdu::RequestView::WriteMultipleRegisters(a, values@));
    if let Ok(Response::ReadHoldingRegisters(v)) = r {
        assert(v@ =~= values@);
    }
}

/// What was written to the coils is what is read from them.
pub proof fn law_coils_give_what_was_written(
    store: &mut DataStore,
    a: u16,
    values: Vec<bool>,
    w: Result<Response, ExceptionCode>,
    later: &mut DataStore,
    c: u16,
    r: Result<Response, ExceptionCode>,
)
    requires
        call_ensures(handle_request, (store, &Request::WriteMultipleCoils(a, values)), w),
        w is Ok,
        *old(later) == *final(store),
        c == values@.len(),
        call_ensures(handle_request, (later, &Request::ReadCoils(a, c)), r),
    ensures
        r matches Ok(Response::ReadCoils(v)) && v@ == values@,
{
    assert(Request::WriteMultipleCoils(a, values)@
        == crate::modbus::pdu::RequestView::WriteMultipleCoils(a, values@));
    if let Ok(Response::ReadCoils(v)) = r {
        assert(v@ =~= values@);
    }
}

/// Blocks are written from their address on, or not at all where they reach beyond the table.
pub proof fn law_blocks_are_written_whole(
    bits: &mut Vec<bool>,
    words: &mut Vec<u16>,
    addr: u16,
    bs: &[bool],
    ws: &[u16],
    b: Result<(), ExceptionCode>,
    w: Result<(), ExceptionCode>,
    i: int,
)
    requires
        call_ensures(put_bits, (bits, addr, bs), b),
        call_ensures(put_words, (words, addr, ws), w),
        0 <= i < old(bits)@.len(),
        0 <= i < old(words)@.len(),
    ensures
        b is Ok <==> addr + bs@.len() <= old(bits)@.len(),
        w is Ok <==> addr + ws@.len() <= old(words)@.len(),
        final(bits)@.len() == old(bits)@.len() && final(words)@.len() == old(words)@.len(),
        b is Ok && addr <= i < addr + bs@.len() ==> final(bits)@[i] == bs@[i - addr],
        b is Err || i < addr || i >= addr + bs@.len() ==> final(bits)@[i] == old(bits)@[i],
        w is Ok && addr <= i < addr + ws@.len() ==> final(words)@[i] == ws@[i - addr],
        w is Err || i < addr || i >= addr + ws@.len() ==> final(words)@[i] == old(words)@[i],
{
}

/// An entry that the user sets takes the value, in the table and at the address that are named, and
/// no other entry changes.
pub proof fn law_set_entries_take_their_value(
    store: &mut DataStore,
    area: Area,
    address: u16,
    bit: Option<bool>,
    word: Option<u16>,
    i: int,
)
    requires
        call_ensures(apply_edit, (store, area, address, bit, word), ()),
        0 <= i < old(store).coils@.len(),
        0 <= i < old(store).discrete_inputs@.len(),
        0 <= i < old(store).holding@.len(),
        0 <= i < old(store).input@.len(),
    ensures
        final(store).coils@[i] == (if area is Coils && i == address && bit is Some {
            bit->0
        } else {
            old(store).coils@[i]
        }),
        final(store).discrete_inputs@[i] == (if area is DiscreteInputs && i == address && bit is Some {
            bit->0
        } else {
            old(store).discrete_inputs@[i]
        }),
        final(store).holding@[i] == (if area is HoldingRegisters && i == address && word is Some {
            word->0
        } else {
            old(store).holding@[i]
        }),
        final(store).input@[i] == (if area is InputRegisters && i == address && word is Some {
            word->0
        } else {
            old(store).input@[i]
        }),
{
}

/// An entry that counts up goes on by one, or changes over where it is a bit.
pub proof fn law_entries_count_up(store: &mut DataStore, addr: u16, area: Area)
    requires
        call_ensures(bump_one, (store, area, addr), ()),
        addr < old(store).coils@.len(),
        addr < old(store).discrete_inputs@.len(),
        addr < old(store).holding@.len(),
        addr < old(store).input@.len(),
    ensures
        area is Coils ==> final(store).coils@[addr as int] != old(store).coils@[addr as int],
        area is DiscreteInputs ==> final(store).discrete_inputs@[addr as int]
            != old(store).discrete_inputs@[addr as int],
        area is HoldingRegisters ==> final(store).holding@[addr as int] == (
        old(store).holding@[addr as int] + 1) % 65536,
        area is InputRegisters ==> final(store).input@[addr as int] == (
        old(store).input@[addr as int] + 1) % 65536,
        !(area is Coils) ==> final(store).coils@ == old(store).coils@,
        !(area is HoldingRegisters) ==> final(store).holding@ == old(store).holding@,
{
}

// ---------------------------------------------------------------- polls

/// A poll that was answered counts as sent and received, ends the row of failures, and is shown; one
/// that was not counts as sent and failed, and what is shown stays.
pub proof fn law_polls_are_counted(
    m: &mut MasterState,
    data: PollData,
    label: &str,
    log_error: Option<String>,
    secs: u64,
    shown: Vec<MasterNotice>,
    f: &mut MasterState,
    error: PollErr,
    told: (Vec<MasterNotice>, Option<u64>),
)
    requires
        old(m).wf(),
        call_ensures(MasterState::polled, (m, data, label, log_error, secs), shown),
        old(f).wf(),
        call_ensures(MasterState::poll_failed, (f, error, secs), told),
        old(m).counts.tx < u64::MAX && old(m).counts.rx < u64::MAX,
        old(f).counts.tx < u64::MAX && old(f).counts.err < u64::MAX && old(f).counts.consec_fail
            < u32::MAX,
    ensures
        final(m).counts.tx == old(m).counts.tx + 1,
        final(m).counts.rx == old(m).counts.rx + 1,
        final(m).counts.err == old(m).counts.err,
        final(m).counts.consec_fail == 0,
        final(m).display.last == Some(data),
        final(m).def == old(m).def && final(m).auto == old(m).auto && final(m).link == old(m).link,
        log_error is None ==> final(m).logger == old(m).logger,
        log_error is Some ==> final(m).logger is None,
        final(f).counts.tx == old(f).counts.tx + 1,
        final(f).counts.rx == old(f).counts.rx,
        final(f).counts.err == old(f).counts.err + 1,
        error is Io ==> final(f).counts.consec_fail == old(f).counts.consec_fail + 1,
        !(error is Io) ==> final(f).counts.consec_fail == old(f).counts.consec_fail,
        final(f).display == old(f).display && final(f).logger == old(f).logger,
{
}

/// Only a failure of the line is answered by connecting again, after the time that was set, and only
/// where that is wished; only a definition that is not allowed ends the polling.
pub proof fn law_broken_lines_are_connected_again(
    f: &mut MasterState,
    error: PollErr,
    secs: u64,
    told: (Vec<MasterNotice>, Option<u64>),
    n: &mut MasterState,
    result: Result<(), String>,
    shown: Vec<MasterNotice>,
)
    requires
        old(f).wf(),
        call_ensures(MasterState::poll_failed, (f, error, secs), told),
        old(n).wf(),
        call_ensures(MasterState::reconnected, (n, result, secs), shown),
    ensures
        told.1 is Some <==> error is Io && old(f).link.reconnect,
        told.1 is Some ==> told.1->0 == old(f).link.reconnect_ms,
        error is Invalid ==> !final(f).def.poll,
        !(error is Invalid) ==> final(f).def == old(f).def,
        result is Ok ==> final(n).counts.consec_fail == 0,
        result is Err ==> final(n).counts == old(n).counts,
        final(n).counts.tx == old(n).counts.tx && final(n).counts.err == old(n).counts.err,
        final(n).def == old(n).def && final(n).display == old(n).display,
{
}

/// The user is told whether the server can be reached: after an answer and a new connection it can,
/// after a failure of the line it cannot.
pub proof fn law_the_state_of_the_line_is_told(
    m: &mut MasterState,
    data: PollData,
    label: &str,
    secs: u64,
    shown: Vec<MasterNotice>,
    f: &mut MasterState,
    reason: String,
    told: (Vec<MasterNotice>, Option<u64>),
    n: &mut MasterState,
    again: Vec<MasterNotice>,
)
    requires
        old(m).wf(),
        call_ensures(MasterState::polled, (m, data, label, None, secs), shown),
        old(f).wf(),
        call_ensures(MasterState::poll_failed, (f, PollErr::Io(reason), secs), told),
        old(n).wf(),
        call_ensures(MasterState::reconnected, (n, Ok(()), secs), again),
    ensures
        shown@.len() == 3 && (shown@[1] matches MasterNotice::Status { connected, .. } && connected),
        shown@[2] == MasterNotice::Counts(final(m).counts),
        told.0@.len() >= 2 && (told.0@[1] matches MasterNotice::Status { connected, .. }
            && !connected),
        again@.len() == 3 && (again@[0] matches MasterNotice::Status { connected, .. } && connected),
{
    let a = notices_view(shown@);
    let b = notices_view(told.0@);
    let c = notices_view(again@);
    assert(a.len() == shown@.len() && b.len() == told.0@.len() && c.len() == again@.len());
    assert(a =~= a.subrange(0, a.len() as int));
    assert(a.len() == 3);
    assert(a[1] == shown@[1]@ && a[2] == shown@[2]@);
    assert(b[1] == told.0@[1]@);
    assert(c[0] == again@[0]@);
}

/// An answer to a write counts as received and a refusal as failed; list that is written again and
/// again moves on only when it was written.
pub proof fn law_answers_are_counted(
    m: &mut MasterState,
    sent: Sent,
    reply: &Reply,
    secs: u64,
    shown: Vec<MasterNotice>,
)
    requires
        old(m).wf(),
        call_ensures(MasterState::answered, (m, sent, reply, secs), shown),
        old(m).counts.rx < u64::MAX && old(m).counts.err < u64::MAX,
        !(sent is Exchange),
    ensures
        reply is Regs || reply is Bits ==> final(m).counts.rx == old(m).counts.rx + 1
            && final(m).counts.err == old(m).counts.err,
        !(reply is Regs || reply is Bits) ==> final(m).counts.rx == old(m).counts.rx
            && final(m).counts.err == old(m).counts.err + 1,
        final(m).counts.tx == old(m).counts.tx,
        !(sent is Auto) || !(reply is Regs || reply is Bits) ==> final(m).auto.items@
            == old(m).auto.items@,
        final(m).def == old(m).def && final(m).display == old(m).display,
{
}

/// A list is written again and again only where that is switched on and it holds something.
pub proof fn law_lists_are_written_where_switched_on(
    m: &mut MasterState,
    secs: u64,
    r: (MasterAction, Vec<MasterNotice>),
)
    requires
        old(m).wf(),
        call_ensures(MasterState::auto_write_due, (m, secs), r),
        !old(m).auto.on || old(m).auto.items@.len() == 0,
    ensures
        *final(m) == *old(m),
        r.0 is Nothing,
{
}

/// What the user sets of the display is set, and what was set before is kept.
pub proof fn law_settings_are_taken(
    m: &mut MasterState,
    msg: MasterMsg,
    secs: u64,
    r: (MasterAction, Vec<MasterNotice>),
    other: u64,
)
    requires
        old(m).wf(),
        call_ensures(MasterState::message, (m, msg, secs), r),
    ensures
        msg matches MasterMsg::SetFormat(f) ==> final(m).display.format == f,
        msg matches MasterMsg::SetName { address, name } ==> {
            let names = final(m).display.names.map();
            &&& text::trim(name@).len() > 0 ==> names.contains_key(address as u64)
                && names[address as u64] == name
            &&& text::trim(name@).len() == 0 ==> !names.contains_key(address as u64)
            &&& other != address ==> names.contains_key(other) == old(
                m
            ).display.names.map().contains_key(other)
        },
        msg matches MasterMsg::SetCellFormat { address, format } ==> {
            let formats = final(m).display.cell_formats.map();
            &&& format is Some ==> formats.contains_key(address as u64) && formats[address as u64]
                == format->0
            &&& format is None ==> !formats.contains_key(address as u64)
        },
        msg matches MasterMsg::SetDerived(list) ==> final(m).display.derived == list,
        msg matches MasterMsg::SetChartAxis { addr, right } ==> (
        final(m).display.chart.right@.contains(addr) <==> right),
        msg is StopLog ==> final(m).logger is None,
        msg is Stop ==> *final(m) == *old(m) && r.0 is Stop,
        msg is AutoWriteStop ==> !final(m).auto.on && final(m).auto.items == old(m).auto.items,
        !(msg is SetReadDef) ==> final(m).def == old(m).def,
        !(msg is StopLog) ==> final(m).logger == old(m).logger,
        final(m).link == old(m).link,
{
}

/// A new definition is taken where the protocol allows it: at least one entry, 2000 bits or 125
/// registers at most, none beyond the last address. What was shown of the old one is dropped, and
/// polls come in the new pace, twenty milliseconds at least.
pub proof fn law_definitions_are_taken(
    m: &mut MasterState,
    def: ReadDef,
    secs: u64,
    r: (MasterAction, Vec<MasterNotice>),
)
    requires
        old(m).wf(),
        call_ensures(MasterState::message, (m, MasterMsg::SetReadDef(def), secs), r),
    ensures
        ({
            let most: int = if def.area is Coils || def.area is DiscreteInputs {
                2000
            } else {
                125
            };
            let allowed = 1 <= def.quantity <= most && def.address + def.quantity <= 65536;
            &&& allowed ==> final(m).def == def && final(m).display.last is None
                && final(m).display.chart.total == 0
            &&& !allowed ==> final(m).def == old(m).def && final(m).display == old(m).display && r.0
                is Nothing
            &&& allowed && def.scan_ms != old(m).def.scan_ms ==> r.0 == MasterAction::PollEvery(
                if def.scan_ms < 20 {
                    20
                } else {
                    def.scan_ms
                },
            )
            &&& allowed && def.scan_ms == old(m).def.scan_ms ==> r.0 is Nothing
        }),
{
}

/// A list that is to be written again and again is switched on as it was given, every fifty
/// milliseconds at most.
pub proof fn law_lists_are_switched_on(
    m: &mut MasterState,
    func: crate::modbus::WriteFunc,
    items: Vec<WriteItem>,
    interval_ms: u64,
    secs: u64,
    r: (MasterAction, Vec<MasterNotice>),
)
    requires
        old(m).wf(),
        call_ensures(
            MasterState::message,
            (m, MasterMsg::AutoWrite { func, items, interval_ms }, secs),
            r,
        ),
    ensures
        final(m).auto.on && final(m).auto.items == items && final(m).auto.func == func,
        r.0 matches MasterAction::WriteEvery(ms) && ms >= 50 && ms >= interval_ms && (ms == 50 || ms
            == interval_ms),
{
}

/// Masks and exchanges are sent with their own numbers; an exchange reads up to 125 registers and
/// writes up to 121.
pub proof fn law_masks_and_exchanges_are_sent(
    m: &mut MasterState,
    address: u16,
    and_mask: u16,
    or_mask: u16,
    secs: u64,
    r: (MasterAction, Vec<MasterNotice>),
    x: &mut MasterState,
    read_addr: u16,
    read_qty: u16,
    write_addr: u16,
    write_values: Vec<u16>,
    q: (MasterAction, Vec<MasterNotice>),
)
    requires
        old(m).wf(),
        call_ensures(
            MasterState::message,
            (m, MasterMsg::MaskWrite { address, and_mask, or_mask }, secs),
            r,
        ),
        old(x).wf(),
        call_ensures(
            MasterState::message,
            (x, MasterMsg::ReadWrite { read_addr, read_qty, write_addr, write_values }, secs),
            q,
        ),
    ensures
        r.0 matches MasterAction::Send { requests, .. } && requests@.len() == 1 && requests@[0]
            == Request::MaskWriteRegister(address, and_mask, or_mask),
        q.0 is Send <==> 1 <= read_qty <= 125 && read_addr + read_qty <= 65536 && 1
            <= write_values@.len() <= 121 && write_addr + write_values@.len() <= 65536,
        q.0 matches MasterAction::Send { requests, .. } ==> requests@.len() == 1 && (
        requests@[0] matches Request::ReadWriteMultipleRegisters(a, n, b, v) && a == read_addr && n
            == read_qty && b == write_addr && v@ == write_values@),
        !(q.0 is Send) ==> q.0 is Nothing,
{
    if let MasterAction::Send { requests, .. } = r.0 {
        let v = requests_view(requests@);
        assert(v.len() == requests@.len());
        assert(v[0] == requests@[0]@);
    }
    if let MasterAction::Send { requests, .. } = q.0 {
        let v = requests_view(requests@);
        assert(v.len() == requests@.len());
        assert(v[0] == requests@[0]@);
    }
}

// ---------------------------------------------------------------- windows

/// A new window is the active one, has a number of its own and the settings of the one before; the
/// others are still there.
pub proof fn law_new_windows_are_active(w: &mut Windows, current: UiCfg, r: Vec<WinEffect>, i: int)
    requires
        old(w).wf(),
        old(w).next_id < u32::MAX,
        call_ensures(Windows::command, (w, Cmd::NewWindow(current)), r),
        0 <= i < old(w).list@.len(),
    ensures
        final(w).list@.len() == old(w).list@.len() + 1,
        final(w).active == final(w).list@.last().id,
        final(w).list@.last().id != old(w).list@[i].id,
        final(w).list@.last().cfg == current,
        !final(w).list@.last().connected,
        final(w).list@[i].id == old(w).list@[i].id && final(w).list@[i].engine == old(w).list@[i].engine,
{
    let saved = crate::modbus::windows::with_cfg(old(w).list@, old(w).active, current);
    assert(saved[i].id == old(w).list@[i].id);
    assert(final(w).list@.drop_last()[i] == saved[i]);
    assert(final(w).list@[i].id != final(w).list@[final(w).list@.len() - 1].id);
}

/// A window that is closed is gone and its engine stops, and no other; the last one stays. Where it
/// was the active one, another one is.
pub proof fn law_closed_windows_are_gone(w: &mut Windows, id: u32, r: Vec<WinEffect>, i: int)
    requires
        old(w).wf(),
        call_ensures(Windows::command, (w, Cmd::CloseWindow { id }), r),
        0 <= i < old(w).list@.len(),
        old(w).list@[i].id == id,
    ensures
        old(w).list@.len() == 1 ==> *final(w) == *old(w) && r@.len() == 0,
        old(w).list@.len() > 1 ==> final(w).list@ == old(w).list@.remove(i),
        old(w).list@.len() > 1 && old(w).list@[i].engine ==> r@.len() > 0 && r@[0]
            == WinEffect::StopEngine(id),
        old(w).list@.len() > 1 && !old(w).list@[i].engine ==> !r@.contains(WinEffect::StopEngine(id)),
        old(w).active != id ==> final(w).active == old(w).active,
        old(w).list@.len() > 1 && old(w).active == id ==> final(w).active == final(w).list@[0].id,
{
    let at = crate::modbus::windows::place_of(old(w).list@, id)->0;
    assert(crate::modbus::windows::place_of(old(w).list@, id) is Some);
    if at < i {
        assert(old(w).list@[at].id != old(w).list@[i].id);
    }
    if i < at {
        assert(old(w).list@[i].id != old(w).list@[at].id);
    }
}

/// The active window is connected with its settings, after its engine was stopped where it ran; the
/// other windows are left alone.
pub proof fn law_the_active_window_is_connected(
    w: &mut Windows,
    cfg: MasterCfg,
    r: Vec<WinEffect>,
    d: &mut Windows,
    q: Vec<WinEffect>,
    i: int,
    j: int,
)
    requires
        old(w).wf(),
        call_ensures(Windows::command, (w, Cmd::MasterConnect(cfg)), r),
        old(d).wf(),
        call_ensures(Windows::command, (d, Cmd::MasterDisconnect), q),
        0 <= i < old(w).list@.len(),
        0 <= j < old(d).list@.len(),
    ensures
        old(w).list@[i].id == old(w).active ==> final(w).list@[i].connected && final(w).list@[i].engine
            && r@.contains(WinEffect::StartEngine { id: old(w).active, cfg }) && (
        old(w).list@[i].engine ==> r@[0] == WinEffect::StopEngine(old(w).active)),
        old(w).list@[i].id != old(w).active ==> final(w).list@[i] == old(w).list@[i],
        old(d).list@[j].id == old(d).active ==> !final(d).list@[j].connected
            && !final(d).list@[j].engine && (old(d).list@[j].engine ==> q@[0] == WinEffect::StopEngine(
            old(d).active,
        )),
        old(d).list@[j].id != old(d).active ==> final(d).list@[j] == old(d).list@[j],
        final(w).active == old(w).active && final(d).active == old(d).active,
{
    if old(w).list@[i].id == old(w).active {
        let at = crate::modbus::windows::place_of(old(w).list@, old(w).active)->0;
        assert(crate::modbus::windows::place_of(old(w).list@, old(w).active) is Some);
        if at < i {
            assert(old(w).list@[at].id != old(w).list@[i].id);
        }
        if i < at {
            assert(old(w).list@[i].id != old(w).list@[at].id);
        }
        assert(r@[r@.len() - 2] == (WinEffect::StartEngine { id: old(w).active, cfg }));
    }
    if old(d).list@[j].id == old(d).active {
        let at = crate::modbus::windows::place_of(old(d).list@, old(d).active)->0;
        assert(crate::modbus::windows::place_of(old(d).list@, old(d).active) is Some);
        if at < j {
            assert(old(d).list@[at].id != old(d).list@[j].id);
        }
        if j < at {
            assert(old(d).list@[j].id != old(d).list@[at].id);
        }
    }
}

/// A message goes to the engine of the active window, where that runs, and changes no window.
pub proof fn law_messages_go_to_the_active_engine(
    w: &mut Windows,
    msg: MasterMsg,
    r: Vec<WinEffect>,
    i: int,
)
    requires
        old(w).wf(),
        call_ensures(Windows::command, (w, Cmd::Master(msg)), r),
        0 <= i < old(w).list@.len(),
        old(w).list@[i].id == old(w).active,
    ensures
        *final(w) == *old(w),
        old(w).list@[i].engine ==> r@ == seq![WinEffect::ToEngine { id: old(w).active, msg }],
        !old(w).list@[i].engine ==> r@.len() == 0,
{
    let at = crate::modbus::windows::place_of(old(w).list@, old(w).active)->0;
    assert(crate::modbus::windows::place_of(old(w).list@, old(w).active) is Some);
    if at < i {
        assert(old(w).list@[at].id != old(w).list@[i].id);
    }
    if i < at {
        assert(old(w).list@[i].id != old(w).list@[at].id);
    }
}

/// Each window shows whether its own engine is connected.
pub proof fn law_windows_show_their_connection(w: &mut Windows, connected: &[bool], r: bool, i: int)
    requires
        old(w).wf(),
        connected@.len() == old(w).list@.len(),
        call_ensures(Windows::reconcile, (w, connected), r),
        0 <= i < connected@.len(),
    ensures
        final(w).list@[i].connected == connected@[i],
        final(w).list@[i].id == old(w).list@[i].id,
        final(w).list@[i].engine == old(w).list@[i].engine,
        old(w).list@[i].connected != connected@[i] ==> r,
        final(w).active == old(w).active,
{
}

/// The settings of a serial line are those that were asked for, where it can have them.
pub proof fn law_serial_lines_have_their_settings(
    data_bits: u8,
    parity: u8,
    stop_bits: u8,
    r: SerialSettings,
)
    requires
        call_ensures(serial_builder, (data_bits, parity, stop_bits), r),
    ensures
        5 <= data_bits <= 8 ==> r.data_bits == data_bits,
        data_bits < 5 || data_bits > 8 ==> r.data_bits == 8,
        parity == 0 ==> r.parity is Off,
        parity == 1 ==> r.parity is Even,
        parity == 2 ==> r.parity is Odd,
        1 <= stop_bits <= 2 ==> r.stop_bits == stop_bits,
{
}

// ---------------------------------------------------------------- logs and curves

/// A line comes last in its log, and the oldest leave when there are too many.
pub proof fn law_lines_come_last(
    buf: &mut Vec<LogLine>,
    secs: u64,
    dir: &str,
    words: String,
    limit: usize,
    plain: &mut Vec<LogLine>,
    line: LogLine,
)
    requires
        limit > 0,
        call_ensures(push_log, (buf, secs, dir, words, limit), ()),
        call_ensures(push_line, (plain, line, limit), ()),
    ensures
        final(buf)@.last().text@ == words@,
        final(buf)@.last().dir@ == dir@,
        final(buf)@.len() <= limit,
        old(buf)@.len() < limit ==> final(buf)@.len() == old(buf)@.len() + 1,
        final(plain)@.last() == line,
        old(plain)@.len() < limit ==> final(plain)@ == old(plain)@.push(line),
        old(plain)@.len() == limit ==> final(plain)@ == old(plain)@.skip(1).push(line),
{
    let before = lines_view(old(buf)@);
    let after = lines_view(final(buf)@);
    assert(before.len() == old(buf)@.len() && after.len() == final(buf)@.len());
    assert(after[after.len() - 1] == final(buf)@[after.len() - 1]@);
    if old(plain)@.len() < limit {
        assert(final(plain)@ =~= old(plain)@.push(line));
    }
    if old(plain)@.len() == limit {
        assert(final(plain)@ =~= old(plain)@.skip(1).push(line));
    }
}

/// A serial frame is one line of the monitor, in its own direction; the other direction is not
/// touched by what arrives.
pub proof fn law_serial_frames_are_monitored(
    m: &mut TrafficMonitor,
    is_tx: bool,
    chunk: Vec<u8>,
    secs: u64,
)
    requires
        !old(m).is_tcp,
        call_ensures(TrafficMonitor::recorded, (m, is_tx, chunk, secs), ()),
    ensures
        final(m).dirty,
        old(m).lines@.len() < 500 ==> final(m).lines@.len() == old(m).lines@.len() + 1,
        final(m).lines@.len() > 0,
        final(m).lines@.last().dir@ == if is_tx {
            "Tx"@
        } else {
            "Rx"@
        },
{
    let frames = seq![chunk@];
    assert(frames.drop_last() =~= Seq::<Seq<u8>>::empty());
    assert(frames.last() == chunk@);
    let before = lines_view(old(m).lines@);
    let after = lines_view(final(m).lines@);
    assert(before.len() == old(m).lines@.len() && after.len() == final(m).lines@.len());
    reveal_with_fuel(crate::modbus::traffic::monitored, 2);
    assert(after[after.len() - 1] == final(m).lines@[after.len() - 1]@);
}

/// Losses are told once, when there are more than were told before.
pub proof fn law_losses_are_told_once(
    m: &mut TrafficMonitor,
    lost: &LossCounts,
    secs: u64,
    again: &mut TrafficMonitor,
    later: u64,
)
    requires
        call_ensures(TrafficMonitor::health_checked, (m, lost, secs), ()),
        *old(again) == *final(m),
        call_ensures(TrafficMonitor::health_checked, (again, lost, later), ()),
    ensures
        lost.dropped > old(m).reported_drops ==> final(m).reported_drops == lost.dropped && final(
            m
        ).dirty,
        lost.dropped <= old(m).reported_drops ==> final(m).lines == old(m).lines,
        final(again).lines == final(m).lines,
{
}

/// What changed is handed over once.
pub proof fn law_changes_are_handed_over_once(
    m: &mut TrafficMonitor,
    r: Option<Vec<LogLine>>,
    again: &mut TrafficMonitor,
    second: Option<Vec<LogLine>>,
)
    requires
        call_ensures(TrafficMonitor::flush, (m,), r),
        *old(again) == *final(m),
        call_ensures(TrafficMonitor::flush, (again,), second),
    ensures
        r is Some <==> old(m).dirty,
        second is None,
        final(m).lines == old(m).lines,
        r matches Some(lines) ==> lines@.len() == old(m).lines@.len(),
{
    assert(lines_view(old(m).lines@).len() == old(m).lines@.len());
    if let Some(lines) = r {
        assert(lines_view(lines@).len() == lines@.len());
    }
}

/// Only a change of the tables has them shown again; only words come into the log.
pub proof fn law_events_are_told_apart(l: &mut ServerLog, event: SlaveEvent, secs: u64, r: bool)
    requires
        call_ensures(ServerLog::event, (l, event, secs), r),
    ensures
        r <==> event is Changed,
        r ==> *final(l) == *old(l),
        !r ==> final(l).lines_dirty,
        event matches SlaveEvent::Log { dir, text } ==> final(l).lines@.len() > 0 && final(
            l
        ).lines@.last().text@ == text@ && final(l).lines@.last().dir@ == dir@,
        final(l).traffic == old(l).traffic,
{
    if !(event is Changed) {
        let after = lines_view(final(l).lines@);
        assert(after.len() == final(l).lines@.len());
        assert(after[after.len() - 1] == final(l).lines@[after.len() - 1]@);
    }
}

/// A curve is drawn on the axis that was chosen for it, and the others stay on theirs.
pub proof fn law_curves_have_their_axis(c: &mut ChartState, addr: u16, right: bool, other: u16)
    requires
        call_ensures(ChartState::set_axis, (c, addr, right), ()),
        other != addr,
    ensures
        final(c).right@.contains(addr) <==> right,
        final(c).right@.contains(other) <==> old(c).right@.contains(other),
        final(c).data == old(c).data,
{
}

/// A reading that is logged is written once; the first one comes under a head, and a reading that is
/// the same as the last is passed over where only changes are wished.
pub proof fn law_readings_are_written(
    l: &mut Logger,
    values: &[LogValue],
    now: u64,
    secs: u64,
    r: Option<LogStep>,
)
    requires
        secs <= i64::MAX,
        call_ensures(Logger::maybe_log, (l, values, now, secs), r),
    ensures
        r is None ==> *final(l) == *old(l),
        r is Some ==> final(l).last_write == Some(now) && final(l).header_written,
        r matches Some(step) ==> step.lines@.len() == (if old(l).header_written {
            1int
        } else {
            2
        }),
        old(l).cfg.each_read && !old(l).cfg.on_change ==> r is Some,
        old(l).last_write is None && !old(l).cfg.on_change ==> r is Some,
        !old(l).cfg.each_read && (old(l).last_write matches Some(t) && t <= now < t + 1_000_000_000)
            ==> r is None,
        r matches Some(step) ==> (step.flush <==> (old(l).last_flush matches Some(t) ==> now >= t
            + 1_000_000_000)),
        final(l).cfg == old(l).cfg,
{
}

} // verus!
