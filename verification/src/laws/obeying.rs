//! Laws on the remaining commands: what each of them changes, and what it leaves alone.
use crate::can::controller::{effects_view, Controller, Effect};
use crate::can::{DeviceConfig, OtaJob};
use crate::modbus::commands::{plan_write, MasterAction, MasterMsg, WriteReq};
use crate::modbus::datalog::LogCfg;
use crate::modbus::master::{MasterNotice, MasterState};
use crate::modbus::pdu::Request;
use crate::modbus::span::requests_view;
use crate::modbus::store::DataStore;
use crate::modbus::updater::{SlaveAction, SlaveMsg, SlaveUpdater};
use crate::modbus::windows::{Cmd, ScanCfg, SlaveCfg, SlaveScanCfg, UiCfg, Windows, WinEffect};
use crate::workbench::ipc::IpcStep;
use crate::workbench::requests::{IpcOutcome, IpcReq, IpcState, Licence};
use vstd::prelude::*;

verus! {

// ---------------------------------------------------------------- the controller

/// A handle that is stopped sends no more, whatever it stood for; nothing else changes.
pub proof fn law_stopped_frames_stay_off(
    c: &mut Controller,
    handle: u64,
    now: u64,
    t: i64,
    effects: Vec<Effect>,
    other: u64,
)
    requires
        old(c).wf(),
        call_ensures(Controller::command, (c, crate::can::Cmd::StopPeriodic { handle }, now, t), effects),
        other != handle,
    ensures
        !final(c).periodics.map().contains_key(handle),
        !final(c).dynamics.map().contains_key(handle),
        final(c).periodics.map().contains_key(other) == old(c).periodics.map().contains_key(other),
        old(c).periodics.map().contains_key(other) ==> final(c).periodics.map()[other]
            == old(c).periodics.map()[other],
        final(c).links == old(c).links && final(c).running == old(c).running && final(c).pending
            == old(c).pending,
        effects@.len() == 0,
{
    assert(effects_view(effects@).len() == effects@.len());
}

/// A command changes what it is about and leaves the rest alone: jobs, replays and what waits to be
/// sent do not touch each other, and only connecting and disconnecting touch the connection.
pub proof fn law_commands_leave_the_rest_alone(
    c: &mut Controller,
    cmd: crate::can::Cmd,
    now: u64,
    t: i64,
    effects: Vec<Effect>,
)
    requires
        old(c).wf(),
        call_ensures(Controller::command, (c, cmd, now, t), effects),
    ensures
        ({
            let jobs = cmd is SetPeriodic || cmd is StopPeriodic || cmd is SetDynamicPeriodic || cmd
                is SetSimulationPeriodics;
            let replay = cmd is PlaybackLoad || cmd is PlaybackPlay || cmd is PlaybackStep || cmd
                is PlaybackPause || cmd is PlaybackCancel || cmd is PlaybackSeek;
            let sends = cmd is SendOnce || cmd is SendSequence || cmd is SendBatch;
            let steers = cmd is Start || cmd is Stop;
            &&& jobs || replay || sends || steers || cmd is OtaRun ==> final(c).links == old(c).links
                && final(c).hardware_overruns == old(c).hardware_overruns && final(c).hardware_errors
                == old(c).hardware_errors && final(c).adapter_errors == old(c).adapter_errors
                && final(c).send_errors == old(c).send_errors && final(c).loss_streaks == old(
                c
            ).loss_streaks
            &&& jobs || replay || sends ==> final(c).running == old(c).running
            &&& jobs || replay ==> final(c).pending == old(c).pending
            &&& jobs || sends || steers ==> final(c).playback == old(c).playback
            &&& replay || sends || steers ==> final(c).periodics == old(c).periodics && final(
                c
            ).dynamics == old(c).dynamics && final(c).sims == old(c).sims
            &&& cmd is SetPeriodic || cmd is StopPeriodic || cmd is SetDynamicPeriodic ==> final(
                c
            ).sims == old(c).sims
            &&& cmd is Disconnect ==> final(c).sims == old(c).sims && final(c).playback == old(
                c
            ).playback
        }),
{
}

/// A frame that is encoded and given up, or is to be sent no more, is gone under its handle.
pub proof fn law_encoded_frames_are_switched_off(
    c: &mut Controller,
    handle: u64,
    config: Option<crate::can::DynamicPeriodicConfig>,
    now: u64,
    t: i64,
    effects: Vec<Effect>,
    other: u64,
)
    requires
        old(c).wf(),
        call_ensures(
            Controller::command,
            (c, crate::can::Cmd::SetDynamicPeriodic { handle, config }, now, t),
            effects,
        ),
        config matches Some(k) ==> k.repeat == 0,
        other != handle,
    ensures
        !final(c).periodics.map().contains_key(handle),
        !final(c).dynamics.map().contains_key(handle),
        final(c).dynamics.map().contains_key(other) == old(c).dynamics.map().contains_key(other),
        final(c).periodics.map().contains_key(other) == old(c).periodics.map().contains_key(other),
{
}

/// An update is handed on as it was asked for, and one channel is connected like a list of one.
pub proof fn law_updates_are_handed_on(
    c: &mut Controller,
    job: OtaJob,
    now: u64,
    t: i64,
    effects: Vec<Effect>,
    one: &mut Controller,
    cfg: DeviceConfig,
    fx: Vec<Effect>,
)
    requires
        old(c).wf(),
        call_ensures(Controller::command, (c, crate::can::Cmd::OtaRun(job), now, t), effects),
        old(one).wf(),
        call_ensures(Controller::command, (one, crate::can::Cmd::ConnectConfig(cfg), now, t), fx),
        crate::can::zcan::set_fault(seq![cfg@]) is None,
    ensures
        *final(c) == *old(c),
        effects@.len() == 1 && effects@[0] == Effect::Update(job),
        final(one).links@.len() == 0 && !final(one).running && final(one).pending@.len() == 0,
        fx@.len() == 4 && (fx@[3] matches Effect::Open(list) && list@.len() == 1 && list@[0]@ == cfg@),
{
    let a = effects_view(effects@);
    assert(a.len() == effects@.len());
    assert(a[0] == effects@[0]@);
    let b = effects_view(fx@);
    assert(b.len() == fx@.len());
    assert(b[3] == fx@[3]@);
    if let Effect::Open(list) = fx@[3] {
        let v = crate::can::configs_view(list@);
        assert(v == seq![cfg@]);
        assert(v.len() == list@.len());
        assert(v[0] == list@[0]@);
    }
}

/// A script may connect the configured channels, where it is licensed to.
pub proof fn law_configured_channels_are_connected(
    s: &mut IpcState,
    client: u64,
    licence: Licence,
    r: IpcOutcome,
    i: int,
)
    requires
        old(s).handles.wf(),
        call_ensures(IpcState::handle_ipc, (s, client, IpcReq::ConnectConfigured, licence), r),
        0 <= i < old(s).channels@.len(),
    ensures
        *final(s) == *old(s),
        !licence.connect ==> r.commands@.len() == 0,
        licence.connect ==> r.commands@.len() == 1 && (
        r.commands@[0] matches crate::can::Cmd::ConnectChannels(list) && list@.len()
            == old(s).channels@.len() && list@[i]@ == old(s).channels@[i]@),
        r.step matches IpcStep::Reply(reply) && (reply is Connecting <==> licence.connect),
{
    if licence.connect {
        if let crate::can::Cmd::ConnectChannels(list) = r.commands@[0] {
            let a = crate::can::configs_view(list@);
            let b = crate::can::configs_view(old(s).channels@);
            assert(a.len() == list@.len() && b.len() == old(s).channels@.len());
            assert(a[i] == list@[i]@ && b[i] == old(s).channels@[i]@);
        }
    }
}

// ---------------------------------------------------------------- the engine

/// A write goes out as it is planned, or is counted as failed where it cannot be.
pub proof fn law_writes_go_out_as_planned(
    m: &mut MasterState,
    req: WriteReq,
    secs: u64,
    r: (MasterAction, Vec<MasterNotice>),
    plan: Result<(Request, String), String>,
)
    requires
        old(m).wf(),
        call_ensures(MasterState::message, (m, MasterMsg::Write(req), secs), r),
        call_ensures(plan_write, (req,), plan),
        old(m).counts.tx < u64::MAX && old(m).counts.err < u64::MAX,
    ensures
        plan is Ok ==> (r.0 matches MasterAction::Send { requests, .. } && requests@.len() == 1
            && requests@[0]@ == (plan->Ok_0).0@),
        plan is Err ==> r.0 is Nothing,
        final(m).counts.tx == old(m).counts.tx + 1,
        final(m).counts.err == old(m).counts.err + (if plan is Err {
            1int
        } else {
            0
        }),
        final(m).def == old(m).def && final(m).display == old(m).display && final(m).auto
            == old(m).auto,
{
    if let MasterAction::Send { requests, .. } = r.0 {
        let v = requests_view(requests@);
        assert(v.len() == requests@.len());
        assert(v[0] == requests@[0]@);
    }
}

/// What only changes how values are drawn leaves the values, the definition and the counts alone, and
/// has the values drawn again where there are some.
pub proof fn law_drawing_changes_no_values(
    m: &mut MasterState,
    msg: MasterMsg,
    secs: u64,
    r: (MasterAction, Vec<MasterNotice>),
)
    requires
        old(m).wf(),
        msg is SetScaling || msg is SetColors || msg is SetValueNames,
        call_ensures(MasterState::message, (m, msg, secs), r),
    ensures
        final(m).counts == old(m).counts && final(m).def == old(m).def,
        final(m).display.last == old(m).display.last,
        final(m).display.names == old(m).display.names,
        old(m).display.last is Some ==> (r.0 matches MasterAction::Redraw { curves } && (curves <==> msg
            is SetScaling)),
        old(m).display.last is None ==> r.0 is Nothing,
        msg is SetScaling ==> final(m).display.chart.total == 0,
        !(msg is SetScaling) ==> final(m).display.chart == old(m).display.chart,
{
}

/// Files are opened and written under the name that was given, and an address is brought into view
/// only where there is something to see.
pub proof fn law_files_have_their_names(
    e: &mut MasterState,
    path: String,
    secs: u64,
    r: (MasterAction, Vec<MasterNotice>),
    l: &mut MasterState,
    cfg: LogCfg,
    q: (MasterAction, Vec<MasterNotice>),
    f: &mut MasterState,
    addr: u16,
    p: (MasterAction, Vec<MasterNotice>),
)
    requires
        old(e).wf(),
        call_ensures(MasterState::message, (e, MasterMsg::ExportChart(path), secs), r),
        old(l).wf(),
        call_ensures(MasterState::message, (l, MasterMsg::StartLog(cfg), secs), q),
        old(f).wf(),
        call_ensures(MasterState::message, (f, MasterMsg::FocusChartAddress(addr), secs), p),
    ensures
        r.0 == MasterAction::ExportChart(path),
        q.0 == MasterAction::OpenLog(cfg),
        old(f).display.last is Some ==> p.0 == MasterAction::Focus(addr),
        old(f).display.last is None ==> p.0 is Nothing,
        final(e).display == old(e).display && final(l).logger == old(l).logger && final(f).display
            == old(f).display,
{
}

/// A page is turned by twelve curves, forth or back, and not beyond the ends.
pub proof fn law_pages_turn_by_twelve(
    m: &mut MasterState,
    direction: i32,
    secs: u64,
    r: (MasterAction, Vec<MasterNotice>),
)
    requires
        old(m).wf(),
        call_ensures(MasterState::message, (m, MasterMsg::SetChartPage(direction), secs), r),
        old(m).display.chart.page_start % 12 == 0,
        old(m).display.chart.page_start < old(m).display.chart.total,
    ensures
        ({
            let a = old(m).display.chart.page_start;
            let b = final(m).display.chart.page_start;
            let total = old(m).display.chart.total;
            &&& direction > 0 && a + 12 < total ==> b == a + 12
            &&& direction > 0 && a + 12 >= total ==> b == a
            &&& direction < 0 && a >= 12 ==> b == a - 12
            &&& direction < 0 && a < 12 ==> b == 0
            &&& direction == 0 ==> b == a
            &&& r.0 is TurnPage <==> a != b
        }),
        final(m).display.chart.data == old(m).display.chart.data,
{
    let a = old(m).display.chart.page_start as int;
    let total = old(m).display.chart.total as int;
    let last = crate::modbus::chart::last_page(total);
    vstd::arithmetic::div_mod::lemma_fundamental_div_mod(total - 1, 12);
    vstd::arithmetic::div_mod::lemma_fundamental_div_mod(a, 12);
    vstd::arithmetic::div_mod::lemma_mod_bound(total - 1, 12);
    assert(last == 12 * ((total - 1) / 12));
    assert(a == 12 * (a / 12));
}

// ---------------------------------------------------------------- windows

/// The settings of the active window are kept when another one is chosen.
pub proof fn law_chosen_windows_are_active(
    w: &mut Windows,
    id: u32,
    current: UiCfg,
    r: Vec<WinEffect>,
    i: int,
)
    requires
        old(w).wf(),
        call_ensures(Windows::command, (w, Cmd::SelectWindow { id, current }), r),
        0 <= i < old(w).list@.len(),
    ensures
        final(w).active == id,
        final(w).list@.len() == old(w).list@.len(),
        old(w).list@[i].id == old(w).active ==> final(w).list@[i].cfg == current,
        old(w).list@[i].id != old(w).active ==> final(w).list@[i] == old(w).list@[i],
        final(w).list@[i].id == old(w).list@[i].id && final(w).list@[i].engine == old(w).list@[i].engine,
        old(w).list@[i].id == id ==> r@.contains(WinEffect::Show(id)),
{
    if old(w).list@[i].id == old(w).active {
        let at = crate::modbus::windows::place_of(old(w).list@, old(w).active)->0;
        assert(crate::modbus::windows::place_of(old(w).list@, old(w).active) is Some);
        if at < i {
            assert(old(w).list@[at].id != old(w).list@[i].id);
        }
        if i < at {
            assert(old(w).list@[i].id != old(w).list@[at].id);
        }
    }
    if old(w).list@[i].id == id {
        assert(final(w).list@[i].id == id);
        assert(r@[0] == WinEffect::Show(id));
    }
}

/// One search runs at a time, and one server: what ran is stopped before the next is started.
pub proof fn law_one_search_and_one_server(
    a: &mut Windows,
    scan: ScanCfg,
    ra: Vec<WinEffect>,
    b: &mut Windows,
    slaves: SlaveScanCfg,
    rb: Vec<WinEffect>,
    c: &mut Windows,
    rc: Vec<WinEffect>,
    d: &mut Windows,
    server: SlaveCfg,
    rd: Vec<WinEffect>,
    e: &mut Windows,
    re: Vec<WinEffect>,
)
    requires
        old(a).wf() && old(b).wf() && old(c).wf() && old(d).wf() && old(e).wf(),
        call_ensures(Windows::command, (a, Cmd::ScanAddress(scan)), ra),
        call_ensures(Windows::command, (b, Cmd::ScanSlave(slaves)), rb),
        call_ensures(Windows::command, (c, Cmd::ScanStop), rc),
        call_ensures(Windows::command, (d, Cmd::SlaveStart(server)), rd),
        call_ensures(Windows::command, (e, Cmd::SlaveStop), re),
    ensures
        final(a).scan && final(b).scan && !final(c).scan,
        ra@.last() == WinEffect::ScanAddress(scan) && rb@.last() == WinEffect::ScanSlave(slaves),
        old(a).scan ==> ra@.len() == 2 && ra@[0] is StopScan,
        !old(a).scan ==> ra@.len() == 1,
        old(c).scan ==> rc@[0] is StopScan,
        final(d).slave && !final(e).slave,
        rd@.last() == WinEffect::StartSlave(server),
        old(d).slave ==> rd@.len() == 2 && rd@[0] is StopSlave,
        old(e).slave ==> re@[0] is StopSlave,
        final(a).list == old(a).list && final(c).list == old(c).list && final(d).list == old(d).list,
{
}

/// A request to the server reaches it where it runs.
pub proof fn law_requests_reach_the_server(w: &mut Windows, msg: SlaveMsg, r: Vec<WinEffect>)
    requires
        old(w).wf(),
        call_ensures(Windows::command, (w, Cmd::Slave(msg)), r),
    ensures
        *final(w) == *old(w),
        old(w).slave ==> r@ == seq![WinEffect::ToSlave(msg)],
        !old(w).slave ==> r@.len() == 0,
{
}

// ---------------------------------------------------------------- the server

/// What the user sets of the server's windows is set, and its tables stay as they are.
pub proof fn law_server_windows_are_set(
    u: &mut SlaveUpdater,
    store: &mut DataStore,
    msg: SlaveMsg,
    r: SlaveAction,
)
    requires
        old(u).wf(),
        call_ensures(SlaveUpdater::message, (u, store, msg), r),
        !(msg is Edit) && !(msg is EditAt),
    ensures
        final(store)@ == old(store)@,
        msg matches SlaveMsg::SetView(view) ==> final(u).view == view && final(u).chart.total == 0,
        !(msg is SetView) ==> final(u).view == old(u).view,
        msg matches SlaveMsg::SetCellFormat { address, format } ==> (format is Some ==> final(
            u
        ).cell_formats.map().contains_key(address as u64) && final(u).cell_formats.map()[address as u64]
            == format->0) && (format is None ==> !final(u).cell_formats.map().contains_key(
            address as u64,
        )),
        msg matches SlaveMsg::ExportCsv(path) ==> (r matches SlaveAction::Write { path: p, .. } && p
            == path),
        msg is SetColors || msg is SetValueNames ==> final(u).chart == old(u).chart && r is Render,
        !(msg is SimStart) && !(msg is SimStop) ==> final(u).sim == old(u).sim,
        !(msg is ToggleAutoInc) ==> final(u).auto_inc == old(u).auto_inc,
{
}

} // verus!
