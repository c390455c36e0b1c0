//! Laws on what the workbench keeps from one call to the next.
use crate::can::controller::{effects_view, Controller, Effect};
use crate::can::pcan::PcanChannelInfo;
use crate::can::queue::{EventSender, PlaybackEventSend};
use crate::can::zcan_scan::ZcanUsbChannelInfo;
use crate::can::{CanFrame, Cmd, DeviceConfig, Evt};
use crate::modbus::chart::{points, ChartRow, ChartState};
use crate::modbus::log::lines_view;
use crate::modbus::master::Reply;
use crate::modbus::scan::Scan;
use crate::text;
use crate::workbench::batches::{poll, AckError, Pending, Target};
use crate::workbench::channels::{renumber_channel_slice, ChannelList};
use crate::workbench::curves::ZoomState;
use crate::workbench::hardware::{reconcile_stable_hardware, reconciled, HardwareScan};
use crate::workbench::ipc::IpcHandles;
use crate::workbench::message_rows::{Refresh, TableState, TableView};
use crate::workbench::messages::{decides, first_new, FrameRec, TableCache};
use crate::workbench::project::commit_channel_edit;
use crate::workbench::requests::{IpcOutcome, IpcReq, IpcState, Licence};
use crate::workbench::scripts::{append_output, ScriptRun};
use crate::workbench::signals::{kept_after, shown_signal, DecodedView};
use crate::workbench::status::{ConnectionState, ConnectOutcome, LossState};
use crate::workbench::tx_tasks::{ListRead, TxList, TxTask};
use std::collections::VecDeque;
use vstd::prelude::*;

verus! {

// ---------------------------------------------------------------- commands and requests

/// Commands of the user and requests of scripts are obeyed, one at a time, from the state that the
/// one before left.
pub proof fn law_commands_are_obeyed(
    c: &mut Controller,
    cmd: Cmd,
    now: u64,
    t: i64,
    effects: Vec<Effect>,
    s: &mut IpcState,
    client: u64,
    req: IpcReq,
    licence: Licence,
    r: IpcOutcome,
)
    requires
        old(c).wf(),
        call_ensures(Controller::command, (c, cmd, now, t), effects),
        old(s).handles.wf(),
        call_ensures(IpcState::handle_ipc, (s, client, req, licence), r),
    ensures
        final(c).wf(),
        final(c).obeys(old(c), cmd, now, t, effects_view(effects@)),
        final(s).handles.wf(),
        final(s).obeys(old(s), client, req, licence, r),
{
}

/// An event that finds no room is counted, one that goes through is not, and each is offered once.
pub proof fn law_lost_events_are_counted(
    s: &mut EventSender,
    event: Evt,
    r: Result<(), ()>,
    p: &mut EventSender,
    frame: CanFrame,
    q: PlaybackEventSend,
)
    requires
        call_ensures(EventSender::send, (s, event), r),
        call_ensures(EventSender::try_send_playback_frame, (p, frame), q),
        old(s).dropped_events < u64::MAX,
        old(p).dropped_events < u64::MAX,
    ensures
        r is Ok ==> final(s).dropped_events == old(s).dropped_events,
        r is Err ==> final(s).dropped_events == old(s).dropped_events + 1,
        final(s).dropped_frames == old(s).dropped_frames,
        final(s).record().len() == old(s).record().len() + 1,
        final(s).record().last().item == event,
        q is Disconnected ==> final(p).dropped_events == old(p).dropped_events + 1,
        !(q is Disconnected) ==> final(p).dropped_events == old(p).dropped_events,
        final(p).high_watermark >= old(p).high_watermark,
        final(s).high_watermark >= old(s).high_watermark,
{
}

/// Frames that find no room are counted one by one.
pub proof fn law_lost_frames_are_counted(s: &mut EventSender, frames: Vec<CanFrame>)
    requires
        call_ensures(EventSender::send_frames, (s, frames), ()),
        old(s).dropped_frames + frames@.len() <= u64::MAX,
    ensures
        final(s).dropped_frames == old(s).dropped_frames || final(s).dropped_frames
            == old(s).dropped_frames + frames@.len(),
        final(s).dropped_events == old(s).dropped_events,
        final(s).record() == old(s).record() && frames@.len() > 0 ==> final(s).dropped_frames
            == old(s).dropped_frames + frames@.len(),
        frames@.len() == 0 ==> *final(s) == *old(s),
{
    if frames@.len() > 0 {
        if final(s).record() == old(s).record() {
            assert(final(s).record().len() == old(s).record().len());
        }
    }
}

// ---------------------------------------------------------------- status

/// What is shown of a connection is what was told last; whoever waited for it is told once whether
/// it succeeded.
pub proof fn law_connections_are_shown(
    s: &mut ConnectionState,
    channels: &[u8],
    name: String,
    error: Option<String>,
    english: bool,
    r: (Option<String>, Option<ConnectOutcome>),
)
    requires
        call_ensures(ConnectionState::connected, (s, channels, name, error, english), r),
        channels@.no_duplicates(),
    ensures
        final(s).connected <==> channels@.len() > 0,
        final(s).channels@ == channels@,
        !final(s).pending,
        r.1 is Some <==> old(s).pending,
        r.1 is Some ==> (r.1->0.success <==> error is None && channels@.len() > 0 && channels@.len()
            == old(s).expected),
        channels@.len() == 0 ==> final(s).name@.len() == 0,
        channels@.len() > 0 && name@.len() > 0 ==> final(s).name@ == name@,
{
    crate::laws::arranging::law_connected_channels_count_once(channels@);
}

/// Losses are told when there are more than before, and what is held is what was told last.
pub proof fn law_losses_are_shown(
    s: &mut LossState,
    now: LossState,
    r: (Option<String>, Option<String>),
)
    requires
        call_ensures(LossState::update, (s, now), r),
    ensures
        *final(s) == now,
        r.0 is Some <==> now.dropped_frames > old(s).dropped_frames,
        r.1 is Some <==> now.command_rejected > old(s).command_rejected,
{
}

/// Hardware is searched for where no search is on its way and the last one is two seconds ago.
pub proof fn law_hardware_is_searched_for(s: &mut HardwareScan, now: u64, english: bool, r: bool)
    requires
        call_ensures(HardwareScan::begin, (s, now, english), r),
    ensures
        r ==> !old(s).in_progress && final(s).in_progress && final(s).last == Some(now),
        r <==> !old(s).in_progress && (old(s).last matches Some(t) ==> now >= t + 2_000_000_000),
        old(s).in_progress ==> final(s).in_progress,
        !r ==> final(s).status@ == old(s).status@,
{
}

/// A zoom moves both ends towards its goal until it arrives, and then rests.
pub proof fn law_zooms_come_to_rest(z: &mut ZoomState)
    requires
        call_ensures(ZoomState::advance_chart_zoom, (z,), ()),
    ensures
        old(z).target is None || old(z).view is None ==> *final(z) == *old(z),
        old(z).target is Some && old(z).view is Some && final(z).target is None ==> final(z).view
            == old(z).target,
        old(z).view == old(z).target ==> final(z).view == old(z).view && final(z).target is None,
        old(z).target is Some && old(z).view is Some && final(z).target is Some ==> {
            let a = (old(z).view->0).0;
            let b = (old(z).target->0).0;
            let m = (final(z).view->0).0;
            &&& final(z).target == old(z).target
            &&& a <= b ==> a <= m <= b
            &&& b <= a ==> b <= m <= a
        },
{
    if old(z).target is Some && old(z).view is Some {
        let a = old(z).view->0;
        let b = old(z).target->0;
        crate::workbench::curves::law_zoom_moves_towards_its_goal(a.0 as int, b.0 as int);
        crate::workbench::curves::law_zoom_moves_towards_its_goal(a.1 as int, b.1 as int);
    }
}

// ---------------------------------------------------------------- channels

/// An edit of the channels is taken whole or not at all; after it the edit has nothing left to do.
pub proof fn law_edits_are_taken_whole(l: &mut ChannelList, r: Result<usize, String>, i: int)
    requires
        old(l).shown().len() <= i32::MAX,
        call_ensures(commit_channel_edit, (l,), r),
        0 <= i < old(l).shown().len(),
    ensures
        r is Err ==> final(l).channels == old(l).channels && final(l).selected == old(l).selected,
        r is Ok ==> final(l).channels@.len() == old(l).shown().len() && final(l).channels@[i]@
            == old(l).shown()[i]@ && !final(l).edit->0.dirty && r->Ok_0 == old(l).shown().len(),
        r is Ok ==> 0 <= final(l).selected < old(l).shown().len(),
{
    let edited = crate::can::configs_view(old(l).shown());
    let after = crate::can::configs_view(final(l).channels@);
    assert(edited.len() == old(l).shown().len() && after.len() == final(l).channels@.len());
    if r is Ok {
        assert(after[i] == final(l).channels@[i]@);
        assert(edited[i] == old(l).shown()[i]@);
    }
}

/// An edit begins with the channels as they are, and one that has begun goes on; what is shown is
/// the edit, and its selection stays inside it.
pub proof fn law_edits_begin_with_the_channels(l: &mut ChannelList, shown: &ChannelList, r: i32, i: int)
    requires
        call_ensures(ChannelList::ensure_channel_edit_session, (l,), ()),
        shown.shown().len() <= i32::MAX,
        call_ensures(ChannelList::normalized_channel_selection, (shown,), r),
        0 <= i < old(l).channels@.len(),
    ensures
        final(l).channels == old(l).channels && final(l).selected == old(l).selected,
        final(l).edit is Some,
        old(l).edit is Some ==> final(l).edit == old(l).edit,
        old(l).edit is None ==> final(l).edit->0.channels@.len() == old(l).channels@.len() && final(
            l
        ).edit->0.channels@[i]@ == old(l).channels@[i]@ && !final(l).edit->0.dirty,
        shown.shown().len() == 0 ==> r == -1,
        shown.shown().len() > 0 ==> 0 <= r < shown.shown().len(),
        0 <= shown.chosen() < shown.shown().len() ==> r == shown.chosen(),
{
    if old(l).edit is None {
        let a = crate::can::configs_view(final(l).edit->0.channels@);
        let b = crate::can::configs_view(old(l).channels@);
        assert(a.len() == final(l).edit->0.channels@.len() && b.len() == old(l).channels@.len());
        assert(a[i] == final(l).edit->0.channels@[i]@ && b[i] == old(l).channels@[i]@);
    }
}

/// When hardware was found, each channel of the list is put where its own hardware is, and nothing is
/// selected or edited by it.
pub proof fn law_lists_follow_their_hardware(
    l: &mut ChannelList,
    pcan: &[PcanChannelInfo],
    usb: &[ZcanUsbChannelInfo],
    i: int,
)
    requires
        call_ensures(reconcile_stable_hardware, (l, pcan, usb), ()),
        0 <= i < old(l).channels@.len(),
    ensures
        final(l).channels@.len() == old(l).channels@.len(),
        final(l).channels@[i]@ == reconciled(
            old(l).channels@[i]@,
            crate::workbench::channels::pcan_view(pcan@),
            crate::workbench::hardware::usb_view(usb@),
            true,
        ),
        final(l).selected == old(l).selected,
        final(l).edit is Some <==> old(l).edit is Some,
        old(l).edit is Some ==> final(l).edit->0.selected == old(l).edit->0.selected && final(
            l
        ).edit->0.dirty == old(l).edit->0.dirty,
{
    let a = crate::can::configs_view(final(l).channels@);
    let b = crate::can::configs_view(old(l).channels@);
    assert(a.len() == final(l).channels@.len() && b.len() == old(l).channels@.len());
    assert(a[i] == final(l).channels@[i]@ && b[i] == old(l).channels@[i]@);
}

/// Channels are renumbered in place: each keeps everything but its number.
pub proof fn law_channels_are_renumbered(channels: &mut Vec<DeviceConfig>, i: int)
    requires
        call_ensures(renumber_channel_slice, (channels,), ()),
        0 <= i < old(channels)@.len() <= 255,
    ensures
        final(channels)@.len() == old(channels)@.len(),
        final(channels)@[i].sw_channel == i + 1,
        final(channels)@[i].device_type@ == old(channels)@[i].device_type@,
        final(channels)@[i].channel_index == old(channels)@[i].channel_index,
        final(channels)@[i].baud@ == old(channels)@[i].baud@,
        final(channels)@[i].hardware_id@ == old(channels)@[i].hardware_id@,
{
    let a = crate::can::configs_view(final(channels)@);
    let b = crate::can::configs_view(old(channels)@);
    assert(a.len() == final(channels)@.len() && b.len() == old(channels)@.len());
    assert(a[i] == final(channels)@[i]@ && b[i] == old(channels)@[i]@);
}

// ---------------------------------------------------------------- confirmations

/// Nothing is awaited past its deadline, and what is not awaited any more was answered.
pub proof fn law_confirmations_end(
    p: &mut Vec<Pending>,
    now: u64,
    r: Vec<(Target, Result<u64, AckError>)>,
    i: int,
)
    requires
        call_ensures(poll, (p, now), r),
        0 <= i < final(p)@.len(),
    ensures
        now < final(p)@[i].deadline,
{
}

/// Every confirmation that is awaited is either still awaited or answered.
pub proof fn law_confirmations_are_not_lost(
    p: &mut Vec<Pending>,
    now: u64,
    r: Vec<(Target, Result<u64, AckError>)>,
)
    requires
        call_ensures(poll, (p, now), r),
    ensures
        final(p)@.len() + r@.len() == old(p)@.len(),
{
    let (looks, after) = choose|looks: crate::workbench::batches::Looks, after: Seq<Pending>|
        {
            &&& looks.len() == old(p)@.len()
            &&& #[trigger] crate::workbench::batches::looked_into(old(p)@, looks, after)
            &&& final(p)@ == crate::workbench::batches::kept(after, looks, now)
            &&& crate::workbench::batches::answers(
                r@,
                after,
                looks,
                now,
                crate::workbench::batches::settled(after, looks, now),
            )
        };
    lemma_kept_or_settled(after, looks, now);
}

proof fn lemma_kept_or_settled(all: Seq<Pending>, looks: crate::workbench::batches::Looks, now: u64)
    ensures
        crate::workbench::batches::kept(all, looks, now).len() + crate::workbench::batches::settled(
            all,
            looks,
            now,
        ).len() == all.len(),
    decreases all.len(),
{
    if all.len() > 0 {
        lemma_kept_or_settled(all.drop_last(), looks, now);
    }
}

proof fn lemma_settled_places(
    all: Seq<Pending>,
    looks: crate::workbench::batches::Looks,
    now: u64,
    k: int,
)
    requires
        0 <= k < crate::workbench::batches::settled(all, looks, now).len(),
    ensures
        0 <= crate::workbench::batches::settled(all, looks, now)[k] < all.len(),
    decreases all.len(),
{
    if all.len() > 0 {
        let rest = all.drop_last();
        let before = crate::workbench::batches::settled(rest, looks, now);
        if k < before.len() {
            lemma_settled_places(rest, looks, now, k);
        }
    }
}

/// An answer goes to someone who waited for it.
pub proof fn law_answers_go_to_who_waited(
    p: &mut Vec<Pending>,
    now: u64,
    r: Vec<(Target, Result<u64, AckError>)>,
    k: int,
)
    requires
        call_ensures(poll, (p, now), r),
        0 <= k < r@.len(),
    ensures
        exists|i: int| 0 <= i < old(p)@.len() && r@[k].0 == (#[trigger] old(p)@[i]).target,
{
    let (looks, after) = choose|looks: crate::workbench::batches::Looks, after: Seq<Pending>|
        {
            &&& looks.len() == old(p)@.len()
            &&& #[trigger] crate::workbench::batches::looked_into(old(p)@, looks, after)
            &&& final(p)@ == crate::workbench::batches::kept(after, looks, now)
            &&& crate::workbench::batches::answers(
                r@,
                after,
                looks,
                now,
                crate::workbench::batches::settled(after, looks, now),
            )
        };
    lemma_settled_places(after, looks, now, k);
    let i = crate::workbench::batches::settled(after, looks, now)[k];
    assert(after[i].target == old(p)@[i].target);
}

// ---------------------------------------------------------------- tasks and scripts

/// News of a task changes the task with that handle and no other.
pub proof fn law_news_reach_their_task(
    l: &mut TxList,
    handle: u64,
    sent: u64,
    r: Option<Evt>,
    next: u64,
    i: int,
)
    requires
        old(l).wf(next),
        call_ensures(TxList::event, (l, Evt::PeriodicProgress { handle, sent }), r),
        0 <= i < old(l).tasks@.len(),
    ensures
        r is None,
        final(l).tasks@.len() == old(l).tasks@.len(),
        final(l).tasks@[i].handle == old(l).tasks@[i].handle,
        old(l).tasks@[i].handle == handle ==> final(l).tasks@[i].sent == sent && final(l).dirty,
        old(l).tasks@[i].handle != handle ==> final(l).tasks@[i] == old(l).tasks@[i],
        old(l).tasks@[i].periodic == final(l).tasks@[i].periodic,
{
    if old(l).tasks@[i].handle == handle {
        assert forall|j: int| 0 <= j < i implies (#[trigger] old(l).tasks@[j]).handle != handle by {
            assert(old(l).tasks@[j].handle != old(l).tasks@[i].handle);
        }
        assert(crate::workbench::tx_tasks::is_first(old(l).tasks@, handle, i));
        let hs = crate::workbench::tx_tasks::handles(old(l).tasks@);
        assert(hs[i] == handle);
    }
}

/// A list that is read takes the place of the one before, whose tasks are all stopped; one that
/// cannot be read changes nothing.
pub proof fn law_lists_are_replaced(
    l: &mut TxList,
    read: Result<Vec<TxTask>, String>,
    numbers: &mut IpcHandles,
    r: ListRead,
    i: int,
)
    requires
        old(numbers).wf(),
        read matches Ok(tasks) ==> old(numbers).next() + tasks@.len() <= u64::MAX,
        call_ensures(TxList::list_read, (l, read, numbers), r),
        0 <= i < old(l).tasks@.len(),
    ensures
        read is Err ==> *final(l) == *old(l) && r.stop@.len() == 0,
        read is Ok ==> r.stop@.len() == old(l).tasks@.len() && r.stop@[i] == old(l).tasks@[i].handle,
        read matches Ok(tasks) ==> final(l).tasks@.len() == tasks@.len() && final(numbers).next()
            == old(numbers).next() + tasks@.len(),
{
}

/// A script that is over has a result: the one that it told, or whether it went through.
pub proof fn law_ended_scripts_have_a_result(
    s: &mut ScriptRun,
    success: bool,
    d: &mut ScriptRun,
    now: u64,
    r: bool,
)
    requires
        call_ensures(ScriptRun::ended, (s, success), ()),
        call_ensures(ScriptRun::stop_if_due, (d, now), r),
    ensures
        !final(s).running && final(s).started is None,
        text::has_prefix(old(s).status@, "PASS"@) ==> final(s).status@ == old(s).status@,
        text::has_prefix(old(s).status@, "FAIL"@) ==> final(s).status@ == old(s).status@,
        !text::has_prefix(old(s).status@, "PASS"@) && !text::has_prefix(old(s).status@, "FAIL"@)
            ==> final(s).status@ == (if success {
            "PASS"@
        } else {
            "FAIL"@
        }),
        r ==> old(d).running && !final(d).running,
        old(d).running && old(d).stop_asked ==> r,
        !r ==> final(d).running == old(d).running && final(d).status == old(d).status,
        !final(d).stop_asked,
{
}

/// Output comes at the end, a line each, and no more than 200,000 bytes are kept.
pub proof fn law_output_is_appended(output: &mut String, lines: &[String], r: bool)
    requires
        call_ensures(append_output, (output, lines), r),
    ensures
        r <==> lines@.len() > 0,
        lines@.len() == 0 ==> final(output)@ == old(output)@,
        lines@.len() > 0 ==> crate::workbench::scripts::text_bytes(final(output)@) <= 200_000,
        lines@.len() > 0 && final(output)@.len() > 0 ==> final(output)@.last() == '\n',
        ({
            let all = old(output)@ + crate::workbench::scripts::lines_text(text::texts(lines@));
            lines@.len() > 0 && crate::workbench::scripts::text_bytes(all) <= 200_000 ==> final(
                output
            )@ == all
        }),
{
    if lines@.len() > 0 {
        let words = text::texts(lines@);
        assert(words.len() == lines@.len());
        let body = crate::workbench::scripts::lines_text(words);
        let all = old(output)@ + body;
        crate::laws::arranging::law_the_end_of_the_output_is_kept(all, 200_000);
        assert(body.len() > 0 && body.last() == '\n');
        assert(all.last() == '\n');
    }
}

// ---------------------------------------------------------------- the message table

/// A table is built anew for another limit, other settings or a recording that began again, brought
/// up to date for new frames, and left alone while it is paused or stands.
pub proof fn law_tables_are_brought_up_to_date(
    s: &mut TableState,
    limit: usize,
    view: &TableView,
    last_no: u64,
    scanned_no: u64,
    r: Refresh,
)
    requires
        call_ensures(TableState::refresh, (s, limit, view, last_no, scanned_no), r),
        view.signature != u64::MAX,
        old(s).last_signature != u64::MAX,
    ensures
        limit != old(s).trace_limit ==> r is Restart,
        limit == old(s).trace_limit && view.signature == old(s).last_signature ==> r is Keep,
        limit == old(s).trace_limit && view.paused ==> r is Keep,
        limit == old(s).trace_limit && view.mode_trace && !view.autoscroll && view.config
            == old(s).config ==> r is Keep,
        limit == old(s).trace_limit && !view.paused && view.signature != old(s).last_signature && (
        !view.mode_trace || view.autoscroll) ==> (r is Update <==> view.config == old(s).config
            && last_no >= scanned_no) && !(r is Keep),
        !(r is Keep) ==> final(s).last_signature == view.signature && final(s).config == view.config,
        final(s).trace_limit == limit,
{
}

proof fn lemma_new(recs: Seq<FrameRec>, scanned: u64, k: int)
    requires
        0 <= k <= recs.len(),
    ensures
        ({
            let n = first_new(recs, scanned, k);
            &&& 0 <= n <= k
            &&& n > 0 ==> recs[n - 1].no <= scanned
            &&& forall|j: int| n <= j < k ==> (#[trigger] recs[j]).no > scanned
        }),
    decreases k,
{
    if k > 0 && recs[k - 1].no > scanned {
        lemma_new(recs, scanned, k - 1);
    }
}

/// Frames are looked at once: those with a greater number than the last one that was looked at, up
/// to the end of the recording. What the recording no longer holds is forgotten.
pub proof fn law_frames_are_looked_at_once<F: Fn(&FrameRec) -> bool>(
    c: &mut TableCache,
    trace: &VecDeque<FrameRec>,
    accept: F,
    r: usize,
    k: u64,
)
    requires
        old(c).wf(),
        decides(accept),
        call_ensures(TableCache::sync_latest::<F>, (c, trace, accept), r),
        trace@.len() > 0,
    ensures
        r <= trace@.len(),
        forall|j: int| trace@.len() - r <= j < trace@.len() ==> (#[trigger] trace@[j]).no > old(c).scanned_no,
        r < trace@.len() ==> trace@[trace@.len() - r - 1].no <= old(c).scanned_no,
        final(c).scanned_no == trace@.last().no,
        final(c)@.latest.contains_key(k) ==> final(c)@.latest[k].no >= trace@[0].no,
        final(c)@.recent.len() > 0 ==> final(c)@.recent[0].no >= trace@[0].no,
        final(c)@.recent.len() <= 1500,
{
    lemma_new(trace@, old(c).scanned_no, trace@.len() as int);
    let start = first_new(trace@, old(c).scanned_no, trace@.len() as int);
    let new = crate::workbench::messages::chosen(trace@.skip(start), accept);
    lemma_from(crate::lists::newest(old(c)@.recent + new, 1500), trace@[0].no);
}

proof fn lemma_from(recs: Seq<crate::workbench::messages::RecView>, oldest: u64)
    ensures
        ({
            let r = crate::workbench::messages::from_number(recs, oldest);
            &&& r.len() <= recs.len()
            &&& r.len() > 0 ==> r[0].no >= oldest
        }),
    decreases recs.len(),
{
    if recs.len() > 0 && recs[0].no < oldest {
        lemma_from(recs.skip(1), oldest);
    }
}

/// A signal of a branch that is not selected shows what it showed last, where it was seen; one that
/// is selected shows itself.
pub proof fn law_branches_show_what_they_showed(
    kept: Map<(u64, Seq<char>), DecodedView>,
    key: u64,
    s: DecodedView,
    before: Seq<DecodedView>,
)
    ensures
        s.mux_active ==> shown_signal(kept, key, s) == (s, true),
        !s.mux_active && !kept.contains_key((key, s.name)) ==> shown_signal(kept, key, s) == (s, false),
        !s.mux_active && kept.contains_key((key, s.name)) ==> {
            let r = shown_signal(kept, key, s);
            &&& r.1 && !r.0.mux_active
            &&& r.0.physical_text == kept[(key, s.name)].physical_text
            &&& r.0.raw_text == kept[(key, s.name)].raw_text
        },
        s.mux_active && s.mux_value is Some ==> kept_after(kept, key, before.push(s)).contains_key(
            (key, s.name),
        ) && kept_after(kept, key, before.push(s))[(key, s.name)] == s,
        !(s.mux_active && s.mux_value is Some) ==> kept_after(kept, key, before.push(s)) == kept_after(
            kept,
            key,
            before,
        ),
{
    assert(before.push(s).drop_last() =~= before);
}

// ---------------------------------------------------------------- curves and searches

/// The newest value of each point comes last in its curve, which goes on as long as the points stay
/// the same, and begins anew with others.
pub proof fn law_curves_go_on(c: &mut ChartState, rows: &[ChartRow], i: int)
    requires
        old(c).wf(),
        call_ensures(ChartState::update, (c, rows), ()),
        0 <= i < points(rows@).len() <= 12,
        old(c).page_start == 0,
    ensures
        final(c).page_start == 0,
        final(c).total == points(rows@).len(),
        final(c).addrs@.len() == points(rows@).len(),
        final(c).addrs@[i] == points(rows@)[i].0,
        final(c).data@[i]@.len() > 0,
        final(c).data@[i]@.last() == points(rows@)[i].1,
        final(c).data@[i]@.len() <= 600,
        final(c).addrs@ == old(c).addrs@ && old(c).data@[i]@.len() < 600 ==> final(c).data@[i]@
            == old(c).data@[i]@.push(points(rows@)[i].1),
        final(c).addrs@ != old(c).addrs@ ==> final(c).data@[i]@.len() == 1,
{
    let all = points(rows@);
    let shown = crate::modbus::chart::page_points(all, 0);
    assert(shown =~= all);
    if final(c).addrs@ == old(c).addrs@ && old(c).data@[i]@.len() < 600 {
        assert(final(c).data@[i]@ =~= old(c).data@[i]@.push(all[i].1));
    }
}

/// Each probe of a search is counted, and those that were answered; each has a line.
pub proof fn law_probes_are_counted(s: &mut Scan, reply: Reply, secs: u64, r: String)
    requires
        old(s).wf(),
        old(s).done < old(s).kind.probes(),
        call_ensures(Scan::answered, (s, reply, secs), r),
    ensures
        final(s).done == old(s).done + 1,
        reply is Regs || reply is Bits ==> final(s).found == old(s).found + 1,
        !(reply is Regs || reply is Bits) ==> final(s).found == old(s).found,
        final(s).rows@.len() == old(s).rows@.len() + 1,
        final(s).kind == old(s).kind && final(s).area == old(s).area,
{
    assert(lines_view(old(s).rows@).len() == old(s).rows@.len());
    assert(lines_view(final(s).rows@).len() == final(s).rows@.len());
}

} // verus!
