//! Laws on scripts: which requests are carried out, and what becomes of them.
use crate::can::{CanFrame, Cmd, DeviceConfig};
use crate::ends::Taken;
use crate::workbench::batches::{settle, submit_refusal, ACK_TIMEOUT, AckError, PENDING_LIMIT};
use crate::workbench::ipc::{
    connect_configured, frame_fault, ipc_fanout, is_held_for, law_clients_own_their_handles, owned,
    recent_logs, script_handle, sent_frames, start_capture, validate_ipc_tx_frame, IpcFrame,
    IpcReply, IpcStep,
};
use crate::workbench::requests::{IpcOutcome, IpcReq, IpcState, Licence};
use vstd::prelude::*;

verus! {

// ---------------------------------------------------------------- frames

/// Whether a frame can go on a bus: identifiers of 11 bits, or of 29 where they are extended; up to
/// eight bytes, or a length that an FD frame can have; a fast data phase on FD frames only, and
/// remote frames only without data and not on FD.
pub open spec fn can_be_sent(f: IpcFrame) -> bool {
    let n = f.data@.len();
    &&& f.ch >= 1
    &&& f.id < if f.ext {
        0x2000_0000u32
    } else {
        0x800u32
    }
    &&& if f.fd {
        !f.remote && (n <= 8 || n <= 24 && n % 4 == 0 || n == 32 || n == 48 || n == 64)
    } else {
        !f.brs && n <= 8 && (f.remote ==> n == 0)
    }
}

/// Whether a frame on the bus is the one that was asked for.
pub open spec fn is_asked(frame: CanFrame, f: IpcFrame) -> bool {
    &&& frame.ch == f.ch
    &&& frame.id == f.id
    &&& frame.ext == f.ext
    &&& frame.fd == f.fd
    &&& frame.brs == f.brs
    &&& frame.remote == f.remote
    &&& frame.data@ == f.data@
    &&& frame.tx
    &&& !frame.error
}

/// A script's frame is accepted exactly if it can go on a bus, and then it is sent as it was given.
pub proof fn law_script_frames_are_sent_as_given(f: IpcFrame, r: Result<CanFrame, String>)
    requires
        call_ensures(validate_ipc_tx_frame, (&f,), r),
    ensures
        r is Ok <==> can_be_sent(f),
        r matches Ok(frame) ==> is_asked(frame, f),
{
}

/// A frame to send once is handed on if it can go on a bus and sending is licensed; else it is
/// answered at once. Nothing else changes.
pub proof fn law_single_requests_send_their_frame(
    before: IpcState,
    after: IpcState,
    client: u64,
    f: IpcFrame,
    licence: Licence,
    r: IpcOutcome,
)
    requires
        after.obeys(&before, client, IpcReq::SendOnce(f), licence, r),
    ensures
        after == before,
        r.commands@.len() == 0,
        can_be_sent(f) && licence.transmit <==> r.step matches IpcStep::Submit(Cmd::SendOnce(_)),
        r.step matches IpcStep::Submit(Cmd::SendOnce(frame)) ==> is_asked(frame, f),
        r.step is Submit || r.step is Reply,
{
}

proof fn lemma_bad_frames(frames: Seq<IpcFrame>, from: int)
    requires
        0 <= from,
    ensures
        crate::workbench::ipc::first_bad(frames, from) is None <==> forall|i: int|
            from <= i < frames.len() ==> can_be_sent(#[trigger] frames[i]),
    decreases frames.len() - from,
{
    if from < frames.len() {
        assert(frame_fault(frames[from]) is None <==> can_be_sent(frames[from]));
        lemma_bad_frames(frames, from + 1);
    }
}

/// A batch is handed on if sending is licensed, it holds frames, each of them can go on a bus, it
/// runs at least once and no more than a hundred thousand frames come of it. The frames and the
/// number of times are those that were asked for.
pub proof fn law_batch_requests_send_their_frames(
    before: IpcState,
    after: IpcState,
    client: u64,
    frames: Vec<IpcFrame>,
    repeat: u32,
    licence: Licence,
    r: IpcOutcome,
)
    requires
        after.obeys(&before, client, IpcReq::SendBatch { frames, repeat }, licence, r),
    ensures
        after == before,
        r.commands@.len() == 0,
        r.step is Batch || r.step is Reply,
        r.step is Batch <==> licence.transmit && frames@.len() > 0 && repeat > 0 && frames@.len()
            * repeat <= 100_000 && forall|i: int|
            0 <= i < frames@.len() ==> can_be_sent(#[trigger] frames@[i]),
        r.step matches IpcStep::Batch { frames: out, repeat: n } ==> n == repeat && out@.len()
            == frames@.len() && forall|i: int|
            0 <= i < frames@.len() ==> is_asked(#[trigger] out@[i], frames@[i]),
{
    lemma_bad_frames(frames@, 0);
    if let IpcStep::Batch { frames: out, repeat: n } = r.step {
        let sent = crate::can::frames_view(out@);
        assert(sent.len() == out@.len());
        assert forall|i: int| 0 <= i < frames@.len() implies is_asked(#[trigger] out@[i], frames@[i]) by {
            assert(sent[i] == out@[i]@);
            assert(sent_frames(frames@)[i] == crate::workbench::ipc::sent_frame(frames@[i]));
        }
    }
}

// ---------------------------------------------------------------- periodic frames

/// Whether a command switches a periodic frame off.
pub open spec fn switches_off(c: Cmd, h: u64) -> bool {
    c matches Cmd::SetPeriodic { handle, enable, .. } && handle == h && !enable
}

/// Whether a command has a frame sent with a period, a millisecond at least, and a number of times.
pub open spec fn keeps_sending(c: Cmd, h: u64, f: IpcFrame, ms: u64, times: i64) -> bool {
    c matches Cmd::SetPeriodic { handle, frame, period_ms, repeat, enable } && {
        &&& handle == h
        &&& is_asked(frame, f)
        &&& period_ms == ms || ms == 0 && period_ms == 1
        &&& repeat == times
        &&& enable
    }
}

/// A frame to send again and again is started under a new handle with the period and the number of
/// times that were asked for, a millisecond at least. The client's number now stands for it; what
/// the number stood for before is switched off first.
pub proof fn law_periodic_requests_start_their_frame(
    before: IpcState,
    after: IpcState,
    client: u64,
    number: u64,
    frame: IpcFrame,
    period_ms: u64,
    repeat: i64,
    licence: Licence,
    r: IpcOutcome,
)
    requires
        after.obeys(
            &before,
            client,
            IpcReq::SetPeriodic { number, frame, period_ms, repeat },
            licence,
            r,
        ),
    ensures
        r.step is Periodic <==> licence.transmit && can_be_sent(frame),
        !(r.step is Periodic) ==> after == before && r.commands@.len() == 0,
        r.step is Periodic ==> {
            let held = before.handles.map();
            &&& r.step matches IpcStep::Periodic { number: n, handle, start } && n == number
                && handle >= 0x8000_0000_0000_0000 && after.handles.map() == held.insert(
                (client, number),
                handle,
            ) && keeps_sending(start, handle, frame, period_ms, repeat)
            &&& !held.contains_key((client, number)) ==> r.commands@.len() == 0
            &&& held.contains_key((client, number)) ==> r.commands@.len() == 1
                && switches_off(r.commands@[0], held[(client, number)])
        },
{
    let n = before.handles.next();
    assert(n | (1u64 << 63) >= 0x8000_0000_0000_0000) by (bit_vector);
    assert(script_handle(n) >= 0x8000_0000_0000_0000);
}

/// What a client started under a number is what it stops under that number.
pub proof fn law_stopping_undoes_starting(
    before: IpcState,
    between: IpcState,
    after: IpcState,
    client: u64,
    number: u64,
    frame: IpcFrame,
    period_ms: u64,
    repeat: i64,
    licence: Licence,
    started: IpcOutcome,
    stopped: IpcOutcome,
)
    requires
        between.obeys(
            &before,
            client,
            IpcReq::SetPeriodic { number, frame, period_ms, repeat },
            licence,
            started,
        ),
        after.obeys(&between, client, IpcReq::StopPeriodic { number }, licence, stopped),
        started.step is Periodic,
    ensures
        stopped.commands@.len() == 1,
        started.step matches IpcStep::Periodic { handle, .. } && switches_off(
            stopped.commands@[0],
            handle,
        ),
        !after.handles.map().contains_key((client, number)),
        forall|k: (u64, u64)|
            k != (client, number) ==> (#[trigger] after.handles.map().contains_key(k)
                <==> before.handles.map().contains_key(k)) && (after.handles.map().contains_key(k)
                ==> after.handles.map()[k] == before.handles.map()[k]),
{
}

/// A client that is gone leaves nothing running: every handle that is held for it is switched off,
/// no other is, and those of the other clients are still held.
pub proof fn law_gone_clients_leave_nothing_running(
    before: IpcState,
    after: IpcState,
    client: u64,
    licence: Licence,
    r: IpcOutcome,
)
    requires
        before.handles.wf(),
        after.obeys(&before, client, IpcReq::ClientGone, licence, r),
    ensures
        forall|number: u64| #[trigger]
            before.handles.map().contains_key((client, number)) ==> exists|j: int|
                0 <= j < r.commands@.len() && switches_off(
                    #[trigger] r.commands@[j],
                    before.handles.map()[(client, number)],
                ),
        forall|j: int|
            0 <= j < r.commands@.len() ==> (#[trigger] r.commands@[j] matches Cmd::SetPeriodic {
                handle,
                enable,
                ..
            } && !enable && is_held_for(before.handles, client, handle)),
        forall|number: u64| !#[trigger] after.handles.map().contains_key((client, number)),
        forall|k: (u64, u64)|
            k.0 != client ==> (#[trigger] after.handles.map().contains_key(k)
                <==> before.handles.map().contains_key(k)),
{
    law_clients_own_their_handles(before.handles, client);
    let handles = owned(before.handles.list(), client);
    assert forall|number: u64| #[trigger]
        before.handles.map().contains_key((client, number)) implies exists|j: int|
        0 <= j < r.commands@.len() && switches_off(
            #[trigger] r.commands@[j],
            before.handles.map()[(client, number)],
        ) by {
        let j = choose|j: int|
            0 <= j < handles.len() && handles[j] == before.handles.map()[(client, number)];
        assert(crate::workbench::ipc::stops(r.commands@[j], handles[j]));
    }
    assert forall|j: int| 0 <= j < r.commands@.len() implies (
    #[trigger] r.commands@[j] matches Cmd::SetPeriodic { handle, enable, .. } && !enable && is_held_for(
        before.handles,
        client,
        handle,
    )) by {
        assert(crate::workbench::ipc::stops(r.commands@[j], handles[j]));
    }
}

// ---------------------------------------------------------------- the other requests

/// A script connects the channels that it names, if it is licensed to and names some.
pub proof fn law_scripts_connect_their_channels(
    before: IpcState,
    after: IpcState,
    client: u64,
    channels: Vec<DeviceConfig>,
    licence: Licence,
    r: IpcOutcome,
)
    requires
        after.obeys(&before, client, IpcReq::Connect { channels }, licence, r),
    ensures
        r.step matches IpcStep::Reply(reply) && (reply is Done <==> licence.connect && channels@.len()
            > 0),
        licence.connect && channels@.len() > 0 ==> {
            &&& r.commands@.len() == 1
            &&& r.commands@[0] matches Cmd::ConnectChannels(list) && list@.len() == channels@.len()
                && after.channels@.len() == channels@.len() && forall|i: int|
                0 <= i < channels@.len() ==> (#[trigger] list@[i])@ == channels@[i]@
                    && after.channels@[i]@ == channels@[i]@
        },
        !(licence.connect && channels@.len() > 0) ==> after == before && r.commands@.len() == 0,
{
    if licence.connect && channels@.len() > 0 {
        if let Cmd::ConnectChannels(list) = r.commands@[0] {
            let a = crate::can::configs_view(list@);
            let b = crate::can::configs_view(channels@);
            let c = crate::can::configs_view(after.channels@);
            assert(a.len() == list@.len() && b.len() == channels@.len() && c.len()
                == after.channels@.len());
            assert forall|i: int| 0 <= i < channels@.len() implies (#[trigger] list@[i])@
                == channels@[i]@ && after.channels@[i]@ == channels@[i]@ by {
                assert(a[i] == list@[i]@ && b[i] == channels@[i]@ && c[i] == after.channels@[i]@);
            }
        }
    }
}

/// A script starts the measurement if it is licensed to, and stops and disconnects in any case.
pub proof fn law_scripts_steer_the_measurement(
    before: IpcState,
    started: IpcState,
    stopped: IpcState,
    parted: IpcState,
    client: u64,
    licence: Licence,
    a: IpcOutcome,
    b: IpcOutcome,
    c: IpcOutcome,
)
    requires
        started.obeys(&before, client, IpcReq::Start, licence, a),
        stopped.obeys(&before, client, IpcReq::Stop, licence, b),
        parted.obeys(&before, client, IpcReq::Disconnect, licence, c),
    ensures
        licence.capture ==> a.commands@ == seq![Cmd::Start],
        !licence.capture ==> a.commands@.len() == 0 && (a.step matches IpcStep::Reply(reply)
            && reply is Refused),
        b.commands@ == seq![Cmd::Stop],
        c.commands@ == seq![Cmd::Disconnect],
        started == before && stopped == before && parted == before,
{
}

/// A database is named once: one that is known already stays where it is, one that cannot be read
/// is not taken, and any other comes last.
pub proof fn law_databases_are_named_once(
    before: IpcState,
    after: IpcState,
    client: u64,
    path: String,
    read: Result<String, String>,
    licence: Licence,
    r: IpcOutcome,
)
    requires
        after.obeys(&before, client, IpcReq::LoadDbc { path, read }, licence, r),
    ensures
        ({
            let known = exists|i: int|
                0 <= i < before.database_paths@.len() && (#[trigger] before.database_paths@[i])@
                    == path@;
            &&& known || read is Err ==> after.database_paths@ == before.database_paths@
            &&& !known && read is Ok ==> after.database_paths@ == before.database_paths@.push(path)
            &&& r.step matches IpcStep::Reply(reply) && (reply is Database <==> known || read is Ok)
        }),
{
    let names = crate::text::texts(before.database_paths@);
    assert(names.len() == before.database_paths@.len());
    assert forall|i: int| 0 <= i < names.len() implies #[trigger] names[i]
        == before.database_paths@[i]@ by {}
    if names.contains(path@) {
        let i = choose|i: int| 0 <= i < names.len() && names[i] == path@;
        assert(before.database_paths@[i]@ == path@);
    }
    assert forall|i: int|
        0 <= i < before.database_paths@.len() && (#[trigger] before.database_paths@[i])@
            == path@ implies names.contains(path@) by {
        assert(names[i] == path@);
    }
}

/// The console takes what it is told and keeps the rest; an identifier below zero takes the
/// identifier away.
pub proof fn law_the_console_takes_what_it_is_told(
    before: IpcState,
    after: IpcState,
    client: u64,
    enabled: Option<bool>,
    id: Option<i64>,
    ch: Option<u8>,
    clear: bool,
    licence: Licence,
    r: IpcOutcome,
)
    requires
        after.obeys(&before, client, IpcReq::ConsoleSet { enabled, id, ch, clear }, licence, r),
    ensures
        enabled is Some ==> after.console.enabled == enabled->0,
        enabled is None ==> after.console.enabled == before.console.enabled,
        ch is Some ==> after.console.ch == ch->0,
        ch is None ==> after.console.ch == before.console.ch,
        id is None ==> after.console.id == before.console.id,
        id is Some && id->0 < 0 ==> after.console.id is None,
        id is Some && 0 <= id->0 <= u32::MAX ==> after.console.id is Some && after.console.id->0
            == id->0,
        r.clear_console == clear,
        r.commands@.len() == 0,
{
}

/// A result is told apart by the word before its summary.
pub proof fn law_results_tell_their_outcome(
    before: IpcState,
    after: IpcState,
    client: u64,
    passed: bool,
    summary: String,
    licence: Licence,
    r: IpcOutcome,
)
    requires
        after.obeys(&before, client, IpcReq::RunResult { passed, summary }, licence, r),
    ensures
        after.run_status@.len() == 5 + summary@.len(),
        after.run_status@[0] == if passed {
            'P'
        } else {
            'F'
        },
        after.run_status@.subrange(5, after.run_status@.len() as int) == summary@,
{
    reveal_strlit("PASS");
    reveal_strlit("FAIL");
    reveal_strlit(" ");
    assert(after.run_status@.subrange(5, after.run_status@.len() as int) =~= summary@);
}

/// The numbers that are to be connected are those of the configured channels, one at least.
pub proof fn law_expected_channels_are_the_configured(
    channels: &[DeviceConfig],
    licensed: bool,
    r: IpcReply,
)
    requires
        call_ensures(connect_configured, (channels, licensed), r),
    ensures
        licensed ==> (r matches IpcReply::Connecting { channels: n, expected } && n
            == channels@.len() && expected@.len() == n && forall|i: int|
            0 <= i < n ==> ((#[trigger] expected@[i]) == channels@[i].sw_channel
                || channels@[i].sw_channel == 0 && expected@[i] == 1)),
        !licensed ==> r is Refused,
{
}

/// The capture of a script begins only where it is licensed.
pub proof fn law_capturing_is_licensed(licensed: bool, r: IpcStep)
    requires
        call_ensures(start_capture, (licensed,), r),
    ensures
        licensed ==> r == IpcStep::Submit(Cmd::Start),
        !licensed ==> r is Reply,
{
}

/// A received frame goes to the clients that asked for its identifier and to those that asked for
/// all, once each.
pub proof fn law_frames_go_to_their_subscribers(subscribers: &[Vec<u32>], id: u32, r: Vec<usize>)
    requires
        call_ensures(ipc_fanout, (subscribers, id), r),
        subscribers@.len() <= usize::MAX,
    ensures
        forall|k: int|
            0 <= k < subscribers@.len() && ((#[trigger] subscribers@[k])@.len() == 0
                || subscribers@[k]@.contains(id)) ==> r@.contains(k as usize),
        forall|j: int|
            0 <= j < r@.len() ==> (#[trigger] r@[j]) < subscribers@.len() && (
            subscribers@[r@[j] as int]@.len() == 0 || subscribers@[r@[j] as int]@.contains(id)),
        r@.no_duplicates(),
{
    assert forall|j: int| 0 <= j < r@.len() implies (#[trigger] r@[j]) < subscribers@.len() && (
    subscribers@[r@[j] as int]@.len() == 0 || subscribers@[r@[j] as int]@.contains(id)) by {
        assert(r@.contains(r@[j]));
    }
}

/// A script is told the newest lines, no more than it asked for, in the order they were written.
pub proof fn law_the_newest_lines_are_told(logs: &[String], limit: usize, r: Vec<String>)
    requires
        call_ensures(recent_logs, (logs, limit), r),
    ensures
        r@.len() == if logs@.len() < limit {
            logs@.len()
        } else {
            limit as nat
        },
        forall|i: int|
            0 <= i < r@.len() ==> (#[trigger] r@[i])@ == logs@[logs@.len() - r@.len() + i]@,
{
    let all = crate::text::texts(logs@);
    let told = crate::text::texts(r@);
    assert(all.len() == logs@.len() && told.len() == r@.len());
    assert forall|i: int| 0 <= i < r@.len() implies (#[trigger] r@[i])@ == logs@[logs@.len() - r@.len()
        + i]@ by {
        assert(told[i] == r@[i]@);
        assert(all[logs@.len() - r@.len() + i] == logs@[logs@.len() - r@.len() + i]@);
    }
}

// ---------------------------------------------------------------- confirmations

/// A confirmation that came is passed on, whatever the time; one that did not is given up at its
/// deadline and not before.
pub proof fn law_confirmations_are_passed_on(
    taken: Taken<Result<u64, String>>,
    deadline: u64,
    now: u64,
    r: Option<Result<u64, AckError>>,
)
    requires
        call_ensures(settle, (taken, deadline, now), r),
    ensures
        taken matches Taken::Item(Ok(n)) ==> r == Some(Ok::<u64, AckError>(n)),
        taken matches Taken::Item(Err(m)) ==> r matches Some(Err(e)) && e.message == m,
        taken is Disconnected ==> r is Some && r->0 is Err,
        taken is Empty ==> (r is None <==> now < deadline) && (r is Some ==> r->0 is Err),
{
}

/// A confirmation is awaited for half a second, and a hundred and twenty-eight of them at a time.
pub proof fn law_few_confirmations_are_awaited(pending: usize, accepted: bool, r: Option<String>)
    requires
        call_ensures(submit_refusal, (pending, accepted), r),
    ensures
        r is None <==> pending < 128 && accepted,
        PENDING_LIMIT == 128,
        ACK_TIMEOUT == 500 * 1_000_000,
{
}

} // verus!
