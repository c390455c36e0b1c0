//! Laws on requests from outside and on reading from adapters.
use crate::can::adapters::{
    connection_outcome, emit_playback_frame, law_connecting_is_all_or_nothing,
    law_sending_touches_one_channel, open_adapter, place_of, send_on, AdapterKind, OpenedChannel,
    Sending,
};
use crate::can::pcan::{
    classic_baud_code, ending_status, poll_classic, usb_channel_handle, PcanBus, PcanOpening,
    PcanRead,
};
use crate::can::queue::{EventSender, PlaybackFrameEmit};
use crate::can::timebase::HardwareTimebase;
use crate::can::zcan::{validate_device_config, ZcanDeviceProfile};
use crate::can::zcan_bus::{opening_properties, zcan_classic_frames, zcan_fd_frames};
use crate::can::zcan_ffi::{ZcanReceiveData, ZcanReceiveFdData};
use crate::can::{CanAdapter, CanFrame, DeviceConfig, DeviceConfigView, Evt, PollReport};
use crate::laws::connecting::law_frames_go_to_their_channel;
use crate::modbus::pdu::Request;
use crate::modbus::slave::{serve_datagram, DatagramOutcome, SlaveReply, SlaveService};
use crate::modbus::store::DataStore;
use crate::table::Table;
use crate::text;
use crate::workbench::snapshot::{channel_snapshot, ChanStats, ChanStatSnap};
use vstd::prelude::*;

verus! {

// ---------------------------------------------------------------- requests to the server

/// A request is served where it names the server; on a serial line one to all is carried out and not
/// answered. One for another server changes nothing and is not answered.
pub proof fn law_requests_are_for_their_unit(
    service: &SlaveService,
    store: &mut DataStore,
    requests: &mut u64,
    slave: u8,
    request: &Request,
    r: SlaveReply,
)
    requires
        call_ensures(SlaveService::call, (service, store, requests, slave, request), r),
        *old(requests) < u64::MAX,
    ensures
        ({
            let named = slave == service.unit_id || service.tcp && service.ignore_unit_id;
            let to_all = !service.tcp && slave == 0;
            &&& !named && !to_all ==> final(store)@ == old(store)@ && r.answer is None
                && *final(requests) == *old(requests) && r.events@.len() == 0
            &&& named || to_all ==> *final(requests) == *old(requests) + 1
            &&& named && !to_all ==> r.answer is Some
            &&& to_all && r.answer is Some ==> r.answer->0 is Err
        }),
{
    assert(crate::modbus::slave::slave_events(r.events@).len() == r.events@.len());
}

/// A datagram that is no frame is not answered, and changes nothing; nor does one for another unit.
pub proof fn law_strange_datagrams_change_nothing(
    service: &SlaveService,
    store: &mut DataStore,
    requests: &mut u64,
    frame: &[u8],
    rtu: bool,
    r: DatagramOutcome,
)
    requires
        call_ensures(serve_datagram, (service, store, requests, frame, rtu), r),
    ensures
        frame@.len() < 4 || !rtu && frame@.len() < 8 ==> r.reply is None && final(store)@ == old(
            store
        )@ && *final(requests) == *old(requests) && r.events@.len() == 1,
        !rtu && frame@.len() >= 8 && (frame@[2] != 0 || frame@[3] != 0) ==> r.reply is None && final(
            store
        )@ == old(store)@,
        !rtu && frame@.len() >= 8 && frame@[4] * 256 + frame@[5] != frame@.len() - 6 ==> r.reply is None
            && final(store)@ == old(store)@,
{
    assert(crate::modbus::slave::slave_events(r.events@).len() == r.events@.len());
}

/// The answer to a datagram goes under the same transaction, from the unit that was asked.
pub proof fn law_answers_go_where_they_came_from(
    service: &SlaveService,
    store: &mut DataStore,
    requests: &mut u64,
    frame: &[u8],
    rtu: bool,
    r: DatagramOutcome,
)
    requires
        call_ensures(serve_datagram, (service, store, requests, frame, rtu), r),
        r.reply is Some,
    ensures
        frame@.len() >= 4,
        !rtu ==> r.reply->0@.len() >= 7 && r.reply->0@[0] == frame@[0] && r.reply->0@[1] == frame@[1]
            && r.reply->0@[2] == 0 && r.reply->0@[3] == 0 && r.reply->0@[6] == frame@[6],
        rtu ==> r.reply->0@.len() >= 3 && r.reply->0@[0] == frame@[0],
{
}

// ---------------------------------------------------------------- sending

/// A frame goes out on the adapter with its channel, the frame itself and on no other; without such
/// an adapter it does not go out.
pub proof fn law_frames_are_sent_on_their_channel<A: CanAdapter>(
    adapters: &mut Vec<(u8, A)>,
    f: &CanFrame,
    r: Result<u8, String>,
    i: int,
)
    requires
        call_ensures(send_on::<A>, (adapters, f), r),
        0 <= i < old(adapters)@.len(),
    ensures
        final(adapters)@.len() == old(adapters)@.len(),
        r matches Ok(channel) ==> channel == f.ch,
        old(adapters)@[i].0 != f.ch ==> final(adapters)@[i] == old(adapters)@[i],
        old(adapters)@[i].0 == f.ch && (forall|j: int|
            0 <= j < i ==> (#[trigger] old(adapters)@[j]).0 != f.ch) ==> exists|
            answer: Result<(), String>,
        | #[trigger]
            A::transmitted(&old(adapters)@[i].1, f, answer, &final(adapters)@[i].1) && (answer is Ok
                <==> r is Ok),
        (forall|j: int| 0 <= j < old(adapters)@.len() ==> (#[trigger] old(adapters)@[j]).0 != f.ch)
            ==> r is Err,
{
    law_frames_go_to_their_channel(old(adapters)@, f.ch);
    if old(adapters)@[i].0 == f.ch {
        let k = place_of(old(adapters)@, f.ch)->0;
        assert(place_of(old(adapters)@, f.ch) is Some);
        if k < i {
            assert(old(adapters)@[k].0 == f.ch);
        }
    }
}

/// A replayed frame goes on the bus only where the replay is on the bus; what does not go out there
/// fails.
pub proof fn law_replayed_frames_go_out_online<A: CanAdapter>(
    adapters: &mut Vec<(u8, A)>,
    events: &mut EventSender,
    frame: CanFrame,
    online: bool,
    r: PlaybackFrameEmit,
)
    requires
        call_ensures(emit_playback_frame::<A>, (adapters, events, frame, online), r),
    ensures
        !online ==> final(adapters)@ == old(adapters)@,
        online && (forall|j: int|
            0 <= j < old(adapters)@.len() ==> (#[trigger] old(adapters)@[j]).0 != frame.ch) ==> r
            is Failed,
        final(events).record().len() == old(events).record().len() + 1,
        r is Emitted ==> (final(events).record().last().item matches Evt::PlaybackFrame(f) && f.id
            == frame.id && f.data@ == frame.data@ && f.ch == frame.ch && (online ==> f.tx)),
{
    law_frames_go_to_their_channel(old(adapters)@, frame.ch);
}

/// Each step of a slice sends the next frame of the first job, as it stands there, and shows it on
/// the channel that took it.
pub proof fn law_steps_send_the_next_frame<A: CanAdapter>(
    before: Sending<A>,
    frame: CanFrame,
    t: i64,
    outcome: Result<u8, String>,
    after: Sending<A>,
)
    requires
        before.goes_on(),
        before.transmits(frame, t, outcome, after),
    ensures
        before.attempts < 32,
        frame.t == t && frame.tx,
        frame.id == before.queue[0].queued()[0].id && frame.data@ == before.queue[0].queued()[0].data
            && frame.ch == before.queue[0].queued()[0].ch,
        outcome matches Ok(channel) ==> channel == frame.ch && after.echoes.len()
            == before.echoes.len() + 1 && after.echoes.last().id == frame.id,
        outcome is Err ==> after.fault is Some && !after.goes_on() && after.queue.len()
            == before.queue.len() - 1,
{
    law_sending_touches_one_channel(before.adapters, frame, after.adapters, outcome);
}

/// Settings that are accepted have an adapter.
pub proof fn law_accepted_settings_have_an_adapter(
    cfg: &DeviceConfig,
    checked: Result<(), String>,
    r: Result<AdapterKind, String>,
)
    requires
        call_ensures(validate_device_config, (cfg,), checked),
        call_ensures(open_adapter, (cfg,), r),
        checked is Ok,
    ensures
        r is Ok,
        r->Ok_0 is Pcan ==> cfg.channel_index <= 15,
        r->Ok_0 is Gcan || r->Ok_0 is Zhcx ==> !cfg.is_fd,
        r->Ok_0 is Zlg ==> crate::can::zcan::profile_of(cfg.device_type@) is Some,
{
    reveal_strlit("PCAN");
    reveal_strlit("GCAN");
    reveal_strlit("ZHCX");
    reveal_strlit("ZHCXCAN");
    assert("GCAN"@[0] != "PCAN"@[0]);
    assert("ZHCX"@[0] != "PCAN"@[0]);
    assert("ZHCX"@[0] != "GCAN"@[0]);
    assert("ZHCXCAN"@[0] != "PCAN"@[0]);
}

/// Who waits for a connection is told which channels are there: all of them, or none and why.
pub proof fn law_connections_are_told(list: &[OpenedChannel], r: (Vec<Evt>, bool), i: int)
    requires
        call_ensures(connection_outcome, (list,), r),
        0 <= i < list@.len(),
    ensures
        r.0@.len() > 0,
        r.1 <==> forall|j: int| 0 <= j < list@.len() ==> (#[trigger] list@[j]).outcome is Ok,
        r.0@.last() matches Evt::Connected { channels, error, .. } && (r.1 ==> error is None
            && channels@.len() == list@.len() && channels@[i] == list@[i].channel) && (!r.1 ==> error
            is Some && channels@.len() == 0),
{
    law_connecting_is_all_or_nothing(list@);
    let v = crate::can::events_view(r.0@);
    assert(v.len() == r.0@.len());
    assert(v[v.len() - 1] == r.0@[v.len() - 1]@);
}

// ---------------------------------------------------------------- opening and reading

/// A channel is opened on its own handle: through the FD interface where it is wished or can be, and
/// else at the code of its rate.
pub proof fn law_planned_channels_are_their_own(
    cfg: &DeviceConfig,
    fd_capable: bool,
    r: Result<PcanOpening, String>,
)
    requires
        call_ensures(PcanBus::open_cfg, (cfg, fd_capable), r),
    ensures
        cfg.channel_index >= 16 ==> r is Err,
        r matches Ok(PcanOpening::Classic { channel, baud_code, .. }) ==> !cfg.is_fd && !fd_capable
            && usb_channel_handle(cfg.channel_index) == Some(channel) && classic_baud_code(cfg.baud@)
            == Some(baud_code),
        r matches Ok(PcanOpening::Fd { channel, bitrate, .. }) ==> (cfg.is_fd || fd_capable)
            && usb_channel_handle(cfg.channel_index) == Some(channel),
        !cfg.is_fd && !fd_capable && cfg.channel_index < 16 ==> (r is Ok <==> classic_baud_code(
            cfg.baud@,
        ) is Some),
{
}

proof fn lemma_ending(statuses: Seq<u32>, n: int)
    requires
        0 <= n <= statuses.len(),
        forall|i: int| 0 <= i < n ==> #[trigger] statuses[i] == 0,
        n < statuses.len() ==> statuses[n] != 0,
    ensures
        n == statuses.len() ==> ending_status(statuses) is None,
        n < statuses.len() ==> ending_status(statuses) == Some(statuses[n]),
    decreases n,
{
    if n > 0 {
        let rest = statuses.drop_first();
        assert(statuses[0] == 0);
        assert forall|i: int| 0 <= i < n - 1 implies #[trigger] rest[i] == 0 by {
            assert(rest[i] == statuses[i + 1]);
        }
        lemma_ending(rest, n - 1);
    }
}

/// A poll ends well where the queue ran empty or the reads were used up; any other status is an
/// error.
pub proof fn law_polls_end_well_or_in_an_error(
    reads: &[PcanRead],
    clock: &mut HardwareTimebase,
    host_now: i64,
    out: &mut Vec<CanFrame>,
    r: PollReport,
    n: int,
)
    requires
        call_ensures(poll_classic, (reads, clock, host_now, out), r),
        0 <= n <= reads@.len(),
        forall|i: int| 0 <= i < n ==> (#[trigger] reads@[i]).status == 0,
        n < reads@.len() ==> reads@[n].status != 0,
    ensures
        n == reads@.len() || reads@[n].status == 0x20 ==> r.driver_errors == 0 && !r.connection_lost
            && r.message is None,
        n < reads@.len() && reads@[n].status != 0x20 ==> r.driver_errors == 1 && r.message is Some,
        final(out)@.len() >= old(out)@.len(),
{
    let statuses = reads@.map_values(|x: PcanRead| x.status);
    assert forall|i: int| 0 <= i < n implies #[trigger] statuses[i] == 0 by {
        assert(statuses[i] == reads@[i].status);
    }
    lemma_ending(statuses, n);
    assert(crate::can::frames_view(final(out)@).len() == final(out)@.len());
    assert(crate::can::frames_view(old(out)@).len() == old(out)@.len());
}

/// Each message that a fast adapter received is one frame, in order, by its own clock.
pub proof fn law_fast_messages_are_frames(
    messages: Seq<ZcanReceiveData>,
    fd: Seq<ZcanReceiveFdData>,
    clock: HardwareTimebase,
    host: i64,
)
    ensures
        zcan_classic_frames(messages, clock, host).0.len() == messages.len(),
        zcan_fd_frames(fd, clock, host).0.len() == fd.len(),
        messages.len() > 0 ==> zcan_classic_frames(messages, clock, host).0.last().id
            == messages.last().frame.can_id % 0x2000_0000,
        fd.len() > 0 ==> zcan_fd_frames(fd, clock, host).0.last().id == fd.last().frame.can_id
            % 0x2000_0000,
        messages.len() > 0 ==> zcan_classic_frames(messages, clock, host).0.drop_last()
            == zcan_classic_frames(messages.drop_last(), clock, host).0,
        messages.len() == 1 && clock.anchor_raw is None ==> zcan_classic_frames(messages, clock, host).0[0].t
            == host,
    decreases messages.len(), fd.len(),
{
    if messages.len() > 0 {
        law_fast_messages_are_frames(messages.drop_last(), Seq::empty(), clock, host);
        let a = messages.last().frame.can_id;
        assert(a & 0x1FFF_FFFF == a % 0x2000_0000) by (bit_vector);
        assert(zcan_classic_frames(messages, clock, host).0.drop_last() =~= zcan_classic_frames(
            messages.drop_last(),
            clock,
            host,
        ).0);
        if messages.len() == 1 {
            assert(messages.drop_last().len() == 0);
        }
    }
    if fd.len() > 0 {
        law_fast_messages_are_frames(Seq::empty(), fd.drop_last(), clock, host);
        let b = fd.last().frame.can_id;
        assert(b & 0x1FFF_FFFF == b % 0x2000_0000) by (bit_vector);
    }
}

/// A fast channel is opened at its own rates, and a device on the network at its own address; what
/// is not needed there is not asked for.
pub proof fn law_properties_are_those_of_the_channel(cfg: DeviceConfigView, p: ZcanDeviceProfile)
    ensures
        p.family is UsbCanFd ==> {
            let v = opening_properties(cfg, p);
            &&& v.len() == 4
            &&& v[2].required && v[2].value == text::decimal(
                crate::can::bitrate::bits_per_second(cfg.baud) as nat,
            )
            &&& v[3].required && v[3].value == text::decimal(
                crate::can::bitrate::bits_per_second(
                    if cfg.is_fd {
                        cfg.data_baud
                    } else {
                        cfg.baud
                    },
                ) as nat,
            )
            &&& v[1].value == (if cfg.listen_only {
                "1"@
            } else {
                "0"@
            })
        },
        p.family is UsbClassic ==> opening_properties(cfg, p).len() == 1 && opening_properties(cfg, p)[0].value
            == text::decimal(crate::can::bitrate::bits_per_second(cfg.baud) as nat),
        p.family is NetworkTcp || p.family is NetworkUdp ==> opening_properties(cfg, p).len() == 3
            && opening_properties(cfg, p)[1].value == cfg.ip && opening_properties(cfg, p)[2].value
            == cfg.port,
{
}

// ---------------------------------------------------------------- statistics

/// Each connected channel is shown once, by number, with what was counted of it.
pub proof fn law_channels_show_their_counts(
    connected: bool,
    channels: &[u64],
    stats: &Table<ChanStats>,
    r: Vec<ChanStatSnap>,
    i: int,
    j: int,
    k: int,
) -> (at: int)
    requires
        stats.wf(),
        connected,
        call_ensures(channel_snapshot, (connected, channels, stats), r),
        0 <= i < j < r@.len(),
        0 <= k < channels@.len(),
    ensures
        r@[i].ch < r@[j].ch,
        0 <= at < r@.len() && r@[at].ch == channels@[k],
        stats.map().contains_key(r@[i].ch) ==> r@[i].stats == stats.map()[r@[i].ch],
        !stats.map().contains_key(r@[i].ch) ==> r@[i].stats.rx == 0 && r@[i].stats.tx == 0
            && r@[i].stats.err == 0,
{
    let numbers = crate::workbench::snapshot::shown_numbers(r@);
    assert(numbers[i] == r@[i].ch && numbers[j] == r@[j].ch);
    assert(channels@.contains(channels@[k]));
    assert(numbers.contains(channels@[k]));
    let at = choose|at: int| 0 <= at < numbers.len() && numbers[at] == channels@[k];
    assert(r@[at].ch == numbers[at]);
    at
}

} // verus!
