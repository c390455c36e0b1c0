//! Laws on what the drivers are handed and what is made of what they bring.
use crate::can::controller::{batch_at, capture_batches};
use crate::can::pcan::{
    classic_baud_code, classic_frame, classic_frames, fd_frame, fd_frames, len_of_dlc, pcan_message,
    timestamp_micros, PcanFdRead, PcanMessage, PcanRead,
};
use crate::can::pcan_ffi::{TPCANMsg, TPCANMsgFD, TPCANTimestamp};
use crate::can::schedule::timer_due_time;
use crate::can::timebase::HardwareTimebase;
use crate::can::vci::{due, vci_frame, VciBus};
use crate::can::zcan_bus::{zcan_classic_frame, zcan_fd_frame, ZcanFdBus, ZcanMessage};
use crate::can::zcan_ffi::{CanfdFrameC, CanFrameC};
use crate::can::zlg_ffi::VCI_CAN_OBJ;
use crate::can::{frames_view, normalized_baud, zlg_timing, CanFrame};
use vstd::prelude::*;

verus! {

// ---------------------------------------------------------------- messages that go out

/// A frame is handed to a PCAN driver with its identifier, its payload from the first byte on, and
/// one bit each for what it is: 1 remote, 2 extended, 4 FD, 8 with a second rate. An adapter without
/// FD takes no FD frame.
pub proof fn law_pcan_messages_carry_their_frame(
    opened_for_fd: bool,
    f: CanFrame,
    r: Result<PcanMessage, String>,
    i: int,
)
    requires
        call_ensures(pcan_message, (opened_for_fd, &f), r),
        0 <= i < f.data@.len(),
        f.data@.len() <= 64,
    ensures
        !opened_for_fd && (f.fd || f.data@.len() > 8) ==> r is Err,
        opened_for_fd ==> r is Ok,
        r matches Ok(PcanMessage::Classic(m)) ==> !opened_for_fd && m.id == f.id && m.len
            == f.data@.len() && m.data@[i] == f.data@[i] && m.msgtype == (if f.remote { 1int } else { 0 })
            + (if f.ext { 2int } else { 0 }),
        r matches Ok(PcanMessage::Fd(m)) ==> opened_for_fd && m.id == f.id && m.data@[i] == f.data@[i]
            && m.msgtype == (if f.remote { 1int } else { 0 }) + (if f.ext { 2int } else { 0 }) + (
        if f.fd || f.data@.len() > 8 { 4int } else { 0 }) + (if f.brs && (f.fd || f.data@.len() > 8) {
            8int
        } else { 0 }) && f.data@.len() <= len_of_dlc(m.dlc),
{
    if let Ok(PcanMessage::Fd(m)) = r {
        crate::can::pcan::law_length_codes(f.data@.len() as int, 0);
        assert(f.data@.take(f.data@.len() as int) =~= f.data@);
    }
}

/// The codes of lengths: up to eight bytes the length itself, then 12, 16, 20, 24, 32, 48 and 64.
pub proof fn law_lengths_have_codes(dlc: u8)
    requires
        dlc <= 15,
    ensures
        dlc <= 8 ==> len_of_dlc(dlc) == dlc,
        9 <= dlc <= 12 ==> len_of_dlc(dlc) == 4 * (dlc - 6),
        dlc >= 13 ==> len_of_dlc(dlc) == 16 * (dlc - 11),
{
}

/// A frame is handed to a VCI driver with its identifier, its payload and its flags; a listening
/// channel sends nothing, and none sends an FD frame.
pub proof fn law_vci_messages_carry_their_frame(
    bus: VciBus,
    f: CanFrame,
    r: Result<VCI_CAN_OBJ, String>,
    i: int,
)
    requires
        call_ensures(VciBus::message, (&bus, &f), r),
        0 <= i < f.data@.len(),
    ensures
        r is Ok <==> !bus.listen_only && !f.fd && f.data@.len() <= 8,
        r matches Ok(m) ==> m.id == f.id && m.data_len == f.data@.len() && m.data@[i] == f.data@[i]
            && (m.extern_flag != 0) == f.ext && (m.remote_flag != 0) == f.remote,
{
}

/// A frame is handed to a ZLG driver with its identifier in the low 29 bits, the highest bit for an
/// extended and the second one for a remote frame, and its payload; a listening channel sends
/// nothing, and one without FD no FD frame.
pub proof fn law_zlg_messages_carry_their_frame(
    bus: ZcanFdBus,
    f: CanFrame,
    r: Result<ZcanMessage, String>,
    i: int,
)
    requires
        call_ensures(ZcanFdBus::message, (&bus, &f), r),
        0 <= i < f.data@.len() <= 64,
        f.id < 0x2000_0000,
    ensures
        r is Ok <==> !bus.listen_only && (f.fd ==> bus.channel_is_fd) && (!f.fd ==> f.data@.len() <= 8),
        r matches Ok(ZcanMessage::Classic(m)) ==> !f.fd && m.frame.can_id == f.id + (if f.ext {
            0x8000_0000int
        } else { 0 }) + (if f.remote { 0x4000_0000int } else { 0 }) && m.frame.can_dlc == f.data@.len()
            && m.frame.data@[i] == f.data@[i],
        r matches Ok(ZcanMessage::Fd(m)) ==> f.fd && m.frame.can_id == f.id + (if f.ext {
            0x8000_0000int
        } else { 0 }) + (if f.remote { 0x4000_0000int } else { 0 }) && m.frame.len == f.data@.len()
            && m.frame.data@[i] == f.data@[i] && (m.frame.flags == 1 <==> f.brs),
{
    if f.data@.len() <= 64 {
        assert(f.data@.take(f.data@.len() as int) =~= f.data@);
    }
}

// ---------------------------------------------------------------- messages that come in

/// A message of a driver becomes a received frame with its identifier, its payload and its flags.
pub proof fn law_received_messages_become_frames(
    c: TPCANMsg,
    d: TPCANMsgFD,
    v: VCI_CAN_OBJ,
    channel_index: u32,
    t: i64,
    i: int,
)
    requires
        channel_index < 255,
    ensures
        ({
            let f = classic_frame(c, t);
            &&& f.id == c.id && f.t == t && !f.tx && !f.fd
            &&& c.len <= 8 ==> f.data.len() == c.len
            &&& 0 <= i < f.data.len() ==> f.data[i] == c.data@[i]
            &&& f.remote == (c.msgtype & 1 != 0)
            &&& f.ext == (c.msgtype & 2 != 0)
            &&& f.error == (c.msgtype & 64 != 0)
        }),
        ({
            let f = fd_frame(d, t);
            &&& f.id == d.id && f.t == t && !f.tx
            &&& f.fd == (d.msgtype & 4 != 0)
            &&& f.brs == (d.msgtype & 8 != 0)
            &&& f.remote == (d.msgtype & 1 != 0)
            &&& f.ext == (d.msgtype & 2 != 0)
            &&& f.error == (d.msgtype & 64 != 0)
            &&& d.dlc <= 8 ==> f.data.len() == d.dlc
            &&& f.fd && 9 <= d.dlc <= 12 ==> f.data.len() == 4 * (d.dlc - 6)
            &&& f.fd && 13 <= d.dlc <= 15 ==> f.data.len() == 16 * (d.dlc - 11)
            &&& 0 <= i < f.data.len() ==> f.data[i] == d.data@[i]
        }),
        ({
            let f = vci_frame(v, channel_index, t);
            &&& f.id == v.id && f.t == t && !f.tx && !f.fd && !f.error
            &&& f.ch == channel_index + 1
            &&& f.ext == (v.extern_flag != 0)
            &&& f.remote == (v.remote_flag != 0)
            &&& v.data_len <= 8 ==> f.data.len() == v.data_len
            &&& 0 <= i < f.data.len() ==> f.data[i] == v.data@[i]
        }),
{
}

/// The same of a ZLG driver, whose identifiers carry the flags in their highest bits.
pub proof fn law_zlg_messages_become_frames(c: CanFrameC, d: CanfdFrameC, t: i64, i: int)
    ensures
        ({
            let f = zcan_classic_frame(c, t);
            &&& f.id == c.can_id as int % 0x2000_0000 && f.t == t && !f.tx && !f.fd
            &&& f.ext == (c.can_id >= 0x8000_0000)
            &&& f.remote == (c.can_id as int / 0x4000_0000 % 2 == 1)
            &&& c.can_dlc <= 8 ==> f.data.len() == c.can_dlc
            &&& 0 <= i < f.data.len() ==> f.data[i] == c.data@[i]
        }),
        ({
            let f = zcan_fd_frame(d, t);
            &&& f.id == d.can_id as int % 0x2000_0000 && f.t == t && !f.tx && f.fd
            &&& f.ext == (d.can_id >= 0x8000_0000)
            &&& f.brs == (d.flags % 2 == 1)
            &&& d.len <= 64 ==> f.data.len() == d.len
            &&& 0 <= i < f.data.len() ==> f.data[i] == d.data@[i]
        }),
{
    let a = c.can_id;
    let b = d.can_id;
    let g = d.flags;
    assert(a & 0x1FFF_FFFF == a % 0x2000_0000 && (a & 0x8000_0000 != 0) == (a >= 0x8000_0000) && (a
        & 0x4000_0000 != 0) == (a / 0x4000_0000 % 2 == 1)) by (bit_vector);
    assert(b & 0x1FFF_FFFF == b % 0x2000_0000 && (b & 0x8000_0000 != 0) == (b >= 0x8000_0000))
        by (bit_vector);
    assert((g & 1 != 0) == (g % 2 == 1)) by (bit_vector);
}

/// Reads give one frame each, in their order, up to the first read that fails; messages on the
/// state of the bus give none.
pub proof fn law_reads_give_their_frames(
    reads: Seq<PcanRead>,
    clock: HardwareTimebase,
    host: i64,
    n: int,
)
    requires
        0 <= n <= reads.len(),
        forall|i: int|
            0 <= i < n ==> (#[trigger] reads[i]).status == 0 && reads[i].msg.msgtype & 0x80 == 0,
        n < reads.len() ==> reads[n].status != 0,
    ensures
        classic_frames(reads, clock, host).0.len() == n,
        forall|i: int|
            0 <= i < n ==> (#[trigger] classic_frames(reads, clock, host).0[i]).id == reads[i].msg.id
                && classic_frames(reads, clock, host).0[i].data == classic_frame(
                reads[i].msg,
                0,
            ).data,
    decreases n,
{
    if n > 0 {
        let rest = reads.drop_first();
        assert(reads[0].status == 0);
        assert forall|i: int| 0 <= i < n - 1 implies (#[trigger] rest[i]).status == 0
            && rest[i].msg.msgtype & 0x80 == 0 by {
            assert(rest[i] == reads[i + 1]);
        }
        let c2 = clock.after(timestamp_micros(reads[0].ts), host);
        law_reads_give_their_frames(rest, c2, host, n - 1);
        let all = classic_frames(reads, clock, host).0;
        assert forall|i: int| 0 <= i < n implies (#[trigger] all[i]).id == reads[i].msg.id && all[i].data
            == classic_frame(reads[i].msg, 0).data by {
            if i > 0 {
                assert(all[i] == classic_frames(rest, c2, host).0[i - 1]);
                assert(rest[i - 1] == reads[i]);
            }
        }
    }
}

/// Reads of CAN FD give one frame each, in their order, up to the first read that fails; messages on
/// the state of the bus give none.
pub proof fn law_fd_reads_give_their_frames(
    reads: Seq<PcanFdRead>,
    clock: HardwareTimebase,
    host: i64,
    n: int,
)
    requires
        0 <= n <= reads.len(),
        forall|i: int|
            0 <= i < n ==> (#[trigger] reads[i]).status == 0 && reads[i].msg.msgtype & 0x80 == 0,
        n < reads.len() ==> reads[n].status != 0,
    ensures
        fd_frames(reads, clock, host).0.len() == n,
        forall|i: int|
            0 <= i < n ==> (#[trigger] fd_frames(reads, clock, host).0[i]).id == reads[i].msg.id
                && fd_frames(reads, clock, host).0[i].data == fd_frame(reads[i].msg, 0).data,
        n > 0 && clock.anchor_raw is None ==> fd_frames(reads, clock, host).0[0].t == host,
    decreases n,
{
    if n > 0 {
        let rest = reads.drop_first();
        assert(reads[0].status == 0);
        assert forall|i: int| 0 <= i < n - 1 implies (#[trigger] rest[i]).status == 0
            && rest[i].msg.msgtype & 0x80 == 0 by {
            assert(rest[i] == reads[i + 1]);
        }
        let c2 = clock.after(reads[0].ts, host);
        law_fd_reads_give_their_frames(rest, c2, host, n - 1);
        let all = fd_frames(reads, clock, host).0;
        assert forall|i: int| 0 <= i < n implies (#[trigger] all[i]).id == reads[i].msg.id && all[i].data
            == fd_frame(reads[i].msg, 0).data by {
            if i > 0 {
                assert(all[i] == fd_frames(rest, c2, host).0[i - 1]);
                assert(rest[i - 1] == reads[i]);
            }
        }
    }
}

/// A time of the driver is the number of microseconds that its three parts make.
pub proof fn law_driver_times_are_microseconds(ts: TPCANTimestamp)
    requires
        ts.micros < 1000,
    ensures
        timestamp_micros(ts) == ts.micros + 1000 * (ts.millis + 4_294_967_296 * ts.millis_overflow),
{
}

// ---------------------------------------------------------------- clocks

/// The first reading of a device is now; a later one lies as many ticks later as the counter went
/// on, also where a counter of limited width began anew in between.
pub proof fn law_device_times_count_ticks(
    tick_nanos: u64,
    bits: u32,
    first: u64,
    later: u64,
    host: i64,
    host_later: i64,
)
    requires
        1 <= bits <= 48,
        first < vstd::arithmetic::power2::pow2(bits as nat),
        later < vstd::arithmetic::power2::pow2(bits as nat),
        0 <= host <= 0x1000_0000_0000_0000,
        tick_nanos <= 1000,
        vstd::arithmetic::power2::pow2(bits as nat) <= 0x1_0000_0000_0000,
    ensures
        ({
            let m = vstd::arithmetic::power2::pow2(bits as nat) as int;
            let clock = HardwareTimebase {
                tick_nanos,
                wrap_modulus: Some(m as u64),
                wrap_offset: 0,
                previous_raw: None,
                anchor_raw: None,
                anchor_host: 0,
            };
            let running = clock.after(first, host);
            &&& clock.time_of(first, host) == host
            &&& later >= first ==> running.time_of(later, host_later) == host + (later - first)
                * tick_nanos
            &&& later < first && first - later > m / 2 ==> running.time_of(later, host_later) == host
                + (m + later - first) * tick_nanos
        }),
{
    let m = vstd::arithmetic::power2::pow2(bits as nat) as int;
    assert forall|k: int| 0 <= k <= 2 * m implies 0 <= #[trigger] (k * tick_nanos) <= 2
        * 0x1_0000_0000_0000 * 1000 by {
        assert(0 <= k * tick_nanos <= 2 * 0x1_0000_0000_0000 * 1000) by (nonlinear_arith)
            requires
                0 <= k <= 2 * 0x1_0000_0000_0000,
                0 <= tick_nanos <= 1000,
        ;
    }
    if later >= first {
        assert(0 <= (later - first) * tick_nanos);
    } else {
        assert(0 <= (m + later - first) * tick_nanos);
    }
}

/// Something is due at first, and then once so much time went by.
pub proof fn law_checks_are_due_in_their_interval(
    last: Option<u64>,
    now: u64,
    interval: u64,
    r: bool,
)
    requires
        interval > 0,
        call_ensures(due, (last, now, interval), r),
    ensures
        last is None ==> r,
        last matches Some(then) ==> r == (now >= then + interval),
{
}

/// A timer is armed with hundreds of nanoseconds, counted down from now: never for less than what is
/// left, and for less than one such unit more.
pub proof fn law_timers_wait_long_enough(remaining: u128, r: Option<i64>)
    requires
        call_ensures(timer_due_time, (remaining,), r),
        remaining < 0x1_0000_0000_0000_0000,
    ensures
        remaining == 0 ==> r is None,
        remaining > 0 ==> (r matches Some(d) && remaining <= -d * 100 < remaining + 100),
{
}

// ---------------------------------------------------------------- bit rates

/// Whether the two timing registers of an SJA1000 at eight megahertz give a bit rate: the divider of
/// the clock times the parts of a bit, which are one, the first segment and the second one.
pub open spec fn gives_rate(btr0: int, btr1: int, bits_per_second: int) -> bool {
    (btr0 % 64 + 1) * (1 + (btr1 % 16 + 1) + (btr1 / 16 % 8 + 1)) * bits_per_second == 8_000_000
}

proof fn lemma_rate(btr0: int, btr1: int, bits_per_second: int, divider: int, parts: int)
    requires
        divider == btr0 % 64 + 1,
        parts == 1 + (btr1 % 16 + 1) + (btr1 / 16 % 8 + 1),
        divider * parts * bits_per_second == 8_000_000,
    ensures
        gives_rate(btr0, btr1, bits_per_second),
{
}

/// The registers for each rate give that rate.
pub proof fn law_registers_give_their_rate(baud: &str, r: Option<(u8, u8)>)
    requires
        call_ensures(zlg_timing, (baud,), r),
    ensures
        ({
            let b = normalized_baud(baud@);
            &&& b == "1000K"@ ==> r is Some && gives_rate((r->0).0 as int, (r->0).1 as int, 1_000_000)
            &&& b == "800K"@ ==> r is Some && gives_rate((r->0).0 as int, (r->0).1 as int, 800_000)
            &&& b == "500K"@ ==> r is Some && gives_rate((r->0).0 as int, (r->0).1 as int, 500_000)
            &&& b == "250K"@ ==> r is Some && gives_rate((r->0).0 as int, (r->0).1 as int, 250_000)
            &&& b == "125K"@ ==> r is Some && gives_rate((r->0).0 as int, (r->0).1 as int, 125_000)
            &&& b == "100K"@ ==> r is Some && gives_rate((r->0).0 as int, (r->0).1 as int, 100_000)
            &&& b == "50K"@ ==> r is Some && gives_rate((r->0).0 as int, (r->0).1 as int, 50_000)
            &&& b == "20K"@ ==> r is Some && gives_rate((r->0).0 as int, (r->0).1 as int, 20_000)
            &&& b == "10K"@ ==> r is Some && gives_rate((r->0).0 as int, (r->0).1 as int, 10_000)
            &&& b == "5K"@ ==> r is Some && gives_rate((r->0).0 as int, (r->0).1 as int, 5_000)
        }),
{
    lemma_rates_differ();
    lemma_rate(0x00, 0x14, 1_000_000, 1, 8);
    lemma_rate(0x00, 0x16, 800_000, 1, 10);
    lemma_rate(0x00, 0x1C, 500_000, 1, 16);
    lemma_rate(0x01, 0x1C, 250_000, 2, 16);
    lemma_rate(0x03, 0x1C, 125_000, 4, 16);
    lemma_rate(0x04, 0x1C, 100_000, 5, 16);
    lemma_rate(0x09, 0x1C, 50_000, 10, 16);
    lemma_rate(0x18, 0x1C, 20_000, 25, 16);
    lemma_rate(0x31, 0x1C, 10_000, 50, 16);
    lemma_rate(0xBF, 0xFF, 5_000, 64, 25);
}

proof fn lemma_rates_differ()
    ensures
        "1000K"@ != "800K"@ && "1000K"@ != "500K"@ && "1000K"@ != "250K"@ && "1000K"@ != "125K"@,
        "1000K"@ != "100K"@ && "1000K"@ != "50K"@ && "1000K"@ != "20K"@ && "1000K"@ != "10K"@,
        "1000K"@ != "5K"@,
        "800K"@ != "500K"@ && "800K"@ != "250K"@ && "800K"@ != "125K"@ && "800K"@ != "100K"@,
        "500K"@ != "250K"@ && "500K"@ != "125K"@ && "500K"@ != "100K"@,
        "250K"@ != "125K"@ && "250K"@ != "100K"@ && "125K"@ != "100K"@,
        "1000K"@.len() == 5,
        "800K"@.len() == 4 && "500K"@.len() == 4 && "250K"@.len() == 4 && "125K"@.len() == 4,
        "100K"@.len() == 4 && "50K"@.len() == 3 && "20K"@.len() == 3 && "10K"@.len() == 3,
        "5K"@.len() == 2 && "50K"@ != "20K"@ && "50K"@ != "10K"@ && "20K"@ != "10K"@,
{
    reveal_strlit("1000K");
    reveal_strlit("800K");
    reveal_strlit("500K");
    reveal_strlit("250K");
    reveal_strlit("125K");
    reveal_strlit("100K");
    reveal_strlit("50K");
    reveal_strlit("20K");
    reveal_strlit("10K");
    reveal_strlit("5K");
    assert("1000K"@.len() == 5 && "800K"@.len() == 4 && "500K"@.len() == 4 && "250K"@.len() == 4);
    assert("125K"@.len() == 4 && "100K"@.len() == 4 && "50K"@.len() == 3 && "20K"@.len() == 3);
    assert("10K"@.len() == 3 && "5K"@.len() == 2);
    assert("800K"@[0] == '8' && "500K"@[0] == '5' && "250K"@[0] == '2');
    assert("125K"@[1] == '2' && "100K"@[1] == '0' && "125K"@[0] == '1' && "100K"@[0] == '1');
    assert("50K"@[0] == '5' && "20K"@[0] == '2' && "10K"@[0] == '1');
}

/// The codes that a PCAN driver takes for its rates are the same two registers, the first one in the
/// higher byte.
pub proof fn law_codes_give_their_rate(baud: Seq<char>)
    ensures
        ({
            let b = normalized_baud(baud);
            let c = classic_baud_code(baud);
            &&& b == "1000K"@ ==> c is Some && gives_rate(c->0 as int / 256, c->0 as int % 256, 1_000_000)
            &&& b == "500K"@ ==> c is Some && gives_rate(c->0 as int / 256, c->0 as int % 256, 500_000)
            &&& b == "250K"@ ==> c is Some && gives_rate(c->0 as int / 256, c->0 as int % 256, 250_000)
            &&& b == "125K"@ ==> c is Some && gives_rate(c->0 as int / 256, c->0 as int % 256, 125_000)
        }),
{
    lemma_rates_differ();
    lemma_rate(0x00, 0x14, 1_000_000, 1, 8);
    lemma_rate(0x00, 0x1C, 500_000, 1, 16);
    lemma_rate(0x01, 0x1C, 250_000, 2, 16);
    lemma_rate(0x03, 0x1C, 125_000, 4, 16);
}

// ---------------------------------------------------------------- captured frames

/// Captured frames are shown in batches of 128 in their order, all on their channel and otherwise as
/// they came.
pub proof fn law_captured_frames_are_batched(
    frames: &[CanFrame],
    channel: u8,
    r: Vec<Vec<CanFrame>>,
    i: int,
)
    requires
        call_ensures(capture_batches, (frames, channel), r),
        0 <= i < frames@.len(),
    ensures
        i / 128 < r@.len(),
        i % 128 < r@[i / 128]@.len() <= 128,
        ({
            let f = r@[i / 128]@[i % 128];
            &&& f.ch == channel
            &&& f.id == frames@[i].id && f.data@ == frames@[i].data@ && f.t == frames@[i].t
            &&& f.ext == frames@[i].ext && f.fd == frames@[i].fd && f.tx == frames@[i].tx
        }),
{
    let all = frames_view(frames@);
    let k = i / 128;
    let b = frames_view(r@[k]@);
    assert(b == batch_at(all, channel, k));
    assert(b.len() == r@[k]@.len());
    assert(b[i % 128] == r@[k]@[i % 128]@);
    assert(all[i] == frames@[i]@);
    assert(128 * k + i % 128 == i);
}

} // verus!
