//! Laws on logs, exports, dates, searches and the framing of messages.
use crate::modbus::Area;
use crate::modbus::adu::{build_datagram, crc_bits, crc_of, parse_datagram, DatagramRequest};
use crate::modbus::commands::{plan_write, WriteReq, WriteValue};
use crate::modbus::csv::{export_line, export_lines, exported, field_text, name_of, needs_quotes};
use crate::modbus::datalog::Logger;
use crate::modbus::log::{days_to_date, days_to_month, hms, is_date, logged, month_len, LineView};
use crate::modbus::pdu::Request;
use crate::modbus::scan::{probe_request, slave_range, ScanKind, ScanTarget};
use crate::modbus::traffic::LossCounts;
use crate::text::{decimal_padded, digits_value};
use vstd::prelude::*;

verus! {

// ---------------------------------------------------------------- logs

/// A value is logged at the first reading, and then once as many seconds went by as asked for, at
/// least one, or at each reading where that is asked for; the file is written through once a second.
pub proof fn law_readings_are_logged_in_their_period(l: Logger, now: u64, t: u64, f: u64)
    ensures
        l.cfg.each_read ==> l.due(now),
        l.last_write is None ==> l.due(now),
        !l.cfg.each_read && l.last_write == Some(t) && now >= t ==> l.due(now) == (now - t >= (
        if l.cfg.period_s == 0 {
            1int
        } else {
            l.cfg.period_s as int
        }) * 1_000_000_000),
        !l.cfg.each_read && l.last_write == Some(t) && now < t ==> !l.due(now),
        l.last_flush is None ==> l.flush_due(now),
        l.last_flush == Some(f) && now >= f ==> l.flush_due(now) == (now - f >= 1_000_000_000),
{
    if now >= t {
        let e = now - t;
        assert(forall|p: int|
            (e / 1_000_000_000 >= p) == (e >= #[trigger] (p * 1_000_000_000))) by {
            assert forall|p: int| (e / 1_000_000_000 >= p) == (e >= #[trigger] (p * 1_000_000_000)) by {
                assert(e == 1_000_000_000 * (e / 1_000_000_000) + e % 1_000_000_000);
            }
        }
    }
}

/// A line is appended to a log, and the oldest lines go where the log is full.
pub proof fn law_lines_are_appended(
    lines: Seq<LineView>,
    secs: nat,
    dir: Seq<char>,
    words: Seq<char>,
    limit: int,
    i: int,
)
    requires
        limit >= 1,
        lines.len() <= limit,
    ensures
        ({
            let after = logged(lines, secs, dir, words, limit);
            &&& after.len() == (if lines.len() < limit {
                (lines.len() + 1) as int
            } else {
                limit
            })
            &&& after.last().text == words
            &&& after.last().dir == dir
            &&& after.last().time == hms(secs)
            &&& lines.len() < limit && 0 <= i < lines.len() ==> after[i] == lines[i]
            &&& lines.len() == limit && 0 <= i < limit - 1 ==> after[i] == lines[i + 1]
        }),
{
}

/// What was lost is counted once, with its bytes, and the greatest depth of a queue is remembered.
pub proof fn law_losses_are_counted(c: LossCounts, accepted: bool, bytes: u64, depth: usize)
    requires
        c.dropped < u64::MAX,
        c.dropped_bytes + bytes <= u64::MAX,
    ensures
        ({
            let d = c.counted(accepted, bytes, depth);
            &&& d.dropped - c.dropped == (if accepted { 0int } else { 1 })
            &&& d.dropped_bytes - c.dropped_bytes == (if accepted { 0int } else { bytes as int })
            &&& d.high_watermark >= c.high_watermark
            &&& accepted ==> d.high_watermark >= depth && (d.high_watermark == depth
                || d.high_watermark == c.high_watermark)
            &&& !accepted ==> d.high_watermark == c.high_watermark
        }),
{
}

// ---------------------------------------------------------------- times and dates

proof fn lemma_two_digits(n: nat)
    requires
        n < 100,
    ensures
        decimal_padded(n, 2).len() == 2,
        digits_value(decimal_padded(n, 2), 10) == Some(n),
{
    crate::laws::texts::law_numerals_read_back(n, 10);
    crate::laws::texts::law_numerals_end_in_their_last_digit(n, 10);
    if n < 10 {
        let s = decimal_padded(n, 2);
        assert(s =~= seq!['0', crate::text::decimal(n)[0]]);
        assert(s.drop_last() =~= seq!['0']);
        assert(digits_value(seq!['0'], 10) == Some(0nat));
        assert(crate::text::digit_value(s.last(), 10) == Some(n));
    } else {
        crate::laws::texts::law_numerals_end_in_their_last_digit(n / 10, 10);
        assert(crate::text::decimal(n).drop_last() == crate::text::numeral(n / 10, 10));
    }
}

/// A time of the day has two digits each for hours, minutes and seconds, with colons between them,
/// which together are the seconds since midnight.
pub proof fn law_times_of_the_day(secs: nat)
    ensures
        hms(secs).len() == 8,
        hms(secs)[2] == ':' && hms(secs)[5] == ':',
        ({
            let h = digits_value(hms(secs).subrange(0, 2), 10);
            let m = digits_value(hms(secs).subrange(3, 5), 10);
            let s = digits_value(hms(secs).subrange(6, 8), 10);
            &&& h is Some && m is Some && s is Some
            &&& h->0 < 24 && m->0 < 60 && s->0 < 60
            &&& h->0 * 3600 + m->0 * 60 + s->0 == secs % 86400
        }),
{
    reveal_strlit(":");
    let h = (secs / 3600 % 24) as nat;
    let m = (secs / 60 % 60) as nat;
    let s = (secs % 60) as nat;
    lemma_two_digits(h);
    lemma_two_digits(m);
    lemma_two_digits(s);
    assert(hms(secs).subrange(0, 2) =~= decimal_padded(h, 2));
    assert(hms(secs).subrange(3, 5) =~= decimal_padded(m, 2));
    assert(hms(secs).subrange(6, 8) =~= decimal_padded(s, 2));
    assert(secs / 60 / 60 == secs / 3600);
    assert(secs / 3600 / 24 == secs / 86400);
}

/// The day after a date is the next one of its month, or the first of the next month; the months of
/// a year have its days, 366 in each fourth year, but in a year that begins a century only where
/// that is a fourth one too.
pub proof fn law_days_follow_each_other(y: int, m: int, d: int)
    requires
        is_date(y, m, d),
        y >= 1970,
    ensures
        d < month_len(y, m) ==> is_date(y, m, d + 1) && days_to_date(y, m, d + 1) == days_to_date(
            y,
            m,
            d,
        ) + 1,
        d == month_len(y, m) && m < 12 ==> days_to_date(y, m + 1, 1) == days_to_date(y, m, d) + 1,
        d == month_len(y, m) && m == 12 ==> days_to_date(y + 1, 1, 1) == days_to_date(y, m, d) + 1,
        days_to_date(1970, 1, 1) == 0,
        28 <= month_len(y, m) <= 31,
        m != 2 ==> month_len(y, m) == 30 + (m + m / 8) % 2,
        month_len(y, 2) == (if y % 4 != 0 {
            28int
        } else if y % 100 == 0 && y % 400 != 0 {
            28
        } else {
            29
        }),
{
    reveal_with_fuel(days_to_month, 13);
    reveal_with_fuel(crate::modbus::log::days_to_year, 2);
}

// ---------------------------------------------------------------- exports

/// An entry that is not zero, or that has a name, has its line in an export, with its address, its
/// name and its value; what stands before the line and after it.
pub proof fn law_entries_are_exported(
    area: Area,
    values: Seq<nat>,
    names: Map<u64, String>,
    n: int,
    i: int,
) -> (r: (Seq<char>, Seq<char>))
    requires
        0 <= i < n <= values.len() <= 65536,
        values[i] != 0 || names.dom().contains(i as u64),
    ensures
        export_lines(area, values, names, n) == r.0 + export_line(
            area,
            i,
            if names.dom().contains(i as u64) {
                names[i as u64]@
            } else {
                seq![]
            },
            crate::text::numeral(values[i], 10),
        ) + r.1,
    decreases n,
{
    let line = export_line(area, i, name_of(names, i), crate::text::decimal(values[i]));
    if i == n - 1 {
        let before = export_lines(area, values, names, n - 1);
        assert(export_lines(area, values, names, n) =~= before + line + Seq::<char>::empty());
        (before, Seq::empty())
    } else {
        let (a, b) = law_entries_are_exported(area, values, names, n - 1, i);
        let before = export_lines(area, values, names, n - 1);
        let last = if exported(names, n - 1, values[n - 1]) {
            export_line(area, n - 1, name_of(names, n - 1), crate::text::decimal(values[n - 1]))
        } else {
            seq![]
        };
        assert(export_lines(area, values, names, n) =~= a + line + (b + last));
        (a, b + last)
    }
}

/// An entry that is zero and has no name has no line.
pub proof fn law_blank_entries_are_left_out(
    area: Area,
    values: Seq<nat>,
    names: Map<u64, String>,
    n: int,
)
    requires
        0 < n <= values.len(),
        values[n - 1] == 0,
        !names.dom().contains((n - 1) as u64),
    ensures
        export_lines(area, values, names, n) == export_lines(area, values, names, n - 1),
{
}

/// A field without commas, quotes and line ends is written as it is; any other one stands in quotes.
pub proof fn law_fields_are_quoted(s: Seq<char>)
    ensures
        !s.contains(',') && !s.contains('"') && !s.contains('\n') ==> field_text(s) == s,
        s.contains(',') || s.contains('"') || s.contains('\n') ==> field_text(s).len() >= 2
            && field_text(s)[0] == '"' && field_text(s).last() == '"',
{
    assert(needs_quotes(s) ==> field_text(s).last() == '"');
}

// ---------------------------------------------------------------- searches and writes

/// A search asks for one entry of its area at each address.
pub proof fn law_probes_ask_for_one_entry(area: Area, addr: u16, r: Request)
    requires
        call_ensures(probe_request, (area, addr), r),
    ensures
        area == Area::Coils ==> r == Request::ReadCoils(addr, 1),
        area == Area::DiscreteInputs ==> r == Request::ReadDiscreteInputs(addr, 1),
        area == Area::HoldingRegisters ==> r == Request::ReadHoldingRegisters(addr, 1),
        area == Area::InputRegisters ==> r == Request::ReadInputRegisters(addr, 1),
{
}

/// A search goes through its addresses or units one by one from the lower end to the upper end, and
/// never beyond the last address.
pub proof fn law_searches_go_through_their_range(kind: ScanKind, i: int)
    requires
        0 <= i < kind.probes(),
    ensures
        match kind {
            ScanKind::Addresses { start, count } => {
                &&& kind.probes() <= count
                &&& start + kind.probes() <= 65536
                &&& start + count <= 65536 ==> kind.probes() == count
                &&& kind.target(i) matches ScanTarget::Address(a) && a == start + i
            },
            ScanKind::Slaves { lo, hi } => {
                &&& kind.probes() == hi - lo + 1
                &&& kind.target(i) matches ScanTarget::Slave(s) && s == lo + i && lo <= s <= hi
            },
        },
{
}

/// The ends of a range of units may be given in either order.
pub proof fn law_ranges_are_put_in_order(from: u8, to: u8, r: ScanKind)
    requires
        call_ensures(slave_range, (from, to), r),
    ensures
        r matches ScanKind::Slaves { lo, hi } && lo <= hi && ((lo == from && hi == to) || (lo == to
            && hi == from)),
{
}

/// A value that was read is written where it was meant to go, and by the function for it; one that
/// could not be read is not written, nor is a block that the protocol does not allow.
pub proof fn law_writes_go_where_they_are_meant(req: WriteReq, r: Result<(Request, String), String>)
    requires
        call_ensures(plan_write, (req,), r),
    ensures
        match req.value {
            WriteValue::Coil(Some(v)) => r matches Ok((q, _)) && q == Request::WriteSingleCoil(
                req.address,
                v,
            ),
            WriteValue::Register(Some(v)) => r matches Ok((q, _)) && q == Request::WriteSingleRegister(
                req.address,
                v,
            ),
            WriteValue::Coils(Some(v)) => if 1 <= v@.len() <= 1968 && req.address + v@.len() <= 65536 {
                r matches Ok((Request::WriteMultipleCoils(a, w), _)) && a == req.address && w@ == v@
            } else {
                r is Err
            },
            WriteValue::Registers(Some(v)) => if 1 <= v@.len() <= 123 && req.address + v@.len()
                <= 65536 {
                r matches Ok((Request::WriteMultipleRegisters(a, w), _)) && a == req.address && w@ == v@
            } else {
                r is Err
            },
            WriteValue::Encoded(Ok(v)) => if 1 <= v@.len() <= 123 && req.address + v@.len() <= 65536 {
                r matches Ok((Request::WriteMultipleRegisters(a, w), _)) && a == req.address && w@ == v@
            } else {
                r is Err
            },
            WriteValue::Encoded(Err(e)) => r matches Err(why) && why@ == e@,
            _ => r is Err,
        },
{
}

// ---------------------------------------------------------------- framing

proof fn lemma_crc_of_low_byte(x: u16)
    ensures
        crc_bits(x ^ ((x % 256) as u8 as u16), 8) == x >> 8,
{
    reveal_with_fuel(crc_bits, 9);
    let y = x ^ ((x % 256) as u8 as u16);
    assert(y == x & 0xFF00) by (bit_vector)
        requires
            y == x ^ ((x % 256) as u8 as u16),
    ;
    let z = x & 0xFF00;
    assert(z & 1 == 0 && (z >> 1) & 1 == 0 && (z >> 1 >> 1) & 1 == 0 && (z >> 1 >> 1 >> 1) & 1 == 0
        && (z >> 1 >> 1 >> 1 >> 1) & 1 == 0 && (z >> 1 >> 1 >> 1 >> 1 >> 1) & 1 == 0 && (z >> 1 >> 1
        >> 1 >> 1 >> 1 >> 1) & 1 == 0 && (z >> 1 >> 1 >> 1 >> 1 >> 1 >> 1 >> 1) & 1 == 0 && z >> 1 >> 1
        >> 1 >> 1 >> 1 >> 1 >> 1 >> 1 == x >> 8) by (bit_vector)
        requires
            z == x & 0xFF00,
    ;
    let c1 = crc_bits(y, 1);
    assert(crc_bits(y, 0) == z);
    assert(c1 == z >> 1);
    assert(crc_bits(y, 2) == z >> 1 >> 1);
    assert(crc_bits(y, 3) == z >> 1 >> 1 >> 1);
    assert(crc_bits(y, 4) == z >> 1 >> 1 >> 1 >> 1);
    assert(crc_bits(y, 5) == z >> 1 >> 1 >> 1 >> 1 >> 1);
    assert(crc_bits(y, 6) == z >> 1 >> 1 >> 1 >> 1 >> 1 >> 1);
    assert(crc_bits(y, 7) == z >> 1 >> 1 >> 1 >> 1 >> 1 >> 1 >> 1);
}

/// The checksum over a message with its own checksum behind it, the lower byte first, is zero.
pub proof fn law_checksums_check(data: Seq<u8>)
    ensures
        ({
            let c = crc_of(data);
            crc_of(data.push((c % 256) as u8).push((c / 256) as u8)) == 0
        }),
{
    let c = crc_of(data);
    let one = data.push((c % 256) as u8);
    let two = one.push((c / 256) as u8);
    assert(one.drop_last() =~= data);
    assert(two.drop_last() =~= one);
    lemma_crc_of_low_byte(c);
    assert(crc_of(one) == c >> 8);
    let h = c >> 8;
    assert(h == c / 256 && h < 256) by (bit_vector)
        requires
            h == c >> 8,
    ;
    assert(h ^ h == 0) by (bit_vector);
    assert(((c / 256) as u8) as u16 == h);
    reveal_with_fuel(crc_bits, 9);
    assert(0u16 >> 1 == 0 && 0u16 & 1 == 0) by (bit_vector);
    assert(crc_bits(0, 8) == 0);
}

/// A datagram carries its unit and its message: on a network behind the transaction and the length,
/// on a serial line before the checksum, the lower byte first.
pub proof fn law_datagrams_carry_their_message(
    transaction: Option<(u8, u8)>,
    slave: u8,
    pdu: &[u8],
    r: Vec<u8>,
    i: int,
)
    requires
        1 <= pdu@.len() < 0xFFFF,
        call_ensures(build_datagram, (transaction, slave, pdu), r),
        0 <= i < pdu@.len(),
    ensures
        transaction matches Some((a, b)) ==> r@.len() == 7 + pdu@.len() && r@[0] == a && r@[1] == b
            && r@[2] == 0 && r@[3] == 0 && r@[4] * 256 + r@[5] == pdu@.len() + 1 && r@[6] == slave
            && r@[7 + i] == pdu@[i],
        transaction is None ==> r@.len() == 3 + pdu@.len() && r@[0] == slave && r@[1 + i] == pdu@[i]
            && crc_of(r@.take(1 + pdu@.len() as int)) == r@[1 + pdu@.len() as int] + 256 * r@[2
            + pdu@.len() as int],
{
    if transaction is None {
        assert(r@.take(1 + pdu@.len() as int) =~= seq![slave] + pdu@);
    }
}

/// A datagram is taken only where its length is right, and on a serial line its checksum; its unit
/// and message are then as they stand in it.
pub proof fn law_datagrams_are_checked(frame: &[u8], rtu: bool, r: Option<DatagramRequest>, i: int)
    requires
        call_ensures(parse_datagram, (frame, rtu), r),
    ensures
        r matches Some(d) ==> {
            &&& rtu ==> d.slave == frame@[0] && d.pdu@.len() == frame@.len() - 3 && (0 <= i
                < d.pdu@.len() ==> d.pdu@[i] == frame@[1 + i]) && crc_of(
                frame@.take(frame@.len() - 2),
            ) == frame@[frame@.len() - 2] + 256 * frame@[frame@.len() - 1] && d.transaction is None
            &&& !rtu ==> d.slave == frame@[6] && d.pdu@.len() == frame@.len() - 7 && (0 <= i
                < d.pdu@.len() ==> d.pdu@[i] == frame@[7 + i]) && frame@[4] * 256 + frame@[5]
                == frame@.len() - 6 && d.transaction == Some((frame@[0], frame@[1]))
        },
        frame@.len() < 4 ==> r is None,
        !rtu && frame@.len() < 8 ==> r is None,
        !rtu && frame@.len() >= 8 && (frame@[2] != 0 || frame@[3] != 0) ==> r is None,
        rtu && frame@.len() >= 4 && crc_of(frame@.take(frame@.len() - 2)) != frame@[frame@.len() - 2]
            + 256 * frame@[frame@.len() - 1] ==> r is None,
{
}

} // verus!
