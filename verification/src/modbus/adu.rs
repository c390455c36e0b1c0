//! Frames around the protocol data unit: MBAP headers, checksums and the traffic monitor.
use crate::bytes::{copy_part, push_bytes};
use crate::modbus::pdu::{be16, be_bytes};
use crate::text;
use vstd::prelude::*;

verus! {

/// The longest frame with an MBAP header.
pub const MAX_MBAP_ADU: usize = 260;

// ---------------------------------------------------------------- checksum

/// One bit of the checksum.
pub open spec fn crc_bit(crc: u16) -> u16 {
    if crc & 1 != 0 {
        (crc >> 1) ^ 0xA001
    } else {
        crc >> 1
    }
}

/// `n` bits of the checksum.
pub open spec fn crc_bits(crc: u16, n: nat) -> u16
    decreases n,
{
    if n == 0 {
        crc
    } else {
        crc_bit(crc_bits(crc, (n - 1) as nat))
    }
}

/// The checksum of serial frames.
pub open spec fn crc_of(data: Seq<u8>) -> u16
    decreases data.len(),
{
    if data.len() == 0 {
        0xFFFF
    } else {
        crc_bits(crc_of(data.drop_last()) ^ (data.last() as u16), 8)
    }
}

/// The checksum of serial frames.
pub fn modbus_crc16(data: &[u8]) -> (r: u16)
    ensures
        r == crc_of(data@),
{
    let mut crc: u16 = 0xFFFF;
    let mut i: usize = 0;
    assert(data@.take(0) =~= Seq::<u8>::empty());
    while i < data.len()
        invariant
            i <= data.len(),
            crc == crc_of(data@.take(i as int)),
        decreases data.len() - i,
    {
        let ghost row = data@.take(i + 1);
        assert(row.drop_last() =~= data@.take(i as int));
        crc = crc ^ (data[i] as u16);
        let ghost start = crc;
        let mut k: u8 = 0;
        while k < 8
            invariant
                k <= 8,
                crc == crc_bits(start, k as nat),
            decreases 8 - k,
        {
            crc = if crc & 1 != 0 {
                (crc >> 1) ^ 0xA001
            } else {
                crc >> 1
            };
            k += 1;
        }
        i += 1;
    }
    assert(data@.take(i as int) =~= data@);
    crc
}

// ---------------------------------------------------------------- names

/// The name of a function code.
pub open spec fn function_name(fc: u8) -> Seq<char> {
    match fc {
        1 => "Read Coils"@,
        2 => "Read Discrete Inputs"@,
        3 => "Read Holding Regs"@,
        4 => "Read Input Regs"@,
        5 => "Write Single Coil"@,
        6 => "Write Single Reg"@,
        7 => "Read Exception Status"@,
        8 => "Diagnostics"@,
        11 => "Get Comm Event Counter"@,
        15 => "Write Multiple Coils"@,
        16 => "Write Multiple Regs"@,
        17 => "Report Server ID"@,
        22 => "Mask Write Reg"@,
        23 => "Read/Write Multiple Regs"@,
        43 => "Encapsulated (MEI)"@,
        _ => "?"@,
    }
}

/// The name of a function code.
pub fn fc_name(fc: u8) -> (r: &'static str)
    ensures
        r@ == function_name(fc),
{
    match fc {
        1 => "Read Coils",
        2 => "Read Discrete Inputs",
        3 => "Read Holding Regs",
        4 => "Read Input Regs",
        5 => "Write Single Coil",
        6 => "Write Single Reg",
        7 => "Read Exception Status",
        8 => "Diagnostics",
        11 => "Get Comm Event Counter",
        15 => "Write Multiple Coils",
        16 => "Write Multiple Regs",
        17 => "Report Server ID",
        22 => "Mask Write Reg",
        23 => "Read/Write Multiple Regs",
        43 => "Encapsulated (MEI)",
        _ => "?",
    }
}

/// The name of an exception code.
pub open spec fn exception_name(e: u8) -> Seq<char> {
    match e {
        1 => "Illegal Function"@,
        2 => "Illegal Data Address"@,
        3 => "Illegal Data Value"@,
        4 => "Server Device Failure"@,
        5 => "Acknowledge"@,
        6 => "Server Busy"@,
        8 => "Memory Parity Error"@,
        10 => "Gateway Path Unavailable"@,
        11 => "Gateway Target Failed to Respond"@,
        _ => "?"@,
    }
}

/// The name of an exception code.
pub fn modbus_exc_name(e: u8) -> (r: &'static str)
    ensures
        r@ == exception_name(e),
{
    match e {
        1 => "Illegal Function",
        2 => "Illegal Data Address",
        3 => "Illegal Data Value",
        4 => "Server Device Failure",
        5 => "Acknowledge",
        6 => "Server Busy",
        8 => "Memory Parity Error",
        10 => "Gateway Path Unavailable",
        11 => "Gateway Target Failed to Respond",
        _ => "?",
    }
}

// ---------------------------------------------------------------- the traffic monitor

/// The byte at `i`, zero where there is none.
pub open spec fn byte_or_zero(s: Seq<u8>, i: int) -> u8 {
    if 0 <= i < s.len() {
        s[i]
    } else {
        0
    }
}

/// The number at `i`, with zeros for bytes that are not there.
pub open spec fn lenient16(s: Seq<u8>, i: int) -> u16 {
    (byte_or_zero(s, i) * 256 + byte_or_zero(s, i + 1)) as u16
}

fn byte_at(s: &[u8], i: usize) -> (r: u8)
    ensures
        r == byte_or_zero(s@, i as int),
{
    if i < s.len() {
        s[i]
    } else {
        0
    }
}

/// The number at an index, with zeros for bytes that are not there.
pub fn u16be(s: &[u8], i: usize) -> (r: u16)
    requires
        i < usize::MAX,
    ensures
        r == lenient16(s@, i as int),
{
    byte_at(s, i) as u16 * 256 + byte_at(s, i + 1) as u16
}

/// The text `name` and a number.
pub open spec fn field(name: Seq<char>, v: u16) -> Seq<char> {
    name + text::decimal(v as nat)
}

/// The text `name` and a number in four hexadecimal digits.
pub open spec fn hex_field(name: Seq<char>, v: u16) -> Seq<char> {
    name + text::hex_padded(v as nat, 4)
}

/// What follows the function in the summary of a unit: the parts of the request, or of the
/// response where it differs.
pub open spec fn unit_details(is_tx: bool, fc: u8, p: Seq<u8>) -> Seq<char> {
    if 1 <= fc <= 4 || fc == 23 {
        if !is_tx {
            " bytes="@ + text::decimal(byte_or_zero(p, 0) as nat)
        } else if fc == 23 {
            field(" rd_addr="@, lenient16(p, 0)) + field(" rd_qty="@, lenient16(p, 2)) + field(
                " wr_addr="@,
                lenient16(p, 4),
            ) + field(" wr_qty="@, lenient16(p, 6))
        } else {
            field(" addr="@, lenient16(p, 0)) + field(" qty="@, lenient16(p, 2))
        }
    } else if fc == 5 || fc == 6 {
        field(" addr="@, lenient16(p, 0)) + hex_field(" val=0x"@, lenient16(p, 2))
    } else if fc == 15 || fc == 16 {
        field(" addr="@, lenient16(p, 0)) + field(" qty="@, lenient16(p, 2))
    } else if fc == 22 {
        field(" addr="@, lenient16(p, 0)) + hex_field(" and=0x"@, lenient16(p, 2)) + hex_field(
            " or=0x"@,
            lenient16(p, 4),
        )
    } else {
        seq![]
    }
}

/// The summary of a protocol data unit.
pub open spec fn unit_summary(is_tx: bool, unit: u8, pdu: Seq<u8>) -> Seq<char> {
    let fc = pdu[0];
    let head = "U="@ + text::decimal(unit as nat) + " "@;
    if fc >= 128 {
        let e = byte_or_zero(pdu, 1);
        head + "FC"@ + text::decimal_padded((fc - 128) as nat, 2) + " ⚠ Exception "@
            + text::hex_padded(e as nat, 2) + " ("@ + exception_name(e) + ")"@
    } else {
        head + "FC"@ + text::decimal_padded(fc as nat, 2) + " "@ + function_name(fc)
            + unit_details(is_tx, fc, pdu.skip(1))
    }
}

/// The summary of a frame: with an MBAP header or, on a serial line, with a checksum.
pub open spec fn frame_summary(is_tx: bool, bytes: Seq<u8>, is_tcp: bool) -> Option<Seq<char>> {
    if is_tcp {
        if bytes.len() >= 8 && be16(bytes, 2) == 0 && 2 <= be16(bytes, 4) <= 254 && bytes.len() == 6
            + be16(bytes, 4) {
            Some(
                "TID="@ + text::decimal(be16(bytes, 0) as nat) + " "@ + unit_summary(
                    is_tx,
                    bytes[6],
                    bytes.skip(7),
                ),
            )
        } else {
            None
        }
    } else if bytes.len() >= 4 {
        Some(unit_summary(is_tx, bytes[0], bytes.subrange(1, bytes.len() - 2)))
    } else {
        None
    }
}

fn push_field(out: &mut String, name: &str, v: u16)
    ensures
        final(out)@ == old(out)@ + field(name@, v),
{
    let ghost before = out@;
    out.push_str(name);
    text::push_decimal(out, v as u64);
    assert(out@ =~= before + field(name@, v));
}

fn push_hex_field(out: &mut String, name: &str, v: u16)
    ensures
        final(out)@ == old(out)@ + hex_field(name@, v),
{
    let ghost before = out@;
    out.push_str(name);
    text::push_hex_padded(out, v as u64, 4);
    assert(out@ =~= before + hex_field(name@, v));
}

fn push_details(out: &mut String, is_tx: bool, fc: u8, p: &[u8])
    ensures
        final(out)@ == old(out)@ + unit_details(is_tx, fc, p@),
{
    let ghost before = out@;
    if (1 <= fc && fc <= 4) || fc == 23 {
        if !is_tx {
            out.push_str(" bytes=");
            text::push_decimal(out, byte_at(p, 0) as u64);
        } else if fc == 23 {
            push_field(out, " rd_addr=", u16be(p, 0));
            push_field(out, " rd_qty=", u16be(p, 2));
            push_field(out, " wr_addr=", u16be(p, 4));
            push_field(out, " wr_qty=", u16be(p, 6));
        } else {
            push_field(out, " addr=", u16be(p, 0));
            push_field(out, " qty=", u16be(p, 2));
        }
    } else if fc == 5 || fc == 6 {
        push_field(out, " addr=", u16be(p, 0));
        push_hex_field(out, " val=0x", u16be(p, 2));
    } else if fc == 15 || fc == 16 {
        push_field(out, " addr=", u16be(p, 0));
        push_field(out, " qty=", u16be(p, 2));
    } else if fc == 22 {
        push_field(out, " addr=", u16be(p, 0));
        push_hex_field(out, " and=0x", u16be(p, 2));
        push_hex_field(out, " or=0x", u16be(p, 4));
    }
    assert(out@ =~= before + unit_details(is_tx, fc, p@));
}

fn push_unit(out: &mut String, is_tx: bool, unit: u8, pdu: &[u8])
    requires
        pdu@.len() > 0,
    ensures
        final(out)@ == old(out)@ + unit_summary(is_tx, unit, pdu@),
{
    let ghost before = out@;
    let fc: u8 = pdu[0];
    out.push_str("U=");
    text::push_decimal(out, unit as u64);
    out.push_str(" ");
    out.push_str("FC");
    assert(fc & 0x80 != 0 <==> fc >= 128) by (bit_vector);
    if fc & 0x80 != 0 {
        let e: u8 = byte_at(pdu, 1);
        text::push_decimal_padded(out, (fc - 128) as u64, 2);
        out.push_str(" ⚠ Exception ");
        text::push_hex_padded(out, e as u64, 2);
        out.push_str(" (");
        out.push_str(modbus_exc_name(e));
        out.push_str(")");
        assert(out@ =~= before + unit_summary(is_tx, unit, pdu@));
        return ;
    }
    text::push_decimal_padded(out, fc as u64, 2);
    out.push_str(" ");
    out.push_str(fc_name(fc));
    let p = copy_part(pdu, 1, pdu.len());
    assert(p@ =~= pdu@.skip(1));
    push_details(out, is_tx, fc, p.as_slice());
    assert(out@ =~= before + unit_summary(is_tx, unit, pdu@));
}

/// A one-line summary of a frame; `None` where it is no complete frame.
pub fn parse_modbus_adu(is_tx: bool, bytes: &[u8], is_tcp: bool) -> (r: Option<String>)
    ensures
        match r {
            Some(s) => frame_summary(is_tx, bytes@, is_tcp) == Some(s@),
            None => frame_summary(is_tx, bytes@, is_tcp) is None,
        },
{
    let n: usize = bytes.len();
    let mut out = String::new();
    if is_tcp {
        if n < 8 {
            return None;
        }
        let body: usize = u16be(bytes, 4) as usize;
        if u16be(bytes, 2) != 0 || body < 2 || body > 254 || n != 6 + body {
            return None;
        }
        out.push_str("TID=");
        text::push_decimal(&mut out, u16be(bytes, 0) as u64);
        out.push_str(" ");
        let ghost head = out@;
        let pdu = copy_part(bytes, 7, n);
        assert(pdu@ =~= bytes@.skip(7));
        push_unit(&mut out, is_tx, bytes[6], pdu.as_slice());
        assert(head =~= "TID="@ + text::decimal(be16(bytes@, 0) as nat) + " "@);
        Some(out)
    } else {
        if n < 4 {
            return None;
        }
        let pdu = copy_part(bytes, 1, n - 2);
        push_unit(&mut out, is_tx, bytes[0], pdu.as_slice());
        assert(out@ =~= unit_summary(is_tx, bytes@[0], pdu@));
        Some(out)
    }
}

/// The line of the traffic monitor for a frame: its summary, where it has one, and its bytes.
pub open spec fn traffic_text(is_tx: bool, bytes: Seq<u8>, is_tcp: bool, bar: Seq<char>) -> Seq<char> {
    match frame_summary(is_tx, bytes, is_tcp) {
        Some(s) => s + bar + text::hex_bytes(bytes),
        None => text::hex_bytes(bytes),
    }
}

/// The line of the traffic monitor for a frame, with `bar` between summary and bytes.
pub fn traffic_line(is_tx: bool, bytes: &[u8], is_tcp: bool, bar: &str) -> (r: String)
    ensures
        r@ == traffic_text(is_tx, bytes@, is_tcp, bar@),
{
    let hex = text::hex_text(bytes);
    match parse_modbus_adu(is_tx, bytes, is_tcp) {
        Some(s) => {
            let mut out = s;
            out.push_str(bar);
            out.push_str(hex.as_str());
            out
        },
        None => hex,
    }
}

// ---------------------------------------------------------------- reassembly

/// Whether a stream begins with a plausible MBAP header.
pub open spec fn plausible_header(s: Seq<u8>) -> bool {
    be16(s, 2) == 0 && 2 <= be16(s, 4) <= 254
}

/// The frames at the beginning of a stream and what is left of it: bytes that begin no plausible
/// header are skipped one by one, and a frame that is not complete yet is left.
pub open spec fn reassembled(s: Seq<u8>) -> (Seq<Seq<u8>>, Seq<u8>)
    decreases s.len(),
{
    if s.len() < 7 {
        (seq![], s)
    } else if !plausible_header(s) {
        reassembled(s.skip(1))
    } else if s.len() < 6 + be16(s, 4) {
        (seq![], s)
    } else {
        let n = 6 + be16(s, 4);
        let rest = reassembled(s.skip(n));
        (seq![s.take(n)] + rest.0, rest.1)
    }
}

/// Puts a stream of MBAP frames together from the chunks that it arrives in.
#[derive(Debug)]
pub struct MbapReassembler {
    pub bytes: Vec<u8>,
}

impl Default for MbapReassembler {
    fn default() -> (r: MbapReassembler)
        ensures
            r.bytes@ == Seq::<u8>::empty(),
    {
        MbapReassembler { bytes: Vec::new() }
    }
}

/// The contents of a list of frames.
pub open spec fn frame_list(frames: Seq<Vec<u8>>) -> Seq<Seq<u8>> {
    frames.map_values(|f: Vec<u8>| f@)
}

impl MbapReassembler {
    /// Takes a chunk and gives the frames that are complete now.
    pub fn push(&mut self, chunk: &[u8]) -> (r: Vec<Vec<u8>>)
        ensures
            frame_list(r@) == reassembled(old(self).bytes@ + chunk@).0,
            final(self).bytes@ == reassembled(old(self).bytes@ + chunk@).1,
    {
        let ghost whole = self.bytes@ + chunk@;
        let mut i: usize = 0;
        let ghost before = self.bytes@;
        assert(before + chunk@.take(0) =~= before);
        while i < chunk.len()
            invariant
                i <= chunk@.len(),
                self.bytes@ == before + chunk@.take(i as int),
            decreases chunk@.len() - i,
        {
            self.bytes.push(chunk[i]);
            assert(self.bytes@ =~= before + chunk@.take(i + 1));
            i += 1;
        }
        assert(chunk@.take(i as int) =~= chunk@);
        let mut frames: Vec<Vec<u8>> = Vec::new();
        let len: usize = self.bytes.len();
        let mut at: usize = 0;
        assert(whole.skip(0) =~= whole);
        assert(frame_list(frames@) + reassembled(whole).0 =~= reassembled(whole).0);
        loop
            invariant
                self.bytes@ == whole,
                len == whole.len(),
                at <= len,
                frame_list(frames@) + reassembled(whole.skip(at as int)).0 == reassembled(whole).0,
                reassembled(whole.skip(at as int)).1 == reassembled(whole).1,
            ensures
                self.bytes@ == whole,
                at <= whole.len(),
                frame_list(frames@) == reassembled(whole).0,
                whole.skip(at as int) == reassembled(whole).1,
            decreases len - at,
        {
            let ghost rest = whole.skip(at as int);
            if len - at < 7 {
                assert(frame_list(frames@) + Seq::<Seq<u8>>::empty() =~= frame_list(frames@));
                break;
            }
            assert(rest[2] == whole[at + 2] && rest[3] == whole[at + 3] && rest[4] == whole[at + 4]
                && rest[5] == whole[at + 5]);
            let protocol: u16 = self.bytes[at + 2] as u16 * 256 + self.bytes[at + 3] as u16;
            let body: u16 = self.bytes[at + 4] as u16 * 256 + self.bytes[at + 5] as u16;
            if protocol != 0 || body < 2 || body > 254 {
                assert(rest.skip(1) =~= whole.skip(at + 1));
                at += 1;
            } else {
                let total: usize = 6 + body as usize;
                if len - at < total {
                    assert(frame_list(frames@) + Seq::<Seq<u8>>::empty() =~= frame_list(frames@));
                    break;
                }
                let frame = copy_part(self.bytes.as_slice(), at, at + total);
                let ghost f0 = frames@;
                frames.push(frame);
                proof {
                    assert(frame@ =~= rest.take(total as int));
                    assert(rest.skip(total as int) =~= whole.skip(at + total));
                    assert(frame_list(frames@) =~= frame_list(f0).push(frame@));
                    let tail = reassembled(whole.skip(at + total)).0;
                    assert(frame_list(f0).push(frame@) + tail =~= frame_list(f0) + (seq![frame@]
                        + tail));
                }
                at += total;
            }
        }
        let left = copy_part(self.bytes.as_slice(), at, len);
        assert(left@ =~= whole.skip(at as int));
        self.bytes = left;
        frames
    }
}

/// The frames do not depend on how the stream was cut: a chunk that comes in two pieces gives the
/// same frames as in one, and leaves the same bytes.
pub proof fn law_chunks_do_not_matter(a: Seq<u8>, b: Seq<u8>)
    ensures
        reassembled(a + b).0 == reassembled(a).0 + reassembled(reassembled(a).1 + b).0,
        reassembled(a + b).1 == reassembled(reassembled(a).1 + b).1,
    decreases a.len(),
{
    let s = a + b;
    if a.len() < 7 {
        assert(Seq::<Seq<u8>>::empty() + reassembled(s).0 =~= reassembled(s).0);
    } else {
        assert(s[2] == a[2] && s[3] == a[3] && s[4] == a[4] && s[5] == a[5]);
        if !plausible_header(a) {
            law_chunks_do_not_matter(a.skip(1), b);
            assert(s.skip(1) =~= a.skip(1) + b);
        } else if a.len() < 6 + be16(a, 4) {
            assert(Seq::<Seq<u8>>::empty() + reassembled(s).0 =~= reassembled(s).0);
        } else {
            let n = 6 + be16(a, 4);
            law_chunks_do_not_matter(a.skip(n), b);
            assert(s.skip(n) =~= a.skip(n) + b);
            assert(s.take(n) =~= a.take(n));
            let x = reassembled(a.skip(n)).0;
            let y = reassembled(reassembled(a).1 + b).0;
            assert(seq![a.take(n)] + (x + y) =~= (seq![a.take(n)] + x) + y);
        }
    }
}

/// A well-formed frame at the beginning of a stream comes out whole and first.
pub proof fn law_whole_frames_come_out(frame: Seq<u8>, rest: Seq<u8>)
    requires
        frame.len() >= 8,
        plausible_header(frame),
        frame.len() == 6 + be16(frame, 4),
    ensures
        reassembled(frame + rest).0 == seq![frame] + reassembled(rest).0,
        reassembled(frame + rest).1 == reassembled(rest).1,
{
    let s = frame + rest;
    let n = frame.len() as int;
    assert(s[2] == frame[2] && s[3] == frame[3] && s[4] == frame[4] && s[5] == frame[5]);
    assert(s.skip(n) =~= rest);
    assert(s.take(n) =~= frame);
}

// ---------------------------------------------------------------- datagrams

/// A request in a datagram: the transaction where the frame has an MBAP header, the server that is
/// addressed, and the unit.
#[derive(Debug)]
pub struct DatagramRequest {
    pub transaction: Option<(u8, u8)>,
    pub slave: u8,
    pub pdu: Vec<u8>,
}

/// What a datagram holds: a serial frame with a good checksum, or a frame with an MBAP header that
/// tells its length.
pub open spec fn datagram_parts(frame: Seq<u8>, rtu: bool) -> Option<(Option<(u8, u8)>, u8, Seq<u8>)> {
    let n = frame.len();
    if rtu {
        if n >= 4 && crc_of(frame.take(n - 2)) == frame[n - 2] + 256 * frame[n - 1] {
            Some((None, frame[0], frame.subrange(1, n - 2)))
        } else {
            None
        }
    } else if n >= 8 && be16(frame, 2) == 0 && be16(frame, 4) >= 2 && n == 6 + be16(frame, 4) {
        Some((Some((frame[0], frame[1])), frame[6], frame.skip(7)))
    } else {
        None
    }
}

/// Reads a datagram.
pub fn parse_datagram(frame: &[u8], rtu: bool) -> (r: Option<DatagramRequest>)
    ensures
        match r {
            Some(d) => datagram_parts(frame@, rtu) == Some((d.transaction, d.slave, d.pdu@)),
            None => datagram_parts(frame@, rtu) is None,
        },
{
    let n: usize = frame.len();
    if rtu {
        if n < 4 {
            return None;
        }
        let body = copy_part(frame, 0, n - 2);
        assert(body@ =~= frame@.take(n - 2));
        let expected: u16 = frame[n - 2] as u16 + 256 * frame[n - 1] as u16;
        if modbus_crc16(body.as_slice()) != expected {
            return None;
        }
        let pdu = copy_part(frame, 1, n - 2);
        return Some(DatagramRequest { transaction: None, slave: frame[0], pdu });
    }
    if n < 8 || frame[2] != 0 || frame[3] != 0 {
        return None;
    }
    let length: usize = frame[4] as usize * 256 + frame[5] as usize;
    if length < 2 || 6 + length != n {
        return None;
    }
    let pdu = copy_part(frame, 7, n);
    assert(pdu@ =~= frame@.skip(7));
    Some(DatagramRequest { transaction: Some((frame[0], frame[1])), slave: frame[6], pdu })
}

/// The datagram that carries a response.
pub open spec fn datagram_reply(transaction: Option<(u8, u8)>, slave: u8, pdu: Seq<u8>) -> Seq<u8> {
    match transaction {
        Some((a, b)) => seq![a, b, 0u8, 0u8] + be_bytes(((pdu.len() + 1) % 0x1_0000) as u16) + seq![
            slave,
        ] + pdu,
        None => {
            let body = seq![slave] + pdu;
            let crc = crc_of(body);
            body + seq![(crc % 256) as u8, (crc / 256) as u8]
        },
    }
}

/// Builds the datagram that carries a response.
pub fn build_datagram(transaction: Option<(u8, u8)>, slave: u8, pdu: &[u8]) -> (r: Vec<u8>)
    requires
        pdu@.len() < 0x7fff_ffff,
    ensures
        r@ == datagram_reply(transaction, slave, pdu@),
{
    let mut out: Vec<u8> = Vec::new();
    match transaction {
        Some((a, b)) => {
            let length: u16 = ((pdu.len() + 1) % 0x1_0000) as u16;
            out.push(a);
            out.push(b);
            out.push(0);
            out.push(0);
            out.push((length / 256) as u8);
            out.push((length % 256) as u8);
            out.push(slave);
            push_bytes(&mut out, pdu);
            assert(out@ =~= datagram_reply(transaction, slave, pdu@));
        },
        None => {
            out.push(slave);
            push_bytes(&mut out, pdu);
            assert(out@ =~= seq![slave] + pdu@);
            let crc: u16 = modbus_crc16(out.as_slice());
            out.push((crc % 256) as u8);
            out.push((crc / 256) as u8);
            assert(out@ =~= datagram_reply(transaction, slave, pdu@));
        },
    }
    out
}

/// A datagram is read as it was built: the same transaction, server and unit come back.
pub proof fn law_datagrams_round_trip(transaction: Option<(u8, u8)>, slave: u8, pdu: Seq<u8>)
    requires
        1 <= pdu.len() < 0xFFFF,
    ensures
        datagram_parts(datagram_reply(transaction, slave, pdu), transaction is None) == Some(
            (transaction, slave, pdu),
        ),
{
    let frame = datagram_reply(transaction, slave, pdu);
    let n = frame.len();
    match transaction {
        Some((a, b)) => {
            assert(frame.skip(7) =~= pdu);
            assert(be16(frame, 4) == pdu.len() + 1);
        },
        None => {
            let body = seq![slave] + pdu;
            assert(frame.take(n - 2) =~= body);
            assert(frame.subrange(1, n - 2) =~= pdu);
        },
    }
}

} // verus!
