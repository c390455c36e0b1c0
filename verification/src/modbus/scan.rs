//! The search for addresses and servers that answer.
use crate::modbus::log::{hms, hms_text, lines_view, LineView, LogLine};
use crate::modbus::master::Reply;
use crate::modbus::pdu::{Request, RequestView};
use crate::modbus::Area;
use crate::text;
use vstd::prelude::*;

verus! {

/// The time within which a probe is to be answered.
pub const SCAN_TIMEOUT_MS: u64 = 400;

/// What came of a probe that found nothing.
#[derive(Debug)]
pub enum ScanErr {
    Exception(String),
    Timeout,
    Io(String),
}

/// The request of a probe: one entry of a table.
pub fn probe_request(area: Area, addr: u16) -> (r: Request)
    ensures
        r@ == match area {
            Area::Coils => RequestView::ReadCoils(addr, 1),
            Area::DiscreteInputs => RequestView::ReadDiscreteInputs(addr, 1),
            Area::HoldingRegisters => RequestView::ReadHoldingRegisters(addr, 1),
            Area::InputRegisters => RequestView::ReadInputRegisters(addr, 1),
        },
{
    match area {
        Area::Coils => Request::ReadCoils(addr, 1),
        Area::DiscreteInputs => Request::ReadDiscreteInputs(addr, 1),
        Area::HoldingRegisters => Request::ReadHoldingRegisters(addr, 1),
        Area::InputRegisters => Request::ReadInputRegisters(addr, 1),
    }
}

/// The text of a register: hexadecimal and decimal.
pub open spec fn register_text(v: u16) -> Seq<char> {
    "0x"@ + text::hex_padded(v as nat, 4) + " ("@ + text::decimal(v as nat) + ")"@
}

/// The text of a bit.
pub open spec fn bit_text(area: Area, v: bool) -> Seq<char> {
    (if area == Area::Coils {
        "coil = "@
    } else {
        "input = "@
    }) + text::decimal(
        if v { 1 } else { 0 },
    )
}

/// Whether a probe came out as its reply says.
pub open spec fn probed(area: Area, reply: Reply, r: Result<String, ScanErr>) -> bool {
    match reply {
        Reply::Regs(v) => r is Ok && r->Ok_0@ == register_text(
            if v@.len() > 0 {
                v@[0]
            } else {
                0
            },
        ),
        Reply::Bits(v) => r is Ok && r->Ok_0@ == bit_text(area, v@.len() > 0 && v@[0]),
        Reply::Exception(e) => r matches Err(ScanErr::Exception(s)) && s@ == e.debug_text(),
        Reply::Failed(e) => r matches Err(ScanErr::Io(s)) && s@ == e@,
        Reply::Timeout => r matches Err(ScanErr::Timeout),
    }
}

/// What came of a probe.
pub fn probe(area: Area, reply: Reply) -> (r: Result<String, ScanErr>)
    ensures
        probed(area, reply, r),
{
    match reply {
        Reply::Regs(v) => {
            let value: u16 = if v.len() > 0 {
                v[0]
            } else {
                0
            };
            let mut out = "0x".to_owned();
            text::push_hex_padded(&mut out, value as u64, 4);
            out.push_str(" (");
            text::push_decimal(&mut out, value as u64);
            out.push_str(")");
            Ok(out)
        },
        Reply::Bits(v) => {
            let value: bool = v.len() > 0 && v[0];
            let mut out: String;
            if area == Area::Coils {
                out = "coil = ".to_owned();
            } else {
                out = "input = ".to_owned();
            }
            text::push_decimal(
                &mut out,
                if value {
                    1
                } else {
                    0
                },
            );
            Ok(out)
        },
        Reply::Exception(e) => Err(ScanErr::Exception(e.debug_name())),
        Reply::Failed(e) => Err(ScanErr::Io(e)),
        Reply::Timeout => Err(ScanErr::Timeout),
    }
}

/// The line of a probe.
pub open spec fn scan_line(what: Seq<char>, result: Result<String, ScanErr>, secs: nat) -> LineView {
    LineView {
        time: hms(secs),
        dir: match result {
            Ok(_) => "OK"@,
            Err(ScanErr::Timeout) => "…"@,
            Err(_) => "ERR"@,
        },
        text: what + match result {
            Ok(s) => ": "@ + s@,
            Err(ScanErr::Exception(e)) => ": exception "@ + e@,
            Err(ScanErr::Timeout) => ": no response"@,
            Err(ScanErr::Io(e)) => ": "@ + e@,
        },
    }
}

/// The line of a probe.
pub fn scan_row(what: String, result: &Result<String, ScanErr>, secs: u64) -> (r: LogLine)
    ensures
        r@ == scan_line(what@, *result, secs as nat),
{
    let ghost head = what@;
    let mut words = what;
    let dir: &str = match result {
        Ok(s) => {
            words.push_str(": ");
            words.push_str(s.as_str());
            assert(words@ =~= head + (": "@ + s@));
            "OK"
        },
        Err(ScanErr::Exception(e)) => {
            words.push_str(": exception ");
            words.push_str(e.as_str());
            assert(words@ =~= head + (": exception "@ + e@));
            "ERR"
        },
        Err(ScanErr::Timeout) => {
            words.push_str(": no response");
            "…"
        },
        Err(ScanErr::Io(e)) => {
            words.push_str(": ");
            words.push_str(e.as_str());
            assert(words@ =~= head + (": "@ + e@));
            "ERR"
        },
    };
    LogLine { time: hms_text(secs), dir: dir.to_owned(), text: words }
}

/// What is searched.
#[derive(Clone, Copy, Debug, PartialEq, Eq, Structural)]
pub enum ScanKind {
    /// Addresses of one server, from a first one on.
    Addresses { start: u16, count: u16 },
    /// Servers, in a range of numbers.
    Slaves { lo: u8, hi: u8 },
}

/// A search on its way.
#[derive(Debug)]
pub struct Scan {
    pub kind: ScanKind,
    pub area: Area,
    /// Probes made so far.
    pub done: u32,
    /// Probes that were answered.
    pub found: u32,
    pub rows: Vec<LogLine>,
}

/// A step of a search: the server is asked at an address, or a server is asked.
#[derive(Clone, Copy, Debug, PartialEq, Eq, Structural)]
pub enum ScanTarget {
    Address(u16),
    Slave(u8),
}

impl ScanKind {
    /// The probes of a search: addresses do not wrap round, and servers are asked in rising order.
    pub open spec fn probes(self) -> nat {
        match self {
            ScanKind::Addresses { start, count } => if start + count > 0x1_0000 {
                (0x1_0000 - start) as nat
            } else {
                count as nat
            },
            ScanKind::Slaves { lo, hi } => if lo <= hi {
                (hi - lo + 1) as nat
            } else {
                0
            },
        }
    }

    /// What the probe with a number asks.
    pub open spec fn target(self, i: int) -> ScanTarget {
        match self {
            ScanKind::Addresses { start, count } => ScanTarget::Address((start + i) as u16),
            ScanKind::Slaves { lo, hi } => ScanTarget::Slave((lo + i) as u8),
        }
    }

    /// How a probe is named in its line.
    pub open spec fn label(self, i: int) -> Seq<char> {
        match self.target(i) {
            ScanTarget::Address(a) => "@"@ + text::decimal(a as nat),
            ScanTarget::Slave(id) => "ID "@ + text::decimal(id as nat),
        }
    }

    /// The status after some probes.
    pub open spec fn progress(self, done: nat, found: nat) -> Seq<char> {
        match self {
            ScanKind::Addresses { start, count } => "Address scan "@ + text::decimal(done) + "/"@
                + text::decimal(count as nat) + " — "@ + text::decimal(found) + " responded"@,
            ScanKind::Slaves { lo, hi } => "Slave scan "@ + text::decimal(lo as nat) + "…"@
                + text::decimal(hi as nat) + " — "@ + text::decimal(found) + " responded"@,
        }
    }

    /// The status at the end.
    pub open spec fn conclusion(self, found: nat) -> Seq<char> {
        match self {
            ScanKind::Addresses { start, count } => "Address scan done — "@ + text::decimal(found)
                + " of "@ + text::decimal(count as nat) + " responded"@,
            ScanKind::Slaves { lo, hi } => "Slave scan done — "@ + text::decimal(found)
                + " slave(s) responded"@,
        }
    }
}

/// The range of servers between two numbers, whichever comes first.
pub fn slave_range(from_id: u8, to_id: u8) -> (r: ScanKind)
    ensures
        r == if from_id <= to_id {
            ScanKind::Slaves { lo: from_id, hi: to_id }
        } else {
            ScanKind::Slaves { lo: to_id, hi: from_id }
        },
{
    if from_id <= to_id {
        ScanKind::Slaves { lo: from_id, hi: to_id }
    } else {
        ScanKind::Slaves { lo: to_id, hi: from_id }
    }
}

/// The status while the connection for a search is made.
pub fn scan_start_status(kind: &ScanKind) -> (r: &'static str)
    ensures
        r@ == match kind {
            ScanKind::Addresses { start, count } => "Connecting for address scan …"@,
            ScanKind::Slaves { lo, hi } => "Connecting for slave scan …"@,
        },
{
    match kind {
        ScanKind::Addresses { start: _, count: _ } => "Connecting for address scan …",
        ScanKind::Slaves { lo: _, hi: _ } => "Connecting for slave scan …",
    }
}

impl Scan {
    /// The counters tell of probes that were made.
    pub open spec fn wf(&self) -> bool {
        self.found <= self.done <= self.kind.probes()
    }

    /// A search that has not begun.
    pub fn new(kind: ScanKind, area: Area) -> (r: Scan)
        ensures
            r.wf(),
            r.kind == kind,
            r.area == area,
            r.done == 0,
            r.found == 0,
            r.rows@.len() == 0,
    {
        Scan { kind, area, done: 0, found: 0, rows: Vec::new() }
    }

    /// What is to be asked next, if the search is not over.
    pub fn next(&self) -> (r: Option<ScanTarget>)
        requires
            self.wf(),
        ensures
            r == if self.done < self.kind.probes() {
                Some(self.kind.target(self.done as int))
            } else {
                None
            },
    {
        match self.kind {
            ScanKind::Addresses { start, count } => {
                let addr: u32 = start as u32 + self.done;
                if self.done >= count as u32 || addr > 0xFFFF {
                    None
                } else {
                    Some(ScanTarget::Address(addr as u16))
                }
            },
            ScanKind::Slaves { lo, hi } => {
                if lo > hi || self.done > hi as u32 - lo as u32 {
                    None
                } else {
                    Some(ScanTarget::Slave((lo as u32 + self.done) as u8))
                }
            },
        }
    }

    /// The reply to a probe came. The result is the status to show.
    pub fn answered(&mut self, reply: Reply, secs: u64) -> (r: String)
        requires
            old(self).wf(),
            old(self).done < old(self).kind.probes(),
        ensures
            final(self).wf(),
            final(self).kind == old(self).kind,
            final(self).area == old(self).area,
            final(self).done == old(self).done + 1,
            final(self).found == old(self).found + (if reply is Regs || reply is Bits {
                1int
            } else {
                0
            }),
            exists|result: Result<String, ScanErr>| #[trigger]
                probed(old(self).area, reply, result) && lines_view(final(self).rows@)
                    == lines_view(old(self).rows@).push(
                    scan_line(
                        old(self).kind.label(old(self).done as int),
                        result,
                        secs as nat,
                    ),
                ),
            r@ == old(self).kind.progress(final(self).done as nat, final(self).found as nat),
    {
        let ghost before = self.rows@;
        let result = probe(self.area, reply);
        if result.is_ok() {
            self.found = self.found + 1;
        }
        let mut what: String;
        match self.kind {
            ScanKind::Addresses { start, count: _ } => {
                what = "@".to_owned();
                text::push_decimal(&mut what, (start as u32 + self.done) as u64);
            },
            ScanKind::Slaves { lo, hi: _ } => {
                what = "ID ".to_owned();
                text::push_decimal(&mut what, (lo as u32 + self.done) as u64);
            },
        }
        let row = scan_row(what, &result, secs);
        self.rows.push(row);
        self.done = self.done + 1;
        proof {
            assert(lines_view(self.rows@) =~= lines_view(before).push(row@));
        }
        match self.kind {
            ScanKind::Addresses { start: _, count } => {
                let mut out = "Address scan ".to_owned();
                text::push_decimal(&mut out, self.done as u64);
                out.push_str("/");
                text::push_decimal(&mut out, count as u64);
                out.push_str(" — ");
                text::push_decimal(&mut out, self.found as u64);
                out.push_str(" responded");
                out
            },
            ScanKind::Slaves { lo, hi } => {
                let mut out = "Slave scan ".to_owned();
                text::push_decimal(&mut out, lo as u64);
                out.push_str("…");
                text::push_decimal(&mut out, hi as u64);
                out.push_str(" — ");
                text::push_decimal(&mut out, self.found as u64);
                out.push_str(" responded");
                out
            },
        }
    }

    /// The status at the end.
    pub fn finished(&self) -> (r: String)
        ensures
            r@ == self.kind.conclusion(self.found as nat),
    {
        match self.kind {
            ScanKind::Addresses { start: _, count } => {
                let mut out = "Address scan done — ".to_owned();
                text::push_decimal(&mut out, self.found as u64);
                out.push_str(" of ");
                text::push_decimal(&mut out, count as u64);
                out.push_str(" responded");
                out
            },
            ScanKind::Slaves { lo: _, hi: _ } => {
                let mut out = "Slave scan done — ".to_owned();
                text::push_decimal(&mut out, self.found as u64);
                out.push_str(" slave(s) responded");
                out
            },
        }
    }
}

/// No address and no server is asked twice, and addresses never wrap round.
pub proof fn law_targets_are_asked_once(kind: ScanKind, i: int, j: int)
    requires
        0 <= i < j < kind.probes(),
    ensures
        kind.target(i) != kind.target(j),
        kind matches ScanKind::Addresses { start, count } ==> kind.target(i)
            == ScanTarget::Address((start + i) as u16) && start + i <= 0xFFFF,
{
}

} // verus!
