//! What the user asks a polling window for.
use crate::ends::{hand_over, mpsc_made, mpsc_offered, open_channel};
use crate::modbus::datalog::{LogCfg, Logger};
use crate::modbus::log::{copy_lines, lines_view, push_log, LogLine, LOG_LIMIT};
use crate::modbus::master::{no_notices, worded, flatten_unit, next64, noted, notices_view, unit_fault, Counts};
use crate::modbus::master::{DerivedCh, Display, MasterNotice, MasterState, NoticeView, ReadDef};
use crate::modbus::master::{AutoWrite, Reply};
use crate::modbus::pdu::{Request, RequestView};
use crate::modbus::span::{advance_items, advanced, items_fault, read_fault, requests_view};
use crate::modbus::span::{span_fault, validate_read_definition, validate_span, write_items};
use crate::modbus::span::write_plan;
use crate::modbus::{WriteFunc, WriteItem};
use crate::text;
use tokio::sync::mpsc::{Receiver, Sender};
use vstd::prelude::*;

verus! {

// ---------------------------------------------------------------- single writes

/// What the text of a write reads as: a number spread over registers, or what the function takes.
#[derive(Debug)]
pub enum WriteValue {
    Encoded(Result<Vec<u16>, String>),
    Coil(Option<bool>),
    Register(Option<u16>),
    Coils(Option<Vec<bool>>),
    Registers(Option<Vec<u16>>),
}

/// A write that the user asks for.
#[derive(Debug)]
pub struct WriteReq {
    pub address: u16,
    pub text: String,
    pub value: WriteValue,
}

/// The request of a write and the line that tells of it, or why it is not sent.
pub open spec fn planned_write(req: WriteReq) -> Result<(RequestView, Seq<char>), Seq<char>> {
    let a = req.address;
    let at = text::decimal(a as nat);
    match req.value {
        WriteValue::Encoded(Err(e)) => Err(e@),
        WriteValue::Encoded(Ok(words)) => match span_fault(
            a,
            words@.len() as int,
            123,
            "FC16 write"@,
        ) {
            Some(e) => Err(e),
            None => Ok(
                (
                    RequestView::WriteMultipleRegisters(a, words@),
                    "Write "@ + text::decimal(words@.len()) + " regs @"@ + at + " = "@ + text::trim(
                        req.text@,
                    ),
                ),
            ),
        },
        WriteValue::Coil(None) => Err("invalid coil value (use 0/1/on/off)"@),
        WriteValue::Coil(Some(v)) => Ok(
            (
                RequestView::WriteSingleCoil(a, v),
                "Write Single Coil @"@ + at + " = "@ + text::decimal(
                    if v { 1 } else { 0 },
                ),
            ),
        ),
        WriteValue::Register(None) => Err("invalid register value"@),
        WriteValue::Register(Some(v)) => Ok(
            (
                RequestView::WriteSingleRegister(a, v),
                "Write Single Register @"@ + at + " = "@ + text::decimal(v as nat),
            ),
        ),
        WriteValue::Coils(None) => Err("invalid coil list (e.g. 1,0,1)"@),
        WriteValue::Coils(Some(v)) => match span_fault(a, v@.len() as int, 1968, "FC15 write"@) {
            Some(e) => Err(e),
            None => Ok(
                (
                    RequestView::WriteMultipleCoils(a, v@),
                    "Write "@ + text::decimal(v@.len()) + " Coils @"@ + at,
                ),
            ),
        },
        WriteValue::Registers(None) => Err("invalid register list (e.g. 10,20,30)"@),
        WriteValue::Registers(Some(v)) => match span_fault(a, v@.len() as int, 123, "FC16 write"@) {
            Some(e) => Err(e),
            None => Ok(
                (
                    RequestView::WriteMultipleRegisters(a, v@),
                    "Write "@ + text::decimal(v@.len()) + " Registers @"@ + at,
                ),
            ),
        },
    }
}

fn valued(head: &str, a: u16, v: u64) -> (r: String)
    ensures
        r@ == head@ + text::decimal(a as nat) + " = "@ + text::decimal(v as nat),
{
    let mut out = head.to_owned();
    text::push_decimal(&mut out, a as u64);
    out.push_str(" = ");
    text::push_decimal(&mut out, v);
    out
}

fn counted_at(n: usize, middle: &str, a: u16) -> (r: String)
    ensures
        r@ == "Write "@ + text::decimal(n as nat) + middle@ + text::decimal(a as nat),
{
    let mut out = "Write ".to_owned();
    text::push_decimal(&mut out, n as u64);
    out.push_str(middle);
    text::push_decimal(&mut out, a as u64);
    out
}

/// The request of a write and the line that tells of it, or why it is not sent.
pub fn plan_write(req: WriteReq) -> (r: Result<(Request, String), String>)
    ensures
        match r {
            Ok((request, line)) => planned_write(req) == Ok::<(RequestView, Seq<char>), Seq<char>>(
                (request@, line@),
            ),
            Err(e) => planned_write(req) == Err::<(RequestView, Seq<char>), Seq<char>>(e@),
        },
{
    let a: u16 = req.address;
    match req.value {
        WriteValue::Encoded(Err(e)) => Err(e),
        WriteValue::Encoded(Ok(words)) => match validate_span(a, words.len(), 123, "FC16 write") {
            Err(e) => Err(e),
            Ok(()) => {
                let mut line = counted_at(words.len(), " regs @", a);
                line.push_str(" = ");
                let trimmed = text::trimmed(req.text.as_str());
                line.push_str(trimmed.as_str());
                Ok((Request::WriteMultipleRegisters(a, words), line))
            },
        },
        WriteValue::Coil(None) => Err("invalid coil value (use 0/1/on/off)".to_owned()),
        WriteValue::Coil(Some(v)) => Ok(
            (
                Request::WriteSingleCoil(a, v),
                valued(
                    "Write Single Coil @",
                    a,
                    if v {
                        1
                    } else {
                        0
                    },
                ),
            ),
        ),
        WriteValue::Register(None) => Err("invalid register value".to_owned()),
        WriteValue::Register(Some(v)) => Ok(
            (
                Request::WriteSingleRegister(a, v),
                valued("Write Single Register @", a, v as u64),
            ),
        ),
        WriteValue::Coils(None) => Err("invalid coil list (e.g. 1,0,1)".to_owned()),
        WriteValue::Coils(Some(v)) => match validate_span(a, v.len(), 1968, "FC15 write") {
            Err(e) => Err(e),
            Ok(()) => {
                let line = counted_at(v.len(), " Coils @", a);
                Ok((Request::WriteMultipleCoils(a, v), line))
            },
        },
        WriteValue::Registers(None) => Err("invalid register list (e.g. 10,20,30)".to_owned()),
        WriteValue::Registers(Some(v)) => match validate_span(a, v.len(), 123, "FC16 write") {
            Err(e) => Err(e),
            Ok(()) => {
                let line = counted_at(v.len(), " Registers @", a);
                Ok((Request::WriteMultipleRegisters(a, v), line))
            },
        },
    }
}

// ---------------------------------------------------------------- replies to writes

/// What was sent, as far as the reply is told by it.
#[derive(Debug)]
pub enum Sent {
    /// A single write, with the line that tells of it.
    Write(String),
    /// A list of that many registers.
    List(usize),
    /// The list that is written again and again.
    Auto(usize),
    Mask { address: u16, and_mask: u16, or_mask: u16 },
    Exchange { read_addr: u16, read_qty: u16, write_addr: u16, written: usize },
}

/// Whether a request did its work, and the line that tells of it.
pub open spec fn report(sent: Sent, reply: Reply) -> (bool, Seq<char>, Seq<char>) {
    let fault = unit_fault(reply);
    match sent {
        Sent::Write(line) => match fault {
            None => (true, "TX"@, line@),
            Some(e) => (false, "ERR"@, "Write failed: "@ + e),
        },
        Sent::List(n) => match fault {
            None => (true, "TX"@, "Wrote "@ + text::decimal(n as nat) + " registers"@),
            Some(e) => (false, "ERR"@, "Write list failed: "@ + e),
        },
        Sent::Auto(n) => match fault {
            None => (true, "TX"@, "Auto-write "@ + text::decimal(n as nat) + " registers"@),
            Some(e) => (false, "ERR"@, "Auto-write failed: "@ + e),
        },
        Sent::Mask { address, and_mask, or_mask } => match fault {
            None => (
                true,
                "TX"@,
                "FC22 Mask write @"@ + text::decimal(address as nat) + ": AND=0x"@
                    + text::hex_padded(and_mask as nat, 4) + " OR=0x"@ + text::hex_padded(
                    or_mask as nat,
                    4,
                ),
            ),
            Some(e) => (false, "ERR"@, "FC22 Mask write failed: "@ + e),
        },
        Sent::Exchange { read_addr, read_qty, write_addr, written } => match reply {
            Reply::Regs(regs) => (
                true,
                "RX"@,
                "FC23 wrote "@ + text::decimal(written as nat) + " @"@ + text::decimal(
                    write_addr as nat,
                ) + ", read "@ + text::decimal(read_qty as nat) + "@"@ + text::decimal(
                    read_addr as nat,
                ) + ": "@ + text::joined(
                    regs@.map_values(|r: u16| "0x"@ + text::hex_padded(r as nat, 4)),
                    " "@,
                ),
            ),
            Reply::Bits(_) => (false, "ERR"@, "FC23 failed: "@ + "unexpected reply"@),
            Reply::Exception(e) => (false, "ERR"@, "FC23 exception: "@ + e.debug_text()),
            Reply::Failed(e) => (false, "ERR"@, "FC23 failed: "@ + e@),
            Reply::Timeout => (false, "ERR"@, "FC23 timeout"@),
        },
    }
}

fn hex_words(regs: &[u16]) -> (r: Vec<String>)
    ensures
        text::texts(r@) == regs@.map_values(|r: u16| "0x"@ + text::hex_padded(r as nat, 4)),
{
    let ghost f = |r: u16| "0x"@ + text::hex_padded(r as nat, 4);
    let mut out: Vec<String> = Vec::new();
    let mut i: usize = 0;
    while i < regs.len()
        invariant
            i <= regs@.len(),
            f == (|r: u16| "0x"@ + text::hex_padded(r as nat, 4)),
            text::texts(out@) =~= regs@.take(i as int).map_values(f),
        decreases regs@.len() - i,
    {
        let ghost before = out@;
        let mut one = "0x".to_owned();
        text::push_hex_padded(&mut one, regs[i] as u64, 4);
        out.push(one);
        proof {
            assert(text::texts(out@) =~= text::texts(before).push(f(regs@[i as int])));
            assert(regs@.take(i + 1).map_values(f) =~= regs@.take(i as int).map_values(f).push(
                f(regs@[i as int]),
            ));
        }
        i += 1;
    }
    assert(regs@.take(i as int) =~= regs@);
    out
}

fn counted(head: &str, n: usize, tail: &str) -> (r: String)
    ensures
        r@ == head@ + text::decimal(n as nat) + tail@,
{
    let mut out = head.to_owned();
    text::push_decimal(&mut out, n as u64);
    out.push_str(tail);
    out
}

/// Whether a request did its work, and the line that tells of it.
pub fn report_line(sent: Sent, reply: &Reply) -> (r: (bool, &'static str, String))
    ensures
        (r.0, r.1@, r.2@) == report(sent, *reply),
{
    match sent {
        Sent::Write(line) => match flatten_unit(reply) {
            Ok(()) => (true, "TX", line),
            Err(e) => (false, "ERR", worded("Write failed: ", e.as_str())),
        },
        Sent::List(n) => match flatten_unit(reply) {
            Ok(()) => (true, "TX", counted("Wrote ", n, " registers")),
            Err(e) => (false, "ERR", worded("Write list failed: ", e.as_str())),
        },
        Sent::Auto(n) => match flatten_unit(reply) {
            Ok(()) => (true, "TX", counted("Auto-write ", n, " registers")),
            Err(e) => (false, "ERR", worded("Auto-write failed: ", e.as_str())),
        },
        Sent::Mask { address, and_mask, or_mask } => match flatten_unit(reply) {
            Ok(()) => {
                let mut out = "FC22 Mask write @".to_owned();
                text::push_decimal(&mut out, address as u64);
                out.push_str(": AND=0x");
                text::push_hex_padded(&mut out, and_mask as u64, 4);
                out.push_str(" OR=0x");
                text::push_hex_padded(&mut out, or_mask as u64, 4);
                (true, "TX", out)
            },
            Err(e) => (false, "ERR", worded("FC22 Mask write failed: ", e.as_str())),
        },
        Sent::Exchange { read_addr, read_qty, write_addr, written } => match reply {
            Reply::Regs(regs) => {
                let mut out = counted("FC23 wrote ", written, " @");
                text::push_decimal(&mut out, write_addr as u64);
                out.push_str(", read ");
                text::push_decimal(&mut out, read_qty as u64);
                out.push_str("@");
                text::push_decimal(&mut out, read_addr as u64);
                out.push_str(": ");
                let words = hex_words(regs.as_slice());
                let shown = text::join(words.as_slice(), " ");
                out.push_str(shown.as_str());
                (true, "RX", out)
            },
            Reply::Bits(_) => (false, "ERR", worded("FC23 failed: ", "unexpected reply")),
            Reply::Exception(e) => {
                let name = (*e).debug_name();
                (false, "ERR", worded("FC23 exception: ", name.as_str()))
            },
            Reply::Failed(e) => (false, "ERR", worded("FC23 failed: ", e.as_str())),
            Reply::Timeout => (false, "ERR", "FC23 timeout".to_owned()),
        },
    }
}

// ---------------------------------------------------------------- messages

/// Something that the user asks a window for. The settings of the display that are no concern of
/// the engine are kept by the display itself.
#[derive(Debug)]
pub enum MasterMsg {
    Write(WriteReq),
    WriteOnce { func: WriteFunc, items: Vec<WriteItem> },
    AutoWrite { func: WriteFunc, items: Vec<WriteItem>, interval_ms: u64 },
    AutoWriteStop,
    MaskWrite { address: u16, and_mask: u16, or_mask: u16 },
    ReadWrite { read_addr: u16, read_qty: u16, write_addr: u16, write_values: Vec<u16> },
    SetFormat(u32),
    SetName { address: u16, name: String },
    SetScaling,
    SetColors,
    SetValueNames,
    SetCellFormat { address: u16, format: Option<u32> },
    SetDerived(Vec<DerivedCh>),
    ExportChart(String),
    SetChartAxis { addr: u16, right: bool },
    SetChartPage(i32),
    FocusChartAddress(u16),
    SetReadDef(ReadDef),
    StartLog(LogCfg),
    StopLog,
    Stop,
}

/// Messages to an engine that may wait.
pub const ENGINE_CONTROL_QUEUE_CAPACITY: usize = 256;

/// The way messages reach the engine of a window.
#[derive(Debug)]
pub struct MasterHandle {
    pub ctrl: Sender<MasterMsg>,
}

impl MasterHandle {
    /// A way for messages and its other end.
    pub fn new() -> (r: (MasterHandle, Receiver<MasterMsg>))
        ensures
            mpsc_made(ENGINE_CONTROL_QUEUE_CAPACITY, r.0.ctrl, r.1),
    {
        let ends = open_channel::<MasterMsg>(ENGINE_CONTROL_QUEUE_CAPACITY);
        (MasterHandle { ctrl: ends.0 }, ends.1)
    }

    /// Hands a message over without waiting. Where it finds no room the user is told so.
    pub fn send(&self, m: MasterMsg) -> (r: Option<String>)
        ensures
            mpsc_offered(self.ctrl, m, r is None),
            r matches Some(told) ==> told@ == "Master control queue full: command rejected"@,
    {
        rejection(hand_over(&self.ctrl, m), "Master control queue full: command rejected")
    }
}

/// What the user is told of a message, given whether it was accepted.
pub fn rejection(accepted: bool, words: &str) -> (r: Option<String>)
    ensures
        r is None <==> accepted,
        r matches Some(told) ==> told@ == words@,
{
    if accepted {
        None
    } else {
        Some(words.to_owned())
    }
}

/// What is to be done for the user.
#[derive(Debug)]
pub enum MasterAction {
    Nothing,
    /// The grid is to be drawn anew, with a further point of the curves or without.
    Redraw { curves: bool },
    /// The curves are to be drawn anew.
    DrawChart,
    /// The curves show another page: they start with the values at hand, if there are any.
    TurnPage,
    /// The page with an address is to be found among the values at hand.
    Focus(u16),
    /// The curves are to be written to a file.
    ExportChart(String),
    /// The server is to be polled at this interval from now on.
    PollEvery(u64),
    /// The list is to be written at this interval from now on.
    WriteEvery(u64),
    /// A log file is to be opened.
    OpenLog(LogCfg),
    /// Requests are to be sent one after the other, until one fails.
    Send { requests: Vec<Request>, sent: Sent },
    Stop,
}

/// The greater of two intervals.
pub open spec fn at_least(ms: u64, least: u64) -> u64 {
    if ms < least {
        least
    } else {
        ms
    }
}

fn no_less(ms: u64, least: u64) -> (r: u64)
    ensures
        r == at_least(ms, least),
{
    if ms < least {
        least
    } else {
        ms
    }
}

fn shown_log(log: &mut Vec<LogLine>, secs: u64, dir: &str, words: String) -> (r: MasterNotice)
    ensures
        lines_view(final(log)@) == noted(lines_view(old(log)@), secs as nat, dir@, words@),
        r@ == NoticeView::Log(lines_view(final(log)@)),
{
    push_log(log, secs, dir, words, LOG_LIMIT);
    MasterNotice::Log(copy_lines(log.as_slice()))
}

fn listed(a: MasterNotice) -> (r: Vec<MasterNotice>)
    ensures
        notices_view(r@) == seq![a@],
{
    let mut out: Vec<MasterNotice> = Vec::new();
    out.push(a);
    assert(notices_view(out@) =~= seq![a@]);
    out
}

fn listed_two(a: MasterNotice, b: MasterNotice) -> (r: Vec<MasterNotice>)
    ensures
        notices_view(r@) == seq![a@, b@],
{
    let mut out: Vec<MasterNotice> = Vec::new();
    out.push(a);
    out.push(b);
    assert(notices_view(out@) =~= seq![a@, b@]);
    out
}

fn listed_three(a: MasterNotice, b: MasterNotice, c: MasterNotice) -> (r: Vec<MasterNotice>)
    ensures
        notices_view(r@) == seq![a@, b@, c@],
{
    let mut out: Vec<MasterNotice> = Vec::new();
    out.push(a);
    out.push(b);
    out.push(c);
    assert(notices_view(out@) =~= seq![a@, b@, c@]);
    out
}

impl MasterState {
    /// The state and what is shown are as after a line was added to the log.
    pub open spec fn told(
        &self,
        before: &MasterState,
        shown: Seq<NoticeView>,
        secs: nat,
        dir: Seq<char>,
        words: Seq<char>,
    ) -> bool {
        &&& lines_view(self.log@) == noted(lines_view(before.log@), secs, dir, words)
        &&& shown == seq![NoticeView::Log(lines_view(self.log@))]
    }

    /// As `told`, with the counters after it.
    pub open spec fn told_counts(
        &self,
        before: &MasterState,
        shown: Seq<NoticeView>,
        secs: nat,
        dir: Seq<char>,
        words: Seq<char>,
    ) -> bool {
        &&& lines_view(self.log@) == noted(lines_view(before.log@), secs, dir, words)
        &&& shown == seq![
            NoticeView::Log(lines_view(self.log@)),
            NoticeView::Counts(self.counts),
        ]
    }

    /// Nothing is shown and the log is as it was.
    pub open spec fn silent(&self, before: &MasterState, shown: Seq<NoticeView>) -> bool {
        shown == Seq::<NoticeView>::empty() && self.log == before.log
    }

    /// All parts but those named are as they were.
    pub open spec fn others_kept(
        &self,
        before: &MasterState,
        counts: bool,
        def: bool,
        display: bool,
        auto: bool,
        logger: bool,
    ) -> bool {
        &&& counts ==> self.counts == before.counts
        &&& def ==> self.def == before.def
        &&& display ==> self.display == before.display
        &&& auto ==> self.auto == before.auto
        &&& logger ==> self.logger == before.logger
        &&& self.link == before.link
    }

    /// The display has these settings, and curves that start anew where `restart` says so.
    pub open spec fn shows(&self, before: &MasterState, restart: bool) -> bool {
        if restart {
            &&& self.display.chart.addrs@.len() == 0
            &&& self.display.chart.page_start == 0
            &&& self.display.chart.total == 0
            &&& self.display.chart.right == before.display.chart.right
        } else {
            self.display.chart == before.display.chart
        }
    }

    /// Whether the grid is drawn anew: where there are values.
    pub open spec fn redrawn(&self, action: MasterAction, curves: bool) -> bool {
        if self.display.last is Some {
            action == (MasterAction::Redraw { curves })
        } else {
            action is Nothing
        }
    }

    /// The counters after a request was sent, or after one that could not be.
    pub open spec fn sent_count(c: Counts, fault: bool) -> Counts {
        Counts {
            tx: next64(c.tx),
            rx: c.rx,
            err: if fault {
                next64(c.err)
            } else {
                c.err
            },
            consec_fail: c.consec_fail,
        }
    }

    /// What a list of registers is answered.
    pub open spec fn list_obeyed(
        &self,
        before: &MasterState,
        func: WriteFunc,
        items: Seq<WriteItem>,
        action: MasterAction,
        shown: Seq<NoticeView>,
        secs: nat,
        auto: bool,
    ) -> bool {
        let fault = items_fault(func, items);
        &&& self.counts == Self::sent_count(before.counts, fault is Some)
        &&& match fault {
            None => {
                &&& self.silent(before, shown)
                &&& action matches MasterAction::Send { requests, sent } && requests_view(requests@)
                    == write_plan(func, items) && sent == (if auto {
                    Sent::Auto(items.len() as usize)
                } else {
                    Sent::List(items.len() as usize)
                })
            },
            Some(e) => {
                &&& action is Nothing
                &&& self.told_counts(
                    before,
                    shown,
                    secs,
                    "ERR"@,
                    (if auto {
                        "Auto-write failed: "@
                    } else {
                        "Write list failed: "@
                    }) + e,
                )
            },
        }
    }

    /// What a message does.
    pub open spec fn obeys(
        &self,
        before: &MasterState,
        msg: MasterMsg,
        action: MasterAction,
        shown: Seq<NoticeView>,
        secs: nat,
    ) -> bool {
        let d = self.display;
        let d0 = before.display;
        match msg {
            MasterMsg::Write(req) => {
                &&& self.others_kept(before, false, true, true, true, true)
                &&& self.counts == Self::sent_count(before.counts, planned_write(req) is Err)
                &&& match planned_write(req) {
                    Ok((request, line)) => {
                        &&& self.silent(before, shown)
                        &&& action matches MasterAction::Send { requests, sent } && requests_view(
                            requests@,
                        ) == seq![request] && (sent matches Sent::Write(l) && l@ == line)
                    },
                    Err(e) => {
                        &&& action is Nothing
                        &&& self.told_counts(before, shown, secs, "ERR"@, "Write failed: "@ + e)
                    },
                }
            },
            MasterMsg::WriteOnce { func, items } => {
                &&& self.others_kept(before, false, true, true, true, true)
                &&& self.list_obeyed(before, func, items@, action, shown, secs, false)
            },
            MasterMsg::AutoWrite { func, items, interval_ms } => {
                &&& self.others_kept(before, true, true, true, false, true)
                &&& self.auto == (AutoWrite { items, func, on: true })
                &&& action == MasterAction::WriteEvery(at_least(interval_ms, 50))
                &&& self.told(
                    before,
                    shown,
                    secs,
                    "TX"@,
                    "Auto-write started ("@ + text::decimal(items@.len()) + " items, "@
                        + text::decimal(interval_ms as nat) + " ms)"@,
                )
            },
            MasterMsg::AutoWriteStop => {
                &&& self.others_kept(before, true, true, true, false, true)
                &&& self.auto == (AutoWrite { on: false, ..before.auto })
                &&& action is Nothing
                &&& self.told(before, shown, secs, "TX"@, "Auto-write stopped"@)
            },
            MasterMsg::MaskWrite { address, and_mask, or_mask } => {
                &&& self.others_kept(before, false, true, true, true, true)
                &&& self.counts == Self::sent_count(before.counts, false)
                &&& self.silent(before, shown)
                &&& action matches MasterAction::Send { requests, sent } && requests_view(requests@)
                    == seq![RequestView::MaskWriteRegister(address, and_mask, or_mask)] && sent == (
                Sent::Mask { address, and_mask, or_mask })
            },
            MasterMsg::ReadWrite { read_addr, read_qty, write_addr, write_values } => {
                let read = span_fault(read_addr, read_qty as int, 125, "FC23 read"@);
                let fault = if read is Some {
                    read
                } else {
                    span_fault(write_addr, write_values@.len() as int, 121, "FC23 write"@)
                };
                &&& self.others_kept(before, false, true, true, true, true)
                &&& match fault {
                    None => {
                        &&& self.counts == Self::sent_count(before.counts, false)
                        &&& self.silent(before, shown)
                        &&& action matches MasterAction::Send { requests, sent } && requests_view(
                            requests@,
                        ) == seq![
                            RequestView::ReadWriteMultipleRegisters(
                                read_addr,
                                read_qty,
                                write_addr,
                                write_values@,
                            ),
                        ] && sent == (Sent::Exchange {
                            read_addr,
                            read_qty,
                            write_addr,
                            written: write_values@.len() as usize,
                        })
                    },
                    Some(e) => {
                        let words = "FC23 validation failed: "@ + e;
                        &&& self.counts == (Counts {
                            err: next64(before.counts.err),
                            ..before.counts
                        })
                        &&& lines_view(self.log@) == noted(
                            lines_view(before.log@),
                            secs,
                            "ERR"@,
                            words,
                        )
                        &&& shown == seq![
                            NoticeView::Log(lines_view(self.log@)),
                            NoticeView::Status { text: words, connected: true },
                            NoticeView::Counts(self.counts),
                        ]
                        &&& action is Nothing
                    },
                }
            },
            MasterMsg::SetFormat(f) => {
                &&& self.others_kept(before, true, true, false, true, true)
                &&& d == (Display { format: f, chart: d.chart, ..d0 })
                &&& self.shows(before, true)
                &&& self.silent(before, shown)
                &&& before.redrawn(action, true)
            },
            MasterMsg::SetScaling => {
                &&& self.others_kept(before, true, true, false, true, true)
                &&& d == (Display { chart: d.chart, ..d0 })
                &&& self.shows(before, true)
                &&& self.silent(before, shown)
                &&& before.redrawn(action, true)
            },
            MasterMsg::SetColors => {
                &&& self.others_kept(before, true, true, true, true, true)
                &&& self.silent(before, shown)
                &&& before.redrawn(action, false)
            },
            MasterMsg::SetValueNames => {
                &&& self.others_kept(before, true, true, true, true, true)
                &&& self.silent(before, shown)
                &&& before.redrawn(action, false)
            },
            MasterMsg::SetDerived(list) => {
                &&& self.others_kept(before, true, true, false, true, true)
                &&& d == (Display { derived: list, ..d0 })
                &&& self.silent(before, shown)
                &&& before.redrawn(action, false)
            },
            MasterMsg::SetName { address, name } => {
                &&& self.others_kept(before, true, true, false, true, true)
                &&& d == (Display { names: d.names, ..d0 })
                &&& d.names.map() == if text::trim(name@).len() == 0 {
                    d0.names.map().remove(address as u64)
                } else {
                    d0.names.map().insert(address as u64, name)
                }
                &&& self.silent(before, shown)
                &&& before.redrawn(action, false)
            },
            MasterMsg::SetCellFormat { address, format } => {
                &&& self.others_kept(before, true, true, false, true, true)
                &&& d == (Display { cell_formats: d.cell_formats, chart: d.chart, ..d0 })
                &&& d.cell_formats.map() == match format {
                    Some(f) => d0.cell_formats.map().insert(address as u64, f),
                    None => d0.cell_formats.map().remove(address as u64),
                }
                &&& self.shows(before, true)
                &&& self.silent(before, shown)
                &&& before.redrawn(action, true)
            },
            MasterMsg::ExportChart(path) => {
                &&& self.others_kept(before, true, true, true, true, true)
                &&& self.silent(before, shown)
                &&& action == MasterAction::ExportChart(path)
            },
            MasterMsg::SetChartAxis { addr, right } => {
                &&& self.others_kept(before, true, true, false, true, true)
                &&& d == (Display { chart: d.chart, ..d0 })
                &&& d.chart.addrs == d0.chart.addrs
                &&& d.chart.data == d0.chart.data
                &&& d.chart.page_start == d0.chart.page_start
                &&& d.chart.total == d0.chart.total
                &&& forall|a: u16| #[trigger]
                    d.chart.right@.contains(a) <==> if a == addr {
                        right
                    } else {
                        d0.chart.right@.contains(a)
                    }
                &&& self.silent(before, shown)
                &&& action is DrawChart
            },
            MasterMsg::SetChartPage(direction) => {
                &&& self.others_kept(before, true, true, false, true, true)
                &&& d == (Display { chart: d.chart, ..d0 })
                &&& d.chart == (crate::modbus::chart::ChartState {
                    page_start: d0.chart.page_after(direction) as usize,
                    ..d0.chart
                })
                &&& self.silent(before, shown)
                &&& if d0.chart.page_after(direction) != d0.chart.page_start {
                    action is TurnPage
                } else {
                    action is Nothing
                }
            },
            MasterMsg::FocusChartAddress(addr) => {
                &&& self.others_kept(before, true, true, true, true, true)
                &&& self.silent(before, shown)
                &&& if d0.last is Some {
                    action == MasterAction::Focus(addr)
                } else {
                    action is Nothing
                }
            },
            MasterMsg::SetReadDef(def) => match read_fault(def.area, def.address, def.quantity) {
                None => {
                    &&& self.others_kept(before, true, false, false, true, true)
                    &&& self.def == def
                    &&& d == (Display { last: None, chart: d.chart, ..d0 })
                    &&& self.shows(before, true)
                    &&& self.silent(before, shown)
                    &&& if def.scan_ms != before.def.scan_ms {
                        action == MasterAction::PollEvery(at_least(def.scan_ms, 20))
                    } else {
                        action is Nothing
                    }
                },
                Some(e) => {
                    let words = "Invalid read definition: "@ + e;
                    &&& self.others_kept(before, true, true, true, true, true)
                    &&& lines_view(self.log@) == noted(lines_view(before.log@), secs, "ERR"@, words)
                    &&& shown == seq![
                        NoticeView::Log(lines_view(self.log@)),
                        NoticeView::Status { text: words, connected: true },
                    ]
                    &&& action is Nothing
                },
            },
            MasterMsg::StartLog(cfg) => {
                &&& self.others_kept(before, true, true, true, true, true)
                &&& self.silent(before, shown)
                &&& action == MasterAction::OpenLog(cfg)
            },
            MasterMsg::StopLog => {
                &&& self.others_kept(before, true, true, true, true, false)
                &&& self.logger is None
                &&& action is Nothing
                &&& if before.logger is Some {
                    self.told(before, shown, secs, "TX"@, "Logging stopped"@)
                } else {
                    self.silent(before, shown)
                }
            },
            MasterMsg::Stop => {
                &&& *self == *before
                &&& shown == seq![
                    NoticeView::Status {
                        text: "Disconnected — "@ + before.link.desc@,
                        connected: false,
                    },
                ]
                &&& action is Stop
            },
        }
    }

    fn redraw(&self, curves: bool) -> (r: MasterAction)
        ensures
            self.redrawn(r, curves),
    {
        if self.display.last.is_some() {
            MasterAction::Redraw { curves }
        } else {
            MasterAction::Nothing
        }
    }

    fn send_list(
        &mut self,
        func: WriteFunc,
        items: &[WriteItem],
        secs: u64,
        auto: bool,
    ) -> (r: (MasterAction, Vec<MasterNotice>))
        ensures
            final(self).others_kept(old(self), false, true, true, true, true),
            final(self).list_obeyed(
                old(self),
                func,
                items@,
                r.0,
                notices_view(r.1@),
                secs as nat,
                auto,
            ),
    {
        let n: usize = items.len();
        self.counts.tx = self.counts.tx.wrapping_add(1);
        match write_items(func, items) {
            Ok(requests) => {
                let sent = if auto {
                    Sent::Auto(n)
                } else {
                    Sent::List(n)
                };
                (MasterAction::Send { requests, sent }, no_notices())
            },
            Err(e) => {
                self.counts.err = self.counts.err.wrapping_add(1);
                let head: &str = if auto {
                    "Auto-write failed: "
                } else {
                    "Write list failed: "
                };
                let shown = shown_log(&mut self.log, secs, "ERR", worded(head, e.as_str()));
                (MasterAction::Nothing, listed_two(shown, MasterNotice::Counts(self.counts)))
            },
        }
    }

    /// The time to write the list again has come.
    pub fn auto_write_due(&mut self, secs: u64) -> (r: (MasterAction, Vec<MasterNotice>))
        requires
            old(self).wf(),
        ensures
            final(self).wf(),
            if old(self).auto.on && old(self).auto.items@.len() > 0 {
                &&& final(self).others_kept(old(self), false, true, true, true, true)
                &&& final(self).list_obeyed(
                    old(self),
                    old(self).auto.func,
                    old(self).auto.items@,
                    r.0,
                    notices_view(r.1@),
                    secs as nat,
                    true,
                )
            } else {
                &&& *final(self) == *old(self)
                &&& r.0 is Nothing
                &&& notices_view(r.1@) == Seq::<NoticeView>::empty()
            },
    {
        if !self.auto.on || self.auto.items.len() == 0 {
            return (MasterAction::Nothing, no_notices());
        }
        let func: WriteFunc = self.auto.func;
        let items = self.auto.items.clone();
        assert(items@ =~= self.auto.items@);
        self.send_list(func, items.as_slice(), secs, true)
    }

    /// The reply to what was sent came. A list that is written again and again moves on.
    pub fn answered(&mut self, sent: Sent, reply: &Reply, secs: u64) -> (r: Vec<MasterNotice>)
        requires
            old(self).wf(),
        ensures
            final(self).wf(),
            final(self).others_kept(old(self), false, true, true, false, true),
            ({
                let told = report(sent, *reply);
                &&& final(self).counts == if told.0 {
                    Counts { rx: next64(old(self).counts.rx), ..old(self).counts }
                } else {
                    Counts { err: next64(old(self).counts.err), ..old(self).counts }
                }
                &&& final(self).auto.func == old(self).auto.func
                &&& final(self).auto.on == old(self).auto.on
                &&& final(self).auto.items@ == if told.0 && sent is Auto {
                    advanced(old(self).auto.items@)
                } else {
                    old(self).auto.items@
                }
                &&& final(self).told_counts(
                    old(self),
                    notices_view(r@),
                    secs as nat,
                    told.1,
                    told.2,
                )
            }),
    {
        let auto: bool = matches!(sent, Sent::Auto(_));
        let told = report_line(sent, reply);
        if told.0 {
            self.counts.rx = self.counts.rx.wrapping_add(1);
            if auto {
                advance_items(&mut self.auto.items);
            }
        } else {
            self.counts.err = self.counts.err.wrapping_add(1);
        }
        let shown = shown_log(&mut self.log, secs, told.1, told.2);
        listed_two(shown, MasterNotice::Counts(self.counts))
    }

    /// A log file was opened, or could not be.
    pub fn log_opened(&mut self, cfg: LogCfg, result: Result<(), String>, secs: u64) -> (r: Vec<
        MasterNotice,
    >)
        requires
            old(self).wf(),
        ensures
            final(self).wf(),
            final(self).others_kept(old(self), true, true, true, true, false),
            match result {
                Ok(()) => {
                    &&& final(self).logger is Some
                    &&& final(self).logger->0.cfg == cfg
                    &&& !final(self).logger->0.header_written
                    &&& final(self).logger->0.last_write is None
                    &&& final(self).logger->0.last_flush is None
                    &&& final(self).logger->0.last_vals is None
                    &&& final(self).told(
                        old(self),
                        notices_view(r@),
                        secs as nat,
                        "TX"@,
                        "Logging → "@ + cfg.path@,
                    )
                },
                Err(e) => {
                    &&& final(self).logger == old(self).logger
                    &&& final(self).told(
                        old(self),
                        notices_view(r@),
                        secs as nat,
                        "ERR"@,
                        "Log open failed: "@ + e@,
                    )
                },
            },
    {
        match result {
            Ok(()) => {
                let words = worded("Logging → ", cfg.path.as_str());
                let shown = shown_log(&mut self.log, secs, "TX", words);
                self.logger = Some(Logger::new(cfg));
                listed(shown)
            },
            Err(e) => {
                let words = worded("Log open failed: ", e.as_str());
                listed(shown_log(&mut self.log, secs, "ERR", words))
            },
        }
    }

    /// Does what the user asks for, as far as it needs no answer of the server.
    pub fn message(&mut self, msg: MasterMsg, secs: u64) -> (r: (MasterAction, Vec<MasterNotice>))
        requires
            old(self).wf(),
        ensures
            final(self).wf(),
            final(self).obeys(old(self), msg, r.0, notices_view(r.1@), secs as nat),
    {
        match msg {
            MasterMsg::Write(req) => {
                self.counts.tx = self.counts.tx.wrapping_add(1);
                match plan_write(req) {
                    Ok((request, line)) => {
                        let mut requests: Vec<Request> = Vec::new();
                        requests.push(request);
                        assert(requests_view(requests@) =~= seq![request@]);
                        (
                            MasterAction::Send { requests, sent: Sent::Write(line) },
                            no_notices(),
                        )
                    },
                    Err(e) => {
                        self.counts.err = self.counts.err.wrapping_add(1);
                        let words = worded("Write failed: ", e.as_str());
                        let shown = shown_log(&mut self.log, secs, "ERR", words);
                        (
                            MasterAction::Nothing,
                            listed_two(shown, MasterNotice::Counts(self.counts)),
                        )
                    },
                }
            },
            MasterMsg::WriteOnce { func, items } => self.send_list(
                func,
                items.as_slice(),
                secs,
                false,
            ),
            MasterMsg::AutoWrite { func, items, interval_ms } => {
                let mut words = counted("Auto-write started (", items.len(), " items, ");
                text::push_decimal(&mut words, interval_ms);
                words.push_str(" ms)");
                self.auto = AutoWrite { items, func, on: true };
                let shown = shown_log(&mut self.log, secs, "TX", words);
                (MasterAction::WriteEvery(no_less(interval_ms, 50)), listed(shown))
            },
            MasterMsg::AutoWriteStop => {
                self.auto.on = false;
                let shown = shown_log(&mut self.log, secs, "TX", "Auto-write stopped".to_owned());
                (MasterAction::Nothing, listed(shown))
            },
            MasterMsg::MaskWrite { address, and_mask, or_mask } => {
                self.counts.tx = self.counts.tx.wrapping_add(1);
                let mut requests: Vec<Request> = Vec::new();
                requests.push(Request::MaskWriteRegister(address, and_mask, or_mask));
                assert(requests_view(requests@) =~= seq![
                    RequestView::MaskWriteRegister(address, and_mask, or_mask),
                ]);
                (
                    MasterAction::Send { requests, sent: Sent::Mask { address, and_mask, or_mask } },
                    no_notices(),
                )
            },
            MasterMsg::ReadWrite { read_addr, read_qty, write_addr, write_values } => {
                let checked = match validate_span(read_addr, read_qty as usize, 125, "FC23 read") {
                    Ok(()) => validate_span(write_addr, write_values.len(), 121, "FC23 write"),
                    Err(e) => Err(e),
                };
                match checked {
                    Err(e) => {
                        self.counts.err = self.counts.err.wrapping_add(1);
                        let words = worded("FC23 validation failed: ", e.as_str());
                        let shown = shown_log(&mut self.log, secs, "ERR", words.clone());
                        (
                            MasterAction::Nothing,
                            listed_three(
                                shown,
                                MasterNotice::Status { text: words, connected: true },
                                MasterNotice::Counts(self.counts),
                            ),
                        )
                    },
                    Ok(()) => {
                        self.counts.tx = self.counts.tx.wrapping_add(1);
                        let written: usize = write_values.len();
                        let mut requests: Vec<Request> = Vec::new();
                        requests.push(
                            Request::ReadWriteMultipleRegisters(
                                read_addr,
                                read_qty,
                                write_addr,
                                write_values,
                            ),
                        );
                        assert(requests_view(requests@) =~= seq![
                            RequestView::ReadWriteMultipleRegisters(
                                read_addr,
                                read_qty,
                                write_addr,
                                write_values@,
                            ),
                        ]);
                        let sent = Sent::Exchange { read_addr, read_qty, write_addr, written };
                        (MasterAction::Send { requests, sent }, no_notices())
                    },
                }
            },
            MasterMsg::SetFormat(f) => {
                self.display.format = f;
                self.display.chart.reset();
                (self.redraw(true), no_notices())
            },
            MasterMsg::SetScaling => {
                self.display.chart.reset();
                (self.redraw(true), no_notices())
            },
            MasterMsg::SetColors => (self.redraw(false), no_notices()),
            MasterMsg::SetValueNames => (self.redraw(false), no_notices()),
            MasterMsg::SetDerived(list) => {
                self.display.derived = list;
                (self.redraw(false), no_notices())
            },
            MasterMsg::SetName { address, name } => {
                let words = text::trimmed(name.as_str());
                if words.as_str().is_empty() {
                    let _ = self.display.names.remove(address as u64);
                } else {
                    self.display.names.insert(address as u64, name);
                }
                (self.redraw(false), no_notices())
            },
            MasterMsg::SetCellFormat { address, format } => {
                match format {
                    Some(f) => {
                        self.display.cell_formats.insert(address as u64, f);
                    },
                    None => {
                        let _ = self.display.cell_formats.remove(address as u64);
                    },
                }
                self.display.chart.reset();
                (self.redraw(true), no_notices())
            },
            MasterMsg::ExportChart(path) => (MasterAction::ExportChart(path), no_notices()),
            MasterMsg::SetChartAxis { addr, right } => {
                self.display.chart.set_axis(addr, right);
                (MasterAction::DrawChart, no_notices())
            },
            MasterMsg::SetChartPage(direction) => {
                let moved: bool = self.display.chart.move_page(direction);
                let action = if moved {
                    MasterAction::TurnPage
                } else {
                    MasterAction::Nothing
                };
                (action, no_notices())
            },
            MasterMsg::FocusChartAddress(addr) => {
                let action = if self.display.last.is_some() {
                    MasterAction::Focus(addr)
                } else {
                    MasterAction::Nothing
                };
                (action, no_notices())
            },
            MasterMsg::SetReadDef(def) => match validate_read_definition(
                def.area,
                def.address,
                def.quantity,
            ) {
                Ok(()) => {
                    let action = if def.scan_ms != self.def.scan_ms {
                        MasterAction::PollEvery(no_less(def.scan_ms, 20))
                    } else {
                        MasterAction::Nothing
                    };
                    self.def = def;
                    self.display.chart.reset();
                    self.display.last = None;
                    (action, no_notices())
                },
                Err(e) => {
                    let words = worded("Invalid read definition: ", e.as_str());
                    let shown = shown_log(&mut self.log, secs, "ERR", words.clone());
                    (
                        MasterAction::Nothing,
                        listed_two(shown, MasterNotice::Status { text: words, connected: true }),
                    )
                },
            },
            MasterMsg::StartLog(cfg) => (MasterAction::OpenLog(cfg), no_notices()),
            MasterMsg::StopLog => {
                if self.logger.is_some() {
                    self.logger = None;
                    let shown = shown_log(&mut self.log, secs, "TX", "Logging stopped".to_owned());
                    (MasterAction::Nothing, listed(shown))
                } else {
                    (MasterAction::Nothing, no_notices())
                }
            },
            MasterMsg::Stop => (MasterAction::Stop, listed(self.stopped())),
        }
    }
}

/// Nothing that cannot be sent is sent: a message whose request breaks a limit of the protocol
/// brings no request, and no message sends more than what it asks for.
pub proof fn law_refused_messages_send_nothing(
    before: MasterState,
    after: MasterState,
    msg: MasterMsg,
    action: MasterAction,
    shown: Seq<NoticeView>,
    secs: nat,
)
    requires
        after.obeys(&before, msg, action, shown, secs),
        match msg {
            MasterMsg::Write(req) => planned_write(req) is Err,
            MasterMsg::WriteOnce { func, items } => items_fault(func, items@) is Some,
            MasterMsg::ReadWrite { read_addr, read_qty, write_addr, write_values } => span_fault(
                read_addr,
                read_qty as int,
                125,
                "FC23 read"@,
            ) is Some || span_fault(write_addr, write_values@.len() as int, 121, "FC23 write"@) is Some,
            MasterMsg::MaskWrite { address, and_mask, or_mask } => false,
            _ => true,
        },
    ensures
        !(action is Send),
{
}

// ---------------------------------------------------------------- curves as text

/// The line of a sample: its number and the value of each series, nothing where a series is
/// shorter.
pub open spec fn sample_line(row: int, series: Seq<Seq<Seq<char>>>, k: int) -> Seq<char>
    decreases k,
{
    if k <= 0 {
        text::decimal(row as nat)
    } else {
        sample_line(row, series, k - 1) + ","@ + (if row < series[k - 1].len() {
            series[k - 1][row]
        } else {
            seq![]
        })
    }
}

/// The samples up to a row.
pub open spec fn sample_lines(series: Seq<Seq<Seq<char>>>, rows: int) -> Seq<char>
    decreases rows,
{
    if rows <= 0 {
        seq![]
    } else {
        sample_lines(series, rows - 1) + sample_line(rows - 1, series, series.len() as int) + "\n"@
    }
}

/// The heads of the columns.
pub open spec fn sample_heads(addrs: Seq<u16>) -> Seq<char>
    decreases addrs.len(),
{
    if addrs.len() == 0 {
        "Sample"@
    } else {
        sample_heads(addrs.drop_last()) + ",@"@ + text::decimal(addrs.last() as nat)
    }
}

/// The length of the longest series.
pub open spec fn longest(series: Seq<Seq<Seq<char>>>) -> int
    decreases series.len(),
{
    if series.len() == 0 {
        0
    } else {
        let rest = longest(series.drop_last());
        if series.last().len() > rest {
            series.last().len() as int
        } else {
            rest
        }
    }
}

/// The curves as a table: a column for each series, a line for each sample.
pub open spec fn chart_table(addrs: Seq<u16>, series: Seq<Seq<Seq<char>>>) -> Seq<char> {
    sample_heads(addrs) + "\n"@ + sample_lines(series, longest(series))
}

/// The texts of the values of each series.
pub open spec fn series_texts(series: Seq<Vec<String>>) -> Seq<Seq<Seq<char>>> {
    series.map_values(|s: Vec<String>| text::texts(s@))
}

/// Writes the curves as a table, given the texts of their values.
pub fn export_chart(addrs: &[u16], series: &[Vec<String>]) -> (r: String)
    ensures
        r@ == chart_table(addrs@, series_texts(series@)),
{
    let ghost all = series_texts(series@);
    let mut out = "Sample".to_owned();
    let mut i: usize = 0;
    assert(addrs@.take(0) =~= seq![]);
    while i < addrs.len()
        invariant
            i <= addrs@.len(),
            out@ == sample_heads(addrs@.take(i as int)),
        decreases addrs@.len() - i,
    {
        out.push_str(",@");
        text::push_decimal(&mut out, addrs[i] as u64);
        assert(addrs@.take(i + 1).drop_last() =~= addrs@.take(i as int));
        i += 1;
    }
    assert(addrs@.take(i as int) =~= addrs@);
    out.push_str("\n");
    let ghost head = out@;
    let mut len: usize = 0;
    let mut k: usize = 0;
    while k < series.len()
        invariant
            k <= series@.len(),
            all == series_texts(series@),
            len == longest(all.take(k as int)),
        decreases series@.len() - k,
    {
        let n: usize = series[k].len();
        if n > len {
            len = n;
        }
        proof {
            assert(all.take(k + 1).drop_last() =~= all.take(k as int));
            assert(all.take(k + 1).last().len() == n);
        }
        k += 1;
    }
    assert(all.take(k as int) =~= all);
    let mut row: usize = 0;
    assert(out@ =~= head + sample_lines(all, 0));
    while row < len
        invariant
            row <= len,
            all == series_texts(series@),
            out@ == head + sample_lines(all, row as int),
        decreases len - row,
    {
        let ghost before = out@;
        text::push_decimal(&mut out, row as u64);
        let mut k: usize = 0;
        assert(out@ =~= before + sample_line(row as int, all, 0));
        while k < series.len()
            invariant
                k <= series@.len(),
                all == series_texts(series@),
                out@ == before + sample_line(row as int, all, k as int),
            decreases series@.len() - k,
        {
            out.push_str(",");
            if row < series[k].len() {
                out.push_str(series[k][row].as_str());
                assert(all[k as int][row as int] == series@[k as int]@[row as int]@);
            }
            assert(out@ =~= before + sample_line(row as int, all, k + 1));
            k += 1;
        }
        out.push_str("\n");
        assert(out@ =~= head + sample_lines(all, row + 1));
        row += 1;
    }
    out
}

} // verus!
