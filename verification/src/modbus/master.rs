//! The engine of a polling window: its counters, its log, what it asks the server and what it makes
//! of the replies.
use crate::modbus::chart::ChartState;
use crate::modbus::datalog::Logger;
use crate::modbus::grid::{PollData, PollView};
use crate::modbus::log::{copy_lines, lines_view, logged, push_log, LineView, LogLine, LOG_LIMIT};
use crate::modbus::pdu::{ExceptionCode, Request, RequestView};
use crate::modbus::span::read_fault;
use crate::modbus::span::validate_read_definition;
use crate::modbus::{Area, WriteFunc, WriteItem};
use crate::table::Table;
use crate::text;
use vstd::prelude::*;

verus! {

/// The time within which a server is to answer, where none is set.
pub const RESPONSE_TIMEOUT_MS: u64 = 1000;

/// Requests and replies of a window.
#[derive(Clone, Copy, Debug, PartialEq, Eq, Structural)]
pub struct Counts {
    pub tx: u64,
    pub rx: u64,
    pub err: u64,
    /// Failures of communication in a row.
    pub consec_fail: u32,
}

/// `n + 1` in 64 bits.
pub open spec fn next64(n: u64) -> u64 {
    ((n + 1) % 0x1_0000_0000_0000_0000) as u64
}

/// `n + 1` in 32 bits.
pub open spec fn next32(n: u32) -> u32 {
    ((n + 1) % 0x1_0000_0000) as u32
}

/// What a window reads, and how often.
#[derive(Clone, Copy, Debug, PartialEq, Eq, Structural)]
pub struct ReadDef {
    pub area: Area,
    pub address: u16,
    pub quantity: u16,
    pub scan_ms: u64,
    pub poll: bool,
}

/// A named formula over the polled values.
#[derive(Debug)]
pub struct DerivedCh {
    pub name: String,
    pub formula: String,
}

/// What a window displays.
#[derive(Debug)]
pub struct Display {
    pub format: u32,
    pub names: Table<String>,
    pub cell_formats: Table<u32>,
    pub derived: Vec<DerivedCh>,
    pub last: Option<PollData>,
    pub chart: ChartState,
}

/// Registers that are written again and again.
#[derive(Debug)]
pub struct AutoWrite {
    pub items: Vec<WriteItem>,
    pub func: WriteFunc,
    pub on: bool,
}

/// The connection of a window.
#[derive(Debug)]
pub struct Link {
    pub desc: String,
    pub conn_desc: String,
    pub timeout_ms: u64,
    pub reconnect: bool,
    pub reconnect_ms: u64,
}

/// The state of a polling window.
#[derive(Debug)]
pub struct MasterState {
    pub counts: Counts,
    pub def: ReadDef,
    pub display: Display,
    pub auto: AutoWrite,
    pub logger: Option<Logger>,
    pub link: Link,
    pub log: Vec<LogLine>,
}

/// Something that a window shows.
#[derive(Debug)]
pub enum MasterNotice {
    Status { text: String, connected: bool },
    Log(Vec<LogLine>),
    Counts(Counts),
}

/// Something that a window shows.
pub enum NoticeView {
    Status { text: Seq<char>, connected: bool },
    Log(Seq<LineView>),
    Counts(Counts),
}

impl View for MasterNotice {
    type V = NoticeView;

    open spec fn view(&self) -> NoticeView {
        match self {
            MasterNotice::Status { text, connected } => NoticeView::Status {
                text: text@,
                connected: *connected,
            },
            MasterNotice::Log(lines) => NoticeView::Log(lines_view(lines@)),
            MasterNotice::Counts(c) => NoticeView::Counts(*c),
        }
    }
}

/// What some notices show.
pub open spec fn notices_view(notices: Seq<MasterNotice>) -> Seq<NoticeView> {
    notices.map_values(|n: MasterNotice| n@)
}

fn notice(out: &mut Vec<MasterNotice>, n: MasterNotice)
    ensures
        notices_view(final(out)@) == notices_view(old(out)@).push(n@),
{
    let ghost before = out@;
    out.push(n);
    assert(notices_view(out@) =~= notices_view(before).push(n@));
}

/// The log of a window after a further line.
pub open spec fn noted(lines: Seq<LineView>, secs: nat, dir: Seq<char>, words: Seq<char>) -> Seq<
    LineView,
> {
    logged(lines, secs, dir, words, LOG_LIMIT as int)
}

fn note(
    log: &mut Vec<LogLine>,
    out: &mut Vec<MasterNotice>,
    secs: u64,
    dir: &str,
    words: String,
)
    ensures
        lines_view(final(log)@) == noted(lines_view(old(log)@), secs as nat, dir@, words@),
        notices_view(final(out)@) == notices_view(old(out)@).push(
            NoticeView::Log(lines_view(final(log)@)),
        ),
{
    push_log(log, secs, dir, words, LOG_LIMIT);
    let lines = copy_lines(log.as_slice());
    notice(out, MasterNotice::Log(lines));
}

pub(crate) fn no_notices() -> (r: Vec<MasterNotice>)
    ensures
        notices_view(r@) == Seq::<NoticeView>::empty(),
{
    let out: Vec<MasterNotice> = Vec::new();
    assert(notices_view(out@) =~= Seq::<NoticeView>::empty());
    out
}

pub(crate) fn worded(head: &str, words: &str) -> (r: String)
    ensures
        r@ == head@ + words@,
{
    let mut out = head.to_owned();
    out.push_str(words);
    out
}

// ---------------------------------------------------------------- connecting

/// The status while a window connects, or why it does not.
pub fn connecting_status(desc: &str, def: &ReadDef) -> (r: Result<String, String>)
    ensures
        match r {
            Ok(s) => (!def.poll || read_fault(def.area, def.address, def.quantity) is None) && s@
                == "Connecting — "@ + desc@ + " …"@,
            Err(s) => def.poll && read_fault(def.area, def.address, def.quantity) is Some && s@
                == "Invalid read definition: "@ + read_fault(
                def.area,
                def.address,
                def.quantity,
            )->0,
        },
{
    if def.poll {
        match validate_read_definition(def.area, def.address, def.quantity) {
            Ok(()) => {},
            Err(e) => {
                return Err(worded("Invalid read definition: ", e.as_str()));
            },
        }
    }
    let mut out = worded("Connecting — ", desc);
    out.push_str(" …");
    Ok(out)
}

/// What a window shows where the connection fails: the reason, and a log with that one line.
pub fn connect_failed(error: &str, secs: u64) -> (r: Vec<MasterNotice>)
    ensures
        notices_view(r@) == seq![
            NoticeView::Status { text: "Connect failed: "@ + error@, connected: false },
            NoticeView::Log(noted(seq![], secs as nat, "ERR"@, error@)),
        ],
{
    let mut out = no_notices();
    let mut log: Vec<LogLine> = Vec::new();
    notice(
        &mut out,
        MasterNotice::Status { text: worded("Connect failed: ", error), connected: false },
    );
    assert(lines_view(log@) =~= seq![]);
    note(&mut log, &mut out, secs, "ERR", error.to_owned());
    assert(notices_view(out@) =~= seq![
        NoticeView::Status { text: "Connect failed: "@ + error@, connected: false },
        NoticeView::Log(noted(seq![], secs as nat, "ERR"@, error@)),
    ]);
    out
}

/// How a connection is described, with its security where it has one.
pub open spec fn described_link(desc: Seq<char>, tls: Option<Seq<char>>) -> Seq<char> {
    match tls {
        Some(t) => desc + " · "@ + t,
        None => desc,
    }
}

impl MasterState {
    /// The tables and the curves are in order.
    pub open spec fn wf(&self) -> bool {
        &&& self.display.names.wf()
        &&& self.display.cell_formats.wf()
        &&& self.display.chart.wf()
    }

    /// The state of a window that has just connected, and what it shows.
    pub fn connected(
        desc: String,
        tls: Option<String>,
        def: ReadDef,
        format: u32,
        timeout_ms: u64,
        reconnect: bool,
        reconnect_ms: u64,
        secs: u64,
    ) -> (r: (MasterState, Vec<MasterNotice>))
        ensures
            r.0.wf(),
            r.0.counts == (Counts { tx: 0, rx: 0, err: 0, consec_fail: 0 }),
            r.0.def == def,
            r.0.display.format == format,
            r.0.display.names.map() == Map::<u64, String>::empty(),
            r.0.display.cell_formats.map() == Map::<u64, u32>::empty(),
            r.0.display.derived@.len() == 0,
            r.0.display.last is None,
            r.0.display.chart.addrs@.len() == 0,
            r.0.display.chart.right@.len() == 0,
            r.0.display.chart.page_start == 0,
            r.0.display.chart.total == 0,
            r.0.auto.items@.len() == 0,
            r.0.auto.func == WriteFunc::MultiRegs,
            !r.0.auto.on,
            r.0.logger is None,
            r.0.link.desc == desc,
            r.0.link.conn_desc@ == described_link(
                desc@,
                match tls {
                    Some(t) => Some(t@),
                    None => None,
                },
            ),
            r.0.link.timeout_ms == if timeout_ms == 0 {
                RESPONSE_TIMEOUT_MS
            } else {
                timeout_ms
            },
            r.0.link.reconnect == reconnect,
            r.0.link.reconnect_ms == if reconnect_ms < 200 {
                200
            } else {
                reconnect_ms
            },
            r.0.log@.len() == 0,
            ({
                let status = NoticeView::Status {
                    text: "Connected — "@ + r.0.link.conn_desc@,
                    connected: true,
                };
                notices_view(r.1@) == match tls {
                    Some(t) => seq![
                        NoticeView::Log(
                            noted(seq![], secs as nat, "TX"@, "TLS established — "@ + t@),
                        ),
                        status,
                    ],
                    None => seq![status],
                }
            }),
    {
        let mut out = no_notices();
        let mut conn_desc = desc.clone();
        match &tls {
            Some(t) => {
                conn_desc.push_str(" · ");
                conn_desc.push_str(t.as_str());
                let mut line: Vec<LogLine> = Vec::new();
                assert(lines_view(line@) =~= seq![]);
                note(&mut line, &mut out, secs, "TX", worded("TLS established — ", t.as_str()));
            },
            None => {},
        }
        notice(
            &mut out,
            MasterNotice::Status {
                text: worded("Connected — ", conn_desc.as_str()),
                connected: true,
            },
        );
        proof {
            let status = NoticeView::Status {
                text: "Connected — "@ + conn_desc@,
                connected: true,
            };
            match tls {
                Some(t) => {
                    assert(notices_view(out@) =~= seq![
                        NoticeView::Log(
                            noted(seq![], secs as nat, "TX"@, "TLS established — "@ + t@),
                        ),
                        status,
                    ]);
                },
                None => {
                    assert(notices_view(out@) =~= seq![status]);
                },
            }
        }
        let state = MasterState {
            counts: Counts { tx: 0, rx: 0, err: 0, consec_fail: 0 },
            def,
            display: Display {
                format,
                names: Table::new(),
                cell_formats: Table::new(),
                derived: Vec::new(),
                last: None,
                chart: ChartState::new(),
            },
            auto: AutoWrite { items: Vec::new(), func: WriteFunc::MultiRegs, on: false },
            logger: None,
            link: Link {
                desc,
                conn_desc,
                timeout_ms: if timeout_ms == 0 {
                    RESPONSE_TIMEOUT_MS
                } else {
                    timeout_ms
                },
                reconnect,
                reconnect_ms: if reconnect_ms < 200 {
                    200
                } else {
                    reconnect_ms
                },
            },
            log: Vec::new(),
        };
        (state, out)
    }

    /// The status of a window that was stopped.
    pub fn stopped(&self) -> (r: MasterNotice)
        ensures
            r@ == (NoticeView::Status {
                text: "Disconnected — "@ + self.link.desc@,
                connected: false,
            }),
    {
        MasterNotice::Status {
            text: worded("Disconnected — ", self.link.desc.as_str()),
            connected: false,
        }
    }
}

// ---------------------------------------------------------------- polling

/// What came back of a request.
#[derive(Debug)]
pub enum Reply {
    /// The values that were read; none where nothing was.
    Regs(Vec<u16>),
    Bits(Vec<bool>),
    Exception(ExceptionCode),
    Failed(String),
    Timeout,
}

/// What came of a poll.
#[derive(Debug)]
pub enum PollErr {
    /// The server refused.
    Exception(String),
    /// The server could not be reached.
    Io(String),
    /// The request was never sent.
    Invalid(String),
}

/// The request of a poll.
pub open spec fn poll_view(def: ReadDef) -> RequestView {
    match def.area {
        Area::Coils => RequestView::ReadCoils(def.address, def.quantity),
        Area::DiscreteInputs => RequestView::ReadDiscreteInputs(def.address, def.quantity),
        Area::HoldingRegisters => RequestView::ReadHoldingRegisters(def.address, def.quantity),
        Area::InputRegisters => RequestView::ReadInputRegisters(def.address, def.quantity),
    }
}

/// The request of a poll, or why none is sent.
pub fn poll_request(def: &ReadDef) -> (r: Result<Request, PollErr>)
    ensures
        match r {
            Ok(request) => read_fault(def.area, def.address, def.quantity) is None && request@
                == poll_view(*def),
            Err(PollErr::Invalid(m)) => read_fault(def.area, def.address, def.quantity) == Some(m@),
            Err(_) => false,
        },
{
    match validate_read_definition(def.area, def.address, def.quantity) {
        Err(e) => Err(PollErr::Invalid(e)),
        Ok(()) => Ok(
            match def.area {
                Area::Coils => Request::ReadCoils(def.address, def.quantity),
                Area::DiscreteInputs => Request::ReadDiscreteInputs(def.address, def.quantity),
                Area::HoldingRegisters => Request::ReadHoldingRegisters(def.address, def.quantity),
                Area::InputRegisters => Request::ReadInputRegisters(def.address, def.quantity),
            },
        ),
    }
}

/// What came of a poll, given what came back.
pub fn poll_result(reply: Reply) -> (r: Result<PollData, PollErr>)
    ensures
        match reply {
            Reply::Regs(v) => r is Ok && r->Ok_0@ == PollView::Regs(v@),
            Reply::Bits(v) => r is Ok && r->Ok_0@ == PollView::Bits(v@),
            Reply::Exception(e) => r matches Err(PollErr::Exception(s)) && s@ == e.debug_text(),
            Reply::Failed(e) => r matches Err(PollErr::Io(s)) && s@ == e@,
            Reply::Timeout => r matches Err(PollErr::Io(s)) && s@ == "Timeout"@,
        },
{
    match reply {
        Reply::Regs(v) => Ok(PollData::Regs(v)),
        Reply::Bits(v) => Ok(PollData::Bits(v)),
        Reply::Exception(e) => Err(PollErr::Exception(e.debug_name())),
        Reply::Failed(e) => Err(PollErr::Io(e)),
        Reply::Timeout => Err(PollErr::Io("Timeout".to_owned())),
    }
}

/// What came of a request that reads nothing.
pub open spec fn unit_fault(reply: Reply) -> Option<Seq<char>> {
    match reply {
        Reply::Regs(_) => None,
        Reply::Bits(_) => None,
        Reply::Exception(e) => Some(e.debug_text()),
        Reply::Failed(e) => Some(e@),
        Reply::Timeout => Some("Timeout"@),
    }
}

/// What came of a request that reads nothing.
pub fn flatten_unit(reply: &Reply) -> (r: Result<(), String>)
    ensures
        match r {
            Ok(()) => unit_fault(*reply) is None,
            Err(m) => unit_fault(*reply) == Some(m@),
        },
{
    match reply {
        Reply::Regs(_) => Ok(()),
        Reply::Bits(_) => Ok(()),
        Reply::Exception(e) => Err((*e).debug_name()),
        Reply::Failed(e) => Err(e.clone()),
        Reply::Timeout => Err("Timeout".to_owned()),
    }
}

/// The line of the log that tells of a poll.
pub open spec fn poll_text(label: Seq<char>, data: PollView) -> Seq<char> {
    "Read "@ + label + " ×"@ + text::decimal(data.count())
}

/// The line of the log that tells of a poll of a table with the given label.
pub fn describe_poll(label: &str, data: &PollData) -> (r: String)
    ensures
        r@ == poll_text(label@, data@),
{
    let n: usize = match data {
        PollData::Regs(v) => v.len(),
        PollData::Bits(v) => v.len(),
    };
    let mut out = worded("Read ", label);
    out.push_str(" ×");
    text::push_decimal(&mut out, n as u64);
    out
}

impl MasterState {
    /// Everything but the counters, the log and what was polled last is as it was.
    pub open spec fn settings_kept(&self, before: &MasterState) -> bool {
        &&& self.def == before.def
        &&& self.display == before.display
        &&& self.auto == before.auto
        &&& self.link == before.link
    }

    /// The log after a poll that brought data.
    pub open spec fn log_after_data(
        lines: Seq<LineView>,
        secs: nat,
        label: Seq<char>,
        data: PollView,
        log_error: Option<Seq<char>>,
    ) -> Seq<LineView> {
        let first = match log_error {
            Some(e) => noted(
                lines,
                secs,
                "ERR"@,
                "Logging stopped after file write failure: "@ + e,
            ),
            None => lines,
        };
        noted(first, secs, "RX"@, poll_text(label, data))
    }

    /// A poll brought data. `log_error` tells that the values could not be written to the log file,
    /// which is closed then.
    pub fn polled(&mut self, data: PollData, label: &str, log_error: Option<String>, secs: u64) -> (r:
        Vec<MasterNotice>)
        requires
            old(self).wf(),
        ensures
            final(self).wf(),
            final(self).counts == (Counts {
                tx: next64(old(self).counts.tx),
                rx: next64(old(self).counts.rx),
                err: old(self).counts.err,
                consec_fail: 0,
            }),
            final(self).def == old(self).def,
            final(self).auto == old(self).auto,
            final(self).link == old(self).link,
            final(self).display == (Display { last: Some(data), ..old(self).display }),
            final(self).logger == if log_error is Some {
                None
            } else {
                old(self).logger
            },
            ({
                let e = match log_error {
                    Some(e) => Some(e@),
                    None => None,
                };
                let lines = lines_view(old(self).log@);
                let done = Self::log_after_data(lines, secs as nat, label@, data@, e);
                &&& lines_view(final(self).log@) == done
                &&& notices_view(r@) == (match e {
                    Some(m) => seq![
                        NoticeView::Log(
                            noted(
                                lines,
                                secs as nat,
                                "ERR"@,
                                "Logging stopped after file write failure: "@ + m,
                            ),
                        ),
                    ],
                    None => seq![],
                }) + seq![
                    NoticeView::Log(done),
                    NoticeView::Status {
                        text: "Polling — "@ + old(self).link.conn_desc@,
                        connected: true,
                    },
                    NoticeView::Counts(final(self).counts),
                ]
            }),
    {
        let mut out = no_notices();
        self.counts.tx = self.counts.tx.wrapping_add(1);
        self.counts.rx = self.counts.rx.wrapping_add(1);
        self.counts.consec_fail = 0;
        let ghost lines = lines_view(self.log@);
        match &log_error {
            Some(e) => {
                self.logger = None;
                note(
                    &mut self.log,
                    &mut out,
                    secs,
                    "ERR",
                    worded("Logging stopped after file write failure: ", e.as_str()),
                );
            },
            None => {},
        }
        let ghost head = notices_view(out@);
        let words = describe_poll(label, &data);
        note(&mut self.log, &mut out, secs, "RX", words);
        notice(
            &mut out,
            MasterNotice::Status {
                text: worded("Polling — ", self.link.conn_desc.as_str()),
                connected: true,
            },
        );
        self.display.last = Some(data);
        notice(&mut out, MasterNotice::Counts(self.counts));
        proof {
            assert(notices_view(out@) =~= head + seq![
                NoticeView::Log(lines_view(self.log@)),
                NoticeView::Status {
                    text: "Polling — "@ + self.link.conn_desc@,
                    connected: true,
                },
                NoticeView::Counts(self.counts),
            ]);
            assert(log_error is None ==> head =~= seq![]);
            assert(log_error is Some ==> head =~= seq![
                NoticeView::Log(
                    noted(
                        lines,
                        secs as nat,
                        "ERR"@,
                        "Logging stopped after file write failure: "@ + log_error->0@,
                    ),
                ),
            ]);
        }
        out
    }

    /// The counters after a poll that failed.
    pub open spec fn counts_after_failure(c: Counts, error: PollErr) -> Counts {
        Counts {
            tx: next64(c.tx),
            rx: c.rx,
            err: next64(c.err),
            consec_fail: if error is Io {
                next32(c.consec_fail)
            } else {
                c.consec_fail
            },
        }
    }

    /// The status after a failure of communication.
    pub open spec fn failure_status(s: Seq<char>, count: u32) -> Seq<char> {
        "Error — "@ + s + " (连续失败 "@ + text::decimal(count as nat) + ")"@
    }

    /// The line that announces a new connection.
    pub open spec fn retry_text(ms: u64) -> Seq<char> {
        "将在 "@ + text::decimal(ms as nat) + " ms 后自动重连…"@
    }

    /// What a failed poll shows.
    pub open spec fn failure_notices(&self, error: PollErr, secs: nat) -> Seq<NoticeView> {
        let c = Self::counts_after_failure(self.counts, error);
        let lines = lines_view(self.log@);
        match error {
            PollErr::Exception(s) => seq![
                NoticeView::Log(noted(lines, secs, "ERR"@, "Modbus exception: "@ + s@)),
                NoticeView::Counts(c),
            ],
            PollErr::Invalid(s) => seq![
                NoticeView::Log(noted(lines, secs, "ERR"@, "Invalid read definition: "@ + s@)),
                NoticeView::Status { text: "Invalid read definition: "@ + s@, connected: true },
                NoticeView::Counts(c),
            ],
            PollErr::Io(s) => {
                let one = noted(lines, secs, "ERR"@, "Comm error: "@ + s@);
                let two = if c.consec_fail == 5 {
                    noted(one, secs, "ERR"@, "⚠ 连续 5 次通信失败"@)
                } else {
                    one
                };
                let head = seq![
                    NoticeView::Log(one),
                    NoticeView::Status {
                        text: Self::failure_status(s@, c.consec_fail),
                        connected: false,
                    },
                ];
                let more = if c.consec_fail == 5 {
                    head.push(NoticeView::Log(two))
                } else {
                    head
                };
                if self.link.reconnect {
                    more.push(
                        NoticeView::Log(
                            noted(two, secs, "TX"@, Self::retry_text(self.link.reconnect_ms)),
                        ),
                    )
                } else {
                    more.push(NoticeView::Counts(c))
                }
            },
        }
    }

    /// The log after a failed poll.
    pub open spec fn log_after_failure(&self, error: PollErr, secs: nat) -> Seq<LineView> {
        let c = Self::counts_after_failure(self.counts, error);
        let lines = lines_view(self.log@);
        match error {
            PollErr::Exception(s) => noted(lines, secs, "ERR"@, "Modbus exception: "@ + s@),
            PollErr::Invalid(s) => noted(lines, secs, "ERR"@, "Invalid read definition: "@ + s@),
            PollErr::Io(s) => {
                let one = noted(lines, secs, "ERR"@, "Comm error: "@ + s@);
                let two = if c.consec_fail == 5 {
                    noted(one, secs, "ERR"@, "⚠ 连续 5 次通信失败"@)
                } else {
                    one
                };
                if self.link.reconnect {
                    noted(two, secs, "TX"@, Self::retry_text(self.link.reconnect_ms))
                } else {
                    two
                }
            },
        }
    }

    /// A poll failed. An exception is an answer of the server and no fault of the connection; a
    /// request that cannot be sent ends the polling. The result tells after how many milliseconds a
    /// new connection is to be tried, if one is.
    pub fn poll_failed(&mut self, error: PollErr, secs: u64) -> (r: (Vec<MasterNotice>, Option<u64>))
        requires
            old(self).wf(),
        ensures
            final(self).wf(),
            final(self).counts == Self::counts_after_failure(old(self).counts, error),
            final(self).def == (ReadDef {
                poll: old(self).def.poll && !(error is Invalid),
                ..old(self).def
            }),
            final(self).display == old(self).display,
            final(self).auto == old(self).auto,
            final(self).link == old(self).link,
            final(self).logger == old(self).logger,
            lines_view(final(self).log@) == old(self).log_after_failure(error, secs as nat),
            notices_view(r.0@) == old(self).failure_notices(error, secs as nat),
            r.1 == if error is Io && old(self).link.reconnect {
                Some(old(self).link.reconnect_ms)
            } else {
                None
            },
    {
        let mut out = no_notices();
        self.counts.tx = self.counts.tx.wrapping_add(1);
        self.counts.err = self.counts.err.wrapping_add(1);
        match &error {
            PollErr::Exception(s) => {
                note(
                    &mut self.log,
                    &mut out,
                    secs,
                    "ERR",
                    worded("Modbus exception: ", s.as_str()),
                );
            },
            PollErr::Invalid(s) => {
                self.def.poll = false;
                let words = worded("Invalid read definition: ", s.as_str());
                note(&mut self.log, &mut out, secs, "ERR", words.clone());
                notice(&mut out, MasterNotice::Status { text: words, connected: true });
            },
            PollErr::Io(s) => {
                self.counts.consec_fail = self.counts.consec_fail.wrapping_add(1);
                note(&mut self.log, &mut out, secs, "ERR", worded("Comm error: ", s.as_str()));
                let mut status = worded("Error — ", s.as_str());
                status.push_str(" (连续失败 ");
                text::push_decimal(&mut status, self.counts.consec_fail as u64);
                status.push_str(")");
                notice(&mut out, MasterNotice::Status { text: status, connected: false });
                if self.counts.consec_fail == 5 {
                    note(&mut self.log, &mut out, secs, "ERR", "⚠ 连续 5 次通信失败".to_owned());
                }
                if self.link.reconnect {
                    let mut words = "将在 ".to_owned();
                    text::push_decimal(&mut words, self.link.reconnect_ms);
                    words.push_str(" ms 后自动重连…");
                    note(&mut self.log, &mut out, secs, "TX", words);
                    assert(notices_view(out@) =~= old(self).failure_notices(error, secs as nat));
                    return (out, Some(self.link.reconnect_ms));
                }
            },
        }
        notice(&mut out, MasterNotice::Counts(self.counts));
        assert(notices_view(out@) =~= old(self).failure_notices(error, secs as nat));
        (out, None)
    }

    /// A new connection was tried.
    pub fn reconnected(&mut self, result: Result<(), String>, secs: u64) -> (r: Vec<MasterNotice>)
        requires
            old(self).wf(),
        ensures
            final(self).wf(),
            final(self).settings_kept(old(self)),
            final(self).logger == old(self).logger,
            ({
                let lines = lines_view(old(self).log@);
                match result {
                    Ok(()) => {
                        let done = noted(lines, secs as nat, "TX"@, "已重连"@);
                        &&& final(self).counts == (Counts { consec_fail: 0, ..old(self).counts })
                        &&& lines_view(final(self).log@) == done
                        &&& notices_view(r@) == seq![
                            NoticeView::Status {
                                text: "Reconnected — "@ + old(self).link.conn_desc@,
                                connected: true,
                            },
                            NoticeView::Log(done),
                            NoticeView::Counts(final(self).counts),
                        ]
                    },
                    Err(e) => {
                        let done = noted(lines, secs as nat, "ERR"@, "重连失败: "@ + e@);
                        &&& final(self).counts == old(self).counts
                        &&& lines_view(final(self).log@) == done
                        &&& notices_view(r@) == seq![
                            NoticeView::Log(done),
                            NoticeView::Counts(final(self).counts),
                        ]
                    },
                }
            }),
    {
        let mut out = no_notices();
        match &result {
            Ok(()) => {
                self.counts.consec_fail = 0;
                notice(
                    &mut out,
                    MasterNotice::Status {
                        text: worded("Reconnected — ", self.link.conn_desc.as_str()),
                        connected: true,
                    },
                );
                note(&mut self.log, &mut out, secs, "TX", "已重连".to_owned());
            },
            Err(e) => {
                note(&mut self.log, &mut out, secs, "ERR", worded("重连失败: ", e.as_str()));
            },
        }
        notice(&mut out, MasterNotice::Counts(self.counts));
        proof {
            let status = NoticeView::Status {
                text: "Reconnected — "@ + self.link.conn_desc@,
                connected: true,
            };
            let log = NoticeView::Log(lines_view(self.log@));
            let counts = NoticeView::Counts(self.counts);
            if result is Ok {
                assert(notices_view(out@) =~= seq![status, log, counts]);
            } else {
                assert(notices_view(out@) =~= seq![log, counts]);
            }
        }
        out
    }
}

} // verus!
