//! The simulated server: which requests it answers, and the state behind its windows.
use crate::modbus::adu::{build_datagram, datagram_parts, datagram_reply, parse_datagram};
use crate::modbus::pdu::{decode_server_request_pdu, decoded, encode_server_response_pdu};
use crate::modbus::pdu::{response_fits, writes_response};
use crate::modbus::pdu::{ExceptionCode, Request, RequestView, Response};
use crate::modbus::store::{answer_view, describe_request, description};
use crate::modbus::store::{handle_request, is_write, served, writes, DataStore, ResponseView};
use crate::modbus::store::StoreView;
use crate::text;
use vstd::prelude::*;

verus! {

// ---------------------------------------------------------------- starting

/// Why an address cannot be listened on, as the operating system classifies it.
#[derive(Clone, Copy, Debug, PartialEq, Eq, Structural)]
pub enum BindErrorKind {
    AddrNotAvailable,
    AddrInUse,
    PermissionDenied,
    Other,
}

/// The number of the error that says that an address is not one of this machine.
pub const WSAEADDRNOTAVAIL: i32 = 10049;

/// What is said of an address that cannot be listened on.
pub open spec fn bind_error_text(
    host: Seq<char>,
    port: u16,
    kind: BindErrorKind,
    os_error: Option<i32>,
    words: Seq<char>,
    english: bool,
) -> Seq<char> {
    let at = host + ":"@ + text::decimal(port as nat);
    if kind == BindErrorKind::AddrNotAvailable || os_error == Some(WSAEADDRNOTAVAIL) {
        if english {
            "Start failed: "@ + host
                + " is not currently available for listening. Its network adapter may be disconnected, the IP address may not be active yet, or the address may not be assigned to this computer. Connect the adapter and wait for the IP address to become active, or use 0.0.0.0 to listen on all active interfaces."@
        } else {
            "启动失败："@ + host
                + " 当前不能用于监听。对应网卡可能未连接、IP 地址尚未生效，或该地址未分配给本机。请连接网卡并等待 IP 生效，或使用 0.0.0.0 监听全部有效网卡。"@
        }
    } else if kind == BindErrorKind::AddrInUse {
        if english {
            "Start failed: port "@ + text::decimal(port as nat) + " is already in use."@
        } else {
            "启动失败：端口 "@ + text::decimal(port as nat) + " 已被其他程序占用。"@
        }
    } else if kind == BindErrorKind::PermissionDenied {
        if english {
            "Start failed: permission denied while listening on "@ + at + "."@
        } else {
            "启动失败：没有权限监听 "@ + at + "，请更换端口或以管理员身份运行。"@
        }
    } else if english {
        "Start failed: cannot listen on "@ + at + " ("@ + words + ")."@
    } else {
        "启动失败：无法监听 "@ + at + "（"@ + words + "）。"@
    }
}

fn push_address(out: &mut String, host: &str, port: u16)
    ensures
        final(out)@ == old(out)@ + (host@ + ":"@ + text::decimal(port as nat)),
{
    let ghost before = out@;
    out.push_str(host);
    out.push_str(":");
    text::push_decimal(out, port as u64);
    assert(out@ =~= before + (host@ + ":"@ + text::decimal(port as nat)));
}

/// What is said of an address that cannot be listened on, given how the operating system
/// classifies the error, its number and its words.
pub fn bind_error_message(
    host: &str,
    port: u16,
    kind: BindErrorKind,
    os_error: Option<i32>,
    words: &str,
    english: bool,
) -> (r: String)
    ensures
        r@ == bind_error_text(host@, port, kind, os_error, words@, english),
{
    let not_local: bool = kind == BindErrorKind::AddrNotAvailable || match os_error {
        Some(n) => n == WSAEADDRNOTAVAIL,
        None => false,
    };
    if not_local {
        let mut out: String;
        if english {
            out = "Start failed: ".to_owned();
            out.push_str(host);
            out.push_str(
                " is not currently available for listening. Its network adapter may be disconnected, the IP address may not be active yet, or the address may not be assigned to this computer. Connect the adapter and wait for the IP address to become active, or use 0.0.0.0 to listen on all active interfaces.",
            );
        } else {
            out = "启动失败：".to_owned();
            out.push_str(host);
            out.push_str(
                " 当前不能用于监听。对应网卡可能未连接、IP 地址尚未生效，或该地址未分配给本机。请连接网卡并等待 IP 生效，或使用 0.0.0.0 监听全部有效网卡。",
            );
        }
        return out;
    }
    if kind == BindErrorKind::AddrInUse {
        let mut out: String;
        if english {
            out = "Start failed: port ".to_owned();
            text::push_decimal(&mut out, port as u64);
            out.push_str(" is already in use.");
        } else {
            out = "启动失败：端口 ".to_owned();
            text::push_decimal(&mut out, port as u64);
            out.push_str(" 已被其他程序占用。");
        }
        return out;
    }
    if kind == BindErrorKind::PermissionDenied {
        let mut out: String;
        if english {
            out = "Start failed: permission denied while listening on ".to_owned();
            push_address(&mut out, host, port);
            out.push_str(".");
        } else {
            out = "启动失败：没有权限监听 ".to_owned();
            push_address(&mut out, host, port);
            out.push_str("，请更换端口或以管理员身份运行。");
        }
        return out;
    }
    let mut out: String;
    if english {
        out = "Start failed: cannot listen on ".to_owned();
        push_address(&mut out, host, port);
        out.push_str(" (");
        out.push_str(words);
        out.push_str(").");
    } else {
        out = "启动失败：无法监听 ".to_owned();
        push_address(&mut out, host, port);
        out.push_str("（");
        out.push_str(words);
        out.push_str("）。");
    }
    out
}

// ---------------------------------------------------------------- requests

/// Something that the windows of the server show.
#[derive(Debug)]
pub enum SlaveEvent {
    Log { dir: String, text: String },
    Changed,
}

/// Something that the windows of the server show.
pub enum SlaveEventView {
    Log { dir: Seq<char>, text: Seq<char> },
    Changed,
}

impl View for SlaveEvent {
    type V = SlaveEventView;

    open spec fn view(&self) -> SlaveEventView {
        match self {
            SlaveEvent::Log { dir, text } => SlaveEventView::Log { dir: dir@, text: text@ },
            SlaveEvent::Changed => SlaveEventView::Changed,
        }
    }
}

/// What some events show.
pub open spec fn slave_events(events: Seq<SlaveEvent>) -> Seq<SlaveEventView> {
    events.map_values(|e: SlaveEvent| e@)
}

/// To whom the server answers.
#[derive(Clone, Copy, Debug)]
pub struct SlaveService {
    pub unit_id: u8,
    pub tcp: bool,
    pub ignore_unit_id: bool,
}

/// What the server makes of a request: what its windows show, and the answer, where one is sent.
#[derive(Debug)]
pub struct SlaveReply {
    pub events: Vec<SlaveEvent>,
    pub answer: Option<Result<Response, ExceptionCode>>,
}

impl SlaveService {
    /// Whether a request names this server.
    pub open spec fn named(self, slave: u8) -> bool {
        slave == self.unit_id || (self.tcp && self.ignore_unit_id)
    }

    /// Whether a request goes to every server on a serial line.
    pub open spec fn broadcast(self, slave: u8) -> bool {
        !self.tcp && slave == 0
    }

    /// Whether the server acts on a request.
    pub open spec fn acts(self, slave: u8) -> bool {
        self.named(slave) || self.broadcast(slave)
    }

    /// The tables after a request.
    pub open spec fn tables_after(self, s: StoreView, slave: u8, r: RequestView) -> StoreView {
        if self.acts(slave) {
            served(s, r).0
        } else {
            s
        }
    }

    /// The answer to a request: none where it is for another server, and none to a broadcast
    /// unless it is refused.
    pub open spec fn answer_to(self, s: StoreView, slave: u8, r: RequestView) -> Option<
        Result<ResponseView, ExceptionCode>,
    > {
        if !self.acts(slave) {
            None
        } else if served(s, r).1 is Ok && self.broadcast(slave) {
            None
        } else {
            Some(served(s, r).1)
        }
    }

    /// What the windows show of a request.
    pub open spec fn events_of(self, s: StoreView, slave: u8, r: RequestView) -> Seq<
        SlaveEventView,
    > {
        if !self.acts(slave) {
            seq![]
        } else {
            seq![SlaveEventView::Log { dir: "RX"@, text: description(r) }] + match served(s, r).1 {
                Ok(_) => if writes(r) {
                    seq![SlaveEventView::Changed]
                } else {
                    seq![]
                },
                Err(e) => seq![
                    SlaveEventView::Log { dir: "ERR"@, text: "Exception: "@ + e.debug_text() },
                ],
            }
        }
    }

    /// The counter of requests after one.
    pub open spec fn counter_after(self, requests: u64, slave: u8) -> u64 {
        if self.acts(slave) {
            ((requests + 1) % 0x1_0000_0000_0000_0000) as u64
        } else {
            requests
        }
    }

    /// Takes a request: answers it where it is for this server, and for nobody else.
    pub fn call(
        &self,
        store: &mut DataStore,
        requests: &mut u64,
        slave: u8,
        request: &Request,
    ) -> (r: SlaveReply)
        ensures
            final(store)@ == self.tables_after(old(store)@, slave, request@),
            *final(requests) == self.counter_after(*old(requests), slave),
            slave_events(r.events@) == self.events_of(old(store)@, slave, request@),
            match r.answer {
                Some(a) => self.answer_to(old(store)@, slave, request@) == Some(answer_view(a)),
                None => self.answer_to(old(store)@, slave, request@) is None,
            },
    {
        let for_us: bool = if self.tcp {
            self.ignore_unit_id || slave == self.unit_id
        } else {
            slave == self.unit_id
        };
        let broadcast: bool = !self.tcp && slave == 0;
        let mut events: Vec<SlaveEvent> = Vec::new();
        if !for_us && !broadcast {
            assert(slave_events(events@) =~= seq![]);
            return SlaveReply { events, answer: None };
        }
        let ghost s0 = store@;
        *requests = requests.wrapping_add(1);
        events.push(SlaveEvent::Log { dir: "RX".to_owned(), text: describe_request(request) });
        match handle_request(store, request) {
            Ok(response) => {
                if is_write(request) {
                    events.push(SlaveEvent::Changed);
                }
                assert(slave_events(events@) =~= self.events_of(s0, slave, request@));
                let answer: Option<Result<Response, ExceptionCode>> = if broadcast {
                    None
                } else {
                    Some(Ok(response))
                };
                SlaveReply { events, answer }
            },
            Err(e) => {
                let mut words = "Exception: ".to_owned();
                let name = e.debug_name();
                words.push_str(name.as_str());
                events.push(SlaveEvent::Log { dir: "ERR".to_owned(), text: words });
                assert(slave_events(events@) =~= self.events_of(s0, slave, request@));
                SlaveReply { events, answer: Some(Err(e)) }
            },
        }
    }
}

/// A server answers, and changes its tables, only where a request is for it: on a network by its
/// unit, unless it ignores units; on a serial line by its unit or to everybody.
pub proof fn law_requests_for_others_change_nothing(
    service: SlaveService,
    s: StoreView,
    slave: u8,
    r: RequestView,
)
    requires
        slave != service.unit_id,
        if service.tcp {
            !service.ignore_unit_id
        } else {
            slave != 0
        },
    ensures
        service.tables_after(s, slave, r) == s,
        service.answer_to(s, slave, r) is None,
        service.events_of(s, slave, r).len() == 0,
{
}

/// A request that is sent to everybody on a serial line does its work and is not answered.
pub proof fn law_broadcasts_are_silent(service: SlaveService, s: StoreView, r: RequestView)
    requires
        !service.tcp,
        served(s, r).1 is Ok,
    ensures
        service.tables_after(s, 0, r) == served(s, r).0,
        service.answer_to(s, 0, r) is None,
{
}

// ---------------------------------------------------------------- datagrams

/// Whether a unit writes an answer to a request with the given function code.
pub open spec fn writes_answer(
    p: Seq<u8>,
    function: u8,
    answer: Result<ResponseView, ExceptionCode>,
) -> bool {
    exists|response: Result<Response, ExceptionCode>|
        answer_view(response) == answer && #[trigger] writes_response(p, function, response)
}

/// What becomes of a datagram.
#[derive(Debug)]
pub struct DatagramOutcome {
    pub events: Vec<SlaveEvent>,
    pub reply: Option<Vec<u8>>,
}

/// The function code of a unit.
pub open spec fn function_of(pdu: Seq<u8>) -> u8 {
    if pdu.len() > 0 {
        pdu[0]
    } else {
        0
    }
}

/// The answer to the unit of a datagram: a unit that reads as no request is refused, except where
/// it went to everybody on a serial line.
pub open spec fn unit_answer(
    service: SlaveService,
    s: StoreView,
    rtu: bool,
    slave: u8,
    pdu: Seq<u8>,
) -> Option<Result<ResponseView, ExceptionCode>> {
    match decoded(pdu) {
        Ok(request) => service.answer_to(s, slave, request),
        Err(e) => if rtu && slave == 0 {
            None
        } else {
            Some(Err(e))
        },
    }
}

/// The tables after a datagram.
pub open spec fn tables_after_datagram(
    service: SlaveService,
    s: StoreView,
    rtu: bool,
    frame: Seq<u8>,
) -> StoreView {
    match datagram_parts(frame, rtu) {
        Some((_, slave, pdu)) => match decoded(pdu) {
            Ok(request) => service.tables_after(s, slave, request),
            Err(_) => s,
        },
        None => s,
    }
}

/// The counter of requests after a datagram.
pub open spec fn counter_after_datagram(
    service: SlaveService,
    requests: u64,
    rtu: bool,
    frame: Seq<u8>,
) -> u64 {
    match datagram_parts(frame, rtu) {
        Some((_, slave, pdu)) => match decoded(pdu) {
            Ok(request) => service.counter_after(requests, slave),
            Err(_) => requests,
        },
        None => requests,
    }
}

/// What the windows show of a datagram.
pub open spec fn datagram_events(
    service: SlaveService,
    s: StoreView,
    rtu: bool,
    frame: Seq<u8>,
) -> Seq<SlaveEventView> {
    match datagram_parts(frame, rtu) {
        Some((_, slave, pdu)) => match decoded(pdu) {
            Ok(request) => service.events_of(s, slave, request),
            Err(_) => seq![],
        },
        None => seq![
            SlaveEventView::Log { dir: "ERR"@, text: "Discarded malformed UDP Modbus frame"@ },
        ],
    }
}

/// Whether a datagram is answered as it should be.
pub open spec fn datagram_answered(
    reply: Option<Seq<u8>>,
    service: SlaveService,
    s: StoreView,
    rtu: bool,
    frame: Seq<u8>,
) -> bool {
    match datagram_parts(frame, rtu) {
        None => reply is None,
        Some((transaction, slave, pdu)) => match unit_answer(service, s, rtu, slave, pdu) {
            None => reply is None,
            Some(answer) => exists|p: Seq<u8>|
                writes_answer(p, function_of(pdu), answer) && reply == Some(
                    #[trigger] datagram_reply(transaction, slave, p),
                ),
        },
    }
}

proof fn lemma_answers_fit(
    p: Seq<u8>,
    function: u8,
    s: StoreView,
    r: RequestView,
    response: Result<Response, ExceptionCode>,
)
    requires
        answer_view(response) == served(s, r).1,
    ensures
        response_fits(response),
        writes_response(p, function, response) ==> p.len() <= 2 + 2 * 0xFFFF,
{
}

/// Serves a datagram.
pub fn serve_datagram(
    service: &SlaveService,
    store: &mut DataStore,
    requests: &mut u64,
    frame: &[u8],
    rtu: bool,
) -> (r: DatagramOutcome)
    ensures
        final(store)@ == tables_after_datagram(*service, old(store)@, rtu, frame@),
        *final(requests) == counter_after_datagram(*service, *old(requests), rtu, frame@),
        slave_events(r.events@) == datagram_events(*service, old(store)@, rtu, frame@),
        datagram_answered(
            match r.reply {
                Some(v) => Some(v@),
                None => None,
            },
            *service,
            old(store)@,
            rtu,
            frame@,
        ),
{
    let ghost s0 = store@;
    let parts = match parse_datagram(frame, rtu) {
        Some(parts) => parts,
        None => {
            let mut events: Vec<SlaveEvent> = Vec::new();
            events.push(
                SlaveEvent::Log {
                    dir: "ERR".to_owned(),
                    text: "Discarded malformed UDP Modbus frame".to_owned(),
                },
            );
            assert(slave_events(events@) =~= datagram_events(*service, s0, rtu, frame@));
            return DatagramOutcome { events, reply: None };
        },
    };
    let function: u8 = if parts.pdu.len() > 0 {
        parts.pdu[0]
    } else {
        0
    };
    let ghost pdu = parts.pdu@;
    let mut events: Vec<SlaveEvent> = Vec::new();
    let answer: Option<Result<Response, ExceptionCode>>;
    match decode_server_request_pdu(parts.pdu.as_slice()) {
        Ok(request) => {
            let reply = service.call(store, requests, parts.slave, &request);
            events = reply.events;
            answer = reply.answer;
            proof {
                if answer is Some {
                    let a = answer->0;
                    assert forall|p: Seq<u8>| writes_response(p, function, a) implies p.len() <= 2
                        + 2 * 0xFFFF by {
                        lemma_answers_fit(p, function, s0, request@, a);
                    }
                    lemma_answers_fit(seq![], function, s0, request@, a);
                }
            }
        },
        Err(e) => {
            assert(slave_events(events@) =~= seq![]);
            answer = if rtu && parts.slave == 0 {
                None
            } else {
                Some(Err(e))
            };
        },
    }
    match answer {
        None => DatagramOutcome { events, reply: None },
        Some(a) => {
            let unit = encode_server_response_pdu(function, a);
            assert(writes_response(unit@, function, a));
            assert(writes_answer(unit@, function_of(pdu), answer_view(a)));
            let out = build_datagram(parts.transaction, parts.slave, unit.as_slice());
            DatagramOutcome { events, reply: Some(out) }
        },
    }
}

} // verus!
