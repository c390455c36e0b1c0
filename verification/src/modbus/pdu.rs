//! Requests and responses as they travel: the protocol data unit.
use crate::bytes::push_bytes;
use vstd::prelude::*;

verus! {

/// Why a server refuses a request.
#[derive(Clone, Copy, Debug, PartialEq, Eq, Structural)]
pub enum ExceptionCode {
    IllegalFunction,
    IllegalDataAddress,
    IllegalDataValue,
    ServerDeviceFailure,
    Acknowledge,
    ServerDeviceBusy,
    MemoryParityError,
    GatewayPathUnavailable,
    GatewayTargetDevice,
    Custom(u8),
}

impl ExceptionCode {
    /// The code as it travels.
    pub open spec fn code(self) -> u8 {
        match self {
            ExceptionCode::IllegalFunction => 0x01,
            ExceptionCode::IllegalDataAddress => 0x02,
            ExceptionCode::IllegalDataValue => 0x03,
            ExceptionCode::ServerDeviceFailure => 0x04,
            ExceptionCode::Acknowledge => 0x05,
            ExceptionCode::ServerDeviceBusy => 0x06,
            ExceptionCode::MemoryParityError => 0x08,
            ExceptionCode::GatewayPathUnavailable => 0x0A,
            ExceptionCode::GatewayTargetDevice => 0x0B,
            ExceptionCode::Custom(c) => c,
        }
    }

    /// The code as it travels.
    pub fn value(self) -> (r: u8)
        ensures
            r == self.code(),
    {
        match self {
            ExceptionCode::IllegalFunction => 0x01,
            ExceptionCode::IllegalDataAddress => 0x02,
            ExceptionCode::IllegalDataValue => 0x03,
            ExceptionCode::ServerDeviceFailure => 0x04,
            ExceptionCode::Acknowledge => 0x05,
            ExceptionCode::ServerDeviceBusy => 0x06,
            ExceptionCode::MemoryParityError => 0x08,
            ExceptionCode::GatewayPathUnavailable => 0x0A,
            ExceptionCode::GatewayTargetDevice => 0x0B,
            ExceptionCode::Custom(c) => c,
        }
    }

    /// The name of the exception as it is written to the log.
    pub open spec fn debug_text(self) -> Seq<char> {
        match self {
            ExceptionCode::IllegalFunction => "IllegalFunction"@,
            ExceptionCode::IllegalDataAddress => "IllegalDataAddress"@,
            ExceptionCode::IllegalDataValue => "IllegalDataValue"@,
            ExceptionCode::ServerDeviceFailure => "ServerDeviceFailure"@,
            ExceptionCode::Acknowledge => "Acknowledge"@,
            ExceptionCode::ServerDeviceBusy => "ServerDeviceBusy"@,
            ExceptionCode::MemoryParityError => "MemoryParityError"@,
            ExceptionCode::GatewayPathUnavailable => "GatewayPathUnavailable"@,
            ExceptionCode::GatewayTargetDevice => "GatewayTargetDevice"@,
            ExceptionCode::Custom(c) => "Custom("@ + crate::text::decimal(c as nat) + ")"@,
        }
    }

    /// The name of the exception as it is written to the log.
    pub fn debug_name(self) -> (r: String)
        ensures
            r@ == self.debug_text(),
    {
        match self {
            ExceptionCode::IllegalFunction => "IllegalFunction".to_owned(),
            ExceptionCode::IllegalDataAddress => "IllegalDataAddress".to_owned(),
            ExceptionCode::IllegalDataValue => "IllegalDataValue".to_owned(),
            ExceptionCode::ServerDeviceFailure => "ServerDeviceFailure".to_owned(),
            ExceptionCode::Acknowledge => "Acknowledge".to_owned(),
            ExceptionCode::ServerDeviceBusy => "ServerDeviceBusy".to_owned(),
            ExceptionCode::MemoryParityError => "MemoryParityError".to_owned(),
            ExceptionCode::GatewayPathUnavailable => "GatewayPathUnavailable".to_owned(),
            ExceptionCode::GatewayTargetDevice => "GatewayTargetDevice".to_owned(),
            ExceptionCode::Custom(c) => {
                let mut out = "Custom(".to_owned();
                crate::text::push_decimal(&mut out, c as u64);
                out.push_str(")");
                out
            },
        }
    }
}

/// A request to a server.
#[derive(Debug)]
pub enum Request {
    ReadCoils(u16, u16),
    ReadDiscreteInputs(u16, u16),
    ReadHoldingRegisters(u16, u16),
    ReadInputRegisters(u16, u16),
    WriteSingleCoil(u16, bool),
    WriteSingleRegister(u16, u16),
    WriteMultipleCoils(u16, Vec<bool>),
    WriteMultipleRegisters(u16, Vec<u16>),
    MaskWriteRegister(u16, u16, u16),
    /// Read address and quantity, write address and values.
    ReadWriteMultipleRegisters(u16, u16, u16, Vec<u16>),
    /// A function that the server does not serve, in words for the log.
    Unserved(String),
}

/// What a request says, with its values as sequences.
pub enum RequestView {
    ReadCoils(u16, u16),
    ReadDiscreteInputs(u16, u16),
    ReadHoldingRegisters(u16, u16),
    ReadInputRegisters(u16, u16),
    WriteSingleCoil(u16, bool),
    WriteSingleRegister(u16, u16),
    WriteMultipleCoils(u16, Seq<bool>),
    WriteMultipleRegisters(u16, Seq<u16>),
    MaskWriteRegister(u16, u16, u16),
    ReadWriteMultipleRegisters(u16, u16, u16, Seq<u16>),
    Unserved(Seq<char>),
}

impl View for Request {
    type V = RequestView;

    open spec fn view(&self) -> RequestView {
        match *self {
            Request::ReadCoils(a, q) => RequestView::ReadCoils(a, q),
            Request::ReadDiscreteInputs(a, q) => RequestView::ReadDiscreteInputs(a, q),
            Request::ReadHoldingRegisters(a, q) => RequestView::ReadHoldingRegisters(a, q),
            Request::ReadInputRegisters(a, q) => RequestView::ReadInputRegisters(a, q),
            Request::WriteSingleCoil(a, v) => RequestView::WriteSingleCoil(a, v),
            Request::WriteSingleRegister(a, v) => RequestView::WriteSingleRegister(a, v),
            Request::WriteMultipleCoils(a, v) => RequestView::WriteMultipleCoils(a, v@),
            Request::WriteMultipleRegisters(a, v) => RequestView::WriteMultipleRegisters(a, v@),
            Request::MaskWriteRegister(a, x, y) => RequestView::MaskWriteRegister(a, x, y),
            Request::ReadWriteMultipleRegisters(a, q, w, v) =>
                RequestView::ReadWriteMultipleRegisters(a, q, w, v@),
            Request::Unserved(words) => RequestView::Unserved(words@),
        }
    }
}

/// A response of a server.
#[derive(Debug)]
pub enum Response {
    ReadCoils(Vec<bool>),
    ReadDiscreteInputs(Vec<bool>),
    ReadHoldingRegisters(Vec<u16>),
    ReadInputRegisters(Vec<u16>),
    WriteSingleCoil(u16, bool),
    WriteSingleRegister(u16, u16),
    WriteMultipleCoils(u16, u16),
    WriteMultipleRegisters(u16, u16),
    ReportServerId(u8, bool, Vec<u8>),
    MaskWriteRegister(u16, u16, u16),
    ReadWriteMultipleRegisters(Vec<u16>),
    /// A device identification, which this server does not give.
    ReadDeviceIdentification,
    Custom(u8, Vec<u8>),
}

impl Response {
    /// The function code of the response.
    pub open spec fn function(&self) -> u8 {
        match *self {
            Response::ReadCoils(_) => 0x01,
            Response::ReadDiscreteInputs(_) => 0x02,
            Response::ReadHoldingRegisters(_) => 0x03,
            Response::ReadInputRegisters(_) => 0x04,
            Response::WriteSingleCoil(_, _) => 0x05,
            Response::WriteSingleRegister(_, _) => 0x06,
            Response::WriteMultipleCoils(_, _) => 0x0F,
            Response::WriteMultipleRegisters(_, _) => 0x10,
            Response::ReportServerId(_, _, _) => 0x11,
            Response::MaskWriteRegister(_, _, _) => 0x16,
            Response::ReadWriteMultipleRegisters(_) => 0x17,
            Response::ReadDeviceIdentification => 0x2B,
            Response::Custom(c, _) => c,
        }
    }

    /// The function code of the response.
    pub fn function_code(&self) -> (r: u8)
        ensures
            r == self.function(),
    {
        match self {
            Response::ReadCoils(_) => 0x01,
            Response::ReadDiscreteInputs(_) => 0x02,
            Response::ReadHoldingRegisters(_) => 0x03,
            Response::ReadInputRegisters(_) => 0x04,
            Response::WriteSingleCoil(_, _) => 0x05,
            Response::WriteSingleRegister(_, _) => 0x06,
            Response::WriteMultipleCoils(_, _) => 0x0F,
            Response::WriteMultipleRegisters(_, _) => 0x10,
            Response::ReportServerId(_, _, _) => 0x11,
            Response::MaskWriteRegister(_, _, _) => 0x16,
            Response::ReadWriteMultipleRegisters(_) => 0x17,
            Response::ReadDeviceIdentification => 0x2B,
            Response::Custom(c, _) => *c,
        }
    }
}

// ---------------------------------------------------------------- numbers and bits

/// The 16-bit number at `i`, most significant byte first.
pub open spec fn be16(s: Seq<u8>, i: int) -> u16 {
    (s[i] * 256 + s[i + 1]) as u16
}

/// The two bytes of a 16-bit number, most significant first.
pub open spec fn be_bytes(v: u16) -> Seq<u8> {
    seq![(v / 256) as u8, (v % 256) as u8]
}

/// Bit `k` of a byte, the least significant at zero.
pub open spec fn bit_of(b: u8, k: u8) -> bool {
    b & (1u8 << k) != 0
}

/// The 16-bit numbers of bytes, two each.
pub open spec fn words_at(s: Seq<u8>, from: int, n: nat) -> Seq<u16> {
    Seq::new(n, |i: int| be16(s, from + 2 * i))
}

/// The bits of bytes, eight each, the least significant first.
pub open spec fn bits_at(s: Seq<u8>, from: int, n: nat) -> Seq<bool> {
    Seq::new(n, |i: int| bit_of(s[from + i / 8], (i % 8) as u8))
}

/// The number at an offset, where both of its bytes are there.
pub fn pdu_u16(data: &[u8], offset: usize) -> (r: Option<u16>)
    requires
        offset < usize::MAX - 2,
    ensures
        r is Some <==> offset + 2 <= data@.len(),
        r matches Some(v) ==> v == be16(data@, offset as int),
{
    if offset + 2 <= data.len() {
        Some(data[offset] as u16 * 256 + data[offset + 1] as u16)
    } else {
        None
    }
}

fn word(data: &[u8], at: usize) -> (r: u16)
    requires
        at + 2 <= data@.len(),
    ensures
        r == be16(data@, at as int),
{
    data[at] as u16 * 256 + data[at + 1] as u16
}

fn words(data: &[u8], from: usize, n: usize) -> (r: Vec<u16>)
    requires
        from + 2 * n <= data@.len(),
    ensures
        r@ == words_at(data@, from as int, n as nat),
{
    let mut out: Vec<u16> = Vec::new();
    let len: usize = data.len();
    let mut i: usize = 0;
    while i < n
        invariant
            i <= n,
            len == data@.len(),
            from + 2 * n <= len,
            out@ == words_at(data@, from as int, i as nat),
        decreases n - i,
    {
        out.push(word(data, from + 2 * i));
        assert(out@ =~= words_at(data@, from as int, (i + 1) as nat));
        i += 1;
    }
    out
}

fn bits(data: &[u8], from: usize, n: usize) -> (r: Vec<bool>)
    requires
        n <= 0xffff,
        from + (n + 7) / 8 <= data@.len(),
    ensures
        r@ == bits_at(data@, from as int, n as nat),
{
    let mut out: Vec<bool> = Vec::new();
    let len: usize = data.len();
    let mut i: usize = 0;
    while i < n
        invariant
            i <= n,
            n <= 0xffff,
            len == data@.len(),
            from + (n + 7) / 8 <= len,
            out@ == bits_at(data@, from as int, i as nat),
        decreases n - i,
    {
        let k: u8 = (i % 8) as u8;
        out.push(data[from + i / 8] & (1u8 << k) != 0);
        assert(out@ =~= bits_at(data@, from as int, (i + 1) as nat));
        i += 1;
    }
    out
}

// ---------------------------------------------------------------- requests

/// The request that a unit writes, or why it is refused.
pub open spec fn decoded(p: Seq<u8>) -> Result<RequestView, ExceptionCode> {
    let bad = Err(ExceptionCode::IllegalDataValue);
    if p.len() == 0 || p.len() > 253 {
        bad
    } else if p[0] == 0x01 || p[0] == 0x02 || p[0] == 0x03 || p[0] == 0x04 || p[0] == 0x05 || p[0]
        == 0x06 {
        if p.len() != 5 {
            bad
        } else {
            let a = be16(p, 1);
            let v = be16(p, 3);
            if p[0] == 0x01 {
                Ok(RequestView::ReadCoils(a, v))
            } else if p[0] == 0x02 {
                Ok(RequestView::ReadDiscreteInputs(a, v))
            } else if p[0] == 0x03 {
                Ok(RequestView::ReadHoldingRegisters(a, v))
            } else if p[0] == 0x04 {
                Ok(RequestView::ReadInputRegisters(a, v))
            } else if p[0] == 0x06 {
                Ok(RequestView::WriteSingleRegister(a, v))
            } else if v == 0xFF00 {
                Ok(RequestView::WriteSingleCoil(a, true))
            } else if v == 0 {
                Ok(RequestView::WriteSingleCoil(a, false))
            } else {
                bad
            }
        }
    } else if p[0] == 0x0F {
        if p.len() >= 6 && p.len() == 6 + p[5] && p[5] == (be16(p, 3) + 7) / 8 {
            Ok(RequestView::WriteMultipleCoils(be16(p, 1), bits_at(p, 6, be16(p, 3) as nat)))
        } else {
            bad
        }
    } else if p[0] == 0x10 {
        if p.len() >= 6 && p.len() == 6 + p[5] && p[5] == 2 * be16(p, 3) {
            Ok(RequestView::WriteMultipleRegisters(be16(p, 1), words_at(p, 6, be16(p, 3) as nat)))
        } else {
            bad
        }
    } else if p[0] == 0x16 {
        if p.len() == 7 {
            Ok(RequestView::MaskWriteRegister(be16(p, 1), be16(p, 3), be16(p, 5)))
        } else {
            bad
        }
    } else if p[0] == 0x17 {
        if p.len() >= 10 && p.len() == 10 + p[9] && p[9] == 2 * be16(p, 7) {
            Ok(
                RequestView::ReadWriteMultipleRegisters(
                    be16(p, 1),
                    be16(p, 3),
                    be16(p, 5),
                    words_at(p, 10, be16(p, 7) as nat),
                ),
            )
        } else {
            bad
        }
    } else {
        Err(ExceptionCode::IllegalFunction)
    }
}

/// Reads a request.
pub fn decode_server_request_pdu(pdu: &[u8]) -> (r: Result<Request, ExceptionCode>)
    ensures
        match r {
            Ok(request) => decoded(pdu@) == Ok::<RequestView, ExceptionCode>(request@),
            Err(code) => decoded(pdu@) == Err::<RequestView, ExceptionCode>(code),
        },
{
    let n: usize = pdu.len();
    if n > 253 || n == 0 {
        return Err(ExceptionCode::IllegalDataValue);
    }
    let function: u8 = pdu[0];
    if 1 <= function && function <= 6 {
        if n != 5 {
            return Err(ExceptionCode::IllegalDataValue);
        }
        let a: u16 = word(pdu, 1);
        let v: u16 = word(pdu, 3);
        return if function == 1 {
            Ok(Request::ReadCoils(a, v))
        } else if function == 2 {
            Ok(Request::ReadDiscreteInputs(a, v))
        } else if function == 3 {
            Ok(Request::ReadHoldingRegisters(a, v))
        } else if function == 4 {
            Ok(Request::ReadInputRegisters(a, v))
        } else if function == 6 {
            Ok(Request::WriteSingleRegister(a, v))
        } else if v == 0xFF00 {
            Ok(Request::WriteSingleCoil(a, true))
        } else if v == 0 {
            Ok(Request::WriteSingleCoil(a, false))
        } else {
            Err(ExceptionCode::IllegalDataValue)
        };
    }
    if function == 0x0F {
        if n < 6 {
            return Err(ExceptionCode::IllegalDataValue);
        }
        let quantity: usize = word(pdu, 3) as usize;
        let count: usize = pdu[5] as usize;
        if n != 6 + count || count != (quantity + 7) / 8 {
            return Err(ExceptionCode::IllegalDataValue);
        }
        return Ok(Request::WriteMultipleCoils(word(pdu, 1), bits(pdu, 6, quantity)));
    }
    if function == 0x10 {
        if n < 6 {
            return Err(ExceptionCode::IllegalDataValue);
        }
        let quantity: usize = word(pdu, 3) as usize;
        let count: usize = pdu[5] as usize;
        if n != 6 + count || count != quantity * 2 {
            return Err(ExceptionCode::IllegalDataValue);
        }
        return Ok(Request::WriteMultipleRegisters(word(pdu, 1), words(pdu, 6, quantity)));
    }
    if function == 0x16 {
        if n != 7 {
            return Err(ExceptionCode::IllegalDataValue);
        }
        return Ok(Request::MaskWriteRegister(word(pdu, 1), word(pdu, 3), word(pdu, 5)));
    }
    if function == 0x17 {
        if n < 10 {
            return Err(ExceptionCode::IllegalDataValue);
        }
        let quantity: usize = word(pdu, 7) as usize;
        let count: usize = pdu[9] as usize;
        if n != 10 + count || count != quantity * 2 {
            return Err(ExceptionCode::IllegalDataValue);
        }
        return Ok(
            Request::ReadWriteMultipleRegisters(
                word(pdu, 1),
                word(pdu, 3),
                word(pdu, 5),
                words(pdu, 10, quantity),
            ),
        );
    }
    Err(ExceptionCode::IllegalFunction)
}

/// The bytes of 16-bit numbers, most significant first.
pub open spec fn words_bytes(v: Seq<u16>) -> Seq<u8> {
    Seq::new(
        2 * v.len(),
        |i: int|
            if i % 2 == 0 {
                (v[i / 2] / 256) as u8
            } else {
                (v[i / 2] % 256) as u8
            },
    )
}

/// Whether bytes pack bits, eight each, the least significant first.
pub open spec fn packs(bytes: Seq<u8>, v: Seq<bool>) -> bool {
    &&& bytes.len() == (v.len() + 7) / 8
    &&& forall|i: int| 0 <= i < v.len() ==> #[trigger] v[i] == bit_of(bytes[i / 8], (i % 8) as u8)
}

/// Whether a unit writes a request as the protocol has it.
pub open spec fn writes_request(p: Seq<u8>, r: RequestView) -> bool {
    match r {
        RequestView::ReadCoils(a, q) => p == seq![0x01u8] + be_bytes(a) + be_bytes(q),
        RequestView::ReadDiscreteInputs(a, q) => p == seq![0x02u8] + be_bytes(a) + be_bytes(q),
        RequestView::ReadHoldingRegisters(a, q) => p == seq![0x03u8] + be_bytes(a) + be_bytes(q),
        RequestView::ReadInputRegisters(a, q) => p == seq![0x04u8] + be_bytes(a) + be_bytes(q),
        RequestView::WriteSingleCoil(a, v) => p == seq![0x05u8] + be_bytes(a) + be_bytes(
            if v { 0xFF00 } else { 0 },
        ),
        RequestView::WriteSingleRegister(a, v) => p == seq![0x06u8] + be_bytes(a) + be_bytes(v),
        RequestView::WriteMultipleCoils(a, v) => {
            let head = seq![0x0Fu8] + be_bytes(a) + be_bytes(v.len() as u16) + seq![
                ((v.len() + 7) / 8) as u8,
            ];
            &&& v.len() <= 1968
            &&& p.len() >= 6
            &&& p.take(6) == head
            &&& packs(p.skip(6), v)
        },
        RequestView::WriteMultipleRegisters(a, v) => v.len() <= 123 && p == seq![0x10u8]
            + be_bytes(a) + be_bytes(v.len() as u16) + seq![(2 * v.len()) as u8] + words_bytes(v),
        RequestView::MaskWriteRegister(a, x, y) => p == seq![0x16u8] + be_bytes(a) + be_bytes(x)
            + be_bytes(y),
        RequestView::ReadWriteMultipleRegisters(a, q, w, v) => v.len() <= 121 && p == seq![0x17u8]
            + be_bytes(a) + be_bytes(q) + be_bytes(w) + be_bytes(v.len() as u16) + seq![
            (2 * v.len()) as u8,
        ] + words_bytes(v),
        RequestView::Unserved(_) => false,
    }
}

proof fn lemma_coils_read_as_written(p: Seq<u8>, a: u16, v: Seq<bool>)
    requires
        writes_request(p, RequestView::WriteMultipleCoils(a, v)),
    ensures
        decoded(p) == Ok::<RequestView, ExceptionCode>(RequestView::WriteMultipleCoils(a, v)),
{
    let head = p.take(6);
    assert(p[0] == head[0] && p[1] == head[1] && p[2] == head[2] && p[3] == head[3] && p[4]
        == head[4] && p[5] == head[5]);
    assert(be16(p, 1) == a);
    assert(be16(p, 3) == v.len());
    assert(p.len() == 6 + p.skip(6).len());
    assert forall|i: int| 0 <= i < v.len() implies #[trigger] bits_at(p, 6, v.len())[i] == v[i] by {
        assert(p.skip(6)[i / 8] == p[6 + i / 8]);
        assert(v[i] == bit_of(p.skip(6)[i / 8], (i % 8) as u8));
    }
    assert(bits_at(p, 6, v.len()) =~= v);
}

proof fn lemma_words_after(p: Seq<u8>, head: Seq<u8>, v: Seq<u16>)
    requires
        p == head + words_bytes(v),
    ensures
        words_at(p, head.len() as int, v.len()) == v,
        p.len() == head.len() + 2 * v.len(),
        forall|i: int| 0 <= i < head.len() ==> p[i] == head[i],
{
    let n = head.len() as int;
    assert forall|i: int| 0 <= i < v.len() implies #[trigger] words_at(p, n, v.len())[i] == v[i] by {
        assert(p[n + 2 * i] == words_bytes(v)[2 * i]);
        assert(p[n + 2 * i + 1] == words_bytes(v)[2 * i + 1]);
    }
    assert(words_at(p, n, v.len()) =~= v);
}

proof fn lemma_registers_read_as_written(p: Seq<u8>, a: u16, v: Seq<u16>)
    requires
        writes_request(p, RequestView::WriteMultipleRegisters(a, v)),
    ensures
        decoded(p) == Ok::<RequestView, ExceptionCode>(RequestView::WriteMultipleRegisters(a, v)),
{
    let head = seq![0x10u8] + be_bytes(a) + be_bytes(v.len() as u16) + seq![(2 * v.len()) as u8];
    assert(head.len() == 6);
    lemma_words_after(p, head, v);
    assert(p[0] == head[0] && p[1] == head[1] && p[2] == head[2] && p[3] == head[3] && p[4]
        == head[4] && p[5] == head[5]);
    assert(be16(p, 1) == a);
    assert(be16(p, 3) == v.len());
}

proof fn lemma_exchange_read_as_written(p: Seq<u8>, a: u16, q: u16, w: u16, v: Seq<u16>)
    requires
        writes_request(p, RequestView::ReadWriteMultipleRegisters(a, q, w, v)),
    ensures
        decoded(p) == Ok::<RequestView, ExceptionCode>(
            RequestView::ReadWriteMultipleRegisters(a, q, w, v),
        ),
{
    let head = seq![0x17u8] + be_bytes(a) + be_bytes(q) + be_bytes(w) + be_bytes(v.len() as u16)
        + seq![(2 * v.len()) as u8];
    assert(head.len() == 10);
    lemma_words_after(p, head, v);
    assert(p[0] == head[0] && p[1] == head[1] && p[2] == head[2] && p[3] == head[3] && p[4]
        == head[4] && p[5] == head[5] && p[6] == head[6] && p[7] == head[7] && p[8] == head[8]
        && p[9] == head[9]);
    assert(be16(p, 1) == a);
    assert(be16(p, 3) == q);
    assert(be16(p, 5) == w);
    assert(be16(p, 7) == v.len());
}

/// What a client writes the server reads: a unit that writes a request, within the limits of the
/// protocol, is read as that request.
pub proof fn law_requests_are_read_as_written(p: Seq<u8>, r: RequestView)
    requires
        writes_request(p, r),
    ensures
        decoded(p) == Ok::<RequestView, ExceptionCode>(r),
{
    match r {
        RequestView::WriteMultipleCoils(a, v) => {
            lemma_coils_read_as_written(p, a, v);
        },
        RequestView::WriteMultipleRegisters(a, v) => {
            lemma_registers_read_as_written(p, a, v);
        },
        RequestView::ReadWriteMultipleRegisters(a, q, w, v) => {
            lemma_exchange_read_as_written(p, a, q, w, v);
        },
        RequestView::MaskWriteRegister(a, x, y) => {
            assert(be16(p, 1) == a);
            assert(be16(p, 3) == x);
            assert(be16(p, 5) == y);
        },
        RequestView::WriteSingleCoil(a, v) => {
            assert(be16(p, 1) == a);
            assert(be16(p, 3) == if v { 0xFF00u16 } else { 0u16 });
        },
        RequestView::WriteSingleRegister(a, v) => {
            assert(be16(p, 1) == a);
            assert(be16(p, 3) == v);
        },
        RequestView::ReadCoils(a, q)
        | RequestView::ReadDiscreteInputs(a, q)
        | RequestView::ReadHoldingRegisters(a, q)
        | RequestView::ReadInputRegisters(a, q) => {
            assert(be16(p, 1) == a);
            assert(be16(p, 3) == q);
        },
        RequestView::Unserved(_) => {},
    }
}

// ---------------------------------------------------------------- responses

/// A response with bits: function code, byte count, bits packed eight to a byte with zeros after
/// the last.
pub open spec fn writes_bits(p: Seq<u8>, function: u8, v: Seq<bool>) -> bool {
    &&& p.len() == 2 + (v.len() + 7) / 8
    &&& p[0] == function
    &&& p[1] == ((v.len() + 7) / 8) % 256
    &&& packs(p.skip(2), v)
    &&& forall|i: int|
        v.len() <= i < 8 * ((v.len() + 7) / 8) ==> !#[trigger] bit_of(p[2 + i / 8], (i % 8) as u8)
}

/// A response with registers: function code, byte count, registers.
pub open spec fn words_response(function: u8, v: Seq<u16>) -> Seq<u8> {
    seq![function, ((2 * v.len()) % 256) as u8] + words_bytes(v)
}

/// Whether a unit writes a response as the protocol has it. The reply to what the server does not
/// give is an exception for the function that was asked for.
pub open spec fn writes_response(
    p: Seq<u8>,
    function: u8,
    response: Result<Response, ExceptionCode>,
) -> bool {
    match response {
        Err(code) => p == seq![function | 0x80, code.code()],
        Ok(Response::ReadCoils(v)) => writes_bits(p, 0x01, v@),
        Ok(Response::ReadDiscreteInputs(v)) => writes_bits(p, 0x02, v@),
        Ok(Response::ReadHoldingRegisters(v)) => p == words_response(0x03, v@),
        Ok(Response::ReadInputRegisters(v)) => p == words_response(0x04, v@),
        Ok(Response::ReadWriteMultipleRegisters(v)) => p == words_response(0x17, v@),
        Ok(Response::WriteSingleCoil(a, v)) => p == seq![0x05u8] + be_bytes(a) + be_bytes(
            if v { 0xFF00 } else { 0 },
        ),
        Ok(Response::WriteSingleRegister(a, v)) => p == seq![0x06u8] + be_bytes(a) + be_bytes(v),
        Ok(Response::WriteMultipleCoils(a, q)) => p == seq![0x0Fu8] + be_bytes(a) + be_bytes(q),
        Ok(Response::WriteMultipleRegisters(a, q)) => p == seq![0x10u8] + be_bytes(a) + be_bytes(q),
        Ok(Response::MaskWriteRegister(a, x, y)) => p == seq![0x16u8] + be_bytes(a) + be_bytes(x)
            + be_bytes(y),
        Ok(Response::ReportServerId(id, running, more)) => p == seq![
            0x11u8,
            ((more@.len() + 2) % 256) as u8,
            id,
            if running { 0xFFu8 } else { 0u8 },
        ] + more@,
        Ok(Response::Custom(c, bytes)) => p == seq![c] + bytes@,
        Ok(Response::ReadDeviceIdentification) => p == seq![function | 0x80, 0x01u8],
    }
}

fn push_word(out: &mut Vec<u8>, v: u16)
    ensures
        final(out)@ == old(out)@ + be_bytes(v),
{
    let ghost before = out@;
    out.push((v / 256) as u8);
    out.push((v % 256) as u8);
    assert(out@ =~= before + be_bytes(v));
}

fn push_words(out: &mut Vec<u8>, v: &[u16])
    ensures
        final(out)@ == old(out)@ + words_bytes(v@),
{
    let ghost before = out@;
    let mut i: usize = 0;
    assert(before + words_bytes(v@.take(0)) =~= before);
    while i < v.len()
        invariant
            i <= v.len(),
            out@ == before + words_bytes(v@.take(i as int)),
        decreases v.len() - i,
    {
        push_word(out, v[i]);
        assert(out@ =~= before + words_bytes(v@.take(i + 1)));
        i += 1;
    }
    assert(v@.take(i as int) =~= v@);
}

proof fn lemma_set_bit(b: u8, k: u8, j: u8)
    requires
        k < 8,
        j < 8,
    ensures
        bit_of(b | (1u8 << k), k),
        j != k ==> bit_of(b | (1u8 << k), j) == bit_of(b, j),
        !bit_of(0, j),
{
    assert(k < 8 ==> (b | (1u8 << k)) & (1u8 << k) != 0) by (bit_vector);
    assert(k < 8 && j < 8 && j != k ==> ((b | (1u8 << k)) & (1u8 << j) != 0) == (b & (1u8 << j)
        != 0)) by (bit_vector);
    assert(0u8 & (1u8 << j) == 0) by (bit_vector);
}

fn bits_response(function: u8, v: &[bool]) -> (r: Vec<u8>)
    requires
        v@.len() <= 0x7fff_fff0,
    ensures
        writes_bits(r@, function, v@),
{
    let count: usize = (v.len() + 7) / 8;
    let mut out: Vec<u8> = Vec::new();
    out.push(function);
    out.push((count % 256) as u8);
    let mut i: usize = 0;
    while i < count
        invariant
            i <= count,
            out@.len() == 2 + i,
            out@[0] == function,
            out@[1] == count % 256,
            forall|j: int| 2 <= j < out@.len() ==> out@[j] == 0,
        decreases count - i,
    {
        out.push(0);
        i += 1;
    }
    proof {
        assert forall|m: int| 0 <= m < 8 * count implies !#[trigger] bit_of(
            out@[2 + m / 8],
            (m % 8) as u8,
        ) by {
            lemma_set_bit(0, 0, (m % 8) as u8);
        }
    }
    let mut i: usize = 0;
    while i < v.len()
        invariant
            i <= v@.len(),
            v@.len() <= 0x7fff_fff0,
            count == (v@.len() + 7) / 8,
            out@.len() == 2 + count,
            out@[0] == function,
            out@[1] == count % 256,
            forall|m: int|
                0 <= m < i ==> #[trigger] bit_of(out@[2 + m / 8], (m % 8) as u8) == v@[m],
            forall|m: int|
                i <= m < 8 * count ==> !#[trigger] bit_of(out@[2 + m / 8], (m % 8) as u8),
        decreases v@.len() - i,
    {
        if v[i] {
            let k: u8 = (i % 8) as u8;
            let at: usize = 2 + i / 8;
            let old_byte: u8 = out[at];
            let ghost before = out@;
            out.set(at, old_byte | (1u8 << k));
            proof {
                assert forall|m: int| 0 <= m < 8 * count implies #[trigger] bit_of(
                    out@[2 + m / 8],
                    (m % 8) as u8,
                ) == (if m == i {
                    true
                } else {
                    bit_of(before[2 + m / 8], (m % 8) as u8)
                }) by {
                    lemma_set_bit(old_byte, k, (m % 8) as u8);
                    if m != i && m / 8 == i as int / 8 {
                        assert(m % 8 != i as int % 8);
                    }
                }
            }
        }
        i += 1;
    }
    proof {
        assert forall|m: int| 0 <= m < v@.len() implies #[trigger] v@[m] == bit_of(
            out@.skip(2)[m / 8],
            (m % 8) as u8,
        ) by {
            assert(out@.skip(2)[m / 8] == out@[2 + m / 8]);
            assert(bit_of(out@[2 + m / 8], (m % 8) as u8) == v@[m]);
        }
    }
    out
}

fn registers_response(function: u8, v: &[u16]) -> (r: Vec<u8>)
    requires
        v@.len() <= 0x7fff_fff0,
    ensures
        r@ == words_response(function, v@),
{
    let mut out: Vec<u8> = Vec::new();
    out.push(function);
    out.push(((v.len() * 2) % 256) as u8);
    push_words(&mut out, v);
    assert(out@ =~= words_response(function, v@));
    out
}

/// Whether a response is short enough to be held in memory twice over.
pub open spec fn response_fits(response: Result<Response, ExceptionCode>) -> bool {
    match response {
        Ok(Response::ReadCoils(v)) => v@.len() <= 0x7fff_fff0,
        Ok(Response::ReadDiscreteInputs(v)) => v@.len() <= 0x7fff_fff0,
        Ok(Response::ReadHoldingRegisters(v)) => v@.len() <= 0x7fff_fff0,
        Ok(Response::ReadInputRegisters(v)) => v@.len() <= 0x7fff_fff0,
        Ok(Response::ReadWriteMultipleRegisters(v)) => v@.len() <= 0x7fff_fff0,
        Ok(Response::ReportServerId(_, _, v)) => v@.len() <= 0x7fff_fff0,
        _ => true,
    }
}

/// Writes a response to a request with the given function code.
pub fn encode_server_response_pdu(function: u8, response: Result<Response, ExceptionCode>) -> (r: Vec<
    u8,
>)
    requires
        response_fits(response),
    ensures
        writes_response(r@, function, response),
{
    let mut out: Vec<u8> = Vec::new();
    let response = match response {
        Ok(response) => response,
        Err(code) => {
            out.push(function | 0x80);
            out.push(code.value());
            assert(out@ =~= seq![function | 0x80, code.code()]);
            return out;
        },
    };
    match response {
        Response::ReadCoils(v) => bits_response(0x01, v.as_slice()),
        Response::ReadDiscreteInputs(v) => bits_response(0x02, v.as_slice()),
        Response::ReadHoldingRegisters(v) => registers_response(0x03, v.as_slice()),
        Response::ReadInputRegisters(v) => registers_response(0x04, v.as_slice()),
        Response::ReadWriteMultipleRegisters(v) => registers_response(0x17, v.as_slice()),
        Response::WriteSingleCoil(a, v) => {
            out.push(0x05);
            push_word(&mut out, a);
            let raw: u16 = if v {
                0xFF00
            } else {
                0
            };
            push_word(&mut out, raw);
            assert(out@ =~= seq![0x05u8] + be_bytes(a) + be_bytes(raw));
            out
        },
        Response::WriteSingleRegister(a, v) => {
            out.push(0x06);
            push_word(&mut out, a);
            push_word(&mut out, v);
            assert(out@ =~= seq![0x06u8] + be_bytes(a) + be_bytes(v));
            out
        },
        Response::WriteMultipleCoils(a, q) => {
            out.push(0x0F);
            push_word(&mut out, a);
            push_word(&mut out, q);
            assert(out@ =~= seq![0x0Fu8] + be_bytes(a) + be_bytes(q));
            out
        },
        Response::WriteMultipleRegisters(a, q) => {
            out.push(0x10);
            push_word(&mut out, a);
            push_word(&mut out, q);
            assert(out@ =~= seq![0x10u8] + be_bytes(a) + be_bytes(q));
            out
        },
        Response::MaskWriteRegister(a, x, y) => {
            out.push(0x16);
            push_word(&mut out, a);
            push_word(&mut out, x);
            push_word(&mut out, y);
            assert(out@ =~= seq![0x16u8] + be_bytes(a) + be_bytes(x) + be_bytes(y));
            out
        },
        Response::ReportServerId(id, running, more) => {
            out.push(0x11);
            out.push(((more.len() + 2) % 256) as u8);
            out.push(id);
            let state: u8 = if running {
                0xFF
            } else {
                0
            };
            out.push(state);
            push_bytes(&mut out, more.as_slice());
            assert(out@ =~= seq![
                0x11u8,
                ((more@.len() + 2) % 256) as u8,
                id,
                if running { 0xFFu8 } else { 0u8 },
            ] + more@);
            out
        },
        Response::Custom(c, bytes) => {
            out.push(c);
            push_bytes(&mut out, bytes.as_slice());
            assert(out@ =~= seq![c] + bytes@);
            out
        },
        Response::ReadDeviceIdentification => {
            out.push(function | 0x80);
            out.push(ExceptionCode::IllegalFunction.value());
            assert(out@ =~= seq![function | 0x80, 0x01u8]);
            out
        },
    }
}

/// What the server writes a client reads: the registers of a response are the registers that it
/// was made of, and its byte count says how many there are.
pub proof fn law_registers_are_read_as_written(function: u8, v: Seq<u16>)
    requires
        v.len() <= 127,
    ensures
        words_response(function, v).len() == 2 + words_response(function, v)[1],
        words_at(words_response(function, v), 2, v.len()) == v,
{
    let p = words_response(function, v);
    assert forall|i: int| 0 <= i < v.len() implies #[trigger] words_at(p, 2, v.len())[i] == v[i] by {
        assert(p[2 + 2 * i] == words_bytes(v)[2 * i]);
        assert(p[2 + 2 * i + 1] == words_bytes(v)[2 * i + 1]);
    }
    assert(words_at(p, 2, v.len()) =~= v);
}

/// What the server writes a client reads: the bits of a response are the bits that it was made of.
pub proof fn law_bits_are_read_as_written(p: Seq<u8>, function: u8, v: Seq<bool>)
    requires
        writes_bits(p, function, v),
        v.len() <= 2040,
    ensures
        p.len() == 2 + p[1],
        bits_at(p, 2, v.len()) == v,
{
    assert forall|i: int| 0 <= i < v.len() implies #[trigger] bits_at(p, 2, v.len())[i] == v[i] by {
        assert(p.skip(2)[i / 8] == p[2 + i / 8]);
        assert(v[i] == bit_of(p.skip(2)[i / 8], (i % 8) as u8));
    }
    assert(bits_at(p, 2, v.len()) =~= v);
}

} // verus!
