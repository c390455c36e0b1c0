//! The data tables of the simulated server and the requests that read and write them.
use crate::modbus::pdu::{ExceptionCode, Request, RequestView, Response};
use crate::modbus::Area;
use crate::text;
use vstd::prelude::*;

verus! {

/// Entries of each table.
pub const TABLE_LEN: usize = 65536;

/// The four data tables.
#[derive(Debug)]
pub struct DataStore {
    pub coils: Vec<bool>,
    pub discrete_inputs: Vec<bool>,
    pub holding: Vec<u16>,
    pub input: Vec<u16>,
}

/// The contents of the four tables.
pub struct StoreView {
    pub coils: Seq<bool>,
    pub discrete_inputs: Seq<bool>,
    pub holding: Seq<u16>,
    pub input: Seq<u16>,
}

impl View for DataStore {
    type V = StoreView;

    open spec fn view(&self) -> StoreView {
        StoreView {
            coils: self.coils@,
            discrete_inputs: self.discrete_inputs@,
            holding: self.holding@,
            input: self.input@,
        }
    }
}

impl StoreView {
    /// Each table has an entry for every address.
    pub open spec fn complete(self) -> bool {
        &&& self.coils.len() == TABLE_LEN
        &&& self.discrete_inputs.len() == TABLE_LEN
        &&& self.holding.len() == TABLE_LEN
        &&& self.input.len() == TABLE_LEN
    }
}

impl DataStore {
    /// Tables that are all zero.
    pub fn new() -> (r: DataStore)
        ensures
            r@.complete(),
            r@.coils == Seq::new(TABLE_LEN as nat, |i: int| false),
            r@.discrete_inputs == Seq::new(TABLE_LEN as nat, |i: int| false),
            r@.holding == Seq::new(TABLE_LEN as nat, |i: int| 0u16),
            r@.input == Seq::new(TABLE_LEN as nat, |i: int| 0u16),
    {
        DataStore {
            coils: zero_bits(TABLE_LEN),
            discrete_inputs: zero_bits(TABLE_LEN),
            holding: zero_words(TABLE_LEN),
            input: zero_words(TABLE_LEN),
        }
    }
}

fn zero_bits(n: usize) -> (r: Vec<bool>)
    ensures
        r@ == Seq::new(n as nat, |i: int| false),
{
    let mut out: Vec<bool> = Vec::new();
    let mut i: usize = 0;
    while i < n
        invariant
            i <= n,
            out@ =~= Seq::new(i as nat, |i: int| false),
        decreases n - i,
    {
        out.push(false);
        i += 1;
    }
    out
}

fn zero_words(n: usize) -> (r: Vec<u16>)
    ensures
        r@ == Seq::new(n as nat, |i: int| 0u16),
{
    let mut out: Vec<u16> = Vec::new();
    let mut i: usize = 0;
    while i < n
        invariant
            i <= n,
            out@ =~= Seq::new(i as nat, |i: int| 0u16),
        decreases n - i,
    {
        out.push(0);
        i += 1;
    }
    out
}

// ---------------------------------------------------------------- access to one table

/// Whether a block lies within a table.
pub open spec fn within(len: nat, addr: u16, count: nat) -> bool {
    addr + count <= len
}

/// A table with a block replaced.
pub open spec fn overwritten<T>(mem: Seq<T>, addr: u16, values: Seq<T>) -> Seq<T> {
    Seq::new(
        mem.len(),
        |i: int|
            if addr <= i < addr + values.len() {
                values[i - addr]
            } else {
                mem[i]
            },
    )
}

/// Reads a block of bits.
pub fn read_bits(mem: &[bool], addr: u16, cnt: u16) -> (r: Result<Vec<bool>, ExceptionCode>)
    ensures
        match r {
            Ok(v) => within(mem@.len(), addr, cnt as nat) && v@ == mem@.subrange(
                addr as int,
                addr + cnt,
            ),
            Err(e) => !within(mem@.len(), addr, cnt as nat) && e
                == ExceptionCode::IllegalDataAddress,
        },
{
    let s: usize = addr as usize;
    let e: usize = s + cnt as usize;
    if e > mem.len() {
        return Err(ExceptionCode::IllegalDataAddress);
    }
    let mut out: Vec<bool> = Vec::new();
    let mut i: usize = s;
    while i < e
        invariant
            s <= i <= e <= mem@.len(),
            out@ == mem@.subrange(s as int, i as int),
        decreases e - i,
    {
        out.push(mem[i]);
        assert(out@ =~= mem@.subrange(s as int, i + 1));
        i += 1;
    }
    Ok(out)
}

/// Reads a block of registers.
pub fn read_words(mem: &[u16], addr: u16, cnt: u16) -> (r: Result<Vec<u16>, ExceptionCode>)
    ensures
        match r {
            Ok(v) => within(mem@.len(), addr, cnt as nat) && v@ == mem@.subrange(
                addr as int,
                addr + cnt,
            ),
            Err(e) => !within(mem@.len(), addr, cnt as nat) && e
                == ExceptionCode::IllegalDataAddress,
        },
{
    let s: usize = addr as usize;
    let e: usize = s + cnt as usize;
    if e > mem.len() {
        return Err(ExceptionCode::IllegalDataAddress);
    }
    let mut out: Vec<u16> = Vec::new();
    let mut i: usize = s;
    while i < e
        invariant
            s <= i <= e <= mem@.len(),
            out@ == mem@.subrange(s as int, i as int),
        decreases e - i,
    {
        out.push(mem[i]);
        assert(out@ =~= mem@.subrange(s as int, i + 1));
        i += 1;
    }
    Ok(out)
}

/// Writes one bit.
pub fn put_bit(mem: &mut Vec<bool>, addr: u16, v: bool) -> (r: Result<(), ExceptionCode>)
    ensures
        match r {
            Ok(()) => addr < old(mem)@.len() && final(mem)@ == old(mem)@.update(addr as int, v),
            Err(e) => addr >= old(mem)@.len() && e == ExceptionCode::IllegalDataAddress && final(mem)@ == old(mem)@,
        },
{
    let i: usize = addr as usize;
    if i >= mem.len() {
        return Err(ExceptionCode::IllegalDataAddress);
    }
    mem.set(i, v);
    Ok(())
}

/// Writes one register.
pub fn put_word(mem: &mut Vec<u16>, addr: u16, v: u16) -> (r: Result<(), ExceptionCode>)
    ensures
        match r {
            Ok(()) => addr < old(mem)@.len() && final(mem)@ == old(mem)@.update(addr as int, v),
            Err(e) => addr >= old(mem)@.len() && e == ExceptionCode::IllegalDataAddress && final(mem)@ == old(mem)@,
        },
{
    let i: usize = addr as usize;
    if i >= mem.len() {
        return Err(ExceptionCode::IllegalDataAddress);
    }
    mem.set(i, v);
    Ok(())
}

/// Writes a block of bits, as a whole or not at all.
pub fn put_bits(mem: &mut Vec<bool>, addr: u16, vs: &[bool]) -> (r: Result<(), ExceptionCode>)
    ensures
        match r {
            Ok(()) => within(old(mem)@.len(), addr, vs@.len()) && final(mem)@ == overwritten(
                old(mem)@,
                addr,
                vs@,
            ),
            Err(e) => !within(old(mem)@.len(), addr, vs@.len()) && e
                == ExceptionCode::IllegalDataAddress && final(mem)@ == old(mem)@,
        },
{
    let ghost before = mem@;
    let b: usize = addr as usize;
    if b > mem.len() || vs.len() > mem.len() - b {
        return Err(ExceptionCode::IllegalDataAddress);
    }
    let mut i: usize = 0;
    assert(mem@ =~= overwritten(before, addr, vs@.take(0)));
    while i < vs.len()
        invariant
            i <= vs@.len(),
            b == addr,
            b + vs@.len() <= before.len(),
            mem@ == overwritten(before, addr, vs@.take(i as int)),
        decreases vs@.len() - i,
    {
        let n: usize = mem.len();
        assert(b + i < n);
        mem.set(b + i, vs[i]);
        assert(mem@ =~= overwritten(before, addr, vs@.take(i + 1)));
        i += 1;
    }
    assert(vs@.take(i as int) =~= vs@);
    Ok(())
}

/// Writes a block of registers, as a whole or not at all.
pub fn put_words(mem: &mut Vec<u16>, addr: u16, vs: &[u16]) -> (r: Result<(), ExceptionCode>)
    ensures
        match r {
            Ok(()) => within(old(mem)@.len(), addr, vs@.len()) && final(mem)@ == overwritten(
                old(mem)@,
                addr,
                vs@,
            ),
            Err(e) => !within(old(mem)@.len(), addr, vs@.len()) && e
                == ExceptionCode::IllegalDataAddress && final(mem)@ == old(mem)@,
        },
{
    let ghost before = mem@;
    let b: usize = addr as usize;
    if b > mem.len() || vs.len() > mem.len() - b {
        return Err(ExceptionCode::IllegalDataAddress);
    }
    let mut i: usize = 0;
    assert(mem@ =~= overwritten(before, addr, vs@.take(0)));
    while i < vs.len()
        invariant
            i <= vs@.len(),
            b == addr,
            b + vs@.len() <= before.len(),
            mem@ == overwritten(before, addr, vs@.take(i as int)),
        decreases vs@.len() - i,
    {
        let n: usize = mem.len();
        assert(b + i < n);
        mem.set(b + i, vs[i]);
        assert(mem@ =~= overwritten(before, addr, vs@.take(i + 1)));
        i += 1;
    }
    assert(vs@.take(i as int) =~= vs@);
    Ok(())
}

// ---------------------------------------------------------------- requests

/// The register after a masked write.
pub open spec fn masked(current: u16, and_mask: u16, or_mask: u16) -> u16 {
    (current & and_mask) | (or_mask & !and_mask)
}

/// The tables after a request and what is answered: a refused request leaves them as they were,
/// except that the write of a combined request stays where only its read is refused.
pub open spec fn served(s: StoreView, r: RequestView) -> (StoreView, Result<ResponseView, ExceptionCode>) {
    let bad = Err(ExceptionCode::IllegalDataAddress);
    match r {
        RequestView::ReadCoils(a, c) => (
            s,
            if within(s.coils.len(), a, c as nat) {
                Ok(ResponseView::Coils(s.coils.subrange(a as int, a + c)))
            } else {
                bad
            },
        ),
        RequestView::ReadDiscreteInputs(a, c) => (
            s,
            if within(s.discrete_inputs.len(), a, c as nat) {
                Ok(ResponseView::DiscreteInputs(s.discrete_inputs.subrange(a as int, a + c)))
            } else {
                bad
            },
        ),
        RequestView::ReadHoldingRegisters(a, c) => (
            s,
            if within(s.holding.len(), a, c as nat) {
                Ok(ResponseView::HoldingRegisters(s.holding.subrange(a as int, a + c)))
            } else {
                bad
            },
        ),
        RequestView::ReadInputRegisters(a, c) => (
            s,
            if within(s.input.len(), a, c as nat) {
                Ok(ResponseView::InputRegisters(s.input.subrange(a as int, a + c)))
            } else {
                bad
            },
        ),
        RequestView::WriteSingleCoil(a, v) => if a < s.coils.len() {
            (
                StoreView { coils: s.coils.update(a as int, v), ..s },
                Ok(ResponseView::WroteCoil(a, v)),
            )
        } else {
            (s, bad)
        },
        RequestView::WriteSingleRegister(a, v) => if a < s.holding.len() {
            (
                StoreView { holding: s.holding.update(a as int, v), ..s },
                Ok(ResponseView::WroteRegister(a, v)),
            )
        } else {
            (s, bad)
        },
        RequestView::WriteMultipleCoils(a, vs) => if within(s.coils.len(), a, vs.len()) {
            (
                StoreView { coils: overwritten(s.coils, a, vs), ..s },
                Ok(ResponseView::WroteCoils(a, (vs.len() % 0x1_0000) as u16)),
            )
        } else {
            (s, bad)
        },
        RequestView::WriteMultipleRegisters(a, vs) => if within(s.holding.len(), a, vs.len()) {
            (
                StoreView { holding: overwritten(s.holding, a, vs), ..s },
                Ok(ResponseView::WroteRegisters(a, (vs.len() % 0x1_0000) as u16)),
            )
        } else {
            (s, bad)
        },
        RequestView::MaskWriteRegister(a, x, y) => if a < s.holding.len() {
            (
                StoreView {
                    holding: s.holding.update(a as int, masked(s.holding[a as int], x, y)),
                    ..s
                },
                Ok(ResponseView::MaskedRegister(a, x, y)),
            )
        } else {
            (s, bad)
        },
        RequestView::ReadWriteMultipleRegisters(ra, rc, wa, vs) => if within(
            s.holding.len(),
            wa,
            vs.len(),
        ) {
            let holding = overwritten(s.holding, wa, vs);
            (
                StoreView { holding, ..s },
                if within(holding.len(), ra, rc as nat) {
                    Ok(ResponseView::Exchanged(holding.subrange(ra as int, ra + rc)))
                } else {
                    bad
                },
            )
        } else {
            (s, bad)
        },
        RequestView::Unserved(_) => (s, Err(ExceptionCode::IllegalFunction)),
    }
}

/// What a response says.
pub enum ResponseView {
    Coils(Seq<bool>),
    DiscreteInputs(Seq<bool>),
    HoldingRegisters(Seq<u16>),
    InputRegisters(Seq<u16>),
    WroteCoil(u16, bool),
    WroteRegister(u16, u16),
    WroteCoils(u16, u16),
    WroteRegisters(u16, u16),
    MaskedRegister(u16, u16, u16),
    Exchanged(Seq<u16>),
    Other(Response),
}

/// What a response says.
pub open spec fn response_view(r: Response) -> ResponseView {
    match r {
        Response::ReadCoils(v) => ResponseView::Coils(v@),
        Response::ReadDiscreteInputs(v) => ResponseView::DiscreteInputs(v@),
        Response::ReadHoldingRegisters(v) => ResponseView::HoldingRegisters(v@),
        Response::ReadInputRegisters(v) => ResponseView::InputRegisters(v@),
        Response::WriteSingleCoil(a, v) => ResponseView::WroteCoil(a, v),
        Response::WriteSingleRegister(a, v) => ResponseView::WroteRegister(a, v),
        Response::WriteMultipleCoils(a, q) => ResponseView::WroteCoils(a, q),
        Response::WriteMultipleRegisters(a, q) => ResponseView::WroteRegisters(a, q),
        Response::MaskWriteRegister(a, x, y) => ResponseView::MaskedRegister(a, x, y),
        Response::ReadWriteMultipleRegisters(v) => ResponseView::Exchanged(v@),
        _ => ResponseView::Other(r),
    }
}

/// What is answered.
pub open spec fn answer_view(r: Result<Response, ExceptionCode>) -> Result<ResponseView, ExceptionCode> {
    match r {
        Ok(response) => Ok(response_view(response)),
        Err(e) => Err(e),
    }
}

/// Serves a request from the tables.
pub fn handle_request(store: &mut DataStore, req: &Request) -> (r: Result<Response, ExceptionCode>)
    ensures
        final(store)@ == served(old(store)@, req@).0,
        answer_view(r) == served(old(store)@, req@).1,
{
    match req {
        Request::ReadCoils(a, c) => match read_bits(store.coils.as_slice(), *a, *c) {
            Ok(v) => Ok(Response::ReadCoils(v)),
            Err(e) => Err(e),
        },
        Request::ReadDiscreteInputs(a, c) => match read_bits(
            store.discrete_inputs.as_slice(),
            *a,
            *c,
        ) {
            Ok(v) => Ok(Response::ReadDiscreteInputs(v)),
            Err(e) => Err(e),
        },
        Request::ReadHoldingRegisters(a, c) => match read_words(store.holding.as_slice(), *a, *c) {
            Ok(v) => Ok(Response::ReadHoldingRegisters(v)),
            Err(e) => Err(e),
        },
        Request::ReadInputRegisters(a, c) => match read_words(store.input.as_slice(), *a, *c) {
            Ok(v) => Ok(Response::ReadInputRegisters(v)),
            Err(e) => Err(e),
        },
        Request::WriteSingleCoil(a, v) => match put_bit(&mut store.coils, *a, *v) {
            Ok(()) => Ok(Response::WriteSingleCoil(*a, *v)),
            Err(e) => Err(e),
        },
        Request::WriteSingleRegister(a, v) => match put_word(&mut store.holding, *a, *v) {
            Ok(()) => Ok(Response::WriteSingleRegister(*a, *v)),
            Err(e) => Err(e),
        },
        Request::WriteMultipleCoils(a, vs) => match put_bits(
            &mut store.coils,
            *a,
            vs.as_slice(),
        ) {
            Ok(()) => Ok(Response::WriteMultipleCoils(*a, (vs.len() % 0x1_0000) as u16)),
            Err(e) => Err(e),
        },
        Request::WriteMultipleRegisters(a, vs) => match put_words(
            &mut store.holding,
            *a,
            vs.as_slice(),
        ) {
            Ok(()) => Ok(Response::WriteMultipleRegisters(*a, (vs.len() % 0x1_0000) as u16)),
            Err(e) => Err(e),
        },
        Request::MaskWriteRegister(a, and_mask, or_mask) => {
            let i: usize = *a as usize;
            if i >= store.holding.len() {
                return Err(ExceptionCode::IllegalDataAddress);
            }
            let current: u16 = store.holding[i];
            store.holding.set(i, (current & *and_mask) | (*or_mask & !*and_mask));
            Ok(Response::MaskWriteRegister(*a, *and_mask, *or_mask))
        },
        Request::ReadWriteMultipleRegisters(read_addr, read_qty, write_addr, vs) => match put_words(
            &mut store.holding,
            *write_addr,
            vs.as_slice(),
        ) {
            Err(e) => Err(e),
            Ok(()) => match read_words(store.holding.as_slice(), *read_addr, *read_qty) {
                Ok(v) => Ok(Response::ReadWriteMultipleRegisters(v)),
                Err(e) => Err(e),
            },
        },
        Request::Unserved(_) => Err(ExceptionCode::IllegalFunction),
    }
}

/// Whether a request writes.
pub open spec fn writes(r: RequestView) -> bool {
    match r {
        RequestView::ReadCoils(_, _) => false,
        RequestView::ReadDiscreteInputs(_, _) => false,
        RequestView::ReadHoldingRegisters(_, _) => false,
        RequestView::ReadInputRegisters(_, _) => false,
        RequestView::Unserved(_) => false,
        _ => true,
    }
}

/// Whether a request writes.
pub fn is_write(req: &Request) -> (r: bool)
    ensures
        r == writes(req@),
{
    match req {
        Request::ReadCoils(_, _) => false,
        Request::ReadDiscreteInputs(_, _) => false,
        Request::ReadHoldingRegisters(_, _) => false,
        Request::ReadInputRegisters(_, _) => false,
        Request::Unserved(_) => false,
        _ => true,
    }
}

/// A read gives back what was written: after a block of registers was written, reading the same
/// block gives exactly its values.
pub proof fn law_registers_read_back(s: StoreView, addr: u16, vs: Seq<u16>)
    requires
        s.complete(),
        vs.len() <= 0xFFFF,
        within(TABLE_LEN as nat, addr, vs.len()),
    ensures
        ({
            let after = served(s, RequestView::WriteMultipleRegisters(addr, vs));
            &&& after.1 is Ok
            &&& after.0.complete()
            &&& served(after.0, RequestView::ReadHoldingRegisters(addr, vs.len() as u16)).1 == Ok::<
                ResponseView,
                ExceptionCode,
            >(ResponseView::HoldingRegisters(vs))
        }),
{
    let after = served(s, RequestView::WriteMultipleRegisters(addr, vs)).0;
    assert(after.holding.subrange(addr as int, addr + vs.len()) =~= vs);
}

/// A read gives back what was written: after a block of coils was written, reading the same block
/// gives exactly its values.
pub proof fn law_coils_read_back(s: StoreView, addr: u16, vs: Seq<bool>)
    requires
        s.complete(),
        vs.len() <= 0xFFFF,
        within(TABLE_LEN as nat, addr, vs.len()),
    ensures
        ({
            let after = served(s, RequestView::WriteMultipleCoils(addr, vs));
            &&& after.1 is Ok
            &&& after.0.complete()
            &&& served(after.0, RequestView::ReadCoils(addr, vs.len() as u16)).1 == Ok::<
                ResponseView,
                ExceptionCode,
            >(ResponseView::Coils(vs))
        }),
{
    let after = served(s, RequestView::WriteMultipleCoils(addr, vs)).0;
    assert(after.coils.subrange(addr as int, addr + vs.len()) =~= vs);
}

/// Requests keep the tables complete, reads change nothing, and inputs are never written.
pub proof fn law_requests_keep_the_tables(s: StoreView, r: RequestView)
    requires
        s.complete(),
    ensures
        served(s, r).0.complete(),
        !writes(r) ==> served(s, r).0 == s,
        served(s, r).0.discrete_inputs == s.discrete_inputs,
        served(s, r).0.input == s.input,
{
}

/// A refused request leaves the tables as they were, unless it is a combined one of which only the
/// read was refused.
pub proof fn law_refused_requests_change_nothing(s: StoreView, r: RequestView)
    requires
        served(s, r).1 is Err,
        !(r is ReadWriteMultipleRegisters),
    ensures
        served(s, r).0 == s,
{
}

/// A masked write takes the bits of the or-mask where the and-mask is zero and keeps the others.
pub proof fn law_masked_write(current: u16, and_mask: u16, or_mask: u16, k: u16)
    requires
        k < 16,
    ensures
        (masked(current, and_mask, or_mask) & (1u16 << k) != 0) == (if and_mask & (1u16 << k) != 0 {
            current & (1u16 << k) != 0
        } else {
            or_mask & (1u16 << k) != 0
        }),
{
    assert(k < 16 ==> (((current & and_mask) | (or_mask & !and_mask)) & (1u16 << k) != 0) == (if and_mask
        & (1u16 << k) != 0 {
        current & (1u16 << k) != 0
    } else {
        or_mask & (1u16 << k) != 0
    })) by (bit_vector);
}

// ---------------------------------------------------------------- descriptions

/// A text, an address and a quantity.
pub open spec fn described(head: Seq<char>, a: u16, middle: Seq<char>, n: nat) -> Seq<char> {
    head + text::decimal(a as nat) + middle + text::decimal(n)
}

/// The description of a request in the log.
pub open spec fn description(r: RequestView) -> Seq<char> {
    match r {
        RequestView::ReadCoils(a, c) => described("Read Coils @"@, a, " ×"@, c as nat),
        RequestView::ReadDiscreteInputs(a, c) => described(
            "Read Discrete Inputs @"@,
            a,
            " ×"@,
            c as nat,
        ),
        RequestView::ReadHoldingRegisters(a, c) => described(
            "Read Holding Registers @"@,
            a,
            " ×"@,
            c as nat,
        ),
        RequestView::ReadInputRegisters(a, c) => described(
            "Read Input Registers @"@,
            a,
            " ×"@,
            c as nat,
        ),
        RequestView::WriteSingleCoil(a, v) => described(
            "Write Coil @"@,
            a,
            " = "@,
            if v { 1 } else { 0 },
        ),
        RequestView::WriteSingleRegister(a, v) => described("Write Register @"@, a, " = "@, v as nat),
        RequestView::WriteMultipleCoils(a, vs) => "Write "@ + text::decimal(vs.len()) + " Coils @"@
            + text::decimal(a as nat),
        RequestView::WriteMultipleRegisters(a, vs) => "Write "@ + text::decimal(vs.len())
            + " Registers @"@ + text::decimal(a as nat),
        RequestView::MaskWriteRegister(a, x, y) => "MaskWriteRegister("@ + text::decimal(a as nat)
            + ", "@ + text::decimal(x as nat) + ", "@ + text::decimal(y as nat) + ")"@,
        RequestView::ReadWriteMultipleRegisters(a, q, w, vs) => "ReadWriteMultipleRegisters("@
            + text::decimal(a as nat) + ", "@ + text::decimal(q as nat) + ", "@ + text::decimal(
            w as nat,
        ) + ", ["@ + text::joined(vs.map_values(|v: u16| text::decimal(v as nat)), ", "@) + "])"@,
        RequestView::Unserved(words) => words,
    }
}

fn describe(head: &str, a: u16, middle: &str, n: u64) -> (r: String)
    ensures
        r@ == described(head@, a, middle@, n as nat),
{
    let mut out = head.to_owned();
    text::push_decimal(&mut out, a as u64);
    out.push_str(middle);
    text::push_decimal(&mut out, n);
    out
}

fn decimal_list(vs: &[u16]) -> (r: String)
    ensures
        r@ == text::joined(vs@.map_values(|v: u16| text::decimal(v as nat)), ", "@),
{
    let mut parts: Vec<String> = Vec::new();
    let ghost f = |v: u16| text::decimal(v as nat);
    let mut i: usize = 0;
    assert(text::texts(parts@) =~= vs@.take(0).map_values(f));
    while i < vs.len()
        invariant
            i <= vs@.len(),
            f == (|v: u16| text::decimal(v as nat)),
            text::texts(parts@) == vs@.take(i as int).map_values(f),
        decreases vs@.len() - i,
    {
        let ghost p0 = parts@;
        parts.push(text::decimal_string(vs[i] as u64));
        proof {
            assert(text::texts(parts@) =~= text::texts(p0).push(f(vs@[i as int])));
            assert(vs@.take(i + 1).map_values(f) =~= vs@.take(i as int).map_values(f).push(
                f(vs@[i as int]),
            ));
        }
        i += 1;
    }
    assert(vs@.take(i as int) =~= vs@);
    text::join(parts.as_slice(), ", ")
}

/// The description of a request in the log.
pub fn describe_request(req: &Request) -> (r: String)
    ensures
        r@ == description(req@),
{
    match req {
        Request::ReadCoils(a, c) => describe("Read Coils @", *a, " ×", *c as u64),
        Request::ReadDiscreteInputs(a, c) => describe(
            "Read Discrete Inputs @",
            *a,
            " ×",
            *c as u64,
        ),
        Request::ReadHoldingRegisters(a, c) => describe(
            "Read Holding Registers @",
            *a,
            " ×",
            *c as u64,
        ),
        Request::ReadInputRegisters(a, c) => describe(
            "Read Input Registers @",
            *a,
            " ×",
            *c as u64,
        ),
        Request::WriteSingleCoil(a, v) => describe(
            "Write Coil @",
            *a,
            " = ",
            if *v {
                1
            } else {
                0
            },
        ),
        Request::WriteSingleRegister(a, v) => describe("Write Register @", *a, " = ", *v as u64),
        Request::WriteMultipleCoils(a, vs) => {
            let mut out = "Write ".to_owned();
            text::push_decimal(&mut out, vs.len() as u64);
            out.push_str(" Coils @");
            text::push_decimal(&mut out, *a as u64);
            out
        },
        Request::WriteMultipleRegisters(a, vs) => {
            let mut out = "Write ".to_owned();
            text::push_decimal(&mut out, vs.len() as u64);
            out.push_str(" Registers @");
            text::push_decimal(&mut out, *a as u64);
            out
        },
        Request::MaskWriteRegister(a, x, y) => {
            let mut out = "MaskWriteRegister(".to_owned();
            text::push_decimal(&mut out, *a as u64);
            out.push_str(", ");
            text::push_decimal(&mut out, *x as u64);
            out.push_str(", ");
            text::push_decimal(&mut out, *y as u64);
            out.push_str(")");
            out
        },
        Request::ReadWriteMultipleRegisters(a, q, w, vs) => {
            let mut out = "ReadWriteMultipleRegisters(".to_owned();
            text::push_decimal(&mut out, *a as u64);
            out.push_str(", ");
            text::push_decimal(&mut out, *q as u64);
            out.push_str(", ");
            text::push_decimal(&mut out, *w as u64);
            out.push_str(", [");
            let list = decimal_list(vs.as_slice());
            out.push_str(list.as_str());
            out.push_str("])");
            out
        },
        Request::Unserved(words) => words.clone(),
    }
}

// ---------------------------------------------------------------- views and edits

/// The end of a window of a table.
pub open spec fn window_end(len: nat, start: int, qty: int) -> int {
    if start + qty < len {
        start + qty
    } else {
        len as int
    }
}

/// The part of a table that a window shows.
pub fn window_bool(mem: &[bool], start: usize, qty: usize) -> (r: Vec<bool>)
    requires
        start + qty <= usize::MAX,
    ensures
        r@ == if start >= mem@.len() {
            seq![]
        } else {
            mem@.subrange(start as int, window_end(mem@.len(), start as int, qty as int))
        },
{
    let mut out: Vec<bool> = Vec::new();
    if start >= mem.len() {
        assert(out@ =~= seq![]);
        return out;
    }
    let end: usize = if start + qty < mem.len() {
        start + qty
    } else {
        mem.len()
    };
    let mut i: usize = start;
    while i < end
        invariant
            start <= i <= end <= mem@.len(),
            out@ == mem@.subrange(start as int, i as int),
        decreases end - i,
    {
        out.push(mem[i]);
        assert(out@ =~= mem@.subrange(start as int, i + 1));
        i += 1;
    }
    out
}

/// The part of a table that a window shows.
pub fn window_u16(mem: &[u16], start: usize, qty: usize) -> (r: Vec<u16>)
    requires
        start + qty <= usize::MAX,
    ensures
        r@ == if start >= mem@.len() {
            seq![]
        } else {
            mem@.subrange(start as int, window_end(mem@.len(), start as int, qty as int))
        },
{
    let mut out: Vec<u16> = Vec::new();
    if start >= mem.len() {
        assert(out@ =~= seq![]);
        return out;
    }
    let end: usize = if start + qty < mem.len() {
        start + qty
    } else {
        mem.len()
    };
    let mut i: usize = start;
    while i < end
        invariant
            start <= i <= end <= mem@.len(),
            out@ == mem@.subrange(start as int, i as int),
        decreases end - i,
    {
        out.push(mem[i]);
        assert(out@ =~= mem@.subrange(start as int, i + 1));
        i += 1;
    }
    out
}

/// The tables after an edit of one entry. A text that reads as no value of the table, or an
/// address beyond it, changes nothing.
pub open spec fn edited(
    s: StoreView,
    area: Area,
    address: u16,
    bit: Option<bool>,
    word: Option<u16>,
) -> StoreView {
    let i = address as int;
    match area {
        Area::Coils => if bit is Some && i < s.coils.len() {
            StoreView { coils: s.coils.update(i, bit->0), ..s }
        } else {
            s
        },
        Area::DiscreteInputs => if bit is Some && i < s.discrete_inputs.len() {
            StoreView { discrete_inputs: s.discrete_inputs.update(i, bit->0), ..s }
        } else {
            s
        },
        Area::HoldingRegisters => if word is Some && i < s.holding.len() {
            StoreView { holding: s.holding.update(i, word->0), ..s }
        } else {
            s
        },
        Area::InputRegisters => if word is Some && i < s.input.len() {
            StoreView { input: s.input.update(i, word->0), ..s }
        } else {
            s
        },
    }
}

/// Edits one entry, given what its text reads as.
pub fn apply_edit(
    store: &mut DataStore,
    area: Area,
    address: u16,
    bit: Option<bool>,
    word: Option<u16>,
)
    ensures
        final(store)@ == edited(old(store)@, area, address, bit, word),
{
    let i: usize = address as usize;
    match area {
        Area::Coils => {
            if let Some(b) = bit {
                if i < store.coils.len() {
                    store.coils.set(i, b);
                }
            }
        },
        Area::DiscreteInputs => {
            if let Some(b) = bit {
                if i < store.discrete_inputs.len() {
                    store.discrete_inputs.set(i, b);
                }
            }
        },
        Area::HoldingRegisters => {
            if let Some(v) = word {
                if i < store.holding.len() {
                    store.holding.set(i, v);
                }
            }
        },
        Area::InputRegisters => {
            if let Some(v) = word {
                if i < store.input.len() {
                    store.input.set(i, v);
                }
            }
        },
    }
}

} // verus!
