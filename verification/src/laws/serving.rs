//! Laws on the simulated server: which table a request reads or writes, and what is answered.
use crate::modbus::pdu::{
    bit_of, decode_server_request_pdu, encode_server_response_pdu, ExceptionCode, Request, Response,
};
use crate::modbus::slave::SlaveService;
use crate::modbus::store::{answer_view, served, DataStore, StoreView};
use vstd::prelude::*;

verus! {

/// Whether a request was served from some tables: they became those, and this was answered.
pub open spec fn is_served(
    before: DataStore,
    after: DataStore,
    req: Request,
    r: Result<Response, ExceptionCode>,
) -> bool {
    &&& after@ == served(before@, req@).0
    &&& answer_view(r) == served(before@, req@).1
}

/// Whether two servers hold the same.
pub open spec fn same_tables(a: DataStore, b: DataStore) -> bool {
    &&& a.coils@ == b.coils@
    &&& a.discrete_inputs@ == b.discrete_inputs@
    &&& a.holding@ == b.holding@
    &&& a.input@ == b.input@
}

/// Whether a read of bits answers a block of one table, or refuses a block beyond its end.
pub open spec fn reads_bits(table: Seq<bool>, a: u16, c: u16, v: Option<Seq<bool>>) -> bool {
    match v {
        Some(v) => a + c <= table.len() && v.len() == c && forall|i: int|
            0 <= i < c ==> #[trigger] v[i] == table[a + i],
        None => a + c > table.len(),
    }
}

/// Whether a read of registers answers a block of one table, or refuses a block beyond its end.
pub open spec fn reads_words(table: Seq<u16>, a: u16, c: u16, v: Option<Seq<u16>>) -> bool {
    match v {
        Some(v) => a + c <= table.len() && v.len() == c && forall|i: int|
            0 <= i < c ==> #[trigger] v[i] == table[a + i],
        None => a + c > table.len(),
    }
}

/// Each read answers the entries of its own table, one after the other from the address on, and
/// changes nothing; a block beyond the end of the table is an illegal address.
pub proof fn law_reads_answer_their_own_table(
    before: DataStore,
    after: DataStore,
    req: Request,
    r: Result<Response, ExceptionCode>,
)
    requires
        is_served(before, after, req, r),
    ensures
        match req {
            Request::ReadCoils(a, c) => same_tables(before, after) && match r {
                Ok(Response::ReadCoils(v)) => reads_bits(before.coils@, a, c, Some(v@)),
                Ok(_) => false,
                Err(e) => e is IllegalDataAddress && reads_bits(before.coils@, a, c, None),
            },
            Request::ReadDiscreteInputs(a, c) => same_tables(before, after) && match r {
                Ok(Response::ReadDiscreteInputs(v)) => reads_bits(
                    before.discrete_inputs@,
                    a,
                    c,
                    Some(v@),
                ),
                Ok(_) => false,
                Err(e) => e is IllegalDataAddress && reads_bits(before.discrete_inputs@, a, c, None),
            },
            Request::ReadHoldingRegisters(a, c) => same_tables(before, after) && match r {
                Ok(Response::ReadHoldingRegisters(v)) => reads_words(before.holding@, a, c, Some(v@)),
                Ok(_) => false,
                Err(e) => e is IllegalDataAddress && reads_words(before.holding@, a, c, None),
            },
            Request::ReadInputRegisters(a, c) => same_tables(before, after) && match r {
                Ok(Response::ReadInputRegisters(v)) => reads_words(before.input@, a, c, Some(v@)),
                Ok(_) => false,
                Err(e) => e is IllegalDataAddress && reads_words(before.input@, a, c, None),
            },
            _ => true,
        },
{
}

/// A read depends on its own table only: servers that agree in it answer alike.
pub proof fn law_reads_depend_on_their_table_only(s: DataStore, z: DataStore, a: u16, c: u16)
    ensures
        s.coils@ == z.coils@ ==> served(s@, Request::ReadCoils(a, c)@).1 == served(
            z@,
            Request::ReadCoils(a, c)@,
        ).1,
        s.discrete_inputs@ == z.discrete_inputs@ ==> served(
            s@,
            Request::ReadDiscreteInputs(a, c)@,
        ).1 == served(z@, Request::ReadDiscreteInputs(a, c)@).1,
        s.holding@ == z.holding@ ==> served(s@, Request::ReadHoldingRegisters(a, c)@).1 == served(
            z@,
            Request::ReadHoldingRegisters(a, c)@,
        ).1,
        s.input@ == z.input@ ==> served(s@, Request::ReadInputRegisters(a, c)@).1 == served(
            z@,
            Request::ReadInputRegisters(a, c)@,
        ).1,
{
}

/// Each write changes the entries that it names and no others, in the coils or in the holding
/// registers, and echoes what it wrote; one beyond the end of the table changes nothing.
pub proof fn law_writes_change_what_they_name(
    before: DataStore,
    after: DataStore,
    req: Request,
    r: Result<Response, ExceptionCode>,
    i: int,
)
    requires
        is_served(before, after, req, r),
        0 <= i < before.coils@.len(),
        0 <= i < before.holding@.len(),
    ensures
        after.discrete_inputs@ == before.discrete_inputs@,
        after.input@ == before.input@,
        match req {
            Request::WriteSingleCoil(a, v) => {
                &&& after.holding@ == before.holding@
                &&& after.coils@[i] == if i == a {
                    v
                } else {
                    before.coils@[i]
                }
                &&& match r {
                    Ok(Response::WriteSingleCoil(b, w)) => a < before.coils@.len() && b == a && w == v,
                    Ok(_) => false,
                    Err(e) => e is IllegalDataAddress && a >= before.coils@.len(),
                }
            },
            Request::WriteSingleRegister(a, v) => {
                &&& after.coils@ == before.coils@
                &&& after.holding@[i] == if i == a {
                    v
                } else {
                    before.holding@[i]
                }
                &&& match r {
                    Ok(Response::WriteSingleRegister(b, w)) => a < before.holding@.len() && b == a && w
                        == v,
                    Ok(_) => false,
                    Err(e) => e is IllegalDataAddress && a >= before.holding@.len(),
                }
            },
            Request::WriteMultipleCoils(a, vs) => {
                &&& after.holding@ == before.holding@
                &&& match r {
                    Ok(Response::WriteMultipleCoils(b, n)) => {
                        &&& a + vs@.len() <= before.coils@.len() && b == a
                        &&& vs@.len() <= 0xFFFF ==> n == vs@.len()
                        &&& after.coils@[i] == if a <= i < a + vs@.len() {
                            vs@[i - a]
                        } else {
                            before.coils@[i]
                        }
                    },
                    Ok(_) => false,
                    Err(e) => e is IllegalDataAddress && a + vs@.len() > before.coils@.len()
                        && after.coils@ == before.coils@,
                }
            },
            Request::WriteMultipleRegisters(a, vs) => {
                &&& after.coils@ == before.coils@
                &&& match r {
                    Ok(Response::WriteMultipleRegisters(b, n)) => {
                        &&& a + vs@.len() <= before.holding@.len() && b == a
                        &&& vs@.len() <= 0xFFFF ==> n == vs@.len()
                        &&& after.holding@[i] == if a <= i < a + vs@.len() {
                            vs@[i - a]
                        } else {
                            before.holding@[i]
                        }
                    },
                    Ok(_) => false,
                    Err(e) => e is IllegalDataAddress && a + vs@.len() > before.holding@.len()
                        && after.holding@ == before.holding@,
                }
            },
            Request::MaskWriteRegister(a, x, y) => {
                &&& after.coils@ == before.coils@
                &&& i != a ==> after.holding@[i] == before.holding@[i]
                &&& r is Ok <==> a < before.holding@.len()
                &&& x == 0xFFFF ==> after.holding@[i] == before.holding@[i]
                &&& x == 0 && i == a ==> after.holding@[i] == y
            },
            Request::ReadWriteMultipleRegisters(ra, rc, wa, vs) => {
                &&& after.coils@ == before.coils@
                &&& after.holding@.len() == before.holding@.len()
                &&& after.holding@[i] == if wa <= i < wa + vs@.len() && wa + vs@.len()
                    <= before.holding@.len() {
                    vs@[i - wa]
                } else {
                    before.holding@[i]
                }
                &&& match r {
                    Ok(Response::ReadWriteMultipleRegisters(v)) => reads_words(
                        after.holding@,
                        ra,
                        rc,
                        Some(v@),
                    ),
                    Ok(_) => false,
                    Err(e) => e is IllegalDataAddress && (wa + vs@.len() > before.holding@.len()
                        || reads_words(after.holding@, ra, rc, None)),
                }
            },
            Request::Unserved(_) => same_tables(before, after) && (r matches Err(e) && e
                is IllegalFunction),
            _ => same_tables(before, after),
        },
{
    match req {
        Request::MaskWriteRegister(a, x, y) => {
            let c = before.holding@[a as int];
            assert((c & 0xFFFF) | (y & !0xFFFFu16) == c) by (bit_vector);
            assert((c & 0) | (y & !0u16) == y) by (bit_vector);
        },
        _ => {},
    }
}

/// A unit of the protocol is read by its function code, with numbers in two bytes, the higher one
/// first.
pub proof fn law_units_are_read_by_their_function(pdu: &[u8], r: Result<Request, ExceptionCode>)
    requires
        call_ensures(decode_server_request_pdu, (pdu,), r),
    ensures
        pdu@.len() == 5 && pdu@[0] == 1 ==> r == Ok::<Request, ExceptionCode>(
            Request::ReadCoils(
                (pdu@[1] * 256 + pdu@[2]) as u16,
                (pdu@[3] * 256 + pdu@[4]) as u16,
            ),
        ),
        pdu@.len() == 5 && pdu@[0] == 2 ==> r == Ok::<Request, ExceptionCode>(
            Request::ReadDiscreteInputs(
                (pdu@[1] * 256 + pdu@[2]) as u16,
                (pdu@[3] * 256 + pdu@[4]) as u16,
            ),
        ),
        pdu@.len() == 5 && pdu@[0] == 3 ==> r == Ok::<Request, ExceptionCode>(
            Request::ReadHoldingRegisters(
                (pdu@[1] * 256 + pdu@[2]) as u16,
                (pdu@[3] * 256 + pdu@[4]) as u16,
            ),
        ),
        pdu@.len() == 5 && pdu@[0] == 4 ==> r == Ok::<Request, ExceptionCode>(
            Request::ReadInputRegisters(
                (pdu@[1] * 256 + pdu@[2]) as u16,
                (pdu@[3] * 256 + pdu@[4]) as u16,
            ),
        ),
        pdu@.len() == 5 && pdu@[0] == 5 && pdu@[3] == 0xFF && pdu@[4] == 0 ==> r == Ok::<
            Request,
            ExceptionCode,
        >(Request::WriteSingleCoil((pdu@[1] * 256 + pdu@[2]) as u16, true)),
        pdu@.len() == 5 && pdu@[0] == 5 && pdu@[3] == 0 && pdu@[4] == 0 ==> r == Ok::<
            Request,
            ExceptionCode,
        >(Request::WriteSingleCoil((pdu@[1] * 256 + pdu@[2]) as u16, false)),
        pdu@.len() == 5 && pdu@[0] == 6 ==> r == Ok::<Request, ExceptionCode>(
            Request::WriteSingleRegister(
                (pdu@[1] * 256 + pdu@[2]) as u16,
                (pdu@[3] * 256 + pdu@[4]) as u16,
            ),
        ),
        pdu@.len() == 7 && pdu@[0] == 22 ==> r == Ok::<Request, ExceptionCode>(
            Request::MaskWriteRegister(
                (pdu@[1] * 256 + pdu@[2]) as u16,
                (pdu@[3] * 256 + pdu@[4]) as u16,
                (pdu@[5] * 256 + pdu@[6]) as u16,
            ),
        ),
        r matches Ok(Request::WriteMultipleRegisters(a, vs)) ==> pdu@[0] == 16 && a == pdu@[1] * 256
            + pdu@[2] && pdu@.len() == 6 + 2 * vs@.len() && forall|i: int|
            0 <= i < vs@.len() ==> #[trigger] vs@[i] == pdu@[6 + 2 * i] * 256 + pdu@[7 + 2 * i],
        r matches Ok(Request::WriteMultipleCoils(a, vs)) ==> pdu@[0] == 15 && a == pdu@[1] * 256
            + pdu@[2] && vs@.len() == pdu@[3] * 256 + pdu@[4] && forall|i: int|
            0 <= i < vs@.len() ==> #[trigger] vs@[i] == bit_of(pdu@[6 + i / 8], (i % 8) as u8),
        r matches Ok(Request::ReadWriteMultipleRegisters(ra, rc, wa, vs)) ==> pdu@[0] == 23 && ra
            == pdu@[1] * 256 + pdu@[2] && rc == pdu@[3] * 256 + pdu@[4] && wa == pdu@[5] * 256
            + pdu@[6] && pdu@.len() == 10 + 2 * vs@.len() && forall|i: int|
            0 <= i < vs@.len() ==> #[trigger] vs@[i] == pdu@[10 + 2 * i] * 256 + pdu@[11 + 2 * i],
        pdu@.len() == 0 || pdu@.len() > 253 ==> r is Err,
{
    match r {
        Ok(Request::WriteMultipleRegisters(a, vs)) => {
            assert forall|i: int| 0 <= i < vs@.len() implies #[trigger] vs@[i] == pdu@[6 + 2 * i] * 256
                + pdu@[7 + 2 * i] by {}
        },
        _ => {},
    }
}

/// An answer carries the function code of its request and its values in two bytes each, the higher
/// one first; a refusal carries the code with its highest bit set, and why.
pub proof fn law_answers_are_written_by_their_function(
    function: u8,
    response: Result<Response, ExceptionCode>,
    r: Vec<u8>,
)
    requires
        call_ensures(encode_server_response_pdu, (function, response), r),
    ensures
        response matches Ok(Response::ReadHoldingRegisters(v)) ==> r@.len() == 2 + 2 * v@.len()
            && r@[0] == 3 && (v@.len() <= 127 ==> r@[1] == 2 * v@.len()) && forall|i: int|
            0 <= i < v@.len() ==> r@[2 + 2 * i] * 256 + r@[3 + 2 * i] == #[trigger] v@[i],
        response matches Ok(Response::ReadInputRegisters(v)) ==> r@.len() == 2 + 2 * v@.len()
            && r@[0] == 4 && (v@.len() <= 127 ==> r@[1] == 2 * v@.len()) && forall|i: int|
            0 <= i < v@.len() ==> r@[2 + 2 * i] * 256 + r@[3 + 2 * i] == #[trigger] v@[i],
        response matches Ok(Response::ReadCoils(v)) ==> r@[0] == 1 && forall|i: int|
            0 <= i < v@.len() ==> bit_of(r@[2 + i / 8], (i % 8) as u8) == #[trigger] v@[i],
        response matches Ok(Response::ReadDiscreteInputs(v)) ==> r@[0] == 2 && forall|i: int|
            0 <= i < v@.len() ==> bit_of(r@[2 + i / 8], (i % 8) as u8) == #[trigger] v@[i],
        response matches Ok(Response::WriteSingleCoil(a, v)) ==> r@.len() == 5 && r@[0] == 5 && r@[1]
            * 256 + r@[2] == a && r@[3] * 256 + r@[4] == (if v {
            0xFF00int
        } else {
            0
        }),
        response matches Ok(Response::WriteSingleRegister(a, v)) ==> r@.len() == 5 && r@[0] == 6
            && r@[1] * 256 + r@[2] == a && r@[3] * 256 + r@[4] == v,
        response matches Ok(Response::WriteMultipleCoils(a, n)) ==> r@.len() == 5 && r@[0] == 15
            && r@[1] * 256 + r@[2] == a && r@[3] * 256 + r@[4] == n,
        response matches Ok(Response::WriteMultipleRegisters(a, n)) ==> r@.len() == 5 && r@[0] == 16
            && r@[1] * 256 + r@[2] == a && r@[3] * 256 + r@[4] == n,
        response matches Err(e) ==> r@.len() == 2 && r@[0] == function | 0x80 && (e
            is IllegalFunction ==> r@[1] == 1) && (e is IllegalDataAddress ==> r@[1] == 2) && (e
            is IllegalDataValue ==> r@[1] == 3) && (e is ServerDeviceFailure ==> r@[1] == 4),
{
    match response {
        Ok(Response::ReadHoldingRegisters(v)) => {
            assert forall|i: int| 0 <= i < v@.len() implies r@[2 + 2 * i] * 256 + r@[3 + 2 * i]
                == #[trigger] v@[i] by {
                let w = crate::modbus::pdu::words_bytes(v@);
                assert(r@[2 + 2 * i] == w[2 * i]);
                assert(r@[2 + 2 * i + 1] == w[2 * i + 1]);
            }
        },
        Ok(Response::ReadInputRegisters(v)) => {
            assert forall|i: int| 0 <= i < v@.len() implies r@[2 + 2 * i] * 256 + r@[3 + 2 * i]
                == #[trigger] v@[i] by {
                let w = crate::modbus::pdu::words_bytes(v@);
                assert(r@[2 + 2 * i] == w[2 * i]);
                assert(r@[2 + 2 * i + 1] == w[2 * i + 1]);
            }
        },
        Ok(Response::ReadCoils(v)) => {
            assert forall|i: int| 0 <= i < v@.len() implies bit_of(r@[2 + i / 8], (i % 8) as u8)
                == #[trigger] v@[i] by {
                assert(r@.skip(2)[i / 8] == r@[2 + i / 8]);
            }
        },
        Ok(Response::ReadDiscreteInputs(v)) => {
            assert forall|i: int| 0 <= i < v@.len() implies bit_of(r@[2 + i / 8], (i % 8) as u8)
                == #[trigger] v@[i] by {
                assert(r@.skip(2)[i / 8] == r@[2 + i / 8]);
            }
        },
        _ => {},
    }
}

/// Bit `k` of a byte weighs two to the power of `k`.
pub proof fn law_bits_weigh_their_place(b: u8)
    ensures
        b == (if bit_of(b, 0) { 1int } else { 0 }) + (if bit_of(b, 1) { 2int } else { 0 }) + (
        if bit_of(b, 2) { 4int } else { 0 }) + (if bit_of(b, 3) { 8int } else { 0 }) + (
        if bit_of(b, 4) { 16int } else { 0 }) + (if bit_of(b, 5) { 32int } else { 0 }) + (
        if bit_of(b, 6) { 64int } else { 0 }) + (if bit_of(b, 7) { 128int } else { 0 }),
{
    assert(b as int == (if b & (1u8 << 0) != 0 { 1int } else { 0 }) + (if b & (1u8 << 1) != 0 { 2int } else { 0 })
        + (if b & (1u8 << 2) != 0 { 4int } else { 0 }) + (if b & (1u8 << 3) != 0 { 8int } else { 0 })
        + (if b & (1u8 << 4) != 0 { 16int } else { 0 }) + (if b & (1u8 << 5) != 0 { 32int } else { 0 })
        + (if b & (1u8 << 6) != 0 { 64int } else { 0 }) + (if b & (1u8 << 7) != 0 { 128int } else { 0 }))
        by (bit_vector);
}

/// A server answers requests to its unit, and on a network all of them where it ignores units; it
/// works silently for everybody on a serial line, and leaves the requests to others alone.
pub proof fn law_servers_serve_their_unit(
    service: SlaveService,
    s: StoreView,
    slave: u8,
    req: Request,
    requests: u64,
)
    ensures
        slave == service.unit_id && !(slave == 0 && !service.tcp) ==> service.answer_to(
            s,
            slave,
            req@,
        ) == Some(served(s, req@).1) && service.tables_after(s, slave, req@) == served(s, req@).0,
        service.tcp && service.ignore_unit_id ==> service.answer_to(s, slave, req@) == Some(
            served(s, req@).1,
        ),
        slave != service.unit_id && slave != 0 && !(service.tcp && service.ignore_unit_id)
            ==> service.answer_to(s, slave, req@) is None && service.tables_after(s, slave, req@) == s
            && service.counter_after(requests, slave) == requests,
        !service.tcp && slave == 0 ==> service.tables_after(s, slave, req@) == served(s, req@).0 && (
        served(s, req@).1 is Ok ==> service.answer_to(s, slave, req@) is None),
        slave == service.unit_id && requests < u64::MAX ==> service.counter_after(requests, slave)
            == requests + 1,
{
}

} // verus!
