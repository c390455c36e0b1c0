//! Laws on polling a server and writing to it.
use crate::laws::serving::{is_served, reads_bits, reads_words};
use crate::modbus::grid::{poll_values, PollData};
use crate::modbus::master::{poll_request, poll_result, PollErr, ReadDef, Reply};
use crate::modbus::pdu::{ExceptionCode, Request, Response};
use crate::modbus::span::{advanced, requests_view, validate_read_definition, write_items};
use crate::modbus::store::DataStore;
use crate::modbus::{func_area_be, Area, WriteFunc, WriteItem};
use vstd::prelude::*;

verus! {

/// The function code of a request.
pub open spec fn function_of(r: Request) -> int {
    match r {
        Request::ReadCoils(_, _) => 1,
        Request::ReadDiscreteInputs(_, _) => 2,
        Request::ReadHoldingRegisters(_, _) => 3,
        Request::ReadInputRegisters(_, _) => 4,
        Request::WriteSingleCoil(_, _) => 5,
        Request::WriteSingleRegister(_, _) => 6,
        Request::WriteMultipleCoils(_, _) => 15,
        Request::WriteMultipleRegisters(_, _) => 16,
        Request::MaskWriteRegister(_, _, _) => 22,
        Request::ReadWriteMultipleRegisters(_, _, _, _) => 23,
        Request::Unserved(_) => 0,
    }
}

/// A poll asks with the function code of its area, one to four, for its block; polls of different
/// areas ask for different things. What the protocol does not allow is not asked: nothing, more
/// than 2000 bits or 125 registers, or addresses beyond the last.
pub proof fn law_polls_ask_for_their_area(def: ReadDef, r: Result<Request, PollErr>)
    requires
        call_ensures(poll_request, (&def,), r),
    ensures
        r matches Ok(request) ==> function_of(request) == (match def.area {
            Area::Coils => 1int,
            Area::DiscreteInputs => 2,
            Area::HoldingRegisters => 3,
            Area::InputRegisters => 4,
        }) && (request == Request::ReadCoils(def.address, def.quantity) || request
            == Request::ReadDiscreteInputs(def.address, def.quantity) || request
            == Request::ReadHoldingRegisters(def.address, def.quantity) || request
            == Request::ReadInputRegisters(def.address, def.quantity)),
        r is Ok <==> 1 <= def.quantity <= (if def.area == Area::Coils || def.area
            == Area::DiscreteInputs {
            2000int
        } else {
            125
        }) && def.address + def.quantity <= 65536,
        r matches Err(e) ==> e is Invalid,
{
}

/// A poll that is served gives the entries of the table of its area.
pub proof fn law_polls_give_the_entries_of_their_area(
    def: ReadDef,
    request: Request,
    before: DataStore,
    after: DataStore,
    answer: Result<Response, ExceptionCode>,
)
    requires
        call_ensures(poll_request, (&def,), Ok(request)),
        is_served(before, after, request, answer),
        before@.complete(),
    ensures
        match def.area {
            Area::Coils => answer matches Ok(Response::ReadCoils(v)) && reads_bits(
                before.coils@,
                def.address,
                def.quantity,
                Some(v@),
            ),
            Area::DiscreteInputs => answer matches Ok(Response::ReadDiscreteInputs(v)) && reads_bits(
                before.discrete_inputs@,
                def.address,
                def.quantity,
                Some(v@),
            ),
            Area::HoldingRegisters => answer matches Ok(Response::ReadHoldingRegisters(v))
                && reads_words(before.holding@, def.address, def.quantity, Some(v@)),
            Area::InputRegisters => answer matches Ok(Response::ReadInputRegisters(v)) && reads_words(
                before.input@,
                def.address,
                def.quantity,
                Some(v@),
            ),
        },
{
    crate::laws::serving::law_reads_answer_their_own_table(before, after, request, answer);
}

/// The values of a poll are those that came back, bits as one and zero, in their order; a refusal
/// is told apart from a server that cannot be reached.
pub proof fn law_polls_give_what_came_back(
    reply: Reply,
    r: Result<PollData, PollErr>,
    values: Vec<u16>,
)
    requires
        call_ensures(poll_result, (reply,), r),
        r matches Ok(data) ==> call_ensures(poll_values, (&data,), values),
    ensures
        match reply {
            Reply::Regs(v) => r is Ok && values@ == v@,
            Reply::Bits(v) => r is Ok && values@.len() == v@.len() && forall|i: int|
                0 <= i < v@.len() ==> #[trigger] values@[i] == if v@[i] {
                    1u16
                } else {
                    0u16
                },
            Reply::Exception(_) => r matches Err(PollErr::Exception(_)),
            Reply::Failed(why) => r matches Err(PollErr::Io(s)) && s@ == why@,
            Reply::Timeout => r matches Err(PollErr::Io(_)),
        },
{
}

/// A list is written as it stands: one request for each entry, or one for the whole block, with the
/// function code of the selection, the addresses of the entries and their values; bits are set
/// where the values are not zero.
pub proof fn law_lists_are_written_as_they_stand(
    func: WriteFunc,
    items: &[WriteItem],
    r: Result<Vec<Request>, String>,
)
    requires
        call_ensures(write_items, (func, items), r),
    ensures
        r matches Ok(plan) ==> {
            let n = items@.len();
            &&& n == 0 ==> plan@.len() == 0
            &&& n > 0 && func == WriteFunc::SingleReg ==> plan@.len() == n && forall|i: int|
                0 <= i < n ==> #[trigger] plan@[i] == Request::WriteSingleRegister(
                    items@[i].address,
                    items@[i].value,
                )
            &&& n > 0 && func == WriteFunc::SingleCoil ==> plan@.len() == n && forall|i: int|
                0 <= i < n ==> #[trigger] plan@[i] == Request::WriteSingleCoil(
                    items@[i].address,
                    items@[i].value != 0,
                )
            &&& n > 0 && func == WriteFunc::MultiRegs ==> plan@.len() == 1 && (plan@[0] matches
                Request::WriteMultipleRegisters(a, vs) && vs@.len() == n <= 123 && forall|i: int|
                0 <= i < n ==> items@[i].address == a + i && #[trigger] vs@[i] == items@[i].value)
            &&& n > 0 && func == WriteFunc::MultiCoils ==> plan@.len() == 1 && (plan@[0] matches
                Request::WriteMultipleCoils(a, vs) && vs@.len() == n <= 1968 && forall|i: int|
                0 <= i < n ==> items@[i].address == a + i && #[trigger] vs@[i] == (items@[i].value
                    != 0))
        },
        items@.len() > 0 && (func == WriteFunc::SingleReg || func == WriteFunc::SingleCoil) ==> r
            is Ok,
{
    if let Ok(plan) = r {
        let view = requests_view(plan@);
        assert(view.len() == plan@.len());
        assert forall|i: int| 0 <= i < plan@.len() implies view[i] == (#[trigger] plan@[i])@ by {}
        if items@.len() > 0 && (func == WriteFunc::MultiRegs || func == WriteFunc::MultiCoils) {
            assert(view[0] == plan@[0]@);
            lemma_contiguous(items@, items@.len() - 1);
        }
        if items@.len() > 0 && func == WriteFunc::SingleReg {
            assert forall|i: int| 0 <= i < items@.len() implies #[trigger] plan@[i]
                == Request::WriteSingleRegister(items@[i].address, items@[i].value) by {
                assert(view[i] == plan@[i]@);
            }
        }
        if items@.len() > 0 && func == WriteFunc::SingleCoil {
            assert forall|i: int| 0 <= i < items@.len() implies #[trigger] plan@[i]
                == Request::WriteSingleCoil(items@[i].address, items@[i].value != 0) by {
                assert(view[i] == plan@[i]@);
            }
        }
    }
}

proof fn lemma_contiguous(items: Seq<WriteItem>, k: int)
    requires
        crate::modbus::span::contiguous(items),
        0 <= k < items.len(),
    ensures
        forall|i: int| 0 <= i <= k ==> (#[trigger] items[i]).address == items[0].address + i,
    decreases k,
{
    if k > 0 {
        lemma_contiguous(items, k - 1);
        assert(items[k - 1].address + 1 == items[k - 1 + 1].address);
    }
}

/// Each cycle counts the marked values up by one and keeps the others and all addresses.
pub proof fn law_marked_values_count_up(items: Seq<WriteItem>, i: int)
    requires
        0 <= i < items.len(),
    ensures
        advanced(items).len() == items.len(),
        advanced(items)[i].address == items[i].address,
        advanced(items)[i].inc == items[i].inc,
        advanced(items)[i].value == (if !items[i].inc {
            items[i].value as int
        } else if items[i].value == 65535 {
            0
        } else {
            items[i].value + 1
        }),
{
}

/// The selections of the windows mean the areas: reads of coils, discrete inputs, holding registers
/// and input registers in this order, then writes of a coil, a register, coils and registers.
pub proof fn law_selections_mean_areas(function: i32, r: Area)
    requires
        call_ensures(func_area_be, (function,), r),
    ensures
        r == Area::Coils <==> (function == 0 || function == 4 || function == 6),
        r == Area::DiscreteInputs <==> function == 1,
        r == Area::InputRegisters <==> function == 3,
        function == 2 || function == 5 || function == 7 ==> r == Area::HoldingRegisters,
{
}

/// A definition that may be polled is one that a poll is sent for.
pub proof fn law_checked_definitions_are_polled(
    def: ReadDef,
    c: Result<(), String>,
    r: Result<Request, PollErr>,
)
    requires
        call_ensures(validate_read_definition, (def.area, def.address, def.quantity), c),
        call_ensures(poll_request, (&def,), r),
    ensures
        c is Ok <==> r is Ok,
{
}

} // verus!
