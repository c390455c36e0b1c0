//! Which blocks a request may name.
use crate::modbus::pdu::{Request, RequestView};
use crate::modbus::{Area, WriteFunc, WriteItem};
use crate::text;
use vstd::prelude::*;

verus! {

/// What is wrong with a block of addresses.
pub open spec fn span_fault(address: u16, quantity: int, maximum: int, label: Seq<char>) -> Option<
    Seq<char>,
> {
    if quantity == 0 || quantity > maximum {
        Some(
            label + " quantity must be 1.."@ + text::decimal(maximum as nat) + ", got "@
                + text::decimal(quantity as nat),
        )
    } else if address + quantity > 65536 {
        Some(
            label + " address range exceeds 65535: "@ + text::decimal(address as nat) + " + "@
                + text::decimal(quantity as nat),
        )
    } else {
        None
    }
}

/// An outcome stands for a fault.
pub open spec fn states_fault(r: Result<(), String>, fault: Option<Seq<char>>) -> bool {
    match r {
        Ok(()) => fault is None,
        Err(m) => fault == Some(m@),
    }
}

/// Checks a block of addresses against the protocol's limits and the address space.
pub fn validate_span(address: u16, quantity: usize, maximum: usize, label: &str) -> (r: Result<
    (),
    String,
>)
    ensures
        states_fault(r, span_fault(address, quantity as int, maximum as int, label@)),
{
    let mut message = label.to_owned();
    if quantity == 0 || quantity > maximum {
        message.push_str(" quantity must be 1..");
        text::push_decimal(&mut message, maximum as u64);
        message.push_str(", got ");
        text::push_decimal(&mut message, quantity as u64);
        return Err(message);
    }
    if quantity > 65536 - address as usize {
        message.push_str(" address range exceeds 65535: ");
        text::push_decimal(&mut message, address as u64);
        message.push_str(" + ");
        text::push_decimal(&mut message, quantity as u64);
        return Err(message);
    }
    Ok(())
}

/// The longest block that one read of a table may name.
pub open spec fn read_limit(area: Area) -> int {
    if area.holds_bits() {
        2000
    } else {
        125
    }
}

/// What is wrong with a read.
pub open spec fn read_fault(area: Area, address: u16, quantity: u16) -> Option<Seq<char>> {
    span_fault(address, quantity as int, read_limit(area), "read"@)
}

/// Checks what is to be polled.
pub fn validate_read_definition(area: Area, address: u16, quantity: u16) -> (r: Result<(), String>)
    ensures
        states_fault(r, read_fault(area, address, quantity)),
{
    let maximum: usize = match area {
        Area::Coils | Area::DiscreteInputs => 2000,
        Area::HoldingRegisters | Area::InputRegisters => 125,
    };
    validate_span(address, quantity as usize, maximum, "read")
}

/// Whether each entry follows the one before it.
pub open spec fn contiguous(items: Seq<WriteItem>) -> bool {
    forall|i: int|
        0 <= i < items.len() - 1 ==> (#[trigger] items[i]).address + 1 == items[i + 1].address
}

/// What is wrong with a list of entries to write.
pub open spec fn items_fault(func: WriteFunc, items: Seq<WriteItem>) -> Option<Seq<char>> {
    if items.len() == 0 || func == WriteFunc::SingleCoil || func == WriteFunc::SingleReg {
        None
    } else if !contiguous(items) {
        Some("multiple-write addresses are not contiguous"@)
    } else {
        span_fault(
            items[0].address,
            items.len() as int,
            if func == WriteFunc::MultiCoils {
                1968
            } else {
                123
            },
            "multiple write"@,
        )
    }
}

/// Checks a list of entries to write.
pub fn validate_write_items(func: WriteFunc, items: &[WriteItem]) -> (r: Result<(), String>)
    ensures
        states_fault(r, items_fault(func, items@)),
{
    if items.len() == 0 || matches!(func, WriteFunc::SingleCoil) || matches!(
        func,
        WriteFunc::SingleReg
    ) {
        return Ok(());
    }
    let mut i: usize = 0;
    while i < items.len() - 1
        invariant
            i <= items@.len() - 1,
            items@.len() > 0,
            func != WriteFunc::SingleCoil && func != WriteFunc::SingleReg,
            forall|j: int|
                0 <= j < i ==> (#[trigger] items@[j]).address + 1 == items@[j + 1].address,
        decreases items@.len() - i,
    {
        if items[i].address == 65535 || items[i].address + 1 != items[i + 1].address {
            assert(!contiguous(items@)) by {
                assert(items@[i as int].address + 1 != items@[i + 1].address);
            }
            return Err("multiple-write addresses are not contiguous".to_owned());
        }
        i += 1;
    }
    let maximum: usize = if matches!(func, WriteFunc::MultiCoils) {
        1968
    } else {
        123
    };
    validate_span(items[0].address, items.len(), maximum, "multiple write")
}

/// The requests that write a list: one for each entry, or one for the whole block.
pub open spec fn write_plan(func: WriteFunc, items: Seq<WriteItem>) -> Seq<RequestView> {
    if items.len() == 0 {
        seq![]
    } else {
        match func {
            WriteFunc::SingleReg => items.map_values(
                |i: WriteItem| RequestView::WriteSingleRegister(i.address, i.value),
            ),
            WriteFunc::SingleCoil => items.map_values(
                |i: WriteItem| RequestView::WriteSingleCoil(i.address, i.value != 0),
            ),
            WriteFunc::MultiRegs => seq![
                RequestView::WriteMultipleRegisters(
                    items[0].address,
                    items.map_values(|i: WriteItem| i.value),
                ),
            ],
            WriteFunc::MultiCoils => seq![
                RequestView::WriteMultipleCoils(
                    items[0].address,
                    items.map_values(|i: WriteItem| i.value != 0),
                ),
            ],
        }
    }
}

/// The views of a list of requests.
pub open spec fn requests_view(requests: Seq<Request>) -> Seq<RequestView> {
    requests.map_values(|r: Request| r@)
}

/// Plans the requests that write a list.
pub fn write_items(func: WriteFunc, items: &[WriteItem]) -> (r: Result<Vec<Request>, String>)
    ensures
        match r {
            Ok(plan) => items_fault(func, items@) is None && requests_view(plan@) == write_plan(
                func,
                items@,
            ),
            Err(m) => items_fault(func, items@) == Some(m@),
        },
{
    if let Err(message) = validate_write_items(func, items) {
        return Err(message);
    }
    let mut plan: Vec<Request> = Vec::new();
    assert(requests_view(plan@) =~= seq![]);
    if items.len() == 0 {
        return Ok(plan);
    }
    let base: u16 = items[0].address;
    match func {
        WriteFunc::SingleReg => {
            let ghost f = |i: WriteItem| RequestView::WriteSingleRegister(i.address, i.value);
            let mut i: usize = 0;
            assert(requests_view(plan@) =~= items@.take(0).map_values(f));
            while i < items.len()
                invariant
                    i <= items@.len(),
                    f == (|i: WriteItem| RequestView::WriteSingleRegister(i.address, i.value)),
                    requests_view(plan@) == items@.take(i as int).map_values(f),
                decreases items@.len() - i,
            {
                let ghost p0 = plan@;
                plan.push(Request::WriteSingleRegister(items[i].address, items[i].value));
                proof {
                    assert(requests_view(plan@) =~= requests_view(p0).push(f(items@[i as int])));
                    assert(items@.take(i + 1).map_values(f) =~= items@.take(i as int).map_values(
                        f,
                    ).push(f(items@[i as int])));
                }
                i += 1;
            }
            assert(items@.take(i as int) =~= items@);
        },
        WriteFunc::SingleCoil => {
            let ghost f = |i: WriteItem| RequestView::WriteSingleCoil(i.address, i.value != 0);
            let mut i: usize = 0;
            assert(requests_view(plan@) =~= items@.take(0).map_values(f));
            while i < items.len()
                invariant
                    i <= items@.len(),
                    f == (|i: WriteItem| RequestView::WriteSingleCoil(i.address, i.value != 0)),
                    requests_view(plan@) == items@.take(i as int).map_values(f),
                decreases items@.len() - i,
            {
                let ghost p0 = plan@;
                plan.push(Request::WriteSingleCoil(items[i].address, items[i].value != 0));
                proof {
                    assert(requests_view(plan@) =~= requests_view(p0).push(f(items@[i as int])));
                    assert(items@.take(i + 1).map_values(f) =~= items@.take(i as int).map_values(
                        f,
                    ).push(f(items@[i as int])));
                }
                i += 1;
            }
            assert(items@.take(i as int) =~= items@);
        },
        WriteFunc::MultiRegs => {
            let mut values: Vec<u16> = Vec::new();
            let ghost f = |i: WriteItem| i.value;
            let mut i: usize = 0;
            assert(values@ =~= items@.take(0).map_values(f));
            while i < items.len()
                invariant
                    i <= items@.len(),
                    f == (|i: WriteItem| i.value),
                    values@ == items@.take(i as int).map_values(f),
                decreases items@.len() - i,
            {
                values.push(items[i].value);
                assert(values@ =~= items@.take(i + 1).map_values(f));
                i += 1;
            }
            assert(items@.take(i as int) =~= items@);
            plan.push(Request::WriteMultipleRegisters(base, values));
            assert(requests_view(plan@) =~= write_plan(func, items@));
        },
        WriteFunc::MultiCoils => {
            let mut values: Vec<bool> = Vec::new();
            let ghost f = |i: WriteItem| i.value != 0;
            let mut i: usize = 0;
            assert(values@ =~= items@.take(0).map_values(f));
            while i < items.len()
                invariant
                    i <= items@.len(),
                    f == (|i: WriteItem| i.value != 0),
                    values@ == items@.take(i as int).map_values(f),
                decreases items@.len() - i,
            {
                values.push(items[i].value != 0);
                assert(values@ =~= items@.take(i + 1).map_values(f));
                i += 1;
            }
            assert(items@.take(i as int) =~= items@);
            plan.push(Request::WriteMultipleCoils(base, values));
            assert(requests_view(plan@) =~= write_plan(func, items@));
        },
    }
    Ok(plan)
}

/// Entries that count up do so in 16 bits; the others stay.
pub open spec fn advanced(items: Seq<WriteItem>) -> Seq<WriteItem> {
    items.map_values(
        |i: WriteItem|
            WriteItem {
                value: if i.inc {
                    ((i.value + 1) % 0x1_0000) as u16
                } else {
                    i.value
                },
                ..i
            },
    )
}

/// Counts up the entries that do, for the next cycle.
pub fn advance_items(items: &mut Vec<WriteItem>)
    ensures
        final(items)@ == advanced(old(items)@),
{
    let ghost before = items@;
    let mut i: usize = 0;
    while i < items.len()
        invariant
            i <= items@.len(),
            items@.len() == before.len(),
            forall|j: int| 0 <= j < i ==> #[trigger] items@[j] == advanced(before)[j],
            forall|j: int| i <= j < before.len() ==> #[trigger] items@[j] == before[j],
        decreases items@.len() - i,
    {
        let mut item: WriteItem = items[i];
        if item.inc {
            item.value = item.value.wrapping_add(1);
        }
        items.set(i, item);
        i += 1;
    }
    assert(items@ =~= advanced(before));
}

/// A write that is planned stays within the address space: no request of a plan that was accepted
/// names an address beyond the last one.
pub proof fn law_planned_blocks_stay_in_range(func: WriteFunc, items: Seq<WriteItem>)
    requires
        items_fault(func, items) is None,
        items.len() > 0,
        func == WriteFunc::MultiRegs || func == WriteFunc::MultiCoils,
    ensures
        items[0].address + items.len() <= 65536,
        forall|i: int| 0 <= i < items.len() ==> (#[trigger] items[i]).address == items[0].address + i,
{
    assert forall|i: int| 0 <= i < items.len() implies (#[trigger] items[i]).address
        == items[0].address + i by {
        lemma_contiguous(items, i);
    }
}

proof fn lemma_contiguous(items: Seq<WriteItem>, i: int)
    requires
        contiguous(items),
        0 <= i < items.len(),
    ensures
        items[i].address == items[0].address + i,
    decreases i,
{
    if i > 0 {
        lemma_contiguous(items, i - 1);
        assert(items[i - 1].address + 1 == items[i].address);
    }
}

} // verus!
