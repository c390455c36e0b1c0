//! Tables as comma-separated files.
use crate::modbus::store::{DataStore, StoreView};
use crate::modbus::Area;
use crate::table::Table;
use crate::text;
use vstd::prelude::*;

verus! {

/// Whether a field has to be quoted.
pub open spec fn needs_quotes(s: Seq<char>) -> bool {
    s.contains(',') || s.contains('"') || s.contains('\n')
}

/// A text with each quote doubled.
pub open spec fn quotes_doubled(s: Seq<char>) -> Seq<char>
    decreases s.len(),
{
    if s.len() == 0 {
        seq![]
    } else if s.last() == '"' {
        quotes_doubled(s.drop_last()).push('"').push('"')
    } else {
        quotes_doubled(s.drop_last()).push(s.last())
    }
}

/// A field of a comma-separated line.
pub open spec fn field_text(s: Seq<char>) -> Seq<char> {
    if needs_quotes(s) {
        seq!['"'] + quotes_doubled(s) + seq!['"']
    } else {
        s
    }
}

/// A field of a comma-separated line.
pub fn csv_field(s: &str) -> (r: String)
    ensures
        r@ == field_text(s@),
{
    let chars = text::chars_of(s);
    let mut quoted: bool = false;
    let mut i: usize = 0;
    while i < chars.len()
        invariant
            i <= chars@.len(),
            quoted <==> exists|j: int|
                0 <= j < i && (chars@[j] == ',' || chars@[j] == '"' || chars@[j] == '\n'),
        decreases chars@.len() - i,
    {
        if chars[i] == ',' || chars[i] == '"' || chars[i] == '\n' {
            quoted = true;
        }
        i += 1;
    }
    proof {
        assert(quoted == needs_quotes(s@)) by {
            if quoted {
                let j = choose|j: int|
                    0 <= j < i && (chars@[j] == ',' || chars@[j] == '"' || chars@[j] == '\n');
                assert(s@.contains(chars@[j]));
            }
        }
    }
    if !quoted {
        return s.to_owned();
    }
    let mut out = String::new();
    out.push('"');
    let mut i: usize = 0;
    assert(out@ =~= seq!['"'] + quotes_doubled(s@.take(0)));
    while i < chars.len()
        invariant
            i <= chars@.len(),
            chars@ == s@,
            out@ == seq!['"'] + quotes_doubled(s@.take(i as int)),
        decreases chars@.len() - i,
    {
        assert(s@.take(i + 1).drop_last() =~= s@.take(i as int));
        let ghost before = quotes_doubled(s@.take(i as int));
        if chars[i] == '"' {
            out.push('"');
            out.push('"');
            assert(out@ =~= seq!['"'] + before.push('"').push('"'));
        } else {
            out.push(chars[i]);
            assert(out@ =~= seq!['"'] + before.push(chars@[i as int]));
        }
        i += 1;
    }
    assert(s@.take(i as int) =~= s@);
    out.push('"');
    assert(out@ =~= seq!['"'] + quotes_doubled(s@) + seq!['"']);
    out
}

/// The text of a quoted field without its quotes, with doubled quotes made single.
pub open spec fn quotes_halved(s: Seq<char>) -> Seq<char>
    decreases s.len(),
{
    if s.len() == 0 {
        seq![]
    } else if s.len() >= 2 && s.last() == '"' && s[s.len() - 2] == '"' {
        quotes_halved(s.take(s.len() - 2)).push('"')
    } else {
        quotes_halved(s.drop_last()).push(s.last())
    }
}

/// A field is read as it was written: halving the doubled quotes gives the text back, and the text
/// between the outer quotes has its quotes in pairs only.
pub proof fn law_fields_read_as_written(s: Seq<char>)
    ensures
        quotes_halved(quotes_doubled(s)) == s,
    decreases s.len(),
{
    if s.len() > 0 {
        let front = s.drop_last();
        law_fields_read_as_written(front);
        let q = quotes_doubled(s);
        let p = quotes_doubled(front);
        if s.last() == '"' {
            assert(q.take(q.len() - 2) =~= p);
            assert(quotes_halved(q) =~= s);
        } else {
            assert(q.drop_last() =~= p);
            assert(quotes_halved(q) =~= s);
        }
    } else {
        assert(quotes_halved(quotes_doubled(s)) =~= s);
    }
}

// ---------------------------------------------------------------- export

/// The first line of an export.
pub open spec fn export_header() -> Seq<char> {
    "Import,Function,Address,Name,Value\n"@
}

/// One line of an export.
pub open spec fn export_line(area: Area, address: int, name: Seq<char>, value: Seq<char>) -> Seq<char> {
    "yes,"@ + area.name() + ","@ + text::signed_decimal(address) + ","@ + field_text(name) + ","@
        + value + "\n"@
}

fn push_export_rest(out: &mut String, name: &str, value: &str)
    ensures
        final(out)@ == old(out)@ + ","@ + field_text(name@) + ","@ + value@ + "\n"@,
{
    out.push_str(",");
    let quoted = csv_field(name);
    out.push_str(quoted.as_str());
    out.push_str(",");
    out.push_str(value);
    out.push_str("\n");
}

/// Appends one line of an export; the value is written as it is given.
pub fn push_export_line(out: &mut String, area: Area, address: u64, name: &str, value: &str)
    ensures
        final(out)@ == old(out)@ + export_line(area, address as int, name@, value@),
{
    let ghost before = out@;
    out.push_str("yes,");
    out.push_str(area.csv_name());
    out.push_str(",");
    text::push_decimal(out, address);
    push_export_rest(out, name, value);
    assert(out@ =~= before + export_line(area, address as int, name@, value@));
}

/// Appends one line of an export of displayed rows, whose addresses may be negative and whose
/// values may need quotes.
pub fn push_row_line(out: &mut String, area: Area, address: i32, name: &str, value: &str)
    ensures
        final(out)@ == old(out)@ + export_line(area, address as int, name@, field_text(value@)),
{
    let ghost before = out@;
    out.push_str("yes,");
    out.push_str(area.csv_name());
    out.push_str(",");
    text::push_signed(out, address as i64);
    let quoted = csv_field(value);
    push_export_rest(out, name, quoted.as_str());
    assert(out@ =~= before + export_line(area, address as int, name@, field_text(value@)));
}

/// The name of an address, empty where it has none.
pub open spec fn name_of(names: Map<u64, String>, i: int) -> Seq<char> {
    if names.dom().contains(i as u64) {
        names[i as u64]@
    } else {
        seq![]
    }
}

/// Whether an entry is exported: it has a name, or it is not zero.
pub open spec fn exported(names: Map<u64, String>, i: int, value: nat) -> bool {
    value != 0 || names.dom().contains(i as u64)
}

/// The lines of a table up to an address: each entry that has a name or is not zero.
pub open spec fn export_lines(area: Area, values: Seq<nat>, names: Map<u64, String>, k: int) -> Seq<char>
    decreases k,
{
    if k <= 0 {
        seq![]
    } else {
        let before = export_lines(area, values, names, k - 1);
        if exported(names, k - 1, values[k - 1]) {
            before + export_line(
                area,
                k - 1,
                name_of(names, k - 1),
                text::decimal(values[k - 1]),
            )
        } else {
            before
        }
    }
}

/// Bits as numbers.
pub open spec fn bit_values(v: Seq<bool>) -> Seq<nat> {
    v.map_values(|b: bool| if b { 1nat } else { 0nat })
}

/// Registers as numbers.
pub open spec fn word_values(v: Seq<u16>) -> Seq<nat> {
    v.map_values(|w: u16| w as nat)
}

/// The export of all four tables.
pub open spec fn export_text(s: StoreView, names: Map<u64, String>) -> Seq<char> {
    export_header() + export_lines(
        Area::Coils,
        bit_values(s.coils),
        names,
        s.coils.len() as int,
    ) + export_lines(
        Area::DiscreteInputs,
        bit_values(s.discrete_inputs),
        names,
        s.discrete_inputs.len() as int,
    ) + export_lines(
        Area::HoldingRegisters,
        word_values(s.holding),
        names,
        s.holding.len() as int,
    ) + export_lines(Area::InputRegisters, word_values(s.input), names, s.input.len() as int)
}

fn push_entry(out: &mut String, area: Area, i: usize, value: u64, names: &Table<String>)
    requires
        names.wf(),
    ensures
        final(out)@ == old(out)@ + (if exported(names.map(), i as int, value as nat) {
            export_line(area, i as int, name_of(names.map(), i as int), text::decimal(value as nat))
        } else {
            seq![]
        }),
{
    let ghost before = out@;
    match names.find(i as u64) {
        Some(at) => {
            let value = text::decimal_string(value);
            push_export_line(out, area, i as u64, names.value_at(at).as_str(), value.as_str());
        },
        None => {
            if value != 0 {
                let value = text::decimal_string(value);
                push_export_line(out, area, i as u64, "", value.as_str());
                proof {
                    reveal_strlit("");
                    assert(""@ =~= Seq::<char>::empty());
                }
            } else {
                assert(out@ =~= before + seq![]);
            }
        },
    }
}

fn push_bits(out: &mut String, area: Area, mem: &[bool], names: &Table<String>)
    requires
        names.wf(),
    ensures
        final(out)@ == old(out)@ + export_lines(
            area,
            bit_values(mem@),
            names.map(),
            mem@.len() as int,
        ),
{
    let ghost before = out@;
    let ghost values = bit_values(mem@);
    let mut i: usize = 0;
    assert(before + export_lines(area, values, names.map(), 0) =~= before);
    while i < mem.len()
        invariant
            i <= mem@.len(),
            names.wf(),
            values == bit_values(mem@),
            out@ == before + export_lines(area, values, names.map(), i as int),
        decreases mem@.len() - i,
    {
        let value: u64 = if mem[i] {
            1
        } else {
            0
        };
        push_entry(out, area, i, value, names);
        assert(out@ =~= before + export_lines(area, values, names.map(), i + 1));
        i += 1;
    }
}

fn push_words(out: &mut String, area: Area, mem: &[u16], names: &Table<String>)
    requires
        names.wf(),
    ensures
        final(out)@ == old(out)@ + export_lines(
            area,
            word_values(mem@),
            names.map(),
            mem@.len() as int,
        ),
{
    let ghost before = out@;
    let ghost values = word_values(mem@);
    let mut i: usize = 0;
    assert(before + export_lines(area, values, names.map(), 0) =~= before);
    while i < mem.len()
        invariant
            i <= mem@.len(),
            names.wf(),
            values == word_values(mem@),
            out@ == before + export_lines(area, values, names.map(), i as int),
        decreases mem@.len() - i,
    {
        push_entry(out, area, i, mem[i] as u64, names);
        assert(out@ =~= before + export_lines(area, values, names.map(), i + 1));
        i += 1;
    }
}

/// Exports all four tables: each entry that has a name or is not zero.
pub fn build_server_csv(store: &DataStore, names: &Table<String>) -> (r: String)
    requires
        names.wf(),
    ensures
        r@ == export_text(store@, names.map()),
{
    let mut out = "Import,Function,Address,Name,Value\n".to_owned();
    push_bits(&mut out, Area::Coils, store.coils.as_slice(), names);
    push_bits(&mut out, Area::DiscreteInputs, store.discrete_inputs.as_slice(), names);
    push_words(&mut out, Area::HoldingRegisters, store.holding.as_slice(), names);
    push_words(&mut out, Area::InputRegisters, store.input.as_slice(), names);
    out
}

} // verus!
