//! The rows of the register grids.
use crate::modbus::store::DataStore;
use crate::modbus::store::{window_bool, window_end, window_u16, StoreView};
use crate::modbus::Area;
use crate::table::Table;
use crate::text;
use vstd::prelude::*;

verus! {

/// What a poll brought.
#[derive(Debug)]
pub enum PollData {
    Regs(Vec<u16>),
    Bits(Vec<bool>),
}

/// What a poll brought.
pub enum PollView {
    Regs(Seq<u16>),
    Bits(Seq<bool>),
}

impl View for PollData {
    type V = PollView;

    open spec fn view(&self) -> PollView {
        match self {
            PollData::Regs(v) => PollView::Regs(v@),
            PollData::Bits(v) => PollView::Bits(v@),
        }
    }
}

impl PollView {
    /// The values that a poll brought, bits as zero and one.
    pub open spec fn values(self) -> Seq<u16> {
        match self {
            PollView::Regs(v) => v,
            PollView::Bits(v) => v.map_values(|b: bool| if b { 1u16 } else { 0u16 }),
        }
    }

    /// The number of values.
    pub open spec fn count(self) -> nat {
        match self {
            PollView::Regs(v) => v.len(),
            PollView::Bits(v) => v.len(),
        }
    }
}

/// The values that a poll brought, bits as zero and one: the inputs of derived channels.
pub fn poll_values(data: &PollData) -> (r: Vec<u16>)
    ensures
        r@ == data@.values(),
{
    let mut out: Vec<u16> = Vec::new();
    let mut i: usize = 0;
    match data {
        PollData::Regs(v) => {
            while i < v.len()
                invariant
                    i <= v@.len(),
                    out@ == v@.take(i as int),
                decreases v@.len() - i,
            {
                out.push(v[i]);
                assert(out@ =~= v@.take(i + 1));
                i += 1;
            }
            assert(v@.take(i as int) =~= v@);
        },
        PollData::Bits(v) => {
            let ghost f = |b: bool| if b { 1u16 } else { 0u16 };
            while i < v.len()
                invariant
                    i <= v@.len(),
                    f == (|b: bool| if b { 1u16 } else { 0u16 }),
                    out@ =~= v@.take(i as int).map_values(f),
                decreases v@.len() - i,
            {
                out.push(
                    if v[i] {
                        1
                    } else {
                        0
                    },
                );
                i += 1;
            }
            assert(v@.take(i as int) =~= v@);
            assert(out@ =~= v@.map_values(f));
        },
    }
    out
}

/// The part of the tables that a view of the server shows.
#[derive(Clone, Copy, Debug)]
pub struct SlaveView {
    pub area: Area,
    pub address: u16,
    pub quantity: u16,
    pub format: u32,
}

/// The window of a table.
pub open spec fn window<T>(mem: Seq<T>, address: u16, quantity: u16) -> Seq<T> {
    if address >= mem.len() {
        seq![]
    } else {
        mem.subrange(address as int, window_end(mem.len(), address as int, quantity as int))
    }
}

/// What a view of the server shows.
pub open spec fn shown(s: StoreView, view: SlaveView) -> PollView {
    match view.area {
        Area::Coils => PollView::Bits(window(s.coils, view.address, view.quantity)),
        Area::DiscreteInputs => PollView::Bits(
            window(s.discrete_inputs, view.address, view.quantity),
        ),
        Area::HoldingRegisters => PollView::Regs(window(s.holding, view.address, view.quantity)),
        Area::InputRegisters => PollView::Regs(window(s.input, view.address, view.quantity)),
    }
}

/// What a view of the server shows.
pub fn slave_window(store: &DataStore, view: &SlaveView) -> (r: PollData)
    ensures
        r@ == shown(store@, *view),
{
    let start: usize = view.address as usize;
    let qty: usize = view.quantity as usize;
    match view.area {
        Area::Coils => PollData::Bits(window_bool(store.coils.as_slice(), start, qty)),
        Area::DiscreteInputs => PollData::Bits(
            window_bool(store.discrete_inputs.as_slice(), start, qty),
        ),
        Area::HoldingRegisters => PollData::Regs(window_u16(store.holding.as_slice(), start, qty)),
        Area::InputRegisters => PollData::Regs(window_u16(store.input.as_slice(), start, qty)),
    }
}

/// The four parts of a colour: opacity, red, green and blue.
pub open spec fn colour_parts(argb: u32) -> (u8, u8, u8, u8) {
    (
        (argb as int / 0x100_0000) as u8,
        (argb as int / 0x1_0000 % 0x100) as u8,
        (argb as int / 0x100 % 0x100) as u8,
        (argb as int % 0x100) as u8,
    )
}

/// The four parts of a colour: opacity, red, green and blue.
pub fn argb_to_color(argb: u32) -> (r: (u8, u8, u8, u8))
    ensures
        r == colour_parts(argb),
{
    (
        (argb / 0x100_0000) as u8,
        (argb / 0x1_0000 % 0x100) as u8,
        (argb / 0x100 % 0x100) as u8,
        (argb % 0x100) as u8,
    )
}

/// A value as it is displayed: its text, the colour that a rule gives it (zero for none), the
/// label that its value has, and its address in the notation of programmable controllers.
#[derive(Debug)]
pub struct DisplayRow {
    pub address: i32,
    pub value: String,
    pub raw: String,
    pub argb: u32,
    pub label: Option<String>,
    pub plc_addr: String,
}

/// A row of a register grid.
#[derive(Debug)]
pub struct RegRow {
    pub address: i32,
    pub name: String,
    pub value: String,
    pub raw: String,
    pub editable: bool,
    pub colored: bool,
    pub vcolor: (u8, u8, u8, u8),
    pub hex_addr: String,
    pub plc_addr: String,
    pub auto_inc: bool,
}

/// What a row of a register grid shows.
pub struct RegRowView {
    pub address: int,
    pub name: Seq<char>,
    pub value: Seq<char>,
    pub raw: Seq<char>,
    pub editable: bool,
    pub colored: bool,
    pub vcolor: (u8, u8, u8, u8),
    pub hex_addr: Seq<char>,
    pub plc_addr: Seq<char>,
    pub auto_inc: bool,
}

impl View for RegRow {
    type V = RegRowView;

    open spec fn view(&self) -> RegRowView {
        RegRowView {
            address: self.address as int,
            name: self.name@,
            value: self.value@,
            raw: self.raw@,
            editable: self.editable,
            colored: self.colored,
            vcolor: self.vcolor,
            hex_addr: self.hex_addr@,
            plc_addr: self.plc_addr@,
            auto_inc: self.auto_inc,
        }
    }
}

/// What the rows of a grid show.
pub open spec fn grid_view(rows: Seq<RegRow>) -> Seq<RegRowView> {
    rows.map_values(|r: RegRow| r@)
}

/// The low 16 bits of an address.
pub open spec fn low_address(address: i32) -> u64 {
    (address as int % 0x1_0000) as u64
}

/// The 32 bits of an address as an unsigned number.
pub open spec fn bits_of(address: i32) -> nat {
    (address as int % 0x1_0000_0000) as nat
}

fn unsigned_bits(address: i32) -> (r: u64)
    ensures
        r == bits_of(address),
{
    if address >= 0 {
        address as u64
    } else {
        (address as i64 + 0x1_0000_0000) as u64
    }
}

/// The name that an address was given, or nothing.
pub open spec fn given_name(names: Map<u64, String>, address: i32) -> Seq<char> {
    let k = low_address(address);
    if names.dom().contains(k) {
        names[k]@
    } else {
        seq![]
    }
}

/// The row of a displayed value.
pub open spec fn grid_row(r: DisplayRow, names: Map<u64, String>, editable: bool) -> RegRowView {
    RegRowView {
        address: r.address as int,
        name: given_name(names, r.address),
        value: match r.label {
            Some(label) => r.value@ + " ("@ + label@ + ")"@,
            None => r.value@,
        },
        raw: r.raw@,
        editable,
        colored: r.argb != 0,
        vcolor: colour_parts(r.argb),
        hex_addr: "0x"@ + text::hex_padded(bits_of(r.address), 4),
        plc_addr: r.plc_addr@,
        auto_inc: false,
    }
}

/// The rows of displayed values.
pub open spec fn grid_rows(rows: Seq<DisplayRow>, names: Map<u64, String>, editable: bool) -> Seq<
    RegRowView,
> {
    rows.map_values(|r: DisplayRow| grid_row(r, names, editable))
}

fn name_at(names: &Table<String>, address: i32) -> (r: String)
    requires
        names.wf(),
    ensures
        r@ == given_name(names.map(), address),
{
    let key: u64 = unsigned_bits(address) % 0x1_0000;
    assert(key == low_address(address));
    match names.find(key) {
        Some(i) => names.value_at(i).clone(),
        None => {
            let out = String::new();
            assert(out@ =~= seq![]);
            out
        },
    }
}

fn build_row(r: &DisplayRow, names: &Table<String>, editable: bool) -> (row: RegRow)
    requires
        names.wf(),
    ensures
        row@ == grid_row(*r, names.map(), editable),
{
    let value = match &r.label {
        Some(label) => {
            let mut out = r.value.clone();
            out.push_str(" (");
            out.push_str(label.as_str());
            out.push_str(")");
            out
        },
        None => r.value.clone(),
    };
    let mut hex_addr = "0x".to_owned();
    text::push_hex_padded(&mut hex_addr, unsigned_bits(r.address), 4);
    RegRow {
        address: r.address,
        name: name_at(names, r.address),
        value,
        raw: r.raw.clone(),
        editable,
        colored: r.argb != 0,
        vcolor: argb_to_color(r.argb),
        hex_addr,
        plc_addr: r.plc_addr.clone(),
        auto_inc: false,
    }
}

/// The names of the rows of a grid, in their order.
pub open spec fn row_names(rows: Seq<RegRowView>) -> Seq<Seq<char>> {
    rows.map_values(|r: RegRowView| r.name)
}

/// Builds the rows of a grid and, beside them, their names.
pub fn build_grid(rows: &[DisplayRow], names: &Table<String>, editable: bool) -> (r: (
    Vec<RegRow>,
    Vec<String>,
))
    requires
        names.wf(),
    ensures
        grid_view(r.0@) == grid_rows(rows@, names.map(), editable),
        text::texts(r.1@) == row_names(grid_rows(rows@, names.map(), editable)),
{
    let mut grid: Vec<RegRow> = Vec::new();
    let mut list: Vec<String> = Vec::new();
    let mut i: usize = 0;
    let ghost m = names.map();
    while i < rows.len()
        invariant
            i <= rows@.len(),
            names.wf(),
            m == names.map(),
            grid_view(grid@) =~= grid_rows(rows@.take(i as int), m, editable),
            text::texts(list@) =~= row_names(grid_rows(rows@.take(i as int), m, editable)),
        decreases rows@.len() - i,
    {
        let row = build_row(&rows[i], names, editable);
        let ghost g0 = grid@;
        let ghost l0 = list@;
        list.push(row.name.clone());
        grid.push(row);
        proof {
            let now = grid_row(rows@[i as int], m, editable);
            assert(grid_view(grid@) =~= grid_view(g0).push(now));
            assert(text::texts(list@) =~= text::texts(l0).push(now.name));
            assert(grid_rows(rows@.take(i + 1), m, editable) =~= grid_rows(
                rows@.take(i as int),
                m,
                editable,
            ).push(now));
            assert(row_names(grid_rows(rows@.take(i + 1), m, editable)) =~= row_names(
                grid_rows(rows@.take(i as int), m, editable),
            ).push(now.name));
        }
        i += 1;
    }
    assert(rows@.take(i as int) =~= rows@);
    (grid, list)
}

/// A derived channel as it is displayed: its name and the text of its value, if its formula has
/// one.
#[derive(Debug)]
pub struct DerivedValue {
    pub name: String,
    pub value: Option<String>,
}

/// The row of a derived channel. Its address is negative.
pub open spec fn derived_row(d: DerivedValue, i: int) -> RegRowView {
    RegRowView {
        address: -1 - i,
        name: d.name@,
        value: match d.value {
            Some(v) => v@,
            None => "—"@,
        },
        raw: seq![],
        editable: false,
        colored: false,
        vcolor: (0, 0, 0, 0),
        hex_addr: "fx"@,
        plc_addr: "fx"@,
        auto_inc: false,
    }
}

/// The rows of the derived channels.
pub open spec fn derived_rows(derived: Seq<DerivedValue>) -> Seq<RegRowView> {
    Seq::new(derived.len(), |i: int| derived_row(derived[i], i))
}

/// Builds the grid of a polling window: the polled values, then the derived channels.
pub fn master_grid(rows: &[DisplayRow], names: &Table<String>, derived: &[DerivedValue]) -> (r: (
    Vec<RegRow>,
    Vec<String>,
))
    requires
        names.wf(),
        derived@.len() < 0x8000_0000,
    ensures
        grid_view(r.0@) == grid_rows(rows@, names.map(), false) + derived_rows(derived@),
        text::texts(r.1@) == row_names(
            grid_rows(rows@, names.map(), false) + derived_rows(derived@),
        ),
{
    let built = build_grid(rows, names, false);
    let mut grid = built.0;
    let mut list = built.1;
    let ghost head = grid_rows(rows@, names.map(), false);
    let mut i: usize = 0;
    assert(head + derived_rows(derived@).take(0) =~= head);
    while i < derived.len()
        invariant
            i <= derived@.len() < 0x8000_0000,
            grid_view(grid@) == head + derived_rows(derived@).take(i as int),
            text::texts(list@) == row_names(head + derived_rows(derived@).take(i as int)),
        decreases derived@.len() - i,
    {
        let value = match &derived[i].value {
            Some(v) => v.clone(),
            None => "—".to_owned(),
        };
        let raw = String::new();
        assert(raw@ =~= seq![]);
        let row = RegRow {
            address: -1 - (i as i32),
            name: derived[i].name.clone(),
            value,
            raw,
            editable: false,
            colored: false,
            vcolor: (0, 0, 0, 0),
            hex_addr: "fx".to_owned(),
            plc_addr: "fx".to_owned(),
            auto_inc: false,
        };
        let ghost g0 = grid@;
        let ghost l0 = list@;
        list.push(row.name.clone());
        grid.push(row);
        proof {
            let now = derived_row(derived@[i as int], i as int);
            assert(row@ == now);
            assert(grid_view(grid@) =~= grid_view(g0).push(now));
            assert(text::texts(list@) =~= text::texts(l0).push(now.name));
            let before = head + derived_rows(derived@).take(i as int);
            let after = head + derived_rows(derived@).take(i + 1);
            assert(after =~= before.push(now));
            assert(row_names(after) =~= row_names(before).push(now.name));
        }
        i += 1;
    }
    assert(derived_rows(derived@).take(i as int) =~= derived_rows(derived@));
    (grid, list)
}

/// Marks the rows whose entries count up by themselves.
pub open spec fn marked(row: RegRowView, area: Area, auto_inc: Seq<(Area, u16)>) -> RegRowView {
    RegRowView {
        auto_inc: auto_inc.contains((area, (row.address % 0x1_0000) as u16)),
        ..row
    }
}

/// Whether an entry counts up by itself.
pub fn counts_up(auto_inc: &[(Area, u16)], area: Area, address: u16) -> (r: bool)
    ensures
        r == auto_inc@.contains((area, address)),
{
    let mut i: usize = 0;
    while i < auto_inc.len()
        invariant
            i <= auto_inc@.len(),
            forall|j: int| 0 <= j < i ==> auto_inc@[j] != (area, address),
        decreases auto_inc@.len() - i,
    {
        if auto_inc[i].0 == area && auto_inc[i].1 == address {
            assert(auto_inc@[i as int] == (area, address));
            return true;
        }
        i += 1;
    }
    false
}

/// Builds the grid of the server: its values, of which those that count up by themselves are
/// marked.
pub fn slave_grid(
    rows: &[DisplayRow],
    names: &Table<String>,
    area: Area,
    auto_inc: &[(Area, u16)],
) -> (r: (Vec<RegRow>, Vec<String>))
    requires
        names.wf(),
    ensures
        grid_view(r.0@) == grid_rows(rows@, names.map(), true).map_values(
            |row: RegRowView| marked(row, area, auto_inc@),
        ),
        text::texts(r.1@) == row_names(grid_rows(rows@, names.map(), true)),
{
    let built = build_grid(rows, names, true);
    let mut grid = built.0;
    let ghost plain = grid_rows(rows@, names.map(), true);
    let ghost f = |row: RegRowView| marked(row, area, auto_inc@);
    assert(grid_view(grid@).len() == grid@.len());
    let mut i: usize = 0;
    while i < grid.len()
        invariant
            i <= grid@.len() == plain.len(),
            f == (|row: RegRowView| marked(row, area, auto_inc@)),
            forall|j: int| 0 <= j < i ==> (#[trigger] grid@[j])@ == f(plain[j]),
            forall|j: int| i <= j < grid@.len() ==> (#[trigger] grid@[j])@ == plain[j],
        decreases grid@.len() - i,
    {
        let address: u16 = (unsigned_bits(grid[i].address) % 0x1_0000) as u16;
        let mark: bool = counts_up(auto_inc, area, address);
        let ghost before = grid@[i as int]@;
        assert(before == plain[i as int]);
        grid[i].auto_inc = mark;
        assert(grid@[i as int]@ == marked(before, area, auto_inc@));
        i += 1;
    }
    assert(grid_view(grid@) =~= plain.map_values(f));
    (grid, built.1)
}

/// Whether two lists of names are the same.
pub fn same_names(a: &[String], b: &[String]) -> (r: bool)
    ensures
        r == (text::texts(a@) == text::texts(b@)),
{
    if a.len() != b.len() {
        assert(text::texts(a@).len() != text::texts(b@).len());
        return false;
    }
    let mut i: usize = 0;
    while i < a.len()
        invariant
            i <= a@.len() == b@.len(),
            forall|j: int| 0 <= j < i ==> (#[trigger] text::texts(a@)[j]) == text::texts(b@)[j],
        decreases a@.len() - i,
    {
        if !text::same_text(a[i].as_str(), b[i].as_str()) {
            assert(text::texts(a@)[i as int] != text::texts(b@)[i as int]);
            return false;
        }
        i += 1;
    }
    assert(text::texts(a@) =~= text::texts(b@));
    true
}

/// Takes over the names of a grid. They are shown anew only where they changed, so that what is
/// being typed is left alone.
pub fn refresh_names(shown: &mut Vec<String>, names: Vec<String>) -> (r: bool)
    ensures
        r == (text::texts(old(shown)@) != text::texts(names@)),
        text::texts(final(shown)@) == text::texts(names@),
{
    if same_names(shown.as_slice(), names.as_slice()) {
        return false;
    }
    *shown = names;
    true
}

} // verus!
